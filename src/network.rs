use vstd::prelude::*;

use crate::chain::Blockchain;
use crate::transaction::Transfer;

verus! {

/// A transfer as a peer submits it.
pub struct TransferRequest {
    pub id: u128,
    pub amount: i64,
    pub sender: String,
    pub recipient: String,
    pub signature: String,
}

/// The index of the block that will hold an admitted transfer.
pub struct BlockIndexResult {
    pub block_index: u64,
}

/// A known peer.
#[derive(Clone)]
pub struct Client {
    pub name: Option<String>,
    pub public_key: String,
}

/// What a node tells about itself: its public key and its chain.
#[derive(Clone)]
pub struct SelfInformation {
    pub public_key: String,
    pub blockchain: Blockchain,
}

/// The known peers.
pub struct ClientList {
    pub clients: Vec<Client>,
}

/// A failure as it is reported to a peer.
#[derive(Debug)]
pub struct ErrorResult<E> {
    pub error: E,
}

impl From<TransferRequest> for Transfer {
    fn from(transfer: TransferRequest) -> (r: Transfer)
        ensures
            r.id == transfer.id,
            r.amount == transfer.amount,
            r.sender == transfer.sender,
            r.recipient == transfer.recipient,
            r.signature == transfer.signature,
    {
        Transfer {
            id: transfer.id,
            amount: transfer.amount,
            sender: transfer.sender,
            recipient: transfer.recipient,
            signature: transfer.signature,
        }
    }
}

impl vstd::std_specs::convert::FromSpecImpl<TransferRequest> for Transfer {
    open spec fn obeys_from_spec() -> bool {
        true
    }

    open spec fn from_spec(transfer: TransferRequest) -> Transfer {
        Transfer {
            id: transfer.id,
            amount: transfer.amount,
            sender: transfer.sender,
            recipient: transfer.recipient,
            signature: transfer.signature,
        }
    }
}

} // verus!
