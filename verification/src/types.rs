//! The plain data that the client's parts hand to each other.

use vstd::prelude::*;
use crate::word::U256;

verus! {

/// A 20-byte account or contract address.
#[derive(Clone, Copy, Debug, PartialEq, Eq)]
pub struct Address {
    pub bytes: [u8; 20],
}

impl View for Address {
    type V = Seq<u8>;

    open spec fn view(&self) -> Seq<u8> {
        self.bytes@
    }
}

impl Address {
    /// Whether two addresses hold the same bytes.
    pub fn same(&self, other: &Address) -> (r: bool)
        ensures
            r == (self@ == other@),
            r == (*self == *other),
    {
        let mut i: usize = 0;
        while i < 20
            invariant
                i <= 20,
                forall|j: int| 0 <= j < i ==> self.bytes@[j] == other.bytes@[j],
            decreases 20 - i,
        {
            if self.bytes[i] != other.bytes[i] {
                return false;
            }
            i += 1;
        }
        assert(self.bytes@ =~= other.bytes@);
        assert(self.bytes =~= other.bytes);
        true
    }
}

/// How a transaction pays for its gas.
#[derive(Clone, Copy, Debug, PartialEq, Eq, Structural)]
pub enum GasPricing {
    /// One price per unit of gas.
    Legacy { gas_price: u128 },
    /// A cap on the fee per unit of gas, and the tip out of it.
    FeeMarket { max_fee: u128, max_priority_fee: u128 },
}

/// A transaction before it is signed. The fields that may be absent are
/// filled in before signing.
#[derive(Clone, Debug, PartialEq, Eq)]
pub struct UnsignedTransaction {
    pub from: Option<Address>,
    /// The account or contract called; absent where the transaction creates a contract.
    pub to: Option<Address>,
    pub value: U256,
    pub data: Vec<u8>,
    pub nonce: Option<u64>,
    pub gas_limit: Option<u64>,
    pub gas: Option<GasPricing>,
    pub chain_id: Option<u64>,
}

/// What an unsigned transaction is.
pub struct TransactionModel {
    pub from: Option<Address>,
    pub to: Option<Address>,
    pub value: U256,
    pub data: Seq<u8>,
    pub nonce: Option<u64>,
    pub gas_limit: Option<u64>,
    pub gas: Option<GasPricing>,
    pub chain_id: Option<u64>,
}

impl View for UnsignedTransaction {
    type V = TransactionModel;

    open spec fn view(&self) -> TransactionModel {
        TransactionModel {
            from: self.from,
            to: self.to,
            value: self.value,
            data: self.data@,
            nonce: self.nonce,
            gas_limit: self.gas_limit,
            gas: self.gas,
            chain_id: self.chain_id,
        }
    }
}

impl UnsignedTransaction {
    /// A transaction with the given target, value and data, and nothing else filled in.
    pub fn new(to: Option<Address>, value: U256, data: Vec<u8>) -> (r: UnsignedTransaction)
        ensures
            r@ == (TransactionModel {
                from: None,
                to,
                value,
                data: data@,
                nonce: None,
                gas_limit: None,
                gas: None,
                chain_id: None,
            }),
    {
        UnsignedTransaction {
            from: None,
            to,
            value,
            data,
            nonce: None,
            gas_limit: None,
            gas: None,
            chain_id: None,
        }
    }

    /// A copy of the transaction.
    pub fn duplicate(&self) -> (r: UnsignedTransaction)
        ensures
            r@ == self@,
    {
        UnsignedTransaction {
            from: self.from,
            to: self.to,
            value: self.value,
            data: vstd::slice::slice_to_vec(self.data.as_slice()),
            nonce: self.nonce,
            gas_limit: self.gas_limit,
            gas: self.gas,
            chain_id: self.chain_id,
        }
    }
}

/// The signature of a transaction.
#[derive(Clone, Copy, Debug, PartialEq, Eq)]
pub struct Signature {
    pub r: [u8; 32],
    pub s: [u8; 32],
    /// The recovery id: whether the y coordinate of the signing point is odd.
    pub odd_y: bool,
}

/// A transaction with its signature, ready to be submitted.
#[derive(Clone, Debug, PartialEq, Eq)]
pub struct SignedTransaction {
    pub tx: UnsignedTransaction,
    pub signature: Signature,
    /// The serialized transaction, as the node takes it.
    pub raw: Vec<u8>,
    /// The digest of `raw`, by which the node knows the transaction.
    pub hash: [u8; 32],
}

/// What a signed transaction is.
pub struct SignedModel {
    pub tx: TransactionModel,
    pub r: Seq<u8>,
    pub s: Seq<u8>,
    pub odd_y: bool,
    pub raw: Seq<u8>,
    pub hash: Seq<u8>,
}

impl View for SignedTransaction {
    type V = SignedModel;

    open spec fn view(&self) -> SignedModel {
        SignedModel {
            tx: self.tx@,
            r: self.signature.r@,
            s: self.signature.s@,
            odd_y: self.signature.odd_y,
            raw: self.raw@,
            hash: self.hash@,
        }
    }
}

/// An event that a contract logged while a transaction ran.
#[derive(Clone, Debug, PartialEq, Eq)]
pub struct Log {
    pub address: Address,
    pub topics: Vec<[u8; 32]>,
    pub data: Vec<u8>,
}

/// What the node reports of a transaction that it knows.
#[derive(Clone, Debug, PartialEq, Eq)]
pub struct TransactionReceipt {
    pub transaction_hash: [u8; 32],
    /// The block that holds the transaction; absent until it is mined.
    pub block_number: Option<u64>,
    /// The contract that the transaction created, if it created one.
    pub contract_address: Option<Address>,
    /// Whether the transaction ran to its end.
    pub success: bool,
    pub logs: Vec<Log>,
}

/// Why the node gave no answer.
#[derive(Clone, Debug, PartialEq, Eq)]
pub enum TransportError {
    /// The request did not reach the node, or the answer did not come back.
    Network(String),
    /// The node took too long.
    Timeout,
    /// The node answered with an error of its own.
    Rpc { code: i64, message: String },
}

} // verus!
