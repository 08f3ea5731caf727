//! The signer: one private key, the address that belongs to it, and the
//! signing of transactions that have every field filled in.

use vstd::prelude::*;
use alloy::consensus::{SignableTransaction, TxEip1559, TxLegacy};
use alloy::network::TxSignerSync;
use alloy::primitives::{Bytes, TxKind, B256, U256};
use alloy::signers::local::PrivateKeySigner;
use crate::hash::{keccak256, keccak256_of};
use crate::types::{
    Address, GasPricing, Signature, SignedModel, SignedTransaction, TransactionModel,
    UnsignedTransaction,
};

verus! {

/// The address that belongs to a private key of 32 bytes; none where the
/// bytes are no private key.
pub uninterp spec fn address_of_key(key: Seq<u8>) -> Option<Seq<u8>>;

/// The signature of a transaction with one gas price: `r`, `s` and the
/// recovery id.
pub uninterp spec fn legacy_signature(
    key: Seq<u8>,
    chain_id: u64,
    nonce: u64,
    gas_price: u128,
    gas_limit: u64,
    to: Option<Seq<u8>>,
    value: Seq<u8>,
    input: Seq<u8>,
) -> Option<(Seq<u8>, Seq<u8>, bool)>;

/// The serialized form of a transaction with one gas price and its signature.
pub uninterp spec fn legacy_raw(
    chain_id: u64,
    nonce: u64,
    gas_price: u128,
    gas_limit: u64,
    to: Option<Seq<u8>>,
    value: Seq<u8>,
    input: Seq<u8>,
    r: Seq<u8>,
    s: Seq<u8>,
    odd_y: bool,
) -> Seq<u8>;

/// The signature of a transaction with a fee cap and a tip: `r`, `s` and the
/// recovery id.
pub uninterp spec fn fee_market_signature(
    key: Seq<u8>,
    chain_id: u64,
    nonce: u64,
    max_fee: u128,
    max_priority_fee: u128,
    gas_limit: u64,
    to: Option<Seq<u8>>,
    value: Seq<u8>,
    input: Seq<u8>,
) -> Option<(Seq<u8>, Seq<u8>, bool)>;

/// The serialized form of a transaction with a fee cap and a tip and its signature.
pub uninterp spec fn fee_market_raw(
    chain_id: u64,
    nonce: u64,
    max_fee: u128,
    max_priority_fee: u128,
    gas_limit: u64,
    to: Option<Seq<u8>>,
    value: Seq<u8>,
    input: Seq<u8>,
    r: Seq<u8>,
    s: Seq<u8>,
    odd_y: bool,
) -> Seq<u8>;

/// The bytes of an address, if there is one.
pub open spec fn address_bytes(a: Option<Address>) -> Option<Seq<u8>> {
    match a {
        Some(a) => Some(a@),
        None => None,
    }
}

/// The three parts of a signature, if there is one.
pub open spec fn signature_parts(sig: Option<Signature>) -> Option<(Seq<u8>, Seq<u8>, bool)> {
    match sig {
        Some(sig) => Some((sig.r@, sig.s@, sig.odd_y)),
        None => None,
    }
}

/// `PrivateKeySigner::from_bytes` and `address` of alloy: the address of the
/// key pair whose secret scalar is `key`, and none where alloy takes the
/// bytes for no key. The address depends on `key` alone.
#[verifier::external_body]
fn derive_address(key: &[u8; 32]) -> (r: Option<Address>)
    ensures
        address_bytes(r) == address_of_key(key@),
{
    match PrivateKeySigner::from_bytes(&B256::from(*key)) {
        Ok(signer) => Some(Address { bytes: signer.address().into_array() }),
        Err(_) => None,
    }
}

/// `TxSignerSync::sign_transaction_sync` of alloy's `PrivateKeySigner` on a
/// `TxLegacy`. The signature is made with the deterministic nonce of RFC
/// 6979, so that it depends on the arguments alone.
#[verifier::external_body]
fn sign_legacy(
    key: &[u8; 32],
    chain_id: u64,
    nonce: u64,
    gas_price: u128,
    gas_limit: u64,
    to: Option<Address>,
    value: [u8; 32],
    input: &[u8],
) -> (r: Option<Signature>)
    ensures
        signature_parts(r) == legacy_signature(
            key@,
            chain_id,
            nonce,
            gas_price,
            gas_limit,
            address_bytes(to),
            value@,
            input@,
        ),
{
    let signer = PrivateKeySigner::from_bytes(&B256::from(*key)).ok()?;
    let to = match to {
        Some(a) => TxKind::Call(a.bytes.into()),
        None => TxKind::Create,
    };
    let (value, input) = (U256::from_be_bytes(value), Bytes::copy_from_slice(input));
    let mut tx = TxLegacy { chain_id: Some(chain_id), nonce, gas_price, gas_limit, to, value, input };
    let sig = signer.sign_transaction_sync(&mut tx).ok()?;
    Some(Signature { r: sig.r().to_be_bytes(), s: sig.s().to_be_bytes(), odd_y: sig.v() })
}

/// `Signed::eip2718_encode` of alloy on a `TxLegacy` with its signature:
/// the bytes that the node takes for the transaction.
#[verifier::external_body]
fn encode_legacy(
    chain_id: u64,
    nonce: u64,
    gas_price: u128,
    gas_limit: u64,
    to: Option<Address>,
    value: [u8; 32],
    input: &[u8],
    sig: Signature,
) -> (raw: Vec<u8>)
    ensures
        raw@ == legacy_raw(
            chain_id,
            nonce,
            gas_price,
            gas_limit,
            address_bytes(to),
            value@,
            input@,
            sig.r@,
            sig.s@,
            sig.odd_y,
        ),
{
    let to = match to {
        Some(a) => TxKind::Call(a.bytes.into()),
        None => TxKind::Create,
    };
    let (value, input) = (U256::from_be_bytes(value), Bytes::copy_from_slice(input));
    let tx = TxLegacy { chain_id: Some(chain_id), nonce, gas_price, gas_limit, to, value, input };
    let sig = alloy::primitives::Signature::from_scalars_and_parity(sig.r.into(), sig.s.into(), sig.odd_y);
    let mut raw = Vec::new();
    tx.into_signed(sig).eip2718_encode(&mut raw);
    raw
}

/// `TxSignerSync::sign_transaction_sync` of alloy's `PrivateKeySigner` on a
/// `TxEip1559` without access list. The signature is made with the
/// deterministic nonce of RFC 6979, so that it depends on the arguments alone.
#[verifier::external_body]
fn sign_fee_market(
    key: &[u8; 32],
    chain_id: u64,
    nonce: u64,
    max_fee: u128,
    max_priority_fee: u128,
    gas_limit: u64,
    to: Option<Address>,
    value: [u8; 32],
    input: &[u8],
) -> (r: Option<Signature>)
    ensures
        signature_parts(r) == fee_market_signature(
            key@,
            chain_id,
            nonce,
            max_fee,
            max_priority_fee,
            gas_limit,
            address_bytes(to),
            value@,
            input@,
        ),
{
    let signer = PrivateKeySigner::from_bytes(&B256::from(*key)).ok()?;
    let mut tx = TxEip1559 { chain_id, nonce, gas_limit, ..Default::default() };
    (tx.max_fee_per_gas, tx.max_priority_fee_per_gas) = (max_fee, max_priority_fee);
    tx.to = match to {
        Some(a) => TxKind::Call(a.bytes.into()),
        None => TxKind::Create,
    };
    (tx.value, tx.input) = (U256::from_be_bytes(value), Bytes::copy_from_slice(input));
    let sig = signer.sign_transaction_sync(&mut tx).ok()?;
    Some(Signature { r: sig.r().to_be_bytes(), s: sig.s().to_be_bytes(), odd_y: sig.v() })
}

/// `Signed::eip2718_encode` of alloy on a `TxEip1559` without access list,
/// with its signature: the bytes that the node takes for the transaction.
#[verifier::external_body]
fn encode_fee_market(
    chain_id: u64,
    nonce: u64,
    max_fee: u128,
    max_priority_fee: u128,
    gas_limit: u64,
    to: Option<Address>,
    value: [u8; 32],
    input: &[u8],
    sig: Signature,
) -> (raw: Vec<u8>)
    ensures
        raw@ == fee_market_raw(
            chain_id,
            nonce,
            max_fee,
            max_priority_fee,
            gas_limit,
            address_bytes(to),
            value@,
            input@,
            sig.r@,
            sig.s@,
            sig.odd_y,
        ),
{
    let mut tx = TxEip1559 { chain_id, nonce, gas_limit, ..Default::default() };
    (tx.max_fee_per_gas, tx.max_priority_fee_per_gas) = (max_fee, max_priority_fee);
    tx.to = match to {
        Some(a) => TxKind::Call(a.bytes.into()),
        None => TxKind::Create,
    };
    (tx.value, tx.input) = (U256::from_be_bytes(value), Bytes::copy_from_slice(input));
    let sig = alloy::primitives::Signature::from_scalars_and_parity(sig.r.into(), sig.s.into(), sig.odd_y);
    let mut raw = Vec::new();
    tx.into_signed(sig).eip2718_encode(&mut raw);
    raw
}

/// Why a transaction was not signed.
#[derive(Clone, Copy, Debug, PartialEq, Eq, Structural)]
pub enum SigningError {
    /// The bytes are no private key.
    InvalidKey,
    MissingNonce,
    MissingChainId,
    MissingGasLimit,
    MissingGasPrice,
    /// The signature could not be made.
    Failed,
}

/// The signed transaction made of a transaction, its signature and its
/// serialized form: the digest of the serialized form is its hash.
pub open spec fn assembled(tx: TransactionModel, sig: (Seq<u8>, Seq<u8>, bool), raw: Seq<u8>) -> SignedModel {
    SignedModel { tx, r: sig.0, s: sig.1, odd_y: sig.2, raw, hash: keccak256_of(raw) }
}

/// The first field, in the order nonce, chain id, gas limit, gas price, that
/// a transaction lacks for signing; none where it has them all.
pub open spec fn first_missing(tx: TransactionModel) -> Option<SigningError> {
    if tx.nonce is None {
        Some(SigningError::MissingNonce)
    } else if tx.chain_id is None {
        Some(SigningError::MissingChainId)
    } else if tx.gas_limit is None {
        Some(SigningError::MissingGasLimit)
    } else if tx.gas is None {
        Some(SigningError::MissingGasPrice)
    } else {
        None
    }
}

/// The signature that a key makes for a transaction that lacks no field.
pub open spec fn signature_for(key: Seq<u8>, tx: TransactionModel) -> Option<(Seq<u8>, Seq<u8>, bool)>
    recommends
        first_missing(tx) is None,
{
    match tx.gas->Some_0 {
        GasPricing::Legacy { gas_price } => legacy_signature(
            key,
            tx.chain_id->Some_0,
            tx.nonce->Some_0,
            gas_price,
            tx.gas_limit->Some_0,
            address_bytes(tx.to),
            tx.value.bytes@,
            tx.data,
        ),
        GasPricing::FeeMarket { max_fee, max_priority_fee } => fee_market_signature(
            key,
            tx.chain_id->Some_0,
            tx.nonce->Some_0,
            max_fee,
            max_priority_fee,
            tx.gas_limit->Some_0,
            address_bytes(tx.to),
            tx.value.bytes@,
            tx.data,
        ),
    }
}

/// The serialized form of a transaction that lacks no field, with a signature.
pub open spec fn raw_for(tx: TransactionModel, sig: (Seq<u8>, Seq<u8>, bool)) -> Seq<u8>
    recommends
        first_missing(tx) is None,
{
    match tx.gas->Some_0 {
        GasPricing::Legacy { gas_price } => legacy_raw(
            tx.chain_id->Some_0,
            tx.nonce->Some_0,
            gas_price,
            tx.gas_limit->Some_0,
            address_bytes(tx.to),
            tx.value.bytes@,
            tx.data,
            sig.0,
            sig.1,
            sig.2,
        ),
        GasPricing::FeeMarket { max_fee, max_priority_fee } => fee_market_raw(
            tx.chain_id->Some_0,
            tx.nonce->Some_0,
            max_fee,
            max_priority_fee,
            tx.gas_limit->Some_0,
            address_bytes(tx.to),
            tx.value.bytes@,
            tx.data,
            sig.0,
            sig.1,
            sig.2,
        ),
    }
}

/// What signing gives: the signed transaction, or why there is none.
///
/// Nothing is signed while a field is absent, and a field that is absent is
/// never given a default.
pub open spec fn signing_of(key: Seq<u8>, tx: TransactionModel) -> Result<SignedModel, SigningError> {
    match first_missing(tx) {
        Some(e) => Err(e),
        None => match signature_for(key, tx) {
            Some(sig) => Ok(assembled(tx, sig, raw_for(tx, sig))),
            None => Err(SigningError::Failed),
        },
    }
}

/// Whether a transaction has every field that signing needs; if not, the
/// first that it lacks.
pub fn check_ready(tx: &UnsignedTransaction) -> (r: Result<(), SigningError>)
    ensures
        match r {
            Ok(_) => first_missing(tx@) is None,
            Err(e) => first_missing(tx@) == Some(e),
        },
{
    if tx.nonce.is_none() {
        Err(SigningError::MissingNonce)
    } else if tx.chain_id.is_none() {
        Err(SigningError::MissingChainId)
    } else if tx.gas_limit.is_none() {
        Err(SigningError::MissingGasLimit)
    } else if tx.gas.is_none() {
        Err(SigningError::MissingGasPrice)
    } else {
        Ok(())
    }
}

/// The signed transaction made of a transaction, its signature and its
/// serialized form, with the digest by which the node knows it.
pub fn assemble(tx: &UnsignedTransaction, signature: Signature, raw: Vec<u8>) -> (r: SignedTransaction)
    ensures
        r@ == assembled(tx@, (signature.r@, signature.s@, signature.odd_y), raw@),
{
    let hash = keccak256(raw.as_slice());
    SignedTransaction { tx: tx.duplicate(), signature, raw, hash }
}

/// An account: a private key and the address derived from it.
pub struct Signer {
    key: [u8; 32],
    address: Address,
}

impl Signer {
    #[verifier::type_invariant]
    spec fn address_is_derived(self) -> bool {
        address_of_key(self.key@) == Some(self.address@)
    }

    /// The bytes of the private key.
    pub closed spec fn key(&self) -> Seq<u8> {
        self.key@
    }

    /// The account of the private key `key`; `InvalidKey` exactly where the
    /// bytes are no private key.
    pub fn new(key: [u8; 32]) -> (r: Result<Signer, SigningError>)
        ensures
            match r {
                Ok(signer) => signer.key() == key@ && address_of_key(key@) is Some,
                Err(e) => e == SigningError::InvalidKey && address_of_key(key@) is None,
            },
    {
        match derive_address(&key) {
            Some(address) => Ok(Signer { key, address }),
            None => Err(SigningError::InvalidKey),
        }
    }

    /// The address of the account.
    pub fn address(&self) -> (r: Address)
        ensures
            address_of_key(self.key()) == Some(r@),
    {
        proof {
            use_type_invariant(self);
        }
        self.address
    }

    /// Signs a transaction: `signing_of` this key and the transaction.
    pub fn sign(&self, tx: &UnsignedTransaction) -> (r: Result<SignedTransaction, SigningError>)
        ensures
            match r {
                Ok(signed) => signing_of(self.key(), tx@) == Ok::<SignedModel, SigningError>(
                    signed@,
                ),
                Err(e) => signing_of(self.key(), tx@) == Err::<SignedModel, SigningError>(e),
            },
    {
        match check_ready(tx) {
            Err(e) => {
                return Err(e);
            },
            Ok(_) => {},
        }
        let (nonce, chain_id) = (tx.nonce.unwrap(), tx.chain_id.unwrap());
        let (gas_limit, gas) = (tx.gas_limit.unwrap(), tx.gas.unwrap());
        let (to, value, data) = (tx.to, tx.value.bytes, tx.data.as_slice());
        match gas {
            GasPricing::Legacy { gas_price } => {
                match sign_legacy(&self.key, chain_id, nonce, gas_price, gas_limit, to, value, data) {
                    Some(sig) => {
                        let raw = encode_legacy(
                            chain_id,
                            nonce,
                            gas_price,
                            gas_limit,
                            to,
                            value,
                            data,
                            sig,
                        );
                        Ok(assemble(tx, sig, raw))
                    },
                    None => Err(SigningError::Failed),
                }
            },
            GasPricing::FeeMarket { max_fee, max_priority_fee } => {
                match sign_fee_market(
                    &self.key,
                    chain_id,
                    nonce,
                    max_fee,
                    max_priority_fee,
                    gas_limit,
                    to,
                    value,
                    data,
                ) {
                    Some(sig) => {
                        let raw = encode_fee_market(
                            chain_id,
                            nonce,
                            max_fee,
                            max_priority_fee,
                            gas_limit,
                            to,
                            value,
                            data,
                            sig,
                        );
                        Ok(assemble(tx, sig, raw))
                    },
                    None => Err(SigningError::Failed),
                }
            },
        }
    }
}

/// Signing is a function of the key and the transaction: the same key and
/// the same transaction give the same signed transaction, byte for byte.
pub proof fn lemma_signing_is_deterministic(
    key_a: Seq<u8>,
    tx_a: TransactionModel,
    key_b: Seq<u8>,
    tx_b: TransactionModel,
)
    requires
        key_a == key_b,
        tx_a == tx_b,
    ensures
        signing_of(key_a, tx_a) == signing_of(key_b, tx_b),
{
}

} // verus!
