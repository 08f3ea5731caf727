use alloy::consensus::{SignableTransaction, TxEip1559, TxLegacy};
use alloy::network::TxSignerSync;
use alloy::primitives::{Bytes, TxKind, U256 as Number};
use alloy::signers::local::PrivateKeySigner;
use eth_client::signer::{assemble, check_ready, Signer, SigningError};
use eth_client::types::{Address, GasPricing, Signature, UnsignedTransaction};
use eth_client::word::U256;

fn hex(bytes: &[u8]) -> String {
    let mut s = String::new();
    for b in bytes {
        s.push_str(&format!("{:02x}", b));
    }
    s
}

fn unhex<const N: usize>(text: &str) -> [u8; N] {
    let mut out = [0u8; N];
    for i in 0..N {
        out[i] = u8::from_str_radix(&text[2 * i..2 * i + 2], 16).unwrap();
    }
    out
}

fn transfer() -> UnsignedTransaction {
    UnsignedTransaction {
        from: None,
        to: Some(Address { bytes: [0x35; 20] }),
        value: U256::from_u128(1_000_000_000_000_000_000),
        data: vec![],
        nonce: Some(9),
        gas_limit: Some(21000),
        gas: Some(GasPricing::Legacy { gas_price: 20_000_000_000 }),
        chain_id: Some(1),
    }
}

#[test]
fn address_of_a_known_key() {
    let key = unhex::<32>("4c0883a69102937d6231471b5dbb6204fe5129617082792ae468d01a3f362318");
    let signer = Signer::new(key).unwrap();
    assert_eq!(hex(&signer.address().bytes), "2c7536e3605d9c16a7a3d7b1898e529396a65c23");
}

#[test]
fn bytes_that_are_no_key() {
    assert_eq!(Signer::new([0u8; 32]).err(), Some(SigningError::InvalidKey));
    assert_eq!(Signer::new([0xffu8; 32]).err(), Some(SigningError::InvalidKey));
}

#[test]
fn signs_the_replay_protected_example() {
    let signer = Signer::new([0x46; 32]).unwrap();
    assert_eq!(hex(&signer.address().bytes), "9d8a62f656a8d1615c1294fd71e9cfb3e4855a4f");
    let signed = signer.sign(&transfer()).unwrap();
    assert_eq!(
        hex(&signed.raw),
        String::from("f86c098504a817c800825208943535353535353535353535353535353535353535880de0b6b3a7640000")
            + "8025a028ef61340bd939bc2195fe537567866003e1a15d3c71ff63e1590620aa636276"
            + "a067cbe9d8997f761aecb703304b3800ccf555c9f3dc64214b297fb1966a3b6d83"
    );
    assert_eq!(
        hex(&signed.signature.r),
        "28ef61340bd939bc2195fe537567866003e1a15d3c71ff63e1590620aa636276"
    );
    assert_eq!(
        hex(&signed.signature.s),
        "67cbe9d8997f761aecb703304b3800ccf555c9f3dc64214b297fb1966a3b6d83"
    );
    assert!(!signed.signature.odd_y);
    assert_eq!(signed.tx, transfer());
    assert_eq!(signed.hash, alloy::primitives::keccak256(&signed.raw).0);
}

#[test]
fn signs_with_a_second_known_key() {
    let key = unhex::<32>("4c0883a69102937d6231471b5dbb6204fe5129617082792ae468d01a3f362318");
    let signer = Signer::new(key).unwrap();
    let tx = UnsignedTransaction {
        from: None,
        to: Some(Address { bytes: unhex::<20>("f0109fc8df283027b6285cc889f5aa624eac1f55") }),
        value: U256::from_u64(1_000_000_000),
        data: vec![],
        nonce: Some(0),
        gas_limit: Some(2_000_000),
        gas: Some(GasPricing::Legacy { gas_price: 21_000_000_000 }),
        chain_id: Some(1),
    };
    let signed = signer.sign(&tx).unwrap();
    assert_eq!(
        hex(&signed.signature.r),
        "c9cf86333bcb065d140032ecaab5d9281bde80f21b9687b3e94161de42d51895"
    );
    assert_eq!(
        hex(&signed.signature.s),
        "727a108a0b8d101465414033c3f705a9c7b826e596766046ee1183dbc8aeaa68"
    );
    assert!(!signed.signature.odd_y);
}

#[test]
fn signing_twice_gives_the_same_bytes() {
    let signer = Signer::new([0x46; 32]).unwrap();
    let mut tx = transfer();
    tx.to = None;
    tx.data = vec![0x60, 0x80, 0x60, 0x40];
    let first = signer.sign(&tx).unwrap();
    let second = signer.sign(&tx).unwrap();
    assert_eq!(first.raw, second.raw);
    assert_eq!(first, second);
    let again = Signer::new([0x46; 32]).unwrap().sign(&tx).unwrap();
    assert_eq!(first.raw, again.raw);
}

#[test]
fn signs_with_fee_cap_and_tip() {
    let signer = Signer::new([0x46; 32]).unwrap();
    let mut tx = transfer();
    tx.gas = Some(GasPricing::FeeMarket { max_fee: 30_000_000_000, max_priority_fee: 1_000_000_000 });
    let signed = signer.sign(&tx).unwrap();
    assert_eq!(signed.raw[0], 0x02);
    assert_eq!(signed.hash, alloy::primitives::keccak256(&signed.raw).0);
    assert_ne!(signed.raw, signer.sign(&transfer()).unwrap().raw);
    let n = signed.raw.len();
    assert_eq!(&signed.raw[n - 32..], &signed.signature.s);
    assert_eq!(&signed.raw[n - 65..n - 33], &signed.signature.r);
}

#[test]
fn nothing_is_signed_while_a_field_is_absent() {
    let signer = Signer::new([0x46; 32]).unwrap();
    let mut tx = transfer();
    tx.gas = None;
    assert_eq!(signer.sign(&tx), Err(SigningError::MissingGasPrice));
    tx.gas_limit = None;
    assert_eq!(signer.sign(&tx), Err(SigningError::MissingGasLimit));
    tx.chain_id = None;
    assert_eq!(signer.sign(&tx), Err(SigningError::MissingChainId));
    tx.nonce = None;
    assert_eq!(signer.sign(&tx), Err(SigningError::MissingNonce));
}

#[test]
fn a_transaction_that_lacks_nothing_is_ready() {
    assert_eq!(check_ready(&transfer()), Ok(()));
    let mut tx = transfer();
    tx.chain_id = None;
    tx.gas = None;
    assert_eq!(check_ready(&tx), Err(SigningError::MissingChainId));
}

#[test]
fn the_hash_is_the_digest_of_the_raw_bytes() {
    let signature = Signature { r: [1; 32], s: [2; 32], odd_y: true };
    let signed = assemble(&transfer(), signature, vec![0xc0]);
    assert_eq!(signed.tx, transfer());
    assert_eq!(signed.signature, signature);
    assert_eq!(signed.raw, vec![0xc0]);
    assert_eq!(
        hex(&signed.hash),
        "1dcc4de8dec75d7aab85b567b6ccd41ad312451b948a7413f0a142fd40d49347"
    );
}

#[test]
fn legacy_fields_reach_the_signature() {
    let key = [0x11u8; 32];
    let tx = UnsignedTransaction {
        from: None,
        to: Some(Address { bytes: [0x22; 20] }),
        value: U256::from_u64(3),
        data: vec![4, 5, 6],
        nonce: Some(7),
        gas_limit: Some(80_000),
        gas: Some(GasPricing::Legacy { gas_price: 9 }),
        chain_id: Some(10),
    };
    let signed = Signer::new(key).unwrap().sign(&tx).unwrap();
    let mut theirs = TxLegacy {
        chain_id: Some(10),
        nonce: 7,
        gas_price: 9,
        gas_limit: 80_000,
        to: TxKind::Call([0x22; 20].into()),
        value: Number::from(3),
        input: Bytes::from(vec![4, 5, 6]),
    };
    let signer = PrivateKeySigner::from_bytes(&key.into()).unwrap();
    let sig = signer.sign_transaction_sync(&mut theirs).unwrap();
    let mut raw = Vec::new();
    theirs.into_signed(sig).eip2718_encode(&mut raw);
    assert_eq!(signed.raw, raw);
    assert_eq!(signed.signature.r, sig.r().to_be_bytes::<32>());
    assert_eq!(signed.signature.s, sig.s().to_be_bytes::<32>());
    assert_eq!(signed.signature.odd_y, sig.v());
}

#[test]
fn fee_market_fields_reach_the_signature() {
    let key = [0x11u8; 32];
    let tx = UnsignedTransaction {
        from: None,
        to: None,
        value: U256::from_u64(3),
        data: vec![4, 5, 6],
        nonce: Some(7),
        gas_limit: Some(80_000),
        gas: Some(GasPricing::FeeMarket { max_fee: 12, max_priority_fee: 9 }),
        chain_id: Some(10),
    };
    let signed = Signer::new(key).unwrap().sign(&tx).unwrap();
    let mut theirs = TxEip1559 {
        chain_id: 10,
        nonce: 7,
        gas_limit: 80_000,
        max_fee_per_gas: 12,
        max_priority_fee_per_gas: 9,
        to: TxKind::Create,
        value: Number::from(3),
        access_list: Default::default(),
        input: Bytes::from(vec![4, 5, 6]),
    };
    let signer = PrivateKeySigner::from_bytes(&key.into()).unwrap();
    let sig = signer.sign_transaction_sync(&mut theirs).unwrap();
    let mut raw = Vec::new();
    theirs.into_signed(sig).eip2718_encode(&mut raw);
    assert_eq!(signed.raw, raw);
    assert_eq!(signed.signature.r, sig.r().to_be_bytes::<32>());
    assert_eq!(signed.signature.odd_y, sig.v());
}

#[test]
fn signatures_have_a_low_s() {
    let half_order =
        unhex::<32>("7fffffffffffffffffffffffffffffff5d576e7357a4501ddfe92f46681b20a0");
    let signer = Signer::new([0x46; 32]).unwrap();
    for nonce in 0..40u64 {
        let mut tx = transfer();
        tx.nonce = Some(nonce);
        let signed = signer.sign(&tx).unwrap();
        assert!(signed.signature.s <= half_order);
        tx.gas = Some(GasPricing::FeeMarket { max_fee: 5, max_priority_fee: 1 });
        let signed = signer.sign(&tx).unwrap();
        assert!(signed.signature.s <= half_order);
    }
}
