use eth_client::abi::{AbiType, AbiValue, EncodingError, WordType, WordValue};
use eth_client::abi_decode::{decode_values, DecodingError};
use eth_client::abi_encode::encode_values;
use eth_client::interface::{
    leading_four, selector, signature, ContractInterface, Function, InterfaceError,
};
use eth_client::types::Address;
use eth_client::word::U256;

fn hex(bytes: &[u8]) -> String {
    let mut s = String::new();
    for b in bytes {
        s.push_str(&format!("{:02x}", b));
    }
    s
}

fn greeter() -> ContractInterface {
    let mut iface = ContractInterface::new();
    assert_eq!(iface.add(Function::new("greet", vec![], vec![AbiType::Str])), Ok(()));
    assert_eq!(iface.add(Function::new("setGreeting", vec![AbiType::Str], vec![])), Ok(()));
    iface
}

#[test]
fn signature_is_name_and_types() {
    let inputs = vec![
        AbiType::Word(WordType::Address),
        AbiType::Word(WordType::Uint(256)),
        AbiType::Array(WordType::Uint(8)),
        AbiType::Bytes,
        AbiType::Str,
        AbiType::Word(WordType::Bool),
    ];
    assert_eq!(
        signature("f", &inputs),
        b"f(address,uint256,uint8[],bytes,string,bool)".to_vec()
    );
    assert_eq!(signature("greet", &[]), b"greet()".to_vec());
}

#[test]
fn selectors_of_known_functions() {
    assert_eq!(hex(&selector("greet", &[])), "cfae3217");
    assert_eq!(hex(&selector("setGreeting", &[AbiType::Str])), "a4136862");
    assert_eq!(
        hex(&selector(
            "transfer",
            &[AbiType::Word(WordType::Address), AbiType::Word(WordType::Uint(256))]
        )),
        "a9059cbb"
    );
}

#[test]
fn encodes_a_text_argument() {
    let iface = greeter();
    let data = iface
        .encode_call("setGreeting", &[AbiValue::Str("Hello world 2!".to_string())])
        .unwrap();
    let expected = String::from("a4136862")
        + "0000000000000000000000000000000000000000000000000000000000000020"
        + "000000000000000000000000000000000000000000000000000000000000000e"
        + "48656c6c6f20776f726c64203221000000000000000000000000000000000000";
    assert_eq!(hex(&data), expected);
}

#[test]
fn encodes_mixed_arguments() {
    let types = vec![
        AbiType::Word(WordType::Uint(256)),
        AbiType::Bytes,
        AbiType::Word(WordType::Bool),
        AbiType::Array(WordType::Uint(256)),
    ];
    let values = vec![
        AbiValue::Word(WordValue::Uint(U256::from_u64(0x123))),
        AbiValue::Bytes(vec![0xde, 0xad]),
        AbiValue::Word(WordValue::Bool(true)),
        AbiValue::Array(vec![
            WordValue::Uint(U256::from_u64(1)),
            WordValue::Uint(U256::from_u64(2)),
        ]),
    ];
    let block = encode_values(&types, &values).unwrap();
    let expected = String::new()
        + "0000000000000000000000000000000000000000000000000000000000000123"
        + "0000000000000000000000000000000000000000000000000000000000000080"
        + "0000000000000000000000000000000000000000000000000000000000000001"
        + "00000000000000000000000000000000000000000000000000000000000000c0"
        + "0000000000000000000000000000000000000000000000000000000000000002"
        + "dead000000000000000000000000000000000000000000000000000000000000"
        + "0000000000000000000000000000000000000000000000000000000000000002"
        + "0000000000000000000000000000000000000000000000000000000000000001"
        + "0000000000000000000000000000000000000000000000000000000000000002";
    assert_eq!(hex(&block), expected);
    assert_eq!(decode_values(&types, &block), Ok(values));
}

#[test]
fn round_trip_of_every_type() {
    let types = vec![
        AbiType::Word(WordType::Address),
        AbiType::Str,
        AbiType::Word(WordType::Uint(8)),
        AbiType::Array(WordType::Address),
        AbiType::Bytes,
        AbiType::Array(WordType::Bool),
        AbiType::Str,
    ];
    let a = Address { bytes: [0xab; 20] };
    let values = vec![
        AbiValue::Word(WordValue::Address(a)),
        AbiValue::Str("gr\u{fc}\u{df}e, \u{4e16}\u{754c}".to_string()),
        AbiValue::Word(WordValue::Uint(U256::from_u64(255))),
        AbiValue::Array(vec![WordValue::Address(a), WordValue::Address(Address { bytes: [0; 20] })]),
        AbiValue::Bytes((0..100u8).collect()),
        AbiValue::Array(vec![]),
        AbiValue::Str(String::new()),
    ];
    let mut iface = ContractInterface::new();
    iface.add(Function::new("echo", types.clone(), types.clone())).unwrap();
    let call = iface.encode_call("echo", &values).unwrap();
    assert_eq!(iface.decode_result("echo", &call[4..]), Ok(values));
}

#[test]
fn encoding_errors() {
    let iface = greeter();
    assert_eq!(iface.encode_call("missing", &[]), Err(EncodingError::UnknownFunction));
    assert_eq!(iface.encode_call("setGreeting", &[]), Err(EncodingError::ArityMismatch));
    assert_eq!(
        iface.encode_call("setGreeting", &[AbiValue::Bytes(vec![1])]),
        Err(EncodingError::TypeMismatch)
    );
    let narrow = vec![AbiType::Word(WordType::Uint(8))];
    assert_eq!(
        encode_values(&narrow, &[AbiValue::Word(WordValue::Uint(U256::from_u64(256)))]),
        Err(EncodingError::TypeMismatch)
    );
    let odd = vec![AbiType::Word(WordType::Uint(7))];
    assert_eq!(
        encode_values(&odd, &[AbiValue::Word(WordValue::Uint(U256::from_u64(1)))]),
        Err(EncodingError::TypeMismatch)
    );
}

#[test]
fn decoding_errors() {
    let iface = greeter();
    assert_eq!(iface.decode_result("missing", &[]), Err(DecodingError::UnknownFunction));
    assert_eq!(iface.decode_result("greet", &[0u8; 31]), Err(DecodingError::LengthMismatch));
    let mut block = vec![0u8; 64];
    block[31] = 0x40;
    assert_eq!(iface.decode_result("greet", &block), Err(DecodingError::BadOffset));
    block[31] = 0x20;
    block[63] = 1;
    assert_eq!(iface.decode_result("greet", &block), Err(DecodingError::BadLength));
    block.push(0xff);
    assert_eq!(iface.decode_result("greet", &block), Err(DecodingError::BadUtf8));
    block[64] = b'a';
    assert_eq!(iface.decode_result("greet", &block), Ok(vec![AbiValue::Str("a".to_string())]));
    let mut huge = vec![0xffu8; 32];
    huge.extend_from_slice(&[0u8; 32]);
    assert_eq!(iface.decode_result("greet", &huge), Err(DecodingError::BadOffset));
    let flag = [AbiType::Word(WordType::Bool)];
    let mut word = vec![0u8; 32];
    word[31] = 2;
    assert_eq!(decode_values(&flag, &word), Err(DecodingError::BadValue));
    let account = [AbiType::Word(WordType::Address)];
    let mut dirty = vec![0u8; 32];
    dirty[0] = 1;
    assert_eq!(decode_values(&account, &dirty), Err(DecodingError::BadValue));
}

#[test]
fn duplicate_names_are_refused() {
    let mut iface = greeter();
    assert_eq!(
        iface.add(Function::new("greet", vec![AbiType::Bytes], vec![])),
        Err(InterfaceError::DuplicateName)
    );
    assert_eq!(iface.len(), 2);
    let f = iface.find("greet").unwrap();
    assert_eq!(f.name(), "greet");
    assert!(f.inputs().is_empty());
    assert_eq!(f.outputs(), &[AbiType::Str]);
    assert!(iface.find("other").is_none());
}

#[test]
fn words_and_numbers() {
    assert_eq!(U256::from_u128(u128::MAX).to_u128(), Some(u128::MAX));
    assert_eq!(U256::from_u128(u128::MAX).to_u64(), None);
    assert_eq!(U256::from_u64(7).to_u64(), Some(7));
    assert_eq!(U256::from_usize(9).to_usize(), Some(9));
    assert_eq!(U256::zero().bytes, [0u8; 32]);
    let mut bytes = [0u8; 32];
    bytes[15] = 1;
    assert_eq!(U256 { bytes }.to_u128(), None);
    bytes[15] = 0;
    bytes[16] = 0x80;
    assert_eq!(U256 { bytes }.to_u128(), Some(1u128 << 127));
    assert!(U256::from_u64(255).fits_bytes(1));
    assert!(!U256::from_u64(256).fits_bytes(1));
    assert!(U256::from_u64(0).fits_bytes(0));
}

#[test]
fn the_first_four_bytes_of_a_digest() {
    let mut digest = [0u8; 32];
    for i in 0..32 {
        digest[i] = i as u8 + 1;
    }
    assert_eq!(leading_four(&digest), [1, 2, 3, 4]);
}

#[test]
fn sequences_that_reach_outside_the_block() {
    let numbers = [AbiType::Array(WordType::Uint(8))];
    let mut block = vec![0u8; 96];
    block[31] = 0x20;
    block[63] = 2;
    block[95] = 7;
    assert_eq!(decode_values(&numbers, &block), Err(DecodingError::BadLength));
    block[63] = 1;
    assert_eq!(
        decode_values(&numbers, &block),
        Ok(vec![AbiValue::Array(vec![WordValue::Uint(U256::from_u64(7))])])
    );
    block[94] = 1;
    assert_eq!(decode_values(&numbers, &block), Err(DecodingError::BadValue));
    block[94] = 0;
    block[32] = 0x80;
    assert_eq!(decode_values(&numbers, &block), Err(DecodingError::BadLength));
    let text = [AbiType::Bytes];
    assert_eq!(decode_values(&text, &block), Err(DecodingError::BadLength));
    block[32] = 0;
    block[63] = 0;
    assert_eq!(decode_values(&text, &block), Ok(vec![AbiValue::Bytes(vec![])]));
    assert_eq!(decode_values(&numbers, &block), Ok(vec![AbiValue::Array(vec![])]));
}

#[test]
fn slots_are_read_where_the_offsets_point() {
    let pair = [AbiType::Bytes, AbiType::Bytes];
    let mut block = vec![0u8; 128];
    block[31] = 0x40;
    block[63] = 0x40;
    block[95] = 3;
    block[96] = 1;
    block[97] = 2;
    block[98] = 3;
    let both = AbiValue::Bytes(vec![1, 2, 3]);
    assert_eq!(decode_values(&pair, &block), Ok(vec![both.clone(), both]));
    block[63] = 0x61;
    assert_eq!(decode_values(&pair, &block), Err(DecodingError::BadOffset));
    block[63] = 0x60;
    assert_eq!(decode_values(&pair, &block), Err(DecodingError::BadLength));
}
