use mimir_signer::hexs::{decode_hex, encode_hex};
use mimir_signer::rpc::{parse_quantity_hex, parse_rpc_quantity, raw_payload_param};
use mimir_signer::tx::{
    assemble, decode_signed, encode_signed, encode_unsigned, Address, AssemblyError, ChainDefaults,
    PartialFields, Quantity, SignedTx, TxField, TxFields,
};

fn h(s: &str) -> Vec<u8> {
    decode_hex(s.as_bytes()).unwrap()
}

fn q(s: &str) -> Quantity {
    Quantity { bytes: h(s) }
}

fn addr(s: &str) -> Address {
    Address { bytes: h(s) }
}

fn no_defaults() -> ChainDefaults {
    ChainDefaults { nonce: None, gas_price: None, gas_limit: None }
}

#[test]
fn hex_round_trip() {
    let bytes = h("00deadbeef7f80ff");
    assert_eq!(bytes, vec![0x00, 0xde, 0xad, 0xbe, 0xef, 0x7f, 0x80, 0xff]);
    assert_eq!(encode_hex(&bytes), b"00deadbeef7f80ff".to_vec());
    assert_eq!(encode_hex(&[]), Vec::<u8>::new());
}

#[test]
fn hex_rejects_bad_input() {
    assert!(decode_hex(b"abc").is_none());
    assert!(decode_hex(b"zz").is_none());
    assert!(decode_hex(b"DE").is_none());
    assert_eq!(decode_hex(b"").unwrap(), Vec::<u8>::new());
}

#[test]
fn rlp_items_match_reference_encoder() {
    let cases: Vec<Vec<u8>> = vec![
        vec![],
        vec![0x00],
        vec![0x7f],
        vec![0x80],
        vec![0x55; 55],
        vec![0x55; 56],
        vec![0xab; 300],
    ];
    for c in cases {
        let mut ours: Vec<u8> = Vec::new();
        mimir_signer::rlp::append_rlp_str(&mut ours, &c);
        let reference = rlp::encode(&c).to_vec();
        assert_eq!(ours, reference);
    }
}

#[test]
fn quantity_parse_accepts_canonical_spellings() {
    let zero = parse_quantity_hex(b"0x0").unwrap();
    assert_eq!(zero.bytes, Vec::<u8>::new());
    let one = parse_quantity_hex(b"0x1").unwrap();
    assert_eq!(one.bytes, vec![0x01]);
    let odd = parse_quantity_hex(b"0x555").unwrap();
    assert_eq!(odd.bytes, vec![0x05, 0x55]);
    let even = parse_quantity_hex(b"0x5555").unwrap();
    assert_eq!(even.bytes, vec![0x55, 0x55]);
    let too_wide = parse_quantity_hex(
        b"0xffffffffffffffffffffffffffffffffffffffffffffffffffffffffffffffffff",
    );
    assert!(too_wide.is_none());
    let full = parse_quantity_hex(
        b"0xf0ffffffffffffffffffffffffffffffffffffffffffffffffffffffffffffff",
    )
    .unwrap();
    assert_eq!(full.bytes.len(), 32);
}

#[test]
fn quantity_parse_rejects_malformed_spellings() {
    assert!(parse_quantity_hex(b"").is_none());
    assert!(parse_quantity_hex(b"0x").is_none());
    assert!(parse_quantity_hex(b"5555").is_none());
    assert!(parse_quantity_hex(b"0x01").is_none());
    assert!(parse_quantity_hex(b"0x00").is_none());
    assert!(parse_quantity_hex(b"0xg5").is_none());
    assert!(parse_quantity_hex(b"0X55").is_none());
}

#[test]
fn rpc_result_quantity_extraction() {
    let body = "{\"jsonrpc\":\"2.0\",\"id\":0,\"result\":\"0x5208\"}";
    let price = parse_rpc_quantity(body).unwrap();
    assert_eq!(price.bytes, vec![0x52, 0x08]);
    assert!(parse_rpc_quantity("{\"jsonrpc\":\"2.0\",\"id\":0}").is_none());
    assert!(parse_rpc_quantity("{\"result\":17}").is_none());
    assert!(parse_rpc_quantity("{\"result\":\"0x01\"}").is_none());
    assert!(parse_rpc_quantity("not json").is_none());
}

#[test]
fn raw_payload_parameter_spelling() {
    assert_eq!(raw_payload_param(&[0xde, 0xad]), b"0xdead".to_vec());
    assert_eq!(raw_payload_param(&[]), b"0x".to_vec());
}

fn sample_signed() -> SignedTx {
    SignedTx {
        fields: TxFields {
            nonce: q("01"),
            gas_price: q("0405"),
            gas_limit: q("5555"),
            to: Some(addr("deadbeefdeadbeefdeadbeefdeadbeefdeadbeef")),
            value: q("deadbeef"),
            data: h("0001027f80"),
        },
        v: q("1b"),
        r: q("9afd47c51a0d2e4b29b0e3a7dbd8f1c0f9278f4d2c0207d2f3b5d3a06a97d2aa"),
        s: q("4b1b5d21"),
    }
}

#[test]
fn signed_encoding_round_trips() {
    let st = sample_signed();
    let enc = encode_signed(&st);
    let back = decode_signed(&enc).unwrap();
    assert_eq!(back.fields.nonce.bytes, st.fields.nonce.bytes);
    assert_eq!(back.fields.gas_price.bytes, st.fields.gas_price.bytes);
    assert_eq!(back.fields.gas_limit.bytes, st.fields.gas_limit.bytes);
    assert_eq!(back.fields.to.as_ref().unwrap().bytes, st.fields.to.as_ref().unwrap().bytes);
    assert_eq!(back.fields.value.bytes, st.fields.value.bytes);
    assert_eq!(back.fields.data, st.fields.data);
    assert_eq!(back.v.bytes, st.v.bytes);
    assert_eq!(back.r.bytes, st.r.bytes);
    assert_eq!(back.s.bytes, st.s.bytes);
    let again = encode_signed(&back);
    assert_eq!(again, enc);
}

#[test]
fn signed_list_matches_reference_encoder() {
    let st = sample_signed();
    let enc = encode_signed(&st);
    let mut stream = rlp::RlpStream::new_list(9);
    stream.append(&st.fields.nonce.bytes);
    stream.append(&st.fields.gas_price.bytes);
    stream.append(&st.fields.gas_limit.bytes);
    stream.append(&st.fields.to.as_ref().unwrap().bytes);
    stream.append(&st.fields.value.bytes);
    stream.append(&st.fields.data);
    stream.append(&st.v.bytes);
    stream.append(&st.r.bytes);
    stream.append(&st.s.bytes);
    assert_eq!(enc, stream.out().to_vec());
}

#[test]
fn decoder_rejects_non_canonical_encodings() {
    // A single byte below 0x80 must stand for itself, not carry a header.
    let padded_item: Vec<u8> = vec![0xca, 0x81, 0x05, 0x80, 0x80, 0x80, 0x80, 0x80, 0x80, 0x80, 0x80];
    assert!(decode_signed(&padded_item).is_none());
    // A quantity must not carry a leading zero byte.
    let leading_zero: Vec<u8> = vec![0xcb, 0x82, 0x00, 0x01, 0x80, 0x80, 0x80, 0x80, 0x80, 0x80, 0x80, 0x80];
    assert!(decode_signed(&leading_zero).is_none());
    // The recipient must be empty or 20 bytes long.
    let mut short_to: Vec<u8> = vec![0xcc, 0x80, 0x80, 0x80];
    short_to.extend_from_slice(&[0x83, 0xaa, 0xbb, 0xcc]);
    short_to.extend_from_slice(&[0x80, 0x80, 0x80, 0x80, 0x80]);
    assert!(decode_signed(&short_to).is_none());
    // Trailing bytes after the list are rejected.
    let mut trailing = encode_signed(&sample_signed());
    trailing.push(0x00);
    assert!(decode_signed(&trailing).is_none());
    // A truncated encoding is rejected.
    let whole = encode_signed(&sample_signed());
    assert!(decode_signed(&whole[..whole.len() - 1]).is_none());
    assert!(decode_signed(&[]).is_none());
}

#[test]
fn long_data_payload_round_trips_through_the_long_list_form() {
    let st = SignedTx {
        fields: TxFields {
            nonce: q("09"),
            gas_price: Quantity::from_u64(20000000000),
            gas_limit: Quantity::from_u64(21000),
            to: Some(addr("3535353535353535353535353535353535353535")),
            value: Quantity::zero(),
            data: vec![0x61; 100],
        },
        v: q("1c"),
        r: q("28ef61340bd939bc2195fe537567866003e1a15d3c71ff63e1590620aa636276"),
        s: q("67cbe9d8997f761aecb703304b3800ccf555c9f3dc64214b297fb1966a3b6d83"),
    };
    let enc = encode_signed(&st);
    assert!(enc.len() > 56);
    assert_eq!(enc[0], 0xf8);
    let back = decode_signed(&enc).unwrap();
    assert_eq!(encode_signed(&back), enc);

    let mut stream = rlp::RlpStream::new_list(9);
    stream.append(&st.fields.nonce.bytes);
    stream.append(&st.fields.gas_price.bytes);
    stream.append(&st.fields.gas_limit.bytes);
    stream.append(&st.fields.to.as_ref().unwrap().bytes);
    stream.append(&st.fields.value.bytes);
    stream.append(&st.fields.data);
    stream.append(&st.v.bytes);
    stream.append(&st.r.bytes);
    stream.append(&st.s.bytes);
    assert_eq!(enc, stream.out().to_vec());
}

#[test]
fn all_empty_fields_round_trip() {
    let st = SignedTx {
        fields: TxFields {
            nonce: Quantity::zero(),
            gas_price: Quantity::zero(),
            gas_limit: Quantity::zero(),
            to: None,
            value: Quantity::zero(),
            data: Vec::new(),
        },
        v: Quantity::zero(),
        r: Quantity::zero(),
        s: Quantity::zero(),
    };
    let enc = encode_signed(&st);
    assert_eq!(enc, vec![0xc9, 0x80, 0x80, 0x80, 0x80, 0x80, 0x80, 0x80, 0x80, 0x80]);
    let back = decode_signed(&enc).unwrap();
    assert!(back.fields.to.is_none());
    assert_eq!(encode_signed(&back), enc);
}

#[test]
fn quantity_constructors_are_canonical() {
    assert_eq!(Quantity::from_u64(0).bytes, Vec::<u8>::new());
    assert_eq!(Quantity::from_u64(0x5555).bytes, vec![0x55, 0x55]);
    assert_eq!(Quantity::from_u64(u64::MAX).bytes, vec![0xff; 8]);
    let stripped = Quantity::from_be_bytes(&[0, 0, 0x07, 0x10]).unwrap();
    assert_eq!(stripped.bytes, vec![0x07, 0x10]);
    assert_eq!(Quantity::from_be_bytes(&[0u8; 40]).unwrap().bytes, Vec::<u8>::new());
    assert!(Quantity::from_be_bytes(&[1u8; 33]).is_none());
}

#[test]
fn assemble_prefers_caller_values() {
    let fields = PartialFields {
        nonce: Some(q("07")),
        gas_price: Some(q("03")),
        gas_limit: Some(q("5208")),
        to: None,
        value: None,
        data: None,
    };
    let defaults = ChainDefaults {
        nonce: Some(q("99")),
        gas_price: Some(q("98")),
        gas_limit: Some(q("97")),
    };
    let t = assemble(fields, defaults).unwrap();
    assert_eq!(t.nonce.bytes, vec![0x07]);
    assert_eq!(t.gas_price.bytes, vec![0x03]);
    assert_eq!(t.gas_limit.bytes, vec![0x52, 0x08]);
    assert!(t.to.is_none());
    assert_eq!(t.value.bytes, Vec::<u8>::new());
    assert_eq!(t.data, Vec::<u8>::new());
}

#[test]
fn assemble_falls_back_to_chain_defaults() {
    let fields = PartialFields {
        nonce: None,
        gas_price: None,
        gas_limit: None,
        to: Some(addr("deadbeefdeadbeefdeadbeefdeadbeefdeadbeef")),
        value: Some(q("0de0b6b3a7640000")),
        data: Some(h("cafe")),
    };
    let defaults = ChainDefaults {
        nonce: Some(q("11")),
        gas_price: Some(q("04a817c800")),
        gas_limit: Some(q("5208")),
    };
    let t = assemble(fields, defaults).unwrap();
    assert_eq!(t.nonce.bytes, vec![0x11]);
    assert_eq!(t.gas_price.bytes, h("04a817c800"));
    assert_eq!(t.gas_limit.bytes, vec![0x52, 0x08]);
    assert_eq!(t.to.unwrap().bytes, h("deadbeefdeadbeefdeadbeefdeadbeefdeadbeef"));
    assert_eq!(t.value.bytes, h("0de0b6b3a7640000"));
    assert_eq!(t.data, h("cafe"));
}

#[test]
fn assemble_reports_first_unresolved_field() {
    let empty = PartialFields {
        nonce: None,
        gas_price: None,
        gas_limit: None,
        to: None,
        value: None,
        data: None,
    };
    let r = assemble(empty, no_defaults());
    assert_eq!(r.unwrap_err(), AssemblyError::ResolutionFailed(TxField::Nonce));

    let with_nonce = PartialFields {
        nonce: Some(q("01")),
        gas_price: None,
        gas_limit: None,
        to: None,
        value: None,
        data: None,
    };
    let r = assemble(with_nonce, no_defaults());
    assert_eq!(r.unwrap_err(), AssemblyError::ResolutionFailed(TxField::GasPrice));

    let with_price = PartialFields {
        nonce: Some(q("01")),
        gas_price: Some(q("01")),
        gas_limit: None,
        to: None,
        value: None,
        data: None,
    };
    let r = assemble(with_price, no_defaults());
    assert_eq!(r.unwrap_err(), AssemblyError::ResolutionFailed(TxField::GasLimit));
}

#[test]
fn absent_recipient_is_not_the_zero_address() {
    let creation = TxFields {
        nonce: q("01"),
        gas_price: q("01"),
        gas_limit: q("5555"),
        to: None,
        value: q("deadbeef"),
        data: Vec::new(),
    };
    let zero_to = TxFields {
        nonce: q("01"),
        gas_price: q("01"),
        gas_limit: q("5555"),
        to: Some(addr("0000000000000000000000000000000000000000")),
        value: q("deadbeef"),
        data: Vec::new(),
    };
    let enc_creation = encode_unsigned(&creation);
    let enc_zero = encode_unsigned(&zero_to);
    assert_ne!(enc_creation, enc_zero);

    let st = SignedTx { fields: creation, v: q("1b"), r: q("02"), s: q("03") };
    let enc = encode_signed(&st);
    let back = decode_signed(&enc).unwrap();
    assert!(back.fields.to.is_none());
}
