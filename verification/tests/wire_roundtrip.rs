//! Round trips of the wire format, and cross-checks of the encoder against
//! an independent implementation of the same format.
use cfx_rt::wire::{decode, encode, MpValue, CALLBACK_EXT_TYPE};

fn roundtrip(v: MpValue) {
    let bytes = encode(&v);
    let back = decode(&bytes).expect("decoding its own encoding succeeds");
    assert!(back.eq_value(&v));
}

#[test]
fn roundtrip_scalars() {
    roundtrip(MpValue::Nil);
    roundtrip(MpValue::Bool(false));
    roundtrip(MpValue::Bool(true));
}

#[test]
fn roundtrip_unsigned_boundaries() {
    for n in [
        0u64,
        1,
        0x7f,
        0x80,
        0xff,
        0x100,
        0xffff,
        0x10000,
        0xffff_ffff,
        0x1_0000_0000,
        u64::MAX,
    ] {
        roundtrip(MpValue::UInt(n));
    }
}

#[test]
fn roundtrip_signed_boundaries() {
    for n in [
        -1i64,
        -32,
        -33,
        -0x80,
        -0x81,
        -0x8000,
        -0x8001,
        -0x8000_0000,
        -0x8000_0001,
        i64::MIN,
    ] {
        roundtrip(MpValue::Int(n));
    }
}

#[test]
fn roundtrip_strings_and_bins() {
    roundtrip(MpValue::Str(Vec::new()));
    roundtrip(MpValue::Str(b"ping".to_vec()));
    roundtrip(MpValue::Str(vec![b'a'; 31]));
    roundtrip(MpValue::Str(vec![b'b'; 32]));
    roundtrip(MpValue::Str(vec![b'c'; 255]));
    roundtrip(MpValue::Str(vec![b'd'; 256]));
    roundtrip(MpValue::Str(vec![b'e'; 70000]));
    roundtrip(MpValue::Bin(Vec::new()));
    roundtrip(MpValue::Bin(vec![0, 1, 2, 255]));
    roundtrip(MpValue::Bin(vec![9; 300]));
}

#[test]
fn roundtrip_containers() {
    roundtrip(MpValue::Array(Vec::new()));
    roundtrip(MpValue::Array(vec![
        MpValue::UInt(1),
        MpValue::Str(b"x".to_vec()),
        MpValue::Array(vec![MpValue::Nil, MpValue::Int(-5)]),
    ]));
    let mut wide = Vec::new();
    for i in 0..20u64 {
        wide.push(MpValue::UInt(i));
    }
    roundtrip(MpValue::Array(wide));
    roundtrip(MpValue::Dict(vec![(
        MpValue::Str(b"req".to_vec()),
        MpValue::Str(b"x".to_vec()),
    )]));
    roundtrip(MpValue::Dict(vec![
        (MpValue::Str(b"a".to_vec()), MpValue::UInt(1)),
        (
            MpValue::Str(b"b".to_vec()),
            MpValue::Dict(vec![(MpValue::Str(b"c".to_vec()), MpValue::Bool(true))]),
        ),
    ]));
}

#[test]
fn roundtrip_callback_reference_extension() {
    // A callback reference embedded inside an ordinary structured message.
    let handle = MpValue::Ext(CALLBACK_EXT_TYPE, b"_cfx_internal:112841992:6".to_vec());
    roundtrip(handle);
    roundtrip(MpValue::Dict(vec![
        (
            MpValue::Str(b"defer".to_vec()),
            MpValue::Ext(CALLBACK_EXT_TYPE, b"_cfx_internal:112841992:1".to_vec()),
        ),
        (MpValue::Str(b"player_name".to_vec()), MpValue::Str(b"ann".to_vec())),
    ]));
    roundtrip(MpValue::Ext(-7, vec![1, 2, 3]));
    for len in [1usize, 2, 4, 8, 16, 17, 255, 256] {
        roundtrip(MpValue::Ext(CALLBACK_EXT_TYPE, vec![7; len]));
    }
}

#[test]
fn encoder_matches_reference_encoder() {
    // The shortest-form choices agree with an independent encoder of the
    // same format for scalar, string, positional and named-field payloads.
    assert_eq!(encode(&MpValue::UInt(42)), rmp_serde::to_vec(&42u32).unwrap());
    assert_eq!(encode(&MpValue::UInt(200)), rmp_serde::to_vec(&200u32).unwrap());
    assert_eq!(encode(&MpValue::UInt(70000)), rmp_serde::to_vec(&70000u64).unwrap());
    assert_eq!(encode(&MpValue::Int(-3)), rmp_serde::to_vec(&-3i32).unwrap());
    assert_eq!(encode(&MpValue::Int(-4000)), rmp_serde::to_vec(&-4000i64).unwrap());
    assert_eq!(
        encode(&MpValue::Str(b"hello".to_vec())),
        rmp_serde::to_vec(&"hello").unwrap()
    );
    assert_eq!(
        encode(&MpValue::Array(vec![MpValue::UInt(1), MpValue::Str(b"a".to_vec())])),
        rmp_serde::to_vec(&(1u32, "a")).unwrap()
    );
    let mut map = std::collections::BTreeMap::new();
    map.insert("req", "x");
    assert_eq!(
        encode(&MpValue::Dict(vec![(
            MpValue::Str(b"req".to_vec()),
            MpValue::Str(b"x".to_vec()),
        )])),
        rmp_serde::to_vec(&map).unwrap()
    );
}

#[test]
fn encoder_matches_reference_ext_form() {
    // The callback-reference extension encodes exactly as the low-level
    // reference encoder writes an extension of the same type and length.
    let name = b"_cfx_internal:112841992:6".to_vec();
    let mut expected = Vec::new();
    rmp::encode::write_ext_meta(&mut expected, name.len() as u32, CALLBACK_EXT_TYPE).unwrap();
    expected.extend_from_slice(&name);
    assert_eq!(encode(&MpValue::Ext(CALLBACK_EXT_TYPE, name)), expected);
}

#[test]
fn decoder_reads_reference_encoder_output() {
    let bytes = rmp_serde::to_vec(&(7u32, "ok", -1i32)).unwrap();
    let v = decode(&bytes).expect("reference encoding decodes");
    let expected = MpValue::Array(vec![
        MpValue::UInt(7),
        MpValue::Str(b"ok".to_vec()),
        MpValue::Int(-1),
    ]);
    assert!(v.eq_value(&expected));
}

#[test]
fn decoder_rejects_malformed_input() {
    assert!(decode(&vec![0xc1]).is_none());
    assert!(decode(&vec![0xd9]).is_none());
    assert!(decode(&vec![0xa5, b'a']).is_none());
    assert!(decode(&Vec::new()).is_none());
    // Trailing garbage after one complete value is rejected too.
    assert!(decode(&vec![0xc0, 0xc0]).is_none());
    // Floating-point forms are not part of the runtime's payloads.
    assert!(decode(&vec![0xca, 0, 0, 0, 0]).is_none());
}
