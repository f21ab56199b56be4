//! Round-trip and wire-format tests of the codec core.
use horizon_horse::de::{from_bytes, VariantHead};
use horizon_horse::ser::{to_bytes, Serializer};
use horizon_horse::types::{Error, FormatStyle, VTreeValue, VType, VValue};

fn roundtrip_tokens(v: VTreeValue, style: FormatStyle) -> Vec<VValue> {
    let bytes = to_bytes(&v, style);
    let tree = from_bytes(&bytes).expect("valid encoding must parse");
    assert_eq!(tree.pos, 0);
    tree.toks
}

#[test]
fn roundtrip_null_bool() {
    assert_eq!(
        roundtrip_tokens(VTreeValue::Null, FormatStyle::Compact),
        vec![VValue::Null]
    );
    assert_eq!(
        roundtrip_tokens(VTreeValue::Bool(true), FormatStyle::Compact),
        vec![VValue::Bool(true)]
    );
    assert_eq!(
        roundtrip_tokens(VTreeValue::Bool(false), FormatStyle::Expressive),
        vec![VValue::Bool(false)]
    );
}

#[test]
fn roundtrip_unsigned_boundaries() {
    for v in [
        0u128,
        1,
        31,
        32,
        255,
        256,
        8191,
        8192,
        65535,
        65536,
        0x1FFFFF,
        0x200000,
        0xFFFFFFFF,
        0x100000000,
        0x1FFFFFFFFF,
        0x2000000000,
        0xFFFFFFFFFFFFFFFF,
        0x10000000000000000,
        0x1FFFFFFFFFFFFFFFFF,
        0x20000000000000000,
        u128::MAX,
    ] {
        assert_eq!(
            roundtrip_tokens(VTreeValue::U128(v), FormatStyle::Compact),
            vec![VValue::U128(v)],
            "u128 {v}"
        );
    }
    assert_eq!(
        roundtrip_tokens(VTreeValue::U8(200), FormatStyle::Compact),
        vec![VValue::U8(200)]
    );
    assert_eq!(
        roundtrip_tokens(VTreeValue::U16(40000), FormatStyle::Compact),
        vec![VValue::U16(40000)]
    );
    assert_eq!(
        roundtrip_tokens(VTreeValue::U32(70000), FormatStyle::Compact),
        vec![VValue::U32(70000)]
    );
    assert_eq!(
        roundtrip_tokens(VTreeValue::U64(u64::MAX), FormatStyle::Compact),
        vec![VValue::U64(u64::MAX)]
    );
}

#[test]
fn roundtrip_signed_boundaries() {
    for v in [
        0i128,
        -1,
        1,
        -16,
        15,
        16,
        -17,
        127,
        -128,
        128,
        -129,
        4095,
        -4096,
        4096,
        -4097,
        32767,
        -32768,
        32768,
        0xFFFFF,
        -0x100000,
        0x100000,
        -0x100001,
        i32::MAX as i128,
        i32::MIN as i128,
        0xFFFFFFFFF,
        -0x1000000000,
        i64::MAX as i128,
        i64::MIN as i128,
        i128::MAX,
        i128::MIN,
    ] {
        assert_eq!(
            roundtrip_tokens(VTreeValue::I128(v), FormatStyle::Compact),
            vec![VValue::I128(v)],
            "i128 {v}"
        );
    }
    assert_eq!(
        roundtrip_tokens(VTreeValue::I8(-128), FormatStyle::Compact),
        vec![VValue::I8(-128)]
    );
    assert_eq!(
        roundtrip_tokens(VTreeValue::I16(-128), FormatStyle::Compact),
        vec![VValue::I16(-128)]
    );
    assert_eq!(
        roundtrip_tokens(VTreeValue::I32(-8192), FormatStyle::Compact),
        vec![VValue::I32(-8192)]
    );
    assert_eq!(
        roundtrip_tokens(VTreeValue::I64(123456789), FormatStyle::Compact),
        vec![VValue::I64(123456789)]
    );
}

#[test]
fn roundtrip_floats_exact_bits() {
    let f = 1.5f32;
    let toks = roundtrip_tokens(VTreeValue::F32(f.to_bits()), FormatStyle::Compact);
    assert_eq!(toks, vec![VValue::F32(f.to_bits())]);
    let nan_bits = 0x7FC00001u32;
    let toks = roundtrip_tokens(VTreeValue::F32(nan_bits), FormatStyle::Compact);
    assert_eq!(toks, vec![VValue::F32(nan_bits)]);
    let d = -2.625f64;
    let toks = roundtrip_tokens(VTreeValue::F64(d.to_bits()), FormatStyle::Compact);
    assert_eq!(toks, vec![VValue::F64(d.to_bits())]);
}

#[test]
fn roundtrip_char_and_bin() {
    for c in ['\0', 'A', 'ß', '中', '\u{10FFFF}'] {
        assert_eq!(
            roundtrip_tokens(VTreeValue::Char(c), FormatStyle::Compact),
            vec![VValue::Char(c)],
            "char {c:?}"
        );
    }
    let data = b"hello world".to_vec();
    assert_eq!(
        roundtrip_tokens(VTreeValue::Bin(data.clone()), FormatStyle::Compact),
        vec![VValue::Bin(data)]
    );
    assert_eq!(
        roundtrip_tokens(VTreeValue::Bin(Vec::new()), FormatStyle::Compact),
        vec![VValue::Bin(Vec::new())]
    );
}

#[test]
fn roundtrip_containers() {
    let v = VTreeValue::List(vec![
        VTreeValue::U8(1),
        VTreeValue::List(vec![VTreeValue::Bool(true), VTreeValue::Null]),
        VTreeValue::Opt(Some(Box::new(VTreeValue::I16(-300)))),
        VTreeValue::Opt(None),
    ]);
    let toks = roundtrip_tokens(v, FormatStyle::Compact);
    assert_eq!(
        toks,
        vec![
            VValue::List(4),
            VValue::U8(1),
            VValue::List(2),
            VValue::Bool(true),
            VValue::Null,
            VValue::Opt(true),
            VValue::I16(-300),
            VValue::Opt(false),
        ]
    );
    let d = VTreeValue::Dict(vec![
        (VTreeValue::Bin(b"k".to_vec()), VTreeValue::U32(7)),
        (VTreeValue::Bin(b"l".to_vec()), VTreeValue::Bool(false)),
    ]);
    let toks = roundtrip_tokens(d, FormatStyle::Compact);
    assert_eq!(toks[0], VValue::Dict(2));
    assert_eq!(toks.len(), 5);
    let p = VTreeValue::Pair(
        Box::new(VTreeValue::U32(1)),
        Box::new(VTreeValue::Bool(true)),
    );
    let toks = roundtrip_tokens(p, FormatStyle::Compact);
    assert_eq!(
        toks,
        vec![VValue::Pair, VValue::U32(1), VValue::Bool(true)]
    );
}

#[test]
fn wire_format_exact_bytes() {
    // every tag byte is its declaration position
    assert_eq!(VType::Null.tag_byte(), 0);
    assert_eq!(VType::True.tag_byte(), 2);
    assert_eq!(VType::U8.tag_byte(), 8);
    assert_eq!(VType::Pair.tag_byte(), 21);
    assert_eq!(VType::of_byte(21), Some(VType::Pair));
    assert_eq!(VType::of_byte(22), None);
    // small unsigned: the value sits in the leading byte
    assert_eq!(to_bytes(&VTreeValue::U8(5), FormatStyle::Compact), vec![8, 5]);
    // large 1-byte unsigned: one signature byte, then the raw byte
    assert_eq!(
        to_bytes(&VTreeValue::U8(200), FormatStyle::Compact),
        vec![8, 0x20, 200]
    );
    // small 2-byte unsigned: 5 value bits in the leading byte
    assert_eq!(
        to_bytes(&VTreeValue::U16(0x1234), FormatStyle::Compact),
        vec![9, 0x32, 0x34]
    );
    // a u64 holding a small value downcasts to the 1-byte class
    assert_eq!(to_bytes(&VTreeValue::U64(5), FormatStyle::Compact), vec![11, 5]);
    // small signed: 5-bit two's complement in the leading byte
    assert_eq!(to_bytes(&VTreeValue::I8(-5), FormatStyle::Compact), vec![3, 0x1B]);
    // negative small 2-byte signed, sign bit set in the leading byte
    assert_eq!(
        to_bytes(&VTreeValue::I16(-0x1000), FormatStyle::Compact),
        vec![4, 0x30, 0x00]
    );
    // bin: tag, count, raw bytes
    assert_eq!(
        to_bytes(&VTreeValue::Bin(b"ab".to_vec()), FormatStyle::Compact),
        vec![16, 2, b'a', b'b']
    );
}

#[test]
fn narrowest_width_is_byte_identical() {
    // the same logical value encodes identically at every declared width
    let mut s16 = Serializer::new(Vec::new(), FormatStyle::Compact);
    s16.wr_uint(300);
    let mut s64 = Serializer::new(Vec::new(), FormatStyle::Compact);
    s64.wr_uint(300u64 as u128);
    assert_eq!(s16.output, s64.output);
    let a = to_bytes(&VTreeValue::U16(300), FormatStyle::Compact);
    let b = to_bytes(&VTreeValue::U64(300), FormatStyle::Compact);
    // identical numeric payload after their different type tags
    assert_eq!(&a[1..], &b[1..]);
    let a = to_bytes(&VTreeValue::I16(-300), FormatStyle::Compact);
    let b = to_bytes(&VTreeValue::I128(-300), FormatStyle::Compact);
    assert_eq!(&a[1..], &b[1..]);
}

#[test]
fn small_large_boundary_bytes() {
    // the last small value of the 2-byte class has no signature-only byte
    let mut s = Serializer::new(Vec::new(), FormatStyle::Compact);
    s.wr_uint(0x1FFF);
    assert_eq!(s.output, vec![0x3F, 0xFF]);
    // the first large value gains the explicit signature byte
    let mut s = Serializer::new(Vec::new(), FormatStyle::Compact);
    s.wr_uint(0x2000);
    assert_eq!(s.output, vec![0x40, 0x20, 0x00]);
    // both decode back to themselves
    assert_eq!(
        roundtrip_tokens(VTreeValue::U16(0x1FFF), FormatStyle::Compact),
        vec![VValue::U16(0x1FFF)]
    );
    assert_eq!(
        roundtrip_tokens(VTreeValue::U16(0x2000), FormatStyle::Compact),
        vec![VValue::U16(0x2000)]
    );
    // signed boundary of the 2-byte class
    let mut s = Serializer::new(Vec::new(), FormatStyle::Compact);
    s.wr_int(0xFFF);
    assert_eq!(s.output, vec![0x2F, 0xFF]);
    let mut s = Serializer::new(Vec::new(), FormatStyle::Compact);
    s.wr_int(0x1000);
    assert_eq!(s.output, vec![0x40, 0x10, 0x00]);
}

fn nested_value() -> VTreeValue {
    VTreeValue::List(vec![
        VTreeValue::Dict(vec![(
            VTreeValue::Bin(b"k".to_vec()),
            VTreeValue::List(vec![VTreeValue::U8(1), VTreeValue::U8(2)]),
        )]),
        VTreeValue::Opt(Some(Box::new(VTreeValue::Pair(
            Box::new(VTreeValue::U32(1)),
            Box::new(VTreeValue::Bin(b"x".to_vec())),
        )))),
    ])
}

#[test]
fn structural_skip_matches_structured_decode() {
    // a nested value, then a marker after it
    let toks = roundtrip_tokens(nested_value(), FormatStyle::Compact);
    let total = toks.len();
    let mut tree = from_bytes(&to_bytes(&nested_value(), FormatStyle::Compact)).unwrap();
    tree.skip_value().unwrap();
    // skipping consumed exactly the tokens a structured decode would
    assert_eq!(tree.pos, total);
    // a structured walk of the same value consumes the same count
    let mut tree2 = from_bytes(&to_bytes(&nested_value(), FormatStyle::Compact)).unwrap();
    let n = tree2.begin_list().unwrap();
    assert_eq!(n, 2);
    for _ in 0..n {
        tree2.skip_value().unwrap();
    }
    assert_eq!(tree2.pos, total);
}

#[test]
fn style_equivalence_three_records() {
    fn record() -> VTreeValue {
        VTreeValue::Record(vec![
            (b"alpha".to_vec(), VTreeValue::U32(1)),
            (b"beta".to_vec(), VTreeValue::Bin(b"two".to_vec())),
            (b"gamma".to_vec(), VTreeValue::Bool(true)),
        ])
    }
    let names: Vec<&[u8]> = vec![b"alpha", b"beta", b"gamma"];
    let compact = to_bytes(&record(), FormatStyle::Compact);
    let expressive = to_bytes(&record(), FormatStyle::Expressive);
    assert_ne!(compact, expressive);
    let mut values_c: Vec<Vec<VValue>> = Vec::new();
    let mut tree = from_bytes(&compact).unwrap();
    let (n, is_dict) = tree.begin_struct().unwrap();
    assert_eq!((n, is_dict), (3, false));
    for _ in 0..n {
        let start = tree.pos;
        tree.skip_value().unwrap();
        values_c.push(tree.toks[start..tree.pos].to_vec());
    }
    let mut values_e: Vec<Vec<VValue>> = Vec::new();
    let mut tree = from_bytes(&expressive).unwrap();
    let (n, is_dict) = tree.begin_struct().unwrap();
    assert_eq!((n, is_dict), (3, true));
    for i in 0..n {
        // the field name, then the field value
        let name = tree.next_bin().unwrap();
        assert_eq!(name, names[i]);
        let start = tree.pos;
        tree.skip_value().unwrap();
        values_e.push(tree.toks[start..tree.pos].to_vec());
    }
    // both styles decode to identical field values
    assert_eq!(values_c, values_e);
}

#[test]
fn tagged_unions_both_styles() {
    let unit = VTreeValue::UnitVariant(3, b"Three".to_vec());
    let mut tree = from_bytes(&to_bytes(&unit, FormatStyle::Compact)).unwrap();
    assert_eq!(tree.next_enum_head().unwrap(), VariantHead::Index(3));
    let mut tree = from_bytes(&to_bytes(&unit, FormatStyle::Expressive)).unwrap();
    assert_eq!(
        tree.next_enum_head().unwrap(),
        VariantHead::Name(b"Three".to_vec())
    );
    let newtype = VTreeValue::NewtypeVariant(1, b"One".to_vec(), Box::new(VTreeValue::U8(9)));
    let mut tree = from_bytes(&to_bytes(&newtype, FormatStyle::Compact)).unwrap();
    assert_eq!(tree.next_enum_head().unwrap(), VariantHead::WithPayload);
    assert_eq!(tree.next_ident().unwrap(), VariantHead::Index(1));
    let toks = tree.toks.clone();
    assert_eq!(toks[2], VValue::U8(9));
    let tuple = VTreeValue::TupleVariant(
        2,
        b"Two".to_vec(),
        vec![VTreeValue::U8(1), VTreeValue::U8(2)],
    );
    let toks = roundtrip_tokens(tuple, FormatStyle::Compact);
    assert_eq!(
        toks,
        vec![
            VValue::Pair,
            VValue::U32(2),
            VValue::List(2),
            VValue::U8(1),
            VValue::U8(2),
        ]
    );
    let sv = VTreeValue::StructVariant(
        0,
        b"Zero".to_vec(),
        vec![(b"f".to_vec(), VTreeValue::Bool(true))],
    );
    let toks = roundtrip_tokens(sv, FormatStyle::Expressive);
    assert_eq!(toks[0], VValue::Pair);
    assert_eq!(toks[1], VValue::Bin(b"Zero".to_vec()));
    assert_eq!(toks[2], VValue::Dict(1));
}

#[test]
fn malformed_inputs() {
    // empty input is a truncation
    assert_eq!(from_bytes(&[]).unwrap_err(), Error::UnexpectedEOF);
    // an unused tag byte is an invalid type
    assert_eq!(from_bytes(&[22]).unwrap_err(), Error::InvalidType(22));
    assert_eq!(from_bytes(&[0xFF]).unwrap_err(), Error::InvalidType(0xFF));
    // truncations in the middle of every kind of payload
    let full = to_bytes(&VTreeValue::U64(123456789), FormatStyle::Compact);
    for k in 1..full.len() {
        assert_eq!(
            from_bytes(&full[..k]).unwrap_err(),
            Error::UnexpectedEOF,
            "truncated at {k}"
        );
    }
    let full = to_bytes(
        &VTreeValue::List(vec![VTreeValue::U8(1), VTreeValue::Bin(b"abc".to_vec())]),
        FormatStyle::Compact,
    );
    for k in 1..full.len() {
        assert_eq!(
            from_bytes(&full[..k]).unwrap_err(),
            Error::UnexpectedEOF,
            "truncated at {k}"
        );
    }
    // an integer stored wider than its tag allows
    assert_eq!(
        from_bytes(&[8, 0x40, 0x01, 0x00]).unwrap_err(),
        Error::IntCastFail
    );
    // a codepoint in the surrogate range
    let mut bad_char = vec![15];
    let mut s = Serializer::new(Vec::new(), FormatStyle::Compact);
    s.wr_uint(0xD800);
    bad_char.extend_from_slice(&s.output);
    assert_eq!(from_bytes(&bad_char).unwrap_err(), Error::InvalidChar(0xD800));
}

#[test]
fn trailing_bytes_are_not_read() {
    let mut bytes = to_bytes(&VTreeValue::U8(7), FormatStyle::Compact);
    bytes.push(99);
    let tree = from_bytes(&bytes).unwrap();
    assert_eq!(tree.toks, vec![VValue::U8(7)]);
}
