//! Tests of the cursor deserializer's typed extraction and its errors,
//! and of the version resolver.
use horizon_horse::de::{from_bytes, HorseTree, VariantHead};
use horizon_horse::ser::to_bytes;
use horizon_horse::types::{Error, Expected, FormatStyle, VTreeValue, Version, VType, VValue};
use horizon_horse::types::Versioned;
use horizon_horse::version::resolve_version;

fn tree_of(v: VTreeValue) -> HorseTree {
    from_bytes(&to_bytes(&v, FormatStyle::Compact)).unwrap()
}

#[test]
fn typed_extraction() {
    let mut t = tree_of(VTreeValue::Bool(true));
    assert_eq!(t.next_bool(), Ok(true));
    let mut t = tree_of(VTreeValue::Null);
    assert_eq!(t.next_unit(), Ok(()));
    let mut t = tree_of(VTreeValue::Bin(b"xyz".to_vec()));
    assert_eq!(t.next_bin(), Ok(b"xyz".to_vec()));
    let mut t = tree_of(VTreeValue::Opt(Some(Box::new(VTreeValue::U8(3)))));
    assert_eq!(t.next_opt(), Ok(true));
    let mut t = tree_of(VTreeValue::Opt(None));
    assert_eq!(t.next_opt(), Ok(false));
    let mut t = tree_of(VTreeValue::List(vec![VTreeValue::U8(1)]));
    assert_eq!(t.begin_list(), Ok(1));
    let mut t = tree_of(VTreeValue::Dict(vec![]));
    assert_eq!(t.begin_dict(), Ok(0));
    let t = tree_of(VTreeValue::Char('Q'));
    assert_eq!(t.any_type(), Ok(VType::Char));
    assert_eq!(t.peek(), Ok(&VValue::Char('Q')));
}

#[test]
fn unexpected_type_carries_found_and_expected() {
    let mut t = tree_of(VTreeValue::U8(1));
    assert_eq!(
        t.next_bool(),
        Err(Error::UnexpectedType(VType::U8, Expected::Bool))
    );
    // the failed extraction does not move the cursor
    assert_eq!(t.pos, 0);
    let mut t = tree_of(VTreeValue::Bool(false));
    assert_eq!(
        t.begin_list(),
        Err(Error::UnexpectedType(VType::False, Expected::List))
    );
    let mut t = tree_of(VTreeValue::Null);
    assert_eq!(
        t.begin_struct(),
        Err(Error::UnexpectedType(VType::Null, Expected::Record))
    );
    let mut t = tree_of(VTreeValue::Null);
    assert_eq!(
        t.next_enum_head(),
        Err(Error::UnexpectedType(VType::Null, Expected::Variant))
    );
}

#[test]
fn cursor_exhaustion() {
    let mut t = tree_of(VTreeValue::Bool(true));
    assert_eq!(t.next_bool(), Ok(true));
    assert_eq!(t.next_bool(), Err(Error::UnexpectedEOF));
    assert_eq!(t.peek(), Err(Error::UnexpectedEOF));
    assert_eq!(t.skip_value(), Err(Error::UnexpectedEOF));
}

#[test]
fn pair_misuse_errors() {
    fn pair() -> VTreeValue {
        VTreeValue::Pair(Box::new(VTreeValue::U32(1)), Box::new(VTreeValue::U32(2)))
    }
    // a pair requested as a bare value
    let t = tree_of(pair());
    assert_eq!(t.any_type(), Err(Error::NoDeserializeRawPair));
    // a pair where a no-payload variant was expected
    let mut t = tree_of(pair());
    assert_eq!(t.next_unit_variant(), Err(Error::UnitVariantPair));
    // but a bare discriminant is a fine unit variant
    let mut t = tree_of(VTreeValue::UnitVariant(7, b"Seven".to_vec()));
    assert_eq!(t.next_unit_variant(), Ok(VariantHead::Index(7)));
}

#[test]
fn record_either_style_is_accepted() {
    let record = VTreeValue::Record(vec![(b"n".to_vec(), VTreeValue::U16(999))]);
    let mut t = from_bytes(&to_bytes(&record, FormatStyle::Compact)).unwrap();
    assert_eq!(t.begin_struct(), Ok((1, false)));
    let mut t = from_bytes(&to_bytes(&record, FormatStyle::Expressive)).unwrap();
    assert_eq!(t.begin_struct(), Ok((1, true)));
    assert_eq!(t.next_ident(), Ok(VariantHead::Name(b"n".to_vec())));
}

#[test]
fn skip_value_plain_and_nested() {
    let v = VTreeValue::List(vec![
        VTreeValue::U8(1),
        VTreeValue::List(vec![VTreeValue::Bin(b"deep".to_vec())]),
        VTreeValue::Bool(false),
    ]);
    let mut t = tree_of(v);
    let n = t.begin_list().unwrap();
    assert_eq!(n, 3);
    t.skip_value().unwrap();
    t.skip_value().unwrap();
    // after skipping two elements the cursor sits on the third
    assert_eq!(t.next_bool(), Ok(false));
}

#[test]
fn version_ordering() {
    let a = Version(1, 0, 0);
    let b = Version(1, 0, 1);
    let c = Version(1, 1, 0);
    let d = Version(2, 0, 0);
    assert!(a.lt(&b) && b.lt(&c) && c.lt(&d));
    assert!(!b.lt(&a));
    assert!(a.le(&a) && a.le(&d));
    assert!(!d.le(&a));
}

#[test]
fn resolver_picks_oldest_sufficient_shape() {
    let chain = vec![Version(1, 0, 0), Version(1, 1, 0), Version(2, 0, 0)];
    // bytes older than every shape decode at the origin
    assert_eq!(resolve_version(&chain, &Version(0, 9, 0)), Ok(0));
    // bytes of the origin's version decode at the origin
    assert_eq!(resolve_version(&chain, &Version(1, 0, 0)), Ok(0));
    // bytes newer than the origin move up the chain
    assert_eq!(resolve_version(&chain, &Version(1, 0, 5)), Ok(1));
    assert_eq!(resolve_version(&chain, &Version(1, 1, 0)), Ok(1));
    assert_eq!(resolve_version(&chain, &Version(1, 2, 0)), Ok(2));
    assert_eq!(resolve_version(&chain, &Version(2, 0, 0)), Ok(2));
    // bytes from the future are refused
    assert_eq!(
        resolve_version(&chain, &Version(2, 0, 1)),
        Err(Error::VersionInTheFuture(Version(2, 0, 1), Version(2, 0, 0)))
    );
}

// The version-migration scenario: a shape with fields `keep` and `old`
// gives way to one with fields `keep` and `new`, the conversion dropping
// `old` and defaulting `new`.
struct ShapeV1 {
    keep: Vec<u8>,
    old: Vec<u8>,
}

struct ShapeV2 {
    keep: Vec<u8>,
    new: Vec<u8>,
}

impl ShapeV1 {
    fn to_tree(&self) -> VTreeValue {
        VTreeValue::Record(vec![
            (b"keep".to_vec(), VTreeValue::Bin(self.keep.clone())),
            (b"old".to_vec(), VTreeValue::Bin(self.old.clone())),
        ])
    }

    fn decode(t: &mut HorseTree) -> Result<ShapeV1, Error> {
        let (n, _named) = t.begin_struct()?;
        assert_eq!(n, 2);
        let keep = t.next_bin()?;
        let old = t.next_bin()?;
        Ok(ShapeV1 { keep, old })
    }
}

impl ShapeV2 {
    fn decode(t: &mut HorseTree) -> Result<ShapeV2, Error> {
        let (n, _named) = t.begin_struct()?;
        assert_eq!(n, 2);
        let keep = t.next_bin()?;
        let new = t.next_bin()?;
        Ok(ShapeV2 { keep, new })
    }

    fn from_old(v: ShapeV1) -> ShapeV2 {
        ShapeV2 { keep: v.keep, new: b"fresh default".to_vec() }
    }
}

#[test]
fn version_migration_scenario() {
    let original = ShapeV1 { keep: b"keep this".to_vec(), old: b"drop this".to_vec() };
    let bytes = to_bytes(&original.to_tree(), FormatStyle::Compact);
    let chain = vec![Version(1, 0, 0), Version(1, 1, 0)];
    // decoding as the current shape with stated version 1.0.0 goes
    // through the old shape and the conversion
    let k = resolve_version(&chain, &Version(1, 0, 0)).unwrap();
    assert_eq!(k, 0);
    let mut tree = from_bytes(&bytes).unwrap();
    let decoded = if k == 0 {
        ShapeV2::from_old(ShapeV1::decode(&mut tree).unwrap())
    } else {
        ShapeV2::decode(&mut tree).unwrap()
    };
    assert_eq!(decoded.keep, b"keep this".to_vec());
    assert_eq!(decoded.new, b"fresh default".to_vec());
    // decoding the same bytes directly as the old shape reproduces it
    let mut tree = from_bytes(&bytes).unwrap();
    let direct = ShapeV1::decode(&mut tree).unwrap();
    assert_eq!(direct.keep, original.keep);
    assert_eq!(direct.old, original.old);
    // bytes stated newer than the chain are refused
    assert_eq!(
        resolve_version(&chain, &Version(1, 2, 0)),
        Err(Error::VersionInTheFuture(Version(1, 2, 0), Version(1, 1, 0)))
    );
}

#[test]
fn numeric_extraction_every_width() {
    let mut t = tree_of(VTreeValue::I8(-7));
    assert_eq!(t.next_i8(), Ok(-7));
    let mut t = tree_of(VTreeValue::I16(-300));
    assert_eq!(t.next_i16(), Ok(-300));
    let mut t = tree_of(VTreeValue::I32(123456));
    assert_eq!(t.next_i32(), Ok(123456));
    let mut t = tree_of(VTreeValue::I64(i64::MIN));
    assert_eq!(t.next_i64(), Ok(i64::MIN));
    let mut t = tree_of(VTreeValue::I128(i128::MAX));
    assert_eq!(t.next_i128(), Ok(i128::MAX));
    let mut t = tree_of(VTreeValue::U8(255));
    assert_eq!(t.next_u8(), Ok(255));
    let mut t = tree_of(VTreeValue::U16(40000));
    assert_eq!(t.next_u16(), Ok(40000));
    let mut t = tree_of(VTreeValue::U32(70000));
    assert_eq!(t.next_u32(), Ok(70000));
    let mut t = tree_of(VTreeValue::U64(u64::MAX));
    assert_eq!(t.next_u64(), Ok(u64::MAX));
    let mut t = tree_of(VTreeValue::U128(u128::MAX));
    assert_eq!(t.next_u128(), Ok(u128::MAX));
    let mut t = tree_of(VTreeValue::F32(2.5f32.to_bits()));
    assert_eq!(t.next_f32_bits().map(f32::from_bits), Ok(2.5f32));
    let mut t = tree_of(VTreeValue::F64(6.25f64.to_bits()));
    assert_eq!(t.next_f64_bits().map(f64::from_bits), Ok(6.25f64));
    let mut t = tree_of(VTreeValue::Char('中'));
    assert_eq!(t.next_char(), Ok('中'));
    // the token's width must match the request exactly
    let mut t = tree_of(VTreeValue::U8(1));
    assert_eq!(
        t.next_u16(),
        Err(Error::UnexpectedType(VType::U8, Expected::U16))
    );
}

#[test]
fn tag_count_matches_the_tag_space() {
    assert_eq!(horizon_horse::TAG_COUNT, 22);
    for b in 0..horizon_horse::TAG_COUNT {
        assert!(VType::of_byte(b).is_some());
    }
    assert!(VType::of_byte(horizon_horse::TAG_COUNT).is_none());
}

// The version-chain trait, as a user of the library declares it.
impl Versioned for ShapeV1 {
    type Old = ShapeV1;

    fn version() -> Version {
        Version(1, 0, 0)
    }

    fn is_new() -> bool {
        false
    }
}

impl Versioned for ShapeV2 {
    type Old = ShapeV1;

    fn version() -> Version {
        Version(1, 1, 0)
    }

    fn is_new() -> bool {
        true
    }
}

#[test]
fn versioned_trait_declares_the_chain() {
    assert_eq!(<ShapeV1 as Versioned>::version(), Version(1, 0, 0));
    assert!(!<ShapeV1 as Versioned>::is_new());
    assert_eq!(<ShapeV2 as Versioned>::version(), Version(1, 1, 0));
    assert!(<ShapeV2 as Versioned>::is_new());
    let chain = vec![
        <ShapeV1 as Versioned>::version(),
        <ShapeV2 as Versioned>::version(),
    ];
    assert_eq!(resolve_version(&chain, &Version(1, 0, 7)), Ok(1));
}

#[test]
fn style_equivalence_nested_records() {
    // a record whose field value is itself a record: the nested record is
    // a list under one style and a name-keyed dictionary under the other,
    // yet both decode to the same inner field value
    fn outer() -> VTreeValue {
        VTreeValue::Record(vec![(
            b"inner".to_vec(),
            VTreeValue::Record(vec![(b"n".to_vec(), VTreeValue::U16(4242))]),
        )])
    }
    let mut tc = from_bytes(&to_bytes(&outer(), FormatStyle::Compact)).unwrap();
    let (n, named) = tc.begin_struct().unwrap();
    assert_eq!((n, named), (1, false));
    let (n2, named2) = tc.begin_struct().unwrap();
    assert_eq!((n2, named2), (1, false));
    let from_compact = tc.next_u16().unwrap();
    let mut te = from_bytes(&to_bytes(&outer(), FormatStyle::Expressive)).unwrap();
    let (n, named) = te.begin_struct().unwrap();
    assert_eq!((n, named), (1, true));
    assert_eq!(te.next_bin().unwrap(), b"inner".to_vec());
    let (n2, named2) = te.begin_struct().unwrap();
    assert_eq!((n2, named2), (1, true));
    assert_eq!(te.next_bin().unwrap(), b"n".to_vec());
    let from_expressive = te.next_u16().unwrap();
    assert_eq!(from_compact, from_expressive);
    assert_eq!(from_compact, 4242);
}

#[test]
fn error_opt_lifts_options() {
    assert_eq!(Error::opt(Some(5u32), Error::UnexpectedEOF), Ok(5));
    assert_eq!(
        Error::opt::<u32>(None, Error::UnexpectedEOF),
        Err(Error::UnexpectedEOF)
    );
}
