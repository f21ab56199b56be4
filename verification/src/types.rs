//! Core data model of the wire format: type tags, tokens, value trees,
//! format styles, versions and the error taxonomy.
use vstd::prelude::*;

verus! {

/// Style to use for serializing records and tagged-union metadata.
/// The decoder is agnostic to it: the style is not recorded in the stream.
#[derive(Debug, Clone, Copy, PartialEq, Eq, Structural)]
pub enum FormatStyle {
    /// store record fields / union variants using numerical indexes
    Compact,
    /// store record fields / union variants using their names, as `Bin` values
    Expressive,
}

/// A version number in semver, compared lexicographically.
#[derive(Debug, Clone, Copy, PartialEq, Eq, Structural, Hash)]
pub struct Version(pub u16, pub u16, pub u16);

/// Lexicographic "strictly older than" order on versions.
pub open spec fn version_lt(a: Version, b: Version) -> bool {
    a.0 < b.0 || (a.0 == b.0 && (a.1 < b.1 || (a.1 == b.1 && a.2 < b.2)))
}

impl Version {
    /// `self` is strictly older than `other`.
    pub fn lt(&self, other: &Version) -> (r: bool)
        ensures
            r == version_lt(*self, *other),
    {
        self.0 < other.0 || (self.0 == other.0 && (self.1 < other.1 || (self.1 == other.1
            && self.2 < other.2)))
    }

    /// `self` is `other` or older.
    pub fn le(&self, other: &Version) -> (r: bool)
        ensures
            r == (version_lt(*self, *other) || *self == *other),
    {
        self.lt(other) || (self.0 == other.0 && self.1 == other.1 && self.2 == other.2)
    }
}

/// A structure that has multiple versions, linked to its immediately
/// preceding shape. The oldest shape in a chain has itself as `Old` and
/// reports `is_new` false.
pub trait Versioned: Sized {
    /// The immediately preceding shape.
    type Old;

    /// The declared version of this shape.
    fn version() -> Version;

    /// Whether this shape has a distinct predecessor.
    fn is_new() -> bool;
}

/// The single-byte wire type tag. The wire value of each tag is its
/// position in this declaration order, `Null` being zero and `Pair` 21.
#[derive(Debug, Clone, Copy, PartialEq, Eq, Structural)]
pub enum VType {
    Null,
    False,
    True,
    I8,
    I16,
    I32,
    I64,
    I128,
    U8,
    U16,
    U32,
    U64,
    U128,
    F32,
    F64,
    Char,
    Bin,
    OptSome,
    OptNone,
    List,
    Dict,
    Pair,
}

/// The byte that encodes a type tag on the wire.
pub open spec fn spec_tag_byte(t: VType) -> u8 {
    match t {
        VType::Null => 0,
        VType::False => 1,
        VType::True => 2,
        VType::I8 => 3,
        VType::I16 => 4,
        VType::I32 => 5,
        VType::I64 => 6,
        VType::I128 => 7,
        VType::U8 => 8,
        VType::U16 => 9,
        VType::U32 => 10,
        VType::U64 => 11,
        VType::U128 => 12,
        VType::F32 => 13,
        VType::F64 => 14,
        VType::Char => 15,
        VType::Bin => 16,
        VType::OptSome => 17,
        VType::OptNone => 18,
        VType::List => 19,
        VType::Dict => 20,
        VType::Pair => 21,
    }
}

/// The type tag a byte stands for, if any; bytes 22 and above are invalid.
pub open spec fn spec_tag_of_byte(b: u8) -> Option<VType> {
    if b == 0 {
        Some(VType::Null)
    } else if b == 1 {
        Some(VType::False)
    } else if b == 2 {
        Some(VType::True)
    } else if b == 3 {
        Some(VType::I8)
    } else if b == 4 {
        Some(VType::I16)
    } else if b == 5 {
        Some(VType::I32)
    } else if b == 6 {
        Some(VType::I64)
    } else if b == 7 {
        Some(VType::I128)
    } else if b == 8 {
        Some(VType::U8)
    } else if b == 9 {
        Some(VType::U16)
    } else if b == 10 {
        Some(VType::U32)
    } else if b == 11 {
        Some(VType::U64)
    } else if b == 12 {
        Some(VType::U128)
    } else if b == 13 {
        Some(VType::F32)
    } else if b == 14 {
        Some(VType::F64)
    } else if b == 15 {
        Some(VType::Char)
    } else if b == 16 {
        Some(VType::Bin)
    } else if b == 17 {
        Some(VType::OptSome)
    } else if b == 18 {
        Some(VType::OptNone)
    } else if b == 19 {
        Some(VType::List)
    } else if b == 20 {
        Some(VType::Dict)
    } else if b == 21 {
        Some(VType::Pair)
    } else {
        None
    }
}

impl VType {
    /// The wire byte of this tag.
    pub fn tag_byte(self) -> (b: u8)
        ensures
            b == spec_tag_byte(self),
    {
        match self {
            VType::Null => 0,
            VType::False => 1,
            VType::True => 2,
            VType::I8 => 3,
            VType::I16 => 4,
            VType::I32 => 5,
            VType::I64 => 6,
            VType::I128 => 7,
            VType::U8 => 8,
            VType::U16 => 9,
            VType::U32 => 10,
            VType::U64 => 11,
            VType::U128 => 12,
            VType::F32 => 13,
            VType::F64 => 14,
            VType::Char => 15,
            VType::Bin => 16,
            VType::OptSome => 17,
            VType::OptNone => 18,
            VType::List => 19,
            VType::Dict => 20,
            VType::Pair => 21,
        }
    }

    /// Recover a tag from its wire byte.
    pub fn of_byte(b: u8) -> (r: Option<VType>)
        ensures
            r == spec_tag_of_byte(b),
    {
        if b == 0 {
            Some(VType::Null)
        } else if b == 1 {
            Some(VType::False)
        } else if b == 2 {
            Some(VType::True)
        } else if b == 3 {
            Some(VType::I8)
        } else if b == 4 {
            Some(VType::I16)
        } else if b == 5 {
            Some(VType::I32)
        } else if b == 6 {
            Some(VType::I64)
        } else if b == 7 {
            Some(VType::I128)
        } else if b == 8 {
            Some(VType::U8)
        } else if b == 9 {
            Some(VType::U16)
        } else if b == 10 {
            Some(VType::U32)
        } else if b == 11 {
            Some(VType::U64)
        } else if b == 12 {
            Some(VType::U128)
        } else if b == 13 {
            Some(VType::F32)
        } else if b == 14 {
            Some(VType::F64)
        } else if b == 15 {
            Some(VType::Char)
        } else if b == 16 {
            Some(VType::Bin)
        } else if b == 17 {
            Some(VType::OptSome)
        } else if b == 18 {
            Some(VType::OptNone)
        } else if b == 19 {
            Some(VType::List)
        } else if b == 20 {
            Some(VType::Dict)
        } else if b == 21 {
            Some(VType::Pair)
        } else {
            None
        }
    }
}

/// Tag bytes and tags are in exact correspondence: every tag round-trips
/// through its byte, and a byte names a tag exactly when it is below 22.
pub proof fn lemma_tag_byte_inverse()
    ensures
        forall|t: VType| spec_tag_of_byte(spec_tag_byte(t)) == Some(t),
        forall|b: u8| spec_tag_of_byte(b) is Some <==> b < 22,
        forall|b: u8| #[trigger] spec_tag_of_byte(b) matches Some(t) ==> spec_tag_byte(t) == b,
{
    assert forall|t: VType| spec_tag_of_byte(spec_tag_byte(t)) == Some(t) by {
        match t {
            VType::Null => {},
            VType::False => {},
            VType::True => {},
            VType::I8 => {},
            VType::I16 => {},
            VType::I32 => {},
            VType::I64 => {},
            VType::I128 => {},
            VType::U8 => {},
            VType::U16 => {},
            VType::U32 => {},
            VType::U64 => {},
            VType::U128 => {},
            VType::F32 => {},
            VType::F64 => {},
            VType::Char => {},
            VType::Bin => {},
            VType::OptSome => {},
            VType::OptNone => {},
            VType::List => {},
            VType::Dict => {},
            VType::Pair => {},
        }
    }
}

/// One decoded token. Primitive tokens hold their decoded value directly;
/// floating-point tokens hold the raw bit pattern of the value, which the
/// format round-trips exactly. Container tokens hold only their cardinality:
/// their children are the tokens immediately following them in document
/// order, so a decoded value is a flat, pre-order sequence of tokens.
#[derive(Debug, Clone, PartialEq, Eq)]
pub enum VValue {
    Null,
    Bool(bool),
    I8(i8),
    I16(i16),
    I32(i32),
    I64(i64),
    I128(i128),
    U8(u8),
    U16(u16),
    U32(u32),
    U64(u64),
    U128(u128),
    F32(u32),
    F64(u64),
    Char(char),
    Bin(Vec<u8>),
    Opt(bool),
    List(usize),
    Dict(usize),
    Pair,
}

impl VValue {
    /// The wire type tag this token corresponds to.
    pub open spec fn spec_as_type(&self) -> VType {
        match self {
            VValue::Null => VType::Null,
            VValue::Bool(b) => if *b {
                VType::True
            } else {
                VType::False
            },
            VValue::I8(_) => VType::I8,
            VValue::I16(_) => VType::I16,
            VValue::I32(_) => VType::I32,
            VValue::I64(_) => VType::I64,
            VValue::I128(_) => VType::I128,
            VValue::U8(_) => VType::U8,
            VValue::U16(_) => VType::U16,
            VValue::U32(_) => VType::U32,
            VValue::U64(_) => VType::U64,
            VValue::U128(_) => VType::U128,
            VValue::F32(_) => VType::F32,
            VValue::F64(_) => VType::F64,
            VValue::Char(_) => VType::Char,
            VValue::Bin(_) => VType::Bin,
            VValue::Opt(present) => if *present {
                VType::OptSome
            } else {
                VType::OptNone
            },
            VValue::List(_) => VType::List,
            VValue::Dict(_) => VType::Dict,
            VValue::Pair => VType::Pair,
        }
    }

    /// The wire type tag this token corresponds to.
    pub fn as_type(&self) -> (t: VType)
        ensures
            t == self.spec_as_type(),
    {
        match self {
            VValue::Null => VType::Null,
            VValue::Bool(b) => if *b {
                VType::True
            } else {
                VType::False
            },
            VValue::I8(_) => VType::I8,
            VValue::I16(_) => VType::I16,
            VValue::I32(_) => VType::I32,
            VValue::I64(_) => VType::I64,
            VValue::I128(_) => VType::I128,
            VValue::U8(_) => VType::U8,
            VValue::U16(_) => VType::U16,
            VValue::U32(_) => VType::U32,
            VValue::U64(_) => VType::U64,
            VValue::U128(_) => VType::U128,
            VValue::F32(_) => VType::F32,
            VValue::F64(_) => VType::F64,
            VValue::Char(_) => VType::Char,
            VValue::Bin(_) => VType::Bin,
            VValue::Opt(present) => if *present {
                VType::OptSome
            } else {
                VType::OptNone
            },
            VValue::List(_) => VType::List,
            VValue::Dict(_) => VType::Dict,
            VValue::Pair => VType::Pair,
        }
    }
}

/// A whole value as a tree, the input of the value writer. Floating-point
/// leaves hold raw bit patterns. Records and tagged-union variants carry
/// both their ordinal index and their name, so that either format style
/// can render them.
#[derive(Debug, PartialEq, Eq)]
pub enum VTreeValue {
    Null,
    Bool(bool),
    I8(i8),
    I16(i16),
    I32(i32),
    I64(i64),
    I128(i128),
    U8(u8),
    U16(u16),
    U32(u32),
    U64(u64),
    U128(u128),
    F32(u32),
    F64(u64),
    Char(char),
    Bin(Vec<u8>),
    Opt(Option<Box<VTreeValue>>),
    List(Vec<VTreeValue>),
    Dict(Vec<(VTreeValue, VTreeValue)>),
    Pair(Box<VTreeValue>, Box<VTreeValue>),
    /// A record: named fields in declared order.
    Record(Vec<(Vec<u8>, VTreeValue)>),
    /// A tagged-union variant with no payload: ordinal index and name.
    UnitVariant(u32, Vec<u8>),
    /// A tagged-union variant with a single payload value.
    NewtypeVariant(u32, Vec<u8>, Box<VTreeValue>),
    /// A tagged-union variant with a tuple payload.
    TupleVariant(u32, Vec<u8>, Vec<VTreeValue>),
    /// A tagged-union variant with named fields.
    StructVariant(u32, Vec<u8>, Vec<(Vec<u8>, VTreeValue)>),
}

/// What the typed-extraction layer expected to find, carried inside
/// `Error::UnexpectedType` beside the tag actually found.
#[derive(Debug, Clone, Copy, PartialEq, Eq, Structural)]
pub enum Expected {
    Bool,
    I8,
    I16,
    I32,
    I64,
    I128,
    U8,
    U16,
    U32,
    U64,
    U128,
    F32,
    F64,
    Char,
    Bin,
    Opt,
    List,
    Dict,
    /// a record: a `List` or a `Dict`, whichever the writer chose
    Record,
    /// a tagged-union head: a bare `U32`, a `Bin` name, or a `Pair`
    Variant,
    /// an identifier: a `Bin` name or a bare `U32`
    Ident,
    Unit,
}

/// The error taxonomy of the codec. Every failure is terminal for the
/// operation that raised it; no partial result is meaningful.
#[derive(Debug, Clone, Copy, PartialEq, Eq, Structural)]
pub enum Error {
    /// the byte source or the token cursor was exhausted early
    UnexpectedEOF,
    /// an unrecognized type tag byte
    InvalidType(u8),
    /// an integer that is not a valid Unicode scalar value
    InvalidChar(u32),
    /// a `Pair` token requested as a bare value
    NoDeserializeRawPair,
    /// the token found does not match the type requested: actual, expected
    UnexpectedType(VType, Expected),
    /// the stored integer is wider than the requested decoding
    IntCastFail,
    /// a no-payload variant was encoded as a `Pair`
    UnitVariantPair,
    /// data declared newer than the newest known shape: stated, newest known
    VersionInTheFuture(Version, Version),
}

impl Error {
    /// Lift an optional value into a result, with this error for the
    /// absent case.
    pub fn opt<V>(v: Option<V>, e: Error) -> (r: Result<V, Error>)
        ensures
            v matches Some(x) ==> r == Ok::<V, Error>(x),
            v is None ==> r == Err::<V, Error>(e),
    {
        match v {
            Some(x) => Ok(x),
            None => Err(e),
        }
    }
}

} // verus!
