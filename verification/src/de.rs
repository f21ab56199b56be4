//! The token reader and the cursor deserializer.
//!
//! The reader parses raw bytes, with no schema knowledge, into a flat,
//! pre-order sequence of typed tokens: container tokens hold only their
//! cardinality and their children follow them in document order. The
//! cursor wraps that sequence with a movable read position and exposes
//! typed extraction, the visitor-driven protocol a typed-reconstruction
//! layer drives to rebuild arbitrary structures.
use vstd::prelude::*;
use crate::num::{
    be_val, lemma_be_val_bound, lemma_p256_values, lemma_parse_sint_bound, lemma_parse_uint_bound,
    parse_sint, parse_uint, read_be, read_sint, read_uint, IntParse,
};
use crate::types::{spec_tag_of_byte, Error, Expected, VType, VValue};

verus! {

/// The mathematical shadow of a token: what a `VValue` holds, with byte
/// strings as sequences and cardinalities as naturals.
pub ghost enum Tok {
    Null,
    Bool(bool),
    I8(i8),
    I16(i16),
    I32(i32),
    I64(i64),
    I128(i128),
    U8(u8),
    U16(u16),
    U32(u32),
    U64(u64),
    U128(u128),
    F32(u32),
    F64(u64),
    Char(char),
    Bin(Seq<u8>),
    Opt(bool),
    List(nat),
    Dict(nat),
    Pair,
}

/// The abstraction of one in-memory token.
pub open spec fn tok_abs(t: VValue) -> Tok {
    match t {
        VValue::Null => Tok::Null,
        VValue::Bool(b) => Tok::Bool(b),
        VValue::I8(x) => Tok::I8(x),
        VValue::I16(x) => Tok::I16(x),
        VValue::I32(x) => Tok::I32(x),
        VValue::I64(x) => Tok::I64(x),
        VValue::I128(x) => Tok::I128(x),
        VValue::U8(x) => Tok::U8(x),
        VValue::U16(x) => Tok::U16(x),
        VValue::U32(x) => Tok::U32(x),
        VValue::U64(x) => Tok::U64(x),
        VValue::U128(x) => Tok::U128(x),
        VValue::F32(bits) => Tok::F32(bits),
        VValue::F64(bits) => Tok::F64(bits),
        VValue::Char(c) => Tok::Char(c),
        VValue::Bin(b) => Tok::Bin(b@),
        VValue::Opt(p) => Tok::Opt(p),
        VValue::List(n) => Tok::List(n as nat),
        VValue::Dict(n) => Tok::Dict(n as nat),
        VValue::Pair => Tok::Pair,
    }
}

/// The abstraction of a token buffer.
pub open spec fn toks_abs(ts: Seq<VValue>) -> Seq<Tok> {
    ts.map_values(|t: VValue| tok_abs(t))
}

/// The wire type tag a token corresponds to.
pub open spec fn tok_type(t: Tok) -> VType {
    match t {
        Tok::Null => VType::Null,
        Tok::Bool(b) => if b {
            VType::True
        } else {
            VType::False
        },
        Tok::I8(_) => VType::I8,
        Tok::I16(_) => VType::I16,
        Tok::I32(_) => VType::I32,
        Tok::I64(_) => VType::I64,
        Tok::I128(_) => VType::I128,
        Tok::U8(_) => VType::U8,
        Tok::U16(_) => VType::U16,
        Tok::U32(_) => VType::U32,
        Tok::U64(_) => VType::U64,
        Tok::U128(_) => VType::U128,
        Tok::F32(_) => VType::F32,
        Tok::F64(_) => VType::F64,
        Tok::Char(_) => VType::Char,
        Tok::Bin(_) => VType::Bin,
        Tok::Opt(p) => if p {
            VType::OptSome
        } else {
            VType::OptNone
        },
        Tok::List(_) => VType::List,
        Tok::Dict(_) => VType::Dict,
        Tok::Pair => VType::Pair,
    }
}

/// The number of immediate children that follow a token in the flat,
/// pre-order token sequence.
pub open spec fn tok_children(t: Tok) -> nat {
    match t {
        Tok::List(n) => n,
        Tok::Dict(n) => 2 * n,
        Tok::Pair => 2,
        Tok::Opt(p) => if p {
            1nat
        } else {
            0nat
        },
        _ => 0,
    }
}

/// Whether an integer is a valid Unicode scalar value.
pub open spec fn is_unicode_scalar(v: nat) -> bool {
    v < 0xD800 || (0xE000 <= v && v <= 0x10FFFF)
}

/// The outcome of reading one primitive token's payload, after its tag.
pub ghost enum PrimParse {
    Tok { t: Tok, end: int },
    Eof,
    BadChar(u32),
    TooWide,
}

/// Read the payload of one primitive (childless, except that an absent
/// optional is also read here) token whose tag byte, already consumed,
/// named the wire type `t`; `pos` is the position after the tag.
pub open spec fn parse_prim(s: Seq<u8>, pos: int, t: VType) -> PrimParse {
    match t {
        VType::Null => PrimParse::Tok { t: Tok::Null, end: pos },
        VType::False => PrimParse::Tok { t: Tok::Bool(false), end: pos },
        VType::True => PrimParse::Tok { t: Tok::Bool(true), end: pos },
        VType::I8 => match parse_sint(s, pos, 0) {
            IntParse::Val { v, end } => PrimParse::Tok { t: Tok::I8(v as i8), end },
            IntParse::Eof => PrimParse::Eof,
            IntParse::TooWide => PrimParse::TooWide,
        },
        VType::I16 => match parse_sint(s, pos, 1) {
            IntParse::Val { v, end } => PrimParse::Tok { t: Tok::I16(v as i16), end },
            IntParse::Eof => PrimParse::Eof,
            IntParse::TooWide => PrimParse::TooWide,
        },
        VType::I32 => match parse_sint(s, pos, 2) {
            IntParse::Val { v, end } => PrimParse::Tok { t: Tok::I32(v as i32), end },
            IntParse::Eof => PrimParse::Eof,
            IntParse::TooWide => PrimParse::TooWide,
        },
        VType::I64 => match parse_sint(s, pos, 3) {
            IntParse::Val { v, end } => PrimParse::Tok { t: Tok::I64(v as i64), end },
            IntParse::Eof => PrimParse::Eof,
            IntParse::TooWide => PrimParse::TooWide,
        },
        VType::I128 => match parse_sint(s, pos, 4) {
            IntParse::Val { v, end } => PrimParse::Tok { t: Tok::I128(v as i128), end },
            IntParse::Eof => PrimParse::Eof,
            IntParse::TooWide => PrimParse::TooWide,
        },
        VType::U8 => match parse_uint(s, pos, 0) {
            IntParse::Val { v, end } => PrimParse::Tok { t: Tok::U8(v as u8), end },
            IntParse::Eof => PrimParse::Eof,
            IntParse::TooWide => PrimParse::TooWide,
        },
        VType::U16 => match parse_uint(s, pos, 1) {
            IntParse::Val { v, end } => PrimParse::Tok { t: Tok::U16(v as u16), end },
            IntParse::Eof => PrimParse::Eof,
            IntParse::TooWide => PrimParse::TooWide,
        },
        VType::U32 => match parse_uint(s, pos, 2) {
            IntParse::Val { v, end } => PrimParse::Tok { t: Tok::U32(v as u32), end },
            IntParse::Eof => PrimParse::Eof,
            IntParse::TooWide => PrimParse::TooWide,
        },
        VType::U64 => match parse_uint(s, pos, 3) {
            IntParse::Val { v, end } => PrimParse::Tok { t: Tok::U64(v as u64), end },
            IntParse::Eof => PrimParse::Eof,
            IntParse::TooWide => PrimParse::TooWide,
        },
        VType::U128 => match parse_uint(s, pos, 4) {
            IntParse::Val { v, end } => PrimParse::Tok { t: Tok::U128(v as u128), end },
            IntParse::Eof => PrimParse::Eof,
            IntParse::TooWide => PrimParse::TooWide,
        },
        VType::F32 => if pos + 4 <= s.len() {
            PrimParse::Tok { t: Tok::F32(be_val(s.subrange(pos, pos + 4)) as u32), end: pos + 4 }
        } else {
            PrimParse::Eof
        },
        VType::F64 => if pos + 8 <= s.len() {
            PrimParse::Tok { t: Tok::F64(be_val(s.subrange(pos, pos + 8)) as u64), end: pos + 8 }
        } else {
            PrimParse::Eof
        },
        VType::Char => match parse_uint(s, pos, 2) {
            IntParse::Val { v, end } => if is_unicode_scalar(v) {
                PrimParse::Tok { t: Tok::Char((v as u32) as char), end }
            } else {
                PrimParse::BadChar(v as u32)
            },
            IntParse::Eof => PrimParse::Eof,
            IntParse::TooWide => PrimParse::TooWide,
        },
        VType::Bin => match parse_uint(s, pos, 3) {
            IntParse::Val { v, end } => if end + v <= s.len() {
                PrimParse::Tok { t: Tok::Bin(s.subrange(end, end + v)), end: end + v }
            } else {
                PrimParse::Eof
            },
            IntParse::Eof => PrimParse::Eof,
            IntParse::TooWide => PrimParse::TooWide,
        },
        VType::OptNone => PrimParse::Tok { t: Tok::Opt(false), end: pos },
        // the container tags are never read here
        _ => PrimParse::Eof,
    }
}

/// A successfully read primitive payload spans from the tag to its end.
pub proof fn lemma_parse_prim_bound(s: Seq<u8>, pos: int, t: VType)
    requires
        0 <= pos <= s.len(),
    ensures
        parse_prim(s, pos, t) matches PrimParse::Tok { t: tk, end } ==> pos <= end <= s.len(),
{
    lemma_parse_sint_bound(s, pos, 0);
    lemma_parse_sint_bound(s, pos, 1);
    lemma_parse_sint_bound(s, pos, 2);
    lemma_parse_sint_bound(s, pos, 3);
    lemma_parse_sint_bound(s, pos, 4);
    lemma_parse_uint_bound(s, pos, 0);
    lemma_parse_uint_bound(s, pos, 1);
    lemma_parse_uint_bound(s, pos, 2);
    lemma_parse_uint_bound(s, pos, 3);
    lemma_parse_uint_bound(s, pos, 4);
}

/// The outcome of reading a run of whole values: the tokens of the run in
/// document order and the position after them, or the failure met first.
pub ghost enum ValueParse {
    Done { toks: Seq<Tok>, end: int },
    Eof,
    BadTag(u8),
    BadChar(u32),
    TooWide,
}

/// Read `n` whole values starting at `pos`: each is one tag byte, its
/// payload, and, for containers, its children in document order, children
/// counting toward the run. This is the flat, pre-order token stream.
pub open spec fn parse_n(s: Seq<u8>, pos: int, n: nat) -> ValueParse
    decreases s.len() - pos,
        when 0 <= pos
        via parse_n_decreases
{
    if n == 0 {
        ValueParse::Done { toks: Seq::empty(), end: pos }
    } else if pos >= s.len() {
        ValueParse::Eof
    } else {
        match spec_tag_of_byte(s[pos]) {
            Option::None => ValueParse::BadTag(s[pos]),
            Option::Some(t) => match t {
                VType::OptSome => match parse_n(s, pos + 1, n) {
                    ValueParse::Done { toks, end } => ValueParse::Done {
                        toks: seq![Tok::Opt(true)] + toks,
                        end,
                    },
                    e => e,
                },
                VType::Pair => match parse_n(s, pos + 1, (n + 1) as nat) {
                    ValueParse::Done { toks, end } => ValueParse::Done {
                        toks: seq![Tok::Pair] + toks,
                        end,
                    },
                    e => e,
                },
                VType::List => match parse_uint(s, pos + 1, 3) {
                    IntParse::Val { v, end } => if v > usize::MAX {
                        ValueParse::TooWide
                    } else {
                        match parse_n(s, end, (n - 1 + v) as nat) {
                            ValueParse::Done { toks, end: end2 } => ValueParse::Done {
                                toks: seq![Tok::List(v)] + toks,
                                end: end2,
                            },
                            e => e,
                        }
                    },
                    IntParse::Eof => ValueParse::Eof,
                    IntParse::TooWide => ValueParse::TooWide,
                },
                VType::Dict => match parse_uint(s, pos + 1, 3) {
                    IntParse::Val { v, end } => if v > usize::MAX {
                        ValueParse::TooWide
                    } else {
                        match parse_n(s, end, (n - 1 + 2 * v) as nat) {
                            ValueParse::Done { toks, end: end2 } => ValueParse::Done {
                                toks: seq![Tok::Dict(v)] + toks,
                                end: end2,
                            },
                            e => e,
                        }
                    },
                    IntParse::Eof => ValueParse::Eof,
                    IntParse::TooWide => ValueParse::TooWide,
                },
                _ => match parse_prim(s, pos + 1, t) {
                    PrimParse::Tok { t: tk, end } => match parse_n(s, end, (n - 1) as nat) {
                        ValueParse::Done { toks, end: end2 } => ValueParse::Done {
                            toks: seq![tk] + toks,
                            end: end2,
                        },
                        e => e,
                    },
                    PrimParse::Eof => ValueParse::Eof,
                    PrimParse::BadChar(c) => ValueParse::BadChar(c),
                    PrimParse::TooWide => ValueParse::TooWide,
                },
            },
        }
    }
}

#[via_fn]
proof fn parse_n_decreases(s: Seq<u8>, pos: int, n: nat) {
    if n != 0 && 0 <= pos < s.len() {
        lemma_parse_uint_bound(s, pos + 1, 3);
        match spec_tag_of_byte(s[pos]) {
            Option::None => {},
            Option::Some(t) => {
                lemma_parse_prim_bound(s, pos + 1, t);
            },
        }
    }
}

/// Reading one whole value: the token run read as one value.
pub open spec fn parse_value(s: Seq<u8>) -> ValueParse {
    parse_n(s, 0, 1)
}

/// Prefix tokens carried through an ongoing parse.
pub open spec fn glue(prefix: Seq<Tok>, r: ValueParse) -> ValueParse {
    match r {
        ValueParse::Done { toks, end } => ValueParse::Done { toks: prefix + toks, end },
        _ => r,
    }
}

/// Carrying two prefixes one after the other carries their concatenation.
pub proof fn lemma_glue_assoc(a: Seq<Tok>, b: Seq<Tok>, r: ValueParse)
    ensures
        glue(a, glue(b, r)) == glue(a + b, r),
{
    match r {
        ValueParse::Done { toks, end } => {
            assert(a + (b + toks) =~= (a + b) + toks);
        },
        _ => {},
    }
}

/// The outcome of reading a single token: the token and the position
/// after it, or the failure met.
pub ghost enum StepParse {
    Step { t: Tok, end: int },
    Eof,
    BadTag(u8),
    BadChar(u32),
    TooWide,
}

/// Read a single token at `pos`: one tag byte and the token's own payload,
/// not its children.
pub open spec fn parse_step(s: Seq<u8>, pos: int) -> StepParse {
    if !(0 <= pos < s.len()) {
        StepParse::Eof
    } else {
        match spec_tag_of_byte(s[pos]) {
            Option::None => StepParse::BadTag(s[pos]),
            Option::Some(t) => match t {
                VType::OptSome => StepParse::Step { t: Tok::Opt(true), end: pos + 1 },
                VType::Pair => StepParse::Step { t: Tok::Pair, end: pos + 1 },
                VType::List => match parse_uint(s, pos + 1, 3) {
                    IntParse::Val { v, end } => if v > usize::MAX {
                        StepParse::TooWide
                    } else {
                        StepParse::Step { t: Tok::List(v), end }
                    },
                    IntParse::Eof => StepParse::Eof,
                    IntParse::TooWide => StepParse::TooWide,
                },
                VType::Dict => match parse_uint(s, pos + 1, 3) {
                    IntParse::Val { v, end } => if v > usize::MAX {
                        StepParse::TooWide
                    } else {
                        StepParse::Step { t: Tok::Dict(v), end }
                    },
                    IntParse::Eof => StepParse::Eof,
                    IntParse::TooWide => StepParse::TooWide,
                },
                _ => match parse_prim(s, pos + 1, t) {
                    PrimParse::Tok { t: tk, end } => StepParse::Step { t: tk, end },
                    PrimParse::Eof => StepParse::Eof,
                    PrimParse::BadChar(c) => StepParse::BadChar(c),
                    PrimParse::TooWide => StepParse::TooWide,
                },
            },
        }
    }
}

/// A read token spans at least its tag byte and ends inside the input.
pub proof fn lemma_parse_step_bound(s: Seq<u8>, pos: int)
    requires
        0 <= pos,
    ensures
        parse_step(s, pos) matches StepParse::Step { t, end } ==> pos < end <= s.len(),
        parse_step(s, pos) matches StepParse::Step { t, end } ==> ((t is List || t is Dict)
            ==> pos + 2 <= end),
{
    if pos < s.len() {
        lemma_parse_uint_bound(s, pos + 1, 3);
        match spec_tag_of_byte(s[pos]) {
            Option::Some(t) => {
                lemma_parse_prim_bound(s, pos + 1, t);
            },
            Option::None => {},
        }
    }
}

/// Reading a run of tokens is reading one token and then the rest of the
/// run together with the token's children.
pub proof fn lemma_parse_n_step(s: Seq<u8>, pos: int, n: nat)
    requires
        0 <= pos,
        n > 0,
    ensures
        parse_n(s, pos, n) == (match parse_step(s, pos) {
            StepParse::Step { t, end } => glue(
                seq![t],
                parse_n(s, end, (n - 1 + tok_children(t)) as nat),
            ),
            StepParse::Eof => ValueParse::Eof,
            StepParse::BadTag(b) => ValueParse::BadTag(b),
            StepParse::BadChar(c) => ValueParse::BadChar(c),
            StepParse::TooWide => ValueParse::TooWide,
        }),
{
    if pos < s.len() {
        lemma_parse_uint_bound(s, pos + 1, 3);
    }
}

/// Relies on char::from_u32: it returns `Some` exactly on Unicode scalar
/// values (codepoints outside the surrogate range and at most 0x10FFFF),
/// and the returned character has the given scalar value.
#[verifier::external_body]
fn char_from_u32(v: u32) -> (r: Option<char>)
    ensures
        r is Some <==> is_unicode_scalar(v as nat),
        r matches Some(c) ==> c as u32 == v && c == (v as char),
{
    char::from_u32(v)
}

/// Read the payload of one primitive token after its tag byte.
fn read_prim(s: &[u8], pos: usize, t: VType) -> (res: Result<(VValue, usize), Error>)
    requires
        pos <= s@.len(),
    ensures
        match parse_prim(s@, pos as int, t) {
            PrimParse::Tok { t: tk, end } => res matches Ok(p) && tok_abs(p.0) == tk && p.1 == end,
            PrimParse::Eof => res == Err::<(VValue, usize), Error>(Error::UnexpectedEOF),
            PrimParse::BadChar(c) => res == Err::<(VValue, usize), Error>(Error::InvalidChar(c)),
            PrimParse::TooWide => res == Err::<(VValue, usize), Error>(Error::IntCastFail),
        },
{
    proof {
        lemma_p256_values();
    }
    match t {
        VType::Null => Ok((VValue::Null, pos)),
        VType::False => Ok((VValue::Bool(false), pos)),
        VType::True => Ok((VValue::Bool(true), pos)),
        VType::I8 => match read_sint(s, pos, 0) {
            Ok((v, end)) => {
                proof {
                    lemma_parse_sint_bound(s@, pos as int, 0);
                }
                Ok((VValue::I8(v as i8), end))
            },
            Err(e) => Err(e),
        },
        VType::I16 => match read_sint(s, pos, 1) {
            Ok((v, end)) => {
                proof {
                    lemma_parse_sint_bound(s@, pos as int, 1);
                }
                Ok((VValue::I16(v as i16), end))
            },
            Err(e) => Err(e),
        },
        VType::I32 => match read_sint(s, pos, 2) {
            Ok((v, end)) => {
                proof {
                    lemma_parse_sint_bound(s@, pos as int, 2);
                }
                Ok((VValue::I32(v as i32), end))
            },
            Err(e) => Err(e),
        },
        VType::I64 => match read_sint(s, pos, 3) {
            Ok((v, end)) => {
                proof {
                    lemma_parse_sint_bound(s@, pos as int, 3);
                }
                Ok((VValue::I64(v as i64), end))
            },
            Err(e) => Err(e),
        },
        VType::I128 => match read_sint(s, pos, 4) {
            Ok((v, end)) => Ok((VValue::I128(v), end)),
            Err(e) => Err(e),
        },
        VType::U8 => match read_uint(s, pos, 0) {
            Ok((v, end)) => {
                proof {
                    lemma_parse_uint_bound(s@, pos as int, 0);
                }
                Ok((VValue::U8(v as u8), end))
            },
            Err(e) => Err(e),
        },
        VType::U16 => match read_uint(s, pos, 1) {
            Ok((v, end)) => {
                proof {
                    lemma_parse_uint_bound(s@, pos as int, 1);
                }
                Ok((VValue::U16(v as u16), end))
            },
            Err(e) => Err(e),
        },
        VType::U32 => match read_uint(s, pos, 2) {
            Ok((v, end)) => {
                proof {
                    lemma_parse_uint_bound(s@, pos as int, 2);
                }
                Ok((VValue::U32(v as u32), end))
            },
            Err(e) => Err(e),
        },
        VType::U64 => match read_uint(s, pos, 3) {
            Ok((v, end)) => {
                proof {
                    lemma_parse_uint_bound(s@, pos as int, 3);
                }
                Ok((VValue::U64(v as u64), end))
            },
            Err(e) => Err(e),
        },
        VType::U128 => match read_uint(s, pos, 4) {
            Ok((v, end)) => Ok((VValue::U128(v), end)),
            Err(e) => Err(e),
        },
        VType::F32 => match read_be(s, pos, 4) {
            Ok((v, end)) => {
                proof {
                    lemma_be_val_bound(s@.subrange(pos as int, pos + 4));
                }
                Ok((VValue::F32(v as u32), end))
            },
            Err(e) => Err(e),
        },
        VType::F64 => match read_be(s, pos, 8) {
            Ok((v, end)) => {
                proof {
                    lemma_be_val_bound(s@.subrange(pos as int, pos + 8));
                }
                Ok((VValue::F64(v as u64), end))
            },
            Err(e) => Err(e),
        },
        VType::Char => match read_uint(s, pos, 2) {
            Ok((v, end)) => {
                proof {
                    lemma_parse_uint_bound(s@, pos as int, 2);
                }
                let vv = v as u32;
                match char_from_u32(vv) {
                    Some(c) => {
                        assert(c == (vv as char));
                        Ok((VValue::Char(c), end))
                    },
                    None => Err(Error::InvalidChar(vv)),
                }
            },
            Err(e) => Err(e),
        },
        VType::Bin => match read_uint(s, pos, 3) {
            Ok((m, end)) => {
                proof {
                    lemma_parse_uint_bound(s@, pos as int, 3);
                }
                if m > (s.len() - end) as u128 {
                    Err(Error::UnexpectedEOF)
                } else {
                    let mlen = m as usize;
                    let sub = vstd::slice::slice_subrange(s, end, end + mlen);
                    Ok((VValue::Bin(vstd::slice::slice_to_vec(sub)), end + mlen))
                }
            },
            Err(e) => Err(e),
        },
        VType::OptNone => Ok((VValue::Opt(false), pos)),
        _ => Err(Error::UnexpectedEOF),
    }
}

/// The flat token sequence of one decoded value, with a movable read
/// position: the cursor the typed-extraction layer drives.
#[derive(Debug, Clone, PartialEq, Eq)]
pub struct HorseTree {
    /// the decoded tokens, a pre-order walk of the value
    pub toks: Vec<VValue>,
    /// the read position
    pub pos: usize,
}

/// The error reported for a failed parse outcome.
pub open spec fn parse_error(r: ValueParse) -> Error {
    match r {
        ValueParse::Eof => Error::UnexpectedEOF,
        ValueParse::BadTag(b) => Error::InvalidType(b),
        ValueParse::BadChar(c) => Error::InvalidChar(c),
        ValueParse::TooWide => Error::IntCastFail,
        ValueParse::Done { toks, end } => Error::UnexpectedEOF,
    }
}

/// Read a single token at `pos`: the tag byte and the token's payload.
fn read_token(s: &[u8], pos: usize) -> (res: Result<(VValue, usize), Error>)
    ensures
        match parse_step(s@, pos as int) {
            StepParse::Step { t: tk, end } => res matches Ok(p) && tok_abs(p.0) == tk && p.1
                == end,
            StepParse::Eof => res == Err::<(VValue, usize), Error>(Error::UnexpectedEOF),
            StepParse::BadTag(b) => res == Err::<(VValue, usize), Error>(Error::InvalidType(b)),
            StepParse::BadChar(c) => res == Err::<(VValue, usize), Error>(Error::InvalidChar(c)),
            StepParse::TooWide => res == Err::<(VValue, usize), Error>(Error::IntCastFail),
        },
{
    if pos >= s.len() {
        return Err(Error::UnexpectedEOF);
    }
    let b = s[pos];
    let tag = match VType::of_byte(b) {
        None => {
            return Err(Error::InvalidType(b));
        },
        Some(t) => t,
    };
    match tag {
        VType::OptSome => Ok((VValue::Opt(true), pos + 1)),
        VType::Pair => Ok((VValue::Pair, pos + 1)),
        VType::List => match read_uint(s, pos + 1, 3) {
            Ok((cnt, end)) => if cnt > usize::MAX as u128 {
                Err(Error::IntCastFail)
            } else {
                Ok((VValue::List(cnt as usize), end))
            },
            Err(e) => Err(e),
        },
        VType::Dict => match read_uint(s, pos + 1, 3) {
            Ok((cnt, end)) => if cnt > usize::MAX as u128 {
                Err(Error::IntCastFail)
            } else {
                Ok((VValue::Dict(cnt as usize), end))
            },
            Err(e) => Err(e),
        },
        _ => read_prim(s, pos + 1, tag),
    }
}

/// The number of immediate children following a token, as a count.
fn children_of(t: &VValue) -> (c: u128)
    ensures
        c as nat == tok_children(tok_abs(*t)),
        c <= 2 * (usize::MAX as u128),
{
    match t {
        VValue::List(n) => *n as u128,
        VValue::Dict(n) => 2 * (*n as u128),
        VValue::Pair => 2,
        VValue::Opt(p) => if *p {
            1
        } else {
            0
        },
        _ => 0,
    }
}

/// Parse one whole value from raw bytes into a cursor over its flat token
/// sequence, positioned at the start. Trailing bytes after the value are
/// not read. Truncated input fails with `Error::UnexpectedEOF`, an
/// unrecognized tag byte with `Error::InvalidType`; an invalid character
/// codepoint and an integer stored wider than its tag are reported as the
/// numeric layer does.
#[verifier::loop_isolation(false)]
pub fn from_bytes(s: &[u8]) -> (r: Result<HorseTree, Error>)
    ensures
        parse_value(s@) matches ValueParse::Done { toks, end } ==> r matches Ok(t)
            && toks_abs(t.toks@) == toks && t.pos == 0,
        !(parse_value(s@) is Done) ==> r == Err::<HorseTree, Error>(parse_error(parse_value(s@))),
{
    let ghost m: nat = usize::MAX as nat;
    let mut out: Vec<VValue> = Vec::new();
    let mut pos: usize = 0;
    let mut pending: u128 = 1;
    proof {
        assert(toks_abs(out@) =~= Seq::<Tok>::empty());
        assert(glue(toks_abs(out@), parse_n(s@, 0, 1)) == parse_n(s@, 0, 1));
    }
    while pending > 0
        invariant
            pos <= s@.len(),
            pending as nat <= 1 + (pos as nat) * m,
            glue(toks_abs(out@), parse_n(s@, pos as int, pending as nat)) == parse_value(s@),
        decreases s@.len() - pos,
    {
        let ghost prev_out = out@;
        let ghost prev_pos = pos as int;
        let ghost prev_pending = pending as nat;
        proof {
            lemma_parse_n_step(s@, pos as int, pending as nat);
            lemma_parse_step_bound(s@, pos as int);
        }
        let (tk, end) = match read_token(s, pos) {
            Ok(p) => p,
            Err(e) => {
                return Err(e);
            },
        };
        let c = children_of(&tk);
        proof {
            assert((pos as nat) * m + 2 * m <= m * m + 2 * m) by (nonlinear_arith)
                requires
                    pos as nat <= m,
                    m >= 0,
            ;
            assert(m * m + 2 * m == (m + 1) * (m + 1) - 1) by (nonlinear_arith);
            assert((m + 1) * (m + 1) <= 0x10000000000000000 * 0x10000000000000000)
                by (nonlinear_arith)
                requires
                    m + 1 <= 0x10000000000000000,
            ;
        }
        let ghost tka = tok_abs(tk);
        out.push(tk);
        pos = end;
        pending = pending - 1 + c;
        proof {
            assert(toks_abs(out@) =~= toks_abs(prev_out) + seq![tka]);
            lemma_glue_assoc(toks_abs(prev_out), seq![tka], parse_n(s@, pos as int, pending as nat));
            // the new position is past the count byte of any container, so
            // the pending bound keeps pace with the growth of the count
            let ghost ch = tok_children(tka);
            assert(prev_pending - 1 + ch == pending as nat);
            assert(pending as nat <= 1 + (pos as nat) * m) by (nonlinear_arith)
                requires
                    pending as nat == prev_pending - 1 + ch,
                    prev_pending >= 1,
                    ch <= 2 * m,
                    prev_pending <= 1 + (prev_pos as nat) * m,
                    (prev_pos + 2 <= pos as nat) || (ch <= 2),
                    prev_pos + 1 <= pos as nat,
                    pos as nat <= m,
                    0 <= prev_pos,
                    m >= 2,
            ;
        }
    }
    proof {
        assert(glue(toks_abs(out@), parse_n(s@, pos as int, 0)) == parse_value(s@));
        assert(toks_abs(out@) + Seq::<Tok>::empty() =~= toks_abs(out@));
    }
    Ok(HorseTree { toks: out, pos: 0 })
}

/// Skip `n` whole token subtrees starting at `pos`: the position after
/// them, or nothing if the buffer ends first. Container cardinalities make
/// this possible without interpreting any token.
pub open spec fn tok_skip_n(toks: Seq<Tok>, pos: int, n: nat) -> Option<int>
    decreases toks.len() - pos,
        when 0 <= pos
{
    if n == 0 {
        Option::Some(pos)
    } else if pos >= toks.len() {
        Option::None
    } else {
        tok_skip_n(toks, pos + 1, (n - 1 + tok_children(toks[pos])) as nat)
    }
}

/// Skip one whole token subtree.
pub open spec fn tok_skip(toks: Seq<Tok>, pos: int) -> Option<int> {
    tok_skip_n(toks, pos, 1)
}

/// More subtrees than tokens cannot be skipped: each subtree takes at
/// least one token.
pub proof fn lemma_tok_skip_eof(toks: Seq<Tok>, pos: int, n: nat)
    requires
        0 <= pos,
        n >= 1,
        n > toks.len() - pos,
    ensures
        tok_skip_n(toks, pos, n) is None,
    decreases toks.len() - pos,
{
    if n != 0 && pos < toks.len() {
        lemma_tok_skip_eof(toks, pos + 1, (n - 1 + tok_children(toks[pos])) as nat);
    }
}

/// A successful skip lands between its start and the end of the buffer.
pub proof fn lemma_tok_skip_bound(toks: Seq<Tok>, pos: int, n: nat)
    requires
        0 <= pos <= toks.len(),
    ensures
        tok_skip_n(toks, pos, n) matches Some(end) ==> pos <= end <= toks.len(),
        n > 0 ==> (tok_skip_n(toks, pos, n) matches Some(end) ==> pos < end),
    decreases toks.len() - pos,
{
    if n != 0 && pos < toks.len() {
        lemma_tok_skip_bound(toks, pos + 1, (n - 1 + tok_children(toks[pos])) as nat);
    }
}

/// The head of a tagged union as found on the wire: a bare index, a bare
/// name, or the marker of a variant that carries a payload.
#[derive(Debug, Clone, PartialEq, Eq)]
pub enum VariantHead {
    /// a no-payload variant named by its ordinal index
    Index(u32),
    /// a no-payload variant named by its name bytes
    Name(Vec<u8>),
    /// a variant with a payload: its discriminant follows, then the payload
    WithPayload,
}

impl HorseTree {
    /// The mathematical view of the token buffer.
    pub open spec fn tokens(&self) -> Seq<Tok> {
        toks_abs(self.toks@)
    }

    /// The read position.
    pub open spec fn at(&self) -> int {
        self.pos as int
    }

    /// Inspect the token at the cursor without consuming it.
    pub fn peek(&self) -> (r: Result<&VValue, Error>)
        ensures
            self.at() < self.tokens().len() ==> (r matches Ok(t) && *t == self.toks@[self.at()]),
            self.at() >= self.tokens().len() ==> r == Err::<&VValue, Error>(Error::UnexpectedEOF),
    {
        if self.pos < self.toks.len() {
            Ok(&self.toks[self.pos])
        } else {
            Err(Error::UnexpectedEOF)
        }
    }

    /// The wire type of the token at the cursor, for dispatching on a
    /// value of unknown shape. A pair is never legal as a bare value, so
    /// finding one here is an error of its own.
    pub fn any_type(&self) -> (r: Result<VType, Error>)
        ensures
            self.at() >= self.tokens().len() ==> r == Err::<VType, Error>(Error::UnexpectedEOF),
            self.at() < self.tokens().len() ==> (match self.tokens()[self.at()] {
                Tok::Pair => r == Err::<VType, Error>(Error::NoDeserializeRawPair),
                t => r == Ok::<VType, Error>(tok_type(t)),
            }),
    {
        if self.pos >= self.toks.len() {
            return Err(Error::UnexpectedEOF);
        }
        match &self.toks[self.pos] {
            VValue::Pair => Err(Error::NoDeserializeRawPair),
            t => Ok(t.as_type()),
        }
    }

    /// Consume a unit value.
    pub fn next_unit(&mut self) -> (r: Result<(), Error>)
        ensures
            final(self).toks == old(self).toks,
            old(self).at() >= old(self).tokens().len() ==> r == Err::<(), Error>(
                Error::UnexpectedEOF,
            ) && final(self).pos == old(self).pos,
            old(self).at() < old(self).tokens().len() ==> (match old(self).tokens()[old(self).at()] {
                Tok::Null => r == Ok::<(), Error>(()) && final(self).at() == old(self).at() + 1,
                t => r == Err::<(), Error>(Error::UnexpectedType(tok_type(t), Expected::Unit))
                    && final(self).pos == old(self).pos,
            }),
    {
        if self.pos >= self.toks.len() {
            return Err(Error::UnexpectedEOF);
        }
        match &self.toks[self.pos] {
            VValue::Null => {
                self.pos = self.pos + 1;
                Ok(())
            },
            t => Err(Error::UnexpectedType(t.as_type(), Expected::Unit)),
        }
    }

    /// Consume a boolean.
    pub fn next_bool(&mut self) -> (r: Result<bool, Error>)
        ensures
            final(self).toks == old(self).toks,
            old(self).at() >= old(self).tokens().len() ==> r == Err::<bool, Error>(
                Error::UnexpectedEOF,
            ) && final(self).pos == old(self).pos,
            old(self).at() < old(self).tokens().len() ==> (match old(self).tokens()[old(self).at()] {
                Tok::Bool(b) => r == Ok::<bool, Error>(b) && final(self).at() == old(self).at()
                    + 1,
                t => r == Err::<bool, Error>(Error::UnexpectedType(tok_type(t), Expected::Bool))
                    && final(self).pos == old(self).pos,
            }),
    {
        if self.pos >= self.toks.len() {
            return Err(Error::UnexpectedEOF);
        }
        match &self.toks[self.pos] {
            VValue::Bool(b) => {
                let out = *b;
                self.pos = self.pos + 1;
                Ok(out)
            },
            t => Err(Error::UnexpectedType(t.as_type(), Expected::Bool)),
        }
    }


    /// Consume a `signed 8-bit integer` token, yielding its value.
    pub fn next_i8(&mut self) -> (r: Result<i8, Error>)
        ensures
            final(self).toks == old(self).toks,
            old(self).at() >= old(self).tokens().len() ==> r == Err::<i8, Error>(
                Error::UnexpectedEOF,
            ) && final(self).pos == old(self).pos,
            old(self).at() < old(self).tokens().len() ==> (match old(self).tokens()[old(self).at()] {
                Tok::I8(x) => r == Ok::<i8, Error>(x) && final(self).at() == old(self).at()
                    + 1,
                t => r == Err::<i8, Error>(Error::UnexpectedType(tok_type(t), Expected::I8))
                    && final(self).pos == old(self).pos,
            }),
    {
        if self.pos >= self.toks.len() {
            return Err(Error::UnexpectedEOF);
        }
        match &self.toks[self.pos] {
            VValue::I8(x) => {
                let out = *x;
                self.pos = self.pos + 1;
                Ok(out)
            },
            t => Err(Error::UnexpectedType(t.as_type(), Expected::I8)),
        }
    }

    /// Consume a `signed 16-bit integer` token, yielding its value.
    pub fn next_i16(&mut self) -> (r: Result<i16, Error>)
        ensures
            final(self).toks == old(self).toks,
            old(self).at() >= old(self).tokens().len() ==> r == Err::<i16, Error>(
                Error::UnexpectedEOF,
            ) && final(self).pos == old(self).pos,
            old(self).at() < old(self).tokens().len() ==> (match old(self).tokens()[old(self).at()] {
                Tok::I16(x) => r == Ok::<i16, Error>(x) && final(self).at() == old(self).at()
                    + 1,
                t => r == Err::<i16, Error>(Error::UnexpectedType(tok_type(t), Expected::I16))
                    && final(self).pos == old(self).pos,
            }),
    {
        if self.pos >= self.toks.len() {
            return Err(Error::UnexpectedEOF);
        }
        match &self.toks[self.pos] {
            VValue::I16(x) => {
                let out = *x;
                self.pos = self.pos + 1;
                Ok(out)
            },
            t => Err(Error::UnexpectedType(t.as_type(), Expected::I16)),
        }
    }

    /// Consume a `signed 32-bit integer` token, yielding its value.
    pub fn next_i32(&mut self) -> (r: Result<i32, Error>)
        ensures
            final(self).toks == old(self).toks,
            old(self).at() >= old(self).tokens().len() ==> r == Err::<i32, Error>(
                Error::UnexpectedEOF,
            ) && final(self).pos == old(self).pos,
            old(self).at() < old(self).tokens().len() ==> (match old(self).tokens()[old(self).at()] {
                Tok::I32(x) => r == Ok::<i32, Error>(x) && final(self).at() == old(self).at()
                    + 1,
                t => r == Err::<i32, Error>(Error::UnexpectedType(tok_type(t), Expected::I32))
                    && final(self).pos == old(self).pos,
            }),
    {
        if self.pos >= self.toks.len() {
            return Err(Error::UnexpectedEOF);
        }
        match &self.toks[self.pos] {
            VValue::I32(x) => {
                let out = *x;
                self.pos = self.pos + 1;
                Ok(out)
            },
            t => Err(Error::UnexpectedType(t.as_type(), Expected::I32)),
        }
    }

    /// Consume a `signed 64-bit integer` token, yielding its value.
    pub fn next_i64(&mut self) -> (r: Result<i64, Error>)
        ensures
            final(self).toks == old(self).toks,
            old(self).at() >= old(self).tokens().len() ==> r == Err::<i64, Error>(
                Error::UnexpectedEOF,
            ) && final(self).pos == old(self).pos,
            old(self).at() < old(self).tokens().len() ==> (match old(self).tokens()[old(self).at()] {
                Tok::I64(x) => r == Ok::<i64, Error>(x) && final(self).at() == old(self).at()
                    + 1,
                t => r == Err::<i64, Error>(Error::UnexpectedType(tok_type(t), Expected::I64))
                    && final(self).pos == old(self).pos,
            }),
    {
        if self.pos >= self.toks.len() {
            return Err(Error::UnexpectedEOF);
        }
        match &self.toks[self.pos] {
            VValue::I64(x) => {
                let out = *x;
                self.pos = self.pos + 1;
                Ok(out)
            },
            t => Err(Error::UnexpectedType(t.as_type(), Expected::I64)),
        }
    }

    /// Consume a `signed 128-bit integer` token, yielding its value.
    pub fn next_i128(&mut self) -> (r: Result<i128, Error>)
        ensures
            final(self).toks == old(self).toks,
            old(self).at() >= old(self).tokens().len() ==> r == Err::<i128, Error>(
                Error::UnexpectedEOF,
            ) && final(self).pos == old(self).pos,
            old(self).at() < old(self).tokens().len() ==> (match old(self).tokens()[old(self).at()] {
                Tok::I128(x) => r == Ok::<i128, Error>(x) && final(self).at() == old(self).at()
                    + 1,
                t => r == Err::<i128, Error>(Error::UnexpectedType(tok_type(t), Expected::I128))
                    && final(self).pos == old(self).pos,
            }),
    {
        if self.pos >= self.toks.len() {
            return Err(Error::UnexpectedEOF);
        }
        match &self.toks[self.pos] {
            VValue::I128(x) => {
                let out = *x;
                self.pos = self.pos + 1;
                Ok(out)
            },
            t => Err(Error::UnexpectedType(t.as_type(), Expected::I128)),
        }
    }

    /// Consume a `unsigned 8-bit integer` token, yielding its value.
    pub fn next_u8(&mut self) -> (r: Result<u8, Error>)
        ensures
            final(self).toks == old(self).toks,
            old(self).at() >= old(self).tokens().len() ==> r == Err::<u8, Error>(
                Error::UnexpectedEOF,
            ) && final(self).pos == old(self).pos,
            old(self).at() < old(self).tokens().len() ==> (match old(self).tokens()[old(self).at()] {
                Tok::U8(x) => r == Ok::<u8, Error>(x) && final(self).at() == old(self).at()
                    + 1,
                t => r == Err::<u8, Error>(Error::UnexpectedType(tok_type(t), Expected::U8))
                    && final(self).pos == old(self).pos,
            }),
    {
        if self.pos >= self.toks.len() {
            return Err(Error::UnexpectedEOF);
        }
        match &self.toks[self.pos] {
            VValue::U8(x) => {
                let out = *x;
                self.pos = self.pos + 1;
                Ok(out)
            },
            t => Err(Error::UnexpectedType(t.as_type(), Expected::U8)),
        }
    }

    /// Consume a `unsigned 16-bit integer` token, yielding its value.
    pub fn next_u16(&mut self) -> (r: Result<u16, Error>)
        ensures
            final(self).toks == old(self).toks,
            old(self).at() >= old(self).tokens().len() ==> r == Err::<u16, Error>(
                Error::UnexpectedEOF,
            ) && final(self).pos == old(self).pos,
            old(self).at() < old(self).tokens().len() ==> (match old(self).tokens()[old(self).at()] {
                Tok::U16(x) => r == Ok::<u16, Error>(x) && final(self).at() == old(self).at()
                    + 1,
                t => r == Err::<u16, Error>(Error::UnexpectedType(tok_type(t), Expected::U16))
                    && final(self).pos == old(self).pos,
            }),
    {
        if self.pos >= self.toks.len() {
            return Err(Error::UnexpectedEOF);
        }
        match &self.toks[self.pos] {
            VValue::U16(x) => {
                let out = *x;
                self.pos = self.pos + 1;
                Ok(out)
            },
            t => Err(Error::UnexpectedType(t.as_type(), Expected::U16)),
        }
    }

    /// Consume a `unsigned 32-bit integer` token, yielding its value.
    pub fn next_u32(&mut self) -> (r: Result<u32, Error>)
        ensures
            final(self).toks == old(self).toks,
            old(self).at() >= old(self).tokens().len() ==> r == Err::<u32, Error>(
                Error::UnexpectedEOF,
            ) && final(self).pos == old(self).pos,
            old(self).at() < old(self).tokens().len() ==> (match old(self).tokens()[old(self).at()] {
                Tok::U32(x) => r == Ok::<u32, Error>(x) && final(self).at() == old(self).at()
                    + 1,
                t => r == Err::<u32, Error>(Error::UnexpectedType(tok_type(t), Expected::U32))
                    && final(self).pos == old(self).pos,
            }),
    {
        if self.pos >= self.toks.len() {
            return Err(Error::UnexpectedEOF);
        }
        match &self.toks[self.pos] {
            VValue::U32(x) => {
                let out = *x;
                self.pos = self.pos + 1;
                Ok(out)
            },
            t => Err(Error::UnexpectedType(t.as_type(), Expected::U32)),
        }
    }

    /// Consume a `unsigned 64-bit integer` token, yielding its value.
    pub fn next_u64(&mut self) -> (r: Result<u64, Error>)
        ensures
            final(self).toks == old(self).toks,
            old(self).at() >= old(self).tokens().len() ==> r == Err::<u64, Error>(
                Error::UnexpectedEOF,
            ) && final(self).pos == old(self).pos,
            old(self).at() < old(self).tokens().len() ==> (match old(self).tokens()[old(self).at()] {
                Tok::U64(x) => r == Ok::<u64, Error>(x) && final(self).at() == old(self).at()
                    + 1,
                t => r == Err::<u64, Error>(Error::UnexpectedType(tok_type(t), Expected::U64))
                    && final(self).pos == old(self).pos,
            }),
    {
        if self.pos >= self.toks.len() {
            return Err(Error::UnexpectedEOF);
        }
        match &self.toks[self.pos] {
            VValue::U64(x) => {
                let out = *x;
                self.pos = self.pos + 1;
                Ok(out)
            },
            t => Err(Error::UnexpectedType(t.as_type(), Expected::U64)),
        }
    }

    /// Consume a `unsigned 128-bit integer` token, yielding its value.
    pub fn next_u128(&mut self) -> (r: Result<u128, Error>)
        ensures
            final(self).toks == old(self).toks,
            old(self).at() >= old(self).tokens().len() ==> r == Err::<u128, Error>(
                Error::UnexpectedEOF,
            ) && final(self).pos == old(self).pos,
            old(self).at() < old(self).tokens().len() ==> (match old(self).tokens()[old(self).at()] {
                Tok::U128(x) => r == Ok::<u128, Error>(x) && final(self).at() == old(self).at()
                    + 1,
                t => r == Err::<u128, Error>(Error::UnexpectedType(tok_type(t), Expected::U128))
                    && final(self).pos == old(self).pos,
            }),
    {
        if self.pos >= self.toks.len() {
            return Err(Error::UnexpectedEOF);
        }
        match &self.toks[self.pos] {
            VValue::U128(x) => {
                let out = *x;
                self.pos = self.pos + 1;
                Ok(out)
            },
            t => Err(Error::UnexpectedType(t.as_type(), Expected::U128)),
        }
    }

    /// Consume a `32-bit float` token, yielding its value as its bit pattern.
    pub fn next_f32_bits(&mut self) -> (r: Result<u32, Error>)
        ensures
            final(self).toks == old(self).toks,
            old(self).at() >= old(self).tokens().len() ==> r == Err::<u32, Error>(
                Error::UnexpectedEOF,
            ) && final(self).pos == old(self).pos,
            old(self).at() < old(self).tokens().len() ==> (match old(self).tokens()[old(self).at()] {
                Tok::F32(x) => r == Ok::<u32, Error>(x) && final(self).at() == old(self).at()
                    + 1,
                t => r == Err::<u32, Error>(Error::UnexpectedType(tok_type(t), Expected::F32))
                    && final(self).pos == old(self).pos,
            }),
    {
        if self.pos >= self.toks.len() {
            return Err(Error::UnexpectedEOF);
        }
        match &self.toks[self.pos] {
            VValue::F32(x) => {
                let out = *x;
                self.pos = self.pos + 1;
                Ok(out)
            },
            t => Err(Error::UnexpectedType(t.as_type(), Expected::F32)),
        }
    }

    /// Consume a `64-bit float` token, yielding its value as its bit pattern.
    pub fn next_f64_bits(&mut self) -> (r: Result<u64, Error>)
        ensures
            final(self).toks == old(self).toks,
            old(self).at() >= old(self).tokens().len() ==> r == Err::<u64, Error>(
                Error::UnexpectedEOF,
            ) && final(self).pos == old(self).pos,
            old(self).at() < old(self).tokens().len() ==> (match old(self).tokens()[old(self).at()] {
                Tok::F64(x) => r == Ok::<u64, Error>(x) && final(self).at() == old(self).at()
                    + 1,
                t => r == Err::<u64, Error>(Error::UnexpectedType(tok_type(t), Expected::F64))
                    && final(self).pos == old(self).pos,
            }),
    {
        if self.pos >= self.toks.len() {
            return Err(Error::UnexpectedEOF);
        }
        match &self.toks[self.pos] {
            VValue::F64(x) => {
                let out = *x;
                self.pos = self.pos + 1;
                Ok(out)
            },
            t => Err(Error::UnexpectedType(t.as_type(), Expected::F64)),
        }
    }

    /// Consume a `character` token, yielding its value.
    pub fn next_char(&mut self) -> (r: Result<char, Error>)
        ensures
            final(self).toks == old(self).toks,
            old(self).at() >= old(self).tokens().len() ==> r == Err::<char, Error>(
                Error::UnexpectedEOF,
            ) && final(self).pos == old(self).pos,
            old(self).at() < old(self).tokens().len() ==> (match old(self).tokens()[old(self).at()] {
                Tok::Char(x) => r == Ok::<char, Error>(x) && final(self).at() == old(self).at()
                    + 1,
                t => r == Err::<char, Error>(Error::UnexpectedType(tok_type(t), Expected::Char))
                    && final(self).pos == old(self).pos,
            }),
    {
        if self.pos >= self.toks.len() {
            return Err(Error::UnexpectedEOF);
        }
        match &self.toks[self.pos] {
            VValue::Char(x) => {
                let out = *x;
                self.pos = self.pos + 1;
                Ok(out)
            },
            t => Err(Error::UnexpectedType(t.as_type(), Expected::Char)),
        }
    }

    /// Consume a present-or-absent optional marker; a present marker is
    /// followed by its payload value.
    pub fn next_opt(&mut self) -> (r: Result<bool, Error>)
        ensures
            final(self).toks == old(self).toks,
            old(self).at() >= old(self).tokens().len() ==> r == Err::<bool, Error>(
                Error::UnexpectedEOF,
            ) && final(self).pos == old(self).pos,
            old(self).at() < old(self).tokens().len() ==> (match old(self).tokens()[old(self).at()] {
                Tok::Opt(p) => r == Ok::<bool, Error>(p) && final(self).at() == old(self).at() + 1,
                t => r == Err::<bool, Error>(Error::UnexpectedType(tok_type(t), Expected::Opt))
                    && final(self).pos == old(self).pos,
            }),
    {
        if self.pos >= self.toks.len() {
            return Err(Error::UnexpectedEOF);
        }
        match &self.toks[self.pos] {
            VValue::Opt(p) => {
                let out = *p;
                self.pos = self.pos + 1;
                Ok(out)
            },
            t => Err(Error::UnexpectedType(t.as_type(), Expected::Opt)),
        }
    }

    /// Consume a list header, yielding the element count; that many
    /// elements follow.
    pub fn begin_list(&mut self) -> (r: Result<usize, Error>)
        ensures
            final(self).toks == old(self).toks,
            old(self).at() >= old(self).tokens().len() ==> r == Err::<usize, Error>(
                Error::UnexpectedEOF,
            ) && final(self).pos == old(self).pos,
            old(self).at() < old(self).tokens().len() ==> (match old(self).tokens()[old(self).at()] {
                Tok::List(n) => r == Ok::<usize, Error>(n as usize) && final(self).at() == old(self).at() + 1,
                t => r == Err::<usize, Error>(Error::UnexpectedType(tok_type(t), Expected::List))
                    && final(self).pos == old(self).pos,
            }),
    {
        if self.pos >= self.toks.len() {
            return Err(Error::UnexpectedEOF);
        }
        match &self.toks[self.pos] {
            VValue::List(n) => {
                let out = *n;
                self.pos = self.pos + 1;
                Ok(out)
            },
            t => Err(Error::UnexpectedType(t.as_type(), Expected::List)),
        }
    }

    /// Consume a map header, yielding the pair count; that many keys and
    /// values follow, alternating.
    pub fn begin_dict(&mut self) -> (r: Result<usize, Error>)
        ensures
            final(self).toks == old(self).toks,
            old(self).at() >= old(self).tokens().len() ==> r == Err::<usize, Error>(
                Error::UnexpectedEOF,
            ) && final(self).pos == old(self).pos,
            old(self).at() < old(self).tokens().len() ==> (match old(self).tokens()[old(self).at()] {
                Tok::Dict(n) => r == Ok::<usize, Error>(n as usize) && final(self).at() == old(self).at() + 1,
                t => r == Err::<usize, Error>(Error::UnexpectedType(tok_type(t), Expected::Dict))
                    && final(self).pos == old(self).pos,
            }),
    {
        if self.pos >= self.toks.len() {
            return Err(Error::UnexpectedEOF);
        }
        match &self.toks[self.pos] {
            VValue::Dict(n) => {
                let out = *n;
                self.pos = self.pos + 1;
                Ok(out)
            },
            t => Err(Error::UnexpectedType(t.as_type(), Expected::Dict)),
        }
    }

    /// Consume a record header. A record may have been written as a list
    /// (compact) or as a dictionary keyed by field names (expressive);
    /// either is accepted, whatever the writer chose, since the stream
    /// does not record the style. Yields the field count and whether the
    /// names are present (`true` for the dictionary form).
    pub fn begin_struct(&mut self) -> (r: Result<(usize, bool), Error>)
        ensures
            final(self).toks == old(self).toks,
            old(self).at() >= old(self).tokens().len() ==> r == Err::<(usize, bool), Error>(
                Error::UnexpectedEOF,
            ) && final(self).pos == old(self).pos,
            old(self).at() < old(self).tokens().len() ==> (match old(self).tokens()[old(self).at()] {
                Tok::List(n) => r == Ok::<(usize, bool), Error>((n as usize, false)) && final(self).at() == old(self).at() + 1,
                Tok::Dict(n) => r == Ok::<(usize, bool), Error>((n as usize, true)) && final(self).at() == old(self).at() + 1,
                t => r == Err::<(usize, bool), Error>(
                    Error::UnexpectedType(tok_type(t), Expected::Record),
                ) && final(self).pos == old(self).pos,
            }),
    {
        if self.pos >= self.toks.len() {
            return Err(Error::UnexpectedEOF);
        }
        match &self.toks[self.pos] {
            VValue::List(n) => {
                let out = *n;
                self.pos = self.pos + 1;
                Ok((out, false))
            },
            VValue::Dict(n) => {
                let out = *n;
                self.pos = self.pos + 1;
                Ok((out, true))
            },
            t => Err(Error::UnexpectedType(t.as_type(), Expected::Record)),
        }
    }

    /// Consume the head of a tagged union: a bare index or name yields a
    /// no-payload variant directly; a pair marker announces a variant
    /// whose discriminant and payload follow.
    pub fn next_enum_head(&mut self) -> (r: Result<VariantHead, Error>)
        ensures
            final(self).toks == old(self).toks,
            old(self).at() >= old(self).tokens().len() ==> r == Err::<VariantHead, Error>(
                Error::UnexpectedEOF,
            ) && final(self).pos == old(self).pos,
            old(self).at() < old(self).tokens().len() ==> (match old(self).tokens()[old(self).at()] {
                Tok::U32(v) => r == Ok::<VariantHead, Error>(VariantHead::Index(v)) && final(self).at() == old(self).at() + 1,
                Tok::Bin(b) => (r matches Ok(h) && h matches VariantHead::Name(name) && name@ == b)
                    && final(self).at() == old(self).at() + 1,
                Tok::Pair => r == Ok::<VariantHead, Error>(VariantHead::WithPayload) && final(self).at() == old(self).at() + 1,
                t => r == Err::<VariantHead, Error>(
                    Error::UnexpectedType(tok_type(t), Expected::Variant),
                ) && final(self).pos == old(self).pos,
            }),
    {
        if self.pos >= self.toks.len() {
            return Err(Error::UnexpectedEOF);
        }
        match &self.toks[self.pos] {
            VValue::U32(v) => {
                let out = *v;
                self.pos = self.pos + 1;
                Ok(VariantHead::Index(out))
            },
            VValue::Bin(b) => {
                let out = clone_bytes(b);
                self.pos = self.pos + 1;
                Ok(VariantHead::Name(out))
            },
            VValue::Pair => {
                self.pos = self.pos + 1;
                Ok(VariantHead::WithPayload)
            },
            t => Err(Error::UnexpectedType(t.as_type(), Expected::Variant)),
        }
    }

    /// Consume the head of a tagged union where only a no-payload variant
    /// is legal; a pair marker here is a structural misuse of its own.
    pub fn next_unit_variant(&mut self) -> (r: Result<VariantHead, Error>)
        ensures
            final(self).toks == old(self).toks,
            old(self).at() >= old(self).tokens().len() ==> r == Err::<VariantHead, Error>(
                Error::UnexpectedEOF,
            ) && final(self).pos == old(self).pos,
            old(self).at() < old(self).tokens().len() ==> (match old(self).tokens()[old(self).at()] {
                Tok::U32(v) => r == Ok::<VariantHead, Error>(VariantHead::Index(v)) && final(self).at() == old(self).at() + 1,
                Tok::Bin(b) => (r matches Ok(h) && h matches VariantHead::Name(name) && name@ == b)
                    && final(self).at() == old(self).at() + 1,
                Tok::Pair => r == Err::<VariantHead, Error>(Error::UnitVariantPair) && final(self).pos == old(self).pos,
                t => r == Err::<VariantHead, Error>(
                    Error::UnexpectedType(tok_type(t), Expected::Variant),
                ) && final(self).pos == old(self).pos,
            }),
    {
        if self.pos >= self.toks.len() {
            return Err(Error::UnexpectedEOF);
        }
        match &self.toks[self.pos] {
            VValue::U32(v) => {
                let out = *v;
                self.pos = self.pos + 1;
                Ok(VariantHead::Index(out))
            },
            VValue::Bin(b) => {
                let out = clone_bytes(b);
                self.pos = self.pos + 1;
                Ok(VariantHead::Name(out))
            },
            VValue::Pair => Err(Error::UnitVariantPair),
            t => Err(Error::UnexpectedType(t.as_type(), Expected::Variant)),
        }
    }

    /// Consume an identifier: a name as bytes or a bare index.
    pub fn next_ident(&mut self) -> (r: Result<VariantHead, Error>)
        ensures
            final(self).toks == old(self).toks,
            old(self).at() >= old(self).tokens().len() ==> r == Err::<VariantHead, Error>(
                Error::UnexpectedEOF,
            ) && final(self).pos == old(self).pos,
            old(self).at() < old(self).tokens().len() ==> (match old(self).tokens()[old(self).at()] {
                Tok::U32(v) => r == Ok::<VariantHead, Error>(VariantHead::Index(v)) && final(self).at() == old(self).at() + 1,
                Tok::Bin(b) => (r matches Ok(h) && h matches VariantHead::Name(name) && name@ == b)
                    && final(self).at() == old(self).at() + 1,
                t => r == Err::<VariantHead, Error>(
                    Error::UnexpectedType(tok_type(t), Expected::Ident),
                ) && final(self).pos == old(self).pos,
            }),
    {
        if self.pos >= self.toks.len() {
            return Err(Error::UnexpectedEOF);
        }
        match &self.toks[self.pos] {
            VValue::U32(v) => {
                let out = *v;
                self.pos = self.pos + 1;
                Ok(VariantHead::Index(out))
            },
            VValue::Bin(b) => {
                let out = clone_bytes(b);
                self.pos = self.pos + 1;
                Ok(VariantHead::Name(out))
            },
            t => Err(Error::UnexpectedType(t.as_type(), Expected::Ident)),
        }
    }

    /// Consume a byte string, yielding a copy of its bytes.
    pub fn next_bin(&mut self) -> (r: Result<Vec<u8>, Error>)
        ensures
            final(self).toks == old(self).toks,
            old(self).at() >= old(self).tokens().len() ==> r == Err::<Vec<u8>, Error>(
                Error::UnexpectedEOF,
            ) && final(self).pos == old(self).pos,
            old(self).at() < old(self).tokens().len() ==> (match old(self).tokens()[old(self).at()] {
                Tok::Bin(b) => (r matches Ok(out) && out@ == b) && final(self).at() == old(self).at() + 1,
                t => r == Err::<Vec<u8>, Error>(Error::UnexpectedType(tok_type(t), Expected::Bin))
                    && final(self).pos == old(self).pos,
            }),
    {
        if self.pos >= self.toks.len() {
            return Err(Error::UnexpectedEOF);
        }
        match &self.toks[self.pos] {
            VValue::Bin(b) => {
                let out = clone_bytes(b);
                self.pos = self.pos + 1;
                Ok(out)
            },
            t => Err(Error::UnexpectedType(t.as_type(), Expected::Bin)),
        }
    }

    /// Consume one whole value, however deeply nested, without
    /// interpreting it, advancing the cursor past its token subtree.
    #[verifier::loop_isolation(false)]
    pub fn skip_value(&mut self) -> (r: Result<(), Error>)
        ensures
            final(self).toks == old(self).toks,
            match tok_skip(old(self).tokens(), old(self).at()) {
                Some(end) => r == Ok::<(), Error>(()) && final(self).at() == end,
                None => r == Err::<(), Error>(Error::UnexpectedEOF),
            },
    {
        let ghost toks = self.tokens();
        if self.pos >= self.toks.len() {
            return Err(Error::UnexpectedEOF);
        }
        let mut pending: usize = 1;
        while pending > 0
            invariant
                self.toks == old(self).toks,
                self.pos <= self.toks.len(),
                pending <= self.toks.len() - self.pos || (pending == 1 && self.pos <= self.toks.len()),
                tok_skip_n(toks, self.at(), pending as nat) == tok_skip(
                    old(self).tokens(),
                    old(self).at(),
                ),
            decreases self.toks.len() - self.pos,
        {
            if self.pos >= self.toks.len() {
                return Err(Error::UnexpectedEOF);
            }
            let c: u128 = children_of(&self.toks[self.pos]);
            let remaining: usize = self.toks.len() - (self.pos + 1);
            if (pending - 1) as u128 + c > remaining as u128 {
                proof {
                    lemma_tok_skip_eof(toks, self.at() + 1, (pending - 1 + c) as nat);
                }
                return Err(Error::UnexpectedEOF);
            }
            let cs: usize = c as usize;
            self.pos = self.pos + 1;
            pending = pending - 1 + cs;
        }
        Ok(())
    }
}

/// A copy of a byte buffer with the same contents.
fn clone_bytes(b: &Vec<u8>) -> (out: Vec<u8>)
    ensures
        out@ == b@,
{
    let out = b.clone();
    proof {
        assert(out@ =~= b@);
    }
    out
}

} // verus!
