//! The laws that tie the writer to the reader: what the bytes of a value
//! parse back to, that the narrowest width class is always chosen, the
//! small/large boundary of each width class, structural skipping, and the
//! equivalence of the two format styles.
use vstd::prelude::*;
use vstd::std_specs::vec::spec_vec_len;
use crate::de::{
    glue, lemma_glue_assoc, lemma_parse_n_step, parse_n, parse_prim, parse_step, parse_value,
    tok_children, tok_skip, tok_skip_n, PrimParse, StepParse, Tok, ValueParse,
};
use crate::types::lemma_tag_byte_inverse;
use crate::num::{
    be_bytes, enc_sint, enc_uint, IntParse, lemma_be_bytes_len, lemma_be_roundtrip, lemma_p256_values,
    lemma_sint_roundtrip, lemma_uint_roundtrip, min_sclass, min_uclass, p256, parse_sint,
    parse_uint, wclass_bytes, wclass_extra,
};
use crate::ser::{
    enc_bin, enc_dict_pairs, enc_field_values, enc_items, enc_named_fields, enc_record, enc_value,
    enc_variant_head,
};
use crate::types::{
    spec_tag_byte, spec_tag_of_byte, FormatStyle, VTreeValue, VType,
};

verus! {

broadcast use
    vstd::std_specs::vec::axiom_vec_index_decreases,
    vstd::std_specs::vec::axiom_vec_decreases_to_view;

/// The token run of one whole value tree: the flat, pre-order walk the
/// token reader produces from the value's bytes.
pub open spec fn toks_of(v: VTreeValue, style: FormatStyle) -> Seq<Tok>
    decreases v, 0int,
{
    match v {
        VTreeValue::Null => seq![Tok::Null],
        VTreeValue::Bool(b) => seq![Tok::Bool(b)],
        VTreeValue::I8(x) => seq![Tok::I8(x)],
        VTreeValue::I16(x) => seq![Tok::I16(x)],
        VTreeValue::I32(x) => seq![Tok::I32(x)],
        VTreeValue::I64(x) => seq![Tok::I64(x)],
        VTreeValue::I128(x) => seq![Tok::I128(x)],
        VTreeValue::U8(x) => seq![Tok::U8(x)],
        VTreeValue::U16(x) => seq![Tok::U16(x)],
        VTreeValue::U32(x) => seq![Tok::U32(x)],
        VTreeValue::U64(x) => seq![Tok::U64(x)],
        VTreeValue::U128(x) => seq![Tok::U128(x)],
        VTreeValue::F32(bits) => seq![Tok::F32(bits)],
        VTreeValue::F64(bits) => seq![Tok::F64(bits)],
        VTreeValue::Char(c) => seq![Tok::Char(c)],
        VTreeValue::Bin(b) => seq![Tok::Bin(b@)],
        VTreeValue::Opt(o) => match o {
            Option::None => seq![Tok::Opt(false)],
            Option::Some(inner) => seq![Tok::Opt(true)] + toks_of(*inner, style),
        },
        VTreeValue::List(items) => seq![Tok::List(items@.len())] + toks_items(items@, style),
        VTreeValue::Dict(pairs) => seq![Tok::Dict(pairs@.len())] + toks_dict_pairs(pairs@, style),
        VTreeValue::Pair(a, b) => seq![Tok::Pair] + toks_of(*a, style) + toks_of(*b, style),
        VTreeValue::Record(fields) => toks_record(fields@, style),
        VTreeValue::UnitVariant(index, name) => toks_variant_head(index, name@, style),
        VTreeValue::NewtypeVariant(index, name, payload) => seq![Tok::Pair] + toks_variant_head(
            index,
            name@,
            style,
        ) + toks_of(*payload, style),
        VTreeValue::TupleVariant(index, name, items) => seq![Tok::Pair] + toks_variant_head(
            index,
            name@,
            style,
        ) + seq![Tok::List(items@.len())] + toks_items(items@, style),
        VTreeValue::StructVariant(index, name, fields) => seq![Tok::Pair] + toks_variant_head(
            index,
            name@,
            style,
        ) + toks_record(fields@, style),
    }
}

/// The token of a tagged-union head under a style.
pub open spec fn toks_variant_head(index: u32, name: Seq<u8>, style: FormatStyle) -> Seq<Tok> {
    match style {
        FormatStyle::Compact => seq![Tok::U32(index)],
        FormatStyle::Expressive => seq![Tok::Bin(name)],
    }
}

/// The token run of a run of values.
pub open spec fn toks_items(items: Seq<VTreeValue>, style: FormatStyle) -> Seq<Tok>
    decreases items, 0int,
{
    if items.len() == 0 {
        Seq::empty()
    } else {
        toks_of(items[0], style) + toks_items(items.drop_first(), style)
    }
}

/// The token run of a run of key-value pairs.
pub open spec fn toks_dict_pairs(pairs: Seq<(VTreeValue, VTreeValue)>, style: FormatStyle) -> Seq<
    Tok,
>
    decreases pairs, 0int,
{
    if pairs.len() == 0 {
        Seq::empty()
    } else {
        toks_of(pairs[0].0, style) + toks_of(pairs[0].1, style) + toks_dict_pairs(
            pairs.drop_first(),
            style,
        )
    }
}

/// The token run of a record under a style.
pub open spec fn toks_record(fields: Seq<(Vec<u8>, VTreeValue)>, style: FormatStyle) -> Seq<Tok>
    decreases fields, 1int,
{
    match style {
        FormatStyle::Compact => seq![Tok::List(fields.len())] + toks_field_values(fields, style),
        FormatStyle::Expressive => seq![Tok::Dict(fields.len())] + toks_named_fields(
            fields,
            style,
        ),
    }
}

/// The token run of a record's field values alone.
pub open spec fn toks_field_values(fields: Seq<(Vec<u8>, VTreeValue)>, style: FormatStyle) -> Seq<
    Tok,
>
    decreases fields, 0int,
{
    if fields.len() == 0 {
        Seq::empty()
    } else {
        toks_of(fields[0].1, style) + toks_field_values(fields.drop_first(), style)
    }
}

/// The token run of a record's fields, each name before its value.
pub open spec fn toks_named_fields(fields: Seq<(Vec<u8>, VTreeValue)>, style: FormatStyle) -> Seq<
    Tok,
>
    decreases fields, 0int,
{
    if fields.len() == 0 {
        Seq::empty()
    } else {
        seq![Tok::Bin(fields[0].0@)] + toks_of(fields[0].1, style) + toks_named_fields(
            fields.drop_first(),
            style,
        )
    }
}

/// A sequence that holds a concatenation splits into its parts.
proof fn lemma_subrange_chain<A>(s: Seq<A>, pos: int, a: Seq<A>, b: Seq<A>)
    requires
        0 <= pos,
        pos + a.len() + b.len() <= s.len(),
        s.subrange(pos, pos + a.len() + b.len()) == a + b,
    ensures
        s.subrange(pos, pos + a.len()) == a,
        s.subrange(pos + a.len(), pos + a.len() + b.len()) == b,
{
    assert(s.subrange(pos, pos + a.len()) =~= a) by {
        assert forall|i: int| 0 <= i < a.len() implies s.subrange(pos, pos + a.len())[i] == a[i] by {
            assert(s.subrange(pos, pos + a.len() + b.len())[i] == s[pos + i]);
            assert((a + b)[i] == a[i]);
        }
    }
    assert(s.subrange(pos + a.len(), pos + a.len() + b.len()) =~= b) by {
        assert forall|i: int| 0 <= i < b.len() implies s.subrange(
            pos + a.len(),
            pos + a.len() + b.len(),
        )[i] == b[i] by {
            assert(s.subrange(pos, pos + a.len() + b.len())[a.len() + i] == s[pos + a.len() + i]);
            assert((a + b)[a.len() + i] == b[i]);
        }
    }
}

/// Carrying no prefix changes nothing.
proof fn lemma_glue_empty(r: ValueParse)
    ensures
        glue(Seq::<Tok>::empty(), r) == r,
{
    match r {
        ValueParse::Done { toks, end } => {
            assert(Seq::<Tok>::empty() + toks =~= toks);
        },
        _ => {},
    }
}

/// The bytes of a byte-string token read back as that token.
proof fn lemma_parse_enc_bin_tok(s: Seq<u8>, pos: int, n: nat, b: Seq<u8>)
    requires
        0 <= pos,
        n >= 1,
        b.len() < 0x10000000000000000,
        pos + enc_bin(b).len() <= s.len(),
        s.subrange(pos, pos + enc_bin(b).len()) == enc_bin(b),
    ensures
        parse_n(s, pos, n) == glue(
            seq![Tok::Bin(b)],
            parse_n(s, pos + enc_bin(b).len(), (n - 1) as nat),
        ),
{
    lemma_p256_values();
    lemma_tag_byte_inverse();
    let pl = enc_uint(b.len());
    let enc = enc_bin(b);
    assert(enc =~= seq![spec_tag_byte(VType::Bin)] + (pl + b));
    lemma_subrange_chain(s, pos, seq![spec_tag_byte(VType::Bin)], pl + b);
    lemma_subrange_chain(s, pos + 1, pl, b);
    assert(s[pos] == spec_tag_byte(VType::Bin)) by {
        assert(s.subrange(pos, pos + 1)[0] == s[pos]);
    }
    lemma_uint_roundtrip(s, pos + 1, b.len(), 3);
    let end = pos + 1 + pl.len();
    assert(parse_uint(s, pos + 1, 3) == (IntParse::Val { v: b.len(), end }));
    assert(parse_prim(s, pos + 1, VType::Bin) == (PrimParse::Tok {
        t: Tok::Bin(b),
        end: pos + enc.len(),
    })) by {
        assert(s.subrange(end, end + b.len()) == b);
    }
    assert(parse_step(s, pos) == (StepParse::Step { t: Tok::Bin(b), end: pos + enc.len() }));
    lemma_parse_n_step(s, pos, n);
    assert(tok_children(Tok::Bin(b)) == 0);
}

/// The bytes of a bare 32-bit unsigned token read back as that token.
proof fn lemma_parse_enc_u32_tok(s: Seq<u8>, pos: int, n: nat, x: u32)
    requires
        0 <= pos,
        n >= 1,
        pos + 1 + enc_uint(x as nat).len() <= s.len(),
        s.subrange(pos, pos + 1 + enc_uint(x as nat).len()) == seq![spec_tag_byte(VType::U32)]
            + enc_uint(x as nat),
    ensures
        parse_n(s, pos, n) == glue(
            seq![Tok::U32(x)],
            parse_n(s, pos + 1 + enc_uint(x as nat).len(), (n - 1) as nat),
        ),
{
    lemma_p256_values();
    lemma_tag_byte_inverse();
    let pl = enc_uint(x as nat);
    lemma_subrange_chain(s, pos, seq![spec_tag_byte(VType::U32)], pl);
    assert(s[pos] == spec_tag_byte(VType::U32)) by {
        assert(s.subrange(pos, pos + 1)[0] == s[pos]);
    }
    lemma_uint_roundtrip(s, pos + 1, x as nat, 2);
    assert(parse_prim(s, pos + 1, VType::U32) == (PrimParse::Tok {
        t: Tok::U32(x),
        end: pos + 1 + pl.len(),
    }));
    assert(parse_step(s, pos) == (StepParse::Step { t: Tok::U32(x), end: pos + 1 + pl.len() }));
    lemma_parse_n_step(s, pos, n);
    assert(tok_children(Tok::U32(x)) == 0);
}

/// The bytes of a tagged-union head read back as its token.
proof fn lemma_parse_enc_head(
    s: Seq<u8>,
    pos: int,
    n: nat,
    index: u32,
    name: Seq<u8>,
    style: FormatStyle,
)
    requires
        0 <= pos,
        n >= 1,
        name.len() < 0x10000000000000000,
        pos + enc_variant_head(index, name, style).len() <= s.len(),
        s.subrange(pos, pos + enc_variant_head(index, name, style).len()) == enc_variant_head(
            index,
            name,
            style,
        ),
    ensures
        parse_n(s, pos, n) == glue(
            toks_variant_head(index, name, style),
            parse_n(s, pos + enc_variant_head(index, name, style).len(), (n - 1) as nat),
        ),
{
    match style {
        FormatStyle::Compact => {
            lemma_parse_enc_u32_tok(s, pos, n, index);
        },
        FormatStyle::Expressive => {
            lemma_parse_enc_bin_tok(s, pos, n, name);
        },
    }
}

/// The bytes of one whole value read back as its token run, leaving the
/// rest of an ongoing run to parse after them.
/// The bytes of one whole value read back as its token run, leaving the
/// rest of an ongoing run to parse after them.
#[verifier::rlimit(100)]
#[verifier::spinoff_prover]
pub proof fn lemma_parse_enc(s: Seq<u8>, pos: int, n: nat, v: VTreeValue, style: FormatStyle)
    requires
        0 <= pos,
        n >= 1,
        pos + enc_value(v, style).len() <= s.len(),
        s.subrange(pos, pos + enc_value(v, style).len()) == enc_value(v, style),
    ensures
        parse_n(s, pos, n) == glue(
            toks_of(v, style),
            parse_n(s, pos + enc_value(v, style).len(), (n - 1) as nat),
        ),
    decreases v, 2int,
{
    match v {
        VTreeValue::Bin(b) => {
            assert(spec_vec_len(&b) == b@.len());
            lemma_p256_values();
            lemma_parse_enc_bin_tok(s, pos, n, b@);
        },
        VTreeValue::Opt(o) => match o {
            Option::None => {
                lemma_parse_enc_prim_case(s, pos, n, v, style);
            },
            Option::Some(inner) => {
                lemma_parse_enc_opt_case(s, pos, n, v, style);
            },
        },
        VTreeValue::List(items) => {
            assert(spec_vec_len(&items) == items@.len());
            lemma_parse_enc_list_part(s, pos, n, items@, style);
        },
        VTreeValue::Dict(pairs) => {
            lemma_parse_enc_dict_case(s, pos, n, v, style);
        },
        VTreeValue::Pair(a, b) => {
            lemma_parse_enc_pair_case(s, pos, n, v, style);
        },
        VTreeValue::Record(fields) => {
            assert(spec_vec_len(&fields) == fields@.len());
            lemma_parse_enc_record(s, pos, n, fields@, style);
        },
        VTreeValue::UnitVariant(index, name) => {
            assert(spec_vec_len(&name) == name@.len());
            lemma_p256_values();
            lemma_parse_enc_head(s, pos, n, index, name@, style);
        },
        VTreeValue::NewtypeVariant(index, name, payload) => {
            lemma_parse_enc_newtype_case(s, pos, n, v, style);
        },
        VTreeValue::TupleVariant(index, name, items) => {
            lemma_parse_enc_tuple_variant_case(s, pos, n, v, style);
        },
        VTreeValue::StructVariant(index, name, fields) => {
            lemma_parse_enc_struct_variant_case(s, pos, n, v, style);
        },
        _ => {
            lemma_parse_enc_prim_case(s, pos, n, v, style);
        },
    }
}

/// A present optional's bytes read back as its marker and payload.
proof fn lemma_parse_enc_opt_case(s: Seq<u8>, pos: int, n: nat, v: VTreeValue, style: FormatStyle)
    requires
        0 <= pos,
        n >= 1,
        v matches VTreeValue::Opt(o) && o is Some,
        pos + enc_value(v, style).len() <= s.len(),
        s.subrange(pos, pos + enc_value(v, style).len()) == enc_value(v, style),
    ensures
        parse_n(s, pos, n) == glue(
            toks_of(v, style),
            parse_n(s, pos + enc_value(v, style).len(), (n - 1) as nat),
        ),
    decreases v, 1int,
{
    lemma_p256_values();
    lemma_tag_byte_inverse();
    let enc = enc_value(v, style);
    let inner = v->Opt_0->Some_0;
    let pl = enc_value(*inner, style);
    assert(enc =~= seq![spec_tag_byte(VType::OptSome)] + pl);
    lemma_subrange_chain(s, pos, seq![spec_tag_byte(VType::OptSome)], pl);
    assert(s[pos] == spec_tag_byte(VType::OptSome)) by {
        assert(s.subrange(pos, pos + 1)[0] == s[pos]);
    }
    assert(parse_step(s, pos) == (StepParse::Step { t: Tok::Opt(true), end: pos + 1 }));
    lemma_parse_n_step(s, pos, n);
    lemma_parse_enc(s, pos + 1, n, *inner, style);
    lemma_glue_assoc(
        seq![Tok::Opt(true)],
        toks_of(*inner, style),
        parse_n(s, pos + enc.len(), (n - 1) as nat),
    );
}

/// A map value's bytes read back as its count token and pair runs.
proof fn lemma_parse_enc_dict_case(s: Seq<u8>, pos: int, n: nat, v: VTreeValue, style: FormatStyle)
    requires
        0 <= pos,
        n >= 1,
        v is Dict,
        pos + enc_value(v, style).len() <= s.len(),
        s.subrange(pos, pos + enc_value(v, style).len()) == enc_value(v, style),
    ensures
        parse_n(s, pos, n) == glue(
            toks_of(v, style),
            parse_n(s, pos + enc_value(v, style).len(), (n - 1) as nat),
        ),
    decreases v, 1int,
{
    lemma_p256_values();
    lemma_tag_byte_inverse();
    let enc = enc_value(v, style);
    let pairs = v->Dict_0;
    assert(spec_vec_len(&pairs) == pairs@.len());
    let ln = pairs@.len();
    let cnt = enc_uint(ln);
    let body = enc_dict_pairs(pairs@, style);
    assert(enc =~= seq![spec_tag_byte(VType::Dict)] + (cnt + body));
    lemma_subrange_chain(s, pos, seq![spec_tag_byte(VType::Dict)], cnt + body);
    lemma_subrange_chain(s, pos + 1, cnt, body);
    assert(s[pos] == spec_tag_byte(VType::Dict)) by {
        assert(s.subrange(pos, pos + 1)[0] == s[pos]);
    }
    assert(usize::MAX >= 0xFFFFFFFF);
    lemma_uint_roundtrip(s, pos + 1, ln, 3);
    let pos2 = pos + 1 + cnt.len();
    assert(parse_step(s, pos) == (StepParse::Step { t: Tok::Dict(ln), end: pos2 }));
    lemma_parse_n_step(s, pos, n);
    assert(tok_children(Tok::Dict(ln)) == 2 * ln);
    lemma_parse_enc_dict_pairs(s, pos2, (n - 1) as nat, pairs@, style);
    assert(2 * ln + (n - 1) == n - 1 + 2 * ln);
    lemma_glue_assoc(
        seq![Tok::Dict(ln)],
        toks_dict_pairs(pairs@, style),
        parse_n(s, pos + enc.len(), (n - 1) as nat),
    );
}

/// A pair value's bytes read back as its marker and two child runs.
proof fn lemma_parse_enc_pair_case(s: Seq<u8>, pos: int, n: nat, v: VTreeValue, style: FormatStyle)
    requires
        0 <= pos,
        n >= 1,
        v is Pair,
        pos + enc_value(v, style).len() <= s.len(),
        s.subrange(pos, pos + enc_value(v, style).len()) == enc_value(v, style),
    ensures
        parse_n(s, pos, n) == glue(
            toks_of(v, style),
            parse_n(s, pos + enc_value(v, style).len(), (n - 1) as nat),
        ),
    decreases v, 1int,
{
    lemma_p256_values();
    lemma_tag_byte_inverse();
    let enc = enc_value(v, style);
    let a = v->Pair_0;
    let b = v->Pair_1;
    let pa = enc_value(*a, style);
    let pb = enc_value(*b, style);
    assert(enc =~= seq![spec_tag_byte(VType::Pair)] + (pa + pb));
    lemma_subrange_chain(s, pos, seq![spec_tag_byte(VType::Pair)], pa + pb);
    lemma_subrange_chain(s, pos + 1, pa, pb);
    assert(s[pos] == spec_tag_byte(VType::Pair)) by {
        assert(s.subrange(pos, pos + 1)[0] == s[pos]);
    }
    assert(parse_step(s, pos) == (StepParse::Step { t: Tok::Pair, end: pos + 1 }));
    lemma_parse_n_step(s, pos, n);
    lemma_parse_enc(s, pos + 1, (n + 1) as nat, *a, style);
    lemma_parse_enc(s, pos + 1 + pa.len(), n, *b, style);
    lemma_glue_assoc(
        toks_of(*a, style),
        toks_of(*b, style),
        parse_n(s, pos + enc.len(), (n - 1) as nat),
    );
    lemma_glue_assoc(
        seq![Tok::Pair],
        toks_of(*a, style) + toks_of(*b, style),
        parse_n(s, pos + enc.len(), (n - 1) as nat),
    );
    assert(toks_of(v, style) =~= seq![Tok::Pair] + (toks_of(*a, style) + toks_of(*b, style)));
}

/// A newtype variant's bytes read back as the pair marker, the head and
/// the payload run.
proof fn lemma_parse_enc_newtype_case(
    s: Seq<u8>,
    pos: int,
    n: nat,
    v: VTreeValue,
    style: FormatStyle,
)
    requires
        0 <= pos,
        n >= 1,
        v is NewtypeVariant,
        pos + enc_value(v, style).len() <= s.len(),
        s.subrange(pos, pos + enc_value(v, style).len()) == enc_value(v, style),
    ensures
        parse_n(s, pos, n) == glue(
            toks_of(v, style),
            parse_n(s, pos + enc_value(v, style).len(), (n - 1) as nat),
        ),
    decreases v, 1int,
{
    lemma_p256_values();
    lemma_tag_byte_inverse();
    let enc = enc_value(v, style);
    let index = v->NewtypeVariant_0;
    let name = v->NewtypeVariant_1;
    let payload = v->NewtypeVariant_2;
    assert(spec_vec_len(&name) == name@.len());
    let hd = enc_variant_head(index, name@, style);
    let pl = enc_value(*payload, style);
    assert(enc =~= seq![spec_tag_byte(VType::Pair)] + (hd + pl));
    lemma_subrange_chain(s, pos, seq![spec_tag_byte(VType::Pair)], hd + pl);
    lemma_subrange_chain(s, pos + 1, hd, pl);
    assert(s[pos] == spec_tag_byte(VType::Pair)) by {
        assert(s.subrange(pos, pos + 1)[0] == s[pos]);
    }
    assert(parse_step(s, pos) == (StepParse::Step { t: Tok::Pair, end: pos + 1 }));
    lemma_parse_n_step(s, pos, n);
    lemma_parse_enc_head(s, pos + 1, (n + 1) as nat, index, name@, style);
    lemma_parse_enc(s, pos + 1 + hd.len(), n, *payload, style);
    lemma_glue_assoc(
        toks_variant_head(index, name@, style),
        toks_of(*payload, style),
        parse_n(s, pos + enc.len(), (n - 1) as nat),
    );
    lemma_glue_assoc(
        seq![Tok::Pair],
        toks_variant_head(index, name@, style) + toks_of(*payload, style),
        parse_n(s, pos + enc.len(), (n - 1) as nat),
    );
    assert(toks_of(v, style) =~= seq![Tok::Pair] + (toks_variant_head(index, name@, style)
        + toks_of(*payload, style)));
}

/// A tuple variant's bytes read back as the pair marker, the head, and a
/// list of the payload elements.
#[verifier::rlimit(100)]
#[verifier::spinoff_prover]
proof fn lemma_parse_enc_tuple_variant_case(
    s: Seq<u8>,
    pos: int,
    n: nat,
    v: VTreeValue,
    style: FormatStyle,
)
    requires
        0 <= pos,
        n >= 1,
        v is TupleVariant,
        pos + enc_value(v, style).len() <= s.len(),
        s.subrange(pos, pos + enc_value(v, style).len()) == enc_value(v, style),
    ensures
        parse_n(s, pos, n) == glue(
            toks_of(v, style),
            parse_n(s, pos + enc_value(v, style).len(), (n - 1) as nat),
        ),
    decreases v, 1int,
{
    lemma_p256_values();
    lemma_tag_byte_inverse();
    let enc = enc_value(v, style);
    let index = v->TupleVariant_0;
    let name = v->TupleVariant_1;
    let items = v->TupleVariant_2;
    assert(spec_vec_len(&name) == name@.len());
    assert(spec_vec_len(&items) == items@.len());
    let hd = enc_variant_head(index, name@, style);
    let seg = seq![spec_tag_byte(VType::List)] + enc_uint(items@.len()) + enc_items(
        items@,
        style,
    );
    assert(enc =~= seq![spec_tag_byte(VType::Pair)] + (hd + seg));
    lemma_subrange_chain(s, pos, seq![spec_tag_byte(VType::Pair)], hd + seg);
    lemma_subrange_chain(s, pos + 1, hd, seg);
    assert(s[pos] == spec_tag_byte(VType::Pair)) by {
        assert(s.subrange(pos, pos + 1)[0] == s[pos]);
    }
    assert(parse_step(s, pos) == (StepParse::Step { t: Tok::Pair, end: pos + 1 }));
    lemma_parse_n_step(s, pos, n);
    lemma_parse_enc_head(s, pos + 1, (n + 1) as nat, index, name@, style);
    lemma_parse_enc_list_seg(s, pos + 1 + hd.len(), n, items@, style);
    lemma_glue_assoc(
        toks_variant_head(index, name@, style),
        seq![Tok::List(items@.len())] + toks_items(items@, style),
        parse_n(s, pos + enc.len(), (n - 1) as nat),
    );
    lemma_glue_assoc(
        seq![Tok::Pair],
        toks_variant_head(index, name@, style) + (seq![Tok::List(items@.len())] + toks_items(
            items@,
            style,
        )),
        parse_n(s, pos + enc.len(), (n - 1) as nat),
    );
    assert(toks_of(v, style) =~= seq![Tok::Pair] + (toks_variant_head(index, name@, style) + (seq![
        Tok::List(items@.len()),
    ] + toks_items(items@, style))));
}

/// A struct variant's bytes read back as the pair marker, the head, and
/// the record of its fields.
#[verifier::rlimit(100)]
#[verifier::spinoff_prover]
proof fn lemma_parse_enc_struct_variant_case(
    s: Seq<u8>,
    pos: int,
    n: nat,
    v: VTreeValue,
    style: FormatStyle,
)
    requires
        0 <= pos,
        n >= 1,
        v is StructVariant,
        pos + enc_value(v, style).len() <= s.len(),
        s.subrange(pos, pos + enc_value(v, style).len()) == enc_value(v, style),
    ensures
        parse_n(s, pos, n) == glue(
            toks_of(v, style),
            parse_n(s, pos + enc_value(v, style).len(), (n - 1) as nat),
        ),
    decreases v, 1int,
{
    lemma_p256_values();
    lemma_tag_byte_inverse();
    let enc = enc_value(v, style);
    let index = v->StructVariant_0;
    let name = v->StructVariant_1;
    let fields = v->StructVariant_2;
    assert(spec_vec_len(&name) == name@.len());
    assert(spec_vec_len(&fields) == fields@.len());
    let hd = enc_variant_head(index, name@, style);
    let seg = enc_record(fields@, style);
    assert(enc =~= seq![spec_tag_byte(VType::Pair)] + (hd + seg));
    lemma_subrange_chain(s, pos, seq![spec_tag_byte(VType::Pair)], hd + seg);
    lemma_subrange_chain(s, pos + 1, hd, seg);
    assert(s[pos] == spec_tag_byte(VType::Pair)) by {
        assert(s.subrange(pos, pos + 1)[0] == s[pos]);
    }
    assert(parse_step(s, pos) == (StepParse::Step { t: Tok::Pair, end: pos + 1 }));
    lemma_parse_n_step(s, pos, n);
    lemma_parse_enc_head(s, pos + 1, (n + 1) as nat, index, name@, style);
    lemma_parse_enc_record(s, pos + 1 + hd.len(), n, fields@, style);
    lemma_glue_assoc(
        toks_variant_head(index, name@, style),
        toks_record(fields@, style),
        parse_n(s, pos + enc.len(), (n - 1) as nat),
    );
    lemma_glue_assoc(
        seq![Tok::Pair],
        toks_variant_head(index, name@, style) + toks_record(fields@, style),
        parse_n(s, pos + enc.len(), (n - 1) as nat),
    );
    assert(toks_of(v, style) =~= seq![Tok::Pair] + (toks_variant_head(index, name@, style)
        + toks_record(fields@, style)));
}

/// One primitive value's bytes read back as its single token.
#[verifier::spinoff_prover]
proof fn lemma_parse_enc_prim_case(s: Seq<u8>, pos: int, n: nat, v: VTreeValue, style: FormatStyle)
    requires
        0 <= pos,
        n >= 1,
        toks_of(v, style).len() == 1,
        tok_children(toks_of(v, style)[0]) == 0,
        pos + enc_value(v, style).len() <= s.len(),
        s.subrange(pos, pos + enc_value(v, style).len()) == enc_value(v, style),
        v matches VTreeValue::Null || v matches VTreeValue::Bool(_) || v matches VTreeValue::I8(_)
            || v matches VTreeValue::I16(_) || v matches VTreeValue::I32(_)
            || v matches VTreeValue::I64(_) || v matches VTreeValue::I128(_)
            || v matches VTreeValue::U8(_) || v matches VTreeValue::U16(_)
            || v matches VTreeValue::U32(_) || v matches VTreeValue::U64(_)
            || v matches VTreeValue::U128(_) || v matches VTreeValue::F32(_)
            || v matches VTreeValue::F64(_) || v matches VTreeValue::Char(_) || (
        v matches VTreeValue::Opt(o) && o is None),
    ensures
        parse_n(s, pos, n) == glue(
            toks_of(v, style),
            parse_n(s, pos + enc_value(v, style).len(), (n - 1) as nat),
        ),
    decreases v,
{
    lemma_p256_values();
    lemma_tag_byte_inverse();
    let enc = enc_value(v, style);
    let tk = toks_of(v, style)[0];
    match v {
        VTreeValue::Null => {
            assert(enc =~= seq![spec_tag_byte(VType::Null)] + Seq::<u8>::empty());
            lemma_subrange_chain(s, pos, seq![spec_tag_byte(VType::Null)], Seq::<u8>::empty());
            assert(s[pos] == spec_tag_byte(VType::Null)) by {
                assert(s.subrange(pos, pos + 1)[0] == s[pos]);
            }
            assert(parse_step(s, pos) == (StepParse::Step { t: tk, end: pos + enc.len() }));
        },
        VTreeValue::Bool(b) => {
            let t = if b {
                VType::True
            } else {
                VType::False
            };
            assert(enc =~= seq![spec_tag_byte(t)] + Seq::<u8>::empty());
            lemma_subrange_chain(s, pos, seq![spec_tag_byte(t)], Seq::<u8>::empty());
            assert(s[pos] == spec_tag_byte(t)) by {
                assert(s.subrange(pos, pos + 1)[0] == s[pos]);
            }
            assert(parse_step(s, pos) == (StepParse::Step { t: tk, end: pos + enc.len() }));
        },
        VTreeValue::Opt(o) => {
            assert(enc =~= seq![spec_tag_byte(VType::OptNone)] + Seq::<u8>::empty());
            lemma_subrange_chain(s, pos, seq![spec_tag_byte(VType::OptNone)], Seq::<u8>::empty());
            assert(s[pos] == spec_tag_byte(VType::OptNone)) by {
                assert(s.subrange(pos, pos + 1)[0] == s[pos]);
            }
            assert(parse_step(s, pos) == (StepParse::Step { t: tk, end: pos + enc.len() }));
        },
        VTreeValue::I8(x) => {
            lemma_int_payload_signed(s, pos, x as int, 0, VType::I8);
            assert(parse_prim(s, pos + 1, VType::I8) == (PrimParse::Tok {
                t: Tok::I8(x),
                end: pos + enc.len(),
            }));
            assert(parse_step(s, pos) == (StepParse::Step { t: tk, end: pos + enc.len() }));
        },
        VTreeValue::I16(x) => {
            lemma_int_payload_signed(s, pos, x as int, 1, VType::I16);
            assert(parse_prim(s, pos + 1, VType::I16) == (PrimParse::Tok {
                t: Tok::I16(x),
                end: pos + enc.len(),
            }));
            assert(parse_step(s, pos) == (StepParse::Step { t: tk, end: pos + enc.len() }));
        },
        VTreeValue::I32(x) => {
            lemma_int_payload_signed(s, pos, x as int, 2, VType::I32);
            assert(parse_prim(s, pos + 1, VType::I32) == (PrimParse::Tok {
                t: Tok::I32(x),
                end: pos + enc.len(),
            }));
            assert(parse_step(s, pos) == (StepParse::Step { t: tk, end: pos + enc.len() }));
        },
        VTreeValue::I64(x) => {
            lemma_int_payload_signed(s, pos, x as int, 3, VType::I64);
            assert(parse_prim(s, pos + 1, VType::I64) == (PrimParse::Tok {
                t: Tok::I64(x),
                end: pos + enc.len(),
            }));
            assert(parse_step(s, pos) == (StepParse::Step { t: tk, end: pos + enc.len() }));
        },
        VTreeValue::I128(x) => {
            lemma_int_payload_signed(s, pos, x as int, 4, VType::I128);
            assert(parse_prim(s, pos + 1, VType::I128) == (PrimParse::Tok {
                t: Tok::I128(x),
                end: pos + enc.len(),
            }));
            assert(parse_step(s, pos) == (StepParse::Step { t: tk, end: pos + enc.len() }));
        },
        VTreeValue::U8(x) => {
            lemma_int_payload_unsigned(s, pos, x as nat, 0, VType::U8);
            assert(parse_prim(s, pos + 1, VType::U8) == (PrimParse::Tok {
                t: Tok::U8(x),
                end: pos + enc.len(),
            }));
            assert(parse_step(s, pos) == (StepParse::Step { t: tk, end: pos + enc.len() }));
        },
        VTreeValue::U16(x) => {
            lemma_int_payload_unsigned(s, pos, x as nat, 1, VType::U16);
            assert(parse_prim(s, pos + 1, VType::U16) == (PrimParse::Tok {
                t: Tok::U16(x),
                end: pos + enc.len(),
            }));
            assert(parse_step(s, pos) == (StepParse::Step { t: tk, end: pos + enc.len() }));
        },
        VTreeValue::U32(x) => {
            lemma_int_payload_unsigned(s, pos, x as nat, 2, VType::U32);
            assert(parse_prim(s, pos + 1, VType::U32) == (PrimParse::Tok {
                t: Tok::U32(x),
                end: pos + enc.len(),
            }));
            assert(parse_step(s, pos) == (StepParse::Step { t: tk, end: pos + enc.len() }));
        },
        VTreeValue::U64(x) => {
            lemma_int_payload_unsigned(s, pos, x as nat, 3, VType::U64);
            assert(parse_prim(s, pos + 1, VType::U64) == (PrimParse::Tok {
                t: Tok::U64(x),
                end: pos + enc.len(),
            }));
            assert(parse_step(s, pos) == (StepParse::Step { t: tk, end: pos + enc.len() }));
        },
        VTreeValue::U128(x) => {
            lemma_int_payload_unsigned(s, pos, x as nat, 4, VType::U128);
            assert(parse_prim(s, pos + 1, VType::U128) == (PrimParse::Tok {
                t: Tok::U128(x),
                end: pos + enc.len(),
            }));
            assert(parse_step(s, pos) == (StepParse::Step { t: tk, end: pos + enc.len() }));
        },
        VTreeValue::F32(bits) => {
            let pl = be_bytes(bits as nat, 4);
            lemma_be_roundtrip(bits as nat, 4);
            assert(enc =~= seq![spec_tag_byte(VType::F32)] + pl);
            lemma_subrange_chain(s, pos, seq![spec_tag_byte(VType::F32)], pl);
            assert(s[pos] == spec_tag_byte(VType::F32)) by {
                assert(s.subrange(pos, pos + 1)[0] == s[pos]);
            }
            assert(parse_prim(s, pos + 1, VType::F32) == (PrimParse::Tok {
                t: Tok::F32(bits),
                end: pos + enc.len(),
            })) by {
                assert(s.subrange(pos + 1, pos + 1 + 4) == pl);
            }
            assert(parse_step(s, pos) == (StepParse::Step { t: tk, end: pos + enc.len() }));
        },
        VTreeValue::F64(bits) => {
            let pl = be_bytes(bits as nat, 8);
            lemma_be_roundtrip(bits as nat, 8);
            assert(enc =~= seq![spec_tag_byte(VType::F64)] + pl);
            lemma_subrange_chain(s, pos, seq![spec_tag_byte(VType::F64)], pl);
            assert(s[pos] == spec_tag_byte(VType::F64)) by {
                assert(s.subrange(pos, pos + 1)[0] == s[pos]);
            }
            assert(parse_prim(s, pos + 1, VType::F64) == (PrimParse::Tok {
                t: Tok::F64(bits),
                end: pos + enc.len(),
            })) by {
                assert(s.subrange(pos + 1, pos + 1 + 8) == pl);
            }
            assert(parse_step(s, pos) == (StepParse::Step { t: tk, end: pos + enc.len() }));
        },
        VTreeValue::Char(c) => {
            lemma_int_payload_unsigned(s, pos, (c as u32) as nat, 2, VType::Char);
            lemma_char_scalar(c);
            assert(parse_prim(s, pos + 1, VType::Char) == (PrimParse::Tok {
                t: Tok::Char(((c as u32) as u32) as char),
                end: pos + enc.len(),
            }));
            assert(((c as u32) as u32) as char == c);
            assert(parse_step(s, pos) == (StepParse::Step { t: tk, end: pos + enc.len() }));
        },
        _ => {},
    }
    lemma_parse_n_step(s, pos, n);
}

/// Every character is a valid Unicode scalar value.
proof fn lemma_char_scalar(c: char)
    ensures
        crate::de::is_unicode_scalar((c as u32) as nat),
{
}

/// A signed integer payload after a tag byte reads back exactly.
proof fn lemma_int_payload_signed(s: Seq<u8>, pos: int, x: int, r: nat, t: VType)
    requires
        0 <= pos,
        r <= 4,
        min_sclass(x) <= r,
        -(p256(16) / 2) <= x < p256(16) / 2,
        pos + 1 + enc_sint(x).len() <= s.len(),
        s.subrange(pos, pos + 1 + enc_sint(x).len()) == seq![spec_tag_byte(t)] + enc_sint(x),
    ensures
        s[pos] == spec_tag_byte(t),
        parse_sint(s, pos + 1, r) == (IntParse::Val { v: x, end: pos + 1 + enc_sint(x).len() }),
{
    lemma_subrange_chain(s, pos, seq![spec_tag_byte(t)], enc_sint(x));
    assert(s[pos] == spec_tag_byte(t)) by {
        assert(s.subrange(pos, pos + 1)[0] == s[pos]);
    }
    lemma_sint_roundtrip(s, pos + 1, x, r);
}

/// An unsigned integer payload after a tag byte reads back exactly.
proof fn lemma_int_payload_unsigned(s: Seq<u8>, pos: int, x: nat, r: nat, t: VType)
    requires
        0 <= pos,
        r <= 4,
        min_uclass(x) <= r,
        x < p256(16),
        pos + 1 + enc_uint(x).len() <= s.len(),
        s.subrange(pos, pos + 1 + enc_uint(x).len()) == seq![spec_tag_byte(t)] + enc_uint(x),
    ensures
        s[pos] == spec_tag_byte(t),
        parse_uint(s, pos + 1, r) == (IntParse::Val { v: x, end: pos + 1 + enc_uint(x).len() }),
{
    lemma_subrange_chain(s, pos, seq![spec_tag_byte(t)], enc_uint(x));
    assert(s[pos] == spec_tag_byte(t)) by {
        assert(s.subrange(pos, pos + 1)[0] == s[pos]);
    }
    lemma_uint_roundtrip(s, pos + 1, x, r);
}

/// The list segment of a value: tag, count and elements read back as the
/// list token and the element runs.
proof fn lemma_parse_enc_list_seg(
    s: Seq<u8>,
    pos: int,
    n: nat,
    items: Seq<VTreeValue>,
    style: FormatStyle,
)
    requires
        0 <= pos,
        n >= 1,
        items.len() <= usize::MAX,
        pos + 1 + enc_uint(items.len()).len() + enc_items(items, style).len() <= s.len(),
        s.subrange(
            pos,
            pos + 1 + enc_uint(items.len()).len() + enc_items(items, style).len(),
        ) == seq![spec_tag_byte(VType::List)] + enc_uint(items.len()) + enc_items(items, style),
    ensures
        parse_n(s, pos, n) == glue(
            seq![Tok::List(items.len())] + toks_items(items, style),
            parse_n(
                s,
                pos + 1 + enc_uint(items.len()).len() + enc_items(items, style).len(),
                (n - 1) as nat,
            ),
        ),
    decreases items, 3int,
{
    lemma_p256_values();
    lemma_tag_byte_inverse();
    let ln = items.len();
    let cnt = enc_uint(ln);
    let body = enc_items(items, style);
    let whole = seq![spec_tag_byte(VType::List)] + cnt + body;
    assert(whole =~= seq![spec_tag_byte(VType::List)] + (cnt + body));
    lemma_subrange_chain(s, pos, seq![spec_tag_byte(VType::List)], cnt + body);
    lemma_subrange_chain(s, pos + 1, cnt, body);
    assert(s[pos] == spec_tag_byte(VType::List)) by {
        assert(s.subrange(pos, pos + 1)[0] == s[pos]);
    }
    assert(usize::MAX >= 0xFFFFFFFF);
    lemma_uint_roundtrip(s, pos + 1, ln, 3);
    let pos2 = pos + 1 + cnt.len();
    assert(parse_step(s, pos) == (StepParse::Step { t: Tok::List(ln), end: pos2 }));
    lemma_parse_n_step(s, pos, n);
    assert(tok_children(Tok::List(ln)) == ln);
    lemma_parse_enc_items(s, pos2, (n - 1) as nat, items, style);
    assert(ln + (n - 1) == n - 1 + ln);
    lemma_glue_assoc(
        seq![Tok::List(ln)],
        toks_items(items, style),
        parse_n(s, pos2 + body.len(), (n - 1) as nat),
    );
}

/// A whole list value's bytes read back as its token run.
proof fn lemma_parse_enc_list_part(
    s: Seq<u8>,
    pos: int,
    n: nat,
    items: Seq<VTreeValue>,
    style: FormatStyle,
)
    requires
        0 <= pos,
        n >= 1,
        items.len() <= usize::MAX,
        pos + 1 + enc_uint(items.len()).len() + enc_items(items, style).len() <= s.len(),
        s.subrange(
            pos,
            pos + 1 + enc_uint(items.len()).len() + enc_items(items, style).len(),
        ) == seq![spec_tag_byte(VType::List)] + enc_uint(items.len()) + enc_items(items, style),
    ensures
        parse_n(s, pos, n) == glue(
            seq![Tok::List(items.len())] + toks_items(items, style),
            parse_n(
                s,
                pos + 1 + enc_uint(items.len()).len() + enc_items(items, style).len(),
                (n - 1) as nat,
            ),
        ),
    decreases items, 4int,
{
    lemma_parse_enc_list_seg(s, pos, n, items, style);
}

/// The bytes of a run of values read back as the concatenation of their
/// token runs, consuming that many subtrees of an ongoing run.
proof fn lemma_parse_enc_items(
    s: Seq<u8>,
    pos: int,
    n: nat,
    items: Seq<VTreeValue>,
    style: FormatStyle,
)
    requires
        0 <= pos,
        pos + enc_items(items, style).len() <= s.len(),
        s.subrange(pos, pos + enc_items(items, style).len()) == enc_items(items, style),
    ensures
        parse_n(s, pos, (items.len() + n) as nat) == glue(
            toks_items(items, style),
            parse_n(s, pos + enc_items(items, style).len(), n),
        ),
    decreases items, 2int,
{
    if items.len() == 0 {
        assert(enc_items(items, style).len() == 0);
        lemma_glue_empty(parse_n(s, pos, n));
        assert(toks_items(items, style) =~= Seq::<Tok>::empty());
    } else {
        let v0 = items[0];
        let rest = items.drop_first();
        let e0 = enc_value(v0, style);
        let erest = enc_items(rest, style);
        assert(enc_items(items, style) == e0 + erest);
        lemma_subrange_chain(s, pos, e0, erest);
        lemma_parse_enc(s, pos, (items.len() + n) as nat, v0, style);
        lemma_parse_enc_items(s, pos + e0.len(), n, rest, style);
        assert(items.len() + n - 1 == rest.len() + n);
        lemma_glue_assoc(
            toks_of(v0, style),
            toks_items(rest, style),
            parse_n(s, pos + enc_items(items, style).len(), n),
        );
    }
}

/// The bytes of a run of key-value pairs read back as their token runs,
/// consuming two subtrees per pair of an ongoing run.
#[verifier::rlimit(100)]
#[verifier::spinoff_prover]
proof fn lemma_parse_enc_dict_pairs(
    s: Seq<u8>,
    pos: int,
    n: nat,
    pairs: Seq<(VTreeValue, VTreeValue)>,
    style: FormatStyle,
)
    requires
        0 <= pos,
        pos + enc_dict_pairs(pairs, style).len() <= s.len(),
        s.subrange(pos, pos + enc_dict_pairs(pairs, style).len()) == enc_dict_pairs(pairs, style),
    ensures
        parse_n(s, pos, (2 * pairs.len() + n) as nat) == glue(
            toks_dict_pairs(pairs, style),
            parse_n(s, pos + enc_dict_pairs(pairs, style).len(), n),
        ),
    decreases pairs, 2int,
{
    if pairs.len() == 0 {
        assert(enc_dict_pairs(pairs, style).len() == 0);
        lemma_glue_empty(parse_n(s, pos, n));
        assert(toks_dict_pairs(pairs, style) =~= Seq::<Tok>::empty());
    } else {
        let k0 = pairs[0].0;
        let v0 = pairs[0].1;
        let rest = pairs.drop_first();
        let ek = enc_value(k0, style);
        let ev = enc_value(v0, style);
        let erest = enc_dict_pairs(rest, style);
        assert(enc_dict_pairs(pairs, style) == ek + ev + erest);
        assert(ek + ev + erest =~= ek + (ev + erest));
        lemma_subrange_chain(s, pos, ek, ev + erest);
        lemma_subrange_chain(s, pos + ek.len(), ev, erest);
        lemma_parse_enc(s, pos, (2 * pairs.len() + n) as nat, k0, style);
        lemma_parse_enc(s, pos + ek.len(), (2 * pairs.len() + n - 1) as nat, v0, style);
        lemma_parse_enc_dict_pairs(s, pos + ek.len() + ev.len(), n, rest, style);
        assert(2 * pairs.len() + n - 2 == 2 * rest.len() + n);
        let tail = parse_n(s, pos + enc_dict_pairs(pairs, style).len(), n);
        lemma_glue_assoc(toks_of(v0, style), toks_dict_pairs(rest, style), tail);
        lemma_glue_assoc(
            toks_of(k0, style),
            toks_of(v0, style) + toks_dict_pairs(rest, style),
            tail,
        );
        assert(toks_dict_pairs(pairs, style) =~= toks_of(k0, style) + (toks_of(v0, style)
            + toks_dict_pairs(rest, style)));
    }
}

/// The bytes of a record read back as its token run.
#[verifier::rlimit(100)]
#[verifier::spinoff_prover]
proof fn lemma_parse_enc_record(
    s: Seq<u8>,
    pos: int,
    n: nat,
    fields: Seq<(Vec<u8>, VTreeValue)>,
    style: FormatStyle,
)
    requires
        0 <= pos,
        n >= 1,
        fields.len() <= usize::MAX,
        pos + enc_record(fields, style).len() <= s.len(),
        s.subrange(pos, pos + enc_record(fields, style).len()) == enc_record(fields, style),
    ensures
        parse_n(s, pos, n) == glue(
            toks_record(fields, style),
            parse_n(s, pos + enc_record(fields, style).len(), (n - 1) as nat),
        ),
    decreases fields, 3int,
{
    lemma_p256_values();
    lemma_tag_byte_inverse();
    let ln = fields.len();
    let cnt = enc_uint(ln);
    let enc = enc_record(fields, style);
    assert(usize::MAX >= 0xFFFFFFFF);
    match style {
        FormatStyle::Compact => {
            let body = enc_field_values(fields, style);
            assert(enc =~= seq![spec_tag_byte(VType::List)] + (cnt + body));
            lemma_subrange_chain(s, pos, seq![spec_tag_byte(VType::List)], cnt + body);
            lemma_subrange_chain(s, pos + 1, cnt, body);
            assert(s[pos] == spec_tag_byte(VType::List)) by {
                assert(s.subrange(pos, pos + 1)[0] == s[pos]);
            }
            lemma_uint_roundtrip(s, pos + 1, ln, 3);
            let pos2 = pos + 1 + cnt.len();
            assert(parse_step(s, pos) == (StepParse::Step { t: Tok::List(ln), end: pos2 }));
            lemma_parse_n_step(s, pos, n);
            lemma_parse_enc_field_values(s, pos2, (n - 1) as nat, fields, style);
            assert(ln + (n - 1) == n - 1 + ln);
            lemma_glue_assoc(
                seq![Tok::List(ln)],
                toks_field_values(fields, style),
                parse_n(s, pos + enc.len(), (n - 1) as nat),
            );
        },
        FormatStyle::Expressive => {
            let body = enc_named_fields(fields, style);
            assert(enc =~= seq![spec_tag_byte(VType::Dict)] + (cnt + body));
            lemma_subrange_chain(s, pos, seq![spec_tag_byte(VType::Dict)], cnt + body);
            lemma_subrange_chain(s, pos + 1, cnt, body);
            assert(s[pos] == spec_tag_byte(VType::Dict)) by {
                assert(s.subrange(pos, pos + 1)[0] == s[pos]);
            }
            lemma_uint_roundtrip(s, pos + 1, ln, 3);
            let pos2 = pos + 1 + cnt.len();
            assert(parse_step(s, pos) == (StepParse::Step { t: Tok::Dict(ln), end: pos2 }));
            lemma_parse_n_step(s, pos, n);
            lemma_parse_enc_named_fields(s, pos2, (n - 1) as nat, fields, style);
            assert(2 * ln + (n - 1) == n - 1 + 2 * ln);
            lemma_glue_assoc(
                seq![Tok::Dict(ln)],
                toks_named_fields(fields, style),
                parse_n(s, pos + enc.len(), (n - 1) as nat),
            );
        },
    }
}

/// The bytes of a record's field values read back as their token runs.
proof fn lemma_parse_enc_field_values(
    s: Seq<u8>,
    pos: int,
    n: nat,
    fields: Seq<(Vec<u8>, VTreeValue)>,
    style: FormatStyle,
)
    requires
        0 <= pos,
        pos + enc_field_values(fields, style).len() <= s.len(),
        s.subrange(pos, pos + enc_field_values(fields, style).len()) == enc_field_values(
            fields,
            style,
        ),
    ensures
        parse_n(s, pos, (fields.len() + n) as nat) == glue(
            toks_field_values(fields, style),
            parse_n(s, pos + enc_field_values(fields, style).len(), n),
        ),
    decreases fields, 2int,
{
    if fields.len() == 0 {
        assert(enc_field_values(fields, style).len() == 0);
        lemma_glue_empty(parse_n(s, pos, n));
        assert(toks_field_values(fields, style) =~= Seq::<Tok>::empty());
    } else {
        let v0 = fields[0].1;
        let rest = fields.drop_first();
        let e0 = enc_value(v0, style);
        let erest = enc_field_values(rest, style);
        assert(enc_field_values(fields, style) == e0 + erest);
        lemma_subrange_chain(s, pos, e0, erest);
        lemma_parse_enc(s, pos, (fields.len() + n) as nat, v0, style);
        lemma_parse_enc_field_values(s, pos + e0.len(), n, rest, style);
        assert(fields.len() + n - 1 == rest.len() + n);
        lemma_glue_assoc(
            toks_of(v0, style),
            toks_field_values(rest, style),
            parse_n(s, pos + enc_field_values(fields, style).len(), n),
        );
    }
}

/// The bytes of a record's named fields read back as their token runs,
/// two subtrees per field: the name and the value.
#[verifier::rlimit(100)]
#[verifier::spinoff_prover]
proof fn lemma_parse_enc_named_fields(
    s: Seq<u8>,
    pos: int,
    n: nat,
    fields: Seq<(Vec<u8>, VTreeValue)>,
    style: FormatStyle,
)
    requires
        0 <= pos,
        pos + enc_named_fields(fields, style).len() <= s.len(),
        s.subrange(pos, pos + enc_named_fields(fields, style).len()) == enc_named_fields(
            fields,
            style,
        ),
    ensures
        parse_n(s, pos, (2 * fields.len() + n) as nat) == glue(
            toks_named_fields(fields, style),
            parse_n(s, pos + enc_named_fields(fields, style).len(), n),
        ),
    decreases fields, 2int,
{
    if fields.len() == 0 {
        assert(enc_named_fields(fields, style).len() == 0);
        lemma_glue_empty(parse_n(s, pos, n));
        assert(toks_named_fields(fields, style) =~= Seq::<Tok>::empty());
    } else {
        let name0 = fields[0].0;
        let v0 = fields[0].1;
        let rest = fields.drop_first();
        let ek = enc_bin(name0@);
        let ev = enc_value(v0, style);
        let erest = enc_named_fields(rest, style);
        assert(spec_vec_len(&name0) == name0@.len());
        assert(enc_named_fields(fields, style) == ek + ev + erest);
        assert(ek + ev + erest =~= ek + (ev + erest));
        lemma_subrange_chain(s, pos, ek, ev + erest);
        lemma_subrange_chain(s, pos + ek.len(), ev, erest);
        assert(usize::MAX >= 0xFFFFFFFF);
        lemma_parse_enc_bin_tok(s, pos, (2 * fields.len() + n) as nat, name0@);
        lemma_parse_enc(s, pos + ek.len(), (2 * fields.len() + n - 1) as nat, v0, style);
        lemma_parse_enc_named_fields(s, pos + ek.len() + ev.len(), n, rest, style);
        assert(2 * fields.len() + n - 2 == 2 * rest.len() + n);
        let tail = parse_n(s, pos + enc_named_fields(fields, style).len(), n);
        lemma_glue_assoc(toks_of(v0, style), toks_named_fields(rest, style), tail);
        lemma_glue_assoc(
            seq![Tok::Bin(name0@)],
            toks_of(v0, style) + toks_named_fields(rest, style),
            tail,
        );
        assert(toks_named_fields(fields, style) =~= seq![Tok::Bin(name0@)] + (toks_of(v0, style)
            + toks_named_fields(rest, style)));
    }
}

/// Round-trip: the bytes of any value, written under either style, parse
/// back to exactly that value's token run, consuming exactly those bytes.
/// For a primitive value the token run is the single token holding the
/// value itself, so decoding an encoded primitive recovers it unchanged.
pub proof fn lemma_roundtrip(v: VTreeValue, style: FormatStyle)
    ensures
        parse_value(enc_value(v, style)) == (ValueParse::Done {
            toks: toks_of(v, style),
            end: enc_value(v, style).len() as int,
        }),
{
    let s = enc_value(v, style);
    assert(s.subrange(0, s.len() as int) =~= s);
    lemma_parse_enc(s, 0, 1, v, style);
    assert(parse_n(s, s.len() as int, 0) == (ValueParse::Done {
        toks: Seq::<Tok>::empty(),
        end: s.len() as int,
    }));
    assert(toks_of(v, style) + Seq::<Tok>::empty() =~= toks_of(v, style));
}

/// Narrowest-width: the leading byte of an unsigned encoding carries the
/// signature of the narrowest width class whose range holds the value,
/// either as the small form of that class or as its signature-only large
/// byte. Since the bytes are a function of the value alone, writing the
/// same value at any wider declared integer type is byte-identical.
pub proof fn lemma_narrowest_width_unsigned(v: nat)
    requires
        v < p256(16),
    ensures
        ({
            let c = min_uclass(v);
            let e = wclass_extra(c);
            if v < 32 * p256(e) {
                enc_uint(v).len() == 1 + e && enc_uint(v)[0] as int / 32 == c
            } else {
                enc_uint(v).len() == 1 + wclass_bytes(c) && enc_uint(v)[0] as int == 32 * (c + 1)
            }
        }),
{
    lemma_p256_values();
    let c = min_uclass(v);
    let e = wclass_extra(c);
    if v < 32 * p256(e) {
        let low = v / p256(e);
        lemma_be_bytes_len(v % p256(e), e);
        vstd::arithmetic::div_mod::lemma_multiply_divide_lt(v as int, p256(e) as int, 32);
        vstd::arithmetic::div_mod::lemma_fundamental_div_mod_converse(
            32 * c as int + low as int,
            32,
            c as int,
            low as int,
        );
        assert(enc_uint(v)[0] == (32 * c + low) as u8);
    } else {
        lemma_be_bytes_len(v, wclass_bytes(c));
        assert(enc_uint(v)[0] == (32 * (c + 1)) as u8);
    }
}

/// Narrowest-width for signed integers: the encoding is rendered at the
/// narrowest width class whose signed range holds the value, as either
/// that class's small form or its explicit large form, and as a function
/// of the value alone it is byte-identical at every wider declared type.
pub proof fn lemma_narrowest_width_signed(v: int)
    requires
        -(p256(16) / 2) <= v < p256(16) / 2,
    ensures
        ({
            let c = min_sclass(v);
            let e = wclass_extra(c);
            if -16 * p256(e) <= v < 16 * p256(e) && !(c >= 1 && p256(e) / 2 <= v < p256(e)) {
                enc_sint(v).len() == 1 + e && enc_sint(v)[0] as int / 32 == c
            } else {
                enc_sint(v).len() == 1 + wclass_bytes(c) && enc_sint(v)[0] as int == 32 * (c + 1)
            }
        }),
{
    lemma_p256_values();
    let c = min_sclass(v);
    let e = wclass_extra(c);
    if -16 * p256(e) <= v < 16 * p256(e) && !(c >= 1 && p256(e) / 2 <= v < p256(e)) {
        let m = if v < 0 {
            (v + 32 * p256(e)) as nat
        } else {
            v as nat
        };
        let low = m / p256(e);
        lemma_be_bytes_len(m % p256(e), e);
        vstd::arithmetic::div_mod::lemma_multiply_divide_lt(m as int, p256(e) as int, 32);
        vstd::arithmetic::div_mod::lemma_fundamental_div_mod_converse(
            32 * c as int + low as int,
            32,
            c as int,
            low as int,
        );
        assert(enc_sint(v)[0] == (32 * c + low) as u8);
    } else {
        lemma_be_bytes_len(
            (if v < 0 {
                (v + p256(wclass_bytes(c))) as nat
            } else {
                v as nat
            }),
            wclass_bytes(c),
        );
        assert(enc_sint(v)[0] == (32 * (c + 1)) as u8);
    }
}

/// Small/large boundary for an unsigned width class: the last value of
/// the small range is rendered with no signature-only byte, the first
/// value beyond it with one; both read back to themselves.
pub proof fn lemma_boundary_unsigned(c: nat)
    requires
        1 <= c <= 4,
    ensures
        ({
            let e = wclass_extra(c);
            let top = 32 * p256(e);
            &&& enc_uint((top - 1) as nat).len() == 1 + e
            &&& enc_uint(top).len() == 1 + wclass_bytes(c)
            &&& enc_uint(top)[0] as int == 32 * (c + 1)
            &&& parse_uint(enc_uint((top - 1) as nat), 0, c) == (IntParse::Val {
                v: (top - 1) as nat,
                end: 1 + e as int,
            })
            &&& parse_uint(enc_uint(top), 0, c) == (IntParse::Val {
                v: top,
                end: 1 + wclass_bytes(c) as int,
            })
        }),
{
    lemma_p256_values();
    let e = wclass_extra(c);
    let top = 32 * p256(e);
    assert(min_uclass((top - 1) as nat) == c);
    assert(min_uclass(top) == c);
    lemma_narrowest_width_unsigned((top - 1) as nat);
    lemma_narrowest_width_unsigned(top);
    let s1 = enc_uint((top - 1) as nat);
    assert(s1.subrange(0, s1.len() as int) =~= s1);
    lemma_uint_roundtrip(s1, 0, (top - 1) as nat, c);
    let s2 = enc_uint(top);
    assert(s2.subrange(0, s2.len() as int) =~= s2);
    lemma_uint_roundtrip(s2, 0, top, c);
}

/// Small/large boundary for a signed width class, at both ends of the
/// small range.
pub proof fn lemma_boundary_signed(c: nat)
    requires
        1 <= c <= 4,
    ensures
        ({
            let e = wclass_extra(c);
            let top: int = 16 * (p256(e) as int);
            &&& enc_sint(top - 1).len() == 1 + e
            &&& enc_sint(top).len() == 1 + wclass_bytes(c)
            &&& enc_sint(-top).len() == 1 + e
            &&& enc_sint(-top - 1).len() == 1 + wclass_bytes(c)
            &&& parse_sint(enc_sint(top - 1), 0, c) == (IntParse::Val {
                v: top - 1,
                end: 1 + e as int,
            })
            &&& parse_sint(enc_sint(top), 0, c) == (IntParse::Val {
                v: top,
                end: 1 + wclass_bytes(c) as int,
            })
        }),
{
    lemma_p256_values();
    let e = wclass_extra(c);
    let top: int = 16 * (p256(e) as int);
    assert(min_sclass(top - 1) == c);
    assert(min_sclass(top) == c);
    assert(min_sclass(-top) == c);
    assert(min_sclass(-top - 1) == c);
    assert(enc_sint(top - 1).len() == 1 + e) by {
        lemma_be_bytes_len((top - 1) as nat % p256(e), e);
    }
    assert(enc_sint(top).len() == 1 + wclass_bytes(c)) by {
        lemma_be_bytes_len(top as nat, wclass_bytes(c));
    }
    assert(enc_sint(-top).len() == 1 + e) by {
        lemma_be_bytes_len((-top + 32 * p256(e)) as nat % p256(e), e);
    }
    assert(enc_sint(-top - 1).len() == 1 + wclass_bytes(c)) by {
        lemma_be_bytes_len((-top - 1 + p256(wclass_bytes(c))) as nat, wclass_bytes(c));
    }
    let s1 = enc_sint(top - 1);
    assert(s1.subrange(0, s1.len() as int) =~= s1);
    lemma_sint_roundtrip(s1, 0, top - 1, c);
    let s2 = enc_sint(top);
    assert(s2.subrange(0, s2.len() as int) =~= s2);
    lemma_sint_roundtrip(s2, 0, top, c);
}

/// A token run the reader produced from some byte run skips as a unit:
/// wherever that run stands in a token buffer, skipping the values it
/// holds lands exactly at its end.
pub proof fn lemma_skip_parsed(s: Seq<u8>, bpos: int, n: nat, toks: Seq<Tok>, t: Seq<Tok>, pos: int)
    requires
        0 <= bpos,
        0 <= pos,
        parse_n(s, bpos, n) matches ValueParse::Done { toks: tk, end } && tk == toks,
        pos + toks.len() <= t.len(),
        t.subrange(pos, pos + toks.len()) == toks,
    ensures
        tok_skip_n(t, pos, n) == Some(pos + toks.len()),
    decreases s.len() - bpos,
{
    if n == 0 {
        assert(toks =~= Seq::<Tok>::empty());
    } else {
        crate::de::lemma_parse_step_bound(s, bpos);
        lemma_parse_n_step(s, bpos, n);
        match parse_step(s, bpos) {
            StepParse::Step { t: tk0, end: bend } => {
                let rest = parse_n(s, bend, (n - 1 + tok_children(tk0)) as nat);
                match rest {
                    ValueParse::Done { toks: toks2, end } => {
                        assert(toks == seq![tk0] + toks2);
                        lemma_subrange_chain(t, pos, seq![tk0], toks2);
                        assert(t[pos] == tk0) by {
                            assert(t.subrange(pos, pos + 1)[0] == t[pos]);
                        }
                        lemma_skip_parsed(s, bend, (n - 1 + tok_children(tk0)) as nat, toks2, t, pos + 1);
                    },
                    _ => {
                        assert(false);
                    },
                }
            },
            _ => {
                assert(false);
            },
        }
    }
}

/// Structural skip: wherever one encoded value's token run stands in a
/// token buffer, skipping one value from its start advances the cursor by
/// exactly the run's length, however deeply nested the value is. A
/// structured decode of the value consumes that same run, so skipping and
/// decoding advance alike.
pub proof fn lemma_structural_skip(v: VTreeValue, style: FormatStyle, t: Seq<Tok>, pos: int)
    requires
        0 <= pos,
        pos + toks_of(v, style).len() <= t.len(),
        t.subrange(pos, pos + toks_of(v, style).len()) == toks_of(v, style),
    ensures
        tok_skip(t, pos) == Some(pos + toks_of(v, style).len()),
{
    lemma_roundtrip(v, style);
    lemma_skip_parsed(enc_value(v, style), 0, 1, toks_of(v, style), t, pos);
}

/// Malformed input: a buffer whose first byte is no type tag fails as an
/// invalid type; an empty buffer, as truncated. These are the reader's
/// only failure modes besides a bad codepoint or an over-wide integer,
/// and a failure never consumes the buffer as a value.
pub proof fn lemma_invalid_first_byte(s: Seq<u8>)
    ensures
        s.len() == 0 ==> parse_value(s) == ValueParse::Eof,
        s.len() > 0 && spec_tag_of_byte(s[0]) is None ==> parse_value(s) == ValueParse::BadTag(
            s[0],
        ),
{
}

/// Reading an unsigned integer from a truncation of the input either
/// reads the same value, when the truncation keeps all its bytes, or
/// runs out of input.
proof fn lemma_parse_uint_prefix(s: Seq<u8>, k: int, pos: int, r: nat)
    requires
        0 <= pos < k <= s.len(),
        r <= 4,
        parse_uint(s, pos, r) is Val,
    ensures
        ({
            let end = parse_uint(s, pos, r)->Val_end;
            &&& end <= k ==> parse_uint(s.take(k), pos, r) == parse_uint(s, pos, r)
            &&& end > k ==> parse_uint(s.take(k), pos, r) is Eof
        }),
{
    let t = s.take(k);
    assert(t[pos] == s[pos]);
    let end = parse_uint(s, pos, r)->Val_end;
    if end <= k {
        let sig = s[pos] as int / 32;
        if sig == r + 1 {
            let w = wclass_bytes(r);
            assert(t.subrange(pos + 1, pos + 1 + w) =~= s.subrange(pos + 1, pos + 1 + w));
        } else {
            let e = wclass_extra(sig as nat);
            assert(t.subrange(pos + 1, pos + 1 + e) =~= s.subrange(pos + 1, pos + 1 + e));
        }
    }
}

/// Reading a signed integer from a truncation of the input either reads
/// the same value, when the truncation keeps all its bytes, or runs out
/// of input.
proof fn lemma_parse_sint_prefix(s: Seq<u8>, k: int, pos: int, r: nat)
    requires
        0 <= pos < k <= s.len(),
        r <= 4,
        parse_sint(s, pos, r) is Val,
    ensures
        ({
            let end = parse_sint(s, pos, r)->Val_end;
            &&& end <= k ==> parse_sint(s.take(k), pos, r) == parse_sint(s, pos, r)
            &&& end > k ==> parse_sint(s.take(k), pos, r) is Eof
        }),
{
    let t = s.take(k);
    assert(t[pos] == s[pos]);
    let end = parse_sint(s, pos, r)->Val_end;
    if end <= k {
        let sig = s[pos] as int / 32;
        if sig == r + 1 {
            let w = wclass_bytes(r);
            assert(t.subrange(pos + 1, pos + 1 + w) =~= s.subrange(pos + 1, pos + 1 + w));
        } else if sig >= 1 {
            let e = wclass_extra(sig as nat);
            assert(t.subrange(pos + 1, pos + 1 + e) =~= s.subrange(pos + 1, pos + 1 + e));
        }
    }
}

/// Reading a primitive payload from a truncation of the input either
/// reads the same token, when the truncation keeps all its bytes, or
/// runs out of input.
proof fn lemma_parse_prim_prefix(s: Seq<u8>, k: int, pos: int, ty: VType)
    requires
        0 <= pos <= k <= s.len(),
        parse_prim(s, pos, ty) is Tok,
    ensures
        ({
            let end = parse_prim(s, pos, ty)->Tok_end;
            &&& end <= k ==> parse_prim(s.take(k), pos, ty) == parse_prim(s, pos, ty)
            &&& end > k ==> parse_prim(s.take(k), pos, ty) is Eof
        }),
{
    let t = s.take(k);
    crate::de::lemma_parse_prim_bound(s, pos, ty);
    match ty {
        VType::I8 => {
            if pos < k {
                lemma_parse_sint_prefix(s, k, pos, 0);
            }
        },
        VType::I16 => {
            if pos < k {
                lemma_parse_sint_prefix(s, k, pos, 1);
            }
        },
        VType::I32 => {
            if pos < k {
                lemma_parse_sint_prefix(s, k, pos, 2);
            }
        },
        VType::I64 => {
            if pos < k {
                lemma_parse_sint_prefix(s, k, pos, 3);
            }
        },
        VType::I128 => {
            if pos < k {
                lemma_parse_sint_prefix(s, k, pos, 4);
            }
        },
        VType::U8 => {
            if pos < k {
                lemma_parse_uint_prefix(s, k, pos, 0);
            }
        },
        VType::U16 => {
            if pos < k {
                lemma_parse_uint_prefix(s, k, pos, 1);
            }
        },
        VType::U32 => {
            if pos < k {
                lemma_parse_uint_prefix(s, k, pos, 2);
            }
        },
        VType::U64 => {
            if pos < k {
                lemma_parse_uint_prefix(s, k, pos, 3);
            }
        },
        VType::U128 => {
            if pos < k {
                lemma_parse_uint_prefix(s, k, pos, 4);
            }
        },
        VType::F32 => {
            if pos + 4 <= k {
                assert(t.subrange(pos, pos + 4) =~= s.subrange(pos, pos + 4));
            }
        },
        VType::F64 => {
            if pos + 8 <= k {
                assert(t.subrange(pos, pos + 8) =~= s.subrange(pos, pos + 8));
            }
        },
        VType::Char => {
            if pos < k {
                lemma_parse_uint_prefix(s, k, pos, 2);
            }
        },
        VType::Bin => {
            if pos < k {
                lemma_parse_uint_prefix(s, k, pos, 3);
                match parse_uint(s, pos, 3) {
                    IntParse::Val { v, end } => {
                        if end + v <= k {
                            assert(t.subrange(end, end + v) =~= s.subrange(end, end + v));
                        }
                    },
                    _ => {},
                }
            }
        },
        _ => {},
    }
}

/// Reading one token from a truncation of the input either reads the
/// same token, when the truncation keeps all its bytes, or runs out.
proof fn lemma_parse_step_prefix(s: Seq<u8>, k: int, pos: int)
    requires
        0 <= pos <= k <= s.len(),
        parse_step(s, pos) is Step,
    ensures
        ({
            let end = parse_step(s, pos)->Step_end;
            &&& end <= k ==> parse_step(s.take(k), pos) == parse_step(s, pos)
            &&& end > k ==> parse_step(s.take(k), pos) is Eof
        }),
{
    let t = s.take(k);
    crate::de::lemma_parse_step_bound(s, pos);
    if pos < k {
        assert(t[pos] == s[pos]);
        match spec_tag_of_byte(s[pos]) {
            Option::Some(ty) => match ty {
                VType::OptSome => {},
                VType::Pair => {},
                VType::List => {
                    if pos + 1 < k {
                        lemma_parse_uint_prefix(s, k, pos + 1, 3);
                    }
                },
                VType::Dict => {
                    if pos + 1 < k {
                        lemma_parse_uint_prefix(s, k, pos + 1, 3);
                    }
                },
                _ => {
                    lemma_parse_prim_prefix(s, k, pos + 1, ty);
                },
            },
            Option::None => {},
        }
    }
}

/// A completed read of a run of tokens spans from its start to its end,
/// inside the input.
pub proof fn lemma_parse_n_end_bound(s: Seq<u8>, pos: int, n: nat)
    requires
        0 <= pos <= s.len(),
        parse_n(s, pos, n) is Done,
    ensures
        pos <= parse_n(s, pos, n)->Done_end <= s.len(),
    decreases s.len() - pos,
{
    if n > 0 {
        lemma_parse_n_step(s, pos, n);
        crate::de::lemma_parse_step_bound(s, pos);
        match parse_step(s, pos) {
            StepParse::Step { t, end } => {
                lemma_parse_n_end_bound(s, end, (n - 1 + tok_children(t)) as nat);
            },
            _ => {},
        }
    }
}

/// Reading a run of tokens from a truncation of the input either reads
/// the same run, when the truncation keeps all its bytes, or runs out.
proof fn lemma_parse_n_prefix(s: Seq<u8>, k: int, pos: int, n: nat)
    requires
        0 <= pos <= k <= s.len(),
        parse_n(s, pos, n) is Done,
    ensures
        ({
            let end = parse_n(s, pos, n)->Done_end;
            &&& end <= k ==> parse_n(s.take(k), pos, n) == parse_n(s, pos, n)
            &&& end > k ==> parse_n(s.take(k), pos, n) is Eof
        }),
    decreases s.len() - pos,
{
    let t = s.take(k);
    if n == 0 {
    } else {
        lemma_parse_n_step(s, pos, n);
        lemma_parse_n_step(t, pos, n);
        crate::de::lemma_parse_step_bound(s, pos);
        match parse_step(s, pos) {
            StepParse::Step { t: tk, end: end1 } => {
                let rest = parse_n(s, end1, (n - 1 + tok_children(tk)) as nat);
                lemma_parse_n_end_bound(s, end1, (n - 1 + tok_children(tk)) as nat);
                lemma_parse_step_prefix(s, k, pos);
                if end1 > k {
                } else {
                    lemma_parse_n_prefix(s, k, end1, (n - 1 + tok_children(tk)) as nat);
                }
            },
            _ => {
                assert(false);
            },
        }
    }
}

/// Malformed input: every strict truncation of a value's bytes fails as
/// truncated input, whatever the value and wherever the cut falls.
pub proof fn lemma_truncation(v: VTreeValue, style: FormatStyle, k: int)
    requires
        0 <= k < enc_value(v, style).len(),
    ensures
        parse_value(enc_value(v, style).take(k)) == ValueParse::Eof,
{
    let s = enc_value(v, style);
    lemma_roundtrip(v, style);
    lemma_parse_n_prefix(s, k, 0, 1);
}

/// Whether a token run is a faithful rendering of a value tree: each
/// primitive as its single token, each container as its count and its
/// children in order, and each record or tagged-union head in either of
/// the two styles, whichever the writer chose. This is exactly what the
/// cursor's record access accepts, since the stream does not record the
/// style.
pub open spec fn renders(v: VTreeValue, toks: Seq<Tok>) -> bool
    decreases v, 1int,
{
    match v {
        VTreeValue::Null => toks == seq![Tok::Null],
        VTreeValue::Bool(b) => toks == seq![Tok::Bool(b)],
        VTreeValue::I8(x) => toks == seq![Tok::I8(x)],
        VTreeValue::I16(x) => toks == seq![Tok::I16(x)],
        VTreeValue::I32(x) => toks == seq![Tok::I32(x)],
        VTreeValue::I64(x) => toks == seq![Tok::I64(x)],
        VTreeValue::I128(x) => toks == seq![Tok::I128(x)],
        VTreeValue::U8(x) => toks == seq![Tok::U8(x)],
        VTreeValue::U16(x) => toks == seq![Tok::U16(x)],
        VTreeValue::U32(x) => toks == seq![Tok::U32(x)],
        VTreeValue::U64(x) => toks == seq![Tok::U64(x)],
        VTreeValue::U128(x) => toks == seq![Tok::U128(x)],
        VTreeValue::F32(bits) => toks == seq![Tok::F32(bits)],
        VTreeValue::F64(bits) => toks == seq![Tok::F64(bits)],
        VTreeValue::Char(c) => toks == seq![Tok::Char(c)],
        VTreeValue::Bin(b) => toks == seq![Tok::Bin(b@)],
        VTreeValue::Opt(o) => match o {
            Option::None => toks == seq![Tok::Opt(false)],
            Option::Some(inner) => toks.len() >= 1 && toks[0] == Tok::Opt(true) && renders(
                *inner,
                toks.drop_first(),
            ),
        },
        VTreeValue::List(items) => toks.len() >= 1 && toks[0] == Tok::List(items@.len())
            && renders_items(items@, toks.drop_first()),
        VTreeValue::Dict(pairs) => toks.len() >= 1 && toks[0] == Tok::Dict(pairs@.len())
            && renders_pairs(pairs@, toks.drop_first()),
        VTreeValue::Pair(a, b) => toks.len() >= 1 && toks[0] == Tok::Pair && exists|k: int|
            0 <= k <= toks.len() - 1 && renders(*a, #[trigger] toks.drop_first().take(k))
                && renders(*b, toks.drop_first().skip(k)),
        VTreeValue::Record(fields) => renders_record(fields@, toks),
        VTreeValue::UnitVariant(index, name) => toks == seq![Tok::U32(index)] || toks == seq![
            Tok::Bin(name@),
        ],
        VTreeValue::NewtypeVariant(index, name, payload) => toks.len() >= 2 && toks[0] == Tok::Pair
            && (toks[1] == Tok::U32(index) || toks[1] == Tok::Bin(name@)) && renders(
            *payload,
            toks.skip(2),
        ),
        VTreeValue::TupleVariant(index, name, items) => toks.len() >= 3 && toks[0] == Tok::Pair
            && (toks[1] == Tok::U32(index) || toks[1] == Tok::Bin(name@)) && toks[2] == Tok::List(
            items@.len(),
        ) && renders_items(items@, toks.skip(3)),
        VTreeValue::StructVariant(index, name, fields) => toks.len() >= 2 && toks[0] == Tok::Pair
            && (toks[1] == Tok::U32(index) || toks[1] == Tok::Bin(name@)) && renders_record(
            fields@,
            toks.skip(2),
        ),
    }
}

/// Whether a token run is the renderings of a run of values, in order.
pub open spec fn renders_items(items: Seq<VTreeValue>, toks: Seq<Tok>) -> bool
    decreases items, 1int,
{
    if items.len() == 0 {
        toks.len() == 0
    } else {
        exists|k: int|
            0 <= k <= toks.len() && renders(items[0], #[trigger] toks.take(k)) && renders_items(
                items.drop_first(),
                toks.skip(k),
            )
    }
}

/// Whether a token run is the renderings of a run of pairs, each key
/// before its value.
pub open spec fn renders_pairs(pairs: Seq<(VTreeValue, VTreeValue)>, toks: Seq<Tok>) -> bool
    decreases pairs, 1int,
{
    if pairs.len() == 0 {
        toks.len() == 0
    } else {
        exists|k: int, j: int|
            0 <= k <= j <= toks.len() && renders(pairs[0].0, #[trigger] toks.take(k)) && renders(
                pairs[0].1,
                #[trigger] toks.subrange(k, j),
            ) && renders_pairs(pairs.drop_first(), toks.skip(j))
    }
}

/// Whether a token run is a record's rendering: a list of the field
/// values or a dictionary of the field names and values.
pub open spec fn renders_record(fields: Seq<(Vec<u8>, VTreeValue)>, toks: Seq<Tok>) -> bool
    decreases fields, 2int,
{
    ||| (toks.len() >= 1 && toks[0] == Tok::List(fields.len()) && renders_field_values(
        fields,
        toks.drop_first(),
    ))
    ||| (toks.len() >= 1 && toks[0] == Tok::Dict(fields.len()) && renders_named_fields(
        fields,
        toks.drop_first(),
    ))
}

/// Whether a token run is the renderings of a record's field values.
pub open spec fn renders_field_values(fields: Seq<(Vec<u8>, VTreeValue)>, toks: Seq<Tok>) -> bool
    decreases fields, 1int,
{
    if fields.len() == 0 {
        toks.len() == 0
    } else {
        exists|k: int|
            0 <= k <= toks.len() && renders(fields[0].1, #[trigger] toks.take(k))
                && renders_field_values(fields.drop_first(), toks.skip(k))
    }
}

/// Whether a token run is the renderings of a record's fields, each name
/// before its value.
pub open spec fn renders_named_fields(fields: Seq<(Vec<u8>, VTreeValue)>, toks: Seq<Tok>) -> bool
    decreases fields, 1int,
{
    if fields.len() == 0 {
        toks.len() == 0
    } else {
        toks.len() >= 1 && toks[0] == Tok::Bin(fields[0].0@) && exists|k: int|
            0 <= k <= toks.len() - 1 && renders(fields[0].1, #[trigger] toks.drop_first().take(k))
                && renders_named_fields(fields.drop_first(), toks.drop_first().skip(k))
    }
}

/// Style equivalence in full: under either style, a value's token run is
/// a faithful rendering of that same value. A decoder that accepts both
/// record forms therefore reconstructs identical values from the compact
/// and the expressive encoding of any value, however nested.
pub proof fn lemma_style_equivalence(v: VTreeValue, style: FormatStyle)
    ensures
        renders(v, toks_of(v, style)),
    decreases v, 2int,
{
    let toks = toks_of(v, style);
    match v {
        VTreeValue::Opt(o) => match o {
            Option::Some(inner) => {
                lemma_style_equivalence(*inner, style);
                assert(toks.drop_first() =~= toks_of(*inner, style));
            },
            Option::None => {},
        },
        VTreeValue::List(items) => {
            assert(spec_vec_len(&items) == items@.len());
            lemma_renders_items(items@, style);
            assert(toks.drop_first() =~= toks_items(items@, style));
        },
        VTreeValue::Dict(pairs) => {
            assert(spec_vec_len(&pairs) == pairs@.len());
            lemma_renders_pairs(pairs@, style);
            assert(toks.drop_first() =~= toks_dict_pairs(pairs@, style));
        },
        VTreeValue::Pair(a, b) => {
            lemma_style_equivalence(*a, style);
            lemma_style_equivalence(*b, style);
            let ta = toks_of(*a, style);
            let tb = toks_of(*b, style);
            let rest = toks.drop_first();
            assert(rest =~= ta + tb);
            assert(rest.take(ta.len() as int) =~= ta);
            assert(rest.skip(ta.len() as int) =~= tb);
        },
        VTreeValue::Record(fields) => {
            lemma_renders_record(fields@, style);
        },
        VTreeValue::UnitVariant(index, name) => {},
        VTreeValue::NewtypeVariant(index, name, payload) => {
            lemma_style_equivalence(*payload, style);
            assert(toks.skip(2) =~= toks_of(*payload, style));
        },
        VTreeValue::TupleVariant(index, name, items) => {
            assert(spec_vec_len(&items) == items@.len());
            lemma_renders_items(items@, style);
            assert(toks.skip(3) =~= toks_items(items@, style));
        },
        VTreeValue::StructVariant(index, name, fields) => {
            lemma_renders_record(fields@, style);
            assert(toks.skip(2) =~= toks_record(fields@, style));
        },
        _ => {},
    }
}

proof fn lemma_renders_items(items: Seq<VTreeValue>, style: FormatStyle)
    ensures
        renders_items(items, toks_items(items, style)),
    decreases items, 2int,
{
    if items.len() > 0 {
        lemma_style_equivalence(items[0], style);
        lemma_renders_items(items.drop_first(), style);
        let t0 = toks_of(items[0], style);
        let toks = toks_items(items, style);
        assert(toks.take(t0.len() as int) =~= t0);
        assert(toks.skip(t0.len() as int) =~= toks_items(items.drop_first(), style));
    }
}

proof fn lemma_renders_pairs(pairs: Seq<(VTreeValue, VTreeValue)>, style: FormatStyle)
    ensures
        renders_pairs(pairs, toks_dict_pairs(pairs, style)),
    decreases pairs, 2int,
{
    if pairs.len() > 0 {
        lemma_style_equivalence(pairs[0].0, style);
        lemma_style_equivalence(pairs[0].1, style);
        lemma_renders_pairs(pairs.drop_first(), style);
        let tk = toks_of(pairs[0].0, style);
        let tv = toks_of(pairs[0].1, style);
        let toks = toks_dict_pairs(pairs, style);
        assert(toks.take(tk.len() as int) =~= tk);
        assert(toks.subrange(tk.len() as int, (tk.len() + tv.len()) as int) =~= tv);
        assert(toks.skip((tk.len() + tv.len()) as int) =~= toks_dict_pairs(pairs.drop_first(), style));
    }
}

proof fn lemma_renders_record(fields: Seq<(Vec<u8>, VTreeValue)>, style: FormatStyle)
    ensures
        renders_record(fields, toks_record(fields, style)),
    decreases fields, 3int,
{
    match style {
        FormatStyle::Compact => {
            lemma_renders_field_values(fields, style);
            assert(toks_record(fields, style).drop_first() =~= toks_field_values(fields, style));
        },
        FormatStyle::Expressive => {
            lemma_renders_named_fields(fields, style);
            assert(toks_record(fields, style).drop_first() =~= toks_named_fields(fields, style));
        },
    }
}

proof fn lemma_renders_field_values(fields: Seq<(Vec<u8>, VTreeValue)>, style: FormatStyle)
    ensures
        renders_field_values(fields, toks_field_values(fields, style)),
    decreases fields, 2int,
{
    if fields.len() > 0 {
        lemma_style_equivalence(fields[0].1, style);
        lemma_renders_field_values(fields.drop_first(), style);
        let t0 = toks_of(fields[0].1, style);
        let toks = toks_field_values(fields, style);
        assert(toks.take(t0.len() as int) =~= t0);
        assert(toks.skip(t0.len() as int) =~= toks_field_values(fields.drop_first(), style));
    }
}

proof fn lemma_renders_named_fields(fields: Seq<(Vec<u8>, VTreeValue)>, style: FormatStyle)
    ensures
        renders_named_fields(fields, toks_named_fields(fields, style)),
    decreases fields, 2int,
{
    if fields.len() > 0 {
        lemma_style_equivalence(fields[0].1, style);
        lemma_renders_named_fields(fields.drop_first(), style);
        let t0 = toks_of(fields[0].1, style);
        let toks = toks_named_fields(fields, style);
        assert(toks.drop_first().take(t0.len() as int) =~= t0);
        assert(toks.drop_first().skip(t0.len() as int) =~= toks_named_fields(
            fields.drop_first(),
            style,
        ));
    }
}

} // verus!
