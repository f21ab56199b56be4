//! The value writer: serializes a typed value tree into the tag-and-payload
//! byte format, under a chosen format style. Primitives are one tag byte
//! followed by their numeric payload; containers are a tag, a count, and
//! their children in order. Records and tagged-union metadata are rendered
//! as ordinal indexes under the compact style and as name strings under
//! the expressive style; nothing else depends on the style, and the style
//! itself is not recorded in the stream.
use vstd::prelude::*;
use crate::num::{be_bytes, enc_sint, enc_uint, lemma_p256_values, wr_sint, wr_uint, write_be};
use crate::types::{spec_tag_byte, FormatStyle, VTreeValue, VType};

verus! {

broadcast use
    vstd::std_specs::vec::axiom_vec_index_decreases,
    vstd::std_specs::vec::axiom_vec_decreases_to_view;

/// The bytes of a byte-string value: tag, count, raw bytes.
pub open spec fn enc_bin(b: Seq<u8>) -> Seq<u8> {
    seq![spec_tag_byte(VType::Bin)].add(enc_uint(b.len())).add(b)
}

/// The bytes of a tagged-union head: the variant's ordinal index under the
/// compact style, its name as a byte string under the expressive style.
pub open spec fn enc_variant_head(index: u32, name: Seq<u8>, style: FormatStyle) -> Seq<u8> {
    match style {
        FormatStyle::Compact => seq![spec_tag_byte(VType::U32)].add(enc_uint(index as nat)),
        FormatStyle::Expressive => enc_bin(name),
    }
}

/// The bytes of a whole value tree under a style.
pub open spec fn enc_value(v: VTreeValue, style: FormatStyle) -> Seq<u8>
    decreases v, 0int,
{
    match v {
        VTreeValue::Null => seq![spec_tag_byte(VType::Null)],
        VTreeValue::Bool(b) => if b {
            seq![spec_tag_byte(VType::True)]
        } else {
            seq![spec_tag_byte(VType::False)]
        },
        VTreeValue::I8(x) => seq![spec_tag_byte(VType::I8)].add(enc_sint(x as int)),
        VTreeValue::I16(x) => seq![spec_tag_byte(VType::I16)].add(enc_sint(x as int)),
        VTreeValue::I32(x) => seq![spec_tag_byte(VType::I32)].add(enc_sint(x as int)),
        VTreeValue::I64(x) => seq![spec_tag_byte(VType::I64)].add(enc_sint(x as int)),
        VTreeValue::I128(x) => seq![spec_tag_byte(VType::I128)].add(enc_sint(x as int)),
        VTreeValue::U8(x) => seq![spec_tag_byte(VType::U8)].add(enc_uint(x as nat)),
        VTreeValue::U16(x) => seq![spec_tag_byte(VType::U16)].add(enc_uint(x as nat)),
        VTreeValue::U32(x) => seq![spec_tag_byte(VType::U32)].add(enc_uint(x as nat)),
        VTreeValue::U64(x) => seq![spec_tag_byte(VType::U64)].add(enc_uint(x as nat)),
        VTreeValue::U128(x) => seq![spec_tag_byte(VType::U128)].add(enc_uint(x as nat)),
        VTreeValue::F32(bits) => seq![spec_tag_byte(VType::F32)].add(be_bytes(bits as nat, 4)),
        VTreeValue::F64(bits) => seq![spec_tag_byte(VType::F64)].add(be_bytes(bits as nat, 8)),
        VTreeValue::Char(c) => seq![spec_tag_byte(VType::Char)].add(enc_uint((c as u32) as nat)),
        VTreeValue::Bin(b) => enc_bin(b@),
        VTreeValue::Opt(o) => match o {
            Option::None => seq![spec_tag_byte(VType::OptNone)],
            Option::Some(inner) => seq![spec_tag_byte(VType::OptSome)].add(
                enc_value(*inner, style),
            ),
        },
        VTreeValue::List(items) => seq![spec_tag_byte(VType::List)].add(
            enc_uint(items@.len()),
        ).add(enc_items(items@, style)),
        VTreeValue::Dict(pairs) => seq![spec_tag_byte(VType::Dict)].add(
            enc_uint(pairs@.len()),
        ).add(enc_dict_pairs(pairs@, style)),
        VTreeValue::Pair(a, b) => seq![spec_tag_byte(VType::Pair)].add(
            enc_value(*a, style),
        ).add(enc_value(*b, style)),
        VTreeValue::Record(fields) => enc_record(fields@, style),
        VTreeValue::UnitVariant(index, name) => enc_variant_head(index, name@, style),
        VTreeValue::NewtypeVariant(index, name, payload) => seq![spec_tag_byte(VType::Pair)].add(
            enc_variant_head(index, name@, style),
        ).add(enc_value(*payload, style)),
        VTreeValue::TupleVariant(index, name, items) => seq![spec_tag_byte(VType::Pair)].add(
            enc_variant_head(index, name@, style),
        ).add(seq![spec_tag_byte(VType::List)]).add(enc_uint(items@.len())).add(
            enc_items(items@, style),
        ),
        VTreeValue::StructVariant(index, name, fields) => seq![spec_tag_byte(VType::Pair)].add(
            enc_variant_head(index, name@, style),
        ).add(enc_record(fields@, style)),
    }
}

/// The bytes of a run of values, in order.
pub open spec fn enc_items(items: Seq<VTreeValue>, style: FormatStyle) -> Seq<u8>
    decreases items, 0int,
{
    if items.len() == 0 {
        Seq::empty()
    } else {
        enc_value(items[0], style).add(enc_items(items.drop_first(), style))
    }
}

/// The bytes of a run of key-value pairs, each key before its value.
pub open spec fn enc_dict_pairs(pairs: Seq<(VTreeValue, VTreeValue)>, style: FormatStyle) -> Seq<
    u8,
>
    decreases pairs, 0int,
{
    if pairs.len() == 0 {
        Seq::empty()
    } else {
        enc_value(pairs[0].0, style).add(enc_value(pairs[0].1, style)).add(
            enc_dict_pairs(pairs.drop_first(), style),
        )
    }
}

/// The bytes of a record: a list of the field values in declared order
/// under the compact style, a dictionary keyed by the field names under
/// the expressive style.
pub open spec fn enc_record(fields: Seq<(Vec<u8>, VTreeValue)>, style: FormatStyle) -> Seq<u8>
    decreases fields, 1int,
{
    match style {
        FormatStyle::Compact => seq![spec_tag_byte(VType::List)].add(enc_uint(fields.len())).add(
            enc_field_values(fields, style),
        ),
        FormatStyle::Expressive => seq![spec_tag_byte(VType::Dict)].add(
            enc_uint(fields.len()),
        ).add(enc_named_fields(fields, style)),
    }
}

/// The bytes of a record's field values alone, in order.
pub open spec fn enc_field_values(fields: Seq<(Vec<u8>, VTreeValue)>, style: FormatStyle) -> Seq<
    u8,
>
    decreases fields, 0int,
{
    if fields.len() == 0 {
        Seq::empty()
    } else {
        enc_value(fields[0].1, style).add(enc_field_values(fields.drop_first(), style))
    }
}

/// The bytes of a record's fields with each name, as a byte string, before
/// its value.
pub open spec fn enc_named_fields(fields: Seq<(Vec<u8>, VTreeValue)>, style: FormatStyle) -> Seq<
    u8,
>
    decreases fields, 0int,
{
    if fields.len() == 0 {
        Seq::empty()
    } else {
        enc_bin(fields[0].0@).add(enc_value(fields[0].1, style)).add(
            enc_named_fields(fields.drop_first(), style),
        )
    }
}

/// Appending one more value extends the bytes of a run of values.
pub proof fn lemma_enc_items_push(items: Seq<VTreeValue>, x: VTreeValue, style: FormatStyle)
    ensures
        enc_items(items.push(x), style) == enc_items(items, style) + enc_value(x, style),
    decreases items.len(),
{
    if items.len() == 0 {
        assert(items.push(x).drop_first() =~= Seq::<VTreeValue>::empty());
        assert(items.push(x)[0] == x);
        assert(items.push(x).len() == 1);
        assert(enc_items(items.push(x), style) == enc_value(x, style).add(
            enc_items(Seq::<VTreeValue>::empty(), style),
        ));
        assert(enc_items(items.push(x), style) =~= enc_items(items, style) + enc_value(x, style));
    } else {
        assert(items.push(x).drop_first() =~= items.drop_first().push(x));
        lemma_enc_items_push(items.drop_first(), x, style);
        assert(enc_items(items.push(x), style) =~= enc_items(items, style) + enc_value(x, style));
    }
}

/// Appending one more pair extends the bytes of a run of pairs.
pub proof fn lemma_enc_dict_pairs_push(
    pairs: Seq<(VTreeValue, VTreeValue)>,
    x: (VTreeValue, VTreeValue),
    style: FormatStyle,
)
    ensures
        enc_dict_pairs(pairs.push(x), style) == enc_dict_pairs(pairs, style) + enc_value(
            x.0,
            style,
        ) + enc_value(x.1, style),
    decreases pairs.len(),
{
    if pairs.len() == 0 {
        assert(pairs.push(x).drop_first() =~= Seq::<(VTreeValue, VTreeValue)>::empty());
        assert(pairs.push(x)[0] == x);
        assert(enc_dict_pairs(pairs.push(x), style) == enc_value(x.0, style).add(
            enc_value(x.1, style),
        ).add(enc_dict_pairs(Seq::<(VTreeValue, VTreeValue)>::empty(), style)));
        assert(enc_dict_pairs(pairs.push(x), style) =~= enc_dict_pairs(pairs, style) + enc_value(
            x.0,
            style,
        ) + enc_value(x.1, style));
    } else {
        assert(pairs.push(x).drop_first() =~= pairs.drop_first().push(x));
        lemma_enc_dict_pairs_push(pairs.drop_first(), x, style);
        assert(enc_dict_pairs(pairs.push(x), style) =~= enc_dict_pairs(pairs, style) + enc_value(
            x.0,
            style,
        ) + enc_value(x.1, style));
    }
}

/// Appending one more field extends the bytes of a record's field values.
pub proof fn lemma_enc_field_values_push(
    fields: Seq<(Vec<u8>, VTreeValue)>,
    x: (Vec<u8>, VTreeValue),
    style: FormatStyle,
)
    ensures
        enc_field_values(fields.push(x), style) == enc_field_values(fields, style) + enc_value(
            x.1,
            style,
        ),
    decreases fields.len(),
{
    if fields.len() == 0 {
        assert(fields.push(x).drop_first() =~= Seq::<(Vec<u8>, VTreeValue)>::empty());
        assert(fields.push(x)[0] == x);
        assert(enc_field_values(fields.push(x), style) == enc_value(x.1, style).add(
            enc_field_values(Seq::<(Vec<u8>, VTreeValue)>::empty(), style),
        ));
        assert(enc_field_values(fields.push(x), style) =~= enc_field_values(fields, style)
            + enc_value(x.1, style));
    } else {
        assert(fields.push(x).drop_first() =~= fields.drop_first().push(x));
        lemma_enc_field_values_push(fields.drop_first(), x, style);
        assert(enc_field_values(fields.push(x), style) =~= enc_field_values(fields, style)
            + enc_value(x.1, style));
    }
}

/// Appending one more field extends the bytes of a record's named fields.
pub proof fn lemma_enc_named_fields_push(
    fields: Seq<(Vec<u8>, VTreeValue)>,
    x: (Vec<u8>, VTreeValue),
    style: FormatStyle,
)
    ensures
        enc_named_fields(fields.push(x), style) == enc_named_fields(fields, style) + enc_bin(x.0@)
            + enc_value(x.1, style),
    decreases fields.len(),
{
    if fields.len() == 0 {
        assert(fields.push(x).drop_first() =~= Seq::<(Vec<u8>, VTreeValue)>::empty());
        assert(fields.push(x)[0] == x);
        assert(enc_named_fields(fields.push(x), style) == enc_bin(x.0@).add(
            enc_value(x.1, style),
        ).add(enc_named_fields(Seq::<(Vec<u8>, VTreeValue)>::empty(), style)));
        assert(enc_named_fields(fields.push(x), style) =~= enc_named_fields(fields, style)
            + enc_bin(x.0@) + enc_value(x.1, style));
    } else {
        assert(fields.push(x).drop_first() =~= fields.drop_first().push(x));
        lemma_enc_named_fields_push(fields.drop_first(), x, style);
        assert(enc_named_fields(fields.push(x), style) =~= enc_named_fields(fields, style)
            + enc_bin(x.0@) + enc_value(x.1, style));
    }
}

/// The streaming serializer: a byte sink and the style chosen at encode
/// time. Each method appends the exact bytes of what it names; container
/// headers are written first and the caller then writes the children.
pub struct Serializer {
    /// the byte sink
    pub output: Vec<u8>,
    /// the chosen rendering of record and tagged-union metadata
    pub style: FormatStyle,
}

impl Serializer {
    /// A serializer writing to `output` under `style`.
    pub fn new(output: Vec<u8>, style: FormatStyle) -> (s: Serializer)
        ensures
            s.output == output,
            s.style == style,
    {
        Serializer { output, style }
    }

    /// Append raw bytes to the sink.
    pub fn wr(&mut self, data: &[u8])
        ensures
            final(self).output@ == old(self).output@ + data@,
            final(self).style == old(self).style,
    {
        self.output.extend_from_slice(data);
        assert(self.output@ =~= old(self).output@ + data@);
    }

    /// Append one type tag byte.
    pub fn wr_type(&mut self, t: VType)
        ensures
            final(self).output@ == old(self).output@ + seq![spec_tag_byte(t)],
            final(self).style == old(self).style,
    {
        self.output.push(t.tag_byte());
        assert(self.output@ =~= old(self).output@ + seq![spec_tag_byte(t)]);
    }

    /// Append the encoding of a signed integer of any width.
    pub fn wr_int(&mut self, v: i128)
        ensures
            final(self).output@ == old(self).output@ + enc_sint(v as int),
            final(self).style == old(self).style,
    {
        wr_sint(&mut self.output, v);
    }

    /// Append the encoding of an unsigned integer of any width.
    pub fn wr_uint(&mut self, v: u128)
        ensures
            final(self).output@ == old(self).output@ + enc_uint(v as nat),
            final(self).style == old(self).style,
    {
        wr_uint(&mut self.output, v);
    }

    /// Append the raw big-endian bytes of a 32-bit float's bit pattern.
    pub fn wr_f32_bits(&mut self, bits: u32)
        ensures
            final(self).output@ == old(self).output@ + be_bytes(bits as nat, 4),
            final(self).style == old(self).style,
    {
        proof {
            lemma_p256_values();
        }
        write_be(&mut self.output, bits as u128, 4);
    }

    /// Append the raw big-endian bytes of a 64-bit float's bit pattern.
    pub fn wr_f64_bits(&mut self, bits: u64)
        ensures
            final(self).output@ == old(self).output@ + be_bytes(bits as nat, 8),
            final(self).style == old(self).style,
    {
        proof {
            lemma_p256_values();
        }
        write_be(&mut self.output, bits as u128, 8);
    }

    /// Write a boolean: its whole encoding is its tag.
    pub fn serialize_bool(&mut self, v: bool)
        ensures
            final(self).output@ == old(self).output@ + enc_value(VTreeValue::Bool(v), old(self).style),
            final(self).style == old(self).style,
    {
        if v {
            self.wr_type(VType::True)
        } else {
            self.wr_type(VType::False)
        }
    }

    /// Write a signed 8-bit integer: tag, then numeric payload.
    pub fn serialize_i8(&mut self, v: i8)
        ensures
            final(self).output@ == old(self).output@ + enc_value(VTreeValue::I8(v), old(self).style),
            final(self).style == old(self).style,
    {
        self.wr_type(VType::I8);
        self.wr_int(v as i128);
        assert(self.output@ =~= old(self).output@ + enc_value(VTreeValue::I8(v), old(self).style));
    }

    /// Write a signed 16-bit integer: tag, then numeric payload.
    pub fn serialize_i16(&mut self, v: i16)
        ensures
            final(self).output@ == old(self).output@ + enc_value(VTreeValue::I16(v), old(self).style),
            final(self).style == old(self).style,
    {
        self.wr_type(VType::I16);
        self.wr_int(v as i128);
        assert(self.output@ =~= old(self).output@ + enc_value(VTreeValue::I16(v), old(self).style));
    }

    /// Write a signed 32-bit integer: tag, then numeric payload.
    pub fn serialize_i32(&mut self, v: i32)
        ensures
            final(self).output@ == old(self).output@ + enc_value(VTreeValue::I32(v), old(self).style),
            final(self).style == old(self).style,
    {
        self.wr_type(VType::I32);
        self.wr_int(v as i128);
        assert(self.output@ =~= old(self).output@ + enc_value(VTreeValue::I32(v), old(self).style));
    }

    /// Write a signed 64-bit integer: tag, then numeric payload.
    pub fn serialize_i64(&mut self, v: i64)
        ensures
            final(self).output@ == old(self).output@ + enc_value(VTreeValue::I64(v), old(self).style),
            final(self).style == old(self).style,
    {
        self.wr_type(VType::I64);
        self.wr_int(v as i128);
        assert(self.output@ =~= old(self).output@ + enc_value(VTreeValue::I64(v), old(self).style));
    }

    /// Write a signed 128-bit integer: tag, then numeric payload.
    pub fn serialize_i128(&mut self, v: i128)
        ensures
            final(self).output@ == old(self).output@ + enc_value(VTreeValue::I128(v), old(self).style),
            final(self).style == old(self).style,
    {
        self.wr_type(VType::I128);
        self.wr_int(v);
        assert(self.output@ =~= old(self).output@ + enc_value(VTreeValue::I128(v), old(self).style));
    }

    /// Write an unsigned 8-bit integer: tag, then numeric payload.
    pub fn serialize_u8(&mut self, v: u8)
        ensures
            final(self).output@ == old(self).output@ + enc_value(VTreeValue::U8(v), old(self).style),
            final(self).style == old(self).style,
    {
        self.wr_type(VType::U8);
        self.wr_uint(v as u128);
        assert(self.output@ =~= old(self).output@ + enc_value(VTreeValue::U8(v), old(self).style));
    }

    /// Write an unsigned 16-bit integer: tag, then numeric payload.
    pub fn serialize_u16(&mut self, v: u16)
        ensures
            final(self).output@ == old(self).output@ + enc_value(VTreeValue::U16(v), old(self).style),
            final(self).style == old(self).style,
    {
        self.wr_type(VType::U16);
        self.wr_uint(v as u128);
        assert(self.output@ =~= old(self).output@ + enc_value(VTreeValue::U16(v), old(self).style));
    }

    /// Write an unsigned 32-bit integer: tag, then numeric payload.
    pub fn serialize_u32(&mut self, v: u32)
        ensures
            final(self).output@ == old(self).output@ + enc_value(VTreeValue::U32(v), old(self).style),
            final(self).style == old(self).style,
    {
        self.wr_type(VType::U32);
        self.wr_uint(v as u128);
        assert(self.output@ =~= old(self).output@ + enc_value(VTreeValue::U32(v), old(self).style));
    }

    /// Write an unsigned 64-bit integer: tag, then numeric payload.
    pub fn serialize_u64(&mut self, v: u64)
        ensures
            final(self).output@ == old(self).output@ + enc_value(VTreeValue::U64(v), old(self).style),
            final(self).style == old(self).style,
    {
        self.wr_type(VType::U64);
        self.wr_uint(v as u128);
        assert(self.output@ =~= old(self).output@ + enc_value(VTreeValue::U64(v), old(self).style));
    }

    /// Write an unsigned 128-bit integer: tag, then numeric payload.
    pub fn serialize_u128(&mut self, v: u128)
        ensures
            final(self).output@ == old(self).output@ + enc_value(VTreeValue::U128(v), old(self).style),
            final(self).style == old(self).style,
    {
        self.wr_type(VType::U128);
        self.wr_uint(v);
        assert(self.output@ =~= old(self).output@ + enc_value(VTreeValue::U128(v), old(self).style));
    }

    /// Write a 32-bit float given by its bit pattern: tag, then the raw
    /// big-endian bytes at full width.
    pub fn serialize_f32_bits(&mut self, bits: u32)
        ensures
            final(self).output@ == old(self).output@ + enc_value(VTreeValue::F32(bits), old(self).style),
            final(self).style == old(self).style,
    {
        self.wr_type(VType::F32);
        self.wr_f32_bits(bits);
        assert(self.output@ =~= old(self).output@ + enc_value(VTreeValue::F32(bits), old(self).style));
    }

    /// Write a 64-bit float given by its bit pattern: tag, then the raw
    /// big-endian bytes at full width.
    pub fn serialize_f64_bits(&mut self, bits: u64)
        ensures
            final(self).output@ == old(self).output@ + enc_value(VTreeValue::F64(bits), old(self).style),
            final(self).style == old(self).style,
    {
        self.wr_type(VType::F64);
        self.wr_f64_bits(bits);
        assert(self.output@ =~= old(self).output@ + enc_value(VTreeValue::F64(bits), old(self).style));
    }

    /// Write a character: tag, then its codepoint as an unsigned integer.
    pub fn serialize_char(&mut self, v: char)
        ensures
            final(self).output@ == old(self).output@ + enc_value(VTreeValue::Char(v), old(self).style),
            final(self).style == old(self).style,
    {
        self.wr_type(VType::Char);
        self.wr_uint((v as u32) as u128);
        assert(self.output@ =~= old(self).output@ + enc_value(VTreeValue::Char(v), old(self).style));
    }

    /// Write a byte string: tag, count, raw bytes.
    pub fn serialize_bytes(&mut self, v: &[u8])
        ensures
            final(self).output@ == old(self).output@ + enc_bin(v@),
            final(self).style == old(self).style,
    {
        self.wr_type(VType::Bin);
        self.wr_uint(v.len() as u128);
        self.wr(v);
        assert(self.output@ =~= old(self).output@ + enc_bin(v@));
    }

    /// Write an absent optional value: the marker alone.
    pub fn serialize_none(&mut self)
        ensures
            final(self).output@ == old(self).output@ + seq![spec_tag_byte(VType::OptNone)],
            final(self).style == old(self).style,
    {
        self.wr_type(VType::OptNone);
    }

    /// Write the marker of a present optional value; the payload follows.
    pub fn serialize_some(&mut self)
        ensures
            final(self).output@ == old(self).output@ + seq![spec_tag_byte(VType::OptSome)],
            final(self).style == old(self).style,
    {
        self.wr_type(VType::OptSome);
    }

    /// Write the unit value.
    pub fn serialize_unit(&mut self)
        ensures
            final(self).output@ == old(self).output@ + seq![spec_tag_byte(VType::Null)],
            final(self).style == old(self).style,
    {
        self.wr_type(VType::Null);
    }

    /// Write a tagged-union variant with no payload: its index under the
    /// compact style, its name under the expressive style.
    pub fn serialize_unit_variant(&mut self, index: u32, variant: &[u8])
        ensures
            final(self).output@ == old(self).output@ + enc_variant_head(index, variant@, old(self).style),
            final(self).style == old(self).style,
    {
        match self.style {
            FormatStyle::Compact => {
                self.wr_type(VType::U32);
                self.wr_uint(index as u128);
            },
            FormatStyle::Expressive => {
                self.serialize_bytes(variant);
            },
        }
        assert(self.output@ =~= old(self).output@ + enc_variant_head(
            index,
            variant@,
            old(self).style,
        ));
    }

    /// Write the head of a tagged-union variant that carries a payload:
    /// the pair tag and the discriminant. The caller writes the payload.
    pub fn serialize_variant_head(&mut self, index: u32, variant: &[u8])
        ensures
            final(self).output@ == old(self).output@ + seq![spec_tag_byte(VType::Pair)]
                + enc_variant_head(index, variant@, old(self).style),
            final(self).style == old(self).style,
    {
        self.wr_type(VType::Pair);
        self.serialize_unit_variant(index, variant);
        assert(self.output@ =~= old(self).output@ + seq![spec_tag_byte(VType::Pair)]
            + enc_variant_head(index, variant@, old(self).style));
    }

    /// Write a sequence header: tag and count. The caller then writes that
    /// many elements.
    pub fn serialize_seq(&mut self, len: usize)
        ensures
            final(self).output@ == old(self).output@ + seq![spec_tag_byte(VType::List)] + enc_uint(
                len as nat,
            ),
            final(self).style == old(self).style,
    {
        self.wr_type(VType::List);
        self.wr_uint(len as u128);
        assert(self.output@ =~= old(self).output@ + seq![spec_tag_byte(VType::List)] + enc_uint(
            len as nat,
        ));
    }

    /// Write a map header: tag and pair count. The caller then writes each
    /// key before its value.
    pub fn serialize_map(&mut self, len: usize)
        ensures
            final(self).output@ == old(self).output@ + seq![spec_tag_byte(VType::Dict)] + enc_uint(
                len as nat,
            ),
            final(self).style == old(self).style,
    {
        self.wr_type(VType::Dict);
        self.wr_uint(len as u128);
        assert(self.output@ =~= old(self).output@ + seq![spec_tag_byte(VType::Dict)] + enc_uint(
            len as nat,
        ));
    }

    /// Write a record header for `len` fields: a list header under the
    /// compact style, a map header under the expressive style. Under the
    /// expressive style the caller writes each field name before its value.
    pub fn serialize_struct(&mut self, len: usize)
        ensures
            old(self).style == FormatStyle::Compact ==> final(self).output@ == old(self).output@
                + seq![spec_tag_byte(VType::List)] + enc_uint(len as nat),
            old(self).style == FormatStyle::Expressive ==> final(self).output@ == old(self).output@
                + seq![spec_tag_byte(VType::Dict)] + enc_uint(len as nat),
            final(self).style == old(self).style,
    {
        match self.style {
            FormatStyle::Compact => self.serialize_seq(len),
            FormatStyle::Expressive => self.serialize_map(len),
        }
    }

    /// Write a whole value tree.
    pub fn write_value(&mut self, v: &VTreeValue)
        ensures
            final(self).output@ == old(self).output@ + enc_value(*v, old(self).style),
            final(self).style == old(self).style,
        decreases *v, 1int,
    {
        let ghost style = self.style;
        match v {
            VTreeValue::Null => self.serialize_unit(),
            VTreeValue::Bool(b) => self.serialize_bool(*b),
            VTreeValue::I8(x) => self.serialize_i8(*x),
            VTreeValue::I16(x) => self.serialize_i16(*x),
            VTreeValue::I32(x) => self.serialize_i32(*x),
            VTreeValue::I64(x) => self.serialize_i64(*x),
            VTreeValue::I128(x) => self.serialize_i128(*x),
            VTreeValue::U8(x) => self.serialize_u8(*x),
            VTreeValue::U16(x) => self.serialize_u16(*x),
            VTreeValue::U32(x) => self.serialize_u32(*x),
            VTreeValue::U64(x) => self.serialize_u64(*x),
            VTreeValue::U128(x) => self.serialize_u128(*x),
            VTreeValue::F32(bits) => self.serialize_f32_bits(*bits),
            VTreeValue::F64(bits) => self.serialize_f64_bits(*bits),
            VTreeValue::Char(c) => self.serialize_char(*c),
            VTreeValue::Bin(b) => self.serialize_bytes(b.as_slice()),
            VTreeValue::Opt(o) => match o {
                Option::None => self.serialize_none(),
                Option::Some(inner) => {
                    self.serialize_some();
                    self.write_value(&**inner);
                    assert(self.output@ =~= old(self).output@ + enc_value(*v, style));
                },
            },
            VTreeValue::List(items) => {
                self.serialize_seq(items.len());
                self.write_items(items);
                assert(self.output@ =~= old(self).output@ + enc_value(*v, style));
            },
            VTreeValue::Dict(pairs) => {
                self.serialize_map(pairs.len());
                self.write_dict_pairs(pairs);
                assert(self.output@ =~= old(self).output@ + enc_value(*v, style));
            },
            VTreeValue::Pair(a, b) => {
                self.wr_type(VType::Pair);
                self.write_value(&**a);
                self.write_value(&**b);
                assert(self.output@ =~= old(self).output@ + enc_value(*v, style));
            },
            VTreeValue::Record(fields) => {
                self.write_record(fields);
                assert(self.output@ =~= old(self).output@ + enc_value(*v, style));
            },
            VTreeValue::UnitVariant(index, name) => {
                self.serialize_unit_variant(*index, name.as_slice());
            },
            VTreeValue::NewtypeVariant(index, name, payload) => {
                self.serialize_variant_head(*index, name.as_slice());
                self.write_value(&**payload);
                assert(self.output@ =~= old(self).output@ + enc_value(*v, style));
            },
            VTreeValue::TupleVariant(index, name, items) => {
                self.serialize_variant_head(*index, name.as_slice());
                self.serialize_seq(items.len());
                self.write_items(items);
                assert(self.output@ =~= old(self).output@ + enc_value(*v, style));
            },
            VTreeValue::StructVariant(index, name, fields) => {
                self.serialize_variant_head(*index, name.as_slice());
                self.write_record(fields);
                assert(self.output@ =~= old(self).output@ + enc_value(*v, style));
            },
        }
    }

    /// Write a run of values in order.
    #[verifier::loop_isolation(false)]
    fn write_items(&mut self, items: &Vec<VTreeValue>)
        ensures
            final(self).output@ == old(self).output@ + enc_items(items@, old(self).style),
            final(self).style == old(self).style,
        decreases *items, 0int,
    {
        let ghost style = self.style;
        let ghost base = self.output@;
        for i in 0..items.len()
            invariant
                self.style == style,
                self.output@ == base + enc_items(items@.take(i as int), style),
            decreases items.len() - i,
        {
            proof {
                assert(decreases_to!(*items => items@[i as int]));
            }
            self.write_value(&items[i]);
            proof {
                assert(items@.take(i + 1) =~= items@.take(i as int).push(items@[i as int]));
                lemma_enc_items_push(items@.take(i as int), items@[i as int], style);
                assert(self.output@ =~= base + enc_items(items@.take(i + 1), style));
            }
        }
        assert(items@.take(items@.len() as int) =~= items@);
    }

    /// Write a run of key-value pairs, each key before its value.
    #[verifier::loop_isolation(false)]
    fn write_dict_pairs(&mut self, pairs: &Vec<(VTreeValue, VTreeValue)>)
        ensures
            final(self).output@ == old(self).output@ + enc_dict_pairs(pairs@, old(self).style),
            final(self).style == old(self).style,
        decreases *pairs, 0int,
    {
        let ghost style = self.style;
        let ghost base = self.output@;
        for i in 0..pairs.len()
            invariant
                self.style == style,
                self.output@ == base + enc_dict_pairs(pairs@.take(i as int), style),
            decreases pairs.len() - i,
        {
            proof {
                assert(decreases_to!(*pairs => pairs@[i as int]));
            }
            self.write_value(&pairs[i].0);
            self.write_value(&pairs[i].1);
            proof {
                assert(pairs@.take(i + 1) =~= pairs@.take(i as int).push(pairs@[i as int]));
                lemma_enc_dict_pairs_push(pairs@.take(i as int), pairs@[i as int], style);
                assert(self.output@ =~= base + enc_dict_pairs(pairs@.take(i + 1), style));
            }
        }
        assert(pairs@.take(pairs@.len() as int) =~= pairs@);
    }

    /// Write a record's header and fields under the chosen style.
    fn write_record(&mut self, fields: &Vec<(Vec<u8>, VTreeValue)>)
        ensures
            final(self).output@ == old(self).output@ + enc_record(fields@, old(self).style),
            final(self).style == old(self).style,
        decreases *fields, 1int,
    {
        let ghost style = self.style;
        self.serialize_struct(fields.len());
        match self.style {
            FormatStyle::Compact => {
                self.write_field_values(fields);
                assert(self.output@ =~= old(self).output@ + enc_record(fields@, style));
            },
            FormatStyle::Expressive => {
                self.write_named_fields(fields);
                assert(self.output@ =~= old(self).output@ + enc_record(fields@, style));
            },
        }
    }

    /// Write a record's field values alone, in order.
    #[verifier::loop_isolation(false)]
    fn write_field_values(&mut self, fields: &Vec<(Vec<u8>, VTreeValue)>)
        ensures
            final(self).output@ == old(self).output@ + enc_field_values(fields@, old(self).style),
            final(self).style == old(self).style,
        decreases *fields, 0int,
    {
        let ghost style = self.style;
        let ghost base = self.output@;
        for i in 0..fields.len()
            invariant
                self.style == style,
                self.output@ == base + enc_field_values(fields@.take(i as int), style),
            decreases fields.len() - i,
        {
            proof {
                assert(decreases_to!(*fields => fields@[i as int]));
            }
            self.write_value(&fields[i].1);
            proof {
                assert(fields@.take(i + 1) =~= fields@.take(i as int).push(fields@[i as int]));
                lemma_enc_field_values_push(fields@.take(i as int), fields@[i as int], style);
                assert(self.output@ =~= base + enc_field_values(fields@.take(i + 1), style));
            }
        }
        assert(fields@.take(fields@.len() as int) =~= fields@);
    }

    /// Write a record's fields with each name before its value.
    #[verifier::loop_isolation(false)]
    fn write_named_fields(&mut self, fields: &Vec<(Vec<u8>, VTreeValue)>)
        ensures
            final(self).output@ == old(self).output@ + enc_named_fields(fields@, old(self).style),
            final(self).style == old(self).style,
        decreases *fields, 0int,
    {
        let ghost style = self.style;
        let ghost base = self.output@;
        for i in 0..fields.len()
            invariant
                self.style == style,
                self.output@ == base + enc_named_fields(fields@.take(i as int), style),
            decreases fields.len() - i,
        {
            proof {
                assert(decreases_to!(*fields => fields@[i as int]));
            }
            self.serialize_bytes(fields[i].0.as_slice());
            self.write_value(&fields[i].1);
            proof {
                assert(fields@.take(i + 1) =~= fields@.take(i as int).push(fields@[i as int]));
                lemma_enc_named_fields_push(fields@.take(i as int), fields@[i as int], style);
                assert(self.output@ =~= base + enc_named_fields(fields@.take(i + 1), style));
            }
        }
        assert(fields@.take(fields@.len() as int) =~= fields@);
    }
}

/// Serialize a whole value tree to a fresh byte buffer.
pub fn to_bytes(value: &VTreeValue, style: FormatStyle) -> (r: Vec<u8>)
    ensures
        r@ == enc_value(*value, style),
{
    let mut serializer = Serializer::new(Vec::new(), style);
    serializer.write_value(value);
    serializer.output
}

} // verus!
