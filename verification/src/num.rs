//! The numeric codec: deterministic, reversible encoding of integers into
//! fixed- and variable-width byte groups.
//!
//! Integers are grouped in five width classes of 1, 2, 4, 8 and 16 bytes.
//! A value is always rendered at the narrowest class whose range holds it.
//! Each class has a small range; a small value is written as one leading
//! byte carrying a 3-bit class signature and 5 value bits, followed by the
//! class's low-order bytes. A value outside the small range is written as
//! one signature-only byte followed by the class's full big-endian bytes.
//! The signature spaces nest: the large form of one class carries the same
//! signature as the small form of the next-wider class, and both read back
//! to the same value, so a single leading byte decides the layout.
use vstd::prelude::*;
use vstd::arithmetic::div_mod::{
    lemma_fundamental_div_mod,
    lemma_fundamental_div_mod_converse,
    lemma_mod_division_less_than_divisor,
    lemma_multiply_divide_lt,
};
use crate::types::Error;

verus! {

/// 256 to the power `n`: the number of values of an `n`-byte group.
pub open spec fn p256(n: nat) -> nat
    decreases n,
{
    if n == 0 {
        1
    } else {
        256 * p256((n - 1) as nat)
    }
}

/// Concrete values of `p256` at the widths the codec uses.
pub proof fn lemma_p256_values()
    ensures
        p256(0) == 1,
        p256(1) == 0x100,
        p256(2) == 0x10000,
        p256(3) == 0x1000000,
        p256(4) == 0x100000000,
        p256(8) == 0x10000000000000000,
        p256(15) == 0x1000000000000000000000000000000,
        p256(16) == 0x100000000000000000000000000000000,
{
    assert(p256(0) == 1);
    assert(p256(1) == 0x100);
    assert(p256(2) == 0x10000);
    assert(p256(3) == 0x1000000);
    assert(p256(4) == 0x100000000);
    assert(p256(5) == 0x10000000000);
    assert(p256(6) == 0x1000000000000);
    assert(p256(7) == 0x100000000000000);
    assert(p256(8) == 0x10000000000000000);
    assert(p256(9) == 0x1000000000000000000);
    assert(p256(10) == 0x100000000000000000000);
    assert(p256(11) == 0x10000000000000000000000);
    assert(p256(12) == 0x1000000000000000000000000);
    assert(p256(13) == 0x100000000000000000000000000);
    assert(p256(14) == 0x10000000000000000000000000000);
    assert(p256(15) == 0x1000000000000000000000000000000);
    assert(p256(16) == 0x100000000000000000000000000000000);
}

/// `p256` grows with its argument.
pub proof fn lemma_p256_le(a: nat, b: nat)
    requires
        a <= b,
    ensures
        p256(a) <= p256(b),
        p256(a) >= 1,
    decreases b,
{
    if b > 0 {
        if a == b {
            lemma_p256_le(0, (b - 1) as nat);
        } else {
            lemma_p256_le(a, (b - 1) as nat);
        }
    }
}

/// The `n`-byte big-endian rendering of `v`; meaningful when `v < p256(n)`.
pub open spec fn be_bytes(v: nat, n: nat) -> Seq<u8>
    decreases n,
{
    if n == 0 {
        Seq::empty()
    } else {
        be_bytes(v / 256, (n - 1) as nat).push((v % 256) as u8)
    }
}

/// The value of a big-endian byte group.
pub open spec fn be_val(s: Seq<u8>) -> nat
    decreases s.len(),
{
    if s.len() == 0 {
        0
    } else {
        be_val(s.drop_last()) * 256 + s.last() as nat
    }
}

pub proof fn lemma_be_bytes_len(v: nat, n: nat)
    ensures
        be_bytes(v, n).len() == n,
    decreases n,
{
    if n > 0 {
        lemma_be_bytes_len(v / 256, (n - 1) as nat);
    }
}

pub proof fn lemma_be_val_bound(s: Seq<u8>)
    ensures
        be_val(s) < p256(s.len()),
    decreases s.len(),
{
    if s.len() > 0 {
        lemma_be_val_bound(s.drop_last());
    }
}

/// A big-endian group reads back to the value it was rendered from.
pub proof fn lemma_be_roundtrip(v: nat, n: nat)
    requires
        v < p256(n),
    ensures
        be_bytes(v, n).len() == n,
        be_val(be_bytes(v, n)) == v,
    decreases n,
{
    lemma_be_bytes_len(v, n);
    if n > 0 {
        assert(v / 256 < p256((n - 1) as nat)) by {
            lemma_fundamental_div_mod(v as int, 256);
        }
        lemma_be_roundtrip(v / 256, (n - 1) as nat);
        assert(be_bytes(v, n).drop_last() =~= be_bytes(v / 256, (n - 1) as nat));
        assert(be_val(be_bytes(v, n)) == (v / 256) * 256 + (v % 256)) by {
            assert(be_bytes(v, n).last() == (v % 256) as u8);
        }
        assert((v / 256) * 256 + (v % 256) == v) by {
            lemma_fundamental_div_mod(v as int, 256);
        }
    }
}

/// The number of bytes of width class `c` (classes 0 through 4).
pub open spec fn wclass_bytes(c: nat) -> nat {
    if c == 0 {
        1
    } else if c == 1 {
        2
    } else if c == 2 {
        4
    } else if c == 3 {
        8
    } else {
        16
    }
}

/// The number of payload bytes that follow the leading byte of a small
/// rendering in class `c`: the difference to the next-narrower class.
pub open spec fn wclass_extra(c: nat) -> nat {
    if c == 0 {
        0
    } else if c == 1 {
        1
    } else if c == 2 {
        2
    } else if c == 3 {
        4
    } else {
        8
    }
}

/// The narrowest width class whose unsigned range holds `v`.
pub open spec fn min_uclass(v: nat) -> nat {
    if v < 0x100 {
        0
    } else if v < 0x10000 {
        1
    } else if v < 0x100000000 {
        2
    } else if v < 0x10000000000000000 {
        3
    } else {
        4
    }
}

/// The narrowest width class whose signed range holds `v`.
pub open spec fn min_sclass(v: int) -> nat {
    if -0x80 <= v < 0x80 {
        0
    } else if -0x8000 <= v < 0x8000 {
        1
    } else if -0x80000000 <= v < 0x80000000 {
        2
    } else if -0x8000000000000000 <= v < 0x8000000000000000 {
        3
    } else {
        4
    }
}

/// The bytes of an unsigned integer. The rendering depends on the value
/// alone, never on the declared width of the integer being written.
pub open spec fn enc_uint(v: nat) -> Seq<u8> {
    let c = min_uclass(v);
    let e = wclass_extra(c);
    if v < 32 * p256(e) {
        seq![(32 * c + v / p256(e)) as u8].add(be_bytes(v % p256(e), e))
    } else {
        seq![(32 * (c + 1)) as u8].add(be_bytes(v, wclass_bytes(c)))
    }
}

/// The bytes of a signed integer. As for unsigned values the rendering
/// depends on the value alone. A small rendering stores a two's-complement
/// group of 5 bits plus the payload bytes; it is not used for the values
/// whose top 5 bits would be zero while the payload's top bit is set,
/// because those bytes read back as the large form of the narrower class.
pub open spec fn enc_sint(v: int) -> Seq<u8> {
    let c = min_sclass(v);
    let e = wclass_extra(c);
    let w = wclass_bytes(c);
    if -16 * p256(e) <= v < 16 * p256(e) && !(c >= 1 && p256(e) / 2 <= v < p256(e)) {
        let m = if v < 0 {
            (v + 32 * p256(e)) as nat
        } else {
            v as nat
        };
        seq![(32 * c + m / p256(e)) as u8].add(be_bytes(m % p256(e), e))
    } else {
        let m = if v < 0 {
            (v + p256(w)) as nat
        } else {
            v as nat
        };
        seq![(32 * (c + 1)) as u8].add(be_bytes(m, w))
    }
}

/// The outcome of reading one integer from a byte group: the value and the
/// position after it, an exhausted source, or a stored width that exceeds
/// the requested one.
pub ghost enum IntParse<V> {
    Val { v: V, end: int },
    Eof,
    TooWide,
}

/// Read one unsigned integer at position `pos`, where `r` is the width
/// class of the requested integer type. The leading byte's top 3 bits
/// select the layout: signature `r + 1` is the large form of class `r`;
/// a signature at most `r` is the small form of that signature's class;
/// anything above `r + 1` encodes a wider value than requested.
pub open spec fn parse_uint(s: Seq<u8>, pos: int, r: nat) -> IntParse<nat> {
    if !(0 <= pos < s.len()) {
        IntParse::Eof
    } else {
        let sig = s[pos] as int / 32;
        let low = s[pos] as int % 32;
        if sig == r + 1 {
            let w = wclass_bytes(r);
            if pos + 1 + w <= s.len() {
                IntParse::Val { v: be_val(s.subrange(pos + 1, pos + 1 + w)), end: pos + 1 + w }
            } else {
                IntParse::Eof
            }
        } else if sig <= r {
            let e = wclass_extra(sig as nat);
            if pos + 1 + e <= s.len() {
                IntParse::Val {
                    v: (low * p256(e) + be_val(s.subrange(pos + 1, pos + 1 + e))) as nat,
                    end: pos + 1 + e,
                }
            } else {
                IntParse::Eof
            }
        } else {
            IntParse::TooWide
        }
    }
}

/// The signed value of an `n`-byte two's-complement group with value `raw`.
pub open spec fn tc_val(raw: nat, n: nat) -> int {
    if 2 * raw >= p256(n) {
        raw - p256(n)
    } else {
        raw as int
    }
}

/// Read one signed integer at position `pos`, `r` being the width class of
/// the requested type. The layouts are those of `parse_uint`; in addition,
/// a small-form leading byte whose low 5 bits are all zero is the large
/// form of the next-narrower class, read as a two's-complement group of
/// that class's bytes, and in a genuine small form bit 4 of the leading
/// byte is the sign.
pub open spec fn parse_sint(s: Seq<u8>, pos: int, r: nat) -> IntParse<int> {
    if !(0 <= pos < s.len()) {
        IntParse::Eof
    } else {
        let sig = s[pos] as int / 32;
        let low = s[pos] as int % 32;
        if sig == r + 1 {
            let w = wclass_bytes(r);
            if pos + 1 + w <= s.len() {
                IntParse::Val { v: tc_val(be_val(s.subrange(pos + 1, pos + 1 + w)), w), end: pos + 1 + w }
            } else {
                IntParse::Eof
            }
        } else if sig == 0 {
            IntParse::Val { v: if low >= 16 { low - 32 } else { low }, end: pos + 1 }
        } else if sig <= r {
            let e = wclass_extra(sig as nat);
            if pos + 1 + e <= s.len() {
                let payload = be_val(s.subrange(pos + 1, pos + 1 + e));
                if low == 0 {
                    IntParse::Val { v: tc_val(payload, e), end: pos + 1 + e }
                } else {
                    let raw = low * p256(e) + payload;
                    IntParse::Val {
                        v: if low >= 16 { raw - 32 * p256(e) } else { raw as int },
                        end: pos + 1 + e,
                    }
                }
            } else {
                IntParse::Eof
            }
        } else {
            IntParse::TooWide
        }
    }
}

/// The small form of any admissible signature class stays within the
/// range of the requested width class.
pub proof fn lemma_small_fits(sig: nat, r: nat)
    requires
        sig <= r,
        r <= 4,
    ensures
        32 * p256(wclass_extra(sig)) <= p256(wclass_bytes(r)),
{
    lemma_p256_values();
    lemma_p256_le(wclass_extra(sig), wclass_extra(r));
}

/// A parsed unsigned integer fits the requested width class.
pub proof fn lemma_parse_uint_bound(s: Seq<u8>, pos: int, r: nat)
    requires
        r <= 4,
    ensures
        parse_uint(s, pos, r) matches IntParse::Val { v, end } ==> v < p256(wclass_bytes(r))
            && pos < end <= s.len() && end <= pos + 1 + wclass_bytes(r),
{
    lemma_p256_values();
    if 0 <= pos < s.len() {
        let sig = s[pos] as int / 32;
        let low = s[pos] as int % 32;
        if sig == r + 1 {
            let w = wclass_bytes(r);
            if pos + 1 + w <= s.len() {
                lemma_be_val_bound(s.subrange(pos + 1, pos + 1 + w));
            }
        } else if 0 <= sig <= r {
            let e = wclass_extra(sig as nat);
            if pos + 1 + e <= s.len() {
                lemma_be_val_bound(s.subrange(pos + 1, pos + 1 + e));
                lemma_small_fits(sig as nat, r);
                let payload = be_val(s.subrange(pos + 1, pos + 1 + e));
                assert(low * p256(e) + payload < 32 * p256(e)) by (nonlinear_arith)
                    requires
                        0 <= low < 32,
                        payload < p256(e),
                ;
            }
        }
    }
}

/// A parsed signed integer fits the requested width class.
pub proof fn lemma_parse_sint_bound(s: Seq<u8>, pos: int, r: nat)
    requires
        r <= 4,
    ensures
        parse_sint(s, pos, r) matches IntParse::Val { v, end } ==> -(p256(wclass_bytes(r)) / 2)
            <= v < p256(wclass_bytes(r)) / 2 && pos < end <= s.len() && end <= pos + 1
            + wclass_bytes(r),
{
    lemma_p256_values();
    if 0 <= pos < s.len() {
        let sig = s[pos] as int / 32;
        let low = s[pos] as int % 32;
        if sig == r + 1 {
            let w = wclass_bytes(r);
            if pos + 1 + w <= s.len() {
                lemma_be_val_bound(s.subrange(pos + 1, pos + 1 + w));
            }
        } else if 1 <= sig <= r {
            let e = wclass_extra(sig as nat);
            if pos + 1 + e <= s.len() {
                lemma_be_val_bound(s.subrange(pos + 1, pos + 1 + e));
                lemma_small_fits(sig as nat, r);
                lemma_p256_le(e, wclass_bytes(r));
                let payload = be_val(s.subrange(pos + 1, pos + 1 + e));
                assert(low * p256(e) + payload < 32 * p256(e)) by (nonlinear_arith)
                    requires
                        0 <= low < 32,
                        payload < p256(e),
                ;
                assert(low >= 16 ==> low * p256(e) >= 16 * p256(e)) by (nonlinear_arith);
            }
        }
    }
}

/// An encoded unsigned integer reads back exactly, at any requested width
/// class at least as wide as the narrowest class that holds the value, and
/// consumes exactly the encoding's bytes.
#[verifier::rlimit(60)]
#[verifier::spinoff_prover]
pub proof fn lemma_uint_roundtrip(s: Seq<u8>, pos: int, v: nat, r: nat)
    requires
        v < p256(16),
        min_uclass(v) <= r <= 4,
        0 <= pos,
        pos + enc_uint(v).len() <= s.len(),
        s.subrange(pos, pos + enc_uint(v).len()) == enc_uint(v),
    ensures
        parse_uint(s, pos, r) == (IntParse::Val { v, end: pos + enc_uint(v).len() }),
{
    lemma_p256_values();
    let c = min_uclass(v);
    let e = wclass_extra(c);
    let w = wclass_bytes(c);
    let enc = enc_uint(v);
    if v < 32 * p256(e) {
        let low = v / p256(e);
        let m = v % p256(e);
        lemma_be_bytes_len(m, e);
        assert(enc.len() == 1 + e);
        lemma_multiply_divide_lt(v as int, p256(e) as int, 32);
        lemma_mod_division_less_than_divisor(v as int, p256(e) as int);
        assert(enc[0] == (32 * c + low) as u8);
        assert(s.subrange(pos, pos + enc.len())[0] == s[pos]);
        assert(s[pos] as int == 32 * c + low);
        assert(s[pos] as int / 32 == c && s[pos] as int % 32 == low) by {
            lemma_fundamental_div_mod_converse(32 * c as int + low as int, 32, c as int, low as int);
        }
        assert(s.subrange(pos + 1, pos + 1 + e) =~= be_bytes(m, e)) by {
            assert forall|i: int| 0 <= i < e implies s.subrange(pos + 1, pos + 1 + e)[i]
                == be_bytes(m, e)[i] by {
                assert(s.subrange(pos, pos + enc.len())[i + 1] == s[pos + 1 + i]);
                assert(enc[i + 1] == be_bytes(m, e)[i]);
            }
        }
        lemma_be_roundtrip(m, e);
        lemma_fundamental_div_mod(v as int, p256(e) as int);
        assert(low * p256(e) + m == v);
    } else {
        lemma_be_bytes_len(v, w);
        assert(enc.len() == 1 + w);
        assert(enc[0] == (32 * (c + 1)) as u8);
        assert(s.subrange(pos, pos + enc.len())[0] == s[pos]);
        assert(s[pos] as int == 32 * (c + 1));
        assert(s[pos] as int / 32 == c + 1 && s[pos] as int % 32 == 0) by {
            lemma_fundamental_div_mod_converse(32 * (c as int + 1), 32, c as int + 1, 0);
        }
        assert(v < p256(w));
        assert(s.subrange(pos + 1, pos + 1 + w) =~= be_bytes(v, w)) by {
            assert forall|i: int| 0 <= i < w implies s.subrange(pos + 1, pos + 1 + w)[i]
                == be_bytes(v, w)[i] by {
                assert(s.subrange(pos, pos + enc.len())[i + 1] == s[pos + 1 + i]);
                assert(enc[i + 1] == be_bytes(v, w)[i]);
            }
        }
        lemma_be_roundtrip(v, w);
        if c == r {
            assert(parse_uint(s, pos, r) == (IntParse::Val { v, end: pos + enc.len() }));
        } else {
            assert(wclass_extra((c + 1) as nat) == w);
            assert(parse_uint(s, pos, r) == (IntParse::Val { v, end: pos + enc.len() }));
        }
    }
}

/// An encoded signed integer reads back exactly, at any requested width
/// class at least as wide as the narrowest class that holds the value, and
/// consumes exactly the encoding's bytes.
#[verifier::rlimit(60)]
#[verifier::spinoff_prover]
pub proof fn lemma_sint_roundtrip(s: Seq<u8>, pos: int, v: int, r: nat)
    requires
        -(p256(16) / 2) <= v < p256(16) / 2,
        min_sclass(v) <= r <= 4,
        0 <= pos,
        pos + enc_sint(v).len() <= s.len(),
        s.subrange(pos, pos + enc_sint(v).len()) == enc_sint(v),
    ensures
        parse_sint(s, pos, r) == (IntParse::Val { v, end: pos + enc_sint(v).len() }),
{
    lemma_p256_values();
    let c = min_sclass(v);
    let e = wclass_extra(c);
    let w = wclass_bytes(c);
    let enc = enc_sint(v);
    if -16 * p256(e) <= v < 16 * p256(e) && !(c >= 1 && p256(e) / 2 <= v < p256(e)) {
        let m = if v < 0 {
            (v + 32 * p256(e)) as nat
        } else {
            v as nat
        };
        let low = m / p256(e);
        let mrest = m % p256(e);
        lemma_be_bytes_len(mrest, e);
        assert(enc.len() == 1 + e);
        lemma_multiply_divide_lt(m as int, p256(e) as int, 32);
        lemma_mod_division_less_than_divisor(m as int, p256(e) as int);
        assert(enc[0] == (32 * c + low) as u8);
        assert(s.subrange(pos, pos + enc.len())[0] == s[pos]);
        assert(s[pos] as int == 32 * c + low);
        assert(s[pos] as int / 32 == c && s[pos] as int % 32 == low) by {
            lemma_fundamental_div_mod_converse(32 * c + low as int, 32, c as int, low as int);
        }
        assert(s.subrange(pos + 1, pos + 1 + e) =~= be_bytes(mrest, e)) by {
            assert forall|i: int| 0 <= i < e implies s.subrange(pos + 1, pos + 1 + e)[i]
                == be_bytes(mrest, e)[i] by {
                assert(s.subrange(pos, pos + enc.len())[i + 1] == s[pos + 1 + i]);
                assert(enc[i + 1] == be_bytes(mrest, e)[i]);
            }
        }
        lemma_be_roundtrip(mrest, e);
        lemma_fundamental_div_mod(m as int, p256(e) as int);
        assert(low * p256(e) + mrest == m);
        if c == 0 {
            // one leading byte holding a 5-bit two's-complement group
            assert(e == 0 && p256(0) == 1);
            assert(low == m);
        } else {
            // the sign decides between the two small readings
            if v < 0 {
                assert(m >= 16 * p256(e));
                assert(low >= 16) by (nonlinear_arith)
                    requires
                        low * p256(e) + mrest == m,
                        m >= 16 * p256(e),
                        0 <= mrest < p256(e),
                        p256(e) >= 1,
                        low >= 0,
                ;
            } else {
                // a nonnegative small value of a wide class lies above the
                // narrower class's full range, so its top bits are not zero
                assert(v >= p256(e) / 2);
                assert(v >= p256(e));
                assert(low >= 1) by {
                    if low == 0 {
                        assert(low * p256(e) == 0) by (nonlinear_arith)
                            requires
                                low == 0,
                        ;
                        assert(m == mrest);
                    }
                }
                assert(low < 16) by (nonlinear_arith)
                    requires
                        low * p256(e) + mrest == m,
                        m < 16 * p256(e),
                        0 <= mrest < p256(e),
                        p256(e) >= 1,
                        low >= 0,
                ;
            }
        }
    } else {
        let m = if v < 0 {
            (v + p256(w)) as nat
        } else {
            v as nat
        };
        assert(-(p256(w) / 2) <= v < p256(w) / 2);
        assert(m < p256(w));
        lemma_be_bytes_len(m, w);
        assert(enc.len() == 1 + w);
        assert(enc[0] == (32 * (c + 1)) as u8);
        assert(s.subrange(pos, pos + enc.len())[0] == s[pos]);
        assert(s[pos] as int == 32 * (c + 1));
        assert(s[pos] as int / 32 == c + 1 && s[pos] as int % 32 == 0) by {
            lemma_fundamental_div_mod_converse(32 * (c as int + 1), 32, c as int + 1, 0);
        }
        assert(s.subrange(pos + 1, pos + 1 + w) =~= be_bytes(m, w)) by {
            assert forall|i: int| 0 <= i < w implies s.subrange(pos + 1, pos + 1 + w)[i]
                == be_bytes(m, w)[i] by {
                assert(s.subrange(pos, pos + enc.len())[i + 1] == s[pos + 1 + i]);
                assert(enc[i + 1] == be_bytes(m, w)[i]);
            }
        }
        lemma_be_roundtrip(m, w);
        assert(tc_val(m, w) == v);
        if c == r {
            assert(parse_sint(s, pos, r) == (IntParse::Val { v, end: pos + enc.len() }));
        } else {
            assert(wclass_extra((c + 1) as nat) == w);
            assert(parse_sint(s, pos, r) == (IntParse::Val { v, end: pos + enc.len() }));
        }
    }
}

/// Append the `n`-byte big-endian rendering of `v`.
pub fn write_be(out: &mut Vec<u8>, v: u128, n: usize)
    requires
        n <= 16,
        (v as nat) < p256(n as nat),
    ensures
        final(out)@ == old(out)@ + be_bytes(v as nat, n as nat),
    decreases n,
{
    if n == 0 {
        assert(out@ =~= old(out)@ + be_bytes(v as nat, 0));
    } else {
        proof {
            lemma_fundamental_div_mod(v as int, 256);
        }
        write_be(out, v / 256, n - 1);
        out.push((v % 256) as u8);
        assert(out@ =~= old(out)@ + be_bytes(v as nat, n as nat));
    }
}

/// Read an `n`-byte big-endian group starting at `pos`.
pub fn read_be(s: &[u8], pos: usize, n: usize) -> (res: Result<(u128, usize), Error>)
    requires
        n <= 16,
    ensures
        pos + n <= s@.len() ==> (res matches Ok(p) && p.0 as nat == be_val(
            s@.subrange(pos as int, pos + n),
        ) && p.1 == pos + n),
        pos + n > s@.len() ==> res == Err::<(u128, usize), Error>(Error::UnexpectedEOF),
    decreases n,
{
    if n == 0 {
        if pos <= s.len() {
            assert(s@.subrange(pos as int, pos as int) =~= Seq::<u8>::empty());
            Ok((0, pos))
        } else {
            Err(Error::UnexpectedEOF)
        }
    } else {
        match read_be(s, pos, n - 1) {
            Ok((hi, p2)) => {
                if p2 < s.len() {
                    let b = s[p2];
                    proof {
                        lemma_p256_values();
                        lemma_be_val_bound(s@.subrange(pos as int, p2 as int));
                        lemma_p256_le((n - 1) as nat, 15);
                        assert(s@.subrange(pos as int, p2 + 1).drop_last() =~= s@.subrange(
                            pos as int,
                            p2 as int,
                        ));
                        assert(s@.subrange(pos as int, p2 + 1).last() == s@[p2 as int]);
                    }
                    Ok((hi * 256 + b as u128, p2 + 1))
                } else {
                    Err(Error::UnexpectedEOF)
                }
            },
            Err(e) => Err(e),
        }
    }
}

/// The payload byte count of width class `c`.
fn class_extra(c: u8) -> (e: usize)
    requires
        c <= 4,
    ensures
        e == wclass_extra(c as nat),
{
    if c == 0 {
        0
    } else if c == 1 {
        1
    } else if c == 2 {
        2
    } else if c == 3 {
        4
    } else {
        8
    }
}

/// The full byte count of width class `c`.
fn class_bytes(c: u8) -> (w: usize)
    requires
        c <= 4,
    ensures
        w == wclass_bytes(c as nat),
{
    if c == 0 {
        1
    } else if c == 1 {
        2
    } else if c == 2 {
        4
    } else if c == 3 {
        8
    } else {
        16
    }
}

/// 256 to the power `k`, at the byte counts the codec needs.
fn p256x(k: usize) -> (p: u128)
    requires
        k == 0 || k == 1 || k == 2 || k == 4 || k == 8,
    ensures
        p as nat == p256(k as nat),
{
    proof {
        lemma_p256_values();
    }
    if k == 0 {
        1
    } else if k == 1 {
        0x100
    } else if k == 2 {
        0x10000
    } else if k == 4 {
        0x100000000
    } else {
        0x10000000000000000
    }
}

/// Append the encoding of an unsigned integer. Every unsigned width
/// funnels through this one routine, which is why the bytes depend on the
/// value alone and never on the declared width.
pub fn wr_uint(out: &mut Vec<u8>, v: u128)
    ensures
        final(out)@ == old(out)@ + enc_uint(v as nat),
{
    proof {
        lemma_p256_values();
    }
    let c: u8 = if v < 0x100 {
        0
    } else if v < 0x10000 {
        1
    } else if v < 0x100000000 {
        2
    } else if v < 0x10000000000000000 {
        3
    } else {
        4
    };
    let e = class_extra(c);
    let pe = p256x(e);
    if v < 32 * pe {
        out.push((32 * (c as u128) + v / pe) as u8);
        write_be(out, v % pe, e);
        assert(out@ =~= old(out)@ + enc_uint(v as nat));
    } else {
        out.push(32 * (c + 1));
        let w = class_bytes(c);
        write_be(out, v, w);
        assert(out@ =~= old(out)@ + enc_uint(v as nat));
    }
}

/// Append the encoding of a signed integer; as for unsigned values, the
/// bytes depend on the value alone.
pub fn wr_sint(out: &mut Vec<u8>, v: i128)
    ensures
        final(out)@ == old(out)@ + enc_sint(v as int),
{
    proof {
        lemma_p256_values();
    }
    let c: u8 = if -0x80 <= v && v < 0x80 {
        0
    } else if -0x8000 <= v && v < 0x8000 {
        1
    } else if -0x80000000 <= v && v < 0x80000000 {
        2
    } else if -0x8000000000000000 <= v && v < 0x8000000000000000 {
        3
    } else {
        4
    };
    let e = class_extra(c);
    let pe = p256x(e);
    let half: i128 = (pe / 2) as i128;
    if -16 * (pe as i128) <= v && v < 16 * (pe as i128) && !(c >= 1 && half <= v && v < pe as i128) {
        let m: u128 = if v < 0 {
            (v + 32 * (pe as i128)) as u128
        } else {
            v as u128
        };
        out.push((32 * (c as u128) + m / pe) as u8);
        write_be(out, m % pe, e);
        assert(out@ =~= old(out)@ + enc_sint(v as int));
    } else {
        let w = class_bytes(c);
        let m: u128 = if c == 4 {
            if v < 0 {
                u128::MAX - ((-(v + 1)) as u128)
            } else {
                v as u128
            }
        } else {
            let pw = p256x(w);
            if v < 0 {
                (v + pw as i128) as u128
            } else {
                v as u128
            }
        };
        out.push(32 * (c + 1));
        write_be(out, m, w);
        assert(out@ =~= old(out)@ + enc_sint(v as int));
    }
}

/// Read one unsigned integer at `pos`, `r` being the width class of the
/// requested integer type.
pub fn read_uint(s: &[u8], pos: usize, r: u8) -> (res: Result<(u128, usize), Error>)
    requires
        r <= 4,
    ensures
        match parse_uint(s@, pos as int, r as nat) {
            IntParse::Val { v, end } => res matches Ok(p) && p.0 as nat == v && p.1 == end,
            IntParse::Eof => res == Err::<(u128, usize), Error>(Error::UnexpectedEOF),
            IntParse::TooWide => res == Err::<(u128, usize), Error>(Error::IntCastFail),
        },
{
    proof {
        lemma_p256_values();
    }
    if pos >= s.len() {
        return Err(Error::UnexpectedEOF);
    }
    let b0 = s[pos];
    let sig = b0 / 32;
    let low = b0 % 32;
    if sig == r + 1 {
        let w = class_bytes(r);
        read_be(s, pos + 1, w)
    } else if sig <= r {
        let e = class_extra(sig);
        match read_be(s, pos + 1, e) {
            Ok((payload, end)) => {
                let pe = p256x(e);
                proof {
                    lemma_be_val_bound(s@.subrange(pos + 1, pos + 1 + e as int));
                    lemma_p256_le(e as nat, 8);
                    assert((low as u128) * pe <= 31 * 0x10000000000000000)
                        by (nonlinear_arith)
                        requires
                            low < 32,
                            pe <= 0x10000000000000000,
                    ;
                }
                Ok(((low as u128) * pe + payload, end))
            },
            Err(er) => Err(er),
        }
    } else {
        Err(Error::IntCastFail)
    }
}

/// Read one signed integer at `pos`, `r` being the width class of the
/// requested integer type.
pub fn read_sint(s: &[u8], pos: usize, r: u8) -> (res: Result<(i128, usize), Error>)
    requires
        r <= 4,
    ensures
        match parse_sint(s@, pos as int, r as nat) {
            IntParse::Val { v, end } => res matches Ok(p) && p.0 as int == v && p.1 == end,
            IntParse::Eof => res == Err::<(i128, usize), Error>(Error::UnexpectedEOF),
            IntParse::TooWide => res == Err::<(i128, usize), Error>(Error::IntCastFail),
        },
{
    proof {
        lemma_p256_values();
    }
    if pos >= s.len() {
        return Err(Error::UnexpectedEOF);
    }
    let b0 = s[pos];
    let sig = b0 / 32;
    let low = b0 % 32;
    if sig == r + 1 {
        let w = class_bytes(r);
        match read_be(s, pos + 1, w) {
            Ok((raw, end)) => {
                proof {
                    lemma_be_val_bound(s@.subrange(pos + 1, pos + 1 + w as int));
                }
                if w == 16 {
                    if raw >= 0x80000000000000000000000000000000 {
                        Ok((-((u128::MAX - raw) as i128) - 1, end))
                    } else {
                        Ok((raw as i128, end))
                    }
                } else {
                    let pw = p256x(w);
                    if 2 * raw >= pw {
                        Ok(((raw as i128) - (pw as i128), end))
                    } else {
                        Ok((raw as i128, end))
                    }
                }
            },
            Err(er) => Err(er),
        }
    } else if sig == 0 {
        let base: i128 = low as i128;
        if low >= 16 {
            Ok((base - 32, pos + 1))
        } else {
            Ok((base, pos + 1))
        }
    } else if sig <= r {
        let e = class_extra(sig);
        match read_be(s, pos + 1, e) {
            Ok((payload, end)) => {
                let pe = p256x(e);
                proof {
                    lemma_be_val_bound(s@.subrange(pos + 1, pos + 1 + e as int));
                }
                if low == 0 {
                    if 2 * payload >= pe {
                        Ok(((payload as i128) - (pe as i128), end))
                    } else {
                        Ok((payload as i128, end))
                    }
                } else {
                    proof {
                        lemma_p256_le(e as nat, 8);
                        assert((low as u128) * pe <= 31 * 0x10000000000000000)
                            by (nonlinear_arith)
                            requires
                                low < 32,
                                pe <= 0x10000000000000000,
                        ;
                    }
                    let raw = (low as u128) * pe + payload;
                    if low >= 16 {
                        Ok(((raw as i128) - 32 * (pe as i128), end))
                    } else {
                        Ok((raw as i128, end))
                    }
                }
            },
            Err(er) => Err(er),
        }
    } else {
        Err(Error::IntCastFail)
    }
}

} // verus!
