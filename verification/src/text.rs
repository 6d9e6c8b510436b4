//! Text carried as 16-bit character units.
//!
//! The wire format expresses every text field as a count of 16-bit units
//! followed by that many little-endian units. This module gives the meaning
//! of such a unit sequence: [`utf16_decode`] is the partial decoding function
//! (lone or misordered surrogate units have no meaning), [`utf16_encode`] is
//! its inverse on well-formed text, and [`decode_utf16_units`] is the
//! executable decoder, proved to return exactly what [`utf16_decode`] says.

use vstd::prelude::*;
use vstd::bytes::spec_u16_from_le_bytes;
use crate::error::DecodeError;

verus! {

/// The 16-bit character units held by a byte sequence: each unit is two
/// consecutive bytes read little-endian.
pub open spec fn units_of(b: Seq<u8>) -> Seq<u16>
    recommends
        b.len() % 2 == 0,
    decreases b.len(),
{
    if b.len() < 2 {
        Seq::empty()
    } else {
        seq![spec_u16_from_le_bytes(b.subrange(0, 2))] + units_of(b.skip(2))
    }
}

/// A byte sequence of even length holds exactly half as many units.
pub proof fn lemma_units_of_len(b: Seq<u8>)
    requires
        b.len() % 2 == 0,
    ensures
        units_of(b).len() * 2 == b.len(),
    decreases b.len(),
{
    if b.len() >= 2 {
        lemma_units_of_len(b.skip(2));
    }
}

/// The unit at index `i` is the little-endian value of bytes `2 * i` and
/// `2 * i + 1`.
pub proof fn lemma_units_of_index(b: Seq<u8>, i: int)
    requires
        b.len() % 2 == 0,
        0 <= i,
        2 * i + 2 <= b.len(),
    ensures
        units_of(b).len() * 2 == b.len(),
        units_of(b)[i] == spec_u16_from_le_bytes(b.subrange(2 * i, 2 * i + 2)),
    decreases b.len(),
{
    lemma_units_of_len(b);
    if i == 0 {
    } else {
        lemma_units_of_index(b.skip(2), i - 1);
        assert(b.skip(2).subrange(2 * (i - 1), 2 * (i - 1) + 2) =~= b.subrange(2 * i, 2 * i + 2));
    }
}

/// The byte sequence that carries the given units, each as two little-endian
/// bytes: the inverse of [`units_of`].
pub open spec fn encode_units(units: Seq<u16>) -> Seq<u8>
    decreases units.len(),
{
    if units.len() == 0 {
        Seq::empty()
    } else {
        vstd::bytes::spec_u16_to_le_bytes(units[0]) + encode_units(units.skip(1))
    }
}

/// Encoded units take exactly two bytes each.
pub proof fn lemma_encode_units_len(units: Seq<u16>)
    ensures
        encode_units(units).len() == 2 * units.len(),
    decreases units.len(),
{
    vstd::bytes::lemma_auto_spec_u16_to_from_le_bytes();
    if units.len() > 0 {
        lemma_encode_units_len(units.skip(1));
    }
}

/// Reading units back out of their byte encoding gives the units again:
/// [`units_of`] inverts [`encode_units`].
pub proof fn lemma_units_of_encode_units(units: Seq<u16>)
    ensures
        units_of(encode_units(units)) == units,
    decreases units.len(),
{
    vstd::bytes::lemma_auto_spec_u16_to_from_le_bytes();
    if units.len() == 0 {
        assert(units_of(encode_units(units)) =~= units);
    } else {
        let head = vstd::bytes::spec_u16_to_le_bytes(units[0]);
        let e = encode_units(units);
        lemma_encode_units_len(units.skip(1));
        assert(e.subrange(0, 2) =~= head);
        assert(e.skip(2) =~= encode_units(units.skip(1)));
        lemma_units_of_encode_units(units.skip(1));
        assert(units_of(e) =~= units);
    }
}

/// A unit reserved for the first half of a two-unit pair.
pub open spec fn is_high_surrogate(u: u16) -> bool {
    0xD800 <= u && u <= 0xDBFF
}

/// A unit reserved for the second half of a two-unit pair.
pub open spec fn is_low_surrogate(u: u16) -> bool {
    0xDC00 <= u && u <= 0xDFFF
}

/// The code points that a `char` can hold: everything up to 0x10FFFF except
/// the surrogate range.
pub open spec fn is_scalar_value(v: u32) -> bool {
    v <= 0x10FFFF && !(0xD800 <= v && v <= 0xDFFF)
}

/// The code point encoded by a surrogate pair.
pub open spec fn spec_combine_surrogates(hi: u16, lo: u16) -> u32
    recommends
        is_high_surrogate(hi),
        is_low_surrogate(lo),
{
    (0x10000 + (hi - 0xD800) * 0x400 + (lo - 0xDC00)) as u32
}

/// The text denoted by a sequence of 16-bit units, or `None` when the units
/// are not well formed: a unit outside the surrogate range stands for itself,
/// a high surrogate must be followed directly by a low surrogate, and a low
/// surrogate may not appear on its own.
pub open spec fn utf16_decode(units: Seq<u16>) -> Option<Seq<char>>
    decreases units.len(),
{
    if units.len() == 0 {
        Some(Seq::empty())
    } else if !is_high_surrogate(units[0]) && !is_low_surrogate(units[0]) {
        match utf16_decode(units.skip(1)) {
            Some(rest) => Some(seq![(units[0] as u32) as char] + rest),
            None => None,
        }
    } else if is_high_surrogate(units[0]) && units.len() >= 2 && is_low_surrogate(units[1]) {
        match utf16_decode(units.skip(2)) {
            Some(rest) => Some(seq![spec_combine_surrogates(units[0], units[1]) as char] + rest),
            None => None,
        }
    } else {
        None
    }
}

/// The one or two units that encode a single character.
pub open spec fn spec_encode_char(c: char) -> Seq<u16> {
    if c as u32 <= 0xFFFF {
        seq![(c as u32) as u16]
    } else {
        seq![
            (0xD800 + (c as u32 - 0x10000) / 0x400) as u16,
            (0xDC00 + (c as u32 - 0x10000) % 0x400) as u16,
        ]
    }
}

/// The unit sequence that encodes the given text.
pub open spec fn utf16_encode(text: Seq<char>) -> Seq<u16>
    decreases text.len(),
{
    if text.len() == 0 {
        Seq::empty()
    } else {
        spec_encode_char(text[0]) + utf16_encode(text.skip(1))
    }
}

/// Encoding any text and decoding the units again gives the text back:
/// [`utf16_decode`] inverts [`utf16_encode`] on every character sequence.
pub proof fn lemma_utf16_round_trip(text: Seq<char>)
    ensures
        utf16_decode(utf16_encode(text)) == Some(text),
    decreases text.len(),
{
    if text.len() == 0 {
        assert(utf16_encode(text) =~= Seq::<u16>::empty());
        assert(text =~= Seq::<char>::empty());
    } else {
        let c = text[0];
        let v = c as u32;
        vstd::utf8::char_is_scalar(c);
        assert(is_scalar_value(v));
        lemma_utf16_round_trip(text.skip(1));
        let ec = spec_encode_char(c);
        let rest_units = utf16_encode(text.skip(1));
        let units = utf16_encode(text);
        assert(units == ec + rest_units);
        if v <= 0xFFFF {
            let u0 = (v as u16);
            assert(ec =~= seq![u0]);
            assert(units[0] == u0);
            assert(u0 as u32 == v);
            assert(!is_high_surrogate(u0) && !is_low_surrogate(u0));
            assert(units.skip(1) =~= rest_units);
            vstd::utf8::char_u32_cast(c, v);
            assert((units[0] as u32) as char == c);
            assert(utf16_decode(units) == Some(seq![c] + text.skip(1)));
            assert(seq![c] + text.skip(1) =~= text);
        } else {
            let d = (v - 0x10000) as int;
            assert(0 <= d <= 0xFFFFF);
            let q = d / 0x400;
            let r = d % 0x400;
            vstd::arithmetic::div_mod::lemma_fundamental_div_mod(d, 0x400);
            vstd::arithmetic::div_mod::lemma_mod_bound(d, 0x400);
            assert(0 <= q <= 0x3FF) by {
                vstd::arithmetic::div_mod::lemma_div_is_ordered(0, d, 0x400);
                vstd::arithmetic::div_mod::lemma_div_is_ordered(d, 0xFFFFF, 0x400);
                assert(0xFFFFF as int / 0x400 as int == 0x3FF);
            }
            let hi = (0xD800 + q) as u16;
            let lo = (0xDC00 + r) as u16;
            assert(ec =~= seq![hi, lo]);
            assert(is_high_surrogate(hi));
            assert(is_low_surrogate(lo));
            assert(units.len() >= 2);
            assert(units[0] == hi && units[1] == lo);
            assert(units.skip(2) =~= rest_units);
            assert(spec_combine_surrogates(hi, lo) == v) by {
                assert(0x10000 + (hi - 0xD800) * 0x400 + (lo - 0xDC00) == 0x10000 + q * 0x400 + r);
            }
            vstd::utf8::char_u32_cast(c, v);
            assert(spec_combine_surrogates(units[0], units[1]) as char == c);
            assert(utf16_decode(units) == Some(seq![c] + text.skip(1)));
            assert(seq![c] + text.skip(1) =~= text);
        }
    }
}

/// Relies on `char::from_u32` of std: it returns `Some` exactly on code
/// points below 0x110000 that are not surrogates, and the resulting `char`
/// has the given code point.
pub assume_specification[ char::from_u32 ](v: u32) -> (r: Option<char>)
    ensures
        r is Some <==> is_scalar_value(v),
        r matches Some(c) ==> c as u32 == v,
;

/// Relies on `String::push` of std: it appends the given character to the
/// end of the string.
pub assume_specification[ String::push ](s: &mut String, c: char)
    ensures
        final(s)@ == old(s)@.push(c),
;

/// Decode a sequence of 16-bit character units into text, failing on unit
/// sequences that [`utf16_decode`] gives no meaning.
pub fn decode_utf16_units(units: &Vec<u16>) -> (r: Result<String, DecodeError>)
    ensures
        match r {
            Ok(s) => utf16_decode(units@) == Some(s@),
            Err(e) => e == DecodeError::InvalidEncoding && utf16_decode(units@) is None,
        },
{
    let mut out = String::new();
    let mut i: usize = 0;
    proof {
        match utf16_decode(units@) {
            Some(rest) => {
                assert(units@.skip(0) =~= units@);
                assert(Seq::<char>::empty() + rest =~= rest);
            },
            None => {
                assert(units@.skip(0) =~= units@);
            },
        }
    }
    while i < units.len()
        invariant
            0 <= i <= units@.len(),
            utf16_decode(units@) == match utf16_decode(units@.skip(i as int)) {
                Some(rest) => Some(out@ + rest),
                None => None::<Seq<char>>,
            },
        decreases units@.len() - i,
    {
        let ghost tail = units@.skip(i as int);
        let u = units[i];
        assert(tail[0] == u);
        if !(0xD800 <= u && u <= 0xDFFF) {
            assert(is_scalar_value(u as u32));
            let co = char::from_u32(u as u32);
            let c = co.unwrap();
            let ghost prev = out@;
            out.push(c);
            i = i + 1;
            proof {
                assert(units@.skip(i as int) =~= tail.skip(1));
                assert((u as u32) as char == c) by {
                    vstd::utf8::char_u32_cast(c, u as u32);
                }
                match utf16_decode(tail.skip(1)) {
                    Some(rest) => {
                        assert(utf16_decode(tail) == Some(seq![c] + rest));
                        assert(prev + (seq![c] + rest) =~= out@ + rest);
                    },
                    None => {},
                }
            }
        } else if u <= 0xDBFF && i + 1 < units.len() && 0xDC00 <= units[i + 1]
            && units[i + 1] <= 0xDFFF {
            let u2 = units[i + 1];
            assert(tail.len() >= 2 && tail[1] == u2);
            let cp: u32 = 0x10000 + (u - 0xD800) as u32 * 0x400 + (u2 - 0xDC00) as u32;
            assert(cp == spec_combine_surrogates(u, u2));
            assert(is_scalar_value(cp));
            let co = char::from_u32(cp);
            let c = co.unwrap();
            let ghost prev = out@;
            out.push(c);
            i = i + 2;
            proof {
                assert(units@.skip(i as int) =~= tail.skip(2));
                assert(cp as char == c) by {
                    vstd::utf8::char_u32_cast(c, cp);
                }
                match utf16_decode(tail.skip(2)) {
                    Some(rest) => {
                        assert(utf16_decode(tail) == Some(seq![c] + rest));
                        assert(prev + (seq![c] + rest) =~= out@ + rest);
                    },
                    None => {},
                }
            }
        } else {
            proof {
                assert(utf16_decode(tail) is None);
            }
            return Err(DecodeError::InvalidEncoding);
        }
    }
    proof {
        assert(units@.skip(i as int) =~= Seq::<u16>::empty());
        assert(utf16_decode(units@) == Some(out@ + Seq::<char>::empty()));
        assert(out@ + Seq::<char>::empty() =~= out@);
    }
    Ok(out)
}

} // verus!
