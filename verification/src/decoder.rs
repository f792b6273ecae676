use vstd::prelude::*;

use crate::alphabet::Alphabet;
use crate::alphabet::VariantTag;
use crate::alphabet::resolve_variant;
use crate::alphabet::spec_resolve;
use crate::alphabet::symbol_value;
use crate::alphabet::value_of;
use crate::alphabet::value_of_code;
use crate::bits::pack8;
use crate::bits::sym_stream_bit;
use crate::error::CodecError;

verus! {

/// The input with every trailing `=` removed.
pub open spec fn strip_pad(s: Seq<char>) -> Seq<char>
    decreases s.len(),
{
    if s.len() > 0 && s.last() == '=' {
        strip_pad(s.drop_last())
    } else {
        s
    }
}

/// What the decoder actually decodes: RFC 4648 accepts (and removes) any
/// amount of trailing padding, Crockford has no padding concept at all.
pub open spec fn stripped(tag: VariantTag, s: Seq<char>) -> Seq<char> {
    match tag {
        VariantTag::Rfc4648 => strip_pad(s),
        VariantTag::Crockford => s,
    }
}

/// Every character is a valid symbol of the alphabet.
pub open spec fn all_valid(tag: VariantTag, s: Seq<char>) -> bool {
    forall|i: int| 0 <= i < s.len() ==> (#[trigger] value_of(tag, s[i])) is Some
}

/// The 5-bit values of a sequence of valid symbol characters.
pub open spec fn values_of(tag: VariantTag, s: Seq<char>) -> Seq<u8> {
    Seq::new(s.len(), |i: int| value_of(tag, s[i]).unwrap())
}

/// Whether decoding succeeds: after stripping, only valid symbols remain.
pub open spec fn decode_ok(tag: VariantTag, s: Seq<char>) -> bool {
    all_valid(tag, stripped(tag, s))
}

/// Byte `i` of the decoding: eight consecutive bits of the concatenated
/// 5-bit symbol values, most significant bit first.
#[verifier::opaque]
pub open spec fn decoded_byte(vals: Seq<u8>, i: int) -> u8 {
    pack8(
        sym_stream_bit(vals, 8 * i),
        sym_stream_bit(vals, 8 * i + 1),
        sym_stream_bit(vals, 8 * i + 2),
        sym_stream_bit(vals, 8 * i + 3),
        sym_stream_bit(vals, 8 * i + 4),
        sym_stream_bit(vals, 8 * i + 5),
        sym_stream_bit(vals, 8 * i + 6),
        sym_stream_bit(vals, 8 * i + 7),
    )
}

/// The bytes a valid input decodes to: all complete groups of eight bits,
/// trailing leftover bits silently discarded.
pub open spec fn decoded_bytes(tag: VariantTag, s: Seq<char>) -> Seq<u8> {
    let vals = values_of(tag, stripped(tag, s));
    Seq::new(((5 * vals.len()) / 8) as nat, |i: int| decoded_byte(vals, i))
}

/// The decoding of `s` under a resolved alphabet descriptor. The stored
/// padding flag plays no part: RFC 4648 padding is optional on decode either
/// way.
pub open spec fn spec_decode_with(alphabet: Alphabet, s: Seq<char>) -> Result<Seq<u8>, CodecError> {
    if decode_ok(alphabet.tag, s) {
        Ok(decoded_bytes(alphabet.tag, s))
    } else {
        Err(CodecError::DecodeError)
    }
}

/// What `decode` returns for every input: the decoding under the resolved
/// alphabet, or `InvalidVariant` for an unrecognized variant name.
pub open spec fn spec_decode(s: Seq<char>, variant: Seq<char>, padding: bool) -> Result<
    Seq<u8>,
    CodecError,
> {
    match spec_resolve(variant, padding) {
        Ok(alphabet) => spec_decode_with(alphabet, s),
        Err(e) => Err(e),
    }
}

/// Every `char` is a Unicode scalar value: at least `'\0'`, with a code
/// point inside the `char` range.
pub proof fn lemma_char_scalar(c: char)
    ensures
        '\0' <= c,
        c as u32 <= 0x10FFFF,
{
}

/// Order on `char` agrees with order on code points.
pub proof fn lemma_char_cmp(c1: char, c2: char)
    ensures
        c1 <= c2 <==> c1 as u32 <= c2 as u32,
{
}

/// Stripping keeps an `=`-free prefix and removes only `=` characters.
pub proof fn lemma_strip_pad_shape(s: Seq<char>)
    ensures
        strip_pad(s).len() <= s.len(),
        strip_pad(s) == s.take(strip_pad(s).len() as int),
        forall|j: int| strip_pad(s).len() <= j < s.len() ==> s[j] == '=',
        strip_pad(s).len() > 0 ==> s[strip_pad(s).len() - 1] != '=',
    decreases s.len(),
{
    if s.len() > 0 && s.last() == '=' {
        lemma_strip_pad_shape(s.drop_last());
        assert(s.drop_last() == s.take(s.len() - 1));
        let k = strip_pad(s).len() as int;
        assert(strip_pad(s) == s.drop_last().take(k));
        assert(s.drop_last().take(k) =~= s.take(k));
        assert forall|j: int| k <= j < s.len() implies s[j] == '=' by {
            if j < s.len() - 1 {
                assert(s.drop_last()[j] == '=');
            } else {
                assert(s[j] == s.last());
            }
        }
    } else {
        assert(s.take(s.len() as int) =~= s);
    }
}

/// A code point above 127 is a valid symbol of no alphabet, so text with a
/// character outside ASCII never decodes.
pub proof fn lemma_non_ascii_invalid(tag: VariantTag, s: Seq<char>)
    requires
        !vstd::utf8::is_ascii_chars(s),
    ensures
        !decode_ok(tag, s),
{
    assert(exists|i: int| 0 <= i < s.len() && !('\0' <= #[trigger] s[i] <= '\u{7f}'));
    let i = choose|i: int| 0 <= i < s.len() && !('\0' <= #[trigger] s[i] <= '\u{7f}');
    let c = s[i];
    lemma_char_scalar(c);
    assert(c > '\u{7f}');
    lemma_char_cmp(c, '\u{7f}');
    assert('\u{7f}' as u32 == 127);
    assert(c as u32 > 127);
    assert(value_of(tag, c) is None);
    let st = stripped(tag, s);
    match tag {
        VariantTag::Rfc4648 => {
            lemma_strip_pad_shape(s);
            assert('=' as u32 == 61);
            assert(c != '=');
            assert(i < st.len() && st[i] == c);
        },
        VariantTag::Crockford => {
            assert(st[i] == c);
        },
    }
    assert(!(value_of(tag, st[i]) is Some));
}

/// Stripping is determined by where the trailing run of `=` begins: if all
/// of `s[m..]` is `=` and `s[m - 1]` is not, the stripped input is `s[..m]`.
pub proof fn lemma_strip_pad_at(s: Seq<char>, m: int)
    requires
        0 <= m <= s.len(),
        forall|j: int| m <= j < s.len() ==> s[j] == '=',
        m > 0 ==> s[m - 1] != '=',
    ensures
        strip_pad(s) == s.take(m),
    decreases s.len(),
{
    if m == s.len() {
        if s.len() > 0 {
            assert(s.last() != '=');
        }
        assert(s.take(m) =~= s);
    } else {
        assert(s.last() == '=');
        let t = s.drop_last();
        assert(t == s.take(s.len() - 1));
        lemma_strip_pad_at(t, m);
        assert(t.take(m) =~= s.take(m));
    }
}

/// The concatenated bit stream of the 5-bit symbol values.
fn sym_bits_vec(vals: &Vec<u8>) -> (bits: Vec<bool>)
    ensures
        bits@.len() == 5 * vals@.len(),
        forall|j: int| 0 <= j < bits@.len() ==> bits@[j] == sym_stream_bit(vals@, j),
{
    let mut bits: Vec<bool> = Vec::new();
    let mut i: usize = 0;
    while i < vals.len()
        invariant
            i <= vals@.len(),
            bits@.len() == 5 * i,
            forall|j: int| 0 <= j < 5 * i ==> bits@[j] == sym_stream_bit(vals@, j),
        decreases vals@.len() - i,
    {
        let v = vals[i];
        bits.push(v / 16 % 2 == 1);
        bits.push(v / 8 % 2 == 1);
        bits.push(v / 4 % 2 == 1);
        bits.push(v / 2 % 2 == 1);
        bits.push(v % 2 == 1);
        proof {
            assert forall|j: int| 5 * i <= j < 5 * (i + 1) implies bits@[j] == sym_stream_bit(
                vals@,
                j,
            ) by {
                assert(j / 5 == i && j % 5 == j - 5 * i);
            }
        }
        i += 1;
    }
    bits
}

/// Pack eight bits, most significant first, into a byte.
fn byte_from(
    b0: bool,
    b1: bool,
    b2: bool,
    b3: bool,
    b4: bool,
    b5: bool,
    b6: bool,
    b7: bool,
) -> (w: u8)
    ensures
        w == pack8(b0, b1, b2, b3, b4, b5, b6, b7),
{
    (if b0 {
        128
    } else {
        0
    }) + (if b1 {
        64
    } else {
        0
    }) + (if b2 {
        32
    } else {
        0
    }) + (if b3 {
        16
    } else {
        0
    }) + (if b4 {
        8
    } else {
        0
    }) + (if b5 {
        4
    } else {
        0
    }) + (if b6 {
        2
    } else {
        0
    }) + (if b7 {
        1
    } else {
        0
    })
}

/// All complete bytes of the symbol values' bit stream, in order; trailing
/// bits that do not fill a byte are discarded.
fn assemble_bytes(vals: &Vec<u8>) -> (out: Vec<u8>)
    ensures
        out@.len() == (5 * vals@.len()) / 8,
        forall|i: int| 0 <= i < out@.len() ==> out@[i] == decoded_byte(vals@, i),
{
    let bits = sym_bits_vec(vals);
    let mut out: Vec<u8> = Vec::new();
    let mut p: usize = 0;
    let mut q: usize = 0;
    while bits.len() - p >= 8
        invariant
            bits@.len() == 5 * vals@.len(),
            p == 8 * q,
            p <= bits@.len(),
            forall|j: int| 0 <= j < bits@.len() ==> bits@[j] == sym_stream_bit(vals@, j),
            out@.len() == q,
            forall|i: int| 0 <= i < q ==> out@[i] == decoded_byte(vals@, i),
        decreases bits@.len() - p,
    {
        let w: u8 = byte_from(
            bits[p],
            bits[p + 1],
            bits[p + 2],
            bits[p + 3],
            bits[p + 4],
            bits[p + 5],
            bits[p + 6],
            bits[p + 7],
        );
        proof {
            reveal(decoded_byte);
            assert(bits@[p as int] == sym_stream_bit(vals@, 8 * q));
            assert(bits@[p + 1] == sym_stream_bit(vals@, 8 * q + 1));
            assert(bits@[p + 2] == sym_stream_bit(vals@, 8 * q + 2));
            assert(bits@[p + 3] == sym_stream_bit(vals@, 8 * q + 3));
            assert(bits@[p + 4] == sym_stream_bit(vals@, 8 * q + 4));
            assert(bits@[p + 5] == sym_stream_bit(vals@, 8 * q + 5));
            assert(bits@[p + 6] == sym_stream_bit(vals@, 8 * q + 6));
            assert(bits@[p + 7] == sym_stream_bit(vals@, 8 * q + 7));
            assert(w == decoded_byte(vals@, q as int));
        }
        out.push(w);
        p += 8;
        q += 1;
    }
    proof {
        assert(out@.len() == (5 * vals@.len()) / 8);
    }
    out
}


/// Decode base32 text under an already resolved alphabet descriptor.
///
/// Succeeds exactly when, after stripping trailing `=` (RFC 4648 only;
/// padding is optional on decode whatever the stored flag says), every
/// remaining character is a valid symbol; otherwise it fails with
/// `DecodeError` and returns no partial result.
pub fn decode_with(alphabet: Alphabet, text: &str) -> (r: Result<Vec<u8>, CodecError>)
    ensures
        match spec_decode_with(alphabet, text@) {
            Ok(b) => r is Ok && r.unwrap()@ == b,
            Err(e) => r == Err::<Vec<u8>, CodecError>(e),
        },
{
    broadcast use vstd::string::is_ascii_spec_bytes;

    let ghost s = text@;
    let tag = alphabet.tag;
    if !text.is_ascii() {
        proof {
            lemma_non_ascii_invalid(tag, s);
        }
        return Err(CodecError::DecodeError);
    }
    let bytes: &[u8] = text.as_bytes();
    let len = bytes.len();
    proof {
        assert(bytes@ =~= Seq::new(s.len(), |i: int| s[i] as u8));
        assert forall|j: int|
            0 <= j < s.len() implies (#[trigger] bytes@[j]) < 128 && bytes@[j] as u32 == s[j] as u32 by {
            assert(bytes@[j] == s[j] as u8);
            assert('\0' <= s[j] <= '\u{7f}');
            lemma_char_scalar(s[j]);
            lemma_char_cmp(s[j], '\u{7f}');
            assert('\u{7f}' as u32 == 127);
        }
    }

    // Strip trailing padding for RFC 4648; Crockford takes the text whole.
    let mut m: usize = len;
    let is_rfc = match tag {
        VariantTag::Rfc4648 => true,
        VariantTag::Crockford => false,
    };
    if is_rfc {
        while m > 0 && bytes[m - 1] == 61
            invariant
                m <= len,
                len == bytes@.len(),
                bytes@.len() == s.len(),
                forall|j: int|
                    0 <= j < s.len() ==> (#[trigger] bytes@[j]) < 128 && bytes@[j] as u32 == s[j] as u32,
                forall|j: int| m <= j < s.len() ==> s[j] == '=',
            decreases m,
        {
            proof {
                let c = s[m - 1];
                assert(bytes@[m - 1] as u32 == c as u32);
                assert(c as u32 == 61);
                vstd::utf8::char_u32_cast(c, 61);
                vstd::utf8::char_u32_cast('=', 61);
                assert('=' as u32 == 61);
                assert(c == '=');
            }
            m -= 1;
        }
    }
    let ghost st = stripped(tag, s);
    proof {
        if is_rfc {
            if m > 0 {
                let c = s[m - 1];
                assert(bytes@[m - 1] as u32 == c as u32);
                assert('=' as u32 == 61);
                assert(c != '=') by {
                    if c == '=' {
                        assert(bytes@[m - 1] == 61);
                    }
                }
            }
            lemma_strip_pad_at(s, m as int);
        }
        assert(st =~= s.take(m as int));
        assert(st.len() == m);
    }

    // Validate every remaining character and collect its 5-bit value.
    let mut vals: Vec<u8> = Vec::new();
    let mut i: usize = 0;
    while i < m
        invariant
            i <= m,
            m <= len,
            len == bytes@.len(),
            bytes@.len() == s.len(),
            s == text@,
            tag == alphabet.tag,
            st == stripped(tag, s),
            st =~= s.take(m as int),
            st.len() == m,
            forall|j: int|
                0 <= j < s.len() ==> (#[trigger] bytes@[j]) < 128 && bytes@[j] as u32 == s[j] as u32,
            vals@.len() == i,
            forall|k: int| 0 <= k < i ==> (#[trigger] value_of(tag, st[k])) == Some(vals@[k]),
        decreases m - i,
    {
        let x = bytes[i];
        proof {
            assert(st[i as int] == s[i as int]);
            assert(value_of(tag, st[i as int]) == value_of_code(tag, bytes@[i as int] as u32));
        }
        match symbol_value(tag, x as u32) {
            Some(v) => {
                vals.push(v);
            },
            None => {
                proof {
                    assert(!(value_of(tag, st[i as int]) is Some));
                    assert(!all_valid(tag, st));
                }
                return Err(CodecError::DecodeError);
            },
        }
        i += 1;
    }
    proof {
        assert(all_valid(tag, st));
        assert(vals@ =~= values_of(tag, st));
    }

    let out = assemble_bytes(&vals);
    proof {
        assert(out@ =~= decoded_bytes(tag, s));
    }
    Ok(out)
}

/// Decode base32 text back to the byte sequence it encodes.
///
/// The variant name selects the alphabet, case-insensitively: `"rfc4648"`
/// (trailing `=` accepted in any amount, with or without the padding flag)
/// or `"crockford"` (case-insensitive, accepting `O` for `0` and `I`/`L` for
/// `1`, and no padding at all). Any other name fails with `InvalidVariant`;
/// text with a character that is not a valid symbol fails with
/// `DecodeError`.
pub fn decode(data: &str, variant: &str, padding: bool) -> (r: Result<Vec<u8>, CodecError>)
    ensures
        match spec_decode(data@, variant@, padding) {
            Ok(b) => r is Ok && r.unwrap()@ == b,
            Err(e) => r == Err::<Vec<u8>, CodecError>(e),
        },
{
    let alphabet = match resolve_variant(variant, padding) {
        Ok(a) => a,
        Err(e) => {
            return Err(e);
        },
    };
    decode_with(alphabet, data)
}

} // verus!
