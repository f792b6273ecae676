use vstd::prelude::*;

use crate::alphabet::Alphabet;
use crate::alphabet::VariantTag;
use crate::alphabet::lemma_symbol_value_inverse;
use crate::alphabet::resolve_variant;
use crate::alphabet::spec_resolve;
use crate::alphabet::symbol_code;
use crate::alphabet::symbols;
use crate::bits::pack5;
use crate::bits::stream_bit;
use crate::error::CodecError;

verus! {

/// How many symbol characters the encoding of `n` bytes has before padding:
/// one per 5-bit group, the last group zero-filled.
pub open spec fn n_groups(n: int) -> int {
    (8 * n + 4) / 5
}

/// The `g`-th 5-bit group of the input's big-endian bit stream, the final
/// group right-padded with zero bits.
pub open spec fn group_val(data: Seq<u8>, g: int) -> u8 {
    pack5(
        stream_bit(data, 5 * g),
        stream_bit(data, 5 * g + 1),
        stream_bit(data, 5 * g + 2),
        stream_bit(data, 5 * g + 3),
        stream_bit(data, 5 * g + 4),
    )
}

/// The symbol characters of an encoding, before any padding.
pub open spec fn encoded_body(tag: VariantTag, data: Seq<u8>) -> Seq<char> {
    Seq::new(n_groups(data.len() as int) as nat, |g: int| symbols(tag)[group_val(data, g) as int])
}

/// How many `=` characters pad a body of `body_len` symbols out to a
/// multiple of the 8-character RFC 4648 block length.
pub open spec fn pad_len(body_len: int) -> int {
    (8 - body_len % 8) % 8
}

/// The full encoding of `data` under a resolved alphabet descriptor: the
/// symbol characters, followed by `=` padding exactly when the descriptor
/// asks for it.
pub open spec fn spec_encode_with(alphabet: Alphabet, data: Seq<u8>) -> Seq<char> {
    let body = encoded_body(alphabet.tag, data);
    if alphabet.spec_pads() {
        body + Seq::new(pad_len(body.len() as int) as nat, |i: int| '=')
    } else {
        body
    }
}

/// What `encode` returns for every input: the encoding under the resolved
/// alphabet, or `InvalidVariant` for an unrecognized variant name.
pub open spec fn spec_encode(data: Seq<u8>, variant: Seq<char>, padding: bool) -> Result<
    Seq<char>,
    CodecError,
> {
    match spec_resolve(variant, padding) {
        Ok(alphabet) => Ok(spec_encode_with(alphabet, data)),
        Err(e) => Err(e),
    }
}

/// The stream length `5 * n_groups(n)` is the least multiple of 5 at or
/// above `8 * n`.
pub proof fn lemma_stream_len(n: int)
    requires
        n >= 0,
    ensures
        8 * n <= 5 * n_groups(n) < 8 * n + 5,
{
    assert(8 * n + 4 == 5 * ((8 * n + 4) / 5) + (8 * n + 4) % 5);
}

/// Relies on `String::from_utf8`: a sequence of bytes below 128 is valid
/// UTF-8 and decodes to one character per byte, with the same code, so the
/// call never reaches the error case.
#[verifier::external_body]
fn ascii_string(bytes: Vec<u8>) -> (r: String)
    requires
        forall|i: int| 0 <= i < bytes@.len() ==> bytes@[i] < 128,
    ensures
        r@.len() == bytes@.len(),
        forall|i: int| 0 <= i < bytes@.len() ==> r@[i] as u32 == bytes@[i] as u32,
{
    String::from_utf8(bytes).unwrap()
}

/// The input as a big-endian bit stream, zero-filled at the end to a whole
/// number of 5-bit groups.
fn bit_stream(data: &[u8]) -> (bits: Vec<bool>)
    ensures
        bits@.len() == 5 * n_groups(data@.len() as int),
        forall|j: int| 0 <= j < bits@.len() ==> bits@[j] == stream_bit(data@, j),
{
    let n = data.len();
    let mut bits: Vec<bool> = Vec::new();
    let mut i: usize = 0;
    while i < n
        invariant
            i <= n,
            n == data@.len(),
            bits@.len() == 8 * i,
            forall|j: int| 0 <= j < 8 * i ==> bits@[j] == stream_bit(data@, j),
        decreases n - i,
    {
        let b = data[i];
        bits.push(b / 128 % 2 == 1);
        bits.push(b / 64 % 2 == 1);
        bits.push(b / 32 % 2 == 1);
        bits.push(b / 16 % 2 == 1);
        bits.push(b / 8 % 2 == 1);
        bits.push(b / 4 % 2 == 1);
        bits.push(b / 2 % 2 == 1);
        bits.push(b % 2 == 1);
        proof {
            assert forall|j: int| 8 * i <= j < 8 * (i + 1) implies bits@[j] == stream_bit(
                data@,
                j,
            ) by {
                assert(j / 8 == i && j % 8 == j - 8 * i);
            }
        }
        i += 1;
    }
    proof {
        lemma_stream_len(n as int);
    }
    while bits.len() % 5 != 0
        invariant
            n == data@.len(),
            8 * n <= bits@.len() <= 5 * n_groups(n as int),
            forall|j: int| 0 <= j < bits@.len() ==> bits@[j] == stream_bit(data@, j),
        decreases 5 * n_groups(n as int) - bits@.len(),
    {
        proof {
            lemma_stream_len(n as int);
        }
        bits.push(false);
    }
    proof {
        lemma_stream_len(n as int);
        assert(bits@.len() == 5 * n_groups(n as int));
    }
    bits
}

/// The ASCII codes of the encoding's symbol characters, one per 5-bit group.
fn body_codes(tag: VariantTag, data: &[u8]) -> (out: Vec<u8>)
    ensures
        out@.len() == n_groups(data@.len() as int),
        forall|g: int|
            0 <= g < out@.len() ==> (#[trigger] out@[g]) < 128 && out@[g] as u32 == encoded_body(
                tag,
                data@,
            )[g] as u32,
{
    let ghost body = encoded_body(tag, data@);
    let bits = bit_stream(data);
    let mut out: Vec<u8> = Vec::new();
    let mut p: usize = 0;
    let mut q: usize = 0;
    while p < bits.len()
        invariant
            bits@.len() == 5 * n_groups(data@.len() as int),
            p == 5 * q,
            p <= bits@.len(),
            forall|j: int| 0 <= j < bits@.len() ==> bits@[j] == stream_bit(data@, j),
            body == encoded_body(tag, data@),
            out@.len() == q,
            forall|g: int|
                0 <= g < q ==> (#[trigger] out@[g]) < 128 && out@[g] as u32 == body[g] as u32,
        decreases bits@.len() - p,
    {
        assert(p + 5 <= bits@.len());
        let b0 = bits[p];
        let b1 = bits[p + 1];
        let b2 = bits[p + 2];
        let b3 = bits[p + 3];
        let b4 = bits[p + 4];
        let v: u8 = (if b0 {
            16
        } else {
            0
        }) + (if b1 {
            8
        } else {
            0
        }) + (if b2 {
            4
        } else {
            0
        }) + (if b3 {
            2
        } else {
            0
        }) + (if b4 {
            1
        } else {
            0
        });
        proof {
            assert(b0 == stream_bit(data@, 5 * q));
            assert(b1 == stream_bit(data@, 5 * q + 1));
            assert(b2 == stream_bit(data@, 5 * q + 2));
            assert(b3 == stream_bit(data@, 5 * q + 3));
            assert(b4 == stream_bit(data@, 5 * q + 4));
            assert(v == group_val(data@, q as int));
            lemma_symbol_value_inverse(tag, v);
            assert(q < n_groups(data@.len() as int));
            assert(body[q as int] == symbols(tag)[group_val(data@, q as int) as int]);
        }
        let c = symbol_code(tag, v);
        let ghost prev = out@;
        out.push(c);
        proof {
            assert(out@ == prev.push(c));
            assert(out@[q as int] as u32 == body[q as int] as u32);
            assert forall|g: int|
                0 <= g < q + 1 implies (#[trigger] out@[g]) < 128 && out@[g] as u32 == body[g] as u32 by {
                if g < q {
                    assert(out@[g] == prev[g]);
                }
            }
        }
        p += 5;
        q += 1;
    }
    out
}

/// Encode a byte sequence under an already resolved alphabet descriptor.
/// Total: every byte sequence is encodable.
pub fn encode_with(alphabet: Alphabet, data: &[u8]) -> (r: String)
    ensures
        r@ == spec_encode_with(alphabet, data@),
{
    let ghost body = encoded_body(alphabet.tag, data@);
    let mut out = body_codes(alphabet.tag, data);

    // RFC 4648 padding out to a multiple of the 8-character block length.
    let pads = match alphabet.tag {
        VariantTag::Rfc4648 => alphabet.padding_enabled,
        VariantTag::Crockford => false,
    };
    if pads {
        let ghost bl = body.len() as int;
        proof {
            assert(bl <= bl + pad_len(bl) < bl + 8);
            assert((bl + pad_len(bl)) % 8 == 0);
        }
        while out.len() % 8 != 0
            invariant
                body == encoded_body(alphabet.tag, data@),
                body.len() <= out@.len() <= body.len() + pad_len(body.len() as int),
                forall|g: int|
                    0 <= g < body.len() ==> (#[trigger] out@[g]) < 128 && out@[g] as u32
                        == body[g] as u32,
                forall|j: int| body.len() <= j < out@.len() ==> out@[j] == 61,
                (body.len() + pad_len(body.len() as int)) % 8 == 0,
            decreases body.len() + pad_len(body.len() as int) - out@.len(),
        {
            out.push(61);
        }
    }

    let r = ascii_string(out);
    proof {
        let s = spec_encode_with(alphabet, data@);
        assert(alphabet.spec_pads() == pads);
        assert forall|j: int| 0 <= j < s.len() implies r@[j] == s[j] by {
            let u = r@[j] as u32;
            vstd::utf8::char_u32_cast(r@[j], u);
            if j < body.len() {
                assert(u == body[j] as u32);
                vstd::utf8::char_u32_cast(body[j], u);
            } else {
                assert(u == 61);
                assert('=' as u32 == 61);
                vstd::utf8::char_u32_cast('=', u);
                assert(s[j] == '=');
            }
        }
        assert(r@ =~= s);
    }
    r
}

/// Encode a byte sequence as base32 text.
///
/// The variant name selects the alphabet, case-insensitively: `"rfc4648"`
/// (with `=` padding exactly when `padding` is set) or `"crockford"` (the
/// padding flag is accepted and ignored). Any other name fails with
/// `InvalidVariant`; encoding itself is total over all byte sequences.
pub fn encode(data: &[u8], variant: &str, padding: bool) -> (r: Result<String, CodecError>)
    ensures
        match spec_encode(data@, variant@, padding) {
            Ok(s) => r is Ok && r.unwrap()@ == s,
            Err(e) => r == Err::<String, CodecError>(e),
        },
{
    let alphabet = match resolve_variant(variant, padding) {
        Ok(a) => a,
        Err(e) => {
            return Err(e);
        },
    };
    Ok(encode_with(alphabet, data))
}

} // verus!
