use vstd::prelude::*;

use crate::alphabet::Alphabet;
use crate::alphabet::VariantTag;
use crate::alphabet::lemma_symbol_value_inverse;
use crate::alphabet::spec_resolve;
use crate::alphabet::spec_variant_of;
use crate::alphabet::value_of;
use crate::bits::lemma_pack8_of_byte_bits;
use crate::bits::lemma_sym_bits_of_pack5;
use crate::bits::stream_bit;
use crate::bits::sym_stream_bit;
use crate::decoder::all_valid;
use crate::decoder::decode_ok;
use crate::decoder::decoded_byte;
use crate::decoder::decoded_bytes;
use crate::decoder::lemma_strip_pad_at;
use crate::decoder::spec_decode;
use crate::decoder::spec_decode_with;
use crate::decoder::stripped;
use crate::decoder::values_of;
use crate::encoder::encoded_body;
use crate::encoder::group_val;
use crate::encoder::n_groups;
use crate::encoder::pad_len;
use crate::encoder::spec_encode;
use crate::encoder::spec_encode_with;

verus! {

/// The decoder sees the encoder's symbols: stripping an encoding leaves
/// exactly the body, whether or not padding was appended.
proof fn lemma_stripped_encoding(alphabet: Alphabet, data: Seq<u8>)
    ensures
        stripped(alphabet.tag, spec_encode_with(alphabet, data)) == encoded_body(
            alphabet.tag,
            data,
        ),
{
    let tag = alphabet.tag;
    let body = encoded_body(tag, data);
    let enc = spec_encode_with(alphabet, data);
    assert forall|g: int| 0 <= g < body.len() implies body[g] != '=' by {
        lemma_symbol_value_inverse(tag, group_val(data, g));
    }
    match tag {
        VariantTag::Rfc4648 => {
            if alphabet.spec_pads() {
                assert forall|j: int| body.len() <= j < enc.len() implies enc[j] == '=' by {
                    assert(enc[j] == Seq::new(
                        pad_len(body.len() as int) as nat,
                        |i: int| '=',
                    )[j - body.len()]);
                }
                lemma_strip_pad_at(enc, body.len() as int);
                assert(enc.take(body.len() as int) =~= body);
            } else {
                lemma_strip_pad_at(enc, enc.len() as int);
                assert(enc.take(enc.len() as int) =~= body);
            }
        },
        VariantTag::Crockford => {
            assert(!alphabet.spec_pads());
        },
    }
}

/// Each bit of the concatenated symbol values of an encoding is the
/// corresponding bit of the input's own bit stream.
proof fn lemma_bits_recovered(data: Seq<u8>, j: int)
    requires
        0 <= j < 5 * n_groups(data.len() as int),
    ensures
        sym_stream_bit(Seq::new(n_groups(data.len() as int) as nat, |g: int| group_val(data, g)), j)
            == stream_bit(data, j),
{
    let vals = Seq::new(n_groups(data.len() as int) as nat, |g: int| group_val(data, g));
    let g = j / 5;
    let k = j % 5;
    assert(5 * g + k == j);
    assert(vals[g] == group_val(data, g));
    lemma_sym_bits_of_pack5(
        stream_bit(data, 5 * g),
        stream_bit(data, 5 * g + 1),
        stream_bit(data, 5 * g + 2),
        stream_bit(data, 5 * g + 3),
        stream_bit(data, 5 * g + 4),
    );
}

/// Round trip: decoding an encoding, under the same alphabet descriptor,
/// gives back exactly the bytes that were encoded — for every byte sequence,
/// both alphabets, and either padding setting.
pub proof fn lemma_round_trip(alphabet: Alphabet, data: Seq<u8>)
    ensures
        spec_decode_with(alphabet, spec_encode_with(alphabet, data)) == Ok::<
            Seq<u8>,
            crate::error::CodecError,
        >(data),
{
    let tag = alphabet.tag;
    let n = data.len() as int;
    let ng = n_groups(n);
    let body = encoded_body(tag, data);
    let enc = spec_encode_with(alphabet, data);
    lemma_stripped_encoding(alphabet, data);

    let gvals = Seq::new(ng as nat, |g: int| group_val(data, g));
    assert forall|g: int| 0 <= g < body.len() implies (#[trigger] value_of(tag, body[g]))
        == Some(gvals[g]) by {
        lemma_symbol_value_inverse(tag, group_val(data, g));
    }
    assert(all_valid(tag, body));
    assert(decode_ok(tag, enc));
    assert(values_of(tag, body) =~= gvals);

    // The stream has 5 * n_groups(n) bits, of which the first 8 * n carry
    // the input and the rest are zero fill, so exactly n bytes come back.
    crate::encoder::lemma_stream_len(n);
    assert((8 * n + (5 * ng - 8 * n)) / 8 == n);
    assert(decoded_bytes(tag, enc).len() == n);

    assert forall|i: int| 0 <= i < n implies decoded_bytes(tag, enc)[i] == data[i] by {
        reveal(decoded_byte);
        assert(decoded_bytes(tag, enc)[i] == decoded_byte(gvals, i));
        lemma_bits_recovered(data, 8 * i);
        lemma_bits_recovered(data, 8 * i + 1);
        lemma_bits_recovered(data, 8 * i + 2);
        lemma_bits_recovered(data, 8 * i + 3);
        lemma_bits_recovered(data, 8 * i + 4);
        lemma_bits_recovered(data, 8 * i + 5);
        lemma_bits_recovered(data, 8 * i + 6);
        lemma_bits_recovered(data, 8 * i + 7);
        assert forall|k: int| 0 <= k < 8 implies stream_bit(data, 8 * i + k) == crate::bits::byte_bit(
            data[i],
            k,
        ) by {
            assert((8 * i + k) / 8 == i && (8 * i + k) % 8 == k);
        }
        lemma_pack8_of_byte_bits(data[i]);
    }
    assert(decoded_bytes(tag, enc) =~= data);
}

/// Round trip, stated over the public entry points: for any recognized
/// variant name and padding flag, `decode` undoes `encode`.
pub proof fn lemma_round_trip_named(data: Seq<u8>, variant: Seq<char>, padding: bool)
    requires
        spec_variant_of(variant) is Some,
    ensures
        spec_encode(data, variant, padding) is Ok,
        spec_decode(spec_encode(data, variant, padding).unwrap(), variant, padding) == Ok::<
            Seq<u8>,
            crate::error::CodecError,
        >(data),
{
    let alphabet = spec_resolve(variant, padding).unwrap();
    lemma_round_trip(alphabet, data);
}

/// Decoding ignores the padding flag: for any input and any variant name,
/// decoding with the flag set and cleared agree. In particular RFC 4648
/// padding is optional on decode.
pub proof fn lemma_decode_padding_agnostic(s: Seq<char>, variant: Seq<char>)
    ensures
        spec_decode(s, variant, true) == spec_decode(s, variant, false),
{
}

/// Empty input: encoding no bytes gives empty text and decoding empty text
/// gives no bytes, for both variants and both padding settings.
pub proof fn lemma_empty(variant: Seq<char>, padding: bool)
    requires
        spec_variant_of(variant) is Some,
    ensures
        spec_encode(Seq::<u8>::empty(), variant, padding) == Ok::<
            Seq<char>,
            crate::error::CodecError,
        >(Seq::<char>::empty()),
        spec_decode(Seq::<char>::empty(), variant, padding) == Ok::<
            Seq<u8>,
            crate::error::CodecError,
        >(Seq::<u8>::empty()),
{
    let alphabet = spec_resolve(variant, padding).unwrap();
    let tag = alphabet.tag;
    assert(n_groups(0) == 0);
    assert(spec_encode_with(alphabet, Seq::<u8>::empty()) =~= Seq::<char>::empty());
    assert(stripped(tag, Seq::<char>::empty()) =~= Seq::<char>::empty());
    assert(decoded_bytes(tag, Seq::<char>::empty()) =~= Seq::<u8>::empty());
}

/// The encoding's length: one symbol per 5-bit group before padding, and a
/// multiple of the 8-character block length when padding is on.
pub proof fn lemma_encoded_length(alphabet: Alphabet, data: Seq<u8>)
    ensures
        encoded_body(alphabet.tag, data).len() == (8 * data.len() + 4) / 5,
        !alphabet.spec_pads() ==> spec_encode_with(alphabet, data).len() == (8 * data.len() + 4)
            / 5,
        alphabet.spec_pads() ==> spec_encode_with(alphabet, data).len() % 8 == 0,
        spec_encode_with(alphabet, data).len() < (8 * data.len() + 4) / 5 + 8,
        data.len() == 0 ==> spec_encode_with(alphabet, data).len() == 0,
{
    let bl = encoded_body(alphabet.tag, data).len() as int;
    assert((bl + pad_len(bl)) % 8 == 0);
    assert(pad_len(bl) < 8);
}

/// Crockford decoding depends only on symbol values: two inputs of the same
/// length whose characters carry the same 5-bit values (so: differing in
/// case, or writing `O` for `0` and `I`/`L` for `1`) decode identically.
pub proof fn lemma_crockford_value_equivalence(alphabet: Alphabet, s: Seq<char>, t: Seq<char>)
    requires
        alphabet.tag is Crockford,
        s.len() == t.len(),
        forall|i: int|
            0 <= i < s.len() ==> (#[trigger] value_of(VariantTag::Crockford, s[i])) == value_of(
                VariantTag::Crockford,
                t[i],
            ),
    ensures
        spec_decode_with(alphabet, s) == spec_decode_with(alphabet, t),
{
    let tag = alphabet.tag;
    assert(stripped(tag, s) == s && stripped(tag, t) == t);
    assert(all_valid(tag, s) == all_valid(tag, t)) by {
        if all_valid(tag, s) {
            assert forall|i: int| 0 <= i < t.len() implies (#[trigger] value_of(tag, t[i]))
                is Some by {
                assert(value_of(tag, s[i]) is Some);
            }
        }
        if all_valid(tag, t) {
            assert forall|i: int| 0 <= i < s.len() implies (#[trigger] value_of(tag, s[i]))
                is Some by {
                assert(value_of(tag, t[i]) is Some);
            }
        }
    }
    if all_valid(tag, s) {
        assert(values_of(tag, s) =~= values_of(tag, t));
        assert(decoded_bytes(tag, s) =~= decoded_bytes(tag, t));
    }
}

/// The Crockford reverse table folds case: a lower-case ASCII letter carries
/// the same value as its upper-case form.
pub proof fn lemma_crockford_case_fold(x: u32)
    requires
        97 <= x <= 122,
    ensures
        crate::alphabet::crockford_value_of_code(x) == crate::alphabet::crockford_value_of_code(
            (x - 32) as u32,
        ),
{
}

/// The documented Crockford aliases: `O` (either case) reads as `0`, and
/// `I` and `L` (either case) read as `1`.
pub proof fn lemma_crockford_aliases()
    ensures
        value_of(VariantTag::Crockford, 'O') == value_of(VariantTag::Crockford, '0'),
        value_of(VariantTag::Crockford, 'o') == value_of(VariantTag::Crockford, '0'),
        value_of(VariantTag::Crockford, 'I') == value_of(VariantTag::Crockford, '1'),
        value_of(VariantTag::Crockford, 'i') == value_of(VariantTag::Crockford, '1'),
        value_of(VariantTag::Crockford, 'L') == value_of(VariantTag::Crockford, '1'),
        value_of(VariantTag::Crockford, 'l') == value_of(VariantTag::Crockford, '1'),
        value_of(VariantTag::Crockford, '0') == Some(0u8),
        value_of(VariantTag::Crockford, '1') == Some(1u8),
{
}

} // verus!
