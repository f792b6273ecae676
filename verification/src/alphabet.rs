use vstd::prelude::*;

use crate::error::CodecError;

verus! {

/// Which of the two supported base32 alphabets a descriptor denotes.
#[derive(Clone, Copy, Debug, PartialEq, Eq)]
pub enum VariantTag {
    Rfc4648,
    Crockford,
}

/// An immutable alphabet descriptor: the alphabet tag plus the padding
/// policy requested by the caller.
///
/// `padding_enabled` is meaningful only for the RFC 4648 alphabet; the
/// Crockford alphabet never emits or requires padding, so the resolver
/// always stores `false` there.
#[derive(Clone, Copy, Debug, PartialEq, Eq)]
pub struct Alphabet {
    pub tag: VariantTag,
    pub padding_enabled: bool,
}

impl Alphabet {
    /// Whether the encoder appends `=` padding for this descriptor.
    pub open spec fn spec_pads(&self) -> bool {
        self.tag is Rfc4648 && self.padding_enabled
    }
}

/// The ordered symbol table of an alphabet: 32 distinct printable ASCII
/// characters, index = 5-bit value.
pub open spec fn symbols(tag: VariantTag) -> Seq<char> {
    match tag {
        VariantTag::Rfc4648 => seq![
            'A', 'B', 'C', 'D', 'E', 'F', 'G', 'H', 'I', 'J', 'K', 'L', 'M', 'N', 'O', 'P',
            'Q', 'R', 'S', 'T', 'U', 'V', 'W', 'X', 'Y', 'Z', '2', '3', '4', '5', '6', '7',
        ],
        VariantTag::Crockford => seq![
            '0', '1', '2', '3', '4', '5', '6', '7', '8', '9', 'A', 'B', 'C', 'D', 'E', 'F',
            'G', 'H', 'J', 'K', 'M', 'N', 'P', 'Q', 'R', 'S', 'T', 'V', 'W', 'X', 'Y', 'Z',
        ],
    }
}

/// The 5-bit value of a symbol character, or `None` if the character is not
/// accepted by the alphabet.
///
/// For RFC 4648 this is the exact inverse of the symbol table. For Crockford
/// it is additionally case-insensitive and accepts the documented aliases
/// `O` for `0` and `I`/`L` for `1`.
pub open spec fn value_of(tag: VariantTag, c: char) -> Option<u8> {
    value_of_code(tag, c as u32)
}

/// `value_of`, stated over the character's code point.
pub open spec fn value_of_code(tag: VariantTag, x: u32) -> Option<u8> {
    match tag {
        VariantTag::Rfc4648 => if 65 <= x <= 90 {
            Some((x - 65) as u8)
        } else if 50 <= x <= 55 {
            Some((x - 24) as u8)
        } else {
            None
        },
        VariantTag::Crockford => crockford_value_of_code(x),
    }
}

/// The Crockford reverse table over code points: fold lower case to upper
/// case, accept the aliases, reject `U` and everything outside the table.
pub open spec fn crockford_value_of_code(x: u32) -> Option<u8> {
    let u = if 97 <= x <= 122 {
        (x - 32) as u32
    } else {
        x
    };
    if 48 <= u <= 57 {
        Some((u - 48) as u8)
    } else if u == 79 {
        Some(0u8)
    } else if u == 73 || u == 76 {
        Some(1u8)
    } else if 65 <= u <= 72 {
        Some((u - 55) as u8)
    } else if u == 74 || u == 75 {
        Some((u - 56) as u8)
    } else if u == 77 || u == 78 {
        Some((u - 57) as u8)
    } else if 80 <= u <= 84 {
        Some((u - 58) as u8)
    } else if 86 <= u <= 90 {
        Some((u - 59) as u8)
    } else {
        None
    }
}

/// The ASCII code of `symbols(tag)[v]`, computed without a table in memory.
pub fn symbol_code(tag: VariantTag, v: u8) -> (r: u8)
    requires
        v < 32,
    ensures
        r as u32 == symbols(tag)[v as int] as u32,
        r < 128,
{
    match tag {
        VariantTag::Rfc4648 => if v < 26 {
            65 + v
        } else {
            // '2' is code 50 and stands at index 26
            24 + v
        },
        VariantTag::Crockford => if v < 10 {
            48 + v
        } else if v < 18 {
            55 + v
        } else if v < 20 {
            56 + v
        } else if v < 22 {
            57 + v
        } else if v < 27 {
            58 + v
        } else {
            59 + v
        },
    }
}

/// Reverse lookup over a code point, mirroring `value_of_code`.
pub fn symbol_value(tag: VariantTag, x: u32) -> (r: Option<u8>)
    ensures
        r == value_of_code(tag, x),
{
    match tag {
        VariantTag::Rfc4648 => if 65 <= x && x <= 90 {
            Some((x - 65) as u8)
        } else if 50 <= x && x <= 55 {
            Some((x - 24) as u8)
        } else {
            None
        },
        VariantTag::Crockford => {
            let u: u32 = if 97 <= x && x <= 122 {
                x - 32
            } else {
                x
            };
            if 48 <= u && u <= 57 {
                Some((u - 48) as u8)
            } else if u == 79 {
                Some(0)
            } else if u == 73 || u == 76 {
                Some(1)
            } else if 65 <= u && u <= 72 {
                Some((u - 55) as u8)
            } else if u == 74 || u == 75 {
                Some((u - 56) as u8)
            } else if u == 77 || u == 78 {
                Some((u - 57) as u8)
            } else if 80 <= u && u <= 84 {
                Some((u - 58) as u8)
            } else if 86 <= u && u <= 90 {
                Some((u - 59) as u8)
            } else {
                None
            }
        },
    }
}

/// Every symbol of either table is plain ASCII, is not the padding
/// character, and decodes back to its own index.
pub proof fn lemma_symbol_value_inverse(tag: VariantTag, v: u8)
    requires
        v < 32,
    ensures
        symbols(tag).len() == 32,
        (symbols(tag)[v as int] as u32) < 128,
        symbols(tag)[v as int] != '=',
        value_of(tag, symbols(tag)[v as int]) == Some(v),
{
}

/// The 32 symbols of each table are pairwise distinct: two different 5-bit
/// values never encode to the same character.
pub proof fn lemma_symbols_distinct(tag: VariantTag, v1: u8, v2: u8)
    requires
        v1 < 32,
        v2 < 32,
        v1 != v2,
    ensures
        symbols(tag)[v1 as int] != symbols(tag)[v2 as int],
{
    lemma_symbol_value_inverse(tag, v1);
    lemma_symbol_value_inverse(tag, v2);
}

/// Case-insensitive match of `c` against a reference character `l`, where
/// `l` is a lower-case ASCII letter or a digit.
pub open spec fn matches_ci(c: char, l: char) -> bool {
    c == l || c as u32 == l as u32 - 32
}

/// Which alphabet a variant name denotes: `"rfc4648"` or `"crockford"`,
/// case-insensitively, matched exactly on the full string.
pub open spec fn spec_variant_of(name: Seq<char>) -> Option<VariantTag> {
    if name.len() == 7 && matches_ci(name[0], 'r') && matches_ci(name[1], 'f') && matches_ci(
        name[2],
        'c',
    ) && name[3] == '4' && name[4] == '6' && name[5] == '4' && name[6] == '8' {
        Some(VariantTag::Rfc4648)
    } else if name.len() == 9 && matches_ci(name[0], 'c') && matches_ci(name[1], 'r') && matches_ci(
        name[2],
        'o',
    ) && matches_ci(name[3], 'c') && matches_ci(name[4], 'k') && matches_ci(name[5], 'f')
        && matches_ci(name[6], 'o') && matches_ci(name[7], 'r') && matches_ci(name[8], 'd') {
        Some(VariantTag::Crockford)
    } else {
        None
    }
}

/// What `resolve_variant` returns: the descriptor for a recognized name,
/// `InvalidVariant` otherwise. The padding flag is kept for RFC 4648 and
/// silently ignored for Crockford.
pub open spec fn spec_resolve(name: Seq<char>, padding: bool) -> Result<Alphabet, CodecError> {
    match spec_variant_of(name) {
        Some(VariantTag::Rfc4648) => Ok(
            Alphabet { tag: VariantTag::Rfc4648, padding_enabled: padding },
        ),
        Some(VariantTag::Crockford) => Ok(
            Alphabet { tag: VariantTag::Crockford, padding_enabled: false },
        ),
        None => Err(CodecError::InvalidVariant),
    }
}

fn char_matches_ci(c: char, l: char) -> (r: bool)
    ensures
        r == matches_ci(c, l),
{
    let cu = c as u32;
    let lu = l as u32;
    c == l || (lu >= 32 && cu == lu - 32)
}

/// Map a case-insensitive variant name to its alphabet descriptor, or fail
/// with `InvalidVariant` for any other name.
pub fn resolve_variant(name: &str, padding: bool) -> (r: Result<Alphabet, CodecError>)
    ensures
        r == spec_resolve(name@, padding),
{
    let n = name.unicode_len();
    if n == 7 {
        if char_matches_ci(name.get_char(0), 'r') && char_matches_ci(name.get_char(1), 'f')
            && char_matches_ci(name.get_char(2), 'c') && name.get_char(3) == '4' && name.get_char(4)
            == '6' && name.get_char(5) == '4' && name.get_char(6) == '8' {
            return Ok(Alphabet { tag: VariantTag::Rfc4648, padding_enabled: padding });
        }
    } else if n == 9 {
        if char_matches_ci(name.get_char(0), 'c') && char_matches_ci(name.get_char(1), 'r')
            && char_matches_ci(name.get_char(2), 'o') && char_matches_ci(name.get_char(3), 'c')
            && char_matches_ci(name.get_char(4), 'k') && char_matches_ci(name.get_char(5), 'f')
            && char_matches_ci(name.get_char(6), 'o') && char_matches_ci(name.get_char(7), 'r')
            && char_matches_ci(name.get_char(8), 'd') {
            return Ok(Alphabet { tag: VariantTag::Crockford, padding_enabled: false });
        }
    }
    Err(CodecError::InvalidVariant)
}

} // verus!
