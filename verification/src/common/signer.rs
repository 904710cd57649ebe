//! The secret of a private key text.

use vstd::prelude::*;

use crate::text;

verus! {

/// Value of a hex digit of either case.
pub open spec fn hex_value(c: char) -> Option<int> {
    if '0' <= c <= '9' {
        Some(c as int - '0' as int)
    } else if 'a' <= c <= 'f' {
        Some(c as int - 'a' as int + 10)
    } else if 'A' <= c <= 'F' {
        Some(c as int - 'A' as int + 10)
    } else {
        None
    }
}

pub open spec fn all_hex(s: Seq<char>) -> bool {
    forall|i: int| 0 <= i < s.len() ==> hex_value(#[trigger] s[i]) is Some
}

/// The bytes that pairs of hex digits write.
pub open spec fn hex_bytes(s: Seq<char>) -> Seq<u8> {
    Seq::new(
        s.len() / 2,
        |i: int| (16 * hex_value(s[2 * i])->Some_0 + hex_value(s[2 * i + 1])->Some_0) as u8,
    )
}

/// The bytes of a text of pairs of hex digits.
pub open spec fn decoded_hex(s: Seq<char>) -> Option<Seq<u8>> {
    if all_hex(s) && s.len() % 2 == 0 {
        Some(hex_bytes(s))
    } else {
        None
    }
}

/// The error of `hex` for a text that is no hex.
#[verifier::external_type_specification]
#[verifier::external_body]
pub struct ExFromHexError(hex::FromHexError);

/// The bytes of a result, where there are some.
pub open spec fn bytes_view(r: Result<Vec<u8>, hex::FromHexError>) -> Option<Seq<u8>> {
    match r {
        Ok(bytes) => Some(bytes@),
        Err(_) => None,
    }
}

/// `hex::decode`: a byte for each pair of hex digits of either case, and an error for any other
/// text.
#[verifier::external_body]
fn decode_outside(text: &str) -> (r: Result<Vec<u8>, hex::FromHexError>)
    ensures
        bytes_view(r) == decoded_hex(text@),
{
    hex::decode(text)
}

/// How a private key writes its secret.
#[derive(Debug)]
pub enum KeyMaterial {
    /// 32 bytes.
    Bytes(Vec<u8>),
    /// A secret in base64.
    Base64(String),
}

/// A key without a leading `0x` or `0X`.
pub open spec fn hex_body(key: Seq<char>) -> Seq<char> {
    if "0x"@.is_prefix_of(key) || "0X"@.is_prefix_of(key) {
        key.skip(2)
    } else {
        key
    }
}

/// The key is 32 bytes in hex.
pub open spec fn is_hex_key(key: Seq<char>) -> bool {
    hex_body(key).len() == 64 && all_hex(hex_body(key))
}

/// `material` is what a private key writes.
pub open spec fn is_material(material: KeyMaterial, private_key: Seq<char>) -> bool {
    match material {
        KeyMaterial::Bytes(bytes) => is_hex_key(text::trimmed(private_key)) && bytes@ == hex_bytes(
            hex_body(text::trimmed(private_key)),
        ) && bytes@.len() == 32,
        KeyMaterial::Base64(text) => !is_hex_key(text::trimmed(private_key)) && text@
            == text::trimmed(private_key),
    }
}

/// Reads a private key: 32 bytes in hex, with or without `0x`, else a secret in base64.
pub fn signer_from_private_key(private_key: &str) -> (r: KeyMaterial)
    ensures
        is_material(r, private_key@),
{
    let trimmed: String = text::trim(private_key);
    proof {
        reveal_strlit("0x");
        reveal_strlit("0X");
    }
    let body: String = match text::strip_prefix(trimmed.as_str(), "0x") {
        Some(body) => body,
        None => match text::strip_prefix(trimmed.as_str(), "0X") {
            Some(body) => body,
            None => trimmed.clone(),
        },
    };
    assert(body@ == hex_body(trimmed@));
    if body.as_str().unicode_len() == 64 {
        if let Ok(bytes) = decode_outside(body.as_str()) {
            return KeyMaterial::Bytes(bytes);
        }
    }
    KeyMaterial::Base64(trimmed)
}

/// A hex digit stands for its value, in either case, and nothing else is one.
pub proof fn law_hex_digits(c: char)
    ensures
        hex_value(c) is Some <==> '0' <= c <= '9' || 'a' <= c <= 'f' || 'A' <= c <= 'F',
        hex_value(c) matches Some(n) ==> 0 <= n < 16,
        hex_value('0') == Some(0int) && hex_value('9') == Some(9int) && hex_value('a') == Some(10int)
            && hex_value('f') == Some(15int) && hex_value('A') == Some(10int) && hex_value('F')
            == Some(15int),
        forall|d: char|
            {
                &&& '0' <= c < d <= '9' ==> #[trigger] hex_value(d)->Some_0 - hex_value(c)->Some_0
                    == d as int - c as int
                &&& 'a' <= c < d <= 'f' ==> hex_value(d)->Some_0 - hex_value(c)->Some_0 == d as int
                    - c as int
                &&& 'A' <= c < d <= 'F' ==> hex_value(d)->Some_0 - hex_value(c)->Some_0 == d as int
                    - c as int
            },
{
}

/// Sixty-four hex digits are a key of 32 bytes, two digits each, with `0x` or `0X` ahead of them or
/// not.
pub proof fn law_hex_keys(material: KeyMaterial, key: Seq<char>, digits: Seq<char>)
    requires
        is_material(material, key),
        digits.len() == 64,
        forall|i: int|
            0 <= i < 64 ==> '0' <= #[trigger] digits[i] <= '9' || 'a' <= digits[i] <= 'f' || 'A'
                <= digits[i] <= 'F',
        text::trimmed(key) == digits || text::trimmed(key) == "0x"@ + digits || text::trimmed(key)
            == "0X"@ + digits,
    ensures
        material matches KeyMaterial::Bytes(bytes) && {
            &&& bytes@.len() == 32
            &&& forall|i: int|
                0 <= i < 32 ==> #[trigger] bytes@[i] == 16 * hex_value(digits[2 * i])->Some_0
                    + hex_value(digits[2 * i + 1])->Some_0
        },
{
    reveal_strlit("0x");
    reveal_strlit("0X");
    let t = text::trimmed(key);
    if t == digits {
        assert('0' <= digits[1] <= '9' || 'a' <= digits[1] <= 'f' || 'A' <= digits[1] <= 'F');
        assert(!"0x"@.is_prefix_of(t)) by {
            if "0x"@.is_prefix_of(t) {
                assert("0x"@[1] == t[1]);
            }
        }
        assert(!"0X"@.is_prefix_of(t)) by {
            if "0X"@.is_prefix_of(t) {
                assert("0X"@[1] == t[1]);
            }
        }
    } else if t == "0x"@ + digits {
        assert("0x"@.is_prefix_of(t));
        assert(t.skip(2) =~= digits);
    } else {
        assert("0X"@.is_prefix_of(t));
        assert(t.skip(2) =~= digits);
    }
    assert(hex_body(t) == digits);
    assert(all_hex(digits)) by {
        assert forall|i: int| 0 <= i < digits.len() implies hex_value(
            #[trigger] digits[i],
        ) is Some by {
            law_hex_digits(digits[i]);
        }
    }
    if let KeyMaterial::Bytes(bytes) = material {
        assert forall|i: int| 0 <= i < 32 implies #[trigger] bytes@[i] == 16 * hex_value(
            digits[2 * i],
        )->Some_0 + hex_value(digits[2 * i + 1])->Some_0 by {
            law_hex_digits(digits[2 * i]);
            law_hex_digits(digits[2 * i + 1]);
            assert(hex_value(digits[2 * i]) is Some);
            assert(hex_value(digits[2 * i + 1]) is Some);
        }
    }
}

/// Any other key is a secret in base64, taken as it stands without white space around it.
pub proof fn law_other_keys(material: KeyMaterial, key: Seq<char>)
    requires
        is_material(material, key),
        text::trimmed(key).len() != 64,
        text::trimmed(key).len() != 66,
    ensures
        material matches KeyMaterial::Base64(secret) && secret@ == text::trimmed(key),
{
    reveal_strlit("0x");
    reveal_strlit("0X");
}

} // verus!
