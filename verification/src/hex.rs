//! Hexadecimal text: two digits for each byte.

use vstd::prelude::*;
use vstd::string::*;
use vstd::utf8::*;

verus! {

/// The lower-case hexadecimal digit for a number under sixteen.
pub open spec fn hex_digit(n: int) -> char
    recommends
        0 <= n < 16,
{
    if n < 10 {
        (n + 48) as u8 as char
    } else {
        (n + 87) as u8 as char
    }
}

/// Bytes as text: for each byte its two lower-case digits, the high one first.
pub open spec fn encoded(bytes: Seq<u8>) -> Seq<char> {
    Seq::new(
        2 * bytes.len(),
        |i: int|
            if i % 2 == 0 {
                hex_digit(bytes[i / 2] as int / 16)
            } else {
                hex_digit(bytes[i / 2] as int % 16)
            },
    )
}

/// The value of a hexadecimal digit, of either case.
pub open spec fn digit_value(b: u8) -> Option<int> {
    if 48 <= b <= 57 {
        Some(b - 48)
    } else if 65 <= b <= 70 {
        Some(b - 55)
    } else if 97 <= b <= 102 {
        Some(b - 87)
    } else {
        None
    }
}

/// The byte that a pair of text bytes stands for: two digits, or a plus sign
/// and one digit.
pub open spec fn pair_value(first: u8, second: u8) -> Option<int> {
    match (digit_value(first), digit_value(second)) {
        (Some(high), Some(low)) => Some(16 * high + low),
        (None, Some(low)) => if first == 43 {
            Some(low)
        } else {
            None
        },
        _ => None,
    }
}

/// Whether the first `n` pairs of a text's bytes all stand for a byte.
pub open spec fn pairs_stand(text: Seq<u8>, n: int) -> bool {
    forall|i: int|
        0 <= i < n ==> #[trigger] pair_value(text[2 * i], text[2 * i + 1]) is Some
}

/// The bytes that a text of well-formed pairs stands for.
pub open spec fn decoded(text: Seq<u8>) -> Seq<u8> {
    Seq::new(
        text.len() / 2,
        |i: int| pair_value(text[2 * i], text[2 * i + 1])->0 as u8,
    )
}

/// Whether the pairs that a decoder looks at are whole characters. It reads
/// pair after pair and stops at the first that stands for no byte; that pair
/// must not end inside a character. Of a text with an odd number of bytes it
/// looks at no pair.
pub open spec fn pairs_cut_no_character(text: Seq<u8>) -> bool {
    text.len() % 2 == 0 ==> forall|i: int|
        0 <= i && 2 * i + 2 < text.len() && pairs_stand(text, i) && (#[trigger] pair_value(
            text[2 * i],
            text[2 * i + 1],
        )) is None ==> !is_continuation_byte(text[2 * i + 2])
}

/// What decoding a text comes to: its bytes, or why it is not hexadecimal.
pub open spec fn decoding(s: Seq<char>) -> Result<Seq<u8>, Seq<char>> {
    let text = encode_utf8(s);
    if text.len() % 2 != 0 {
        Err("odd-length hex string"@)
    } else if pairs_stand(text, text.len() as int / 2) {
        Ok(decoded(text))
    } else {
        Err("invalid digit found in string"@)
    }
}

fn digit_char(n: u8) -> (c: char)
    requires
        n < 16,
    ensures
        c == hex_digit(n as int),
{
    if n < 10 {
        (n + 48) as char
    } else {
        (n + 87) as char
    }
}

/// Encodes bytes as lower-case hexadecimal text.
pub fn encode(bytes: &[u8]) -> (s: String)
    ensures
        s@ == encoded(bytes@),
{
    let mut s = String::new();
    let mut i: usize = 0;
    while i < bytes.len()
        invariant
            i <= bytes@.len(),
            s@ == encoded(bytes@.take(i as int)),
        decreases bytes@.len() - i,
    {
        let b = bytes[i];
        s.push(digit_char(b / 16));
        s.push(digit_char(b % 16));
        i += 1;
        assert(s@ =~= encoded(bytes@.take(i as int)));
    }
    assert(bytes@.take(i as int) =~= bytes@);
    s
}

fn digit_of(b: u8) -> (d: Option<u8>)
    ensures
        match d {
            Some(v) => digit_value(b) == Some(v as int) && v < 16,
            None => digit_value(b) is None,
        },
{
    if 48 <= b && b <= 57 {
        Some(b - 48)
    } else if 65 <= b && b <= 70 {
        Some(b - 55)
    } else if 97 <= b && b <= 102 {
        Some(b - 87)
    } else {
        None
    }
}

fn pair_of(first: u8, second: u8) -> (v: Option<u8>)
    ensures
        match v {
            Some(v) => pair_value(first, second) == Some(v as int),
            None => pair_value(first, second) is None,
        },
{
    match (digit_of(first), digit_of(second)) {
        (Some(high), Some(low)) => Some(16 * high + low),
        (None, Some(low)) => if first == 43 {
            Some(low)
        } else {
            None
        },
        _ => None,
    }
}

/// Decodes hexadecimal text.
///
/// The text is read as pairs of bytes, and a pair that stands for no byte must
/// not cut a character in two; `decodes_in_whole_characters` tells.
pub fn decode(s: &str) -> (r: Result<Vec<u8>, String>)
    requires
        pairs_cut_no_character(s.spec_bytes()),
    ensures
        match r {
            Ok(bytes) => decoding(s@) == Ok::<Seq<u8>, Seq<char>>(bytes@),
            Err(why) => decoding(s@) == Err::<Seq<u8>, Seq<char>>(why@),
        },
{
    let text = s.as_bytes();
    if text.len() % 2 != 0 {
        return Err("odd-length hex string".to_owned());
    }
    let mut bytes: Vec<u8> = Vec::new();
    let mut i: usize = 0;
    while i < text.len() / 2
        invariant
            text@ == s.spec_bytes(),
            text@.len() % 2 == 0,
            i <= text@.len() / 2,
            pairs_stand(text@, i as int),
            bytes@.len() == i,
            forall|j: int| 0 <= j < i ==> bytes@[j] == #[trigger] decoded(text@)[j],
        decreases text@.len() / 2 - i,
    {
        match pair_of(text[2 * i], text[2 * i + 1]) {
            Some(b) => {
                bytes.push(b);
            },
            None => {
                return Err("invalid digit found in string".to_owned());
            },
        }
        i += 1;
    }
    assert(bytes@ =~= decoded(text@));
    Ok(bytes)
}

/// Whether `decode` can read a text: no pair that it looks at cuts a character.
pub fn decodes_in_whole_characters(s: &str) -> (r: bool)
    ensures
        r == pairs_cut_no_character(s.spec_bytes()),
{
    let text = s.as_bytes();
    if text.len() % 2 != 0 {
        return true;
    }
    let mut i: usize = 0;
    while i < text.len() / 2
        invariant
            text@ == s.spec_bytes(),
            text@.len() % 2 == 0,
            i <= text@.len() / 2,
            pairs_stand(text@, i as int),
        decreases text@.len() / 2 - i,
    {
        if pair_of(text[2 * i], text[2 * i + 1]).is_none() {
            assert(pair_value(text@[2 * i], text@[2 * i + 1]) is None);
            let cuts = 2 * i + 2 < text.len() && 0x80 <= text[2 * i + 2] && text[2 * i + 2] <= 0xbf;
            proof {
                if !cuts {
                    assert forall|k: int|
                        0 <= k && 2 * k + 2 < text@.len() && pairs_stand(text@, k) && (
                        #[trigger] pair_value(text@[2 * k], text@[2 * k + 1])) is None implies
                        !is_continuation_byte(text@[2 * k + 2]) by {
                        if k > i {
                            assert(pair_value(text@[2 * i], text@[2 * i + 1]) is Some);
                        }
                    }
                }
            }
            return !cuts;
        }
        i += 1;
    }
    true
}

proof fn lemma_encoded_bytes(bytes: Seq<u8>)
    ensures
        encode_utf8(encoded(bytes)).len() == 2 * bytes.len(),
        forall|i: int|
            0 <= i < 2 * bytes.len() ==> encode_utf8(encoded(bytes))[i] == #[trigger] encoded(bytes)[i] as u8,
{
    assert(is_ascii_chars(encoded(bytes)));
    is_ascii_chars_encode_utf8(encoded(bytes));
}

/// Decoding gives back what encoding wrote.
pub proof fn law_decode_undoes_encode(bytes: Seq<u8>)
    ensures
        pairs_cut_no_character(encode_utf8(encoded(bytes))),
        decoding(encoded(bytes)) == Ok::<Seq<u8>, Seq<char>>(bytes),
{
    let text = encode_utf8(encoded(bytes));
    lemma_encoded_bytes(bytes);
    assert forall|i: int| 0 <= i < bytes.len() implies #[trigger] pair_value(
        text[2 * i],
        text[2 * i + 1],
    ) == Some(bytes[i] as int) by {
        assert(encoded(bytes)[2 * i] == hex_digit(bytes[i] as int / 16));
        assert(encoded(bytes)[2 * i + 1] == hex_digit(bytes[i] as int % 16));
    }
    assert(decoded(text) =~= bytes);
}

/// Different bytes have different texts.
pub proof fn law_encode_is_injective(a: Seq<u8>, b: Seq<u8>)
    requires
        encoded(a) == encoded(b),
    ensures
        a == b,
{
    law_decode_undoes_encode(a);
    law_decode_undoes_encode(b);
}

/// A text of lower-case digits alone is what encoding writes for the bytes
/// that it decodes to.
pub proof fn law_encode_undoes_decode(s: Seq<char>, bytes: Seq<u8>)
    requires
        forall|i: int| 0 <= i < s.len() ==> '0' <= #[trigger] s[i] <= '9' || 'a' <= s[i] <= 'f',
        decoding(s) == Ok::<Seq<u8>, Seq<char>>(bytes),
    ensures
        encoded(bytes) == s,
{
    assert(is_ascii_chars(s));
    is_ascii_chars_encode_utf8(s);
    let text = encode_utf8(s);
    assert forall|i: int| 0 <= i < s.len() implies encoded(bytes)[i] == s[i] by {
        let k = i / 2;
        assert(pair_value(text[2 * k], text[2 * k + 1]) is Some);
        assert(bytes[k] == decoded(text)[k]);
        assert(text[2 * k] == s[2 * k] as u8);
        assert(text[2 * k + 1] == s[2 * k + 1] as u8);
        assert(digit_value(text[2 * k]) is Some);
        assert(digit_value(text[2 * k + 1]) is Some);
    }
    assert(encoded(bytes) =~= s);
}

/// Each byte is written as two of the digits `0123456789abcdef`: the one for
/// how often sixteen goes into it, then the one for what is left.
pub proof fn law_each_byte_has_its_two_digits(bytes: Seq<u8>, i: int)
    requires
        0 <= i < bytes.len(),
    ensures
        encoded(bytes).len() == 2 * bytes.len(),
        encoded(bytes)[2 * i] == "0123456789abcdef"@[bytes[i] as int / 16],
        encoded(bytes)[2 * i + 1] == "0123456789abcdef"@[bytes[i] as int % 16],
{
    reveal_strlit("0123456789abcdef");
    let n = bytes[i] as int;
    assert(encoded(bytes)[2 * i] == hex_digit(n / 16));
    assert(encoded(bytes)[2 * i + 1] == hex_digit(n % 16));
    assert forall|d: int| 0 <= d < 16 implies #[trigger] hex_digit(d) == "0123456789abcdef"@[d] by {
    }
    assert(0 <= n / 16 < 16);
    assert(0 <= n % 16 < 16);
}

/// Texts that decode can be put together: the whole decodes to the bytes of
/// the parts, one after the other.
pub proof fn law_decoding_goes_part_by_part(a: Seq<char>, b: Seq<char>)
    requires
        is_ascii_chars(a),
        is_ascii_chars(b),
    ensures
        decoding(a) is Ok && decoding(b) is Ok ==> decoding(a + b) == Ok::<Seq<u8>, Seq<char>>(
            decoding(a)->Ok_0 + decoding(b)->Ok_0,
        ),
        a.len() % 2 == 0 && decoding(a + b) is Ok ==> decoding(a) is Ok && decoding(b) is Ok,
{
    is_ascii_chars_encode_utf8(a);
    is_ascii_chars_encode_utf8(b);
    assert(is_ascii_chars(a + b));
    is_ascii_chars_encode_utf8(a + b);
    let x = encode_utf8(a);
    let y = encode_utf8(b);
    let z = encode_utf8(a + b);
    assert(z =~= x + y);
    let n = x.len() as int / 2;
    let m = y.len() as int / 2;
    if decoding(a) is Ok && decoding(b) is Ok {
        assert forall|i: int| 0 <= i < n + m implies #[trigger] pair_value(z[2 * i], z[2 * i + 1])
            == (if i < n {
            pair_value(x[2 * i], x[2 * i + 1])
        } else {
            pair_value(y[2 * (i - n)], y[2 * (i - n) + 1])
        }) && pair_value(z[2 * i], z[2 * i + 1]) is Some by {
            if i < n {
                assert(pair_value(x[2 * i], x[2 * i + 1]) is Some);
            } else {
                let j = i - n;
                assert(pair_value(y[2 * j], y[2 * j + 1]) is Some);
            }
        }
        assert(pairs_stand(z, n + m));
        assert(decoded(z) =~= decoded(x) + decoded(y));
    }
    if a.len() % 2 == 0 && decoding(a + b) is Ok {
        assert(pairs_stand(x, n)) by {
            assert forall|i: int| 0 <= i < n implies #[trigger] pair_value(x[2 * i], x[2 * i + 1])
                is Some by {
                assert(pair_value(z[2 * i], z[2 * i + 1]) is Some);
            }
        }
        assert(pairs_stand(y, m)) by {
            assert forall|i: int| 0 <= i < m implies #[trigger] pair_value(y[2 * i], y[2 * i + 1])
                is Some by {
                let k = i + n;
                assert(pair_value(z[2 * k], z[2 * k + 1]) is Some);
            }
        }
    }
}

/// A text fails to decode for one of two reasons: an odd number of bytes, or a
/// pair that is no byte in hexadecimal.
pub proof fn law_decoding_fails_for_a_reason(s: Seq<char>)
    ensures
        encode_utf8(s).len() % 2 != 0 <==> decoding(s) == Err::<Seq<u8>, Seq<char>>(
            "odd-length hex string"@,
        ),
        decoding(s) is Err && encode_utf8(s).len() % 2 == 0 ==> decoding(s) == Err::<
            Seq<u8>,
            Seq<char>,
        >("invalid digit found in string"@),
        decoding(s) matches Ok(bytes) ==> encode_utf8(s).len() == 2 * bytes.len(),
{
    reveal_strlit("odd-length hex string");
    reveal_strlit("invalid digit found in string");
    assert("odd-length hex string"@.len() != "invalid digit found in string"@.len());
}

/// A text of ASCII characters is never cut inside a character.
pub proof fn law_ascii_is_never_cut(s: Seq<char>)
    requires
        is_ascii_chars(s),
    ensures
        pairs_cut_no_character(encode_utf8(s)),
{
    is_ascii_chars_encode_utf8(s);
    let text = encode_utf8(s);
    assert forall|i: int| 0 <= i < text.len() implies !is_continuation_byte(#[trigger] text[i]) by {
        assert(text[i] == s[i] as u8);
        assert(s[i] as u32 <= 127);
    }
}

} // verus!
