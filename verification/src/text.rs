//! Text as sequences of characters: the few operations that the rest of the
//! library builds its strings from.

use vstd::prelude::*;
use vstd::slice::slice_subrange;
use vstd::string::*;
use vstd::utf8::*;

verus! {

/// `String::push` appends one character.
pub assume_specification[ String::push ](s: &mut String, ch: char)
    ensures
        final(s)@ == old(s)@.push(ch),
;

/// Two texts with the same UTF-8 bytes are the same text.
pub proof fn lemma_same_bytes_same_text(a: Seq<char>, b: Seq<char>)
    requires
        encode_utf8(a) == encode_utf8(b),
    ensures
        a == b,
{
    encode_utf8_decode_utf8(a);
    encode_utf8_decode_utf8(b);
}

/// The characters of a text, in order.
pub fn chars_of(s: &str) -> (v: Vec<char>)
    ensures
        v@ == s@,
{
    let mut v: Vec<char> = Vec::new();
    for c in it: s.chars()
        invariant
            it.seq() == s@,
            v@ == s@.take(it.index() as int),
    {
        v.push(c);
        assert(s@.take(it.index() as int).push(c) =~= s@.take(it.index() + 1));
    }
    assert(s@.take(s@.len() as int) =~= s@);
    v
}

/// The text made of the given characters, in order.
pub fn string_of(chars: &[char]) -> (s: String)
    ensures
        s@ == chars@,
{
    let mut s = String::new();
    let mut i: usize = 0;
    while i < chars.len()
        invariant
            i <= chars@.len(),
            s@ == chars@.take(i as int),
        decreases chars@.len() - i,
    {
        s.push(chars[i]);
        i += 1;
        assert(chars@.take(i - 1).push(chars@[i - 1]) =~= chars@.take(i as int));
    }
    assert(chars@.take(i as int) =~= chars@);
    s
}

/// Whether two texts are the same.
pub fn same_text(a: &str, b: &str) -> (r: bool)
    ensures
        r == (a@ == b@),
{
    let x = a.as_bytes();
    let y = b.as_bytes();
    if x.len() != y.len() {
        return false;
    }
    let mut i: usize = 0;
    while i < x.len()
        invariant
            i <= x@.len(),
            x@.len() == y@.len(),
            x@ == a.spec_bytes(),
            y@ == b.spec_bytes(),
            x@.take(i as int) == y@.take(i as int),
        decreases x@.len() - i,
    {
        if x[i] != y[i] {
            return false;
        }
        assert(x@.take(i + 1) =~= x@.take(i as int).push(x@[i as int]));
        assert(y@.take(i + 1) =~= y@.take(i as int).push(y@[i as int]));
        i += 1;
    }
    proof {
        assert(x@.take(i as int) =~= x@);
        assert(y@.take(i as int) =~= y@);
        lemma_same_bytes_same_text(a@, b@);
    }
    true
}

/// Whether a character has the Unicode property `White_Space`.
pub open spec fn is_white_space(c: char) -> bool {
    let n = c as u32;
    ||| 0x09 <= n <= 0x0d
    ||| n == 0x20
    ||| n == 0x85
    ||| n == 0xa0
    ||| n == 0x1680
    ||| 0x2000 <= n <= 0x200a
    ||| n == 0x2028
    ||| n == 0x2029
    ||| n == 0x202f
    ||| n == 0x205f
    ||| n == 0x3000
}

/// Whether a character has the Unicode property `White_Space`.
pub fn char_is_white_space(c: char) -> (r: bool)
    ensures
        r == is_white_space(c),
{
    let n: u32 = c as u32;
    (0x09 <= n && n <= 0x0d) || n == 0x20 || n == 0x85 || n == 0xa0 || n == 0x1680 || (0x2000 <= n
        && n <= 0x200a) || n == 0x2028 || n == 0x2029 || n == 0x202f || n == 0x205f || n == 0x3000
}

/// A text without the white space that it starts with.
pub open spec fn trimmed_start(s: Seq<char>) -> Seq<char>
    decreases s.len(),
{
    if s.len() > 0 && is_white_space(s[0]) {
        trimmed_start(s.skip(1))
    } else {
        s
    }
}

/// A text without the white space that it ends with.
pub open spec fn trimmed_end(s: Seq<char>) -> Seq<char>
    decreases s.len(),
{
    if s.len() > 0 && is_white_space(s.last()) {
        trimmed_end(s.drop_last())
    } else {
        s
    }
}

/// A text without the white space at either end.
pub open spec fn trimmed(s: Seq<char>) -> Seq<char> {
    trimmed_end(trimmed_start(s))
}

/// The text without the white space at either end.
pub fn trim(chars: &[char]) -> (s: String)
    ensures
        s@ == trimmed(chars@),
{
    let mut start: usize = 0;
    assert(chars@.skip(0) =~= chars@);
    while start < chars.len() && char_is_white_space(chars[start])
        invariant
            start <= chars@.len(),
            trimmed_start(chars@.skip(start as int)) == trimmed_start(chars@),
        decreases chars@.len() - start,
    {
        assert(chars@.skip(start as int).skip(1) =~= chars@.skip(start + 1));
        start += 1;
    }
    let ghost front = chars@.skip(start as int);
    assert(front == trimmed_start(chars@));
    let mut end: usize = chars.len();
    assert(chars@.subrange(start as int, end as int) =~= front);
    while end > start && char_is_white_space(chars[end - 1])
        invariant
            start <= end <= chars@.len(),
            trimmed_end(chars@.subrange(start as int, end as int)) == trimmed_end(front),
        decreases end,
    {
        assert(chars@.subrange(start as int, end as int).drop_last() =~= chars@.subrange(
            start as int,
            end - 1,
        ));
        end -= 1;
    }
    assert(chars@.subrange(start as int, end as int) == trimmed_end(front));
    string_of(slice_subrange(chars, start, end))
}

/// The pieces of a sequence between its separators: a separator starts a new
/// piece, any other item extends the last one.
pub open spec fn pieces<T>(s: Seq<T>, separator: T) -> Seq<Seq<T>>
    decreases s.len(),
{
    if s.len() == 0 {
        seq![Seq::empty()]
    } else {
        let before = pieces(s.drop_last(), separator);
        if s.last() == separator {
            before.push(Seq::empty())
        } else {
            before.drop_last().push(before.last().push(s.last()))
        }
    }
}

/// The views of the texts in a list.
pub open spec fn views(v: Seq<String>) -> Seq<Seq<char>> {
    v.map_values(|s: String| s@)
}

/// The pieces of a text between separators, each without the white space at
/// its ends.
pub open spec fn trimmed_pieces(s: Seq<char>, separator: char) -> Seq<Seq<char>> {
    pieces(s, separator).map_values(|p: Seq<char>| trimmed(p))
}

/// Splits a text at its separators and trims each piece.
pub fn split_and_trim(s: &str, separator: char) -> (r: Vec<String>)
    ensures
        views(r@) == trimmed_pieces(s@, separator),
{
    let chars = chars_of(s);
    let mut done: Vec<String> = Vec::new();
    let mut current: Vec<char> = Vec::new();
    let mut i: usize = 0;
    let ghost mut raw: Seq<Seq<char>> = seq![];
    proof {
        assert(chars@.take(0) =~= Seq::<char>::empty());
        assert(pieces(chars@.take(0), separator) =~= raw.push(current@));
    }
    while i < chars.len()
        invariant
            i <= chars@.len(),
            raw.push(current@) == pieces(chars@.take(i as int), separator),
            views(done@) == raw.map_values(|p: Seq<char>| trimmed(p)),
        decreases chars@.len() - i,
    {
        let c = chars[i];
        assert(chars@.take(i + 1).drop_last() =~= chars@.take(i as int));
        assert(raw.push(current@).drop_last() =~= raw);
        if c == separator {
            let piece = trim(current.as_slice());
            let ghost before = done@;
            done.push(piece);
            proof {
                raw = raw.push(current@);
                assert(views(done@) =~= views(before).push(piece@));
                assert(views(done@) =~= raw.map_values(|p: Seq<char>| trimmed(p)));
            }
            current = Vec::new();
        } else {
            current.push(c);
        }
        i += 1;
    }
    assert(chars@.take(i as int) =~= chars@);
    let piece = trim(current.as_slice());
    let ghost before = done@;
    done.push(piece);
    proof {
        assert(views(done@) =~= views(before).push(piece@));
        assert(views(done@) =~= trimmed_pieces(s@, separator));
    }
    done
}

/// The decimal digit for a number under ten.
pub open spec fn decimal_digit(n: nat) -> char
    recommends
        n < 10,
{
    (n + 48) as u8 as char
}

/// A number in decimal, without leading zeros.
pub open spec fn decimal(n: nat) -> Seq<char>
    decreases n,
{
    if n < 10 {
        seq![decimal_digit(n)]
    } else {
        decimal(n / 10).push(decimal_digit(n % 10))
    }
}

/// Appends a number in decimal.
pub fn push_decimal(out: &mut String, n: u64)
    ensures
        final(out)@ == old(out)@ + decimal(n as nat),
    decreases n,
{
    if n >= 10 {
        push_decimal(out, n / 10);
    }
    let digit: u8 = (n % 10) as u8 + 48;
    out.push(digit as char);
    assert(out@ =~= old(out)@ + decimal(n as nat));
}

/// A text that starts with another.
pub open spec fn has_prefix<T>(s: Seq<T>, prefix: Seq<T>) -> bool {
    prefix.len() <= s.len() && s.take(prefix.len() as int) == prefix
}

/// A text that ends with another.
pub open spec fn has_suffix<T>(s: Seq<T>, suffix: Seq<T>) -> bool {
    suffix.len() <= s.len() && s.skip(s.len() - suffix.len()) == suffix
}

/// What follows a prefix, if a text starts with it.
pub fn strip_prefix(s: &str, prefix: &str) -> (r: Option<String>)
    ensures
        match r {
            Some(rest) => has_prefix(s@, prefix@) && rest@ == s@.skip(prefix@.len() as int),
            None => !has_prefix(s@, prefix@),
        },
{
    let chars = chars_of(s);
    let head = chars_of(prefix);
    if head.len() > chars.len() {
        return None;
    }
    let mut i: usize = 0;
    while i < head.len()
        invariant
            chars@ == s@,
            head@ == prefix@,
            head@.len() <= chars@.len(),
            i <= head@.len(),
            forall|j: int| 0 <= j < i ==> chars@[j] == head@[j],
        decreases head@.len() - i,
    {
        if chars[i] != head[i] {
            assert(s@.take(head@.len() as int)[i as int] != prefix@[i as int]);
            return None;
        }
        i += 1;
    }
    assert(s@.take(head@.len() as int) =~= prefix@);
    assert(s@.subrange(i as int, s@.len() as int) =~= s@.skip(prefix@.len() as int));
    Some(string_of(slice_subrange(chars.as_slice(), i, chars.len())))
}

/// A text or its absence, as contracts speak of it.
pub open spec fn opt_view(s: Option<String>) -> Option<Seq<char>> {
    match s {
        Some(s) => Some(s@),
        None => None,
    }
}

/// The text that bytes are read as when invalid UTF-8 is replaced.
pub uninterp spec fn lossy_text(bytes: Seq<u8>) -> Seq<char>;

/// `String::from_utf8_lossy` reads bytes as UTF-8 and puts replacement
/// characters where they are not; the contract names the text that comes out
/// and says that valid UTF-8 is read as it is.
#[verifier::external_body]
pub(crate) fn text_from_utf8_lossy(bytes: &[u8]) -> (s: String)
    ensures
        s@ == lossy_text(bytes@),
        valid_utf8(bytes@) ==> s@ == decode_utf8(bytes@),
{
    String::from_utf8_lossy(bytes).into_owned()
}

/// `std::str::from_utf8` succeeds on valid UTF-8 alone, and its text has the
/// given bytes.
#[verifier::external_body]
pub(crate) fn text_from_utf8(bytes: &[u8]) -> (r: Option<String>)
    ensures
        match r {
            Some(s) => valid_utf8(bytes@) && s@ == decode_utf8(bytes@),
            None => !valid_utf8(bytes@),
        },
{
    match std::str::from_utf8(bytes) {
        Ok(s) => Some(s.to_owned()),
        Err(_) => None,
    }
}

/// The texts in a list, each by its characters: none is left out and their
/// order stays.
pub proof fn law_views_hold_every_text(v: Seq<String>)
    ensures
        views(v).len() == v.len(),
        forall|i: int| 0 <= i < v.len() ==> #[trigger] views(v)[i] == v[i]@,
{
}

/// A text is seen by all of its characters.
pub proof fn law_optional_text_is_seen_whole(s: Option<String>)
    ensures
        s matches Some(text) ==> opt_view(s) == Some(text@),
        s is None ==> opt_view(s) is None,
{
}

proof fn lemma_trimmed_start(s: Seq<char>) -> (i: int)
    ensures
        0 <= i <= s.len(),
        trimmed_start(s) == s.skip(i),
        forall|j: int| 0 <= j < i ==> is_white_space(s[j]),
        i < s.len() ==> !is_white_space(s[i]),
    decreases s.len(),
{
    if s.len() > 0 && is_white_space(s[0]) {
        let rest = s.skip(1);
        let i = lemma_trimmed_start(rest);
        assert(rest.skip(i) =~= s.skip(i + 1));
        assert forall|j: int| 0 <= j < i + 1 implies is_white_space(s[j]) by {
            if j > 0 {
                assert(is_white_space(rest[j - 1]));
            }
        }
        if i < rest.len() {
            assert(rest[i] == s[i + 1]);
        }
        i + 1
    } else {
        assert(s.skip(0) =~= s);
        0
    }
}

proof fn lemma_trimmed_end(s: Seq<char>) -> (i: int)
    ensures
        0 <= i <= s.len(),
        trimmed_end(s) == s.take(i),
        forall|j: int| i <= j < s.len() ==> is_white_space(s[j]),
        i > 0 ==> !is_white_space(s[i - 1]),
    decreases s.len(),
{
    if s.len() > 0 && is_white_space(s.last()) {
        let rest = s.drop_last();
        let i = lemma_trimmed_end(rest);
        assert(rest.take(i) =~= s.take(i));
        assert forall|j: int| i <= j < s.len() implies is_white_space(s[j]) by {
            if j < rest.len() {
                assert(is_white_space(rest[j]));
            }
        }
        if i > 0 {
            assert(rest[i - 1] == s[i - 1]);
        }
        i
    } else {
        assert(s.take(s.len() as int) =~= s);
        s.len() as int
    }
}

/// Trimming takes white space off both ends and nothing else: what is left
/// neither starts nor ends with white space, and any text of that kind comes
/// back from between white space.
pub proof fn law_trimming_takes_white_space_off(before: Seq<char>, text: Seq<char>, after: Seq<char>)
    requires
        forall|i: int| 0 <= i < before.len() ==> is_white_space(#[trigger] before[i]),
        forall|i: int| 0 <= i < after.len() ==> is_white_space(#[trigger] after[i]),
        text.len() > 0 ==> !is_white_space(text[0]) && !is_white_space(text.last()),
    ensures
        trimmed(before + text + after) == text,
{
    let s = before + text + after;
    let i = lemma_trimmed_start(s);
    let rest = s.skip(i);
    if text.len() == 0 {
        if i < s.len() {
            assert(is_white_space(s[i])) by {
                if i < before.len() {
                    assert(s[i] == before[i]);
                } else {
                    assert(s[i] == after[i - before.len()]);
                }
            }
        }
        assert(rest =~= Seq::<char>::empty());
        assert(trimmed(s) =~= text);
    } else {
        assert(s[before.len() as int] == text[0]);
        if i < before.len() {
            assert(s[i] == before[i]);
        }
        if i > before.len() {
            assert(is_white_space(s[before.len() as int]));
        }
        assert(rest =~= text + after);
        let j = lemma_trimmed_end(rest);
        let end = text.len() as int;
        assert(rest[end - 1] == text.last());
        if j > end {
            assert(rest[j - 1] == after[j - 1 - end]);
        }
        if j < end {
            assert(is_white_space(rest[end - 1]));
        }
        assert(rest.take(j) =~= text);
    }
}

proof fn lemma_pieces_not_empty<T>(s: Seq<T>, separator: T)
    ensures
        pieces(s, separator).len() > 0,
    decreases s.len(),
{
    if s.len() > 0 {
        lemma_pieces_not_empty(s.drop_last(), separator);
    }
}

/// A separator parts a sequence in two, whose pieces are independent.
pub proof fn law_separator_parts<T>(a: Seq<T>, separator: T, b: Seq<T>)
    ensures
        pieces(a.push(separator) + b, separator) == pieces(a, separator) + pieces(b, separator),
    decreases b.len(),
{
    let whole = a.push(separator) + b;
    let left = pieces(a, separator);
    if b.len() == 0 {
        assert(whole =~= a.push(separator));
        assert(whole.drop_last() =~= a);
        assert(pieces(whole, separator) =~= left + pieces(b, separator));
    } else {
        let shorter = b.drop_last();
        let right = pieces(shorter, separator);
        law_separator_parts(a, separator, shorter);
        lemma_pieces_not_empty(shorter, separator);
        assert(whole.drop_last() =~= a.push(separator) + shorter);
        assert(whole.last() == b.last());
        assert((left + right).last() == right.last());
        assert((left + right).drop_last() =~= left + right.drop_last());
        assert(pieces(whole, separator) =~= left + pieces(b, separator));
    }
}

/// A sequence without separators is one piece.
pub proof fn law_no_separator_one_piece<T>(s: Seq<T>, separator: T)
    requires
        !s.contains(separator),
    ensures
        pieces(s, separator) == seq![s],
    decreases s.len(),
{
    if s.len() > 0 {
        let shorter = s.drop_last();
        assert forall|i: int| 0 <= i < shorter.len() implies shorter[i] != separator by {
            assert(s.contains(s[i]));
        }
        assert(s.contains(s[s.len() - 1]));
        law_no_separator_one_piece(shorter, separator);
        assert(seq![shorter].drop_last() =~= Seq::empty());
        assert(shorter.push(s.last()) =~= s);
        assert(pieces(s, separator) =~= seq![s]);
    } else {
        assert(s =~= Seq::empty());
        assert(pieces(s, separator) =~= seq![s]);
    }
}

/// A list with separators is read entry by entry: what stands before a
/// separator and what stands behind it are read apart, and an entry without
/// separators loses the white space around it.
pub proof fn law_lists_are_read_entry_by_entry(a: Seq<char>, separator: char, b: Seq<char>)
    ensures
        trimmed_pieces(a.push(separator) + b, separator) == trimmed_pieces(a, separator)
            + trimmed_pieces(b, separator),
        !a.contains(separator) ==> trimmed_pieces(a, separator) == seq![trimmed(a)],
{
    law_separator_parts(a, separator, b);
    assert(trimmed_pieces(a.push(separator) + b, separator) =~= trimmed_pieces(a, separator)
        + trimmed_pieces(b, separator));
    if !a.contains(separator) {
        law_no_separator_one_piece(a, separator);
        assert(trimmed_pieces(a, separator) =~= seq![trimmed(a)]);
    }
}

/// The number that a text of decimal digits stands for.
pub open spec fn decimal_value(digits: Seq<char>) -> int
    decreases digits.len(),
{
    if digits.len() == 0 {
        0
    } else {
        10 * decimal_value(digits.drop_last()) + (digits.last() as int - '0' as int)
    }
}

/// A number in decimal is made of the digits `0` to `9`, has no leading zero,
/// and stands for the number.
pub proof fn law_decimal_stands_for_the_number(n: nat)
    ensures
        decimal_value(decimal(n)) == n,
        decimal(n).len() > 0,
        forall|i: int| 0 <= i < decimal(n).len() ==> '0' <= #[trigger] decimal(n)[i] <= '9',
        decimal(n).len() > 1 ==> decimal(n)[0] != '0',
    decreases n,
{
    let text = decimal(n);
    if n < 10 {
        assert(text.drop_last() =~= Seq::<char>::empty());
        assert(decimal_value(text.drop_last()) == 0);
        assert(text.last() as int == n + 48);
    } else {
        let front = decimal(n / 10);
        law_decimal_stands_for_the_number(n / 10);
        assert(text.drop_last() =~= front);
        assert(text.last() as int == n % 10 + 48);
        assert(n == 10 * (n / 10) + n % 10);
        assert forall|i: int| 0 <= i < text.len() implies '0' <= #[trigger] text[i] <= '9' by {
            if i < front.len() {
                assert(text[i] == front[i]);
            }
        }
        assert(text[0] == front[0]);
        if front.len() == 1 {
            assert(front.drop_last() =~= Seq::<char>::empty());
            assert(decimal_value(front.drop_last()) == 0);
            assert(decimal_value(front) == front[0] as int - 48);
        }
    }
}

/// Different numbers have different decimals.
pub proof fn law_decimals_differ(a: nat, b: nat)
    requires
        decimal(a) == decimal(b),
    ensures
        a == b,
{
    law_decimal_stands_for_the_number(a);
    law_decimal_stands_for_the_number(b);
}

/// A sequence starts with another exactly when something can be put behind
/// that one to make it.
pub proof fn law_prefix_and_rest<T>(prefix: Seq<T>, rest: Seq<T>, s: Seq<T>)
    ensures
        has_prefix(prefix + rest, prefix),
        (prefix + rest).skip(prefix.len() as int) == rest,
        has_prefix(s, prefix) ==> s == prefix + s.skip(prefix.len() as int),
{
    assert((prefix + rest).take(prefix.len() as int) =~= prefix);
    assert((prefix + rest).skip(prefix.len() as int) =~= rest);
    if has_prefix(s, prefix) {
        assert(s =~= s.take(prefix.len() as int) + s.skip(prefix.len() as int));
    }
}

/// A sequence ends with another exactly when something can be put in front of
/// that one to make it.
pub proof fn law_suffix_and_start<T>(start: Seq<T>, suffix: Seq<T>, s: Seq<T>)
    ensures
        has_suffix(start + suffix, suffix),
        has_suffix(s, suffix) ==> s == s.take(s.len() - suffix.len()) + suffix,
{
    assert((start + suffix).skip(start.len() as int) =~= suffix);
    if has_suffix(s, suffix) {
        assert(s =~= s.take(s.len() - suffix.len()) + s.skip(s.len() - suffix.len()));
    }
}

} // verus!
