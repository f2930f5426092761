//! Files that a text mentions, and how they go along with it.

use crate::path::{
    extension_of, file_name_of, is_absolute, joined, law_path_order_is_strict,
    law_path_order_is_transitive, names, opt_path, path_before, same_path, FilePath, Place,
};
use crate::recipient::RecipientTarget;
use crate::text::{
    char_is_white_space, chars_of, is_white_space, lossy_text, opt_view, string_of, text_from_utf8,
    text_from_utf8_lossy, views,
};
use vstd::prelude::*;
use vstd::slice::{slice_subrange, slice_to_vec};
use vstd::string::*;
use vstd::utf8::*;

verus! {

/// Whether a character is one of the delimiters that paths are wrapped in or
/// listed with.
pub open spec fn is_closing(c: char) -> bool {
    c == '`' || c == '*' || c == '"' || c == '\'' || c == ')' || c == ']' || c == ',' || c == ';'
        || c == ':'
}

/// Whether a path in a text ends before a character: white space or a
/// delimiter.
pub open spec fn ends_path(c: char) -> bool {
    is_white_space(c) || is_closing(c)
}

/// Whether a path in a text ends before a character: white space or a
/// delimiter.
pub fn is_path_end(c: char) -> (r: bool)
    ensures
        r == (is_white_space(c) || is_closing(c)),
{
    char_is_white_space(c) || c == '`' || c == '*' || c == '"' || c == '\'' || c == ')' || c == ']'
        || c == ',' || c == ';' || c == ':'
}

/// Whether a path starts at a place in a text: with `/` or `~/`.
pub open spec fn path_starts(t: Seq<char>, i: int) -> bool {
    t[i] == '/' || (t[i] == '~' && i + 1 < t.len() && t[i + 1] == '/')
}

/// Where the next white space or delimiter stands, or the text ends.
pub open spec fn path_end(t: Seq<char>, i: int) -> int
    decreases t.len() - i,
{
    if 0 <= i < t.len() && !ends_path(t[i]) {
        path_end(t, i + 1)
    } else {
        i
    }
}

/// The places from `i` on where a text mentions what looks like a path: each
/// starts at the next path start, ends at the first white space or delimiter
/// behind it or with the text, and is longer than one character.
pub open spec fn spans_from(t: Seq<char>, i: int) -> Seq<(int, int)>
    decreases t.len() - i,
    when 0 <= i
    via spans_from_decreases
{
    if i >= t.len() {
        Seq::empty()
    } else if path_starts(t, i) {
        let end = path_end(t, i);
        if end - i > 1 {
            seq![(i, end)] + spans_from(t, end)
        } else {
            spans_from(t, end)
        }
    } else {
        spans_from(t, i + 1)
    }
}

#[via_fn]
proof fn spans_from_decreases(t: Seq<char>, i: int) {
    if 0 <= i < t.len() && path_starts(t, i) {
        lemma_path_end(t, i + 1);
    }
}

proof fn lemma_path_end(t: Seq<char>, i: int)
    requires
        0 <= i <= t.len(),
    ensures
        i <= path_end(t, i) <= t.len(),
        forall|j: int| i <= j < path_end(t, i) ==> !ends_path(t[j]),
        path_end(t, i) == t.len() || ends_path(t[path_end(t, i)]),
    decreases t.len() - i,
{
    if i < t.len() && !ends_path(t[i]) {
        lemma_path_end(t, i + 1);
    }
}

/// The places where a text mentions what looks like a path.
pub open spec fn spans(t: Seq<char>) -> Seq<(int, int)> {
    spans_from(t, 0)
}

/// A part of a text.
pub open spec fn part(t: Seq<char>, span: (int, int)) -> Seq<char> {
    t.subrange(span.0, span.1)
}

/// What a text mentions that looks like a path.
pub open spec fn candidates(t: Seq<char>) -> Seq<Seq<char>> {
    spans(t).map_values(|span: (int, int)| part(t, span))
}

/// The places in a list, as contracts speak of them.
pub open spec fn span_views(v: Seq<(usize, usize)>) -> Seq<(int, int)> {
    v.map_values(|span: (usize, usize)| (span.0 as int, span.1 as int))
}

fn find_spans(chars: &Vec<char>) -> (r: Vec<(usize, usize)>)
    ensures
        span_views(r@) == spans(chars@),
        forall|k: int| 0 <= k < r@.len() ==> (#[trigger] r@[k]).0 < r@[k].1 <= chars@.len(),
{
    let ghost t = chars@;
    let mut r: Vec<(usize, usize)> = Vec::new();
    let mut i: usize = 0;
    assert(span_views(r@) + spans_from(t, 0) =~= spans(t));
    while i < chars.len()
        invariant
            t == chars@,
            i <= t.len(),
            span_views(r@) + spans_from(t, i as int) == spans(t),
            forall|k: int| 0 <= k < r@.len() ==> (#[trigger] r@[k]).0 < r@[k].1 <= t.len(),
        decreases t.len() - i,
    {
        let starts = chars[i] == '/' || (chars[i] == '~' && i + 1 < chars.len() && chars[i + 1]
            == '/');
        if starts {
            let start = i;
            assert(!ends_path(t[start as int]));
            i += 1;
            while i < chars.len() && !is_path_end(chars[i])
                invariant
                    t == chars@,
                    start < i <= t.len(),
                    path_end(t, i as int) == path_end(t, start as int),
                decreases t.len() - i,
            {
                i += 1;
            }
            assert(i == path_end(t, start as int));
            let ghost before = span_views(r@);
            if i - start > 1 {
                r.push((start, i));
                proof {
                    assert(span_views(r@) =~= before.push((start as int, i as int)));
                    assert(span_views(r@) + spans_from(t, i as int) =~= before + (seq![
                        (start as int, i as int),
                    ] + spans_from(t, i as int)));
                }
            }
        } else {
            i += 1;
        }
    }
    assert(span_views(r@) + spans_from(t, i as int) =~= span_views(r@));
    r
}

fn part_of(chars: &Vec<char>, start: usize, end: usize) -> (s: String)
    requires
        start <= end <= chars@.len(),
    ensures
        s@ == chars@.subrange(start as int, end as int),
{
    string_of(slice_subrange(chars.as_slice(), start, end))
}

/// What a text mentions that looks like a path: the parts that start with `/`
/// or `~/` and end at white space or a delimiter.
pub fn split_path_candidates(text: &str) -> (r: Vec<String>)
    ensures
        views(r@) == candidates(text@),
{
    let chars = chars_of(text);
    let found = find_spans(&chars);
    let mut r: Vec<String> = Vec::new();
    let mut k: usize = 0;
    while k < found.len()
        invariant
            chars@ == text@,
            span_views(found@) == spans(text@),
            forall|k: int|
                0 <= k < found@.len() ==> (#[trigger] found@[k]).0 < found@[k].1 <= chars@.len(),
            k <= found@.len(),
            r@.len() == k,
            forall|j: int| 0 <= j < k ==> (#[trigger] r@[j])@ == candidates(text@)[j],
        decreases found@.len() - k,
    {
        let (start, end) = found[k];
        assert(span_views(found@)[k as int] == (start as int, end as int));
        r.push(part_of(&chars, start, end));
        k += 1;
    }
    assert(views(r@) =~= candidates(text@));
    r
}

/// The absolute path that a candidate means, if there is one: `~/` stands for
/// the home directory.
pub open spec fn expanded(candidate: Seq<char>, home: Option<Seq<u8>>) -> Option<Seq<u8>> {
    if candidate.len() > 0 && candidate[0] == '~' {
        match home {
            Some(home) => {
                let path = joined(home, encode_utf8(candidate.skip(2)));
                if is_absolute(path) {
                    Some(path)
                } else {
                    None
                }
            },
            None => None,
        }
    } else {
        Some(encode_utf8(candidate))
    }
}

/// The places whose candidates mean an absolute path.
pub open spec fn probe_spans(t: Seq<char>, home: Option<Seq<u8>>) -> Seq<(int, int)> {
    spans(t).filter(|span: (int, int)| expanded(part(t, span), home) is Some)
}

/// The absolute paths that a text mentions, in the order of their mention:
/// those to look for on disk.
pub open spec fn probes(t: Seq<char>, home: Option<Seq<u8>>) -> Seq<Seq<u8>> {
    probe_spans(t, home).map_values(|span: (int, int)| expanded(part(t, span), home)->0)
}

/// The paths in a list, as contracts speak of them.
pub open spec fn path_views(v: Seq<FilePath>) -> Seq<Seq<u8>> {
    v.map_values(|path: FilePath| path@)
}

/// A mention of an absolute path: where it stands in the text, and the path.
struct Mention {
    start: usize,
    end: usize,
    path: FilePath,
}

spec fn mention_spans(v: Seq<Mention>) -> Seq<(int, int)> {
    v.map_values(|m: Mention| (m.start as int, m.end as int))
}

spec fn mention_paths(v: Seq<Mention>) -> Seq<Seq<u8>> {
    v.map_values(|m: Mention| m.path@)
}

fn expand(candidate: &str, home: &Option<FilePath>) -> (r: Option<FilePath>)
    requires
        candidate@.len() > 1,
        path_starts(candidate@, 0),
    ensures
        match r {
            Some(path) => expanded(candidate@, opt_path(*home)) == Some(path@),
            None => expanded(candidate@, opt_path(*home)) is None,
        },
{
    if candidate.get_char(0) == '~' {
        match home {
            Some(home) => {
                let below = candidate.substring_char(2, candidate.unicode_len());
                assert(below@ =~= candidate@.skip(2));
                let path = home.join(below.as_bytes());
                if path.is_absolute() {
                    Some(path)
                } else {
                    None
                }
            },
            None => None,
        }
    } else {
        Some(FilePath::from_text(candidate))
    }
}

fn find_mentions(chars: &Vec<char>, home: &Option<FilePath>) -> (r: Vec<Mention>)
    ensures
        mention_spans(r@) == probe_spans(chars@, opt_path(*home)),
        mention_paths(r@) == probes(chars@, opt_path(*home)),
{
    let ghost t = chars@;
    let ghost h = opt_path(*home);
    let ghost meant = |span: (int, int)| expanded(part(t, span), h) is Some;
    let found = find_spans(chars);
    let ghost all = spans(t);
    let mut r: Vec<Mention> = Vec::new();
    let mut k: usize = 0;
    proof {
        law_candidates_look_like_paths(t);
        reveal(Seq::filter);
        assert(mention_spans(r@) =~= all.take(0).filter(meant));
    }
    while k < found.len()
        invariant
            t == chars@,
            h == opt_path(*home),
            meant == (|span: (int, int)| expanded(part(t, span), h) is Some),
            all == spans(t),
            span_views(found@) == all,
            forall|k: int|
                0 <= k < found@.len() ==> (#[trigger] found@[k]).0 < found@[k].1 <= chars@.len(),
            forall|k: int| 0 <= k < all.len() ==> looks_like_path(t, #[trigger] all[k]),
            k <= found@.len(),
            mention_spans(r@) == all.take(k as int).filter(meant),
            forall|j: int|
                0 <= j < r@.len() ==> expanded(
                    part(t, ((#[trigger] r@[j]).start as int, r@[j].end as int)),
                    h,
                ) == Some(r@[j].path@),
        decreases found@.len() - k,
    {
        let (start, end) = found[k];
        let ghost span = (start as int, end as int);
        assert(all[k as int] == span);
        assert(looks_like_path(t, span));
        let candidate = part_of(chars, start, end);
        assert(candidate@[0] == t[start as int]);
        assert(candidate@[1] == t[start + 1]);
        let ghost before = mention_spans(r@);
        proof {
            assert(all.take(k + 1).drop_last() =~= all.take(k as int));
            assert(all.take(k + 1).last() == span);
            reveal(Seq::filter);
        }
        match expand(candidate.as_str(), home) {
            Some(path) => {
                assert(meant(span));
                r.push(Mention { start, end, path });
                assert(mention_spans(r@) =~= before.push(span));
            },
            None => {
                assert(!meant(span));
            },
        }
        k += 1;
    }
    proof {
        assert(all.take(k as int) =~= all);
        assert(mention_spans(r@) == probe_spans(t, h));
        assert(mention_paths(r@) =~= probes(t, h)) by {
            assert forall|j: int| 0 <= j < r@.len() implies mention_paths(r@)[j] == probes(t, h)[j] by {
                assert(mention_spans(r@)[j] == (r@[j].start as int, r@[j].end as int));
            }
        }
    }
    r
}

proof fn lemma_expanded_is_absolute(candidate: Seq<char>, home: Option<Seq<u8>>)
    requires
        candidate.len() > 0,
        path_starts(candidate, 0),
        expanded(candidate, home) is Some,
    ensures
        is_absolute(expanded(candidate, home)->0),
{
    if candidate[0] != '~' {
        assert((47u32 & 0x7f) as u8 == 47u8) by (bit_vector);
        assert(encode_scalar(47u32) == seq![47u8]);
    }
}

/// The absolute paths that a text mentions, in the order of their mention:
/// those to look for on disk.
pub fn probe_paths(text: &str, home: &Option<FilePath>) -> (r: Vec<FilePath>)
    ensures
        path_views(r@) == probes(text@, opt_path(*home)),
{
    let chars = chars_of(text);
    let mentions = find_mentions(&chars, home);
    let mut r: Vec<FilePath> = Vec::new();
    let mut k: usize = 0;
    while k < mentions.len()
        invariant
            k <= mentions@.len(),
            mention_paths(mentions@) == probes(text@, opt_path(*home)),
            path_views(r@) == mention_paths(mentions@).take(k as int),
        decreases mentions@.len() - k,
    {
        let ghost before = path_views(r@);
        let path = copy_path(&mentions[k].path);
        r.push(path);
        k += 1;
        assert(path_views(r@) =~= before.push(path@));
        assert(path_views(r@) =~= mention_paths(mentions@).take(k as int));
    }
    assert(mention_paths(mentions@).take(k as int) =~= mention_paths(mentions@));
    r
}

/// The items whose flag is set.
pub open spec fn chosen<T>(items: Seq<T>, flags: Seq<bool>) -> Seq<T>
    decreases items.len(),
{
    if items.len() == 0 || flags.len() != items.len() {
        Seq::empty()
    } else {
        let before = chosen(items.drop_last(), flags.drop_last());
        if flags.last() {
            before.push(items.last())
        } else {
            before
        }
    }
}

/// Whether a place of a text is inside one of some parts.
pub open spec fn inside(parts: Seq<(int, int)>, i: int) -> bool {
    exists|k: int| 0 <= k < parts.len() && (#[trigger] parts[k]).0 <= i < parts[k].1
}

/// The first `n` characters of a text without those inside some parts.
pub open spec fn kept(t: Seq<char>, parts: Seq<(int, int)>, n: int) -> Seq<char>
    decreases n,
{
    if n <= 0 {
        Seq::empty()
    } else if inside(parts, n - 1) {
        kept(t, parts, n - 1)
    } else {
        kept(t, parts, n - 1).push(t[n - 1])
    }
}

/// A text without some parts of it.
pub open spec fn without(t: Seq<char>, parts: Seq<(int, int)>) -> Seq<char> {
    kept(t, parts, t.len() as int)
}

/// Whether a list has no path before `k` that is the same as the one there.
pub open spec fn is_first_mention(found: Seq<Seq<u8>>, k: int) -> bool {
    0 <= k < found.len() && forall|m: int|
        0 <= m < k ==> !same_path(#[trigger] found[m], found[k])
}

/// Whether a list holds the given paths in order, each once and as it was
/// first written.
pub open spec fn sorted_once(list: Seq<Seq<u8>>, found: Seq<Seq<u8>>) -> bool {
    &&& forall|i: int, j: int|
        0 <= i < j < list.len() ==> path_before(#[trigger] list[i], #[trigger] list[j])
    &&& forall|k: int| 0 <= k < found.len() ==> holds_path(list, #[trigger] found[k])
    &&& forall|i: int| 0 <= i < list.len() ==> is_mentioned(found, #[trigger] list[i])
}

/// Whether a list holds a path.
#[verifier::opaque]
pub open spec fn holds_path(list: Seq<Seq<u8>>, path: Seq<u8>) -> bool {
    exists|i: int| 0 <= i < list.len() && same_path(#[trigger] list[i], path)
}

/// Whether a path is written as it was first written among some.
#[verifier::opaque]
pub open spec fn is_mentioned(found: Seq<Seq<u8>>, path: Seq<u8>) -> bool {
    exists|k: int| #[trigger] is_first_mention(found, k) && found[k] == path
}

/// The paths to files among those that a text mentions.
pub open spec fn found_paths(t: Seq<char>, home: Option<Seq<u8>>, is_file: Seq<bool>) -> Seq<
    Seq<u8>,
> {
    chosen(probes(t, home), is_file)
}

/// Where in a text the paths to files stand.
pub open spec fn found_spans(t: Seq<char>, home: Option<Seq<u8>>, is_file: Seq<bool>) -> Seq<
    (int, int),
> {
    chosen(probe_spans(t, home), is_file)
}

fn is_inside(parts: &Vec<(usize, usize)>, i: usize) -> (r: bool)
    ensures
        r == inside(span_views(parts@), i as int),
{
    let mut k: usize = 0;
    let ghost all = span_views(parts@);
    while k < parts.len()
        invariant
            all == span_views(parts@),
            k <= parts@.len(),
            forall|j: int| 0 <= j < k ==> !((#[trigger] all[j]).0 <= i < all[j].1),
        decreases parts@.len() - k,
    {
        let (start, end) = parts[k];
        assert(all[k as int] == (start as int, end as int));
        if start <= i && i < end {
            return true;
        }
        k += 1;
    }
    false
}

fn cut_out(chars: &Vec<char>, parts: &Vec<(usize, usize)>) -> (s: String)
    ensures
        s@ == without(chars@, span_views(parts@)),
{
    let mut s = String::new();
    let mut i: usize = 0;
    while i < chars.len()
        invariant
            i <= chars@.len(),
            s@ == kept(chars@, span_views(parts@), i as int),
        decreases chars@.len() - i,
    {
        if !is_inside(parts, i) {
            s.push(chars[i]);
        }
        i += 1;
    }
    s
}

fn copy_path(path: &FilePath) -> (r: FilePath)
    ensures
        r@ == path@,
{
    FilePath { bytes: slice_to_vec(path.bytes.as_slice()) }
}

proof fn held_at(list: Seq<Seq<u8>>, path: Seq<u8>) -> (i: int)
    requires
        holds_path(list, path),
    ensures
        0 <= i < list.len(),
        same_path(list[i], path),
{
    reveal(holds_path);
    choose|i: int| 0 <= i < list.len() && same_path(#[trigger] list[i], path)
}

proof fn lemma_holds(list: Seq<Seq<u8>>, path: Seq<u8>, i: int)
    requires
        0 <= i < list.len(),
        same_path(list[i], path),
    ensures
        holds_path(list, path),
{
    reveal(holds_path);
}

proof fn mentioned_at(found: Seq<Seq<u8>>, path: Seq<u8>) -> (k: int)
    requires
        is_mentioned(found, path),
    ensures
        is_first_mention(found, k),
        found[k] == path,
{
    reveal(is_mentioned);
    choose|k: int| #[trigger] is_first_mention(found, k) && found[k] == path
}

proof fn lemma_mentioned(found: Seq<Seq<u8>>, path: Seq<u8>, k: int)
    requires
        is_first_mention(found, k),
        found[k] == path,
    ensures
        is_mentioned(found, path),
{
    reveal(is_mentioned);
}

proof fn lemma_mentioned_among_more(found: Seq<Seq<u8>>, path: Seq<u8>, more: Seq<u8>)
    requires
        is_mentioned(found, path),
    ensures
        is_mentioned(found.push(more), path),
{
    let k = mentioned_at(found, path);
    let all = found.push(more);
    assert forall|m: int| 0 <= m < k implies !same_path(#[trigger] all[m], all[k]) by {
        assert(found[m] == all[m]);
    }
    lemma_mentioned(all, path, k);
}

/// Where a path belongs in a list that is in order, and whether it is there.
fn find_place(list: &Vec<FilePath>, path: &FilePath) -> (r: (usize, bool))
    ensures
        r.0 <= list@.len(),
        forall|i: int| 0 <= i < r.0 ==> path_before(#[trigger] path_views(list@)[i], path@),
        r.1 ==> r.0 < list@.len() && same_path(path_views(list@)[r.0 as int], path@),
        !r.1 ==> r.0 == list@.len() || path_before(path@, path_views(list@)[r.0 as int]),
{
    let ghost all = path_views(list@);
    let mut at: usize = 0;
    while at < list.len()
        invariant
            all == path_views(list@),
            at <= list@.len(),
            forall|i: int| 0 <= i < at ==> path_before(#[trigger] all[i], path@),
        decreases list@.len() - at,
    {
        assert(all[at as int] == list@[at as int]@);
        match list[at].place(path) {
            Place::Before => {},
            Place::Same => {
                return (at, true);
            },
            Place::After => {
                return (at, false);
            },
        }
        at += 1;
    }
    (at, false)
}

proof fn lemma_insert_keeps_order(list: Seq<Seq<u8>>, path: Seq<u8>, at: int)
    requires
        0 <= at <= list.len(),
        forall|i: int, j: int|
            0 <= i < j < list.len() ==> path_before(#[trigger] list[i], #[trigger] list[j]),
        forall|i: int| 0 <= i < at ==> path_before(#[trigger] list[i], path),
        at == list.len() || path_before(path, list[at]),
    ensures
        forall|i: int, j: int|
            0 <= i < j < list.insert(at, path).len() ==> path_before(
                #[trigger] list.insert(at, path)[i],
                #[trigger] list.insert(at, path)[j],
            ),
{
    let after = list.insert(at, path);
    assert forall|i: int, j: int| 0 <= i < j < after.len() implies path_before(
        #[trigger] after[i],
        #[trigger] after[j],
    ) by {
        if i == at {
            assert(after[j] == list[j - 1]);
            if j > at + 1 {
                law_path_order_is_transitive(path, list[at], list[j - 1]);
            }
        } else if j == at {
            assert(after[i] == list[i]);
        } else {
            assert(after[i] == list[if i < at {
                i
            } else {
                i - 1
            }]);
            assert(after[j] == list[if j < at {
                j
            } else {
                j - 1
            }]);
        }
    }
}

proof fn lemma_insert_holds_all(
    list: Seq<Seq<u8>>,
    found: Seq<Seq<u8>>,
    path: Seq<u8>,
    at: int,
)
    requires
        0 <= at <= list.len(),
        forall|k: int| 0 <= k < found.len() ==> holds_path(list, #[trigger] found[k]),
    ensures
        forall|k: int|
            0 <= k < found.push(path).len() ==> holds_path(
                list.insert(at, path),
                #[trigger] found.push(path)[k],
            ),
{
    let after = list.insert(at, path);
    let all = found.push(path);
    assert forall|k: int| 0 <= k < all.len() implies holds_path(after, #[trigger] all[k]) by {
        if k < found.len() {
            assert(all[k] == found[k]);
            let i = held_at(list, found[k]);
            let j = if i < at {
                i
            } else {
                i + 1
            };
            assert(after[j] == list[i]);
            lemma_holds(after, all[k], j);
        } else {
            assert(after[at] == path);
            lemma_holds(after, all[k], at);
        }
    }
}

proof fn lemma_path_added(list: Seq<Seq<u8>>, found: Seq<Seq<u8>>, path: Seq<u8>, at: int)
    requires
        sorted_once(list, found),
        0 <= at <= list.len(),
        forall|i: int| 0 <= i < at ==> path_before(#[trigger] list[i], path),
        at == list.len() || path_before(path, list[at]),
    ensures
        sorted_once(list.insert(at, path), found.push(path)),
{
    let after = list.insert(at, path);
    let all = found.push(path);
    lemma_insert_keeps_order(list, path, at);
    lemma_insert_holds_all(list, found, path, at);
    lemma_new_path_is_first(list, found, path, at);
    assert forall|i: int| 0 <= i < after.len() implies is_mentioned(all, #[trigger] after[i]) by {
        if i != at {
            let j = if i < at {
                i
            } else {
                i - 1
            };
            assert(after[i] == list[j]);
            lemma_mentioned_among_more(found, list[j], path);
        }
    }
}

proof fn lemma_path_there(list: Seq<Seq<u8>>, found: Seq<Seq<u8>>, path: Seq<u8>, at: int)
    requires
        sorted_once(list, found),
        0 <= at < list.len(),
        same_path(list[at], path),
    ensures
        sorted_once(list, found.push(path)),
{
    let all = found.push(path);
    assert forall|k: int| 0 <= k < all.len() implies holds_path(list, #[trigger] all[k]) by {
        if k < found.len() {
            assert(all[k] == found[k]);
        } else {
            lemma_holds(list, all[k], at);
        }
    }
    assert forall|i: int| 0 <= i < list.len() implies is_mentioned(all, #[trigger] list[i]) by {
        lemma_mentioned_among_more(found, list[i], path);
    }
}

/// Adds a path to a list that is in order, unless it is there already.
fn add_path(list: &mut Vec<FilePath>, path: FilePath, Ghost(found): Ghost<Seq<Seq<u8>>>)
    requires
        sorted_once(path_views(old(list)@), found),
    ensures
        sorted_once(path_views(final(list)@), found.push(path@)),
{
    let ghost before = path_views(list@);
    let ghost added = path@;
    let (at, there) = find_place(list, &path);
    if there {
        proof {
            lemma_path_there(before, found, added, at as int);
        }
    } else {
        list.insert(at, path);
        proof {
            lemma_path_added(before, found, added, at as int);
            assert(path_views(list@) =~= before.insert(at as int, added));
        }
    }
}

proof fn lemma_new_path_is_first(
    list: Seq<Seq<u8>>,
    found: Seq<Seq<u8>>,
    path: Seq<u8>,
    at: int,
)
    requires
        sorted_once(list, found),
        0 <= at <= list.len(),
        forall|i: int| 0 <= i < at ==> path_before(#[trigger] list[i], path),
        at == list.len() || path_before(path, list[at]),
    ensures
        is_mentioned(found.push(path), path),
{
    let all = found.push(path);
    let last = found.len() as int;
    assert forall|m: int| 0 <= m < last implies !same_path(#[trigger] all[m], all[last]) by {
        assert(all[m] == found[m]);
        let i = held_at(list, found[m]);
        if same_path(found[m], path) {
            assert(same_path(list[i], path));
            if i < at {
                law_path_order_is_strict(list[i], path);
            } else {
                if i > at {
                    assert(path_before(list[at], list[i]));
                    law_path_order_is_transitive(path, list[at], list[i]);
                }
                law_path_order_is_strict(path, list[i]);
            }
        }
    }
    lemma_mentioned(all, path, last);
}

/// The files that a text mentions, given which of `probe_paths` are files, and
/// the text without the mentions of them.
///
/// The files come in the order of their paths, each once.
pub fn extract_file_paths(text: &str, home: &Option<FilePath>, is_file: &Vec<bool>) -> (r: (
    Vec<FilePath>,
    String,
))
    requires
        is_file@.len() == probes(text@, opt_path(*home)).len(),
    ensures
        sorted_once(path_views(r.0@), found_paths(text@, opt_path(*home), is_file@)),
        r.1@ == without(text@, found_spans(text@, opt_path(*home), is_file@)),
{
    let chars = chars_of(text);
    let mentions = find_mentions(&chars, home);
    let ghost h = opt_path(*home);
    let ghost paths = probes(text@, h);
    let ghost places = probe_spans(text@, h);
    let mut list: Vec<FilePath> = Vec::new();
    let mut parts: Vec<(usize, usize)> = Vec::new();
    let mut k: usize = 0;
    assert(span_views(parts@) =~= chosen(places.take(0), is_file@.take(0)));
    while k < mentions.len()
        invariant
            mention_paths(mentions@) == paths,
            mention_spans(mentions@) == places,
            is_file@.len() == mentions@.len(),
            k <= mentions@.len(),
            sorted_once(path_views(list@), chosen(paths.take(k as int), is_file@.take(k as int))),
            span_views(parts@) == chosen(places.take(k as int), is_file@.take(k as int)),
        decreases mentions@.len() - k,
    {
        let ghost found = chosen(paths.take(k as int), is_file@.take(k as int));
        proof {
            assert(paths.take(k + 1).drop_last() =~= paths.take(k as int));
            assert(places.take(k + 1).drop_last() =~= places.take(k as int));
            assert(is_file@.take(k + 1).drop_last() =~= is_file@.take(k as int));
            assert(paths[k as int] == mentions@[k as int].path@);
            assert(places[k as int] == (
                mentions@[k as int].start as int,
                mentions@[k as int].end as int,
            ));
        }
        if is_file[k] {
            add_path(&mut list, copy_path(&mentions[k].path), Ghost(found));
            let ghost before = span_views(parts@);
            parts.push((mentions[k].start, mentions[k].end));
            assert(span_views(parts@) =~= before.push(places[k as int]));
        }
        k += 1;
    }
    proof {
        assert(paths.take(k as int) =~= paths);
        assert(places.take(k as int) =~= places);
        assert(is_file@.take(k as int) =~= is_file@);
    }
    let clean = cut_out(&chars, &parts);
    (list, clean)
}

proof fn lemma_same_members(a: Seq<Seq<u8>>, b: Seq<Seq<u8>>, found: Seq<Seq<u8>>, i: int)
    requires
        sorted_once(a, found),
        sorted_once(b, found),
        0 <= i < a.len(),
    ensures
        exists|j: int| 0 <= j < b.len() && #[trigger] b[j] == a[i],
{
    let k = mentioned_at(found, a[i]);
    let j = held_at(b, found[k]);
    let l = mentioned_at(found, b[j]);
    if l < k {
        assert(!same_path(found[l], found[k]));
    } else if k < l {
        assert(!same_path(found[k], found[l]));
    }
    assert(b[j] == a[i]);
}

proof fn lemma_same_prefix(a: Seq<Seq<u8>>, b: Seq<Seq<u8>>, found: Seq<Seq<u8>>, n: int)
    requires
        sorted_once(a, found),
        sorted_once(b, found),
        0 <= n <= a.len(),
    ensures
        n <= b.len(),
        forall|i: int| 0 <= i < n ==> a[i] == b[i],
    decreases n,
{
    if n > 0 {
        let m = n - 1;
        lemma_same_prefix(a, b, found, m);
        lemma_same_members(a, b, found, m);
        let j = choose|j: int| 0 <= j < b.len() && #[trigger] b[j] == a[m];
        if j < m {
            assert(path_before(a[j], a[m]));
            law_path_order_is_strict(a[j], a[m]);
        } else if j > m {
            lemma_same_members(b, a, found, m);
            let i = choose|i: int| 0 <= i < a.len() && #[trigger] a[i] == b[m];
            assert(path_before(b[m], b[j]));
            law_path_order_is_strict(b[m], b[j]);
            if i < m {
                assert(path_before(b[i], b[m]));
                law_path_order_is_strict(b[i], b[m]);
            } else if i > m {
                assert(path_before(a[m], a[i]));
            }
        }
    }
}

/// There is one way only to list paths in order, each once and as it was
/// first written.
pub proof fn law_sorted_list_is_unique(
    a: Seq<Seq<u8>>,
    b: Seq<Seq<u8>>,
    found: Seq<Seq<u8>>,
)
    requires
        sorted_once(a, found),
        sorted_once(b, found),
    ensures
        a == b,
{
    lemma_same_prefix(a, b, found, a.len() as int);
    lemma_same_prefix(b, a, found, b.len() as int);
    assert(a =~= b);
}

proof fn lemma_kept_everything(t: Seq<char>, n: int)
    requires
        0 <= n <= t.len(),
    ensures
        kept(t, Seq::empty(), n) == t.take(n),
    decreases n,
{
    if n > 0 {
        lemma_kept_everything(t, n - 1);
        assert(t.take(n - 1).push(t[n - 1]) =~= t.take(n));
    } else {
        assert(t.take(0) =~= Seq::<char>::empty());
    }
}

proof fn lemma_nothing_chosen<T>(items: Seq<T>, flags: Seq<bool>)
    requires
        forall|k: int| 0 <= k < flags.len() ==> !(#[trigger] flags[k]),
    ensures
        chosen(items, flags) == Seq::<T>::empty(),
    decreases items.len(),
{
    if items.len() > 0 && flags.len() == items.len() {
        lemma_nothing_chosen(items.drop_last(), flags.drop_last());
    }
}

/// A text that mentions no file stays as it is and brings no file.
pub proof fn law_no_file_no_change(
    t: Seq<char>,
    home: Option<Seq<u8>>,
    is_file: Seq<bool>,
    list: Seq<Seq<u8>>,
)
    requires
        forall|k: int| 0 <= k < is_file.len() ==> !(#[trigger] is_file[k]),
        sorted_once(list, found_paths(t, home, is_file)),
    ensures
        list.len() == 0,
        without(t, found_spans(t, home, is_file)) == t,
{
    lemma_nothing_chosen(probes(t, home), is_file);
    lemma_nothing_chosen(probe_spans(t, home), is_file);
    lemma_kept_everything(t, t.len() as int);
    assert(t.take(t.len() as int) =~= t);
    if list.len() > 0 {
        let _ = mentioned_at(found_paths(t, home, is_file), list[0]);
    }
}

/// The media type of files with an extension, if one is known.
pub uninterp spec fn media_type_for(extension: Seq<char>) -> Option<Seq<char>>;

/// `mime_guess::from_ext`, and `first` on what it returns: the media type that
/// a table lists first for an extension, if it lists one. The contract names
/// the entry.
#[verifier::external_body]
fn guess_media_type(extension: &str) -> (r: Option<String>)
    ensures
        match r {
            Some(media_type) => media_type_for(extension@) == Some(media_type@),
            None => media_type_for(extension@) is None,
        },
{
    match mime_guess::from_ext(extension).first() {
        Some(media_type) => Some(media_type.to_string()),
        None => None,
    }
}

/// The media type that a file goes under, given the guess made for it.
pub open spec fn media_type_or_default(guess: Option<Seq<char>>) -> Seq<char> {
    match guess {
        Some(media_type) => media_type,
        None => "application/octet-stream"@,
    }
}

/// The media type that is guessed for a path: the one for its extension, if
/// that is text.
pub open spec fn guessed_for(path: Seq<u8>) -> Option<Seq<char>> {
    match extension_of(path) {
        Some(extension) => if valid_utf8(extension) {
            media_type_for(decode_utf8(extension))
        } else {
            None
        },
        None => None,
    }
}

/// The media type that a file goes under, given the guess made for it.
pub fn or_octet_stream(guess: Option<String>) -> (s: String)
    ensures
        s@ == media_type_or_default(opt_view(guess)),
{
    match guess {
        Some(media_type) => media_type,
        None => "application/octet-stream".to_owned(),
    }
}

/// The media type that the file at a path goes under.
pub fn content_type(path: &FilePath) -> (s: String)
    ensures
        s@ == media_type_or_default(guessed_for(path@)),
{
    let guess = match path.extension() {
        Some(extension) => match text_from_utf8(extension.as_slice()) {
            Some(extension) => guess_media_type(extension.as_str()),
            None => None,
        },
        None => None,
    };
    or_octet_stream(guess)
}

/// What is said of a file when it is uploaded.
#[derive(Debug, Clone, PartialEq, Eq)]
pub struct AttachmentSpec {
    pub content_type: String,
    pub length: usize,
    pub file_name: Option<String>,
}

/// What is said of the file at a path when it is uploaded.
pub fn attachment_spec(path: &FilePath, length: usize) -> (r: AttachmentSpec)
    ensures
        r.content_type@ == media_type_or_default(guessed_for(path@)),
        r.length == length,
        opt_view(r.file_name) == match file_name_of(path@) {
            Some(name) => Some(lossy_text(name)),
            None => None,
        },
        match file_name_of(path@) {
            Some(name) => valid_utf8(name) ==> opt_view(r.file_name) == Some(decode_utf8(name)),
            None => true,
        },
{
    let file_name = match path.file_name() {
        Some(name) => Some(text_from_utf8_lossy(name.as_slice())),
        None => None,
    };
    AttachmentSpec { content_type: content_type(path), length, file_name }
}

/// A message with the files that go along, each by what its upload gave.
pub struct OutgoingMessage<T> {
    pub target: RecipientTarget,
    pub body: String,
    pub timestamp: u64,
    pub attachments: Vec<T>,
}

/// What the uploads that worked gave, in order.
pub open spec fn uploaded<T>(uploads: Seq<Option<T>>) -> Seq<T>
    decreases uploads.len(),
{
    if uploads.len() == 0 {
        Seq::empty()
    } else {
        match uploads.last() {
            Some(pointer) => uploaded(uploads.drop_last()).push(pointer),
            None => uploaded(uploads.drop_last()),
        }
    }
}

/// Whether there is one upload for each of the files found: as many as the
/// list of their paths in order has.
pub open spec fn one_for_each<T>(uploads: Seq<Option<T>>, found: Seq<Seq<u8>>) -> bool {
    exists|files: Seq<Seq<u8>>| #[trigger]
        sorted_once(files, found) && files.len() == uploads.len()
}

fn keep_uploaded<T>(uploads: Vec<Option<T>>) -> (attachments: Vec<T>)
    ensures
        attachments@ == uploaded(uploads@),
{
    let ghost all = uploads@;
    let mut rest = uploads;
    let mut backwards: Vec<T> = Vec::new();
    assert(uploaded(rest@) + backwards@.reverse() =~= uploaded(all));
    while rest.len() > 0
        invariant
            uploaded(rest@) + backwards@.reverse() == uploaded(all),
        decreases rest@.len(),
    {
        let ghost before = rest@;
        let ghost tail = backwards@;
        if let Some(upload) = rest.pop() {
            assert(before.drop_last() =~= rest@);
            match upload {
                Some(pointer) => {
                    backwards.push(pointer);
                    assert(uploaded(rest@) + backwards@.reverse() =~= uploaded(before)
                        + tail.reverse());
                },
                None => {},
            }
        }
    }
    let mut attachments: Vec<T> = Vec::new();
    let ghost reversed = backwards@;
    assert(uploaded(rest@) + reversed.reverse() =~= reversed.reverse());
    assert(attachments@ + backwards@.reverse() =~= uploaded(all));
    while backwards.len() > 0
        invariant
            attachments@ + backwards@.reverse() == uploaded(all),
        decreases backwards@.len(),
    {
        let ghost before = attachments@ + backwards@.reverse();
        if let Some(pointer) = backwards.pop() {
            attachments.push(pointer);
            assert(attachments@ + backwards@.reverse() =~= before);
        }
    }
    assert(attachments@ + backwards@.reverse() =~= attachments@);
    attachments
}

/// The message for a text, given which of `probe_paths` are files and what
/// came of uploading each of the files of `extract_file_paths`, in their
/// order. If no upload worked the text goes out as it is; else the mentions of
/// files are left out of it and what was uploaded goes along.
pub fn send_signal_message<T>(
    target: RecipientTarget,
    text: String,
    home: &Option<FilePath>,
    is_file: &Vec<bool>,
    uploads: Vec<Option<T>>,
    timestamp: u64,
) -> (r: OutgoingMessage<T>)
    requires
        is_file@.len() == probes(text@, opt_path(*home)).len(),
        one_for_each(uploads@, found_paths(text@, opt_path(*home), is_file@)),
    ensures
        r.target == target,
        r.timestamp == timestamp,
        r.attachments@ == uploaded(uploads@),
        r.body@ == if uploaded(uploads@).len() == 0 {
            text@
        } else {
            without(text@, found_spans(text@, opt_path(*home), is_file@))
        },
{
    let attachments = keep_uploaded(uploads);
    let body = if attachments.len() == 0 {
        text
    } else {
        let (_, clean_text) = extract_file_paths(text.as_str(), home, is_file);
        clean_text
    };
    OutgoingMessage { target, body, timestamp, attachments }
}

/// Every path that is looked for on disk is absolute.
pub proof fn law_probes_are_absolute(t: Seq<char>, home: Option<Seq<u8>>)
    ensures
        forall|k: int| 0 <= k < probes(t, home).len() ==> is_absolute(#[trigger] probes(t, home)[k]),
{
    let meant = |span: (int, int)| expanded(part(t, span), home) is Some;
    let kept_spans = probe_spans(t, home);
    law_candidates_look_like_paths(t);
    assert forall|k: int| 0 <= k < probes(t, home).len() implies is_absolute(
        #[trigger] probes(t, home)[k],
    ) by {
        let span = kept_spans[k];
        spans(t).lemma_filter_contains_rev(meant, span);
        let m = choose|m: int| 0 <= m < spans(t).len() && spans(t)[m] == span;
        assert(looks_like_path(t, spans(t)[m]));
        let candidate = part(t, span);
        assert(candidate[0] == t[span.0]);
        assert(candidate[1] == t[span.0 + 1]);
        lemma_expanded_is_absolute(candidate, home);
    }
}

/// Whether a place holds what looks like a path: it starts with `/` or `~/`,
/// has neither white space nor a delimiter in it, is longer than one
/// character, and is followed by white space, a delimiter or the end of the
/// text.
pub open spec fn looks_like_path(t: Seq<char>, span: (int, int)) -> bool {
    &&& 0 <= span.0
    &&& span.0 + 1 < span.1 <= t.len()
    &&& path_starts(t, span.0)
    &&& forall|j: int| span.0 <= j < span.1 ==> !ends_path(t[j])
    &&& span.1 == t.len() || ends_path(t[span.1])
}

proof fn lemma_spans_from(t: Seq<char>, i: int)
    requires
        0 <= i,
    ensures
        forall|k: int|
            0 <= k < spans_from(t, i).len() ==> i <= (#[trigger] spans_from(t, i)[k]).0
                && looks_like_path(t, spans_from(t, i)[k]),
        forall|k: int, l: int|
            0 <= k < l < spans_from(t, i).len() ==> (#[trigger] spans_from(t, i)[k]).1 <= (
            #[trigger] spans_from(t, i)[l]).0,
    decreases t.len() - i,
{
    let all = spans_from(t, i);
    if i >= t.len() {
        assert(all.len() == 0);
    } else if path_starts(t, i) {
        lemma_path_end(t, i);
        lemma_path_end(t, i + 1);
        let end = path_end(t, i);
        let rest = spans_from(t, end);
        lemma_spans_from(t, end);
        if end - i > 1 {
            assert(all == seq![(i, end)] + rest);
            assert(looks_like_path(t, (i, end)));
            assert forall|k: int| 0 <= k < all.len() implies i <= (#[trigger] all[k]).0
                && looks_like_path(t, all[k]) by {
                if k > 0 {
                    assert(all[k] == rest[k - 1]);
                }
            }
            assert forall|k: int, l: int| 0 <= k < l < all.len() implies (#[trigger] all[k]).1 <= (
            #[trigger] all[l]).0 by {
                assert(all[l] == rest[l - 1]);
                if k > 0 {
                    assert(all[k] == rest[k - 1]);
                }
            }
        } else {
            assert(all == rest);
            assert forall|k: int| 0 <= k < all.len() implies i <= (#[trigger] all[k]).0
                && looks_like_path(t, all[k]) by {
                assert(end <= rest[k].0);
            }
        }
    } else {
        lemma_spans_from(t, i + 1);
        let rest = spans_from(t, i + 1);
        assert(all == rest);
        assert forall|k: int| 0 <= k < all.len() implies i <= (#[trigger] all[k]).0
            && looks_like_path(t, all[k]) by {
            assert(i + 1 <= rest[k].0);
        }
    }
}

/// Every place found in a text holds what looks like a path, and the places
/// come in order and do not overlap.
pub proof fn law_candidates_look_like_paths(t: Seq<char>)
    ensures
        forall|k: int| 0 <= k < spans(t).len() ==> looks_like_path(t, #[trigger] spans(t)[k]),
        forall|k: int, l: int|
            0 <= k < l < spans(t).len() ==> (#[trigger] spans(t)[k]).1 <= (#[trigger] spans(
                t,
            )[l]).0,
{
    lemma_spans_from(t, 0);
}

proof fn lemma_path_end_within(t: Seq<char>, p: int, s: int)
    requires
        0 <= p <= s < path_end(t, p),
        p <= t.len(),
    ensures
        path_end(t, s) == path_end(t, p),
    decreases s - p,
{
    if p < s {
        lemma_path_end_within(t, p + 1, s);
    }
}

proof fn lemma_starts_are_searched(t: Seq<char>, i: int, s: int)
    requires
        0 <= i <= s < t.len(),
        path_starts(t, s),
        path_end(t, s) - s > 1,
    ensures
        exists|k: int|
            0 <= k < spans_from(t, i).len() && (#[trigger] spans_from(t, i)[k]).0 <= s
                && spans_from(t, i)[k].1 == path_end(t, s),
    decreases t.len() - i,
{
    let all = spans_from(t, i);
    let whole = path_end(t, s);
    if path_starts(t, i) {
        lemma_path_end(t, i);
        lemma_path_end(t, i + 1);
        let end = path_end(t, i);
        if s < end {
            lemma_path_end_within(t, i, s);
            assert(all[0] == (i, end));
        } else {
            lemma_starts_are_searched(t, end, s);
            let rest = spans_from(t, end);
            let k = choose|k: int|
                0 <= k < rest.len() && (#[trigger] rest[k]).0 <= s && rest[k].1 == whole;
            if end - i > 1 {
                assert(all[k + 1] == rest[k]);
            } else {
                assert(all[k] == rest[k]);
            }
        }
    } else {
        lemma_starts_are_searched(t, i + 1, s);
        let rest = spans_from(t, i + 1);
        let k = choose|k: int|
            0 <= k < rest.len() && (#[trigger] rest[k]).0 <= s && rest[k].1 == whole;
        assert(all[k] == rest[k]);
    }
}

/// No mention is missed: wherever a path starts in a text and goes on for more
/// than one character, it is in a candidate that ends where it does.
pub proof fn law_no_candidate_is_missed(t: Seq<char>, s: int)
    requires
        0 <= s < t.len(),
        path_starts(t, s),
        path_end(t, s) - s > 1,
    ensures
        exists|k: int|
            0 <= k < spans(t).len() && (#[trigger] spans(t)[k]).0 <= s && spans(t)[k].1 == path_end(
                t,
                s,
            ),
{
    lemma_starts_are_searched(t, 0, s);
    let k = choose|k: int|
        0 <= k < spans_from(t, 0).len() && (#[trigger] spans_from(t, 0)[k]).0 <= s && spans_from(
            t,
            0,
        )[k].1 == path_end(t, s);
    assert(spans(t)[k].0 <= s);
}

/// How many of some uploads worked.
pub open spec fn worked<T>(uploads: Seq<Option<T>>) -> nat
    decreases uploads.len(),
{
    if uploads.len() == 0 {
        0
    } else if uploads.last() is Some {
        worked(uploads.drop_last()) + 1
    } else {
        worked(uploads.drop_last())
    }
}

/// Every upload that worked goes along and nothing else does: there are as
/// many attachments as uploads that worked, and each stands at the place that
/// counts those before it.
pub proof fn law_every_upload_goes_along<T>(uploads: Seq<Option<T>>)
    ensures
        uploaded(uploads).len() == worked(uploads),
        forall|i: int|
            0 <= i < uploads.len() && (#[trigger] uploads[i]) is Some ==> worked(uploads.take(i))
                < uploaded(uploads).len() && uploaded(uploads)[worked(uploads.take(i)) as int]
                == uploads[i]->0,
    decreases uploads.len(),
{
    if uploads.len() > 0 {
        let shorter = uploads.drop_last();
        law_every_upload_goes_along(shorter);
        assert forall|i: int| 0 <= i < uploads.len() && (#[trigger] uploads[i]) is Some implies
            worked(uploads.take(i)) < uploaded(uploads).len() && uploaded(uploads)[worked(
            uploads.take(i),
        ) as int] == uploads[i]->0 by {
            if i < shorter.len() {
                assert(shorter[i] == uploads[i]);
                assert(shorter.take(i) =~= uploads.take(i));
            } else {
                assert(uploads.take(i) =~= shorter);
            }
        }
    }
}

/// If every upload worked they all go along, in their order.
pub proof fn law_all_uploads_go_along<T>(uploads: Seq<Option<T>>)
    requires
        forall|i: int| 0 <= i < uploads.len() ==> (#[trigger] uploads[i]) is Some,
    ensures
        uploaded(uploads).len() == uploads.len(),
        forall|i: int| 0 <= i < uploads.len() ==> uploaded(uploads)[i] == (#[trigger] uploads[i])->0,
    decreases uploads.len(),
{
    if uploads.len() > 0 {
        let shorter = uploads.drop_last();
        assert forall|i: int| 0 <= i < shorter.len() implies (#[trigger] shorter[i]) is Some by {
            assert(shorter[i] == uploads[i]);
        }
        law_all_uploads_go_along(shorter);
        assert(uploads[uploads.len() - 1] is Some);
        assert forall|i: int| 0 <= i < uploads.len() implies uploaded(uploads)[i] == (
        #[trigger] uploads[i])->0 by {
            if i < shorter.len() {
                assert(shorter[i] == uploads[i]);
            }
        }
    }
}

/// A path ends at white space and at the delimiters, and at nothing else.
pub proof fn law_where_paths_end(c: char)
    ensures
        ends_path(c) <==> is_white_space(c) || "`*\"')],;:"@.contains(c),
{
    let delimiters = "`*\"')],;:"@;
    reveal_strlit("`*\"')],;:");
    if is_closing(c) {
        assert(delimiters[0] == '`' && delimiters[1] == '*' && delimiters[2] == '"'
            && delimiters[3] == '\'' && delimiters[4] == ')' && delimiters[5] == ']'
            && delimiters[6] == ',' && delimiters[7] == ';' && delimiters[8] == ':');
        assert(delimiters.contains(c));
    }
}

spec fn moved(found: Seq<(int, int)>, n: int) -> Seq<(int, int)> {
    found.map_values(|span: (int, int)| (span.0 + n, span.1 + n))
}

proof fn lemma_path_end_behind(a: Seq<char>, b: Seq<char>, i: int)
    requires
        0 <= i <= b.len(),
    ensures
        path_end(a + b, a.len() + i) == a.len() + path_end(b, i),
    decreases b.len() - i,
{
    if i < b.len() {
        assert((a + b)[a.len() + i] == b[i]);
        if !ends_path(b[i]) {
            lemma_path_end_behind(a, b, i + 1);
        }
    }
}

proof fn lemma_spans_behind(a: Seq<char>, b: Seq<char>, i: int)
    requires
        0 <= i,
    ensures
        spans_from(a + b, a.len() + i) == moved(spans_from(b, i), a.len() as int),
    decreases b.len() - i,
{
    let t = a + b;
    let n = a.len() as int;
    if i >= b.len() {
        assert(spans_from(t, n + i) =~= moved(spans_from(b, i), n));
    } else {
        assert(t[n + i] == b[i]);
        if i + 1 < b.len() {
            assert(t[n + i + 1] == b[i + 1]);
        }
        assert(path_starts(t, n + i) == path_starts(b, i));
        if path_starts(b, i) {
            lemma_path_end(b, i + 1);
            lemma_path_end_behind(a, b, i);
            let end = path_end(b, i);
            lemma_spans_behind(a, b, end);
            if end - i > 1 {
                assert(spans_from(t, n + i) =~= seq![(n + i, n + end)] + spans_from(t, n + end));
                assert(moved(seq![(i, end)] + spans_from(b, end), n) =~= seq![(n + i, n + end)]
                    + moved(spans_from(b, end), n));
            }
        } else {
            lemma_spans_behind(a, b, i + 1);
        }
    }
}

proof fn lemma_path_end_before(a: Seq<char>, c: char, b: Seq<char>, i: int)
    requires
        ends_path(c),
        0 <= i <= a.len(),
    ensures
        path_end(a.push(c) + b, i) == path_end(a, i),
    decreases a.len() - i,
{
    let t = a.push(c) + b;
    if i < a.len() {
        assert(t[i] == a[i]);
        if !ends_path(a[i]) {
            lemma_path_end_before(a, c, b, i + 1);
        }
    } else {
        assert(t[i] == c);
    }
}

proof fn lemma_spans_before(a: Seq<char>, c: char, b: Seq<char>, i: int)
    requires
        ends_path(c),
        0 <= i <= a.len(),
    ensures
        spans_from(a.push(c) + b, i) == spans_from(a, i) + spans_from(
            a.push(c) + b,
            a.len() as int + 1,
        ),
    decreases a.len() - i,
{
    let t = a.push(c) + b;
    let n = a.len() as int;
    let rest = spans_from(t, n + 1);
    if i == n {
        assert(t[i] == c);
        assert(!path_starts(t, i));
        assert(spans_from(t, i) =~= spans_from(a, i) + rest);
    } else {
        assert(t[i] == a[i]);
        if i + 1 < n {
            assert(t[i + 1] == a[i + 1]);
        } else {
            assert(t[i + 1] == c);
        }
        assert(path_starts(t, i) == path_starts(a, i));
        if path_starts(a, i) {
            lemma_path_end(a, i + 1);
            lemma_path_end_before(a, c, b, i);
            let end = path_end(a, i);
            lemma_spans_before(a, c, b, end);
            if end - i > 1 {
                assert(seq![(i, end)] + (spans_from(a, end) + rest) =~= (seq![(i, end)]
                    + spans_from(a, end)) + rest);
            }
        } else {
            lemma_spans_before(a, c, b, i + 1);
        }
    }
}

/// White space or a delimiter parts a text in two, which mention paths
/// independently of each other.
pub proof fn law_delimiters_part_mentions(a: Seq<char>, c: char, b: Seq<char>)
    requires
        is_white_space(c) || "`*\"')],;:"@.contains(c),
    ensures
        candidates(a.push(c) + b) == candidates(a) + candidates(b),
{
    law_where_paths_end(c);
    let front = a.push(c);
    let t = front + b;
    let n = front.len() as int;
    lemma_spans_before(a, c, b, 0);
    lemma_spans_behind(front, b, 0);
    lemma_spans_from(a, 0);
    lemma_spans_from(b, 0);
    let x = spans(a);
    let y = spans(b);
    assert(spans(t) =~= x + moved(y, n));
    assert forall|k: int| 0 <= k < candidates(t).len() implies candidates(t)[k] == (candidates(a)
        + candidates(b))[k] by {
        if k < x.len() {
            assert(looks_like_path(a, x[k]));
            assert(part(t, x[k]) =~= part(a, x[k]));
        } else {
            let span = y[k - x.len()];
            assert(looks_like_path(b, span));
            assert(part(t, (span.0 + n, span.1 + n)) =~= part(b, span));
        }
    }
    assert(candidates(t) =~= candidates(a) + candidates(b));
}

proof fn lemma_path_end_of_word(word: Seq<char>, i: int)
    requires
        0 <= i <= word.len(),
        forall|j: int| 0 <= j < word.len() ==> !ends_path(#[trigger] word[j]),
    ensures
        path_end(word, i) == word.len(),
    decreases word.len() - i,
{
    if i < word.len() {
        assert(!ends_path(word[i]));
        lemma_path_end_of_word(word, i + 1);
    }
}

proof fn lemma_spans_of_word(word: Seq<char>, from: int, start: int)
    requires
        0 <= from <= start <= word.len(),
        forall|j: int| 0 <= j < word.len() ==> !ends_path(#[trigger] word[j]),
        forall|j: int| from <= j < start ==> !#[trigger] path_starts(word, j),
        start == word.len() || path_starts(word, start),
    ensures
        spans_from(word, from) == if word.len() - start > 1 {
            seq![(start, word.len() as int)]
        } else {
            Seq::empty()
        },
    decreases start - from,
{
    if from < start {
        assert(!path_starts(word, from));
        lemma_spans_of_word(word, from + 1, start);
    } else if start < word.len() {
        lemma_path_end_of_word(word, start);
        let n = word.len() as int;
        assert(spans_from(word, n) =~= Seq::empty());
        assert(spans_from(word, start) =~= if n - start > 1 {
            seq![(start, n)]
        } else {
            Seq::empty()
        });
    }
}

/// In a word, without white space and delimiters, a path goes from its first
/// slash, or from the tilde before that slash, to the end of the word. It is
/// mentioned if it is more than a single slash. A word without a slash
/// mentions none.
pub proof fn law_a_word_mentions_its_path(before: Seq<char>, path: Seq<char>)
    requires
        forall|j: int|
            0 <= j < before.len() ==> !is_white_space(#[trigger] before[j])
                && !"`*\"')],;:"@.contains(before[j]) && before[j] != '/',
        forall|j: int|
            0 <= j < path.len() ==> !is_white_space(#[trigger] path[j])
                && !"`*\"')],;:"@.contains(path[j]),
        path.len() > 0 ==> (path[0] == '/' && (before.len() == 0 || before.last() != '~')) || (
        path.len() > 1 && path[0] == '~' && path[1] == '/'),
    ensures
        path.len() > 1 ==> candidates(before + path) == seq![path],
        path.len() <= 1 ==> candidates(before + path) == Seq::<Seq<char>>::empty(),
{
    let word = before + path;
    let start = before.len() as int;
    assert forall|j: int| 0 <= j < word.len() implies !ends_path(#[trigger] word[j]) by {
        law_where_paths_end(word[j]);
        if j < start {
            assert(word[j] == before[j]);
        } else {
            assert(word[j] == path[j - start]);
        }
    }
    assert forall|j: int| 0 <= j < start implies !#[trigger] path_starts(word, j) by {
        assert(word[j] == before[j]);
        if j + 1 < start {
            assert(word[j + 1] == before[j + 1]);
        } else if path.len() > 0 {
            assert(word[j + 1] == path[0]);
        }
    }
    if path.len() > 0 {
        assert(word[start] == path[0]);
        if path.len() > 1 {
            assert(word[start + 1] == path[1]);
        }
    }
    lemma_spans_of_word(word, 0, start);
    if path.len() > 1 {
        assert(part(word, (start, word.len() as int)) =~= path);
        assert(candidates(word) =~= seq![path]);
    } else {
        assert(candidates(word) =~= Seq::<Seq<char>>::empty());
    }
}

/// The paths that some candidates mean, in their order.
pub open spec fn meant_by(mentioned: Seq<Seq<char>>, home: Option<Seq<u8>>) -> Seq<Seq<u8>>
    decreases mentioned.len(),
{
    if mentioned.len() == 0 {
        Seq::empty()
    } else {
        match expanded(mentioned.last(), home) {
            Some(path) => meant_by(mentioned.drop_last(), home).push(path),
            None => meant_by(mentioned.drop_last(), home),
        }
    }
}

proof fn lemma_meant_by_spans(t: Seq<char>, some: Seq<(int, int)>, home: Option<Seq<u8>>)
    ensures
        some.filter(|span: (int, int)| expanded(part(t, span), home) is Some).map_values(
            |span: (int, int)| expanded(part(t, span), home)->0,
        ) == meant_by(some.map_values(|span: (int, int)| part(t, span)), home),
    decreases some.len(),
{
    let meant = |span: (int, int)| expanded(part(t, span), home) is Some;
    let path = |span: (int, int)| expanded(part(t, span), home)->0;
    let text = |span: (int, int)| part(t, span);
    reveal(Seq::filter);
    if some.len() == 0 {
        assert(some.filter(meant).map_values(path) =~= meant_by(some.map_values(text), home));
    } else {
        let shorter = some.drop_last();
        lemma_meant_by_spans(t, shorter, home);
        assert(some.map_values(text).drop_last() =~= shorter.map_values(text));
        assert(some.map_values(text).last() == part(t, some.last()));
        assert(some.filter(meant).map_values(path) =~= meant_by(some.map_values(text), home));
    }
}

/// The paths looked for on disk are those that the candidates mean, each in
/// its turn.
pub proof fn law_probes_are_what_candidates_mean(t: Seq<char>, home: Option<Seq<u8>>)
    ensures
        probes(t, home) == meant_by(candidates(t), home),
        probe_spans(t, home).len() == probes(t, home).len(),
        forall|k: int|
            0 <= k < probes(t, home).len() ==> expanded(
                part(t, #[trigger] probe_spans(t, home)[k]),
                home,
            ) == Some(probes(t, home)[k]),
{
    lemma_meant_by_spans(t, spans(t), home);
    let meant = |span: (int, int)| expanded(part(t, span), home) is Some;
    assert forall|k: int| 0 <= k < probes(t, home).len() implies expanded(
        part(t, #[trigger] probe_spans(t, home)[k]),
        home,
    ) == Some(probes(t, home)[k]) by {
        spans(t).lemma_filter_pred(meant, k);
        assert(meant(probe_spans(t, home)[k]));
    }
}

/// A candidate that starts with a slash means the path with its own text. One
/// that starts with `~/` means the rest below the home directory, and nothing
/// without one.
pub proof fn law_what_a_candidate_means(rest: Seq<char>, home: Seq<u8>)
    ensures
        expanded(seq!['/'] + rest, Some(home)) == Some(encode_utf8(seq!['/'] + rest)),
        expanded(seq!['/'] + rest, None) == Some(encode_utf8(seq!['/'] + rest)),
        expanded(seq!['~', '/'] + rest, None) is None,
        is_absolute(home) && !is_absolute(encode_utf8(rest)) && home.last() != 47 ==> expanded(
            seq!['~', '/'] + rest,
            Some(home),
        ) == Some(home.push(47) + encode_utf8(rest)),
        is_absolute(home) && !is_absolute(encode_utf8(rest)) && home.last() == 47 ==> expanded(
            seq!['~', '/'] + rest,
            Some(home),
        ) == Some(home + encode_utf8(rest)),
{
    let candidate = seq!['~', '/'] + rest;
    assert(candidate.skip(2) =~= rest);
}

/// Choosing goes item by item: an item is chosen exactly if its own flag is
/// set, and the order stays.
pub proof fn law_flags_choose<T>(items: Seq<T>, flags: Seq<bool>, item: T, flag: bool)
    requires
        flags.len() == items.len(),
    ensures
        chosen(items.push(item), flags.push(flag)) == if flag {
            chosen(items, flags).push(item)
        } else {
            chosen(items, flags)
        },
        chosen(Seq::<T>::empty(), Seq::<bool>::empty()) == Seq::<T>::empty(),
{
    assert(items.push(item).drop_last() =~= items);
    assert(flags.push(flag).drop_last() =~= flags);
}

proof fn lemma_chosen<T>(items: Seq<T>, flags: Seq<bool>)
    requires
        flags.len() == items.len(),
    ensures
        forall|k: int|
            0 <= k < items.len() && #[trigger] flags[k] ==> chosen(items, flags).contains(items[k]),
        forall|x: T| #[trigger]
            chosen(items, flags).contains(x) ==> exists|k: int|
                0 <= k < items.len() && #[trigger] flags[k] && items[k] == x,
    decreases items.len(),
{
    if items.len() > 0 {
        let fewer = items.drop_last();
        let some = flags.drop_last();
        let all = chosen(items, flags);
        let before = chosen(fewer, some);
        lemma_chosen(fewer, some);
        assert forall|k: int| 0 <= k < items.len() && #[trigger] flags[k] implies all.contains(
            items[k],
        ) by {
            if k < fewer.len() {
                assert(some[k]);
                assert(before.contains(fewer[k]));
                let i = choose|i: int| 0 <= i < before.len() && before[i] == fewer[k];
                assert(all[i] == items[k]);
            } else {
                assert(all[all.len() - 1] == items[k]);
            }
        }
        assert forall|x: T| #[trigger] all.contains(x) implies exists|k: int|
            0 <= k < items.len() && #[trigger] flags[k] && items[k] == x by {
            let i = choose|i: int| 0 <= i < all.len() && all[i] == x;
            if i < before.len() {
                assert(before[i] == x);
                assert(before.contains(x));
                let k = choose|k: int| 0 <= k < fewer.len() && #[trigger] some[k] && fewer[k] == x;
                assert(flags[k] && items[k] == x);
            } else {
                let last = items.len() - 1;
                assert(flags[last] && items[last] == x);
            }
        }
    }
}

/// Whether a path is one that a text mentions and that is a file.
pub open spec fn is_mentioned_file(
    t: Seq<char>,
    home: Option<Seq<u8>>,
    is_file: Seq<bool>,
    path: Seq<u8>,
) -> bool {
    exists|k: int| 0 <= k < is_file.len() && #[trigger] is_file[k] && probes(t, home)[k] == path
}

/// Every path that is a file is in the list of files, and every path in that
/// list is one that is a file; they stand in order, and no two go through the
/// same names.
pub proof fn law_the_files_are_listed(
    t: Seq<char>,
    home: Option<Seq<u8>>,
    is_file: Seq<bool>,
    list: Seq<Seq<u8>>,
)
    requires
        is_file.len() == probes(t, home).len(),
        sorted_once(list, found_paths(t, home, is_file)),
    ensures
        forall|k: int|
            0 <= k < is_file.len() && #[trigger] is_file[k] ==> exists|i: int|
                0 <= i < list.len() && names(#[trigger] list[i]) == names(probes(t, home)[k]),
        forall|i: int|
            0 <= i < list.len() ==> is_mentioned_file(t, home, is_file, #[trigger] list[i]),
        forall|i: int, j: int|
            0 <= i < j < list.len() ==> path_before(#[trigger] list[i], #[trigger] list[j]) && names(
                list[i],
            ) != names(list[j]),
{
    let paths = probes(t, home);
    let found = found_paths(t, home, is_file);
    lemma_chosen(paths, is_file);
    assert forall|k: int| 0 <= k < is_file.len() && #[trigger] is_file[k] implies exists|i: int|
        0 <= i < list.len() && names(#[trigger] list[i]) == names(paths[k]) by {
        assert(found.contains(paths[k]));
        let m = choose|m: int| 0 <= m < found.len() && found[m] == paths[k];
        assert(holds_path(list, found[m]));
        let i = held_at(list, found[m]);
        assert(names(list[i]) == names(paths[k]));
    }
    assert forall|i: int| 0 <= i < list.len() implies is_mentioned_file(
        t,
        home,
        is_file,
        #[trigger] list[i],
    ) by {
        let m = mentioned_at(found, list[i]);
        assert(found[m] == list[i]);
        assert(found.contains(list[i]));
    }
    assert forall|i: int, j: int| 0 <= i < j < list.len() implies path_before(
        #[trigger] list[i],
        #[trigger] list[j],
    ) && names(list[i]) != names(list[j]) by {
        law_path_order_is_strict(list[i], list[j]);
    }
}

proof fn lemma_kept_before(t: Seq<char>, parts: Seq<(int, int)>, i: int, j: int, n: int)
    requires
        0 <= n <= i <= j <= t.len(),
    ensures
        kept(t, parts.push((i, j)), n) == kept(t.take(i), parts, n),
    decreases n,
{
    if n > 0 {
        lemma_kept_before(t, parts, i, j, n - 1);
        let more = parts.push((i, j));
        assert(inside(more, n - 1) == inside(parts, n - 1)) by {
            if inside(more, n - 1) {
                let k = choose|k: int|
                    0 <= k < more.len() && (#[trigger] more[k]).0 <= n - 1 < more[k].1;
                assert(parts[k] == more[k]);
            }
            if inside(parts, n - 1) {
                let k = choose|k: int|
                    0 <= k < parts.len() && (#[trigger] parts[k]).0 <= n - 1 < parts[k].1;
                assert(more[k] == parts[k]);
            }
        }
        assert(t.take(i)[n - 1] == t[n - 1]);
    }
}

proof fn lemma_kept_behind(t: Seq<char>, parts: Seq<(int, int)>, i: int, j: int, n: int)
    requires
        0 <= i <= j <= t.len(),
        i <= n <= t.len(),
        forall|k: int| 0 <= k < parts.len() ==> (#[trigger] parts[k]).1 <= i,
    ensures
        kept(t, parts.push((i, j)), n) == kept(t.take(i), parts, i) + if n > j {
            t.subrange(j, n)
        } else {
            Seq::empty()
        },
    decreases n,
{
    let more = parts.push((i, j));
    let front = kept(t.take(i), parts, i);
    if n == i {
        lemma_kept_before(t, parts, i, j, i);
        assert(front + Seq::<char>::empty() =~= front);
    } else {
        lemma_kept_behind(t, parts, i, j, n - 1);
        if n - 1 < j {
            assert(more[parts.len() as int] == (i, j));
            assert(inside(more, n - 1));
        } else {
            assert(!inside(more, n - 1)) by {
                if inside(more, n - 1) {
                    let k = choose|k: int|
                        0 <= k < more.len() && (#[trigger] more[k]).0 <= n - 1 < more[k].1;
                    if k < parts.len() {
                        assert(parts[k] == more[k]);
                    }
                }
            }
            assert(front + t.subrange(j, n) =~= (front + if n - 1 > j {
                t.subrange(j, n - 1)
            } else {
                Seq::empty()
            }).push(t[n - 1]));
        }
    }
}

/// Cutting a part out of a text, behind all the others that are cut out, takes
/// that part and nothing else: what stands before it is cut as without it, and
/// what stands behind it stays.
pub proof fn law_only_the_parts_are_cut_out(t: Seq<char>, parts: Seq<(int, int)>, i: int, j: int)
    requires
        0 <= i <= j <= t.len(),
        forall|k: int| 0 <= k < parts.len() ==> (#[trigger] parts[k]).1 <= i,
    ensures
        without(t, parts.push((i, j))) == without(t.take(i), parts) + t.skip(j),
        without(t, Seq::empty()) == t,
{
    lemma_kept_behind(t, parts, i, j, t.len() as int);
    lemma_kept_everything(t, t.len() as int);
    assert(t.take(t.len() as int) =~= t);
    assert(t.subrange(j, t.len() as int) =~= t.skip(j));
    if t.len() == j {
        assert(t.skip(j) =~= Seq::<char>::empty());
    }
}

/// What is cut out of a text are the mentions of paths that are files.
pub proof fn law_mentions_of_files_are_cut_out(
    t: Seq<char>,
    home: Option<Seq<u8>>,
    is_file: Seq<bool>,
)
    requires
        is_file.len() == probes(t, home).len(),
    ensures
        forall|k: int|
            0 <= k < is_file.len() && #[trigger] is_file[k] ==> found_spans(
                t,
                home,
                is_file,
            ).contains(probe_spans(t, home)[k]),
        forall|span: (int, int)| #[trigger]
            found_spans(t, home, is_file).contains(span) ==> exists|k: int|
                0 <= k < is_file.len() && #[trigger] is_file[k] && probe_spans(t, home)[k] == span,
{
    lemma_chosen(probe_spans(t, home), is_file);
}

/// A file goes under the media type for its extension, if one is known, and
/// else as a stream of bytes.
pub proof fn law_media_types(path: Seq<u8>, extension: Seq<u8>)
    ensures
        extension_of(path) == Some(extension) && valid_utf8(extension) ==> guessed_for(path)
            == media_type_for(decode_utf8(extension)),
        extension_of(path) == Some(extension) && !valid_utf8(extension) ==> guessed_for(path)
            is None,
        extension_of(path) is None ==> guessed_for(path) is None,
        guessed_for(path) matches Some(media_type) ==> media_type_or_default(guessed_for(path))
            == media_type,
        guessed_for(path) is None ==> media_type_or_default(guessed_for(path))
            == "application/octet-stream"@,
{
}

/// Lists of paths and of places are seen whole.
pub proof fn law_lists_are_seen_whole(paths: Seq<FilePath>, places: Seq<(usize, usize)>)
    ensures
        path_views(paths).len() == paths.len(),
        forall|i: int| 0 <= i < paths.len() ==> #[trigger] path_views(paths)[i] == paths[i]@,
        span_views(places).len() == places.len(),
        forall|i: int|
            0 <= i < places.len() ==> #[trigger] span_views(places)[i] == (
                places[i].0 as int,
                places[i].1 as int,
            ),
{
}

proof fn lemma_filter_keeps_order(
    all: Seq<(int, int)>,
    kept_ones: spec_fn((int, int)) -> bool,
)
    requires
        forall|k: int, l: int|
            0 <= k < l < all.len() ==> (#[trigger] all[k]).1 <= (#[trigger] all[l]).0,
    ensures
        forall|k: int, l: int|
            0 <= k < l < all.filter(kept_ones).len() ==> (#[trigger] all.filter(kept_ones)[k]).1
                <= (#[trigger] all.filter(kept_ones)[l]).0,
        forall|k: int|
            0 <= k < all.filter(kept_ones).len() ==> all.contains(
                #[trigger] all.filter(kept_ones)[k],
            ),
    decreases all.len(),
{
    let r = all.filter(kept_ones);
    if all.len() > 0 {
        let fewer = all.drop_last();
        let last = all.last();
        assert forall|k: int, l: int| 0 <= k < l < fewer.len() implies (#[trigger] fewer[k]).1 <= (
        #[trigger] fewer[l]).0 by {
            assert(fewer[k] == all[k]);
            assert(fewer[l] == all[l]);
        }
        lemma_filter_keeps_order(fewer, kept_ones);
        let before = fewer.filter(kept_ones);
        assert(r == if kept_ones(last) {
            before.push(last)
        } else {
            before
        }) by {
            reveal(Seq::filter);
        }
        assert forall|k: int| 0 <= k < r.len() implies all.contains(#[trigger] r[k]) by {
            if k < before.len() {
                assert(r[k] == before[k]);
                assert(fewer.contains(before[k]));
                let m = choose|m: int| 0 <= m < fewer.len() && fewer[m] == before[k];
                assert(all[m] == r[k]);
            } else {
                assert(all[all.len() - 1] == r[k]);
            }
        }
        assert forall|k: int, l: int| 0 <= k < l < r.len() implies (#[trigger] r[k]).1 <= (
        #[trigger] r[l]).0 by {
            assert(r[k] == before[k]);
            if l < before.len() {
                assert(r[l] == before[l]);
            } else {
                assert(fewer.contains(before[k]));
                let m = choose|m: int| 0 <= m < fewer.len() && fewer[m] == before[k];
                assert(all[m].1 <= all[all.len() - 1].0);
            }
        }
    } else {
        assert(r.len() == 0) by {
            reveal(Seq::filter);
        }
    }
}

/// The mentions that are looked for on disk are places where the text mentions
/// what looks like a path, each one once and in the order of the text.
pub proof fn law_mentions_come_in_order(t: Seq<char>, home: Option<Seq<u8>>)
    ensures
        forall|k: int, l: int|
            0 <= k < l < probe_spans(t, home).len() ==> (#[trigger] probe_spans(t, home)[k]).1 <= (
            #[trigger] probe_spans(t, home)[l]).0,
        forall|k: int|
            0 <= k < probe_spans(t, home).len() ==> looks_like_path(
                t,
                #[trigger] probe_spans(t, home)[k],
            ),
{
    law_candidates_look_like_paths(t);
    let meant = |span: (int, int)| expanded(part(t, span), home) is Some;
    lemma_filter_keeps_order(spans(t), meant);
    assert forall|k: int| 0 <= k < probe_spans(t, home).len() implies looks_like_path(
        t,
        #[trigger] probe_spans(t, home)[k],
    ) by {
        assert(spans(t).contains(probe_spans(t, home)[k]));
        let m = choose|m: int|
            0 <= m < spans(t).len() && spans(t)[m] == probe_spans(t, home)[k];
        assert(looks_like_path(t, spans(t)[m]));
    }
}

/// A file that is mentioned more than once is listed as it was written first.
pub proof fn law_files_are_listed_as_first_written(
    list: Seq<Seq<u8>>,
    found: Seq<Seq<u8>>,
    i: int,
    k: int,
)
    requires
        sorted_once(list, found),
        0 <= i < list.len(),
        0 <= k < found.len(),
        names(found[k]) == names(list[i]),
        forall|m: int| 0 <= m < k ==> names(#[trigger] found[m]) != names(found[k]),
    ensures
        list[i] == found[k],
{
    let m = mentioned_at(found, list[i]);
    if m < k {
        assert(names(found[m]) != names(found[k]));
    } else if k < m {
        assert(!same_path(found[k], found[m]));
    }
}

/// The files found are the mentioned paths that are files, in the order of
/// their mention.
pub proof fn law_found_files_follow_the_mentions(
    t: Seq<char>,
    home: Option<Seq<u8>>,
    is_file: Seq<bool>,
)
    requires
        is_file.len() == probes(t, home).len(),
    ensures
        found_paths(t, home, is_file).len() == found_spans(t, home, is_file).len(),
        forall|k: int|
            0 <= k < found_paths(t, home, is_file).len() ==> expanded(
                part(t, #[trigger] found_spans(t, home, is_file)[k]),
                home,
            ) == Some(found_paths(t, home, is_file)[k]),
{
    law_probes_are_what_candidates_mean(t, home);
    lemma_chosen_pairs(t, home, probe_spans(t, home), probes(t, home), is_file);
}

proof fn lemma_chosen_pairs(
    t: Seq<char>,
    home: Option<Seq<u8>>,
    places: Seq<(int, int)>,
    paths: Seq<Seq<u8>>,
    flags: Seq<bool>,
)
    requires
        places.len() == paths.len(),
        flags.len() == paths.len(),
        forall|k: int|
            0 <= k < paths.len() ==> expanded(part(t, #[trigger] places[k]), home) == Some(paths[k]),
    ensures
        chosen(places, flags).len() == chosen(paths, flags).len(),
        forall|k: int|
            0 <= k < chosen(paths, flags).len() ==> expanded(
                part(t, #[trigger] chosen(places, flags)[k]),
                home,
            ) == Some(chosen(paths, flags)[k]),
    decreases paths.len(),
{
    if paths.len() > 0 {
        let x = places.drop_last();
        let y = paths.drop_last();
        let f = flags.drop_last();
        assert forall|k: int| 0 <= k < y.len() implies expanded(part(t, #[trigger] x[k]), home)
            == Some(y[k]) by {
            assert(x[k] == places[k]);
        }
        lemma_chosen_pairs(t, home, x, y, f);
        let n = paths.len() - 1;
        assert(expanded(part(t, places[n]), home) == Some(paths[n]));
        assert forall|k: int| 0 <= k < chosen(paths, flags).len() implies expanded(
            part(t, #[trigger] chosen(places, flags)[k]),
            home,
        ) == Some(chosen(paths, flags)[k]) by {
            if k < chosen(y, f).len() {
                assert(chosen(places, flags)[k] == chosen(x, f)[k]);
            }
        }
    }
}

} // verus!
