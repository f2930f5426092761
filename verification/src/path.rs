//! Paths of the file system, as the bytes that a Unix system writes them in.

use crate::text::{
    law_no_separator_one_piece, law_separator_parts, lossy_text, pieces, text_from_utf8,
    text_from_utf8_lossy,
};
use vstd::prelude::*;
use vstd::slice::{slice_subrange, slice_to_vec};
use vstd::string::*;
use vstd::utf8::*;

verus! {

/// A path: its bytes, with `/` between the names.
#[derive(Debug, Clone, PartialEq, Eq)]
pub struct FilePath {
    pub bytes: Vec<u8>,
}

impl View for FilePath {
    type V = Seq<u8>;

    open spec fn view(&self) -> Seq<u8> {
        self.bytes@
    }
}

/// A path or its absence, as contracts speak of it.
pub open spec fn opt_path(path: Option<FilePath>) -> Option<Seq<u8>> {
    match path {
        Some(path) => Some(path@),
        None => None,
    }
}

/// Whether a path starts at the root.
pub open spec fn is_absolute(path: Seq<u8>) -> bool {
    path.len() > 0 && path[0] == 47
}

/// A path below another: an absolute one stands for itself, any other is
/// written behind the base, with a `/` between them unless the base is empty
/// or ends with one.
pub open spec fn joined(base: Seq<u8>, relative: Seq<u8>) -> Seq<u8> {
    if is_absolute(relative) {
        relative
    } else if base.len() == 0 || base.last() == 47 {
        base + relative
    } else {
        base.push(47) + relative
    }
}

/// The names that a path goes through: the pieces between its `/`, without
/// the empty ones and those that are a single dot.
pub open spec fn names(path: Seq<u8>) -> Seq<Seq<u8>> {
    pieces(path, 47).filter(|name: Seq<u8>| is_name(name))
}

/// Whether a piece of a path is a name.
pub open spec fn is_name(piece: Seq<u8>) -> bool {
    piece.len() > 0 && piece != seq![46u8]
}

/// The name that leads to the directory above.
pub open spec fn parent_name() -> Seq<u8> {
    seq![46u8, 46u8]
}

/// The name of the file that a path leads to: its last name, unless that
/// leads up.
pub open spec fn file_name_of(path: Seq<u8>) -> Option<Seq<u8>> {
    if names(path).len() > 0 && names(path).last() != parent_name() {
        Some(names(path).last())
    } else {
        None
    }
}

/// The extension of a file name: what follows its last dot, if something
/// stands before that dot.
pub open spec fn extension_of_name(name: Seq<u8>) -> Option<Seq<u8>> {
    let parts = pieces(name, 46);
    if parts.len() > 2 || (parts.len() == 2 && parts[0].len() > 0) {
        Some(parts.last())
    } else {
        None
    }
}

/// The extension of the file that a path leads to.
pub open spec fn extension_of(path: Seq<u8>) -> Option<Seq<u8>> {
    match file_name_of(path) {
        Some(name) => extension_of_name(name),
        None => None,
    }
}

/// A path without the slashes and single dots at its end, which lead nowhere.
pub open spec fn without_tail(path: Seq<u8>) -> Seq<u8>
    decreases path.len(),
{
    if path.len() > 1 && (path.last() == 47 || (path.last() == 46 && path[path.len() - 2] == 47)) {
        without_tail(path.drop_last())
    } else {
        path
    }
}

/// A path without what follows its last slash.
pub open spec fn without_name(path: Seq<u8>) -> Seq<u8>
    decreases path.len(),
{
    if path.len() > 0 && path.last() != 47 {
        without_name(path.drop_last())
    } else {
        path
    }
}

/// The path of the directory that a path leads into: the path without its last
/// name. There is none for the empty path and for the root.
pub open spec fn parent_of(path: Seq<u8>) -> Option<Seq<u8>> {
    let whole = without_tail(path);
    if whole.len() == 0 || whole == seq![47u8] {
        None
    } else {
        Some(without_tail(without_name(whole)))
    }
}

/// The byte lists in a list.
pub open spec fn byte_views(v: Seq<Vec<u8>>) -> Seq<Seq<u8>> {
    v.map_values(|b: Vec<u8>| b@)
}

fn split_bytes(bytes: &[u8], separator: u8) -> (r: Vec<Vec<u8>>)
    ensures
        byte_views(r@) == pieces(bytes@, separator),
{
    let mut done: Vec<Vec<u8>> = Vec::new();
    let mut current: Vec<u8> = Vec::new();
    let mut i: usize = 0;
    proof {
        assert(bytes@.take(0) =~= Seq::<u8>::empty());
        assert(pieces(bytes@.take(0), separator) =~= byte_views(done@).push(current@));
    }
    while i < bytes.len()
        invariant
            i <= bytes@.len(),
            byte_views(done@).push(current@) == pieces(bytes@.take(i as int), separator),
        decreases bytes@.len() - i,
    {
        let b = bytes[i];
        assert(bytes@.take(i + 1).drop_last() =~= bytes@.take(i as int));
        let ghost before = byte_views(done@);
        assert(before.push(current@).drop_last() =~= before);
        if b == separator {
            let ghost piece = current@;
            done.push(current);
            assert(byte_views(done@) =~= before.push(piece));
            current = Vec::new();
        } else {
            current.push(b);
        }
        i += 1;
    }
    assert(bytes@.take(i as int) =~= bytes@);
    let ghost before = byte_views(done@);
    let ghost piece = current@;
    done.push(current);
    assert(byte_views(done@) =~= before.push(piece));
    done
}

/// The names that a path goes through.
fn names_of(path: &[u8]) -> (r: Vec<Vec<u8>>)
    ensures
        byte_views(r@) == names(path@),
{
    let all = split_bytes(path, 47);
    let mut r: Vec<Vec<u8>> = Vec::new();
    let ghost parts = pieces(path@, 47);
    let mut i: usize = 0;
    assert(byte_views(r@) =~= parts.take(0).filter(|name: Seq<u8>| is_name(name))) by {
        reveal(Seq::filter);
    }
    while i < all.len()
        invariant
            byte_views(all@) == parts,
            i <= all@.len(),
            byte_views(r@) == parts.take(i as int).filter(|name: Seq<u8>| is_name(name)),
        decreases all@.len() - i,
    {
        let piece = slice_to_vec(all[i].as_slice());
        assert(piece@ == parts[i as int]);
        let dot = piece.len() == 1 && piece[0] == 46;
        assert(dot == (piece@ == seq![46u8])) by {
            if dot {
                assert(piece@ =~= seq![46u8]);
            }
        }
        let keep = piece.len() > 0 && !dot;
        let ghost before = byte_views(r@);
        proof {
            assert(parts.take(i + 1).drop_last() =~= parts.take(i as int));
            assert(parts.take(i + 1).last() == piece@);
            reveal(Seq::filter);
        }
        if keep {
            let ghost kept = piece@;
            r.push(piece);
            assert(byte_views(r@) =~= before.push(kept));
        }
        i += 1;
    }
    assert(parts.take(i as int) =~= parts);
    r
}

fn end_without_tail(bytes: &[u8], len: usize) -> (end: usize)
    requires
        len <= bytes@.len(),
    ensures
        end <= len,
        bytes@.take(end as int) == without_tail(bytes@.take(len as int)),
{
    let mut end = len;
    while end > 1 && (bytes[end - 1] == 47 || (bytes[end - 1] == 46 && bytes[end - 2] == 47))
        invariant
            end <= len <= bytes@.len(),
            without_tail(bytes@.take(end as int)) == without_tail(bytes@.take(len as int)),
        decreases end,
    {
        assert(bytes@.take(end as int).drop_last() =~= bytes@.take(end - 1));
        end -= 1;
    }
    end
}

impl FilePath {
    /// The path of the directory that the path leads into.
    pub fn parent(&self) -> (r: Option<FilePath>)
        ensures
            match r {
                Some(dir) => parent_of(self@) == Some(dir@),
                None => parent_of(self@) is None,
            },
    {
        let bytes = self.bytes.as_slice();
        let whole = end_without_tail(bytes, bytes.len());
        assert(bytes@.take(bytes@.len() as int) =~= bytes@);
        let root = whole == 1 && bytes[0] == 47;
        proof {
            let front = bytes@.take(whole as int);
            if root {
                assert(front =~= seq![47u8]);
            } else if front == seq![47u8] {
                assert(front.len() == 1);
                assert(front[0] == 47);
            }
        }
        if whole == 0 || root {
            return None;
        }
        let mut head = whole;
        while head > 0 && bytes[head - 1] != 47
            invariant
                head <= whole <= bytes@.len(),
                without_name(bytes@.take(head as int)) == without_name(bytes@.take(whole as int)),
            decreases head,
        {
            assert(bytes@.take(head as int).drop_last() =~= bytes@.take(head - 1));
            head -= 1;
        }
        let end = end_without_tail(bytes, head);
        let dir = slice_subrange(bytes, 0, end);
        assert(dir@ =~= bytes@.take(end as int));
        Some(FilePath { bytes: slice_to_vec(dir) })
    }

    /// The path with the given text.
    pub fn from_text(text: &str) -> (path: FilePath)
        ensures
            path@ == encode_utf8(text@),
    {
        FilePath { bytes: slice_to_vec(text.as_bytes()) }
    }

    /// The path that a relative path leads to from here.
    pub fn join(&self, relative: &[u8]) -> (path: FilePath)
        ensures
            path@ == joined(self@, relative@),
    {
        if relative.len() > 0 && relative[0] == 47 {
            return FilePath { bytes: slice_to_vec(relative) };
        }
        let mut bytes = slice_to_vec(self.bytes.as_slice());
        if bytes.len() > 0 && bytes[bytes.len() - 1] != 47 {
            bytes.push(47);
        }
        bytes.extend_from_slice(relative);
        assert(bytes@ =~= joined(self@, relative@));
        FilePath { bytes }
    }

    /// The path as text for people to read.
    pub fn display(&self) -> (s: String)
        ensures
            s@ == lossy_text(self@),
            valid_utf8(self@) ==> s@ == decode_utf8(self@),
    {
        text_from_utf8_lossy(self.bytes.as_slice())
    }

    /// The path as text, if its bytes are valid UTF-8.
    pub fn to_text(&self) -> (r: Option<String>)
        ensures
            match r {
                Some(s) => valid_utf8(self@) && s@ == decode_utf8(self@),
                None => !valid_utf8(self@),
            },
    {
        text_from_utf8(self.bytes.as_slice())
    }

    /// Whether the path starts at the root.
    pub fn is_absolute(&self) -> (r: bool)
        ensures
            r == is_absolute(self@),
    {
        self.bytes.len() > 0 && self.bytes[0] == 47
    }

    /// The name of the file that the path leads to.
    pub fn file_name(&self) -> (r: Option<Vec<u8>>)
        ensures
            match r {
                Some(name) => file_name_of(self@) == Some(name@),
                None => file_name_of(self@) is None,
            },
    {
        let mut all = names_of(self.bytes.as_slice());
        let ghost parts = names(self@);
        match all.pop() {
            None => None,
            Some(last) => {
                assert(last@ == parts.last());
                if leads_up(last.as_slice()) {
                    None
                } else {
                    Some(last)
                }
            },
        }
    }

    /// The extension of the file that the path leads to.
    pub fn extension(&self) -> (r: Option<Vec<u8>>)
        ensures
            match r {
                Some(extension) => extension_of(self@) == Some(extension@),
                None => extension_of(self@) is None,
            },
    {
        let name = match self.file_name() {
            Some(name) => name,
            None => {
                return None;
            },
        };
        let mut parts = split_bytes(name.as_slice(), 46);
        let ghost all = pieces(name@, 46);
        assert(parts@.len() == all.len());
        assert(parts@.len() > 0 ==> parts@[0]@ == all[0]);
        let extended = parts.len() > 2 || (parts.len() == 2 && parts[0].len() > 0);
        if !extended {
            return None;
        }
        match parts.pop() {
            Some(last) => {
                assert(last@ == all.last());
                Some(last)
            },
            None => None,
        }
    }
}

proof fn lemma_filter_push(parts: Seq<Seq<u8>>, piece: Seq<u8>)
    ensures
        parts.push(piece).filter(|name: Seq<u8>| is_name(name)) == if is_name(piece) {
            parts.filter(|name: Seq<u8>| is_name(name)).push(piece)
        } else {
            parts.filter(|name: Seq<u8>| is_name(name))
        },
{
    reveal(Seq::filter);
    assert(parts.push(piece).drop_last() =~= parts);
}

proof fn lemma_names_push(path: Seq<u8>)
    ensures
        names(path.push(47)) == names(path),
        names(path.push(47).push(46)) == names(path),
{
    let parts = pieces(path, 47);
    let slashed = path.push(47);
    let dotted = slashed.push(46);
    let empty = Seq::<u8>::empty();
    assert(slashed.drop_last() =~= path);
    assert(pieces(slashed, 47) =~= parts.push(empty));
    assert(dotted.drop_last() =~= slashed);
    assert(empty.push(46) =~= seq![46u8]);
    assert(pieces(dotted, 47) =~= parts.push(seq![46u8]));
    lemma_filter_push(parts, empty);
    lemma_filter_push(parts, seq![46u8]);
}

proof fn lemma_without_tail(path: Seq<u8>)
    ensures
        ({
            let w = without_tail(path);
            &&& names(w) == names(path)
            &&& is_absolute(w) == is_absolute(path)
            &&& w.len() <= 1 || !(w.last() == 47 || (w.last() == 46 && w[w.len() - 2] == 47))
        }),
    decreases path.len(),
{
    if path.len() > 1 && (path.last() == 47 || (path.last() == 46 && path[path.len() - 2] == 47)) {
        let shorter = path.drop_last();
        lemma_without_tail(shorter);
        if path.last() == 47 {
            assert(path =~= shorter.push(47));
            lemma_names_push(shorter);
        } else {
            let bare = shorter.drop_last();
            assert(shorter =~= bare.push(47));
            assert(path =~= bare.push(47).push(46));
            lemma_names_push(bare);
        }
    }
}

proof fn lemma_without_name(path: Seq<u8>)
    ensures
        ({
            let head = without_name(path);
            &&& head.len() <= path.len()
            &&& head == path.take(head.len() as int)
            &&& head.len() == 0 || head.last() == 47
            &&& forall|i: int| head.len() <= i < path.len() ==> path[i] != 47
            &&& pieces(head, 47).len() > 0
            &&& pieces(head, 47).last() == Seq::<u8>::empty()
            &&& pieces(path, 47) == pieces(head, 47).drop_last().push(
                path.skip(head.len() as int),
            )
        }),
    decreases path.len(),
{
    let head = without_name(path);
    let parts = pieces(head, 47);
    if path.len() > 0 && path.last() != 47 {
        let shorter = path.drop_last();
        lemma_without_name(shorter);
        let piece = shorter.skip(head.len() as int);
        let before = parts.drop_last().push(piece);
        assert(head =~= path.take(head.len() as int));
        assert(before.drop_last() =~= parts.drop_last());
        assert(before.last() == piece);
        assert(piece.push(path.last()) =~= path.skip(head.len() as int));
        assert forall|i: int| head.len() <= i < path.len() implies path[i] != 47 by {
            if i < shorter.len() {
                assert(shorter[i] != 47);
            }
        }
    } else {
        assert(head =~= path.take(head.len() as int));
        assert(path.skip(head.len() as int) =~= Seq::<u8>::empty());
        assert(parts =~= parts.drop_last().push(Seq::empty()));
    }
}

/// The directory that a path leads into is reached through the same names but
/// the last, from the root if the path starts there; a path that leads into no
/// directory goes through no name.
pub proof fn law_parent_drops_last_name(path: Seq<u8>)
    ensures
        match parent_of(path) {
            Some(dir) => names(path).len() > 0 ==> names(dir) == names(path).drop_last()
                && is_absolute(dir) == is_absolute(path),
            None => names(path).len() == 0,
        },
{
    let whole = without_tail(path);
    lemma_without_tail(path);
    lemma_without_name(whole);
    let head = without_name(whole);
    let parts = pieces(head, 47);
    let piece = whole.skip(head.len() as int);
    let empty = Seq::<u8>::empty();
    assert(parts =~= parts.drop_last().push(empty));
    lemma_filter_push(parts.drop_last(), empty);
    lemma_filter_push(parts.drop_last(), piece);
    assert(names(empty).len() == 0) by {
        reveal(Seq::filter);
        lemma_filter_push(Seq::empty(), empty);
        assert(pieces(empty, 47) =~= Seq::empty().push(empty));
    }
    if parent_of(path) is None {
        assert(piece.len() == 0);
        if whole.len() > 0 {
            assert(head =~= whole);
            assert(whole =~= empty.push(47));
            lemma_names_push(empty);
        } else {
            assert(whole =~= empty);
        }
    } else if names(path).len() > 0 {
        lemma_without_tail(head);
        if whole.last() == 47 {
            assert(whole =~= seq![47u8]);
        }
        assert(piece.len() > 0) by {
            if piece.len() == 0 {
                assert(head =~= whole);
            }
        }
        if piece == seq![46u8] {
            assert(whole.last() == piece[0]);
            if head.len() > 0 {
                assert(whole[head.len() - 1] == 47);
            } else {
                assert(head =~= empty);
            }
        }
        assert(names(whole) == names(head).push(piece));
        assert(names(whole).drop_last() =~= names(head));
    }
}

/// Whether one byte list stands before another: where they first differ it
/// has ended, or has the smaller byte.
pub open spec fn bytes_before(a: Seq<u8>, b: Seq<u8>) -> bool {
    exists|k: int| #[trigger] bytes_part_at(a, b, k) && (k == a.len() || a[k] < b[k])
}

/// Whether two byte lists agree on their first `k` bytes and the second goes on.
pub open spec fn bytes_part_at(a: Seq<u8>, b: Seq<u8>, k: int) -> bool {
    0 <= k <= a.len() && k < b.len() && forall|i: int| 0 <= i < k ==> a[i] == b[i]
}

/// Whether one name stands before another: the one that leads up comes
/// first, the others go by their bytes.
pub open spec fn name_before(a: Seq<u8>, b: Seq<u8>) -> bool {
    if b == parent_name() {
        false
    } else {
        a == parent_name() || bytes_before(a, b)
    }
}

/// Whether two paths go through the same first `k` names and the second goes on.
pub open spec fn names_part_at(a: Seq<Seq<u8>>, b: Seq<Seq<u8>>, k: int) -> bool {
    0 <= k <= a.len() && k < b.len() && forall|i: int| 0 <= i < k ==> a[i] == b[i]
}

/// Whether one list of names stands before another: where they first differ
/// it has ended, or has the name that comes first.
pub open spec fn names_before(a: Seq<Seq<u8>>, b: Seq<Seq<u8>>) -> bool {
    exists|k: int| #[trigger] names_part_at(a, b, k) && (k == a.len() || name_before(a[k], b[k]))
}

/// Whether one absolute path stands before another, name by name.
pub open spec fn path_before(a: Seq<u8>, b: Seq<u8>) -> bool {
    names_before(names(a), names(b))
}

/// Whether two absolute paths go through the same names.
pub open spec fn same_path(a: Seq<u8>, b: Seq<u8>) -> bool {
    names(a) == names(b)
}

/// How one value stands to another in an order.
#[derive(Debug, Clone, Copy, PartialEq, Eq)]
pub enum Place {
    Before,
    Same,
    After,
}

fn place_of_bytes(a: &[u8], b: &[u8]) -> (r: Place)
    ensures
        match r {
            Place::Before => bytes_before(a@, b@),
            Place::Same => a@ == b@,
            Place::After => bytes_before(b@, a@),
        },
{
    let mut k: usize = 0;
    while k < a.len() && k < b.len()
        invariant
            k <= a@.len(),
            k <= b@.len(),
            forall|i: int| 0 <= i < k ==> a@[i] == b@[i],
        decreases a@.len() - k,
    {
        if a[k] < b[k] {
            assert(bytes_part_at(a@, b@, k as int));
            return Place::Before;
        }
        if b[k] < a[k] {
            assert(bytes_part_at(b@, a@, k as int));
            return Place::After;
        }
        k += 1;
    }
    if k < b.len() {
        assert(bytes_part_at(a@, b@, k as int));
        Place::Before
    } else if k < a.len() {
        assert(bytes_part_at(b@, a@, k as int));
        Place::After
    } else {
        assert(a@ =~= b@);
        Place::Same
    }
}

fn leads_up(name: &[u8]) -> (r: bool)
    ensures
        r == (name@ == parent_name()),
{
    let r = name.len() == 2 && name[0] == 46 && name[1] == 46;
    assert(r ==> name@ =~= parent_name());
    r
}

fn place_of_name(a: &[u8], b: &[u8]) -> (r: Place)
    ensures
        match r {
            Place::Before => name_before(a@, b@),
            Place::Same => a@ == b@,
            Place::After => name_before(b@, a@),
        },
{
    let a_up = leads_up(a);
    let b_up = leads_up(b);
    if a_up && b_up {
        Place::Same
    } else if a_up {
        Place::Before
    } else if b_up {
        Place::After
    } else {
        place_of_bytes(a, b)
    }
}

impl FilePath {
    /// How this absolute path stands to another, name by name.
    pub fn place(&self, other: &FilePath) -> (r: Place)
        ensures
            match r {
                Place::Before => path_before(self@, other@),
                Place::Same => same_path(self@, other@),
                Place::After => path_before(other@, self@),
            },
    {
        let a = names_of(self.bytes.as_slice());
        let b = names_of(other.bytes.as_slice());
        let ghost x = names(self@);
        let ghost y = names(other@);
        let mut k: usize = 0;
        while k < a.len() && k < b.len()
            invariant
                byte_views(a@) == x,
                byte_views(b@) == y,
                x == names(self@),
                y == names(other@),
                k <= a@.len(),
                k <= b@.len(),
                forall|i: int| 0 <= i < k ==> x[i] == y[i],
            decreases a@.len() - k,
        {
            assert(a@[k as int]@ == x[k as int]);
            assert(b@[k as int]@ == y[k as int]);
            match place_of_name(a[k].as_slice(), b[k].as_slice()) {
                Place::Before => {
                    assert(names_part_at(x, y, k as int));
                    return Place::Before;
                },
                Place::After => {
                    assert(names_part_at(y, x, k as int));
                    return Place::After;
                },
                Place::Same => {},
            }
            k += 1;
        }
        if k < b.len() {
            assert(names_part_at(x, y, k as int));
            Place::Before
        } else if k < a.len() {
            assert(names_part_at(y, x, k as int));
            Place::After
        } else {
            assert(x =~= y);
            Place::Same
        }
    }
}

proof fn lemma_bytes_before_transitive(a: Seq<u8>, b: Seq<u8>, c: Seq<u8>)
    requires
        bytes_before(a, b),
        bytes_before(b, c),
    ensures
        bytes_before(a, c),
{
    let j = choose|k: int| #[trigger] bytes_part_at(a, b, k) && (k == a.len() || a[k] < b[k]);
    let k = choose|k: int| #[trigger] bytes_part_at(b, c, k) && (k == b.len() || b[k] < c[k]);
    let m = if j <= k {
        j
    } else {
        k
    };
    assert(bytes_part_at(a, c, m));
}

proof fn lemma_name_before_transitive(a: Seq<u8>, b: Seq<u8>, c: Seq<u8>)
    requires
        name_before(a, b),
        name_before(b, c),
    ensures
        name_before(a, c),
{
    if a != parent_name() {
        lemma_bytes_before_transitive(a, b, c);
    }
}

/// The order of paths is transitive.
pub proof fn law_path_order_is_transitive(a: Seq<u8>, b: Seq<u8>, c: Seq<u8>)
    requires
        path_before(a, b),
        path_before(b, c),
    ensures
        path_before(a, c),
{
    let x = names(a);
    let y = names(b);
    let z = names(c);
    let j = choose|k: int|
        #[trigger] names_part_at(x, y, k) && (k == x.len() || name_before(x[k], y[k]));
    let k = choose|k: int|
        #[trigger] names_part_at(y, z, k) && (k == y.len() || name_before(y[k], z[k]));
    if j == k && j < x.len() && j < y.len() {
        lemma_name_before_transitive(x[j], y[j], z[j]);
    }
    let m = if j <= k {
        j
    } else {
        k
    };
    assert(names_part_at(x, z, m));
}

proof fn lemma_bytes_before_is_strict(a: Seq<u8>, b: Seq<u8>)
    requires
        bytes_before(a, b),
    ensures
        a != b,
        !bytes_before(b, a),
{
    let j = choose|k: int| #[trigger] bytes_part_at(a, b, k) && (k == a.len() || a[k] < b[k]);
    if bytes_before(b, a) {
        let k = choose|k: int| #[trigger] bytes_part_at(b, a, k) && (k == b.len() || b[k] < a[k]);
        assert(j != k);
    }
}

/// No path stands both before another and behind it, and none before a path
/// through the same names.
pub proof fn law_path_order_is_strict(a: Seq<u8>, b: Seq<u8>)
    requires
        path_before(a, b),
    ensures
        !same_path(a, b),
        !path_before(b, a),
{
    let x = names(a);
    let y = names(b);
    let j = choose|k: int|
        #[trigger] names_part_at(x, y, k) && (k == x.len() || name_before(x[k], y[k]));
    if j < x.len() && x[j] != parent_name() {
        lemma_bytes_before_is_strict(x[j], y[j]);
    }
    if names_before(y, x) {
        let k = choose|k: int|
            #[trigger] names_part_at(y, x, k) && (k == y.len() || name_before(y[k], x[k]));
        assert(j == k);
    }
}

proof fn lemma_filter_concat(a: Seq<Seq<u8>>, b: Seq<Seq<u8>>)
    ensures
        (a + b).filter(|name: Seq<u8>| is_name(name)) == a.filter(|name: Seq<u8>| is_name(name))
            + b.filter(|name: Seq<u8>| is_name(name)),
    decreases b.len(),
{
    let kept = |name: Seq<u8>| is_name(name);
    if b.len() == 0 {
        assert(a + b =~= a);
        assert(b.filter(kept).len() == 0) by {
            reveal(Seq::filter);
        }
        assert(a.filter(kept) + b.filter(kept) =~= a.filter(kept));
    } else {
        let shorter = b.drop_last();
        lemma_filter_concat(a, shorter);
        lemma_filter_push(a + shorter, b.last());
        lemma_filter_push(shorter, b.last());
        assert(shorter.push(b.last()) =~= b);
        assert((a + shorter).push(b.last()) =~= a + b);
        assert((a + b).filter(kept) =~= a.filter(kept) + b.filter(kept));
    }
}

/// A path goes through the names before a slash and then through those behind
/// it.
pub proof fn law_slash_parts_the_names(a: Seq<u8>, b: Seq<u8>)
    ensures
        names(a.push(47) + b) == names(a) + names(b),
{
    law_separator_parts(a, 47u8, b);
    lemma_filter_concat(pieces(a, 47), pieces(b, 47));
}

/// What stands between two slashes is a name, unless it is nothing or a single
/// dot.
pub proof fn law_what_is_a_name(piece: Seq<u8>)
    requires
        !piece.contains(47),
    ensures
        names(piece) == if piece.len() == 0 || piece == seq![46u8] {
            Seq::<Seq<u8>>::empty()
        } else {
            seq![piece]
        },
{
    let empty = Seq::<Seq<u8>>::empty();
    law_no_separator_one_piece(piece, 47u8);
    lemma_filter_push(empty, piece);
    assert(empty.push(piece) =~= seq![piece]);
    assert(empty.filter(|name: Seq<u8>| is_name(name)).len() == 0) by {
        reveal(Seq::filter);
    }
    assert(names(piece) =~= if piece.len() == 0 || piece == seq![46u8] {
        empty
    } else {
        seq![piece]
    });
}

/// The file that a path leads to has what stands behind the last slash for its
/// name, whatever stands before it.
pub proof fn law_file_name_stands_behind_the_last_slash(dir: Seq<u8>, name: Seq<u8>)
    requires
        !name.contains(47),
        name.len() > 0,
        name != seq![46u8],
    ensures
        name != seq![46u8, 46u8] ==> file_name_of(dir.push(47) + name) == Some(name)
            && file_name_of(name) == Some(name),
        name == seq![46u8, 46u8] ==> file_name_of(dir.push(47) + name) is None && file_name_of(name)
            is None,
{
    law_slash_parts_the_names(dir, name);
    law_what_is_a_name(name);
    assert((names(dir) + names(name)).last() == name);
}

/// The extension of a file name is what stands behind its last dot, if
/// something stands before that dot; a name without a dot has none.
pub proof fn law_extension_stands_behind_the_last_dot(stem: Seq<u8>, extension: Seq<u8>)
    requires
        !extension.contains(46),
    ensures
        stem.len() > 0 ==> extension_of_name(stem.push(46) + extension) == Some(extension),
        stem.len() == 0 ==> extension_of_name(stem.push(46) + extension) is None,
        extension_of_name(extension) is None,
{
    law_separator_parts(stem, 46u8, extension);
    law_no_separator_one_piece(extension, 46u8);
    let parts = pieces(stem, 46);
    if parts.len() == 1 && stem.len() > 0 {
        let whole = pieces(stem.push(46) + extension, 46);
        assert(whole[0] == parts[0]);
        assert(parts[0].len() > 0) by {
            if stem.last() == 46 {
                assert(stem =~= stem.drop_last().push(46));
                law_separator_parts(stem.drop_last(), 46u8, Seq::empty());
                law_no_separator_one_piece(Seq::<u8>::empty(), 46u8);
                assert(stem.drop_last().push(46) + Seq::<u8>::empty() =~= stem);
                lemma_some_piece(stem.drop_last(), 46);
            }
        }
    }
    if stem.len() == 0 {
        law_no_separator_one_piece(stem, 46u8);
    }
    lemma_some_piece(stem, 46);
}

proof fn lemma_some_piece(s: Seq<u8>, separator: u8)
    ensures
        pieces(s, separator).len() > 0,
    decreases s.len(),
{
    if s.len() > 0 {
        lemma_some_piece(s.drop_last(), separator);
    }
}

/// The extension that counts is that of the file that a path leads to.
pub proof fn law_extension_of_a_path(dir: Seq<u8>, name: Seq<u8>)
    requires
        !name.contains(47),
        name.len() > 0,
        name != seq![46u8],
        name != seq![46u8, 46u8],
    ensures
        extension_of(dir.push(47) + name) == extension_of_name(name),
{
    law_file_name_stands_behind_the_last_slash(dir, name);
}

/// A relative path is put behind the base, with one slash between them; an
/// absolute one stands for itself.
pub proof fn law_joined_paths(base: Seq<u8>, relative: Seq<u8>)
    ensures
        relative.len() > 0 && relative[0] == 47 ==> joined(base, relative) == relative,
        (relative.len() == 0 || relative[0] != 47) && base.len() > 0 && base.last() != 47 ==> joined(
            base,
            relative,
        ) == base.push(47) + relative,
        (relative.len() == 0 || relative[0] != 47) && (base.len() == 0 || base.last() == 47)
            ==> joined(base, relative) == base + relative,
        (relative.len() == 0 || relative[0] != 47) ==> names(joined(base, relative)) == names(base)
            + names(relative),
{
    if relative.len() == 0 || relative[0] != 47 {
        if base.len() == 0 {
            law_what_is_a_name(base);
            assert(base + relative =~= relative);
            assert(names(base) + names(relative) =~= names(relative));
        } else if base.last() == 47 {
            assert(base =~= base.drop_last().push(47));
            law_slash_parts_the_names(base.drop_last(), relative);
            lemma_names_push(base.drop_last());
        } else {
            law_slash_parts_the_names(base, relative);
        }
    }
}

/// The first names that differ decide how two paths stand: the one that leads
/// up comes first, then the shorter of two names that agree as far as it goes,
/// and else the one with the smaller byte where they first differ. A path that
/// ends comes before one that goes on.
pub proof fn law_first_difference_decides(
    a: Seq<u8>,
    b: Seq<u8>,
    common: Seq<Seq<u8>>,
    x: Seq<u8>,
    y: Seq<u8>,
    rest_a: Seq<Seq<u8>>,
    rest_b: Seq<Seq<u8>>,
    same: Seq<u8>,
)
    requires
        names(a) == common.push(x) + rest_a || names(a) == common,
        names(b) == common.push(y) + rest_b,
        y != seq![46u8, 46u8],
        names(a) == common.push(x) + rest_a ==> x == seq![46u8, 46u8] || (x == same && y.len()
            > same.len() && y.take(same.len() as int) == same) || (x.len() > same.len() && y.len()
            > same.len() && x.take(same.len() as int) == same && y.take(same.len() as int) == same
            && x[same.len() as int] < y[same.len() as int]),
    ensures
        path_before(a, b),
        !path_before(b, a),
        !same_path(a, b),
{
    let n = common.len() as int;
    let p = names(a);
    let q = names(b);
    assert(q[n] == y);
    if p == common {
        assert(names_part_at(p, q, n));
    } else {
        assert(p[n] == x);
        if x != parent_name() {
            let k = same.len() as int;
            assert forall|i: int| 0 <= i < k implies x[i] == y[i] by {
                assert(y.take(k)[i] == same[i]);
                if x != same {
                    assert(x.take(k)[i] == same[i]);
                }
            }
            assert(bytes_part_at(x, y, k));
        }
        assert(name_before(x, y));
        assert(names_part_at(p, q, n)) by {
            assert forall|i: int| 0 <= i < n implies p[i] == q[i] by {
                assert(p[i] == common[i]);
                assert(q[i] == common[i]);
            }
        }
    }
    law_path_order_is_strict(a, b);
}

/// Two paths are the same exactly if they go through the same names.
pub proof fn law_same_names_same_path(a: Seq<u8>, b: Seq<u8>)
    ensures
        same_path(a, b) <==> names(a) == names(b),
        same_path(a.push(47), a),
        same_path(a.push(47).push(47) + b, a.push(47) + b),
        same_path(a.push(47).push(46).push(47) + b, a.push(47) + b),
{
    lemma_names_push(a);
    law_slash_parts_the_names(a, b);
    law_slash_parts_the_names(a.push(47), b);
    law_slash_parts_the_names(a.push(47).push(46), b);
}

/// A path is seen by all of its bytes.
pub proof fn law_path_is_seen_whole(path: FilePath, v: Seq<Vec<u8>>)
    ensures
        path@ == path.bytes@,
        opt_path(Some(path)) == Some(path.bytes@),
        opt_path(None) is None,
        byte_views(v).len() == v.len(),
        forall|i: int| 0 <= i < v.len() ==> #[trigger] byte_views(v)[i] == v[i]@,
{
}

} // verus!
