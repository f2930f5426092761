//! Messages that the assistant leaves in its session files.
//!
//! A session file holds one JSON object on each line. The files are looked at
//! again and again, and what has been written behind their old end is read.

use crate::path::{parent_of, FilePath};
use crate::text::{
    has_prefix, has_suffix, law_lists_are_read_entry_by_entry, lossy_text, opt_view, same_text, split_and_trim, text_from_utf8_lossy,
    trimmed, trimmed_pieces, views,
};
use vstd::prelude::*;
use vstd::slice::{slice_subrange, slice_to_vec};
use vstd::string::*;
use vstd::utf8::*;

verus! {

/// How many milliseconds go by between two looks at the session files.
pub const POLL_MILLIS: u64 = 500;

/// Whether a file name is that of a session file: `bridge_*.jsonl`.
pub open spec fn is_session_file_name(name: Seq<u8>) -> bool {
    has_prefix(name, encode_utf8("bridge_"@)) && has_suffix(name, encode_utf8(".jsonl"@))
}

fn starts_with(name: &[u8], prefix: &[u8]) -> (r: bool)
    ensures
        r == has_prefix(name@, prefix@),
{
    if prefix.len() > name.len() {
        return false;
    }
    let mut i: usize = 0;
    while i < prefix.len()
        invariant
            prefix@.len() <= name@.len(),
            i <= prefix@.len(),
            forall|j: int| 0 <= j < i ==> name@[j] == prefix@[j],
        decreases prefix@.len() - i,
    {
        if name[i] != prefix[i] {
            assert(name@.take(prefix@.len() as int)[i as int] != prefix@[i as int]);
            return false;
        }
        i += 1;
    }
    assert(name@.take(prefix@.len() as int) =~= prefix@);
    true
}

fn ends_with(name: &[u8], suffix: &[u8]) -> (r: bool)
    ensures
        r == has_suffix(name@, suffix@),
{
    if suffix.len() > name.len() {
        return false;
    }
    let tail = slice_subrange(name, name.len() - suffix.len(), name.len());
    assert(tail@ =~= name@.skip(name@.len() - suffix@.len()));
    let r = starts_with(tail, suffix);
    assert(tail@.take(suffix@.len() as int) =~= tail@);
    r
}

/// Whether a file name is that of a session file: `bridge_*.jsonl`.
pub fn is_bridge_session_file(name: &[u8]) -> (r: bool)
    ensures
        r == is_session_file_name(name@),
{
    starts_with(name, "bridge_".as_bytes()) && ends_with(name, ".jsonl".as_bytes())
}

/// The directory whose session files are watched: the one that a session file
/// is in.
pub fn session_dir(session_file: &FilePath) -> (r: Result<FilePath, String>)
    ensures
        match r {
            Ok(dir) => parent_of(session_file@) == Some(dir@),
            Err(why) => parent_of(session_file@) is None && why@
                == "session file has no parent directory"@,
        },
{
    match session_file.parent() {
        Some(dir) => Ok(dir),
        None => Err("session file has no parent directory".to_owned()),
    }
}

/// The sizes that the session files of a directory were last seen with, by
/// file name.
#[derive(Debug)]
pub struct SessionWatcher {
    files: Vec<SeenFile>,
}

#[derive(Debug)]
struct SeenFile {
    name: Vec<u8>,
    size: u64,
}

spec fn names_differ(files: Seq<SeenFile>) -> bool {
    forall|i: int, j: int|
        0 <= i < j < files.len() ==> (#[trigger] files[i]).name@ != (#[trigger] files[j]).name@
}

spec fn is_seen(files: Seq<SeenFile>, name: Seq<u8>) -> bool {
    exists|i: int| 0 <= i < files.len() && (#[trigger] files[i]).name@ == name
}

spec fn seen_at(files: Seq<SeenFile>, name: Seq<u8>) -> int {
    choose|i: int| 0 <= i < files.len() && (#[trigger] files[i]).name@ == name
}

spec fn sizes(files: Seq<SeenFile>) -> Map<Seq<u8>, u64> {
    Map::new(|name: Seq<u8>| is_seen(files, name), |name: Seq<u8>| files[seen_at(files, name)].size)
}

impl View for SessionWatcher {
    type V = Map<Seq<u8>, u64>;

    closed spec fn view(&self) -> Map<Seq<u8>, u64> {
        sizes(self.files@)
    }
}

/// The size that a file was last seen with; none for a file not seen yet.
pub open spec fn last_size(seen: Map<Seq<u8>, u64>, name: Seq<u8>) -> u64 {
    if seen.contains_key(name) {
        seen[name]
    } else {
        0
    }
}

/// Where to read on in a file, if it is a session file that has grown.
pub open spec fn growth(seen: Map<Seq<u8>, u64>, name: Seq<u8>, size: u64) -> Option<u64> {
    if is_session_file_name(name) && size > last_size(seen, name) {
        Some(last_size(seen, name))
    } else {
        None
    }
}

proof fn lemma_seen_here(files: Seq<SeenFile>, i: int)
    requires
        names_differ(files),
        0 <= i < files.len(),
    ensures
        sizes(files).contains_key(files[i].name@),
        sizes(files)[files[i].name@] == files[i].size,
{
    let name = files[i].name@;
    let k = seen_at(files, name);
    assert(0 <= k < files.len() && files[k].name@ == name);
    if k < i {
        assert(files[k].name@ != files[i].name@);
    } else if i < k {
        assert(files[i].name@ != files[k].name@);
    }
}

fn same_name(a: &[u8], b: &[u8]) -> (r: bool)
    ensures
        r == (a@ == b@),
{
    let r = a.len() == b.len() && starts_with(a, b);
    assert(a@.len() == b@.len() ==> a@.take(b@.len() as int) =~= a@);
    r
}

impl SessionWatcher {
    #[verifier::type_invariant]
    spec fn each_file_once(self) -> bool {
        names_differ(self.files@)
    }

    /// A watcher that has seen no file.
    pub fn new() -> (r: SessionWatcher)
        ensures
            r@ == Map::<Seq<u8>, u64>::empty(),
    {
        let r = SessionWatcher { files: Vec::new() };
        assert(r@ =~= Map::<Seq<u8>, u64>::empty());
        r
    }

    fn position(&self, name: &[u8]) -> (r: Option<usize>)
        ensures
            match r {
                Some(i) => {
                    &&& i < self.files@.len()
                    &&& self.files@[i as int].name@ == name@
                    &&& self@.contains_key(name@)
                    &&& self@[name@] == self.files@[i as int].size
                },
                None => !self@.contains_key(name@),
            },
    {
        proof {
            use_type_invariant(self);
        }
        let mut i: usize = 0;
        while i < self.files.len()
            invariant
                names_differ(self.files@),
                i <= self.files@.len(),
                forall|j: int| 0 <= j < i ==> (#[trigger] self.files@[j]).name@ != name@,
            decreases self.files@.len() - i,
        {
            if same_name(self.files[i].name.as_slice(), name) {
                proof {
                    lemma_seen_here(self.files@, i as int);
                }
                return Some(i);
            }
            i += 1;
        }
        None
    }

    fn set(&mut self, name: &[u8], size: u64)
        ensures
            final(self)@ == old(self)@.insert(name@, size),
    {
        proof {
            use_type_invariant(&*self);
        }
        let ghost before = self.files@;
        let position = self.position(name);
        let mut files: Vec<SeenFile> = Vec::new();
        std::mem::swap(&mut files, &mut self.files);
        let file = SeenFile { name: slice_to_vec(name), size };
        match position {
            Some(i) => {
                files.set(i, file);
                proof {
                    lemma_size_set(before, files@, i as int);
                }
            },
            None => {
                files.push(file);
                proof {
                    lemma_size_added(before, files@);
                }
            },
        }
        self.files = files;
    }

    /// Takes note of a file as it is before the watching starts: what stands
    /// in it already is not read.
    pub fn record(&mut self, name: &[u8], size: u64)
        ensures
            final(self)@ == if is_session_file_name(name@) {
                old(self)@.insert(name@, size)
            } else {
                old(self)@
            },
    {
        if is_bridge_session_file(name) {
            self.set(name, size);
        }
    }

    /// Where to read on in a file that now has the given size, if it is a
    /// session file that has grown. Its new size is taken note of.
    pub fn observe(&mut self, name: &[u8], size: u64) -> (r: Option<u64>)
        ensures
            r == growth(old(self)@, name@, size),
            final(self)@ == if r is Some {
                old(self)@.insert(name@, size)
            } else {
                old(self)@
            },
    {
        if !is_bridge_session_file(name) {
            return None;
        }
        let last: u64 = match self.position(name) {
            Some(i) => self.files[i].size,
            None => 0,
        };
        if size <= last {
            return None;
        }
        self.set(name, size);
        Some(last)
    }
}

proof fn lemma_size_set(before: Seq<SeenFile>, after: Seq<SeenFile>, i: int)
    requires
        names_differ(before),
        0 <= i < before.len(),
        after == before.update(i, after[i]),
        after[i].name@ == before[i].name@,
    ensures
        names_differ(after),
        sizes(after) == sizes(before).insert(after[i].name@, after[i].size),
{
    let expected = sizes(before).insert(after[i].name@, after[i].size);
    assert(names_differ(after)) by {
        assert forall|j: int, k: int| 0 <= j < k < after.len() implies (#[trigger] after[j]).name@
            != (#[trigger] after[k]).name@ by {
            assert(after[j].name@ == before[j].name@);
            assert(after[k].name@ == before[k].name@);
        }
    }
    assert forall|name: Seq<u8>| sizes(after).contains_key(name) == expected.contains_key(name) by {
        if is_seen(after, name) {
            let k = seen_at(after, name);
            assert(before[k].name@ == name);
        }
        if is_seen(before, name) {
            let k = seen_at(before, name);
            assert(after[k].name@ == name);
        }
        assert(after[i].name@ == after[i].name@);
    }
    assert forall|name: Seq<u8>| sizes(after).contains_key(name) implies sizes(after)[name]
        == expected[name] by {
        let k = seen_at(after, name);
        assert(after[k].name@ == name);
        lemma_seen_here(after, k);
        lemma_seen_here(before, k);
        lemma_seen_here(after, i);
        if k != i {
            assert(after[k] == before[k]);
            if k < i {
                assert(after[k].name@ != after[i].name@);
            } else {
                assert(after[i].name@ != after[k].name@);
            }
        }
    }
    assert(sizes(after) =~= expected);
}

proof fn lemma_size_added(before: Seq<SeenFile>, after: Seq<SeenFile>)
    requires
        names_differ(before),
        after.len() == before.len() + 1,
        after == before.push(after.last()),
        !is_seen(before, after.last().name@),
    ensures
        names_differ(after),
        sizes(after) == sizes(before).insert(after.last().name@, after.last().size),
{
    let i = before.len() as int;
    let expected = sizes(before).insert(after[i].name@, after[i].size);
    assert(names_differ(after)) by {
        assert forall|j: int, k: int| 0 <= j < k < after.len() implies (#[trigger] after[j]).name@
            != (#[trigger] after[k]).name@ by {
            assert(after[j] == before[j]);
            if k < i {
                assert(after[k] == before[k]);
            } else if after[j].name@ == after[k].name@ {
                assert(before[j].name@ == after.last().name@);
            }
        }
    }
    assert forall|name: Seq<u8>| sizes(after).contains_key(name) == expected.contains_key(name) by {
        if is_seen(after, name) {
            let k = seen_at(after, name);
            assert(after[k].name@ == name);
            if k < i {
                assert(before[k].name@ == name);
            }
        }
        if is_seen(before, name) {
            let k = seen_at(before, name);
            assert(after[k].name@ == name);
        }
        assert(after[i].name@ == after[i].name@);
    }
    assert forall|name: Seq<u8>| sizes(after).contains_key(name) implies sizes(after)[name]
        == expected[name] by {
        let k = seen_at(after, name);
        assert(after[k].name@ == name);
        lemma_seen_here(after, k);
        if k < i {
            assert(after[k] == before[k]);
            lemma_seen_here(before, k);
            assert(after[k].name@ != after[i].name@);
        }
    }
    assert(sizes(after) =~= expected);
}

/// A member of a JSON object, as text: no JSON at all, no text under the key,
/// or the text.
pub uninterp spec fn json_text_member(json: Seq<char>, key: Seq<char>) -> Option<Option<Seq<char>>>;

/// `serde_json::from_str` reads a JSON value; what `Value::get` finds in it
/// under a key is handed on if it is a string. The contract names what comes
/// out for a text and a key.
#[verifier::external_body]
fn text_member(json: &str, key: &str) -> (r: Option<Option<String>>)
    ensures
        match r {
            Some(member) => json_text_member(json@, key@) == Some(opt_view(member)),
            None => json_text_member(json@, key@) is None,
        },
{
    match serde_json::from_str::<serde_json::Value>(json) {
        Ok(value) => match value.get(key) {
            Some(serde_json::Value::String(text)) => Some(Some(text.clone())),
            _ => Some(None),
        },
        Err(_) => None,
    }
}

/// The message in a session entry, if there is one: what a user is noted to
/// have said.
pub open spec fn message_of(role: Option<Seq<char>>, content: Option<Seq<char>>) -> Option<
    Seq<char>,
> {
    match (role, content) {
        (Some(role), Some(content)) => if role == "user"@ && content.len() > 0 {
            Some(content)
        } else {
            None
        },
        _ => None,
    }
}

/// The message on a line of a session file, if there is one.
pub open spec fn line_message(line: Seq<char>) -> Option<Seq<char>> {
    if line.len() == 0 {
        None
    } else {
        match (json_text_member(line, "role"@), json_text_member(line, "content"@)) {
            (Some(role), Some(content)) => message_of(role, content),
            _ => None,
        }
    }
}

/// The messages on some lines, in order.
pub open spec fn line_messages(lines: Seq<Seq<char>>) -> Seq<Seq<char>>
    decreases lines.len(),
{
    if lines.len() == 0 {
        Seq::empty()
    } else {
        match line_message(lines.last()) {
            Some(message) => line_messages(lines.drop_last()).push(message),
            None => line_messages(lines.drop_last()),
        }
    }
}

/// The messages in the text of a session file, in order: those on its lines,
/// without the white space around them.
pub open spec fn text_messages(text: Seq<char>) -> Seq<Seq<char>> {
    line_messages(trimmed_pieces(text, '\n'))
}

/// The message in a session entry with the given role and content, if there
/// is one.
pub fn entry_message(role: Option<String>, content: Option<String>) -> (r: Option<String>)
    ensures
        opt_view(r) == message_of(opt_view(role), opt_view(content)),
{
    match (role, content) {
        (Some(role), Some(content)) => if same_text(role.as_str(), "user")
            && !content.as_str().is_empty() {
            Some(content)
        } else {
            None
        },
        _ => None,
    }
}

fn message_on_line(line: &str) -> (r: Option<String>)
    ensures
        opt_view(r) == line_message(line@),
{
    if line.is_empty() {
        return None;
    }
    match (text_member(line, "role"), text_member(line, "content")) {
        (Some(role), Some(content)) => entry_message(role, content),
        _ => None,
    }
}

/// The messages in the text of a session file, in order.
pub fn messages_in_text(text: &str) -> (r: Vec<String>)
    ensures
        views(r@) == text_messages(text@),
{
    let lines = split_and_trim(text, '\n');
    let ghost all = trimmed_pieces(text@, '\n');
    let mut r: Vec<String> = Vec::new();
    let mut i: usize = 0;
    assert(views(r@) =~= line_messages(all.take(0)));
    while i < lines.len()
        invariant
            views(lines@) == all,
            i <= lines@.len(),
            views(r@) == line_messages(all.take(i as int)),
        decreases lines@.len() - i,
    {
        proof {
            assert(all.take(i + 1).drop_last() =~= all.take(i as int));
            assert(all[i as int] == lines@[i as int]@);
        }
        let ghost before = views(r@);
        match message_on_line(lines[i].as_str()) {
            Some(message) => {
                let ghost text = message@;
                r.push(message);
                assert(views(r@) =~= before.push(text));
            },
            None => {},
        }
        i += 1;
    }
    assert(all.take(i as int) =~= all);
    r
}

/// The messages in what has been written into a session file behind its old
/// end.
pub fn new_messages(data: &[u8], old_size: u64) -> (r: Vec<String>)
    requires
        old_size <= data@.len(),
    ensures
        views(r@) == text_messages(lossy_text(data@.skip(old_size as int))),
        valid_utf8(data@.skip(old_size as int)) ==> views(r@) == text_messages(
            decode_utf8(data@.skip(old_size as int)),
        ),
{
    let written = slice_subrange(data, old_size as usize, data.len());
    assert(written@ =~= data@.skip(old_size as int));
    let text = text_from_utf8_lossy(written);
    messages_in_text(text.as_str())
}

/// The sizes that are noted mark where reading goes on: until a file is seen
/// larger than it was noted there is nothing to read in it, and then reading
/// starts at the size noted.
pub proof fn law_reading_goes_on_at_noted_size(
    seen: Map<Seq<u8>, u64>,
    name: Seq<u8>,
    size: u64,
    later_size: u64,
)
    requires
        growth(seen, name, size) is Some,
    ensures
        later_size <= size ==> growth(seen.insert(name, size), name, later_size) is None,
        later_size > size ==> growth(seen.insert(name, size), name, later_size) == Some(size),
{
}

/// What stands in a session file when the watching starts is not read.
pub proof fn law_old_entries_are_not_read(seen: Map<Seq<u8>, u64>, name: Seq<u8>, size: u64)
    ensures
        growth(seen.insert(name, size), name, size) is None,
{
}

/// Files that are no session files are never read.
pub proof fn law_other_files_are_not_read(seen: Map<Seq<u8>, u64>, name: Seq<u8>, size: u64)
    requires
        !is_session_file_name(name),
    ensures
        growth(seen, name, size) is None,
{
}

/// No message found is empty, and no line holds more than one.
pub proof fn law_messages_are_not_empty(lines: Seq<Seq<char>>)
    ensures
        forall|i: int|
            0 <= i < line_messages(lines).len() ==> (#[trigger] line_messages(lines)[i]).len() > 0,
        line_messages(lines).len() <= lines.len(),
    decreases lines.len(),
{
    if lines.len() > 0 {
        law_messages_are_not_empty(lines.drop_last());
    }
}

/// A session file's name is `bridge_`, anything, and `.jsonl`; no other name is
/// that of a session file.
pub proof fn law_names_of_session_files(name: Seq<u8>, middle: Seq<u8>)
    ensures
        is_session_file_name(encode_utf8("bridge_"@) + middle + encode_utf8(".jsonl"@)),
        is_session_file_name(name) ==> exists|between: Seq<u8>|
            name == #[trigger] (encode_utf8("bridge_"@) + between) + encode_utf8(".jsonl"@),
{
    let head = encode_utf8("bridge_"@);
    let tail = encode_utf8(".jsonl"@);
    reveal_strlit("bridge_");
    reveal_strlit(".jsonl");
    assert(is_ascii_chars("bridge_"@));
    assert(is_ascii_chars(".jsonl"@));
    is_ascii_chars_encode_utf8("bridge_"@);
    is_ascii_chars_encode_utf8(".jsonl"@);
    assert(head.len() == 7);
    assert(tail.len() == 6);
    let made = head + middle + tail;
    assert(made.take(7) =~= head);
    assert(made.skip(made.len() - 6) =~= tail);
    if is_session_file_name(name) {
        assert(name.len() >= 13) by {
            if name.len() < 13 {
                let k = name.len() - 6;
                assert(name.skip(k)[0] == tail[0]);
                assert(name.take(7)[k] == head[k]);
                assert(name[k] == 46u8);
                assert(head[k] != 46u8);
            }
        }
        let between = name.subrange(7, name.len() - 6);
        assert(name =~= name.take(7) + between + name.skip(name.len() - 6));
        assert(name == (head + between) + tail);
    }
}

/// A session file that is larger than it was noted is read from the size noted
/// on, and one that was not noted from its start.
pub proof fn law_where_reading_starts(seen: Map<Seq<u8>, u64>, name: Seq<u8>, size: u64)
    requires
        is_session_file_name(name),
    ensures
        seen.contains_key(name) && size > seen[name] ==> growth(seen, name, size) == Some(
            seen[name],
        ),
        seen.contains_key(name) && size <= seen[name] ==> growth(seen, name, size) is None,
        !seen.contains_key(name) && size > 0 ==> growth(seen, name, size) == Some(0u64),
        !seen.contains_key(name) && size == 0 ==> growth(seen, name, size) is None,
{
}

/// Noting one file changes nothing for the others.
pub proof fn law_files_are_noted_apart(
    seen: Map<Seq<u8>, u64>,
    noted: Seq<u8>,
    noted_size: u64,
    name: Seq<u8>,
    size: u64,
)
    requires
        noted != name,
    ensures
        growth(seen.insert(noted, noted_size), name, size) == growth(seen, name, size),
{
}

/// An entry holds a message exactly if its role is `user` and its content is a
/// text that is not empty, and the message is that text.
pub proof fn law_entries_of_users_are_messages(role: Option<Seq<char>>, content: Option<Seq<char>>)
    ensures
        message_of(role, content) is Some <==> role == Some("user"@) && content is Some
            && content->0.len() > 0,
        message_of(role, content) is Some ==> message_of(role, content) == content,
{
}

/// A line holds a message exactly if it is JSON in which `role` is `user` and
/// `content` is a text that is not empty, and the message is that text.
pub proof fn law_lines_of_users_are_messages(line: Seq<char>, content: Seq<char>)
    requires
        line.len() > 0,
    ensures
        line_message(line) == Some(content) <==> content.len() > 0 && json_text_member(
            line,
            "role"@,
        ) == Some(Some("user"@)) && json_text_member(line, "content"@) == Some(Some(content)),
{
}

proof fn lemma_line_messages_concat(a: Seq<Seq<char>>, b: Seq<Seq<char>>)
    ensures
        line_messages(a + b) == line_messages(a) + line_messages(b),
    decreases b.len(),
{
    if b.len() == 0 {
        assert(a + b =~= a);
        assert(line_messages(a) + line_messages(b) =~= line_messages(a));
    } else {
        lemma_line_messages_concat(a, b.drop_last());
        assert((a + b).drop_last() =~= a + b.drop_last());
        assert((a + b).last() == b.last());
        assert(line_messages(a + b) =~= line_messages(a) + line_messages(b));
    }
}

/// A file is read line by line: the messages of a text are those before a line
/// break and then those behind it.
pub proof fn law_files_are_read_line_by_line(a: Seq<char>, b: Seq<char>)
    ensures
        text_messages(a.push('\n') + b) == text_messages(a) + text_messages(b),
{
    law_lists_are_read_entry_by_entry(a, '\n', b);
    lemma_line_messages_concat(trimmed_pieces(a, '\n'), trimmed_pieces(b, '\n'));
}

/// A single line gives the message on it, if there is one, whatever white
/// space stands around it.
pub proof fn law_a_line_gives_its_message(line: Seq<char>)
    requires
        !line.contains('\n'),
    ensures
        text_messages(line) == match line_message(trimmed(line)) {
            Some(message) => seq![message],
            None => Seq::empty(),
        },
        trimmed(line).len() == 0 ==> text_messages(line) == Seq::<Seq<char>>::empty(),
{
    law_lists_are_read_entry_by_entry(line, '\n', Seq::empty());
    let lines = trimmed_pieces(line, '\n');
    assert(lines == seq![trimmed(line)]);
    assert(lines.drop_last() =~= Seq::empty());
    assert(line_messages(lines.drop_last()) =~= Seq::empty());
    assert(text_messages(line) =~= match line_message(trimmed(line)) {
        Some(message) => seq![message],
        None => Seq::empty(),
    });
}

} // verus!
