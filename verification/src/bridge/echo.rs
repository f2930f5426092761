//! What was passed on lately, so that it is not taken for something new.

use crate::text::{same_text, views};
use std::collections::VecDeque;
use vstd::prelude::*;
use vstd::string::*;

verus! {

/// How many texts are remembered.
pub const CAPACITY: usize = 50;

/// The last texts that were passed on to the bridge, oldest first. The bridge
/// writes them into its session files, where they must not be mistaken for
/// messages to deliver.
#[derive(Debug)]
pub struct EchoLog {
    entries: VecDeque<String>,
}

/// A log with one text more, and without the oldest if there is no room.
pub open spec fn remembered(log: Seq<Seq<char>>, content: Seq<char>) -> Seq<Seq<char>> {
    if log.len() < CAPACITY {
        log.push(content)
    } else {
        log.push(content).skip(1)
    }
}

/// A log without the oldest mention of a text.
pub open spec fn forgotten(log: Seq<Seq<char>>, content: Seq<char>) -> Seq<Seq<char>> {
    match log.index_of_first(content) {
        Some(i) => log.remove(i),
        None => log,
    }
}

/// A log after some texts have been looked for in it, one after the other.
pub open spec fn all_forgotten(log: Seq<Seq<char>>, texts: Seq<Seq<char>>) -> Seq<Seq<char>>
    decreases texts.len(),
{
    if texts.len() == 0 {
        log
    } else {
        forgotten(all_forgotten(log, texts.drop_last()), texts.last())
    }
}

/// Those of some texts, in order, that are not recognised when they are looked
/// for one after the other.
pub open spec fn fresh(log: Seq<Seq<char>>, texts: Seq<Seq<char>>) -> Seq<Seq<char>>
    decreases texts.len(),
{
    if texts.len() == 0 {
        Seq::empty()
    } else {
        let before = fresh(log, texts.drop_last());
        if all_forgotten(log, texts.drop_last()).contains(texts.last()) {
            before
        } else {
            before.push(texts.last())
        }
    }
}

impl View for EchoLog {
    type V = Seq<Seq<char>>;

    closed spec fn view(&self) -> Seq<Seq<char>> {
        self.entries@.map_values(|s: String| s@)
    }
}

impl EchoLog {
    #[verifier::type_invariant]
    spec fn has_room(self) -> bool {
        self.entries@.len() <= CAPACITY
    }

    /// A log that remembers nothing.
    pub fn new() -> (r: EchoLog)
        ensures
            r@ == Seq::<Seq<char>>::empty(),
    {
        let r = EchoLog { entries: VecDeque::new() };
        assert(r@ =~= Seq::<Seq<char>>::empty());
        r
    }

    /// Remembers a text.
    pub fn remember(&mut self, content: &str)
        ensures
            final(self)@ == remembered(old(self)@, content@),
            final(self)@.len() <= CAPACITY,
    {
        proof {
            use_type_invariant(&*self);
        }
        let ghost before = self@;
        let ghost raw = self.entries@;
        let mut entries: VecDeque<String> = VecDeque::new();
        std::mem::swap(&mut entries, &mut self.entries);
        if entries.len() >= CAPACITY {
            let _ = entries.pop_front();
            assert(entries@ =~= raw.skip(1));
        }
        entries.push_back(content.to_owned());
        self.entries = entries;
        assert(self@ =~= remembered(before, content@));
    }

    /// Whether a text is remembered; if so its oldest mention is forgotten.
    pub fn take_echo(&mut self, content: &str) -> (r: bool)
        ensures
            r == old(self)@.contains(content@),
            final(self)@ == forgotten(old(self)@, content@),
            final(self)@.len() <= CAPACITY,
    {
        proof {
            use_type_invariant(&*self);
        }
        let ghost before = self@;
        let mut i: usize = 0;
        while i < self.entries.len()
            invariant
                self@ == before,
                before == old(self)@,
                self.entries@.len() <= CAPACITY,
                i <= self.entries@.len(),
                forall|j: int| 0 <= j < i ==> before[j] != content@,
            decreases self.entries@.len() - i,
        {
            let ghost raw = self.entries@;
            assert(before[i as int] == raw[i as int]@);
            if same_text(self.entries[i].as_str(), content) {
                proof {
                    assert(before.contains(content@));
                    before.index_of_first_ensures(content@);
                    assert(before.index_of_first(content@) == Some(i as int));
                }
                let mut entries: VecDeque<String> = VecDeque::new();
                std::mem::swap(&mut entries, &mut self.entries);
                let _ = entries.remove(i);
                self.entries = entries;
                assert(self@ =~= before.remove(i as int));
                return true;
            }
            i += 1;
        }
        proof {
            before.index_of_first_ensures(content@);
        }
        false
    }

    /// Those of some texts that are not remembered, in order; of the others
    /// the oldest mention is forgotten each time.
    pub fn skip_echoes(&mut self, texts: Vec<String>) -> (r: Vec<String>)
        ensures
            views(r@) == fresh(old(self)@, views(texts@)),
            final(self)@ == all_forgotten(old(self)@, views(texts@)),
            final(self)@.len() <= CAPACITY,
    {
        proof {
            use_type_invariant(&*self);
        }
        let ghost all = views(texts@);
        let mut r: Vec<String> = Vec::new();
        let mut i: usize = 0;
        assert(all.take(0) =~= Seq::<Seq<char>>::empty());
        assert(views(r@) =~= fresh(self@, all.take(0)));
        while i < texts.len()
            invariant
                all == views(texts@),
                i <= texts@.len(),
                views(r@) == fresh(old(self)@, all.take(i as int)),
                self@ == all_forgotten(old(self)@, all.take(i as int)),
                self@.len() <= CAPACITY,
            decreases texts@.len() - i,
        {
            let text = texts[i].clone();
            proof {
                assert(all.take(i + 1).drop_last() =~= all.take(i as int));
                assert(all.take(i + 1).last() == text@);
            }
            let ghost before = views(r@);
            if !self.take_echo(text.as_str()) {
                let ghost added = text@;
                r.push(text);
                assert(views(r@) =~= before.push(added));
            }
            i += 1;
        }
        assert(all.take(i as int) =~= all);
        r
    }
}

/// A log with some texts more, one after the other.
pub open spec fn all_remembered(log: Seq<Seq<char>>, texts: Seq<Seq<char>>) -> Seq<Seq<char>>
    decreases texts.len(),
{
    if texts.len() == 0 {
        log
    } else {
        remembered(all_remembered(log, texts.drop_last()), texts.last())
    }
}

/// The log holds the last texts that were passed on, as many as there is room
/// for.
pub proof fn law_last_texts_are_remembered(log: Seq<Seq<char>>, texts: Seq<Seq<char>>)
    requires
        log.len() <= CAPACITY,
    ensures
        all_remembered(log, texts) == if log.len() + texts.len() <= CAPACITY {
            log + texts
        } else {
            (log + texts).skip(log.len() + texts.len() - CAPACITY)
        },
    decreases texts.len(),
{
    if texts.len() == 0 {
        assert(log + texts =~= log);
    } else {
        let before = texts.drop_last();
        law_last_texts_are_remembered(log, before);
        assert(log + texts =~= (log + before).push(texts.last()));
        if log.len() + texts.len() > CAPACITY {
            assert(all_remembered(log, texts) =~= (log + texts).skip(
                log.len() + texts.len() - CAPACITY,
            ));
        }
    }
}

/// What happens to a log: a text is passed on, or looked for when it is found
/// in a session file.
pub enum EchoStep {
    PassedOn(Seq<char>),
    LookedFor(Seq<char>),
}

/// A log after some steps, one after the other.
pub open spec fn log_after(log: Seq<Seq<char>>, steps: Seq<EchoStep>) -> Seq<Seq<char>>
    decreases steps.len(),
{
    if steps.len() == 0 {
        log
    } else {
        let before = log_after(log, steps.drop_last());
        match steps.last() {
            EchoStep::PassedOn(text) => remembered(before, text),
            EchoStep::LookedFor(text) => forgotten(before, text),
        }
    }
}

/// How many texts are passed on in some steps.
pub open spec fn passed_on_in(steps: Seq<EchoStep>) -> nat
    decreases steps.len(),
{
    if steps.len() == 0 {
        0
    } else {
        passed_on_in(steps.drop_last()) + if steps.last() is PassedOn {
            1nat
        } else {
            0nat
        }
    }
}

/// Whether only texts other than the given one are looked for in some steps.
pub open spec fn is_about_others(steps: Seq<EchoStep>, content: Seq<char>) -> bool {
    forall|k: int| 0 <= k < steps.len() ==> #[trigger] steps[k] != EchoStep::LookedFor(content)
}

/// Where a text stands that was passed on before some steps: at most as many
/// places from the end as texts were passed on since.
proof fn place_after(log: Seq<Seq<char>>, content: Seq<char>, steps: Seq<EchoStep>) -> (place: int)
    requires
        log.len() <= CAPACITY,
        passed_on_in(steps) < CAPACITY,
        is_about_others(steps, content),
    ensures
        ({
            let now = log_after(remembered(log, content), steps);
            &&& now.len() <= CAPACITY
            &&& 0 <= place < now.len()
            &&& now[place] == content
            &&& now.len() - 1 - place <= passed_on_in(steps)
        }),
    decreases steps.len(),
{
    let now = log_after(remembered(log, content), steps);
    if steps.len() == 0 {
        now.len() - 1
    } else {
        let earlier = steps.drop_last();
        assert forall|k: int| 0 <= k < earlier.len() implies #[trigger] earlier[k]
            != EchoStep::LookedFor(content) by {
            assert(earlier[k] == steps[k]);
        }
        let before = log_after(remembered(log, content), earlier);
        let place = place_after(log, content, earlier);
        match steps.last() {
            EchoStep::PassedOn(_) => if before.len() < CAPACITY {
                place
            } else {
                place - 1
            },
            EchoStep::LookedFor(text) => {
                before.index_of_first_ensures(text);
                assert(steps[steps.len() - 1] != EchoStep::LookedFor(content));
                match before.index_of_first(text) {
                    Some(i) => if i < place {
                        place - 1
                    } else {
                        place
                    },
                    None => place,
                }
            },
        }
    }
}

/// What was passed on is still recognised after further texts were passed on
/// and others recognised, in any order, as long as those passed on leave room
/// for it.
pub proof fn law_recognised_while_there_is_room(
    log: Seq<Seq<char>>,
    content: Seq<char>,
    later: Seq<EchoStep>,
)
    requires
        log.len() <= CAPACITY,
        passed_on_in(later) < CAPACITY,
        is_about_others(later, content),
    ensures
        log_after(remembered(log, content), later).contains(content),
{
    let place = place_after(log, content, later);
    assert(log_after(remembered(log, content), later)[place] == content);
}

/// What was just passed on is recognised when it comes back.
pub proof fn law_passed_on_is_recognised(log: Seq<Seq<char>>, content: Seq<char>)
    requires
        log.len() <= CAPACITY,
    ensures
        remembered(log, content).contains(content),
{
    let now = remembered(log, content);
    assert(now[now.len() - 1] == content);
}

/// A text is recognised as often as it is remembered: recognising it takes
/// one mention away and leaves the others.
pub proof fn law_recognised_once_each(log: Seq<Seq<char>>, content: Seq<char>, other: Seq<char>)
    requires
        log.contains(content),
    ensures
        forgotten(log, content).len() == log.len() - 1,
        forgotten(log, content).to_multiset() == log.to_multiset().remove(content),
        other != content && log.contains(other) ==> forgotten(log, content).contains(other),
{
    log.index_of_first_ensures(content);
    let i = log.index_of_first(content)->0;
    log.to_multiset_ensures();
    assert(log.remove(i).to_multiset() == log.to_multiset().remove(log[i]));
    if other != content && log.contains(other) {
        let k = choose|k: int| 0 <= k < log.len() && log[k] == other;
        let m = if k < i {
            k
        } else {
            k - 1
        };
        assert(log.remove(i)[m] == other);
    }
}

/// Of a text that comes back, as many mentions are skipped as are remembered,
/// and the rest is taken for new; what is skipped is forgotten.
pub proof fn law_echoes_are_skipped_once_each(
    log: Seq<Seq<char>>,
    texts: Seq<Seq<char>>,
    text: Seq<char>,
)
    ensures
        ({
            let passed_on = log.to_multiset().count(text);
            let back = texts.to_multiset().count(text);
            &&& fresh(log, texts).to_multiset().count(text) == if back > passed_on {
                back - passed_on
            } else {
                0
            }
            &&& all_forgotten(log, texts).to_multiset().count(text) == if passed_on > back {
                passed_on - back
            } else {
                0
            }
        }),
    decreases texts.len(),
{
    broadcast use vstd::multiset::group_multiset_axioms;

    texts.to_multiset_ensures();
    fresh(log, texts).to_multiset_ensures();
    if texts.len() > 0 {
        let before = texts.drop_last();
        let last = texts.last();
        let kept = all_forgotten(log, before);
        law_echoes_are_skipped_once_each(log, before, text);
        before.to_multiset_ensures();
        kept.to_multiset_ensures();
        fresh(log, before).to_multiset_ensures();
        assert(texts =~= before.push(last));
        if kept.contains(last) {
            law_recognised_once_each(kept, last, text);
        } else {
            law_new_text_is_no_echo(kept, last);
            assert(kept.to_multiset().count(last) == 0);
        }
    }
}

/// A text that was not passed on is no echo, and looking for it changes
/// nothing.
pub proof fn law_new_text_is_no_echo(log: Seq<Seq<char>>, content: Seq<char>)
    requires
        !log.contains(content),
    ensures
        forgotten(log, content) == log,
{
    log.index_of_first_ensures(content);
}

/// Recognising a text forgets its oldest mention and leaves everything else in
/// its place.
pub proof fn law_oldest_mention_is_forgotten(
    older: Seq<Seq<char>>,
    content: Seq<char>,
    newer: Seq<Seq<char>>,
)
    requires
        !older.contains(content),
    ensures
        forgotten(older.push(content) + newer, content) == older + newer,
{
    let log = older.push(content) + newer;
    let n = older.len() as int;
    assert(log[n] == content);
    log.index_of_first_ensures(content);
    let i = log.index_of_first(content)->0;
    if i < n {
        assert(older[i] == content);
    }
    assert(log.remove(n) =~= older + newer);
}

/// Texts are looked for one after the other: what was looked for first decides
/// with what log the rest is.
pub proof fn law_texts_are_looked_for_in_order(
    log: Seq<Seq<char>>,
    first: Seq<Seq<char>>,
    rest: Seq<Seq<char>>,
)
    ensures
        fresh(log, first + rest) == fresh(log, first) + fresh(all_forgotten(log, first), rest),
        all_forgotten(log, first + rest) == all_forgotten(all_forgotten(log, first), rest),
    decreases rest.len(),
{
    if rest.len() == 0 {
        assert(first + rest =~= first);
        assert(fresh(log, first) + fresh(all_forgotten(log, first), rest) =~= fresh(log, first));
    } else {
        let shorter = rest.drop_last();
        law_texts_are_looked_for_in_order(log, first, shorter);
        assert((first + rest).drop_last() =~= first + shorter);
        assert((first + rest).last() == rest.last());
        assert(fresh(log, first + rest) =~= fresh(log, first) + fresh(
            all_forgotten(log, first),
            rest,
        ));
    }
}

/// A single text is new exactly if it is not remembered, and texts none of
/// which is remembered are all new, in their order.
pub proof fn law_unknown_texts_are_all_new(log: Seq<Seq<char>>, texts: Seq<Seq<char>>)
    requires
        forall|i: int| 0 <= i < texts.len() ==> !log.contains(#[trigger] texts[i]),
    ensures
        fresh(log, texts) == texts,
        all_forgotten(log, texts) == log,
    decreases texts.len(),
{
    if texts.len() > 0 {
        let shorter = texts.drop_last();
        assert forall|i: int| 0 <= i < shorter.len() implies !log.contains(
            #[trigger] shorter[i],
        ) by {
            assert(shorter[i] == texts[i]);
        }
        law_unknown_texts_are_all_new(log, shorter);
        assert(!log.contains(texts[texts.len() - 1]));
        law_new_text_is_no_echo(log, texts.last());
        assert(shorter.push(texts.last()) =~= texts);
    }
}

} // verus!
