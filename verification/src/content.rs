//! What arrives from Signal, and which of it is meant for us.

use crate::hex::{encode, encoded, law_each_byte_has_its_two_digits, law_encode_is_injective};
use crate::identity::{hyphenated, law_uuid_text_is_ascii, ServiceId};
use crate::recipient::{
    group_address, law_group_address_names_group, law_uuid_text_names_account, readable_recipient,
    recipient_of, TargetView,
};
use crate::text::{
    chars_of, decimal, law_decimals_differ, opt_view, push_decimal, same_text, views,
};
use vstd::prelude::*;
use vstd::string::*;

verus! {

/// A decrypted message, with what its envelope says of it.
#[derive(Debug, Clone, PartialEq, Eq)]
pub struct SignalContent {
    /// The account that sent it.
    pub sender: ServiceId,
    /// When it was sent, in milliseconds since the epoch.
    pub timestamp: u64,
    pub body: ContentBody,
}

/// The kinds of message that are told apart.
#[derive(Debug, Clone, PartialEq, Eq)]
pub enum ContentBody {
    /// A message from somebody.
    DataMessage(DataMessage),
    /// Our own message, echoed back from the primary device.
    SynchronizeMessage,
    /// Receipts, calls, typing notices and the like.
    Other,
}

/// The parts of a message that matter here.
#[derive(Debug, Clone, PartialEq, Eq)]
pub struct DataMessage {
    pub body: Option<String>,
    pub group_v2: Option<GroupContext>,
    pub reaction: Option<Reaction>,
    pub quote: Option<Quote>,
}

/// The group that a message was sent in.
#[derive(Debug, Clone, PartialEq, Eq)]
pub struct GroupContext {
    pub master_key: Option<Vec<u8>>,
}

/// An emoji put on a message, or taken off it.
#[derive(Debug, Clone, PartialEq, Eq)]
pub struct Reaction {
    pub emoji: Option<String>,
    pub remove: Option<bool>,
    pub target_sent_timestamp: Option<u64>,
}

/// The message that a reply refers to.
#[derive(Debug, Clone, PartialEq, Eq)]
pub struct Quote {
    pub id: Option<u64>,
    pub text: Option<String>,
}

impl DataMessage {
    /// The master key of the group that the message was sent in.
    pub open spec fn spec_group_key(self) -> Option<Seq<u8>> {
        match self.group_v2 {
            Some(group) => match group.master_key {
                Some(key) => Some(key@),
                None => None,
            },
            None => None,
        }
    }

    /// The message's text, if there is any.
    pub open spec fn spec_text(self) -> Option<Seq<char>> {
        match self.body {
            Some(body) => if body@.len() > 0 {
                Some(body@)
            } else {
                None
            },
            None => None,
        }
    }

    /// The master key of the group that the message was sent in, in
    /// hexadecimal.
    pub fn group_key_text(&self) -> (r: Option<String>)
        ensures
            match (r, self.spec_group_key()) {
                (Some(text), Some(key)) => text@ == encoded(key),
                (None, None) => true,
                _ => false,
            },
    {
        match &self.group_v2 {
            Some(group) => match &group.master_key {
                Some(key) => Some(encode(key.as_slice())),
                None => None,
            },
            None => None,
        }
    }

    /// The message's text, if there is any.
    pub fn text(&self) -> (r: Option<String>)
        ensures
            opt_view(r) == self.spec_text(),
    {
        match &self.body {
            Some(body) => if body.as_str().is_empty() {
                None
            } else {
                Some(body.clone())
            },
            None => None,
        }
    }
}

impl SignalContent {
    /// The message, if this is one from somebody.
    pub open spec fn spec_message(self) -> Option<DataMessage> {
        match self.body {
            ContentBody::DataMessage(message) => Some(message),
            _ => None,
        }
    }

    /// The sender's UUID text.
    pub open spec fn spec_sender(self) -> Seq<char> {
        hyphenated(self.sender.aci@)
    }

    /// Where an answer goes: the group that the message was sent in, else its
    /// sender.
    pub open spec fn spec_reply_address(self) -> Seq<char> {
        match self.spec_message() {
            Some(message) => match message.spec_group_key() {
                Some(key) => group_address(key),
                None => self.spec_sender(),
            },
            None => self.spec_sender(),
        }
    }

    /// The recipient that `spec_reply_address` is meant to name.
    pub open spec fn spec_reply_target(self) -> TargetView {
        match self.spec_message() {
            Some(message) => match message.spec_group_key() {
                Some(key) => TargetView::Group(key),
                None => TargetView::Direct(self.sender.aci@),
            },
            None => TargetView::Direct(self.sender.aci@),
        }
    }

    /// The name under which the message is passed on: when it was sent and
    /// the start of its sender's UUID.
    pub open spec fn spec_id(self) -> Seq<char> {
        "signative_"@ + decimal(self.timestamp as nat) + "_"@ + self.spec_sender().take(8)
    }

    /// Whether this is a message from an allowed sender that the group filter
    /// lets through.
    pub open spec fn spec_admitted(
        self,
        allowed_from: Seq<Seq<char>>,
        group_filter: Option<Seq<char>>,
    ) -> bool {
        &&& self.spec_message() is Some
        &&& sender_allowed(allowed_from, self.spec_sender())
        &&& group_admitted(group_filter, self.spec_message()->0.spec_group_key())
    }
}

/// Whether a list of allowed senders names a sender, or everybody with `*`.
pub open spec fn sender_allowed(allowed_from: Seq<Seq<char>>, sender: Seq<char>) -> bool {
    allowed_from.contains("*"@) || allowed_from.contains(sender)
}

/// Whether a group filter asks for direct messages: `dm`, in letters of
/// either case.
pub open spec fn asks_for_direct(filter: Seq<char>) -> bool {
    filter.len() == 2 && (filter[0] == 'd' || filter[0] == 'D') && (filter[1] == 'm' || filter[1]
        == 'M')
}

/// Whether a group filter lets a message through: without a filter every one,
/// with `dm` those outside groups, else those in the group whose master key
/// the filter is.
pub open spec fn group_admitted(filter: Option<Seq<char>>, key: Option<Seq<u8>>) -> bool {
    match filter {
        None => true,
        Some(filter) => if asks_for_direct(filter) {
            key is None
        } else {
            key is Some && encoded(key->0) == filter
        },
    }
}

/// Whether a sender is on the list of allowed senders.
pub fn sender_is_allowed(allowed_from: &Vec<String>, sender: &str) -> (r: bool)
    ensures
        r == sender_allowed(views(allowed_from@), sender@),
{
    let mut i: usize = 0;
    let ghost list = views(allowed_from@);
    while i < allowed_from.len()
        invariant
            list == views(allowed_from@),
            i <= allowed_from@.len(),
            forall|j: int| 0 <= j < i ==> list[j] != "*"@ && list[j] != sender@,
        decreases allowed_from@.len() - i,
    {
        let entry = allowed_from[i].as_str();
        assert(entry@ == list[i as int]);
        if same_text(entry, "*") || same_text(entry, sender) {
            return true;
        }
        i += 1;
    }
    false
}

/// Whether a group filter lets a message through, given the master key of its
/// group in hexadecimal.
fn group_is_admitted(
    filter: &Option<String>,
    key_text: &Option<String>,
    Ghost(key): Ghost<Option<Seq<u8>>>,
) -> (r: bool)
    requires
        match (key_text, key) {
            (Some(text), Some(key)) => text@ == encoded(key),
            (None, None) => true,
            _ => false,
        },
    ensures
        r == group_admitted(opt_view(*filter), key),
{
    match filter {
        None => true,
        Some(filter) => {
            let chars = chars_of(filter.as_str());
            if chars.len() == 2 && (chars[0] == 'd' || chars[0] == 'D') && (chars[1] == 'm'
                || chars[1] == 'M') {
                key_text.is_none()
            } else {
                match key_text {
                    Some(text) => same_text(text.as_str(), filter.as_str()),
                    None => false,
                }
            }
        },
    }
}

/// What is known of a message that the filters let through.
pub(crate) struct Admitted {
    /// The sender's UUID text.
    pub(crate) sender: String,
    /// Where an answer goes.
    pub(crate) reply_address: String,
    /// The name under which the message is passed on.
    pub(crate) id: String,
}

/// The name under which a message is passed on.
fn message_id(timestamp: u64, sender: &str) -> (id: String)
    requires
        sender@.len() >= 8,
    ensures
        id@ == "signative_"@ + decimal(timestamp as nat) + "_"@ + sender@.take(8),
{
    let mut id = "signative_".to_owned();
    push_decimal(&mut id, timestamp);
    id.append("_");
    let start = sender.substring_char(0, 8);
    id.append(start);
    assert(start@ =~= sender@.take(8));
    id
}

/// Applies the list of allowed senders and the group filter to a message.
pub(crate) fn screen(
    content: &SignalContent,
    message: &DataMessage,
    allowed_from: &Vec<String>,
    group_filter: &Option<String>,
) -> (r: Option<Admitted>)
    requires
        content.spec_message() == Some(*message),
    ensures
        r is Some <==> content.spec_admitted(views(allowed_from@), opt_view(*group_filter)),
        match r {
            Some(known) => {
                &&& known.sender@ == content.spec_sender()
                &&& known.reply_address@ == content.spec_reply_address()
                &&& known.id@ == content.spec_id()
            },
            None => true,
        },
{
    let sender = content.sender.uuid_text();
    proof {
        law_uuid_text_is_ascii(content.sender.aci@);
    }
    if !sender_is_allowed(allowed_from, sender.as_str()) {
        return None;
    }
    let key_text = message.group_key_text();
    if !group_is_admitted(group_filter, &key_text, Ghost(message.spec_group_key())) {
        return None;
    }
    let reply_address = match &key_text {
        Some(text) => "group:".to_owned().concat(text.as_str()),
        None => sender.clone(),
    };
    let id = message_id(content.timestamp, sender.as_str());
    Some(Admitted { sender, reply_address, id })
}

/// The answer to a message goes back to where the message came from: its
/// reply address can be read, and names the sender of a direct message and
/// the group of a message in a group (whose master key has 32 bytes).
pub proof fn law_reply_reaches_origin(content: SignalContent)
    ensures
        readable_recipient(content.spec_reply_address()),
        (content.spec_reply_target() matches TargetView::Group(key) ==> key.len() == 32)
            ==> recipient_of(content.spec_reply_address()) == Ok::<TargetView, Seq<char>>(
            content.spec_reply_target(),
        ),
{
    assert(content.sender.aci@.len() == 16);
    match content.spec_reply_target() {
        TargetView::Direct(aci) => {
            law_uuid_text_names_account(aci);
        },
        TargetView::Group(key) => {
            law_group_address_names_group(key);
        },
    }
}

/// With `*` on the list of allowed senders everybody is allowed.
pub proof fn law_wildcard_allows_everybody(allowed_from: Seq<Seq<char>>, sender: Seq<char>)
    requires
        allowed_from.contains("*"@),
    ensures
        sender_allowed(allowed_from, sender),
{
}

/// Nobody is allowed by an empty list.
pub proof fn law_empty_list_allows_nobody(sender: Seq<char>)
    ensures
        !sender_allowed(Seq::empty(), sender),
{
}

/// With the filter `dm` no message from a group comes through; with any other
/// filter no direct message does.
pub proof fn law_filter_parts_groups_from_direct(
    content: SignalContent,
    allowed_from: Seq<Seq<char>>,
    filter: Seq<char>,
)
    requires
        content.spec_admitted(allowed_from, Some(filter)),
    ensures
        asks_for_direct(filter) <==> content.spec_message()->0.spec_group_key() is None,
{
}

/// Our own messages, echoed back from the primary device, are never admitted.
pub proof fn law_sync_messages_are_skipped(
    content: SignalContent,
    allowed_from: Seq<Seq<char>>,
    group_filter: Option<Seq<char>>,
)
    requires
        content.body is SynchronizeMessage,
    ensures
        !content.spec_admitted(allowed_from, group_filter),
{
}

/// A message's text is all that was written in it, unless that is nothing; its
/// group is that of its master key, if it has one.
pub proof fn law_message_is_read_whole(message: DataMessage)
    ensures
        message.body matches Some(body) ==> message.spec_text() == if body@ == Seq::<char>::empty() {
            None
        } else {
            Some(body@)
        },
        message.body is None ==> message.spec_text() is None,
        message.group_v2 matches Some(group) ==> match group.master_key {
            Some(key) => message.spec_group_key() == Some(key@),
            None => message.spec_group_key() is None,
        },
        message.group_v2 is None ==> message.spec_group_key() is None,
{
    if message.body is Some && message.body->0@.len() == 0 {
        assert(message.body->0@ =~= Seq::<char>::empty());
    }
}

proof fn lemma_no_key_asks_for_direct(key: Seq<u8>)
    ensures
        !asks_for_direct(encoded(key)),
{
    let text = encoded(key);
    if text.len() == 2 {
        law_each_byte_has_its_two_digits(key, 0);
        reveal_strlit("0123456789abcdef");
        let n = key[0] as int % 16;
        assert(text[1] == "0123456789abcdef"@[n]);
    }
}

/// Without a group filter a message is heard exactly if its sender is on the
/// list, by UUID or with everybody, whatever group it was sent in.
pub proof fn law_without_filter_the_sender_decides(
    content: SignalContent,
    message: DataMessage,
    allowed_from: Seq<Seq<char>>,
)
    requires
        content.body == ContentBody::DataMessage(message),
    ensures
        content.spec_admitted(allowed_from, None) <==> exists|i: int|
            0 <= i < allowed_from.len() && (#[trigger] allowed_from[i] == "*"@ || allowed_from[i]
                == hyphenated(content.sender.aci@)),
{
    if content.spec_admitted(allowed_from, None) {
        if allowed_from.contains("*"@) {
            let i = choose|i: int| 0 <= i < allowed_from.len() && allowed_from[i] == "*"@;
            assert(allowed_from[i] == "*"@);
        } else {
            let sender = hyphenated(content.sender.aci@);
            let i = choose|i: int| 0 <= i < allowed_from.len() && allowed_from[i] == sender;
            assert(allowed_from[i] == sender);
        }
    }
}

/// A group filter only leaves messages out. Of those heard without it, the
/// filter `dm` in letters of either case keeps those outside groups, and the
/// master key of a group those in that group.
pub proof fn law_filter_keeps_what_it_asks_for(
    content: SignalContent,
    message: DataMessage,
    allowed_from: Seq<Seq<char>>,
    filter: Seq<char>,
)
    requires
        content.body == ContentBody::DataMessage(message),
    ensures
        content.spec_admitted(allowed_from, Some(filter)) ==> content.spec_admitted(
            allowed_from,
            None,
        ),
        filter =~= seq!['d', 'm'] || filter =~= seq!['D', 'm'] || filter =~= seq!['d', 'M']
            || filter =~= seq!['D', 'M'] ==> (content.spec_admitted(allowed_from, Some(filter))
            <==> content.spec_admitted(allowed_from, None) && message.spec_group_key() is None),
        !(filter =~= seq!['d', 'm'] || filter =~= seq!['D', 'm'] || filter =~= seq!['d', 'M']
            || filter =~= seq!['D', 'M']) ==> (content.spec_admitted(allowed_from, Some(filter))
            <==> content.spec_admitted(allowed_from, None) && (
        message.spec_group_key() matches Some(key) && encoded(key) == filter)),
{
}

/// With the master key of a message's own group as the filter the sender
/// decides, as without a filter; with that of another group the message is not
/// heard.
pub proof fn law_own_group_lets_through(
    content: SignalContent,
    message: DataMessage,
    key: Seq<u8>,
    other: Seq<u8>,
    allowed_from: Seq<Seq<char>>,
)
    requires
        content.body == ContentBody::DataMessage(message),
        message.spec_group_key() == Some(key),
    ensures
        content.spec_admitted(allowed_from, Some(encoded(key))) <==> content.spec_admitted(
            allowed_from,
            None,
        ),
        other != key ==> !content.spec_admitted(allowed_from, Some(encoded(other))),
{
    lemma_no_key_asks_for_direct(key);
    lemma_no_key_asks_for_direct(other);
    if encoded(other) == encoded(key) {
        law_encode_is_injective(other, key);
    }
}

/// What is no message from somebody is never heard.
pub proof fn law_only_messages_are_heard(
    content: SignalContent,
    allowed_from: Seq<Seq<char>>,
    group_filter: Option<Seq<char>>,
)
    requires
        content.body is SynchronizeMessage || content.body is Other,
    ensures
        !content.spec_admitted(allowed_from, group_filter),
{
}

/// The answer to a message in a group is addressed to `group:` and the group's
/// master key in hexadecimal, the answer to any other to its sender's UUID.
pub proof fn law_where_answers_are_addressed(content: SignalContent, message: DataMessage)
    requires
        content.body == ContentBody::DataMessage(message),
    ensures
        match message.spec_group_key() {
            Some(key) => content.spec_reply_address() == "group:"@ + encoded(key)
                && content.spec_reply_target() == TargetView::Group(key),
            None => content.spec_reply_address() == hyphenated(content.sender.aci@)
                && content.spec_reply_target() == TargetView::Direct(content.sender.aci@),
        },
        content.spec_sender() == hyphenated(content.sender.aci@),
{
}

/// A message's name tells when it was sent, and by whom as far as the first
/// eight characters of a UUID go: messages sent at different times, or by
/// senders who differ there, have different names.
pub proof fn law_names_of_messages(a: SignalContent, b: SignalContent)
    ensures
        a.spec_id() == "signative_"@ + decimal(a.timestamp as nat) + "_"@ + hyphenated(
            a.sender.aci@,
        ).take(8),
        a.spec_id() == b.spec_id() ==> a.timestamp == b.timestamp,
        a.spec_id() == b.spec_id() ==> hyphenated(a.sender.aci@).take(8) == hyphenated(
            b.sender.aci@,
        ).take(8),
{
    if a.spec_id() == b.spec_id() {
        law_uuid_text_is_ascii(a.sender.aci@);
        law_uuid_text_is_ascii(b.sender.aci@);
        let start = "signative_"@.len() as int;
        let bar = "_"@.len() as int;
        let x = decimal(a.timestamp as nat);
        let y = decimal(b.timestamp as nat);
        let p = a.spec_sender().take(8);
        let q = b.spec_sender().take(8);
        assert(a.spec_id().len() == start + x.len() + bar + 8);
        assert(b.spec_id().len() == start + y.len() + bar + 8);
        assert(a.spec_id().subrange(start, start + x.len()) =~= x);
        assert(b.spec_id().subrange(start, start + y.len()) =~= y);
        law_decimals_differ(a.timestamp as nat, b.timestamp as nat);
        assert(a.spec_id().skip(start + x.len() + bar) =~= p);
        assert(b.spec_id().skip(start + y.len() + bar) =~= q);
    }
}

} // verus!
