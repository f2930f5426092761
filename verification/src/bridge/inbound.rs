//! From Signal to the bridge.

use crate::bridge::protocol::BridgeInbound;
use crate::channel::ChannelView;
use crate::content::{
    law_names_of_messages, screen, ContentBody, DataMessage, Quote, Reaction, SignalContent,
};
use crate::text::{
    decimal, has_prefix, has_suffix, law_decimals_differ, opt_view, push_decimal, views,
};
use vstd::prelude::*;
use vstd::string::*;
use vstd::utf8::*;

verus! {

/// How a reaction is put in words.
pub open spec fn reaction_text(reaction: Reaction) -> Seq<char> {
    let action = if reaction.remove == Some(true) {
        "removed"@
    } else {
        "reacted"@
    };
    let emoji = match reaction.emoji {
        Some(emoji) => emoji@,
        None => "?"@,
    };
    let target = match reaction.target_sent_timestamp {
        Some(target) => target as nat,
        None => 0,
    };
    "["@ + action + " "@ + emoji + " on message signative_"@ + decimal(target) + "]"@
}

/// The text of the message that a reply quotes.
pub open spec fn quoted(quote: Quote) -> Seq<char> {
    match quote.text {
        Some(text) => text@,
        None => Seq::empty(),
    }
}

/// The start of a quoted text: all of it up to a hundred bytes, else its first
/// hundred bytes and three dots.
pub open spec fn snippet(text: Seq<char>) -> Seq<char> {
    let bytes = encode_utf8(text);
    if bytes.len() > 100 {
        decode_utf8(bytes.take(100)) + "..."@
    } else {
        text
    }
}

/// Whether a quoted text can be cut after a hundred bytes without cutting a
/// character in two.
pub open spec fn cuts_cleanly(text: Seq<char>) -> bool {
    encode_utf8(text).len() > 100 ==> is_char_boundary(encode_utf8(text), 100)
}

/// How a text that answers another message is put: with the start of that
/// message in front.
pub open spec fn reply_text(quote: Quote, text: Seq<char>) -> Seq<char> {
    let id = match quote.id {
        Some(id) => id as nat,
        None => 0,
    };
    "[replying to signative_"@ + decimal(id) + ": \""@ + snippet(quoted(quote)) + "\"]\n\n"@ + text
}

/// The text under which a message is passed on, if it has one: a reaction in
/// words, else the message's text.
pub open spec fn forwarded_text(message: DataMessage) -> Option<Seq<char>> {
    match message.reaction {
        Some(reaction) => Some(reaction_text(reaction)),
        None => match message.spec_text() {
            Some(text) => match message.quote {
                Some(quote) => Some(reply_text(quote, text)),
                None => Some(text),
            },
            None => None,
        },
    }
}

/// Whether a message is passed on to the bridge: it comes from an allowed
/// sender, the group filter lets it through, and there is something to pass on.
pub open spec fn forwards(
    content: SignalContent,
    allowed_from: Seq<Seq<char>>,
    group_filter: Option<Seq<char>>,
) -> bool {
    &&& content.spec_admitted(allowed_from, group_filter)
    &&& forwarded_text(content.spec_message()->0) is Some
}

/// Whether a message can be passed on: if it will be, and is a reply, the
/// quoted text can be cut.
pub open spec fn forwards_cleanly(
    content: SignalContent,
    allowed_from: Seq<Seq<char>>,
    group_filter: Option<Seq<char>>,
) -> bool {
    forwards(content, allowed_from, group_filter) && content.spec_message()->0.reaction is None
        && content.spec_message()->0.quote is Some ==> cuts_cleanly(
        quoted(content.spec_message()->0.quote->0),
    )
}

/// Whether a frame is what a message is passed on as.
pub open spec fn is_forward_of(
    frame: BridgeInbound,
    content: SignalContent,
    bridge_sender_id: Seq<char>,
) -> bool {
    match frame {
        BridgeInbound::Message { id, sender_id, content: text } => {
            &&& id@ == content.spec_id()
            &&& sender_id@ == bridge_sender_id
            &&& forwarded_text(content.spec_message()->0) == Some(text@)
        },
        _ => false,
    }
}

fn describe_reaction(reaction: &Reaction) -> (s: String)
    ensures
        s@ == reaction_text(*reaction),
{
    let removed = match reaction.remove {
        Some(remove) => remove,
        None => false,
    };
    let mut s = "[".to_owned();
    if removed {
        s.append("removed");
    } else {
        s.append("reacted");
    }
    s.append(" ");
    match &reaction.emoji {
        Some(emoji) => s.append(emoji.as_str()),
        None => s.append("?"),
    }
    s.append(" on message signative_");
    let target: u64 = match reaction.target_sent_timestamp {
        Some(target) => target,
        None => 0,
    };
    push_decimal(&mut s, target);
    s.append("]");
    s
}

fn quoted_text(quote: &Quote) -> (s: String)
    ensures
        s@ == quoted(*quote),
{
    match &quote.text {
        Some(text) => text.clone(),
        None => String::new(),
    }
}

fn text_cuts_cleanly(text: &str) -> (r: bool)
    ensures
        r == cuts_cleanly(text@),
{
    text.as_bytes().len() <= 100 || text.is_char_boundary(100)
}

fn start_of(text: &str) -> (s: String)
    requires
        cuts_cleanly(text@),
    ensures
        s@ == snippet(text@),
{
    if text.as_bytes().len() > 100 {
        let (start, _) = text.split_at(100);
        proof {
            assert(start.spec_bytes() =~= text.spec_bytes().take(100));
            encode_utf8_decode_utf8(start@);
        }
        start.to_owned().concat("...")
    } else {
        text.to_owned()
    }
}

fn describe_reply(quote: &Quote, text: &str) -> (s: String)
    requires
        cuts_cleanly(quoted(*quote)),
    ensures
        s@ == reply_text(*quote, text@),
{
    let mut s = "[replying to signative_".to_owned();
    let id: u64 = match quote.id {
        Some(id) => id,
        None => 0,
    };
    push_decimal(&mut s, id);
    s.append(": \"");
    let whole = quoted_text(quote);
    let start = start_of(whole.as_str());
    s.append(start.as_str());
    s.append("\"]\n\n");
    s.append(text);
    s
}

/// Whether `content_to_bridge_message` can pass a message on.
pub fn can_forward(
    content: &SignalContent,
    allowed_from: &Vec<String>,
    group_filter: &Option<String>,
) -> (r: bool)
    ensures
        r == forwards_cleanly(*content, views(allowed_from@), opt_view(*group_filter)),
{
    match &content.body {
        ContentBody::DataMessage(message) => {
            if message.reaction.is_some() || message.text().is_none() {
                return true;
            }
            match &message.quote {
                Some(quote) => {
                    let whole = quoted_text(quote);
                    text_cuts_cleanly(whole.as_str()) || screen(
                        content,
                        message,
                        allowed_from,
                        group_filter,
                    ).is_none()
                },
                None => true,
            }
        },
        _ => true,
    }
}

/// The frame that passes a message from Signal on to the bridge, and the
/// address that answers go to.
///
/// The frame carries the adapter's own sender, which is the one that the
/// bridge accepts from it.
pub fn content_to_bridge_message(
    content: &SignalContent,
    allowed_from: &Vec<String>,
    group_filter: &Option<String>,
    bridge_sender_id: &str,
) -> (r: Option<(BridgeInbound, String)>)
    requires
        forwards_cleanly(*content, views(allowed_from@), opt_view(*group_filter)),
    ensures
        r is Some <==> forwards(*content, views(allowed_from@), opt_view(*group_filter)),
        r matches Some((frame, reply_address)) ==> {
            &&& is_forward_of(frame, *content, bridge_sender_id@)
            &&& reply_address@ == content.spec_reply_address()
        },
{
    let message = match &content.body {
        ContentBody::DataMessage(message) => message,
        _ => {
            return None;
        },
    };
    let known = match screen(content, message, allowed_from, group_filter) {
        Some(known) => known,
        None => {
            return None;
        },
    };
    let forwarded = match &message.reaction {
        Some(reaction) => describe_reaction(reaction),
        None => {
            let text = match message.text() {
                Some(text) => text,
                None => {
                    return None;
                },
            };
            match &message.quote {
                Some(quote) => describe_reply(quote, text.as_str()),
                None => text,
            }
        },
    };
    Some(
        (
            BridgeInbound::Message {
                id: known.id,
                sender_id: bridge_sender_id.to_owned(),
                content: forwarded,
            },
            known.reply_address,
        ),
    )
}

/// The bridge and the channel agree on what is passed on: a message without a
/// reaction that one of them takes, the other takes too, under the same
/// settings.
pub proof fn law_bridge_and_channel_agree(content: SignalContent, channel: ChannelView)
    requires
        content.spec_message() matches Some(message) ==> message.reaction is None,
    ensures
        forwards(content, channel.allowed_from, channel.group_filter) <==> channel.accepts(content),
{
}

/// A message that is passed on carries its text unchanged, unless it is a
/// reaction or a reply.
pub proof fn law_plain_text_is_unchanged(message: DataMessage)
    requires
        message.reaction is None,
        message.quote is None,
    ensures
        forwarded_text(message) == message.spec_text(),
{
}

/// A reply ends with its own text.
pub proof fn law_reply_keeps_its_text(quote: Quote, text: Seq<char>)
    ensures
        has_suffix(reply_text(quote, text), text),
{
    let whole = reply_text(quote, text);
    assert(whole.skip(whole.len() - text.len()) =~= text);
}

/// A snippet of a text that cuts cleanly is never longer than a hundred and
/// three bytes.
pub proof fn law_snippet_is_short(text: Seq<char>)
    requires
        cuts_cleanly(text),
    ensures
        encode_utf8(snippet(text)).len() <= 103,
{
    let bytes = encode_utf8(text);
    if bytes.len() > 100 {
        encode_utf8_valid_utf8(text);
        let start = bytes.take(100);
        assert(start =~= bytes.subrange(0, 100));
        valid_utf8_split(bytes, 100);
        decode_utf8_encode_utf8(start);
        reveal_strlit("...");
        assert(is_ascii_chars("..."@));
        is_ascii_chars_encode_utf8("..."@);
        lemma_encode_concat(decode_utf8(start), "..."@);
    }
}

proof fn lemma_encode_concat(a: Seq<char>, b: Seq<char>)
    ensures
        encode_utf8(a + b) == encode_utf8(a) + encode_utf8(b),
    decreases a.len(),
{
    if a.len() == 0 {
        assert(a + b =~= b);
        assert(encode_utf8(a) =~= Seq::<u8>::empty());
        assert(encode_utf8(a + b) =~= encode_utf8(a) + encode_utf8(b));
    } else {
        assert((a + b).drop_first() =~= a.drop_first() + b);
        lemma_encode_concat(a.drop_first(), b);
        assert(encode_utf8(a + b) =~= encode_utf8(a) + encode_utf8(b));
    }
}

/// The text of a reaction says whether it was put on or taken off, names the
/// emoji, and names the message by the time that the reaction carries.
pub proof fn law_reaction_tells_what_and_where(reaction: Reaction)
    ensures
        ({
            let start = if reaction.remove == Some(true) {
                "[removed "@
            } else {
                "[reacted "@
            };
            let emoji = match reaction.emoji {
                Some(emoji) => emoji@,
                None => "?"@,
            };
            let time = match reaction.target_sent_timestamp {
                Some(time) => decimal(time as nat),
                None => "0"@,
            };
            reaction_text(reaction) == start + emoji + " on message signative_"@ + time + "]"@
        }),
{
    reveal_strlit("[removed ");
    reveal_strlit("[reacted ");
    reveal_strlit("[");
    reveal_strlit("removed");
    reveal_strlit("reacted");
    reveal_strlit(" ");
    reveal_strlit("0");
    assert("["@ + "removed"@ + " "@ =~= "[removed "@);
    assert("["@ + "reacted"@ + " "@ =~= "[reacted "@);
    assert(decimal(0) =~= "0"@);
}

/// A reaction names the message sent at the time that it carries as that
/// message's own name does, and reactions to messages sent at different times
/// have different texts.
pub proof fn law_reaction_names_its_message(
    reaction: Reaction,
    time: u64,
    content: SignalContent,
    other: Reaction,
    other_time: u64,
)
    requires
        reaction.target_sent_timestamp == Some(time),
        content.timestamp == time,
        other.target_sent_timestamp == Some(other_time),
        other.emoji == reaction.emoji,
        other.remove == reaction.remove,
    ensures
        has_suffix(
            reaction_text(reaction),
            " on message signative_"@ + decimal(time as nat) + "]"@,
        ),
        has_prefix(content.spec_id(), "signative_"@ + decimal(time as nat) + "_"@),
        time != other_time ==> reaction_text(reaction) != reaction_text(other),
{
    law_reaction_tells_what_and_where(reaction);
    law_reaction_tells_what_and_where(other);
    law_names_of_messages(content, content);
    let a = reaction_text(reaction);
    let b = reaction_text(other);
    let x = decimal(time as nat);
    let y = decimal(other_time as nat);
    let start = if reaction.remove == Some(true) {
        "[removed "@
    } else {
        "[reacted "@
    };
    let emoji = match reaction.emoji {
        Some(emoji) => emoji@,
        None => "?"@,
    };
    let front = start + emoji + " on message signative_"@;
    let tail = " on message signative_"@ + x + "]"@;
    assert(a =~= start + emoji + tail);
    assert(a.skip(a.len() - tail.len()) =~= tail);
    let head = "signative_"@ + x + "_"@;
    assert(content.spec_id().take(head.len() as int) =~= head);
    if a == b {
        assert(a.len() == front.len() + x.len() + "]"@.len());
        assert(b.len() == front.len() + y.len() + "]"@.len());
        assert(a.subrange(front.len() as int, (front.len() + x.len()) as int) =~= x);
        assert(b.subrange(front.len() as int, (front.len() + y.len()) as int) =~= y);
        law_decimals_differ(time as nat, other_time as nat);
    }
}

/// A quoted text of up to a hundred bytes is quoted whole; of a longer one the
/// first hundred bytes are, with three dots behind them.
pub proof fn law_quotes_are_whole_up_to_a_hundred_bytes(text: Seq<char>)
    ensures
        encode_utf8(text).len() <= 100 ==> snippet(text) == text && cuts_cleanly(text),
        encode_utf8(text).len() > 100 && is_char_boundary(encode_utf8(text), 100) ==> cuts_cleanly(
            text,
        ) && encode_utf8(snippet(text)) == encode_utf8(text).take(100) + encode_utf8("..."@),
        encode_utf8(text).len() > 100 && !is_char_boundary(encode_utf8(text), 100)
            ==> !cuts_cleanly(text),
{
    let bytes = encode_utf8(text);
    if bytes.len() > 100 && is_char_boundary(bytes, 100) {
        encode_utf8_valid_utf8(text);
        let start = bytes.take(100);
        assert(start =~= bytes.subrange(0, 100));
        valid_utf8_split(bytes, 100);
        decode_utf8_encode_utf8(start);
        lemma_encode_concat(decode_utf8(start), "..."@);
    }
}

/// A reply names the message that it refers to by the time it was sent, quotes
/// it, and goes on with its own text.
pub proof fn law_reply_tells_what_it_answers(quote: Quote, text: Seq<char>)
    ensures
        ({
            let time = match quote.id {
                Some(id) => decimal(id as nat),
                None => "0"@,
            };
            let quoted_text = match quote.text {
                Some(quoted_text) => snippet(quoted_text@),
                None => Seq::empty(),
            };
            reply_text(quote, text) == "[replying to signative_"@ + time + ": \""@ + quoted_text
                + "\"]\n\n"@ + text
        }),
{
    reveal_strlit("0");
    assert(decimal(0) =~= "0"@);
    if quote.text is None {
        assert(encode_utf8(Seq::<char>::empty()).len() == 0);
    }
}

/// What a message is passed on as: a reaction is put in words, whatever else
/// the message holds; else a text is passed on, with what it answers in front
/// if it is a reply; a message with neither is not passed on.
pub proof fn law_what_is_forwarded(message: DataMessage)
    ensures
        message.reaction matches Some(reaction) ==> forwarded_text(message) == Some(
            reaction_text(reaction),
        ),
        message.reaction is None && (message.body is None || message.body->0@.len() == 0)
            ==> forwarded_text(message) is None,
        message.reaction is None && message.body is Some && message.body->0@.len() > 0
            ==> forwarded_text(message) == match message.quote {
            Some(quote) => Some(reply_text(quote, message.body->0@)),
            None => Some(message.body->0@),
        },
{
}

/// The bridge gets exactly the messages that the list and the filter let
/// through and that hold a reaction or a text.
pub proof fn law_what_the_bridge_gets(
    content: SignalContent,
    message: DataMessage,
    allowed_from: Seq<Seq<char>>,
    group_filter: Option<Seq<char>>,
)
    requires
        content.body == ContentBody::DataMessage(message),
    ensures
        forwards(content, allowed_from, group_filter) <==> content.spec_admitted(
            allowed_from,
            group_filter,
        ) && (message.reaction is Some || (message.body is Some && message.body->0@.len() > 0)),
{
}

/// A frame that passes a message on carries the message's name, the adapter's
/// own sender and the text that is passed on.
pub proof fn law_frames_carry_the_message(
    frame: BridgeInbound,
    content: SignalContent,
    message: DataMessage,
    bridge_sender_id: Seq<char>,
)
    requires
        content.body == ContentBody::DataMessage(message),
        is_forward_of(frame, content, bridge_sender_id),
    ensures
        frame matches BridgeInbound::Message { id, sender_id, content: text } && id@
            == content.spec_id() && sender_id@ == bridge_sender_id && forwarded_text(message)
            == Some(text@),
{
}

/// Only a reply can fail to be passed on, and only for a quoted text whose
/// hundredth byte is not the last of a character.
pub proof fn law_only_long_quotes_are_awkward(
    content: SignalContent,
    message: DataMessage,
    allowed_from: Seq<Seq<char>>,
    group_filter: Option<Seq<char>>,
)
    requires
        content.body == ContentBody::DataMessage(message),
        message.reaction is Some || message.quote is None || message.quote->0.text is None
            || encode_utf8(message.quote->0.text->0@).len() <= 100 || is_char_boundary(
            encode_utf8(message.quote->0.text->0@),
            100,
        ),
    ensures
        forwards_cleanly(content, allowed_from, group_filter),
{
    if message.quote is Some && message.quote->0.text is None {
        assert(encode_utf8(Seq::<char>::empty()).len() == 0);
    }
}

/// The bridge gets nothing but messages from somebody, and nothing else is
/// ever cut.
pub proof fn law_bridge_gets_only_messages(
    content: SignalContent,
    allowed_from: Seq<Seq<char>>,
    group_filter: Option<Seq<char>>,
)
    requires
        content.body is SynchronizeMessage || content.body is Other,
    ensures
        !forwards(content, allowed_from, group_filter),
        forwards_cleanly(content, allowed_from, group_filter),
{
}

} // verus!
