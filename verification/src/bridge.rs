//! The bridge adapter: it stands between Signal and the WebSocket channel of
//! an assistant, passes messages one way and events the other.

pub mod attachments;
pub mod echo;
pub mod inbound;
pub mod outbound;
pub mod protocol;
pub mod session;
pub mod watcher;

use crate::backoff::{doubled, Backoff, FIRST_DELAY, MAX_DELAY};
use crate::path::FilePath;
use crate::text::lossy_text;
use vstd::prelude::*;
use vstd::string::*;
use vstd::utf8::*;

verus! {

/// The settings of a bridge adapter.
#[derive(Debug, Clone, PartialEq, Eq)]
pub struct BridgeAdapterConfig {
    /// The WebSocket address of the bridge (such as `ws://127.0.0.1:8765/ws`).
    pub bridge_url: String,
    /// The token that the bridge shares with its adapters.
    pub auth_token: String,
    /// The sender under which the adapter registers. All messages from Signal
    /// are passed on under it.
    pub sender_id: String,
    /// The database that holds the Signal protocol state.
    pub db_path: FilePath,
    /// The UUIDs of the allowed senders, or `*`.
    pub allowed_from: Vec<String>,
    /// `dm` for direct messages only, or the master key of the one group to
    /// listen to.
    pub group_filter: Option<String>,
    /// A session file whose directory is watched for messages to deliver.
    pub session_file: Option<FilePath>,
}

/// How many seconds to wait before the adapter connects again, once a session
/// has ended. After one that ended cleanly the waits start over; after the
/// others they grow.
pub fn run(retry: &mut Backoff, ended_cleanly: bool) -> (seconds: u64)
    ensures
        ended_cleanly ==> seconds == FIRST_DELAY && final(retry)@ == doubled(FIRST_DELAY as nat),
        !ended_cleanly ==> seconds == old(retry)@ && final(retry)@ == doubled(old(retry)@),
        FIRST_DELAY <= seconds <= MAX_DELAY,
{
    if ended_cleanly {
        retry.reset();
    }
    retry.next_delay()
}

/// What is said when no linked device can be loaded from a database.
pub open spec fn no_device_text(db_path: Seq<char>, cause: Seq<char>) -> Seq<char> {
    "no linked device found at "@ + db_path + ". Run `signal-bridge link` first. Error: "@ + cause
}

impl BridgeAdapterConfig {
    /// Why the adapter cannot start when no linked device can be loaded.
    pub fn no_linked_device(&self, cause: &str) -> (why: String)
        ensures
            why@ == no_device_text(lossy_text(self.db_path@), cause@),
            valid_utf8(self.db_path@) ==> why@ == no_device_text(
                decode_utf8(self.db_path@),
                cause@,
            ),
    {
        let mut why = "no linked device found at ".to_owned();
        let path = self.db_path.display();
        why.append(path.as_str());
        why.append(". Run `signal-bridge link` first. Error: ");
        why.append(cause);
        why
    }
}

/// When no device can be loaded the user is told from where, what to do, and
/// the cause.
pub proof fn law_user_is_told_why_the_adapter_cannot_start(db_path: Seq<char>, cause: Seq<char>)
    ensures
        no_device_text(db_path, cause) == "no linked device found at "@ + db_path
            + ". Run `signal-bridge link` first. Error: "@ + cause,
{
}

} // verus!
