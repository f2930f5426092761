//! What can go wrong in the channel.

use vstd::prelude::*;
use vstd::string::*;

verus! {

/// An error of the channel.
#[derive(Debug, Clone, PartialEq, Eq)]
pub enum SignalNativeError {
    /// The device has not been linked to an account.
    NotLinked,
    /// The Signal client failed.
    Presage(String),
    /// The store failed.
    Store(String),
    /// A message could not be sent.
    Send(String),
    /// A recipient is neither a UUID nor a group.
    InvalidRecipient(String),
}

impl SignalNativeError {
    /// The error as a person reads it.
    pub open spec fn spec_message(self) -> Seq<char> {
        match self {
            SignalNativeError::NotLinked => "not linked: run device linking first"@,
            SignalNativeError::Presage(why) => "presage error: "@ + why@,
            SignalNativeError::Store(why) => "store error: "@ + why@,
            SignalNativeError::Send(why) => "send failed: "@ + why@,
            SignalNativeError::InvalidRecipient(why) => "invalid recipient: "@ + why@,
        }
    }

    /// The error as a person reads it.
    pub fn message(&self) -> (s: String)
        ensures
            s@ == self.spec_message(),
    {
        match self {
            SignalNativeError::NotLinked => "not linked: run device linking first".to_owned(),
            SignalNativeError::Presage(why) => "presage error: ".to_owned().concat(why.as_str()),
            SignalNativeError::Store(why) => "store error: ".to_owned().concat(why.as_str()),
            SignalNativeError::Send(why) => "send failed: ".to_owned().concat(why.as_str()),
            SignalNativeError::InvalidRecipient(why) => "invalid recipient: ".to_owned().concat(
                why.as_str(),
            ),
        }
    }
}

/// An error is told by what kind it is, and with the whole reason behind it.
pub proof fn law_errors_tell_the_whole_reason(why: String)
    ensures
        SignalNativeError::NotLinked.spec_message() == "not linked: run device linking first"@,
        SignalNativeError::Presage(why).spec_message() == "presage error: "@ + why@,
        SignalNativeError::Store(why).spec_message() == "store error: "@ + why@,
        SignalNativeError::Send(why).spec_message() == "send failed: "@ + why@,
        SignalNativeError::InvalidRecipient(why).spec_message() == "invalid recipient: "@ + why@,
{
}

} // verus!
