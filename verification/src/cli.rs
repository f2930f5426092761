//! What the command line asks for.

use crate::bridge::BridgeAdapterConfig;
use crate::path::{joined, opt_path, FilePath};
use crate::store::{config_dir, default_db_path};
use crate::text::{opt_view, same_text, split_and_trim, trimmed_pieces, views};
use vstd::prelude::*;
use vstd::string::*;
use vstd::utf8::*;

verus! {

/// The value given to a flag: the argument behind its first mention.
pub open spec fn flag_value(args: Seq<Seq<char>>, flag: Seq<char>) -> Option<Seq<char>> {
    match args.index_of_first(flag) {
        Some(i) => if i + 1 < args.len() {
            Some(args[i + 1])
        } else {
            None
        },
        None => None,
    }
}

/// A value or, where none is given, a default.
pub open spec fn value_or(value: Option<Seq<char>>, default: Seq<char>) -> Seq<char> {
    match value {
        Some(value) => value,
        None => default,
    }
}

/// The database asked for on the command line, or else the default one.
pub open spec fn db_path_for(args: Seq<Seq<char>>, home: Option<Seq<u8>>) -> Seq<u8> {
    match flag_value(args, "--db-path"@) {
        Some(path) => encode_utf8(path),
        None => joined(config_dir(home), encode_utf8("signal-native.db"@)),
    }
}

/// The allowed senders asked for on the command line, a list with commas, or
/// else everybody.
pub open spec fn allowed_from_for(args: Seq<Seq<char>>) -> Seq<Seq<char>> {
    match flag_value(args, "--allowed-from"@) {
        Some(list) => trimmed_pieces(list, ','),
        None => seq!["*"@],
    }
}

/// The value given to a flag on the command line.
pub fn get_arg(args: &Vec<String>, flag: &str) -> (r: Option<String>)
    ensures
        opt_view(r) == flag_value(views(args@), flag@),
{
    let ghost all = views(args@);
    proof {
        all.index_of_first_ensures(flag@);
    }
    let mut i: usize = 0;
    while i < args.len()
        invariant
            all == views(args@),
            i <= args@.len(),
            forall|j: int| 0 <= j < i ==> all[j] != flag@,
        decreases args@.len() - i,
    {
        assert(all[i as int] == args@[i as int]@);
        if same_text(args[i].as_str(), flag) {
            proof {
                all.index_of_first_ensures(flag@);
                assert(all.contains(flag@));
                assert(all.index_of_first(flag@) == Some(i as int));
            }
            if i + 1 < args.len() {
                return Some(args[i + 1].clone());
            }
            return None;
        }
        i += 1;
    }
    None
}

fn get_arg_or(args: &Vec<String>, flag: &str, default: &str) -> (r: String)
    ensures
        r@ == value_or(flag_value(views(args@), flag@), default@),
{
    match get_arg(args, flag) {
        Some(value) => value,
        None => default.to_owned(),
    }
}

fn get_db_path(args: &Vec<String>, home: &Option<FilePath>) -> (r: FilePath)
    ensures
        r@ == db_path_for(views(args@), opt_path(*home)),
{
    match get_arg(args, "--db-path") {
        Some(path) => FilePath::from_text(path.as_str()),
        None => default_db_path(home),
    }
}

fn get_allowed_from(args: &Vec<String>) -> (r: Vec<String>)
    ensures
        views(r@) == allowed_from_for(views(args@)),
{
    match get_arg(args, "--allowed-from") {
        Some(list) => split_and_trim(list.as_str(), ','),
        None => {
            let mut r: Vec<String> = Vec::new();
            r.push("*".to_owned());
            assert(views(r@) =~= seq!["*"@]);
            r
        },
    }
}

/// The settings of the bridge adapter that the command line asks for. Only
/// the token has no default.
pub fn bridge_config(args: &Vec<String>, home: &Option<FilePath>) -> (r: Result<
    BridgeAdapterConfig,
    String,
>)
    ensures
        match r {
            Ok(config) => {
                let args = views(args@);
                &&& flag_value(args, "--auth-token"@) == Some(config.auth_token@)
                &&& config.bridge_url@ == value_or(
                    flag_value(args, "--bridge-url"@),
                    "ws://127.0.0.1:8765/ws"@,
                )
                &&& config.sender_id@ == value_or(flag_value(args, "--sender-id"@), "signal"@)
                &&& config.db_path@ == db_path_for(args, opt_path(*home))
                &&& views(config.allowed_from@) == allowed_from_for(args)
                &&& opt_view(config.group_filter) == flag_value(args, "--group-filter"@)
                &&& config.session_file is None
            },
            Err(why) => flag_value(views(args@), "--auth-token"@) is None && why@
                == "--auth-token is required"@,
        },
{
    match get_arg(args, "--auth-token") {
        Some(auth_token) => Ok(
            BridgeAdapterConfig {
                bridge_url: get_arg_or(args, "--bridge-url", "ws://127.0.0.1:8765/ws"),
                auth_token,
                sender_id: get_arg_or(args, "--sender-id", "signal"),
                db_path: get_db_path(args, home),
                allowed_from: get_allowed_from(args),
                group_filter: get_arg(args, "--group-filter"),
                session_file: None,
            },
        ),
        None => Err("--auth-token is required".to_owned()),
    }
}

/// How a device is to be linked.
#[derive(Debug, Clone, PartialEq, Eq)]
pub struct LinkOptions {
    /// The database for the Signal protocol state.
    pub db_path: FilePath,
    /// The name under which the device is listed on the phone.
    pub device_name: String,
}

/// How the command line asks for a device to be linked.
pub fn link_options(args: &Vec<String>, home: &Option<FilePath>) -> (r: LinkOptions)
    ensures
        r.db_path@ == db_path_for(views(args@), opt_path(*home)),
        r.device_name@ == value_or(flag_value(views(args@), "--device-name"@), "ZeroClaw"@),
{
    LinkOptions {
        db_path: get_db_path(args, home),
        device_name: get_arg_or(args, "--device-name", "ZeroClaw"),
    }
}

/// The first mention of a flag counts: what stands behind it and its value
/// does not matter.
pub proof fn law_first_mention_counts(args: Seq<Seq<char>>, more: Seq<Seq<char>>, flag: Seq<char>)
    requires
        flag_value(args, flag) is Some,
    ensures
        flag_value(args + more, flag) == flag_value(args, flag),
{
    args.index_of_first_ensures(flag);
    (args + more).index_of_first_ensures(flag);
    let i = args.index_of_first(flag)->0;
    let all = args + more;
    assert(all[i] == flag);
    assert(all.contains(flag));
    let j = all.index_of_first(flag)->0;
    if j < i {
        assert(all[j] == args[j]);
    }
    assert(i == j);
}

/// A flag has the argument behind its first mention for its value; it has none
/// if it is not mentioned, or mentioned first at the very end.
pub proof fn law_flags_and_values(
    before: Seq<Seq<char>>,
    flag: Seq<char>,
    value: Seq<char>,
    after: Seq<Seq<char>>,
)
    requires
        !before.contains(flag),
    ensures
        flag_value(before.push(flag).push(value) + after, flag) == Some(value),
        flag_value(before.push(flag), flag) is None,
        flag_value(before, flag) is None,
{
    let args = before.push(flag).push(value) + after;
    let n = before.len() as int;
    assert(args[n] == flag);
    assert(args[n + 1] == value);
    args.index_of_first_ensures(flag);
    let i = args.index_of_first(flag)->0;
    if i < n {
        assert(before[i] == flag);
    }
    let short = before.push(flag);
    assert(short[n] == flag);
    short.index_of_first_ensures(flag);
    let j = short.index_of_first(flag)->0;
    if j < n {
        assert(before[j] == flag);
    }
    before.index_of_first_ensures(flag);
}

/// What the command line says counts, and where it says nothing the defaults
/// do: everybody is heard, and the database is the default one.
pub proof fn law_settings_and_defaults(
    args: Seq<Seq<char>>,
    home: Option<Seq<u8>>,
    value: Seq<char>,
    default: Seq<char>,
)
    ensures
        value_or(Some(value), default) == value,
        value_or(None, default) == default,
        flag_value(args, "--db-path"@) == Some(value) ==> db_path_for(args, home) == encode_utf8(
            value,
        ),
        flag_value(args, "--db-path"@) is None ==> db_path_for(args, home) == joined(
            config_dir(home),
            encode_utf8("signal-native.db"@),
        ),
        flag_value(args, "--allowed-from"@) == Some(value) ==> allowed_from_for(args)
            == trimmed_pieces(value, ','),
        flag_value(args, "--allowed-from"@) is None ==> allowed_from_for(args) == seq!["*"@],
{
}

} // verus!
