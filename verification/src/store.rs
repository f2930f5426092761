//! Where the Signal protocol state is kept.

use crate::path::{joined, opt_path, FilePath};
use vstd::prelude::*;
use vstd::string::*;
use vstd::utf8::*;

verus! {

/// The permissions of the directory that the database is kept in: its owner
/// alone has access to the key material.
pub const STORE_DIR_MODE: u32 = 0o700;

/// The directory for configuration: `.zeroclaw` in the home directory, or in
/// the working directory when there is no home directory.
pub open spec fn config_dir(home: Option<Seq<u8>>) -> Seq<u8> {
    match home {
        Some(home) => joined(home, encode_utf8(".zeroclaw"@)),
        None => encode_utf8(".zeroclaw"@),
    }
}

/// The directory for configuration.
pub fn dirs_fallback(home: &Option<FilePath>) -> (path: FilePath)
    ensures
        path@ == config_dir(opt_path(*home)),
{
    match home {
        Some(home) => home.join(".zeroclaw".as_bytes()),
        None => FilePath::from_text(".zeroclaw"),
    }
}

/// The database that is used when no other is asked for: `signal-native.db`
/// in the directory for configuration.
pub fn default_db_path(home: &Option<FilePath>) -> (path: FilePath)
    ensures
        path@ == joined(config_dir(opt_path(*home)), encode_utf8("signal-native.db"@)),
{
    dirs_fallback(home).join("signal-native.db".as_bytes())
}

/// The address under which the database at a path is opened, and made if it
/// is not there. The path must be text.
pub fn store_url(db_path: &FilePath) -> (r: Result<String, String>)
    ensures
        match r {
            Ok(url) => valid_utf8(db_path@) && url@ == "sqlite:"@ + decode_utf8(db_path@)
                + "?mode=rwc"@,
            Err(why) => !valid_utf8(db_path@) && why@ == "db path is not valid UTF-8"@,
        },
{
    match db_path.to_text() {
        Some(path) => {
            let mut url = "sqlite:".to_owned();
            url.append(path.as_str());
            url.append("?mode=rwc");
            Ok(url)
        },
        None => Err("db path is not valid UTF-8".to_owned()),
    }
}

/// The default database is `.zeroclaw/signal-native.db` below the home
/// directory, or below the working directory when there is no home directory.
pub proof fn law_default_db_is_below_home(home: Option<Seq<u8>>)
    ensures
        joined(config_dir(home), encode_utf8("signal-native.db"@)) == match home {
            Some(home) => if home.len() == 0 || home.last() == 47 {
                home + encode_utf8(".zeroclaw/signal-native.db"@)
            } else {
                home.push(47) + encode_utf8(".zeroclaw/signal-native.db"@)
            },
            None => encode_utf8(".zeroclaw/signal-native.db"@),
        },
{
    reveal_strlit(".zeroclaw");
    reveal_strlit("signal-native.db");
    reveal_strlit(".zeroclaw/signal-native.db");
    assert(is_ascii_chars(".zeroclaw"@));
    assert(is_ascii_chars("signal-native.db"@));
    assert(is_ascii_chars(".zeroclaw/signal-native.db"@));
    is_ascii_chars_encode_utf8(".zeroclaw"@);
    is_ascii_chars_encode_utf8("signal-native.db"@);
    is_ascii_chars_encode_utf8(".zeroclaw/signal-native.db"@);
    let dir = config_dir(home);
    let below = encode_utf8(".zeroclaw/signal-native.db"@);
    assert(below =~= encode_utf8(".zeroclaw"@).push(47) + encode_utf8("signal-native.db"@));
    assert(dir.last() == encode_utf8(".zeroclaw"@).last());
    match home {
        Some(home) => {
            let start = if home.len() == 0 || home.last() == 47 {
                home
            } else {
                home.push(47)
            };
            assert(dir == start + encode_utf8(".zeroclaw"@));
            assert(joined(dir, encode_utf8("signal-native.db"@)) =~= start + below);
        },
        None => {},
    }
}

} // verus!
