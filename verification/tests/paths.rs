use signal_native_channel::cli::{bridge_config, get_arg, link_options};
use signal_native_channel::clock::{now_millis, timestamp_of};
use signal_native_channel::linking::{notice_for, provisioning_notice};
use signal_native_channel::path::{FilePath, Place};
use signal_native_channel::store::{default_db_path, dirs_fallback, store_url, STORE_DIR_MODE};
use std::path::{Path, PathBuf};

const SAMPLES: [&str; 20] = [
    "", "/", "a", "/a", "a/b", "/a/b.txt", "/a/b/", "/a/b/.", "/a/..", "..", ".", "./x", "//x//y",
    "/a/.hidden", "/a/x.tar.gz", "/a/x.", "/a/..x", "/é/ü.ï", "/a/...", "/a/.x.y",
];

fn path(text: &str) -> FilePath {
    FilePath::from_text(text)
}

fn args(list: &[&str]) -> Vec<String> {
    list.iter().map(|s| s.to_string()).collect()
}

#[test]
fn file_names_are_those_of_the_standard_library() {
    for sample in SAMPLES {
        let expected = Path::new(sample).file_name().map(|n| n.to_str().unwrap().as_bytes().to_vec());
        assert_eq!(path(sample).file_name(), expected);
    }
}

#[test]
fn extensions_are_those_of_the_standard_library() {
    for sample in SAMPLES {
        let expected = Path::new(sample).extension().map(|n| n.to_str().unwrap().as_bytes().to_vec());
        assert_eq!(path(sample).extension(), expected);
    }
}

#[test]
fn short_paths_are_taken_apart_as_in_the_standard_library() {
    let mut samples = vec![String::new()];
    let mut longest = samples.clone();
    for _ in 0..8 {
        longest = longest
            .iter()
            .flat_map(|s| ["/", ".", "a"].iter().map(move |c| format!("{s}{c}")))
            .collect();
        samples.extend(longest.iter().cloned());
    }
    for sample in &samples {
        let whole = Path::new(sample);
        let bytes = |part: Option<&str>| part.map(|p| p.as_bytes().to_vec());
        assert_eq!(
            path(sample).parent().map(|p| p.bytes),
            bytes(whole.parent().map(|p| p.to_str().unwrap()))
        );
        assert_eq!(path(sample).file_name(), bytes(whole.file_name().map(|p| p.to_str().unwrap())));
        assert_eq!(path(sample).extension(), bytes(whole.extension().map(|p| p.to_str().unwrap())));
    }
}

#[test]
fn joining_is_that_of_the_standard_library() {
    for base in SAMPLES {
        assert_eq!(path(base).is_absolute(), Path::new(base).is_absolute());
        for relative in SAMPLES {
            let expected = PathBuf::from(base).join(relative);
            assert_eq!(
                path(base).join(relative.as_bytes()).to_text(),
                Some(expected.to_str().unwrap().to_string())
            );
        }
    }
}

#[test]
fn absolute_paths_are_ordered_as_in_the_standard_library() {
    for a in SAMPLES {
        for b in SAMPLES {
            if a.starts_with('/') && b.starts_with('/') {
                let (x, y) = (Path::new(a), Path::new(b));
                let expected = if x < y {
                    Place::Before
                } else if x == y {
                    Place::Same
                } else {
                    Place::After
                };
                assert_eq!(path(a).place(&path(b)), expected);
            }
        }
    }
}

#[test]
fn paths_as_text() {
    let odd = FilePath { bytes: vec![b'a', 0xff] };
    assert_eq!(odd.to_text(), None);
    assert_eq!(odd.display(), "a\u{fffd}");
    assert_eq!(path("/é").to_text(), Some("/é".to_string()));
    assert_eq!(path("/é").display(), "/é");
}

#[test]
fn database_below_the_home_directory() {
    assert_eq!(default_db_path(&Some(path("/home/me"))), path("/home/me/.zeroclaw/signal-native.db"));
    assert_eq!(default_db_path(&Some(path("/"))), path("/.zeroclaw/signal-native.db"));
    assert_eq!(default_db_path(&Some(path(""))), path(".zeroclaw/signal-native.db"));
    assert_eq!(default_db_path(&None), path(".zeroclaw/signal-native.db"));
    assert_eq!(dirs_fallback(&Some(path("/home/me"))), path("/home/me/.zeroclaw"));
    assert_eq!(dirs_fallback(&None), path(".zeroclaw"));
    assert_eq!(STORE_DIR_MODE, 0o700);
}

#[test]
fn address_of_the_database() {
    assert_eq!(store_url(&path("/x/y.db")), Ok("sqlite:/x/y.db?mode=rwc".to_string()));
    assert_eq!(
        store_url(&FilePath { bytes: vec![0xff] }),
        Err("db path is not valid UTF-8".to_string())
    );
}

#[test]
fn values_of_flags() {
    let line = args(&["signal-bridge", "--a", "1", "--b", "--a", "2", "--c"]);
    assert_eq!(get_arg(&line, "--a"), Some("1".to_string()));
    assert_eq!(get_arg(&line, "--b"), Some("--a".to_string()));
    assert_eq!(get_arg(&line, "--c"), None);
    assert_eq!(get_arg(&line, "--d"), None);
}

#[test]
fn settings_by_default() {
    let config = bridge_config(&args(&["x", "--auth-token", "t"]), &Some(path("/h"))).unwrap();
    assert_eq!(config.auth_token, "t");
    assert_eq!(config.bridge_url, "ws://127.0.0.1:8765/ws");
    assert_eq!(config.sender_id, "signal");
    assert_eq!(config.db_path, path("/h/.zeroclaw/signal-native.db"));
    assert_eq!(config.allowed_from, vec!["*"]);
    assert_eq!(config.group_filter, None);
    assert_eq!(config.session_file, None);
}

#[test]
fn settings_that_are_given() {
    let line = args(&[
        "x", "--bridge-url", "ws://h/ws", "--auth-token", "t", "--sender-id", "me", "--db-path",
        "/d.db", "--allowed-from", "a, b", "--group-filter", "dm",
    ]);
    let config = bridge_config(&line, &None).unwrap();
    assert_eq!(config.bridge_url, "ws://h/ws");
    assert_eq!(config.sender_id, "me");
    assert_eq!(config.db_path, path("/d.db"));
    assert_eq!(config.allowed_from, vec!["a", "b"]);
    assert_eq!(config.group_filter, Some("dm".to_string()));
}

#[test]
fn settings_need_a_token() {
    assert_eq!(
        bridge_config(&args(&["x"]), &None),
        Err("--auth-token is required".to_string())
    );
}

#[test]
fn options_for_linking() {
    let options = link_options(&args(&["x"]), &None);
    assert_eq!(options.device_name, "ZeroClaw");
    assert_eq!(options.db_path, path(".zeroclaw/signal-native.db"));
    let options = link_options(&args(&["x", "--device-name", "Desk", "--db-path", "d"]), &None);
    assert_eq!(options.device_name, "Desk");
    assert_eq!(options.db_path, path("d"));
}

#[test]
fn notice_with_a_drawing() {
    assert_eq!(
        notice_for("sgnl://x", Ok("##".to_string())),
        "\nScan this QR code with Signal (Linked Devices):\n\n##\n\nProvisioning URL: sgnl://x\n\n"
    );
}

#[test]
fn notice_without_a_drawing() {
    assert_eq!(
        notice_for("sgnl://x", Err("too long".to_string())),
        "Could not render QR code: too long\nProvisioning URL: sgnl://x\n"
    );
}

#[test]
fn notice_for_an_address() {
    let notice = provisioning_notice("sgnl://linkdevice?uuid=abc");
    assert!(notice.starts_with("\nScan this QR code with Signal (Linked Devices):\n\n"));
    assert!(notice.ends_with("\n\nProvisioning URL: sgnl://linkdevice?uuid=abc\n\n"));
    let code = qrcode::QrCode::new("sgnl://linkdevice?uuid=abc").unwrap();
    let drawing = code.render::<char>().quiet_zone(true).module_dimensions(2, 1).build();
    assert!(notice.contains(&drawing));
    assert!(drawing.contains('█'));
}

#[test]
fn notice_for_an_address_that_is_too_long() {
    let url = "x".repeat(5000);
    assert_eq!(
        provisioning_notice(&url),
        format!("Could not render QR code: data too long\nProvisioning URL: {url}\n")
    );
}

#[test]
fn timestamps() {
    assert_eq!(timestamp_of(Some(1_700_000_000_123)), 1_700_000_000_123);
    assert_eq!(timestamp_of(None), 0);
    assert_eq!(timestamp_of(Some(u64::MAX as u128 + 5)), 4);
    assert!(now_millis() > 1_600_000_000_000);
}
