use signal_native_channel::bridge::attachments::{
    attachment_spec, content_type, extract_file_paths, is_path_end, or_octet_stream, probe_paths,
    send_signal_message, split_path_candidates, AttachmentSpec,
};
use signal_native_channel::identity::ServiceId;
use signal_native_channel::path::FilePath;
use signal_native_channel::recipient::RecipientTarget;
use std::path::PathBuf;

fn path(text: &str) -> FilePath {
    FilePath::from_text(text)
}

fn home() -> Option<FilePath> {
    Some(path("/home/me"))
}

fn texts(paths: &[FilePath]) -> Vec<String> {
    paths.iter().map(|p| p.to_text().unwrap()).collect()
}

fn alice() -> RecipientTarget {
    RecipientTarget::Direct(ServiceId::parse("550e8400-e29b-41d4-a716-446655440000").unwrap())
}

#[test]
fn paths_end_at_white_space_and_delimiters() {
    for c in [' ', '\n', '\r', '\t', '\u{3000}', '`', '*', '"', '\'', ')', ']', ',', ';', ':'] {
        assert!(is_path_end(c));
    }
    for c in ['/', '~', 'a', '.', '(', '[', '-'] {
        assert!(!is_path_end(c));
    }
}

#[test]
fn candidates_in_a_text() {
    assert_eq!(
        split_path_candidates("see /tmp/a.png and ~/b.txt\n- /c/d"),
        vec!["/tmp/a.png", "~/b.txt", "/c/d"]
    );
    assert!(split_path_candidates("nothing here").is_empty());
    assert!(split_path_candidates("").is_empty());
}

#[test]
fn candidates_without_their_delimiters() {
    for text in [
        "`/tmp/a`",
        "**/tmp/a**",
        "\"/tmp/a\"",
        "'/tmp/a'",
        "(/tmp/a)",
        "[/tmp/a],",
        "/tmp/a;",
        "/tmp/a:",
        "file:/tmp/a`*\"')],;:",
    ] {
        assert_eq!(split_path_candidates(text), vec!["/tmp/a"]);
    }
}

#[test]
fn candidates_end_at_the_first_delimiter() {
    assert_eq!(split_path_candidates("/a/b,/c/d"), vec!["/a/b", "/c/d"]);
    assert_eq!(split_path_candidates("[/a](/b)"), vec!["/a", "/b"]);
    assert_eq!(split_path_candidates("/a/b:12:~/c"), vec!["/a/b", "~/c"]);
    assert_eq!(split_path_candidates("/,/"), Vec::<String>::new());
    assert_eq!(split_path_candidates("/tmp/a."), vec!["/tmp/a."]);
}

#[test]
fn candidates_start_in_the_middle_of_words() {
    assert_eq!(split_path_candidates("http://x/y"), vec!["//x/y"]);
    assert_eq!(split_path_candidates("a~/b"), vec!["~/b"]);
    assert_eq!(split_path_candidates("~x"), Vec::<String>::new());
    assert_eq!(split_path_candidates("~"), Vec::<String>::new());
}

#[test]
fn a_lone_slash_is_no_candidate() {
    assert!(split_path_candidates("a / b").is_empty());
    assert!(split_path_candidates("/`").is_empty());
    assert_eq!(split_path_candidates("~/"), vec!["~/"]);
    assert_eq!(split_path_candidates("/é"), vec!["/é"]);
}

#[test]
fn home_is_put_for_the_tilde() {
    assert_eq!(
        texts(&probe_paths("/a ~/b", &home())),
        vec!["/a".to_string(), "/home/me/b".to_string()]
    );
    assert_eq!(texts(&probe_paths("/a ~/b", &None)), vec!["/a".to_string()]);
    assert_eq!(texts(&probe_paths("~//etc/x", &home())), vec!["/etc/x".to_string()]);
    assert_eq!(texts(&probe_paths("~/b", &Some(path("rel")))), Vec::<String>::new());
}

#[test]
fn files_in_order_and_each_once() {
    let text = "/b/x /a/y /b/x /a//y /a/x";
    let (files, clean) = extract_file_paths(text, &None, &vec![true; 5]);
    assert_eq!(texts(&files), vec!["/a/x", "/a/y", "/b/x"]);
    assert_eq!(clean, "    ");
}

#[test]
fn files_are_ordered_like_paths_of_the_standard_library() {
    let text = "/a-b/x /a/x /a/../b /a/b /a /a/ab /A //a/b/ /a/./b /é /a.b /.. /z/ /a/..x";
    let probes = texts(&probe_paths(text, &None));
    let (files, _) = extract_file_paths(text, &None, &vec![true; probes.len()]);
    let mut expected: Vec<PathBuf> = probes.iter().map(PathBuf::from).collect();
    expected.sort();
    expected.dedup();
    let expected: Vec<String> = expected.iter().map(|p| p.to_str().unwrap().to_string()).collect();
    assert_eq!(texts(&files), expected);
}

#[test]
fn mentions_of_files_are_cut_out() {
    let text = "look: `/tmp/a.png`, not /tmp/gone";
    let (files, clean) = extract_file_paths(text, &None, &vec![true, false]);
    assert_eq!(texts(&files), vec!["/tmp/a.png"]);
    assert_eq!(clean, "look: ``, not /tmp/gone");
}

#[test]
fn listed_files_are_all_found() {
    let (files, clean) = extract_file_paths("/b,/a;[x](/c)", &None, &vec![true, true, false]);
    assert_eq!(texts(&files), vec!["/a", "/b"]);
    assert_eq!(clean, ",;[x](/c)");
}

#[test]
fn text_without_files_is_unchanged() {
    let text = "either /this or ~/that";
    let (files, clean) = extract_file_paths(text, &home(), &vec![false, false]);
    assert!(files.is_empty());
    assert_eq!(clean, text);
}

#[test]
fn media_types() {
    assert_eq!(content_type(&path("/tmp/a.png")), "image/png");
    assert_eq!(content_type(&path("/tmp/A.JPG")), "image/jpeg");
    assert_eq!(content_type(&path("/tmp/a.tar.txt")), "text/plain");
    for unknown in ["/tmp/a", "/tmp/.png", "/tmp/a.", "/tmp/a.nosuchtype", "/tmp/a.png/..", "/"] {
        assert_eq!(content_type(&path(unknown)), "application/octet-stream");
    }
    let odd = FilePath { bytes: b"/tmp/a.\xff".to_vec() };
    assert_eq!(content_type(&odd), "application/octet-stream");
}

#[test]
fn media_type_by_default() {
    assert_eq!(or_octet_stream(None), "application/octet-stream");
    assert_eq!(or_octet_stream(Some("image/png".to_string())), "image/png");
}

#[test]
fn what_is_said_of_a_file() {
    assert_eq!(
        attachment_spec(&path("/tmp/a.png"), 12),
        AttachmentSpec {
            content_type: "image/png".to_string(),
            length: 12,
            file_name: Some("a.png".to_string())
        }
    );
    assert_eq!(attachment_spec(&path("/"), 0).file_name, None);
    let odd = FilePath { bytes: b"/tmp/a\xff".to_vec() };
    assert_eq!(attachment_spec(&odd, 0).file_name, Some("a\u{fffd}".to_string()));
}

#[test]
fn message_with_what_was_uploaded() {
    let uploads = vec![Some(1u32), None, Some(3)];
    let text = "see /a and /b and /c".to_string();
    let message = send_signal_message(alice(), text, &None, &vec![true; 3], uploads, 9);
    assert_eq!(message.target, alice());
    assert_eq!(message.body, "see  and  and ");
    assert_eq!(message.timestamp, 9);
    assert_eq!(message.attachments, vec![1, 3]);
}

#[test]
fn message_when_no_upload_worked() {
    let uploads: Vec<Option<u32>> = vec![None];
    let text = "see /a".to_string();
    let message = send_signal_message(alice(), text, &None, &vec![true], uploads, 9);
    assert_eq!(message.body, "see /a");
    assert!(message.attachments.is_empty());
}
