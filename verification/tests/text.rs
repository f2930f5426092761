use signal_native_channel::hex::{decode, decodes_in_whole_characters, encode};
use signal_native_channel::text::{
    char_is_white_space, chars_of, push_decimal, same_text, split_and_trim, string_of, strip_prefix,
    trim,
};

#[test]
fn hex_encodes_lower_case() {
    assert_eq!(encode(&[0x00, 0x0f, 0xa5, 0xff]), "000fa5ff");
    assert_eq!(encode(&[]), "");
}

#[test]
fn hex_decodes_either_case() {
    assert_eq!(decode("000fA5Ff"), Ok(vec![0x00, 0x0f, 0xa5, 0xff]));
    assert_eq!(decode(""), Ok(vec![]));
}

#[test]
fn hex_decodes_a_plus_sign_as_no_digit() {
    assert_eq!(decode("+f10"), Ok(vec![0x0f, 0x10]));
    assert_eq!(decode("-f"), Err("invalid digit found in string".to_string()));
}

#[test]
fn hex_refuses_odd_length() {
    assert_eq!(decode("abc"), Err("odd-length hex string".to_string()));
}

#[test]
fn hex_refuses_other_characters() {
    assert_eq!(decode("zz"), Err("invalid digit found in string".to_string()));
    assert_eq!(decode("é"), Err("invalid digit found in string".to_string()));
    assert_eq!(decode("f+"), Err("invalid digit found in string".to_string()));
}

#[test]
fn hex_agrees_with_integer_parsing_on_every_pair() {
    for a in 0u8..128 {
        for b in 0u8..128 {
            let pair: String = vec![a as char, b as char].into_iter().collect();
            let expected = u8::from_str_radix(&pair, 16).map(|v| vec![v]).map_err(|e| e.to_string());
            assert_eq!(decode(&pair), expected);
        }
    }
}

#[test]
fn hex_tells_texts_that_cannot_be_cut() {
    assert!(!decodes_in_whole_characters("aéb"));
    assert!(decodes_in_whole_characters("aabb"));
    assert!(decodes_in_whole_characters("é"));
    assert!(decodes_in_whole_characters("zzaéb"));
    assert!(decodes_in_whole_characters("abc"));
    assert!(decodes_in_whole_characters("aé"));
}

#[test]
fn hex_round_trip() {
    let bytes: Vec<u8> = (0..=255).collect();
    assert_eq!(decode(&encode(&bytes)), Ok(bytes));
}

#[test]
fn white_space_is_what_the_standard_library_says() {
    for n in 0u32..=0x10ffff {
        if let Some(c) = char::from_u32(n) {
            assert_eq!(char_is_white_space(c), c.is_whitespace());
        }
    }
}

#[test]
fn trimming_is_what_the_standard_library_does() {
    for s in ["", "  ", " a b ", "\u{3000}x\n", "x", "\t\r\n"] {
        assert_eq!(trim(&chars_of(s)), s.trim());
    }
}

#[test]
fn splitting_keeps_empty_pieces() {
    assert_eq!(split_and_trim("a, b ,,c", ','), vec!["a", "b", "", "c"]);
    assert_eq!(split_and_trim("", ','), vec![""]);
    assert_eq!(split_and_trim("x\n", '\n'), vec!["x", ""]);
}

#[test]
fn decimals() {
    for n in [0u64, 7, 10, 1234567890, u64::MAX] {
        let mut s = String::from("n=");
        push_decimal(&mut s, n);
        assert_eq!(s, format!("n={n}"));
    }
}

#[test]
fn texts_and_characters() {
    assert_eq!(string_of(&chars_of("aé🦀")), "aé🦀");
    assert!(same_text("aé", "aé"));
    assert!(!same_text("aé", "ae"));
    assert!(!same_text("a", "ab"));
    assert_eq!(strip_prefix("group:ab", "group:"), Some("ab".to_string()));
    assert_eq!(strip_prefix("grou", "group:"), None);
    assert_eq!(strip_prefix("groups", "group:"), None);
}
