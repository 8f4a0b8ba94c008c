use assistant_core::frame::{
    normalize_error_frame, normalize_frame, split_first_frame, strip_data_marker,
    strip_event_name,
};
use assistant_core::text::{
    find_blank_line, is_whitespace, same_text, skip_chars, starts_with, strip_repeated,
    take_chars, trim_end_char, trim_start,
};

const SAMPLES: [&str; 30] = [
    "",
    " ",
    "\n",
    "\n\n",
    "data: {}",
    "data:{}",
    "data:  {}",
    "  data: {}",
    "\u{a0}\u{3000}\tdata: x",
    "event: ping",
    "event: ping\ndata: {\"type\": \"ping\"}",
    "event: pingevent: pingevent: ping\ndata: x",
    "event: pingevent: message_start\ndata: x",
    "event: message_startevent: ping\ndata: x",
    "event: message_stop\ndata: {\"type\":\"message_stop\"}",
    "event: message_stopevent: message_delta",
    "event: message_deltaevent: message_stop",
    "event: content_block_delta\ndata: {\"delta\":{\"text\":\"hi\"}}",
    "event: content_block_deltadata: x",
    "event: content_block_start\r\ndata: x",
    "event: content_block_stop\n\ndata: x",
    "event: error\ndata: {\"type\": \"error\"}",
    "event: errorevent: error data: y",
    "Event: ping\ndata: x",
    " event: ping\ndata: x",
    "data: data: x",
    "no marker at all",
    "  leading space kept",
    "\u{4f60}\u{597d} data: x",
    "event: ping\u{2028}data: \u{e9}",
];

fn std_normalize(chunk: &str) -> String {
    let processed = chunk
        .trim_start_matches("event: message_start")
        .trim_start_matches("event: content_block_start")
        .trim_start_matches("event: ping")
        .trim_start_matches("event: content_block_delta")
        .trim_start_matches("event: content_block_stop")
        .trim_start_matches("event: message_delta")
        .trim_start_matches("event: message_stop")
        .to_string();
    processed.trim_start().strip_prefix("data: ").unwrap_or(&processed).to_string()
}

fn std_normalize_error(cleaned: &str) -> String {
    let processed = cleaned.trim_start_matches("event: error").to_string();
    processed.trim_start().strip_prefix("data: ").unwrap_or(&processed).to_string()
}

#[test]
fn payload_is_what_the_standard_trims_give() {
    for sample in SAMPLES {
        assert_eq!(normalize_frame(sample), std_normalize(sample), "{:?}", sample);
    }
}

#[test]
fn error_payload_is_what_the_standard_trims_give() {
    for sample in SAMPLES {
        assert_eq!(normalize_error_frame(sample), std_normalize_error(sample), "{:?}", sample);
    }
}

#[test]
fn payload_of_a_delta_frame() {
    assert_eq!(
        normalize_frame("event: content_block_delta\ndata: {\"delta\":{\"text\":\"hi\"}}"),
        "{\"delta\":{\"text\":\"hi\"}}"
    );
}

#[test]
fn frame_without_marker_keeps_its_white_space() {
    assert_eq!(normalize_frame("  {\"type\":\"ping\"}"), "  {\"type\":\"ping\"}");
    assert_eq!(strip_data_marker("\n x"), "\n x");
}

#[test]
fn event_names_are_taken_off_in_order() {
    assert_eq!(strip_event_name("event: pingevent: message_start"), "event: message_start");
    assert_eq!(strip_event_name("event: message_startevent: ping"), "");
    assert_eq!(strip_event_name("event: error"), "event: error");
}

#[test]
fn error_payload_of_an_error_frame() {
    assert_eq!(
        normalize_error_frame("event: error\ndata: {\"type\": \"error\"}"),
        "{\"type\": \"error\"}"
    );
}

#[test]
fn white_space_is_what_the_standard_says() {
    for code in 0..=0x10ffffu32 {
        if let Some(c) = char::from_u32(code) {
            assert_eq!(is_whitespace(c), c.is_whitespace(), "U+{:04X}", code);
        }
    }
}

#[test]
fn trim_start_is_the_standard_trim() {
    for sample in SAMPLES {
        assert_eq!(trim_start(sample), sample.trim_start(), "{:?}", sample);
    }
    assert_eq!(trim_start(" \t\n\u{85}\u{2003}x y "), "x y ");
    assert_eq!(trim_start("\u{200b}x"), "\u{200b}x");
}

#[test]
fn strip_repeated_is_the_standard_trim() {
    for sample in SAMPLES {
        for pattern in ["event: ping", "event: error", "e", "data: ", "\n", ""] {
            assert_eq!(
                strip_repeated(sample, pattern),
                sample.trim_start_matches(pattern),
                "{:?} {:?}",
                sample,
                pattern
            );
        }
    }
    assert_eq!(strip_repeated("ababab-ab", "ab"), "-ab");
    assert_eq!(strip_repeated("aaa", "aa"), "a");
}

#[test]
fn trim_end_char_is_the_standard_trim() {
    for sample in ["", "/", "//", "a/", "a//", "/a", "a/b/", "https://x.y///", "\u{e9}/", "a"] {
        assert_eq!(trim_end_char(sample, '/'), sample.trim_end_matches('/'), "{:?}", sample);
    }
}

#[test]
fn starts_with_is_the_standard_test() {
    for sample in SAMPLES {
        for prefix in ["", "e", "event: ", "data: ", " ", "\u{4f60}", "event: ping\ndata: x!"] {
            assert_eq!(starts_with(sample, prefix), sample.starts_with(prefix));
        }
    }
}

#[test]
fn same_text_is_equality() {
    assert!(same_text("", ""));
    assert!(same_text("system", "system"));
    assert!(!same_text("system", "System"));
    assert!(!same_text("system", "system "));
    assert!(!same_text("a", ""));
}

#[test]
fn characters_are_counted_not_bytes() {
    assert_eq!(skip_chars("\u{e9}\u{4f60}x", 2), "x");
    assert_eq!(take_chars("\u{e9}\u{4f60}x", 2), "\u{e9}\u{4f60}");
    assert_eq!(skip_chars("abc", 3), "");
    assert_eq!(take_chars("abc", 0), "");
}

#[test]
fn blank_line_is_found_at_its_first_place() {
    assert_eq!(find_blank_line(""), None);
    assert_eq!(find_blank_line("\n"), None);
    assert_eq!(find_blank_line("a\nb\nc"), None);
    assert_eq!(find_blank_line("\n\n"), Some(0));
    assert_eq!(find_blank_line("ab\n\ncd\n\n"), Some(2));
    assert_eq!(find_blank_line("a\n\n\n"), Some(1));
    assert_eq!(find_blank_line("\u{4f60}\u{597d}\n\n"), Some(2));
    assert_eq!(find_blank_line("a\r\n\r\n"), None);
}

#[test]
fn first_frame_is_what_the_standard_search_gives() {
    for sample in ["", "a", "a\n", "a\n\n", "a\n\nb", "\n\n\n\n", "\u{e9}\n\n\u{4f60}\n\n", "x\n\n\n"] {
        let expected = sample.find("\n\n").map(|i| (&sample[..i], &sample[i + 2..]));
        assert_eq!(split_first_frame(sample), expected, "{:?}", sample);
    }
}
