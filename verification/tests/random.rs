use assistant_core::attachment::mime_of_path;
use assistant_core::config::parse_i32;
use assistant_core::decoder::StreamingDecoder;
use assistant_core::frame::{normalize_error_frame, normalize_frame};
use assistant_core::path::{extension_of, file_name_of, last_index_of};
use assistant_core::text::{find_blank_line, strip_repeated, trim_end_char, trim_start};
use assistant_core::wire::{DeltaEvent, DeltaKind};

struct Dice(u64);

impl Dice {
    fn roll(&mut self, sides: usize) -> usize {
        self.0 = self.0.wrapping_mul(6364136223846793005).wrapping_add(1442695040888963407);
        ((self.0 >> 33) as usize) % sides
    }
}

const PIECES: [&str; 24] = [
    "event: message_start",
    "event: content_block_start",
    "event: ping",
    "event: content_block_delta",
    "event: content_block_stop",
    "event: message_delta",
    "event: message_stop",
    "event: error",
    "event: ",
    "data: ",
    "data:",
    "\n",
    "\n\n",
    " ",
    "\t",
    "\r\n",
    "\u{a0}",
    "\u{2003}",
    "{\"type\":\"x\"}",
    "e",
    "\u{4f60}",
    "/",
    "-",
    "7",
];

fn text(dice: &mut Dice, pieces: usize) -> String {
    let n = dice.roll(pieces);
    (0..n).map(|_| PIECES[dice.roll(PIECES.len())]).collect()
}

fn std_normalize(chunk: &str) -> String {
    let processed = chunk
        .trim_start_matches("event: message_start")
        .trim_start_matches("event: content_block_start")
        .trim_start_matches("event: ping")
        .trim_start_matches("event: content_block_delta")
        .trim_start_matches("event: content_block_stop")
        .trim_start_matches("event: message_delta")
        .trim_start_matches("event: message_stop")
        .to_string();
    processed.trim_start().strip_prefix("data: ").unwrap_or(&processed).to_string()
}

fn std_normalize_error(cleaned: &str) -> String {
    let processed = cleaned.trim_start_matches("event: error").to_string();
    processed.trim_start().strip_prefix("data: ").unwrap_or(&processed).to_string()
}

#[test]
fn random_frames_are_normalized_as_the_standard_trims_do() {
    let mut dice = Dice(1);
    for _ in 0..3000 {
        let sample = text(&mut dice, 7);
        assert_eq!(normalize_frame(&sample), std_normalize(&sample), "{:?}", sample);
        assert_eq!(normalize_error_frame(&sample), std_normalize_error(&sample), "{:?}", sample);
    }
}

#[test]
fn random_texts_are_trimmed_as_the_standard_trims_do() {
    let mut dice = Dice(2);
    for _ in 0..3000 {
        let sample = text(&mut dice, 6);
        let pattern = PIECES[dice.roll(PIECES.len())];
        assert_eq!(trim_start(&sample), sample.trim_start(), "{:?}", sample);
        assert_eq!(
            strip_repeated(&sample, pattern),
            sample.trim_start_matches(pattern),
            "{:?} {:?}",
            sample,
            pattern
        );
        assert_eq!(trim_end_char(&sample, '/'), sample.trim_end_matches('/'), "{:?}", sample);
        assert_eq!(trim_end_char(&sample, '\n'), sample.trim_end_matches('\n'), "{:?}", sample);
        let expected = sample.find("\n\n").map(|at| sample[..at].chars().count());
        assert_eq!(find_blank_line(&sample), expected, "{:?}", sample);
    }
}

#[test]
fn random_numbers_are_read_as_the_standard_reads_them() {
    let mut dice = Dice(3);
    let digits = ["0", "1", "2", "4", "7", "8", "9", "+", "-", " ", "a", "."];
    for _ in 0..5000 {
        let n = dice.roll(13);
        let sample: String = (0..n).map(|_| digits[dice.roll(digits.len())]).collect();
        assert_eq!(parse_i32(&sample), sample.parse::<i32>().ok(), "{:?}", sample);
    }
    for value in [0i64, 1, -1, 2147483646, 2147483647, 2147483648, -2147483647, -2147483648, -2147483649] {
        let sample = value.to_string();
        assert_eq!(parse_i32(&sample), sample.parse::<i32>().ok(), "{:?}", sample);
    }
}

fn event_of(payload: &str) -> DeltaEvent {
    if let Some(fragment) = payload.strip_prefix("+") {
        DeltaEvent { kind: DeltaKind::TextFragment, text: Some(fragment.to_string()), raw: None }
    } else if payload == "stop" {
        DeltaEvent { kind: DeltaKind::Terminal, text: None, raw: None }
    } else if payload.starts_with("!") {
        DeltaEvent { kind: DeltaKind::ErrorFrame, text: None, raw: Some(payload.to_string()) }
    } else {
        DeltaEvent::unrecognized(payload)
    }
}

type Update = (i64, String, bool);

/// Frame by frame, with the search and the trims of the standard library.
fn reference(transcript: &str) -> Vec<Update> {
    let mut buffer = transcript.to_string();
    let mut full_text = String::new();
    let mut updates = Vec::new();
    while let Some(index) = buffer.find("\n\n") {
        let chunk = buffer[..index].to_string();
        buffer.drain(..=index + 1);
        let event = event_of(&std_normalize(&chunk));
        match event.kind {
            DeltaKind::TextFragment => {
                if let Some(fragment) = event.text {
                    full_text.push_str(&fragment);
                    updates.push((3, full_text.clone(), false));
                }
            }
            DeltaKind::Terminal => {
                updates.push((3, full_text.clone(), true));
                return updates;
            }
            _ => {}
        }
    }
    updates.push((3, full_text, true));
    updates
}

fn decoded(chunks: &[String], batches: bool) -> Vec<Update> {
    let mut decoder = StreamingDecoder::new(3);
    let mut updates = Vec::new();
    for chunk in chunks {
        decoder.push_chunk(chunk);
        if batches {
            let events: Vec<DeltaEvent> =
                decoder.take_frames().iter().map(|p| event_of(p)).collect();
            for u in decoder.apply_all(&events) {
                updates.push((u.message_id, u.cumulative_text, u.is_final));
            }
        } else {
            while let Some(payload) = decoder.next_frame() {
                if let Some(u) = decoder.apply(&event_of(&payload)) {
                    updates.push((u.message_id, u.cumulative_text, u.is_final));
                }
            }
        }
    }
    if let Some(u) = decoder.finish() {
        updates.push((u.message_id, u.cumulative_text, u.is_final));
    }
    updates
}

#[test]
fn random_streams_in_random_chunks_give_the_updates_of_the_whole() {
    let mut dice = Dice(4);
    let frames = [
        "event: content_block_delta\ndata: +a",
        "data: +\u{4f60}\u{597d} ",
        "data: +",
        "+b\n",
        "event: ping\ndata: ping",
        "event: error\ndata: !overloaded",
        "{broken",
        "",
        "\n",
        "event: message_stop\ndata: stop",
    ];
    for round in 0..400 {
        let count = dice.roll(8);
        let mut transcript = String::new();
        for _ in 0..count {
            let pick = if dice.roll(4) == 0 { frames.len() } else { frames.len() - 1 };
            transcript.push_str(frames[dice.roll(pick)]);
            transcript.push_str("\n\n");
        }
        if dice.roll(3) == 0 {
            transcript.push_str("data: +unfinished");
        }
        let expected = reference(&transcript);
        let characters: Vec<char> = transcript.chars().collect();
        let mut chunks = Vec::new();
        let mut at = 0;
        while at < characters.len() {
            let len = 1 + dice.roll(9);
            let end = (at + len).min(characters.len());
            chunks.push(characters[at..end].iter().collect::<String>());
            at = end;
        }
        assert_eq!(decoded(&chunks, false), expected, "round {} {:?}", round, transcript);
        assert_eq!(decoded(&chunks, true), expected, "round {} {:?}", round, transcript);
        assert_eq!(decoded(&[transcript.clone()], true), expected, "round {}", round);
        let finals = expected.iter().filter(|u| u.2).count();
        assert_eq!(finals, 1);
        assert!(expected.last().unwrap().2);
    }
}

fn std_extension(path: &str) -> Option<&str> {
    std::path::Path::new(path).extension().and_then(|e| e.to_str())
}

fn std_file_name(path: &str) -> Option<&str> {
    std::path::Path::new(path).file_name().and_then(|e| e.to_str())
}

fn table_mime(path: &str) -> String {
    mime_guess::from_path(path).first_or_octet_stream().to_string()
}

#[test]
fn random_paths_have_the_extension_that_the_standard_finds() {
    let mut dice = Dice(5);
    let pieces = [
        "/", "/", ".", ".", "..", "a", "b", "png", "txt", "PNG", "jpeg", "\\", " ", "\u{e9}",
        "tar.gz", "x",
    ];
    for _ in 0..20000 {
        let n = dice.roll(9);
        let path: String = (0..n).map(|_| pieces[dice.roll(pieces.len())]).collect();
        assert_eq!(file_name_of(&path), std_file_name(&path), "{:?}", path);
        assert_eq!(extension_of(&path), std_extension(&path), "{:?}", path);
        assert_eq!(mime_of_path(&path), table_mime(&path), "{:?}", path);
        assert_eq!(last_index_of(&path, '.'), path.rfind('.').map(|at| path[..at].chars().count()));
    }
}

#[test]
fn chosen_paths_have_the_extension_that_the_standard_finds() {
    let paths = [
        "", ".", "..", "/", "//", "./", "../", "a", "a.", ".a", "..a", "a..", "...", "a.b", "a.b.c",
        "a/b.png", "a.d/b", "a.d/b.", "a.d/.b", "a.d/..", "a.png/.", "a.png/./", "a.png//", "a.png/..",
        "/a.txt", "./a.txt", "../a.txt", "a.txt/.//./", "dir\\.png", "dir\\a.png", "C:\\x.y\\z",
        "a .png", "a.png ", "a.p ng", "\u{4f60}.\u{597d}", "a/./b.gif", "a/../b.webp", ".hidden.txt",
        "/.", "/..", "/./.", "./.", "a/.b/", "a./", "a.b./",
    ];
    for path in paths {
        assert_eq!(file_name_of(path), std_file_name(path), "{:?}", path);
        assert_eq!(extension_of(path), std_extension(path), "{:?}", path);
        assert_eq!(mime_of_path(path), table_mime(path), "{:?}", path);
    }
    assert_eq!(extension_of("archive.tar.gz"), Some("gz"));
    assert_eq!(extension_of("photo.png/."), Some("png"));
    assert_eq!(extension_of(".profile"), None);
    assert_eq!(extension_of("name."), Some(""));
    assert_eq!(file_name_of("/usr/bin/"), Some("bin"));
    assert_eq!(file_name_of("foo.txt/.."), None);
}
