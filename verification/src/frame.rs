//! Frames of an event stream: text up to a blank line, and the payload that
//! is left of a frame once its event name and its data marker are taken off.

use crate::text::{
    blank_line_at, find_blank_line, no_blank_line_before, skip_chars, starts_with, strip_repeated,
    take_chars, trim_start, without_leading, without_leading_space,
};
use vstd::prelude::*;
use vstd::string::*;

verus! {

broadcast use vstd::string::group_string_axioms;

/// `s` holds a blank line, and so at least one complete frame.
pub open spec fn has_frame(s: Seq<char>) -> bool {
    exists|i: int| blank_line_at(s, i)
}

/// Length of the first frame of `s`: the position of its first blank line.
pub open spec fn first_frame_len(s: Seq<char>) -> int {
    choose|i: int| blank_line_at(s, i) && no_blank_line_before(s, i)
}

/// The first blank line of a sequence is where one stands with none before it.
pub proof fn lemma_first_frame(s: Seq<char>, i: int)
    requires
        blank_line_at(s, i),
        no_blank_line_before(s, i),
    ensures
        has_frame(s),
        first_frame_len(s) == i,
{
    let k = first_frame_len(s);
    assert(blank_line_at(s, k) && no_blank_line_before(s, k));
    if k < i {
        assert(!blank_line_at(s, k));
    }
    if i < k {
        assert(!blank_line_at(s, i));
    }
}

/// A sequence with a blank line has a first one.
pub proof fn lemma_has_first_frame(s: Seq<char>)
    requires
        has_frame(s),
    ensures
        blank_line_at(s, first_frame_len(s)),
        no_blank_line_before(s, first_frame_len(s)),
        0 <= first_frame_len(s) <= s.len() - 2,
{
    let w = choose|i: int| blank_line_at(s, i);
    lemma_least_blank_line(s, w);
}

proof fn lemma_least_blank_line(s: Seq<char>, w: int)
    requires
        blank_line_at(s, w),
    ensures
        exists|i: int| blank_line_at(s, i) && no_blank_line_before(s, i),
    decreases w,
{
    if no_blank_line_before(s, w) {
    } else {
        let j = choose|j: int| 0 <= j < w && blank_line_at(s, j);
        lemma_least_blank_line(s, j);
    }
}

/// The complete frames of `s`, in order: each is the text before a blank
/// line, and the search goes on behind that blank line. (The bound on the
/// frame's length holds wherever there is a frame: see
/// `lemma_has_first_frame`. It is written out to make the recursion end.)
pub open spec fn complete_frames(s: Seq<char>) -> Seq<Seq<char>>
    decreases s.len(),
{
    if has_frame(s) && 0 <= first_frame_len(s) <= s.len() - 2 {
        seq![s.take(first_frame_len(s))] + complete_frames(s.skip(first_frame_len(s) + 2))
    } else {
        Seq::empty()
    }
}

/// What is left of `s` behind its last complete frame: the beginning of a
/// frame whose end has not been seen.
pub open spec fn pending(s: Seq<char>) -> Seq<char>
    decreases s.len(),
{
    if has_frame(s) && 0 <= first_frame_len(s) <= s.len() - 2 {
        pending(s.skip(first_frame_len(s) + 2))
    } else {
        s
    }
}

/// `frame` without the event names in front of its data: each known name
/// is taken off as often as it stands there, one name after the other in
/// this order.
pub open spec fn without_event_name(frame: Seq<char>) -> Seq<char> {
    let a = without_leading(frame, "event: message_start"@);
    let b = without_leading(a, "event: content_block_start"@);
    let c = without_leading(b, "event: ping"@);
    let d = without_leading(c, "event: content_block_delta"@);
    let e = without_leading(d, "event: content_block_stop"@);
    let f = without_leading(e, "event: message_delta"@);
    without_leading(f, "event: message_stop"@)
}

/// `s` without the data marker: where `s`, white space aside, begins with
/// `data: `, what follows the marker; else `s` as it is, white space included.
pub open spec fn without_data_marker(s: Seq<char>) -> Seq<char> {
    let trimmed = without_leading_space(s);
    if "data: "@.is_prefix_of(trimmed) {
        trimmed.skip("data: "@.len() as int)
    } else {
        s
    }
}

/// The payload of a frame: the frame without event name and data marker.
pub open spec fn payload_of(frame: Seq<char>) -> Seq<char> {
    without_data_marker(without_event_name(frame))
}

/// The payload of a frame that may report a provider error: a payload
/// without the error event's name and without a second data marker.
pub open spec fn error_payload_of(payload: Seq<char>) -> Seq<char> {
    without_data_marker(without_leading(payload, "event: error"@))
}

/// Splits `buffer` at its first blank line into the frame before it and the
/// text behind it; `None` where `buffer` holds no complete frame.
pub fn split_first_frame<'a>(buffer: &'a str) -> (parts: Option<(&'a str, &'a str)>)
    ensures
        parts is Some <==> has_frame(buffer@),
        parts matches Some((frame, rest)) ==> {
            &&& 0 <= first_frame_len(buffer@) <= buffer@.len() - 2
            &&& frame@ == buffer@.take(first_frame_len(buffer@))
            &&& rest@ == buffer@.skip(first_frame_len(buffer@) + 2)
        },
{
    match find_blank_line(buffer) {
        None => {
            assert(!has_frame(buffer@)) by {
                if has_frame(buffer@) {
                    let i = choose|i: int| blank_line_at(buffer@, i);
                    assert(!blank_line_at(buffer@, i));
                }
            }
            None
        },
        Some(i) => {
            proof {
                lemma_first_frame(buffer@, i as int);
            }
            let len: usize = buffer.unicode_len();
            let rest = buffer.substring_char(i + 2, len);
            Some((take_chars(buffer, i), rest))
        },
    }
}

/// Takes the known event names off the front of a frame.
pub fn strip_event_name<'a>(frame: &'a str) -> (rest: &'a str)
    ensures
        rest@ == without_event_name(frame@),
{
    let a = strip_repeated(frame, "event: message_start");
    let b = strip_repeated(a, "event: content_block_start");
    let c = strip_repeated(b, "event: ping");
    let d = strip_repeated(c, "event: content_block_delta");
    let e = strip_repeated(d, "event: content_block_stop");
    let f = strip_repeated(e, "event: message_delta");
    strip_repeated(f, "event: message_stop")
}

/// Takes the data marker off `s`, if `s` begins with it behind white space.
pub fn strip_data_marker<'a>(s: &'a str) -> (rest: &'a str)
    ensures
        rest@ == without_data_marker(s@),
{
    let trimmed = trim_start(s);
    if starts_with(trimmed, "data: ") {
        proof {
            reveal_strlit("data: ");
        }
        skip_chars(trimmed, 6)
    } else {
        s
    }
}

/// The payload of a frame.
pub fn normalize_frame<'a>(frame: &'a str) -> (payload: &'a str)
    ensures
        payload@ == payload_of(frame@),
{
    strip_data_marker(strip_event_name(frame))
}

/// The payload to try as a provider error, for a payload that did not
/// decode as a delta.
pub fn normalize_error_frame<'a>(payload: &'a str) -> (rest: &'a str)
    ensures
        rest@ == error_payload_of(payload@),
{
    strip_data_marker(strip_repeated(payload, "event: error"))
}

/// A frame as a sender writes it: it holds no blank line and does not end
/// in a line feed, so that the blank line behind it is the first.
pub open spec fn is_plain_frame(frame: Seq<char>) -> bool {
    no_blank_line_before(frame, frame.len() as int) && (frame.len() > 0 ==> frame.last() != '\n')
}

/// The text of a stream of `frames`: each frame with a blank line behind it.
pub open spec fn joined(frames: Seq<Seq<char>>) -> Seq<char>
    decreases frames.len(),
{
    if frames.len() == 0 {
        Seq::empty()
    } else {
        frames.first() + seq!['\n', '\n'] + joined(frames.drop_first())
    }
}

/// A plain frame with a blank line behind it is the first frame of what it
/// stands in front of.
pub proof fn lemma_frame_in_front(frame: Seq<char>, rest: Seq<char>)
    requires
        is_plain_frame(frame),
    ensures
        has_frame(frame + seq!['\n', '\n'] + rest),
        first_frame_len(frame + seq!['\n', '\n'] + rest) == frame.len(),
        (frame + seq!['\n', '\n'] + rest).take(frame.len() as int) == frame,
        (frame + seq!['\n', '\n'] + rest).skip(frame.len() as int + 2) == rest,
{
    let text = frame + seq!['\n', '\n'] + rest;
    let n = frame.len() as int;
    assert(text[n] == '\n' && text[n + 1] == '\n');
    assert forall|j: int| 0 <= j < n implies !blank_line_at(text, j) by {
        if blank_line_at(text, j) {
            if j + 1 < n {
                assert(text[j] == frame[j] && text[j + 1] == frame[j + 1]);
                assert(blank_line_at(frame, j));
            } else {
                assert(text[j] == frame.last());
            }
        }
    }
    lemma_first_frame(text, n);
    assert(text.take(n) =~= frame);
    assert(text.skip(n + 2) =~= rest);
}

/// The frames of a text with a plain frame in front: that frame, and the
/// frames of what stands behind its blank line.
pub proof fn lemma_frames_behind(frame: Seq<char>, rest: Seq<char>)
    requires
        is_plain_frame(frame),
    ensures
        complete_frames(frame + seq!['\n', '\n'] + rest) == seq![frame] + complete_frames(rest),
        pending(frame + seq!['\n', '\n'] + rest) == pending(rest),
{
    lemma_frame_in_front(frame, rest);
}

/// A sequence is its first element and the others.
proof fn lemma_first_and_rest(frames: Seq<Seq<char>>)
    requires
        frames.len() > 0,
    ensures
        seq![frames.first()] + frames.drop_first() == frames,
{
    assert(seq![frames.first()] + frames.drop_first() =~= frames);
}

/// Frames are read as they were written: the text of a stream of plain
/// frames, with the beginning `tail` of a further frame behind it, holds
/// exactly those frames, and `tail` is left pending.
pub proof fn law_frames_are_read_as_written(frames: Seq<Seq<char>>, tail: Seq<char>)
    requires
        forall|i: int| 0 <= i < frames.len() ==> is_plain_frame(#[trigger] frames[i]),
        !has_frame(tail),
    ensures
        complete_frames(joined(frames) + tail) == frames,
        pending(joined(frames) + tail) == tail,
    decreases frames.len(),
{
    if frames.len() == 0 {
        assert(joined(frames) + tail =~= tail);
        assert(frames =~= Seq::<Seq<char>>::empty());
    } else {
        let first = frames.first();
        let others = frames.drop_first();
        let rest = joined(others) + tail;
        assert(joined(frames) + tail =~= first + seq!['\n', '\n'] + rest);
        assert(is_plain_frame(first));
        assert forall|i: int| 0 <= i < others.len() implies is_plain_frame(
            #[trigger] others[i],
        ) by {
            assert(others[i] == frames[i + 1]);
        }
        lemma_frames_behind(first, rest);
        law_frames_are_read_as_written(others, tail);
        lemma_first_and_rest(frames);
    }
}

} // verus!
