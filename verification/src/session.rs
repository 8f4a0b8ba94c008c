//! A whole decoding session, as the caller drives it: chunks are pushed,
//! every complete frame is taken out, decoded and applied, and the stream is
//! closed at its end. The laws of the decoder are stated over this model.

use crate::assembler::{law_valid_stream_is_assembled, lemma_texts_in_a_row, texts_of};
use crate::decoder::{DecoderState, StreamUpdate, StreamingDecoder, UpdateView};
use crate::frame::{
    complete_frames, first_frame_len, has_frame, is_plain_frame, joined,
    law_frames_are_read_as_written, lemma_first_frame, lemma_has_first_frame, payload_of, pending,
};
use crate::text::blank_line_at;
use crate::wire::{DeltaEvent, DeltaKind, EventView};
use vstd::prelude::*;
use vstd::utf8::{decode_utf8, valid_utf8};

verus! {

/// Where a run of the decoder ended, and the updates it gave, in order.
#[verifier::ext_equal]
pub struct Run {
    pub state: DecoderState,
    pub updates: Seq<UpdateView>,
}

/// An optional update as a sequence of none or one.
pub open spec fn emitted(update: Option<UpdateView>) -> Seq<UpdateView> {
    match update {
        Some(u) => seq![u],
        None => Seq::empty(),
    }
}

/// Applies `events` in order.
#[verifier::opaque]
pub open spec fn run_events(state: DecoderState, events: Seq<EventView>) -> Run
    decreases events.len(),
{
    if events.len() == 0 {
        Run { state, updates: Seq::empty() }
    } else {
        let rest = run_events(state.apply(events.first()), events.drop_first());
        Run { state: rest.state, updates: emitted(state.update_for(events.first())) + rest.updates }
    }
}

/// Takes out, decodes and applies every frame that is waiting.
#[verifier::opaque]
pub open spec fn drain(state: DecoderState, decode: spec_fn(Seq<char>) -> EventView) -> Run
    decreases state.buffer.len(),
{
    if state.frame_ready() && 0 <= first_frame_len(state.buffer) <= state.buffer.len() - 2 {
        let event = decode(state.next_payload());
        let taken = state.after_frame();
        let rest = drain(taken.apply(event), decode);
        Run { state: rest.state, updates: emitted(taken.update_for(event)) + rest.updates }
    } else {
        Run { state, updates: Seq::empty() }
    }
}

/// Receives one chunk and handles every frame that it completes.
pub open spec fn feed(
    state: DecoderState,
    chunk: Seq<char>,
    decode: spec_fn(Seq<char>) -> EventView,
) -> Run {
    drain(state.push(chunk), decode)
}

/// Receives `chunks` one after the other.
pub open spec fn feed_all(
    state: DecoderState,
    chunks: Seq<Seq<char>>,
    decode: spec_fn(Seq<char>) -> EventView,
) -> Run
    decreases chunks.len(),
{
    if chunks.len() == 0 {
        Run { state, updates: Seq::empty() }
    } else {
        let first = feed(state, chunks.first(), decode);
        let rest = feed_all(first.state, chunks.drop_first(), decode);
        Run { state: rest.state, updates: first.updates + rest.updates }
    }
}

/// The updates of a whole stream: those of its chunks, and the one that
/// closes the stream at its end where the terminal marker did not.
pub open spec fn stream_updates(
    message_id: i64,
    chunks: Seq<Seq<char>>,
    decode: spec_fn(Seq<char>) -> EventView,
) -> Seq<UpdateView> {
    let run = feed_all(DecoderState::start(message_id), chunks, decode);
    run.updates + emitted(run.state.update_on_close())
}

/// The events that `frames` decode to, frame by frame.
pub open spec fn events_of_frames(
    frames: Seq<Seq<char>>,
    decode: spec_fn(Seq<char>) -> EventView,
) -> Seq<EventView> {
    frames.map_values(|frame: Seq<char>| decode(payload_of(frame)))
}

/// The events that the complete frames of `text` decode to.
pub open spec fn events_of(text: Seq<char>, decode: spec_fn(Seq<char>) -> EventView) -> Seq<
    EventView,
> {
    events_of_frames(complete_frames(text), decode)
}

/// The reply that `events` spell: their fragments in order, up to the
/// terminal marker.
pub open spec fn reply_of(events: Seq<EventView>) -> Seq<char>
    decreases events.len(),
{
    if events.len() == 0 || events.first().kind == DeltaKind::Terminal {
        Seq::empty()
    } else {
        match events.first().fragment() {
            Some(fragment) => fragment + reply_of(events.drop_first()),
            None => reply_of(events.drop_first()),
        }
    }
}

/// Whether the terminal marker is among `events`.
pub open spec fn has_terminal(events: Seq<EventView>) -> bool {
    exists|i: int| 0 <= i < events.len() && (#[trigger] events[i]).kind == DeltaKind::Terminal
}

/// Two states that differ at most in what they have buffered.
pub open spec fn same_reply(a: DecoderState, b: DecoderState) -> bool {
    a.message_id == b.message_id && a.text == b.text && a.finished == b.finished
}

proof fn lemma_first_frame_extends(a: Seq<char>, b: Seq<char>)
    requires
        has_frame(a),
    ensures
        has_frame(a + b),
        0 <= first_frame_len(a) <= a.len() - 2,
        first_frame_len(a + b) == first_frame_len(a),
        (a + b).take(first_frame_len(a)) == a.take(first_frame_len(a)),
        (a + b).skip(first_frame_len(a) + 2) == a.skip(first_frame_len(a) + 2) + b,
{
    lemma_has_first_frame(a);
    let i = first_frame_len(a);
    assert(blank_line_at(a + b, i));
    assert forall|j: int| 0 <= j < i implies !blank_line_at(a + b, j) by {
        if blank_line_at(a + b, j) {
            assert(blank_line_at(a, j));
        }
    }
    lemma_first_frame(a + b, i);
    assert((a + b).take(i) =~= a.take(i));
    assert((a + b).skip(i + 2) =~= a.skip(i + 2) + b);
}

/// The state after the waiting frame was taken out, decoded and applied.
#[verifier::opaque]
pub open spec fn after_step(state: DecoderState, decode: spec_fn(Seq<char>) -> EventView)
    -> DecoderState {
    state.after_frame().apply(decode(state.next_payload()))
}

/// The update that the waiting frame gives rise to.
#[verifier::opaque]
pub open spec fn step_update(state: DecoderState, decode: spec_fn(Seq<char>) -> EventView)
    -> Seq<UpdateView> {
    emitted(state.after_frame().update_for(decode(state.next_payload())))
}

/// With a frame waiting, a drain handles it and drains what follows.
pub proof fn lemma_drain_step(state: DecoderState, decode: spec_fn(Seq<char>) -> EventView)
    requires
        state.frame_ready(),
    ensures
        drain(state, decode).state == drain(after_step(state, decode), decode).state,
        drain(state, decode).updates == step_update(state, decode) + drain(
            after_step(state, decode),
            decode,
        ).updates,
        after_step(state, decode).buffer.len() < state.buffer.len(),
{
    lemma_has_first_frame(state.buffer);
    reveal(after_step);
    reveal(step_update);
    reveal_with_fuel(drain, 2);
}

/// With no frame waiting, a drain does nothing.
pub proof fn lemma_drain_idle(state: DecoderState, decode: spec_fn(Seq<char>) -> EventView)
    requires
        !state.frame_ready(),
    ensures
        drain(state, decode) == (Run { state, updates: Seq::empty() }),
{
    reveal_with_fuel(drain, 1);
}

/// After a drain no frame is waiting.
pub proof fn lemma_drain_settles(state: DecoderState, decode: spec_fn(Seq<char>) -> EventView)
    ensures
        !drain(state, decode).state.frame_ready(),
    decreases state.buffer.len(),
{
    if state.frame_ready() {
        lemma_drain_step(state, decode);
        lemma_drain_settles(after_step(state, decode), decode);
    } else {
        lemma_drain_idle(state, decode);
    }
}

/// To receive a chunk and then apply an event is to apply the event and
/// then receive the chunk.
proof fn lemma_push_then_apply(state: DecoderState, chunk: Seq<char>, event: EventView)
    ensures
        state.push(chunk).apply(event) == state.apply(event).push(chunk),
        state.push(chunk).update_for(event) == state.update_for(event),
{
    assert(state.push(chunk).apply(event) =~= state.apply(event).push(chunk));
}

/// With a frame waiting, the frame is the same after a chunk was received,
/// and the chunk stands behind what the frame leaves.
proof fn lemma_frame_before_chunk(state: DecoderState, chunk: Seq<char>)
    requires
        state.frame_ready(),
    ensures
        state.push(chunk).frame_ready(),
        state.push(chunk).next_payload() == state.next_payload(),
        state.push(chunk).after_frame() == state.after_frame().push(chunk),
{
    lemma_first_frame_extends(state.buffer, chunk);
    assert(state.push(chunk).after_frame() =~= state.after_frame().push(chunk));
}

/// Taking a frame out commutes with receiving a chunk behind it.
proof fn lemma_frame_then_chunk(
    state: DecoderState,
    chunk: Seq<char>,
    decode: spec_fn(Seq<char>) -> EventView,
)
    requires
        state.frame_ready(),
    ensures
        state.push(chunk).frame_ready(),
        after_step(state.push(chunk), decode) == after_step(state, decode).push(chunk),
        step_update(state.push(chunk), decode) == step_update(state, decode),
{
    reveal(after_step);
    reveal(step_update);
    lemma_frame_before_chunk(state, chunk);
    lemma_push_then_apply(state.after_frame(), chunk, decode(state.next_payload()));
}

/// To drain, receive a chunk and drain again gives what receiving the chunk
/// first and draining once gives.
pub proof fn lemma_drain_then_feed(
    state: DecoderState,
    chunk: Seq<char>,
    decode: spec_fn(Seq<char>) -> EventView,
)
    ensures
        feed(drain(state, decode).state, chunk, decode).state == feed(state, chunk, decode).state,
        drain(state, decode).updates + feed(drain(state, decode).state, chunk, decode).updates
            == feed(state, chunk, decode).updates,
    decreases state.buffer.len(),
{
    if state.frame_ready() {
        let next = after_step(state, decode);
        let head = step_update(state, decode);
        lemma_drain_step(state, decode);
        lemma_frame_then_chunk(state, chunk, decode);
        lemma_drain_step(state.push(chunk), decode);
        lemma_drain_then_feed(next, chunk, decode);
        let inner = drain(next, decode);
        let behind = feed(inner.state, chunk, decode).updates;
        assert((head + inner.updates) + behind =~= head + (inner.updates + behind));
    } else {
        lemma_drain_idle(state, decode);
        assert(Seq::<UpdateView>::empty() + feed(state, chunk, decode).updates =~= feed(
            state,
            chunk,
            decode,
        ).updates);
    }
}

/// Receiving nothing changes nothing.
proof fn lemma_feed_nothing(state: DecoderState, decode: spec_fn(Seq<char>) -> EventView)
    requires
        !state.frame_ready(),
    ensures
        feed(state, Seq::empty(), decode) == (Run { state, updates: Seq::empty() }),
{
    assert(state.push(Seq::empty()) =~= state);
    lemma_drain_idle(state, decode);
}

/// Receiving two chunks in a row is receiving them joined.
proof fn lemma_push_twice(state: DecoderState, a: Seq<char>, b: Seq<char>)
    ensures
        state.push(a).push(b) == state.push(a + b),
{
    assert(state.push(a).push(b) =~= state.push(a + b));
}

/// Chunk boundaries are invisible: a stream received in pieces gives the
/// updates, and leaves the decoder in the state, that the same text gives
/// when received in one piece.
pub proof fn law_chunking_is_invisible(
    state: DecoderState,
    chunks: Seq<Seq<char>>,
    decode: spec_fn(Seq<char>) -> EventView,
)
    requires
        !state.frame_ready(),
    ensures
        feed_all(state, chunks, decode) == feed(state, chunks.flatten(), decode),
    decreases chunks.len(),
{
    if chunks.len() == 0 {
        lemma_feed_nothing(state, decode);
    } else {
        let received = state.push(chunks.first());
        let first = drain(received, decode);
        let tail = chunks.drop_first().flatten();
        lemma_drain_settles(received, decode);
        law_chunking_is_invisible(first.state, chunks.drop_first(), decode);
        lemma_drain_then_feed(received, tail, decode);
        lemma_push_twice(state, chunks.first(), tail);
        assert(chunks.flatten() == chunks.first() + tail);
    }
}

/// Applying no events changes nothing.
pub proof fn lemma_run_none(state: DecoderState, events: Seq<EventView>)
    requires
        events.len() == 0,
    ensures
        run_events(state, events) == (Run { state, updates: Seq::empty() }),
{
    reveal_with_fuel(run_events, 1);
}

/// Applying events is applying the first and then the others.
pub proof fn lemma_run_first(state: DecoderState, events: Seq<EventView>)
    requires
        events.len() > 0,
    ensures
        run_events(state, events).state == run_events(
            state.apply(events.first()),
            events.drop_first(),
        ).state,
        run_events(state, events).updates == emitted(state.update_for(events.first()))
            + run_events(state.apply(events.first()), events.drop_first()).updates,
{
    reveal_with_fuel(run_events, 2);
}

/// A closed decoder gives no update and stays as it is, whatever the events.
pub proof fn lemma_run_closed(state: DecoderState, events: Seq<EventView>)
    requires
        state.finished,
    ensures
        run_events(state, events) == (Run { state, updates: Seq::empty() }),
    decreases events.len(),
{
    if events.len() == 0 {
        lemma_run_none(state, events);
    } else {
        lemma_run_first(state, events);
        lemma_run_closed(state, events.drop_first());
        assert(emitted(state.update_for(events.first())) + Seq::<UpdateView>::empty()
            =~= Seq::<UpdateView>::empty());
    }
}

/// A closed decoder gives no update and stays as it is, whatever is received.
pub proof fn lemma_feed_closed(
    state: DecoderState,
    chunks: Seq<Seq<char>>,
    decode: spec_fn(Seq<char>) -> EventView,
)
    requires
        state.finished,
    ensures
        feed_all(state, chunks, decode) == (Run { state, updates: Seq::empty() }),
    decreases chunks.len(),
{
    if chunks.len() > 0 {
        lemma_drain_idle(state, decode);
        lemma_feed_closed(state, chunks.drop_first(), decode);
        assert(Seq::<UpdateView>::empty() + Seq::<UpdateView>::empty() =~= Seq::<
            UpdateView,
        >::empty());
    }
}

/// What is buffered has no part in what events do.
pub proof fn lemma_run_ignores_buffer(a: DecoderState, b: DecoderState, events: Seq<EventView>)
    requires
        same_reply(a, b),
    ensures
        run_events(a, events).updates == run_events(b, events).updates,
        same_reply(run_events(a, events).state, run_events(b, events).state),
    decreases events.len(),
{
    if events.len() == 0 {
        lemma_run_none(a, events);
        lemma_run_none(b, events);
    } else {
        lemma_run_first(a, events);
        lemma_run_first(b, events);
        lemma_run_ignores_buffer(
            a.apply(events.first()),
            b.apply(events.first()),
            events.drop_first(),
        );
    }
}

/// The events of a text with a complete frame: that of its first frame,
/// and those of the text behind it.
proof fn lemma_events_first(text: Seq<char>, decode: spec_fn(Seq<char>) -> EventView)
    requires
        has_frame(text),
    ensures
        0 <= first_frame_len(text) <= text.len() - 2,
        events_of(text, decode).len() > 0,
        events_of(text, decode).first() == decode(payload_of(text.take(first_frame_len(text)))),
        events_of(text, decode).drop_first() == events_of(
            text.skip(first_frame_len(text) + 2),
            decode,
        ),
{
    lemma_has_first_frame(text);
    let i = first_frame_len(text);
    let rest = complete_frames(text.skip(i + 2));
    assert(complete_frames(text) == seq![text.take(i)] + rest);
    assert(events_of(text, decode).drop_first() =~= events_of(text.skip(i + 2), decode)) by {
        assert forall|k: int| 0 <= k < rest.len() implies (#[trigger] events_of(
            text,
            decode,
        ).drop_first()[k]) == events_of(text.skip(i + 2), decode)[k] by {
            assert(complete_frames(text)[k + 1] == rest[k]);
        }
    }
}

/// The frames decide the updates: to drain a buffer is to apply, in order,
/// the events that its complete frames decode to.
pub proof fn law_drain_follows_frames(
    state: DecoderState,
    decode: spec_fn(Seq<char>) -> EventView,
)
    requires
        !state.finished,
    ensures
        drain(state, decode).updates == run_events(
            state,
            events_of(state.buffer, decode),
        ).updates,
        same_reply(
            drain(state, decode).state,
            run_events(state, events_of(state.buffer, decode)).state,
        ),
    decreases state.buffer.len(),
{
    let events = events_of(state.buffer, decode);
    reveal(after_step);
    reveal(step_update);
    if has_frame(state.buffer) {
        lemma_events_first(state.buffer, decode);
        lemma_drain_step(state, decode);
        lemma_run_first(state, events);
        let next = after_step(state, decode);
        let plain = state.apply(events.first());
        assert(same_reply(next, plain));
        assert(state.after_frame().update_for(events.first()) == state.update_for(
            events.first(),
        ));
        if next.finished {
            lemma_drain_idle(next, decode);
            lemma_run_closed(plain, events.drop_first());
        } else {
            law_drain_follows_frames(next, decode);
            lemma_run_ignores_buffer(next, plain, events.drop_first());
        }
    } else {
        assert(events =~= Seq::<EventView>::empty());
        lemma_drain_idle(state, decode);
        lemma_run_none(state, events);
    }
}

/// Each update holds the text of every update before it, and more.
pub open spec fn growing(updates: Seq<UpdateView>) -> bool {
    forall|i: int, j: int|
        0 <= i <= j < updates.len() ==> (#[trigger] updates[i]).cumulative_text.is_prefix_of(
            (#[trigger] updates[j]).cumulative_text,
        )
}

/// Exactly one update is final, and it is the last.
pub open spec fn closed_by_last(updates: Seq<UpdateView>) -> bool {
    &&& updates.len() > 0
    &&& updates.last().is_final
    &&& forall|i: int| 0 <= i < updates.len() - 1 ==> !(#[trigger] updates[i]).is_final
}

/// No update is final.
pub open spec fn open_ended(updates: Seq<UpdateView>) -> bool {
    forall|i: int| 0 <= i < updates.len() ==> !(#[trigger] updates[i]).is_final
}

/// Every update lies between `from` and `to`: it holds `from`, and `to`
/// holds it.
pub open spec fn between(updates: Seq<UpdateView>, from: Seq<char>, to: Seq<char>) -> bool {
    forall|i: int|
        0 <= i < updates.len() ==> from.is_prefix_of((#[trigger] updates[i]).cumulative_text)
            && updates[i].cumulative_text.is_prefix_of(to)
}

/// Every update is for message `message_id`.
pub open spec fn all_for(updates: Seq<UpdateView>, message_id: i64) -> bool {
    forall|i: int| 0 <= i < updates.len() ==> (#[trigger] updates[i]).message_id == message_id
}

proof fn lemma_terminal_behind_first(events: Seq<EventView>)
    requires
        events.len() > 0,
        events.first().kind != DeltaKind::Terminal,
    ensures
        has_terminal(events) == has_terminal(events.drop_first()),
{
    let rest = events.drop_first();
    if has_terminal(events) {
        let i = choose|i: int| 0 <= i < events.len() && (#[trigger] events[i]).kind
            == DeltaKind::Terminal;
        assert(rest[i - 1].kind == DeltaKind::Terminal);
    }
    if has_terminal(rest) {
        let i = choose|i: int| 0 <= i < rest.len() && (#[trigger] rest[i]).kind
            == DeltaKind::Terminal;
        assert(events[i + 1].kind == DeltaKind::Terminal);
    }
}

/// The reply after a run is the reply before it and what the events spell;
/// the stream is closed exactly if the terminal marker was among them.
pub proof fn lemma_run_reply(state: DecoderState, events: Seq<EventView>)
    requires
        !state.finished,
    ensures
        run_events(state, events).state.message_id == state.message_id,
        run_events(state, events).state.text == state.text + reply_of(events),
        run_events(state, events).state.finished == has_terminal(events),
    decreases events.len(),
{
    if events.len() == 0 {
        lemma_run_none(state, events);
        assert(state.text + reply_of(events) =~= state.text);
    } else {
        lemma_run_first(state, events);
        let next = state.apply(events.first());
        if events.first().kind == DeltaKind::Terminal {
            lemma_run_closed(next, events.drop_first());
            assert(state.text + reply_of(events) =~= state.text);
            assert(events[0].kind == DeltaKind::Terminal);
        } else {
            lemma_terminal_behind_first(events);
            lemma_run_reply(next, events.drop_first());
            assert(next.text + reply_of(events.drop_first()) =~= state.text + reply_of(events));
        }
    }
}

proof fn lemma_prefix_extended(a: Seq<char>, b: Seq<char>, c: Seq<char>)
    requires
        a.is_prefix_of(b),
    ensures
        a.is_prefix_of(b + c),
        b.is_prefix_of(b + c),
        b.is_prefix_of(b),
{
    assert(a =~= (b + c).subrange(0, a.len() as int));
    assert(b =~= (b + c).subrange(0, b.len() as int));
    assert(b =~= b.subrange(0, b.len() as int));
}

proof fn lemma_prefix_chain(a: Seq<char>, b: Seq<char>, c: Seq<char>)
    requires
        a.is_prefix_of(b),
        b.is_prefix_of(c),
    ensures
        a.is_prefix_of(c),
{
    assert(a =~= c.subrange(0, a.len() as int));
}

/// The updates of a run grow from the reply before it to the reply after
/// it, and only the last can be final: it is exactly if the run closed the
/// stream, and then it holds the whole reply.
pub proof fn lemma_run_updates(state: DecoderState, events: Seq<EventView>)
    requires
        !state.finished,
    ensures
        all_for(run_events(state, events).updates, state.message_id),
        between(
            run_events(state, events).updates,
            state.text,
            run_events(state, events).state.text,
        ),
        growing(run_events(state, events).updates),
        run_events(state, events).state.finished ==> closed_by_last(
            run_events(state, events).updates,
        ) && run_events(state, events).updates.last().cumulative_text == run_events(
            state,
            events,
        ).state.text,
        !run_events(state, events).state.finished ==> open_ended(
            run_events(state, events).updates,
        ),
    decreases events.len(),
{
    let run = run_events(state, events);
    if events.len() == 0 {
        lemma_run_none(state, events);
    } else {
        lemma_run_first(state, events);
        let first = events.first();
        let next = state.apply(first);
        let inner = run_events(next, events.drop_first());
        if first.kind == DeltaKind::Terminal {
            lemma_run_closed(next, events.drop_first());
            assert(run.updates =~= seq![state.closing_update()]);
            lemma_prefix_extended(state.text, state.text, Seq::empty());
        } else {
            lemma_run_updates(next, events.drop_first());
            lemma_run_reply(next, events.drop_first());
            match first.fragment() {
                None => {
                    assert(run.updates =~= inner.updates);
                },
                Some(fragment) => {
                    let head = state.update_for(first)->0;
                    assert(run.updates =~= seq![head] + inner.updates);
                    assert(head.cumulative_text == next.text);
                    lemma_prefix_extended(state.text, state.text, fragment);
                    lemma_prefix_extended(next.text, next.text, reply_of(events.drop_first()));
                    assert forall|i: int| 0 <= i < run.updates.len() implies state.text.is_prefix_of(
                        (#[trigger] run.updates[i]).cumulative_text,
                    ) && run.updates[i].cumulative_text.is_prefix_of(run.state.text)
                        && next.text.is_prefix_of(run.updates[i].cumulative_text) by {
                        if i > 0 {
                            assert(run.updates[i] == inner.updates[i - 1]);
                            lemma_prefix_chain(
                                state.text,
                                next.text,
                                inner.updates[i - 1].cumulative_text,
                            );
                        }
                    }
                    assert forall|i: int, j: int| 0 <= i <= j < run.updates.len() implies (
                    #[trigger] run.updates[i]).cumulative_text.is_prefix_of(
                        (#[trigger] run.updates[j]).cumulative_text,
                    ) by {
                        if i > 0 {
                            assert(run.updates[i] == inner.updates[i - 1]);
                            assert(run.updates[j] == inner.updates[j - 1]);
                        }
                    }
                    assert forall|i: int| 0 <= i < run.updates.len() implies (
                    #[trigger] run.updates[i]).message_id == state.message_id by {
                        if i > 0 {
                            assert(run.updates[i] == inner.updates[i - 1]);
                        }
                    }
                    if run.state.finished {
                        assert(run.updates.last() == inner.updates.last());
                        assert forall|i: int| 0 <= i < run.updates.len() - 1 implies !(
                        #[trigger] run.updates[i]).is_final by {
                            if i > 0 {
                                assert(run.updates[i] == inner.updates[i - 1]);
                            }
                        }
                    } else {
                        assert forall|i: int| 0 <= i < run.updates.len() implies !(
                        #[trigger] run.updates[i]).is_final by {
                            if i > 0 {
                                assert(run.updates[i] == inner.updates[i - 1]);
                            }
                        }
                    }
                },
            }
        }
    }
}

/// The updates of a run and the one that closes the stream behind it.
pub open spec fn closed_run(state: DecoderState, events: Seq<EventView>) -> Seq<UpdateView> {
    run_events(state, events).updates + emitted(
        run_events(state, events).state.update_on_close(),
    )
}

/// A run that is closed at its end gives growing updates for one message;
/// exactly one of them is final, it is the last, and it holds the reply
/// before the run and what the events spell.
pub proof fn lemma_closed_run(state: DecoderState, events: Seq<EventView>)
    requires
        !state.finished,
    ensures
        closed_by_last(closed_run(state, events)),
        closed_run(state, events).last().cumulative_text == state.text + reply_of(events),
        growing(closed_run(state, events)),
        all_for(closed_run(state, events), state.message_id),
{
    lemma_run_reply(state, events);
    lemma_run_updates(state, events);
    let run = run_events(state, events);
    let all = closed_run(state, events);
    if run.state.finished {
        assert(all =~= run.updates);
    } else {
        let last = run.state.closing_update();
        assert(all =~= run.updates + seq![last]);
        lemma_prefix_extended(run.state.text, run.state.text, Seq::empty());
        assert(growing(all)) by {
            assert forall|i: int, j: int| 0 <= i <= j < all.len() implies (
            #[trigger] all[i]).cumulative_text.is_prefix_of(
                (#[trigger] all[j]).cumulative_text,
            ) by {
                if j < run.updates.len() {
                    assert(all[i] == run.updates[i]);
                    assert(all[j] == run.updates[j]);
                } else if i < run.updates.len() {
                    assert(all[i] == run.updates[i]);
                }
            }
        }
        assert(closed_by_last(all)) by {
            assert forall|i: int| 0 <= i < all.len() - 1 implies !(#[trigger] all[i]).is_final by {
                assert(all[i] == run.updates[i]);
            }
        }
        assert(all_for(all, state.message_id)) by {
            assert forall|i: int| 0 <= i < all.len() implies (#[trigger] all[i]).message_id
                == state.message_id by {
                if i < run.updates.len() {
                    assert(all[i] == run.updates[i]);
                }
            }
        }
    }
}

/// The updates of a stream are those of the events that the frames of its
/// whole text decode to, closed at the end.
pub proof fn lemma_stream_is_closed_run(
    message_id: i64,
    chunks: Seq<Seq<char>>,
    decode: spec_fn(Seq<char>) -> EventView,
)
    ensures
        stream_updates(message_id, chunks, decode) == closed_run(
            DecoderState::start(message_id).push(chunks.flatten()),
            events_of(chunks.flatten(), decode),
        ),
{
    let start = DecoderState::start(message_id);
    let text = chunks.flatten();
    assert(!start.frame_ready()) by {
        if has_frame(start.buffer) {
            lemma_has_first_frame(start.buffer);
        }
    }
    law_chunking_is_invisible(start, chunks, decode);
    let received = start.push(text);
    assert(received.buffer =~= text);
    law_drain_follows_frames(received, decode);
}

/// A stream is reconstructed: however the text of a stream is cut into
/// chunks, the updates grow, exactly one of them is final, it is the last,
/// and it holds the fragments of the stream's frames in order, up to the
/// terminal marker.
pub proof fn law_stream_reconstructs_reply(
    message_id: i64,
    chunks: Seq<Seq<char>>,
    decode: spec_fn(Seq<char>) -> EventView,
)
    ensures
        closed_by_last(stream_updates(message_id, chunks, decode)),
        stream_updates(message_id, chunks, decode).last().cumulative_text == reply_of(
            events_of(chunks.flatten(), decode),
        ),
        growing(stream_updates(message_id, chunks, decode)),
        all_for(stream_updates(message_id, chunks, decode), message_id),
{
    let received = DecoderState::start(message_id).push(chunks.flatten());
    let events = events_of(chunks.flatten(), decode);
    lemma_stream_is_closed_run(message_id, chunks, decode);
    lemma_closed_run(received, events);
    assert(received.text + reply_of(events) =~= reply_of(events));
}

/// A stream of bytes is reconstructed: however valid UTF-8 is cut into
/// pieces, be it inside a character, the text that the pieces give, piece
/// by piece, gives growing updates; exactly one of them is final, it is the
/// last, and it holds the fragments of the frames of the whole text in
/// order, up to the terminal marker.
pub proof fn law_byte_stream_reconstructs_reply(
    message_id: i64,
    pieces: Seq<Seq<u8>>,
    decode: spec_fn(Seq<char>) -> EventView,
)
    requires
        valid_utf8(pieces.flatten()),
    ensures
        closed_by_last(stream_updates(message_id, texts_of(Seq::empty(), pieces), decode)),
        stream_updates(
            message_id,
            texts_of(Seq::empty(), pieces),
            decode,
        ).last().cumulative_text == reply_of(events_of(decode_utf8(pieces.flatten()), decode)),
        growing(stream_updates(message_id, texts_of(Seq::empty(), pieces), decode)),
        all_for(stream_updates(message_id, texts_of(Seq::empty(), pieces), decode), message_id),
{
    let chunks = texts_of(Seq::empty(), pieces);
    lemma_texts_in_a_row(Seq::empty(), pieces);
    law_valid_stream_is_assembled(pieces);
    law_stream_reconstructs_reply(message_id, chunks, decode);
}

/// A frame that changes nothing is skipped: with an error frame, an
/// unrecognized frame or a delta without text among the events, the decoder
/// gives the updates, and ends in the state, that it gives without it.
pub proof fn law_inert_event_is_skipped(
    state: DecoderState,
    before: Seq<EventView>,
    event: EventView,
    after: Seq<EventView>,
)
    requires
        event.is_inert(),
    ensures
        run_events(state, before + seq![event] + after) == run_events(state, before + after),
    decreases before.len(),
{
    let with = before + seq![event] + after;
    let without = before + after;
    lemma_run_first(state, with);
    if before.len() == 0 {
        assert(with.first() == event);
        assert(with.drop_first() =~= after);
        assert(without =~= after);
        assert(state.apply(event) == state);
        assert(emitted(state.update_for(event)) + run_events(state, after).updates
            =~= run_events(state, after).updates);
    } else {
        lemma_run_first(state, without);
        assert(with.first() == before.first());
        assert(without.first() == before.first());
        assert(with.drop_first() =~= before.drop_first() + seq![event] + after);
        assert(without.drop_first() =~= before.drop_first() + after);
        law_inert_event_is_skipped(
            state.apply(before.first()),
            before.drop_first(),
            event,
            after,
        );
    }
}

/// The events of a stream of plain frames: what each frame decodes to.
proof fn lemma_events_of_joined(frames: Seq<Seq<char>>, decode: spec_fn(Seq<char>) -> EventView)
    requires
        forall|i: int| 0 <= i < frames.len() ==> is_plain_frame(#[trigger] frames[i]),
    ensures
        events_of(joined(frames), decode) == events_of_frames(frames, decode),
{
    let none = Seq::<char>::empty();
    assert(!has_frame(none)) by {
        if has_frame(none) {
            lemma_has_first_frame(none);
        }
    }
    law_frames_are_read_as_written(frames, none);
    assert(joined(frames) + none =~= joined(frames));
}

/// The updates of a stream of plain frames are those of the events that
/// its frames decode to, closed at the end, however the stream is cut into
/// chunks.
pub proof fn lemma_stream_of_frames(
    message_id: i64,
    frames: Seq<Seq<char>>,
    chunks: Seq<Seq<char>>,
    decode: spec_fn(Seq<char>) -> EventView,
)
    requires
        forall|i: int| 0 <= i < frames.len() ==> is_plain_frame(#[trigger] frames[i]),
        chunks.flatten() == joined(frames),
    ensures
        stream_updates(message_id, chunks, decode) == closed_run(
            DecoderState::start(message_id),
            events_of_frames(frames, decode),
        ),
{
    let start = DecoderState::start(message_id);
    lemma_events_of_joined(frames, decode);
    lemma_stream_is_closed_run(message_id, chunks, decode);
    lemma_run_ignores_buffer(
        start.push(joined(frames)),
        start,
        events_of_frames(frames, decode),
    );
}

/// Frames in a row are plain where each of them is.
proof fn lemma_plain_frames_in_a_row(a: Seq<Seq<char>>, b: Seq<Seq<char>>)
    requires
        forall|i: int| 0 <= i < a.len() ==> is_plain_frame(#[trigger] a[i]),
        forall|i: int| 0 <= i < b.len() ==> is_plain_frame(#[trigger] b[i]),
    ensures
        forall|i: int| 0 <= i < (a + b).len() ==> is_plain_frame(#[trigger] (a + b)[i]),
{
    assert forall|i: int| 0 <= i < (a + b).len() implies is_plain_frame(#[trigger] (a + b)[i]) by {
        if i < a.len() {
            assert((a + b)[i] == a[i]);
        } else {
            assert((a + b)[i] == b[i - a.len()]);
        }
    }
}

/// The events of frames in a row are the events of each in a row.
proof fn lemma_events_in_a_row(
    a: Seq<Seq<char>>,
    b: Seq<Seq<char>>,
    decode: spec_fn(Seq<char>) -> EventView,
)
    ensures
        events_of_frames(a + b, decode) == events_of_frames(a, decode) + events_of_frames(
            b,
            decode,
        ),
{
    assert(events_of_frames(a + b, decode) =~= events_of_frames(a, decode) + events_of_frames(
        b,
        decode,
    ));
}

/// A corrupt frame is skipped: a stream with a frame that decodes to
/// nothing of use, be it between two frames that carry text, gives the
/// updates that the stream gives without that frame, however the two
/// streams are cut into chunks.
pub proof fn law_corrupt_frame_is_skipped(
    message_id: i64,
    before: Seq<Seq<char>>,
    corrupt: Seq<char>,
    after: Seq<Seq<char>>,
    chunks_with: Seq<Seq<char>>,
    chunks_without: Seq<Seq<char>>,
    decode: spec_fn(Seq<char>) -> EventView,
)
    requires
        forall|i: int| 0 <= i < before.len() ==> is_plain_frame(#[trigger] before[i]),
        forall|i: int| 0 <= i < after.len() ==> is_plain_frame(#[trigger] after[i]),
        is_plain_frame(corrupt),
        decode(payload_of(corrupt)).is_inert(),
        chunks_with.flatten() == joined(before + seq![corrupt] + after),
        chunks_without.flatten() == joined(before + after),
    ensures
        stream_updates(message_id, chunks_with, decode) == stream_updates(
            message_id,
            chunks_without,
            decode,
        ),
{
    let one = seq![corrupt];
    lemma_plain_frames_in_a_row(before, one);
    lemma_plain_frames_in_a_row(before + one, after);
    lemma_plain_frames_in_a_row(before, after);
    lemma_stream_of_frames(message_id, before + one + after, chunks_with, decode);
    lemma_stream_of_frames(message_id, before + after, chunks_without, decode);
    lemma_events_in_a_row(before, one, decode);
    lemma_events_in_a_row(before + one, after, decode);
    lemma_events_in_a_row(before, after, decode);
    assert(events_of_frames(one, decode) =~= seq![decode(payload_of(corrupt))]);
    law_inert_event_is_skipped(
        DecoderState::start(message_id),
        events_of_frames(before, decode),
        decode(payload_of(corrupt)),
        events_of_frames(after, decode),
    );
}

/// Cancellation closes the stream: in a stream that is still open it gives
/// exactly one update, final and with the reply as far as it got; after it,
/// whatever is received, decoded or signalled gives no update.
pub proof fn law_cancel_closes_stream(
    state: DecoderState,
    chunks: Seq<Seq<char>>,
    events: Seq<EventView>,
    decode: spec_fn(Seq<char>) -> EventView,
)
    requires
        !state.finished,
    ensures
        state.update_on_close() == Some(
            UpdateView { message_id: state.message_id, cumulative_text: state.text, is_final: true },
        ),
        state.close().finished,
        state.close().text == state.text,
        feed_all(state.close(), chunks, decode) == (Run {
            state: state.close(),
            updates: Seq::empty(),
        }),
        run_events(state.close(), events) == (Run { state: state.close(), updates: Seq::empty() }),
        state.close().update_on_close() is None,
        state.close().close() == state.close(),
{
    lemma_feed_closed(state.close(), chunks, decode);
    lemma_run_closed(state.close(), events);
}

/// The payloads of the complete frames of `text`.
pub open spec fn payloads_of(text: Seq<char>) -> Seq<Seq<char>> {
    complete_frames(text).map_values(|frame: Seq<char>| payload_of(frame))
}

/// The state after every waiting frame was taken out.
pub open spec fn after_frames(state: DecoderState) -> DecoderState {
    if state.finished {
        state
    } else {
        DecoderState { buffer: pending(state.buffer), ..state }
    }
}

/// The payloads that were taken out.
pub open spec fn taken_payloads(state: DecoderState) -> Seq<Seq<char>> {
    if state.finished {
        Seq::empty()
    } else {
        payloads_of(state.buffer)
    }
}

/// What a drain leaves buffered: nothing, where it closed the stream, and
/// else what is pending behind the last complete frame.
pub proof fn lemma_drain_buffer(state: DecoderState, decode: spec_fn(Seq<char>) -> EventView)
    requires
        !state.finished,
    ensures
        drain(state, decode).state.buffer == (if drain(state, decode).state.finished {
            Seq::<char>::empty()
        } else {
            pending(state.buffer)
        }),
    decreases state.buffer.len(),
{
    if state.frame_ready() {
        reveal(after_step);
        lemma_drain_step(state, decode);
        lemma_has_first_frame(state.buffer);
        let next = after_step(state, decode);
        if next.finished {
            lemma_drain_idle(next, decode);
        } else {
            lemma_drain_buffer(next, decode);
        }
    } else {
        lemma_drain_idle(state, decode);
    }
}

/// What a run of events leaves buffered: nothing, where it closed the
/// stream, and else what was buffered before.
pub proof fn lemma_run_buffer(state: DecoderState, events: Seq<EventView>)
    requires
        !state.finished,
    ensures
        run_events(state, events).state.buffer == (if run_events(state, events).state.finished {
            Seq::<char>::empty()
        } else {
            state.buffer
        }),
    decreases events.len(),
{
    if events.len() == 0 {
        lemma_run_none(state, events);
    } else {
        lemma_run_first(state, events);
        let next = state.apply(events.first());
        if next.finished {
            lemma_run_closed(next, events.drop_first());
        } else {
            lemma_run_buffer(next, events.drop_first());
        }
    }
}

/// Frames may be handled in batches: to take every waiting frame out
/// first, decode them, and apply the events gives the updates and the state
/// that handling the frames one by one gives.
pub proof fn law_batches_are_drains(state: DecoderState, decode: spec_fn(Seq<char>) -> EventView)
    requires
        !state.finished,
    ensures
        run_events(
            after_frames(state),
            taken_payloads(state).map_values(|payload: Seq<char>| decode(payload)),
        ) == drain(state, decode),
{
    let events = taken_payloads(state).map_values(|payload: Seq<char>| decode(payload));
    assert(events =~= events_of(state.buffer, decode));
    law_drain_follows_frames(state, decode);
    lemma_run_ignores_buffer(after_frames(state), state, events);
    lemma_drain_buffer(state, decode);
    lemma_run_buffer(after_frames(state), events);
    assert(run_events(after_frames(state), events).state =~= drain(state, decode).state);
}

/// To map a sequence with an element in front is to map the element and
/// the sequence.
proof fn lemma_map_in_front<A, B>(first: A, rest: Seq<A>, f: spec_fn(A) -> B)
    ensures
        (seq![first] + rest).map_values(f) == seq![f(first)] + rest.map_values(f),
{
    assert((seq![first] + rest).map_values(f) =~= seq![f(first)] + rest.map_values(f));
}

/// With a frame waiting, the payloads to take are that of the frame and
/// those behind it.
proof fn lemma_take_step(state: DecoderState)
    requires
        state.frame_ready(),
    ensures
        taken_payloads(state) == seq![state.next_payload()] + taken_payloads(state.after_frame()),
        after_frames(state) == after_frames(state.after_frame()),
        state.after_frame().buffer.len() < state.buffer.len(),
{
    lemma_has_first_frame(state.buffer);
    let i = first_frame_len(state.buffer);
    let frame = state.buffer.take(i);
    let behind = complete_frames(state.buffer.skip(i + 2));
    assert(complete_frames(state.buffer) == seq![frame] + behind);
    lemma_map_in_front(frame, behind, |frame: Seq<char>| payload_of(frame));
}

/// With no frame waiting, there is nothing to take.
proof fn lemma_take_idle(state: DecoderState)
    requires
        !state.frame_ready(),
    ensures
        taken_payloads(state) == Seq::<Seq<char>>::empty(),
        after_frames(state) == state,
{
    if !state.finished {
        assert(payloads_of(state.buffer) =~= Seq::<Seq<char>>::empty());
    }
}

/// The texts of strings with one more pushed behind them.
proof fn lemma_texts_pushed(before: Vec<String>, after: Vec<String>, last: String)
    requires
        after@ == before@.push(last),
    ensures
        after.deep_view() == before.deep_view().push(last@),
{
    assert(after.deep_view() =~= before.deep_view().push(last@));
}

/// Payloads taken so far, one more, and those still to take.
proof fn lemma_taken_so_far(
    all: Seq<Seq<char>>,
    taken: Seq<Seq<char>>,
    payload: Seq<char>,
    behind: Seq<Seq<char>>,
)
    requires
        all == taken + (seq![payload] + behind),
    ensures
        all == taken.push(payload) + behind,
{
    assert(taken.push(payload) + behind =~= taken + (seq![payload] + behind));
}

impl StreamingDecoder {
    /// Takes every complete frame out of the buffer and returns their
    /// payloads in order.
    pub fn take_frames(&mut self) -> (payloads: Vec<String>)
        ensures
            payloads.deep_view() == taken_payloads(old(self)@),
            final(self)@ == after_frames(old(self)@),
    {
        let mut payloads: Vec<String> = Vec::new();
        let ghost all = taken_payloads(self@);
        let ghost end = after_frames(self@);
        proof {
            assert(payloads.deep_view() =~= Seq::<Seq<char>>::empty());
            assert(payloads.deep_view() + all =~= all);
        }
        loop
            invariant
                all == payloads.deep_view() + taken_payloads(self@),
                end == after_frames(self@),
            ensures
                payloads.deep_view() == all,
                self@ == end,
            decreases self@.buffer.len(),
        {
            let ghost before = self@;
            let ghost taken = payloads;
            match self.next_frame() {
                None => {
                    proof {
                        lemma_take_idle(before);
                        assert(payloads.deep_view() + Seq::<Seq<char>>::empty()
                            =~= payloads.deep_view());
                    }
                    break ;
                },
                Some(payload) => {
                    proof {
                        lemma_take_step(before);
                        lemma_taken_so_far(
                            all,
                            taken.deep_view(),
                            payload@,
                            taken_payloads(self@),
                        );
                    }
                    let ghost last = payload;
                    payloads.push(payload);
                    proof {
                        lemma_texts_pushed(taken, payloads, last);
                    }
                },
            }
        }
        payloads
    }

    /// Folds decoded frames into the reply, in order, and returns the
    /// updates to send.
    pub fn apply_all(&mut self, events: &Vec<DeltaEvent>) -> (updates: Vec<StreamUpdate>)
        ensures
            final(self)@ == run_events(old(self)@, events.deep_view()).state,
            updates.deep_view() == run_events(old(self)@, events.deep_view()).updates,
    {
        let mut updates: Vec<StreamUpdate> = Vec::new();
        let mut i: usize = 0;
        let ghost start = self@;
        let ghost all = events.deep_view();
        proof {
            assert(all.skip(0) =~= all);
            assert(updates.deep_view() + run_events(start, all).updates =~= run_events(
                start,
                all,
            ).updates);
        }
        while i < events.len()
            invariant
                i <= events@.len(),
                all == events.deep_view(),
                run_events(start, all).state == run_events(self@, all.skip(i as int)).state,
                run_events(start, all).updates == updates.deep_view() + run_events(
                    self@,
                    all.skip(i as int),
                ).updates,
            decreases events@.len() - i,
        {
            let ghost before = self@;
            let ghost sent = updates.deep_view();
            proof {
                lemma_run_first(before, all.skip(i as int));
                assert(all.skip(i as int).first() == events@[i as int]@);
                assert(all.skip(i as int).drop_first() =~= all.skip(i + 1));
            }
            match self.apply(&events[i]) {
                Some(update) => {
                    updates.push(update);
                    proof {
                        let head = seq![updates@.last()@];
                        let behind = run_events(self@, all.skip(i + 1)).updates;
                        assert(updates.deep_view() =~= sent + head);
                        assert((sent + head) + behind =~= sent + (head + behind));
                    }
                },
                None => {
                    proof {
                        let behind = run_events(self@, all.skip(i + 1)).updates;
                        assert(Seq::<UpdateView>::empty() + behind =~= behind);
                    }
                },
            }
            i = i + 1;
        }
        proof {
            lemma_run_none(self@, all.skip(i as int));
            assert(updates.deep_view() + Seq::<UpdateView>::empty() =~= updates.deep_view());
        }
        updates
    }
}

} // verus!
