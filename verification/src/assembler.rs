//! Text from bytes that arrive in pieces: a character whose bytes are cut by
//! the end of a piece is held back until the rest of it arrives.

use crate::bindings::{can_continue, is_valid_prefix_len, utf8_text};
use crate::error::AppError;
use vstd::prelude::*;
use vstd::string::*;
use vstd::utf8::{
    decode_utf8, decode_utf8_split, is_char_boundary, length_of_first_scalar, pop_first_scalar,
    valid_first_scalar, valid_utf8, valid_utf8_concat, valid_utf8_split,
};

verus! {

/// The length of the longest front part of `bytes` that is valid UTF-8.
pub open spec fn valid_prefix_len(bytes: Seq<u8>) -> int {
    choose|n: int| is_valid_prefix_len(bytes, n)
}

/// What a piece of the stream gives: the text of the characters that are
/// complete with it, and the bytes that are held back.
#[verifier::ext_equal]
pub struct Assembly {
    pub text: Seq<char>,
    pub held: Seq<u8>,
}

/// What the piece `chunk` gives where `held` was held back before it.
pub open spec fn assemble(held: Seq<u8>, chunk: Seq<u8>) -> Assembly {
    let all = held + chunk;
    let n = valid_prefix_len(all);
    Assembly { text: decode_utf8(all.take(n)), held: all.skip(n) }
}

/// What the pieces `chunks` give one after the other: the texts of all of
/// them in a row, and what is held back behind the last.
pub open spec fn assemble_all(held: Seq<u8>, chunks: Seq<Seq<u8>>) -> Assembly
    decreases chunks.len(),
{
    if chunks.len() == 0 {
        Assembly { text: Seq::empty(), held }
    } else {
        let first = assemble(held, chunks.first());
        let rest = assemble_all(first.held, chunks.drop_first());
        Assembly { text: first.text + rest.text, held: rest.held }
    }
}

/// The text that each of the pieces `chunks` gives, piece by piece.
pub open spec fn texts_of(held: Seq<u8>, chunks: Seq<Seq<u8>>) -> Seq<Seq<char>>
    decreases chunks.len(),
{
    if chunks.len() == 0 {
        Seq::empty()
    } else {
        seq![assemble(held, chunks.first()).text] + texts_of(
            assemble(held, chunks.first()).held,
            chunks.drop_first(),
        )
    }
}

/// The texts of the pieces in a row are the text of all of them.
pub proof fn lemma_texts_in_a_row(held: Seq<u8>, chunks: Seq<Seq<u8>>)
    ensures
        texts_of(held, chunks).flatten() == assemble_all(held, chunks).text,
    decreases chunks.len(),
{
    if chunks.len() > 0 {
        let first = assemble(held, chunks.first());
        let behind = texts_of(first.held, chunks.drop_first());
        lemma_texts_in_a_row(first.held, chunks.drop_first());
        let all = texts_of(held, chunks);
        assert(all.first() == first.text);
        assert(all.drop_first() =~= behind);
    }
}

proof fn lemma_longest_valid_prefix(bytes: Seq<u8>, from: int)
    requires
        0 <= from <= bytes.len(),
        forall|p: int| from < p <= bytes.len() ==> !valid_utf8(#[trigger] bytes.take(p)),
    ensures
        exists|n: int| is_valid_prefix_len(bytes, n),
    decreases from,
{
    if valid_utf8(bytes.take(from)) {
        assert(is_valid_prefix_len(bytes, from));
    } else {
        assert(bytes.take(0) =~= Seq::<u8>::empty());
        lemma_longest_valid_prefix(bytes, from - 1);
    }
}

/// Every sequence of bytes has a longest valid front part, and only one.
pub proof fn lemma_valid_prefix_len(bytes: Seq<u8>)
    ensures
        is_valid_prefix_len(bytes, valid_prefix_len(bytes)),
        forall|n: int| is_valid_prefix_len(bytes, n) ==> n == valid_prefix_len(bytes),
{
    lemma_longest_valid_prefix(bytes, bytes.len() as int);
    let k = valid_prefix_len(bytes);
    assert forall|n: int| is_valid_prefix_len(bytes, n) implies n == k by {
        if n < k {
            assert(!valid_utf8(bytes.take(k)));
        }
        if k < n {
            assert(!valid_utf8(bytes.take(n)));
        }
    }
}

/// In valid UTF-8, a front part that is valid by itself ends where a
/// character ends.
pub proof fn lemma_valid_prefix_is_boundary(bytes: Seq<u8>, m: int)
    requires
        valid_utf8(bytes),
        0 <= m <= bytes.len(),
        valid_utf8(bytes.take(m)),
    ensures
        is_char_boundary(bytes, m),
    decreases bytes.len(),
{
    if m > 0 {
        let front = bytes.take(m);
        assert(front[0] == bytes[0]);
        assert(valid_first_scalar(front));
        assert(valid_first_scalar(bytes));
        let k = length_of_first_scalar(bytes);
        assert(length_of_first_scalar(front) == k);
        assert(k <= m);
        assert(pop_first_scalar(front) =~= pop_first_scalar(bytes).take(m - k));
        lemma_valid_prefix_is_boundary(pop_first_scalar(bytes), m - k);
    }
}

/// Behind a valid front part the search for the longest one goes on: the
/// longest valid front part of `bytes` is `m` bytes and the longest valid
/// front part of what follows them, and its text is the text of both.
pub proof fn lemma_prefix_behind_valid(bytes: Seq<u8>, m: int)
    requires
        0 <= m <= bytes.len(),
        valid_utf8(bytes.take(m)),
    ensures
        valid_prefix_len(bytes) == m + valid_prefix_len(bytes.skip(m)),
        decode_utf8(bytes.take(valid_prefix_len(bytes))) == decode_utf8(bytes.take(m))
            + decode_utf8(bytes.skip(m).take(valid_prefix_len(bytes.skip(m)))),
{
    let behind = bytes.skip(m);
    lemma_valid_prefix_len(behind);
    lemma_valid_prefix_len(bytes);
    let q = valid_prefix_len(behind);
    let whole = bytes.take(m + q);
    assert(whole =~= bytes.take(m) + behind.take(q));
    valid_utf8_concat(bytes.take(m), behind.take(q));
    assert forall|p: int| m + q < p <= bytes.len() implies !valid_utf8(
        #[trigger] bytes.take(p),
    ) by {
        let longer = bytes.take(p);
        if valid_utf8(longer) {
            assert(longer.take(m) =~= bytes.take(m));
            lemma_valid_prefix_is_boundary(longer, m);
            valid_utf8_split(longer, m);
            assert(longer.subrange(m, longer.len() as int) =~= behind.take(p - m));
            assert(!valid_utf8(behind.take(p - m)));
        }
    }
    assert(is_valid_prefix_len(bytes, m + q));
    assert(whole.take(m) =~= bytes.take(m));
    lemma_valid_prefix_is_boundary(whole, m);
    decode_utf8_split(whole, m);
    assert(whole.subrange(0, m) =~= bytes.take(m));
    assert(whole.subrange(m, whole.len() as int) =~= behind.take(q));
}

/// What is held back holds no complete character.
pub proof fn lemma_held_is_incomplete(held: Seq<u8>, chunk: Seq<u8>)
    ensures
        valid_prefix_len(assemble(held, chunk).held) == 0,
{
    let all = held + chunk;
    lemma_valid_prefix_len(all);
    lemma_prefix_behind_valid(all, valid_prefix_len(all));
}

/// Two pieces in a row give what both give as one piece.
pub proof fn lemma_assemble_twice(held: Seq<u8>, a: Seq<u8>, b: Seq<u8>)
    ensures
        assemble(held, a + b).text == assemble(held, a).text + assemble(
            assemble(held, a).held,
            b,
        ).text,
        assemble(held, a + b).held == assemble(assemble(held, a).held, b).held,
{
    let first = held + a;
    lemma_valid_prefix_len(first);
    let n = valid_prefix_len(first);
    let whole = held + (a + b);
    assert(whole =~= first + b);
    assert(whole.take(n) =~= first.take(n));
    assert(whole.skip(n) =~= first.skip(n) + b);
    lemma_prefix_behind_valid(whole, n);
    lemma_valid_prefix_len(whole);
    let second = first.skip(n) + b;
    assert(whole.skip(valid_prefix_len(whole)) =~= second.skip(valid_prefix_len(second)));
}

/// The ends of the pieces are invisible: bytes that arrive in pieces give
/// the text, and leave held back the bytes, that they give when they arrive
/// as one piece.
pub proof fn law_pieces_are_invisible(held: Seq<u8>, chunks: Seq<Seq<u8>>)
    requires
        valid_prefix_len(held) == 0,
    ensures
        assemble_all(held, chunks) == assemble(held, chunks.flatten()),
    decreases chunks.len(),
{
    if chunks.len() == 0 {
        assert(held + chunks.flatten() =~= held);
        assert(held.take(0) =~= Seq::<u8>::empty());
        assert(held.skip(0) =~= held);
        assert(assemble_all(held, chunks) =~= assemble(held, chunks.flatten()));
    } else {
        let first = assemble(held, chunks.first());
        lemma_held_is_incomplete(held, chunks.first());
        law_pieces_are_invisible(first.held, chunks.drop_first());
        lemma_assemble_twice(held, chunks.first(), chunks.drop_first().flatten());
        assert(assemble_all(held, chunks) =~= assemble(held, chunks.flatten()));
    }
}

/// A valid stream is assembled whole: however valid UTF-8 is cut into
/// pieces, the pieces give its text, and nothing is held back at the end.
pub proof fn law_valid_stream_is_assembled(chunks: Seq<Seq<u8>>)
    requires
        valid_utf8(chunks.flatten()),
    ensures
        assemble_all(Seq::empty(), chunks).text == decode_utf8(chunks.flatten()),
        assemble_all(Seq::empty(), chunks).held.len() == 0,
{
    let whole = chunks.flatten();
    let none = Seq::<u8>::empty();
    lemma_valid_prefix_len(none);
    law_pieces_are_invisible(none, chunks);
    assert(none + whole =~= whole);
    assert(whole.take(whole.len() as int) =~= whole);
    assert(is_valid_prefix_len(whole, whole.len() as int));
    lemma_valid_prefix_len(whole);
}

/// No piece of a valid stream is refused: what is held back from the
/// pieces before it, and the piece itself, can still become valid UTF-8.
pub proof fn law_valid_stream_continues(before: Seq<u8>, chunk: Seq<u8>, after: Seq<u8>)
    requires
        valid_utf8(before + chunk + after),
    ensures
        can_continue(assemble(Seq::empty(), before).held + chunk),
{
    let whole = before + chunk + after;
    let none = Seq::<u8>::empty();
    assert(none + before =~= before);
    lemma_valid_prefix_len(before);
    let n = valid_prefix_len(before);
    assert(whole.take(n) =~= before.take(n));
    lemma_valid_prefix_is_boundary(whole, n);
    valid_utf8_split(whole, n);
    assert(whole.subrange(n, whole.len() as int) =~= (before.skip(n) + chunk) + after);
}

/// Assembler of text from the pieces of a stream of bytes.
pub struct Utf8Assembler {
    held: Vec<u8>,
}

impl View for Utf8Assembler {
    type V = Seq<u8>;

    closed spec fn view(&self) -> Seq<u8> {
        self.held@
    }
}

/// A text or a failure by its characters.
pub open spec fn text_result(result: Result<String, AppError>) -> Result<Seq<char>, AppError> {
    match result {
        Ok(text) => Ok(text@),
        Err(e) => Err(e),
    }
}

impl Utf8Assembler {
    /// An assembler that holds nothing back.
    pub fn new() -> (assembler: Utf8Assembler)
        ensures
            assembler@ == Seq::<u8>::empty(),
    {
        Utf8Assembler { held: Vec::new() }
    }

    /// The number of bytes that are held back.
    pub fn held_len(&self) -> (n: usize)
        ensures
            n == self@.len(),
    {
        self.held.len()
    }

    /// Receives the next piece of the stream and returns the text of the
    /// characters that are complete with it. Bytes that cannot become valid
    /// UTF-8, whatever follows, are a failure of the transport, and the
    /// assembler stays as it is.
    pub fn push(&mut self, chunk: &[u8]) -> (text: Result<String, AppError>)
        ensures
            can_continue(old(self)@ + chunk@) ==> text_result(text) == Ok::<Seq<char>, AppError>(
                assemble(old(self)@, chunk@).text,
            ) && final(self)@ == assemble(old(self)@, chunk@).held,
            !can_continue(old(self)@ + chunk@) ==> text_result(text) == Err::<
                Seq<char>,
                AppError,
            >(AppError::Transport) && final(self)@ == old(self)@,
    {
        let mut all: Vec<u8> = Vec::new();
        let mut i: usize = 0;
        while i < self.held.len()
            invariant
                i <= self.held@.len(),
                all@ == self.held@.take(i as int),
            decreases self.held@.len() - i,
        {
            all.push(self.held[i]);
            i = i + 1;
            assert(all@ =~= self.held@.take(i as int));
        }
        assert(self.held@.take(i as int) =~= self.held@);
        let mut j: usize = 0;
        while j < chunk.len()
            invariant
                j <= chunk@.len(),
                all@ == self.held@ + chunk@.take(j as int),
            decreases chunk@.len() - j,
        {
            all.push(chunk[j]);
            j = j + 1;
            assert(all@ =~= self.held@ + chunk@.take(j as int));
        }
        assert(chunk@.take(j as int) =~= chunk@);
        let ghost whole = all@;
        proof {
            lemma_valid_prefix_len(whole);
        }
        let n = match utf8_text(all.as_slice()) {
            Ok(text) => {
                proof {
                    assert(whole + Seq::<u8>::empty() =~= whole);
                    assert(whole.take(whole.len() as int) =~= whole);
                    assert(is_valid_prefix_len(whole, whole.len() as int));
                    assert(whole.skip(whole.len() as int) =~= Seq::<u8>::empty());
                }
                self.held = Vec::new();
                return Ok(String::from_str(text));
            },
            Err((n, cut)) => {
                if !cut {
                    return Err(AppError::Transport);
                }
                n
            },
        };
        let rest = all.split_off(n);
        assert(all@ =~= whole.take(n as int));
        assert(rest@ =~= whole.skip(n as int));
        match utf8_text(all.as_slice()) {
            Ok(text) => {
                self.held = rest;
                Ok(String::from_str(text))
            },
            Err(_) => Err(AppError::Transport),
        }
    }

    /// The stream has ended. An end inside a character is a failure of the
    /// transport.
    pub fn finish(&self) -> (ended: Result<(), AppError>)
        ensures
            ended == (if self@.len() == 0 {
                Ok::<(), AppError>(())
            } else {
                Err::<(), AppError>(AppError::Transport)
            }),
    {
        if self.held.len() == 0 {
            Ok(())
        } else {
            Err(AppError::Transport)
        }
    }
}

} // verus!
