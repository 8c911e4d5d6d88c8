//! The SLIP codec: an encoder that rewrites a payload in place into a
//! delimited, escaped frame, and a stateful decoder that is fed one byte at
//! a time and accumulates one payload per frame.

use vstd::prelude::*;

use crate::buffer::Buffer;

verus! {

/// Frame delimiter byte.
pub const END_CHAR: u8 = 0xC0;

/// Escape introducer byte.
pub const ESC_CHAR: u8 = 0xDB;

/// Escape code standing for an `END_CHAR` of the payload.
pub const ESC_END_CHAR: u8 = 0xDC;

/// Escape code standing for an `ESC_CHAR` of the payload.
pub const ESC_ESC_CHAR: u8 = 0xDD;

/// True of the two bytes that cannot stand bare inside a frame.
pub open spec fn is_special(value: u8) -> bool {
    value == END_CHAR || value == ESC_CHAR
}

/// The wire form of one payload byte: the two special bytes become a
/// two-byte escape pair, every other byte passes through unchanged.
pub open spec fn escape_byte(value: u8) -> Seq<u8> {
    if value == END_CHAR {
        seq![ESC_CHAR, ESC_END_CHAR]
    } else if value == ESC_CHAR {
        seq![ESC_CHAR, ESC_ESC_CHAR]
    } else {
        seq![value]
    }
}

/// The wire form of a whole payload: each byte escaped, in order.
pub open spec fn escaped(payload: Seq<u8>) -> Seq<u8>
    decreases payload.len(),
{
    if payload.len() == 0 {
        Seq::empty()
    } else {
        escape_byte(payload[0]) + escaped(payload.drop_first())
    }
}

/// How many bytes of `payload` need an escape pair on the wire.
pub open spec fn special_count(payload: Seq<u8>) -> nat
    decreases payload.len(),
{
    if payload.len() == 0 {
        0
    } else {
        (if is_special(payload[0]) {
            1nat
        } else {
            0nat
        }) + special_count(payload.drop_first())
    }
}

/// A complete frame: the escaped payload between two `END_CHAR` delimiters.
pub open spec fn frame(payload: Seq<u8>) -> Seq<u8> {
    seq![END_CHAR] + escaped(payload) + seq![END_CHAR]
}

/// The escaped form is the payload plus one extra byte per special byte.
pub proof fn lemma_escaped_len(payload: Seq<u8>)
    ensures
        escaped(payload).len() == payload.len() + special_count(payload),
    decreases payload.len(),
{
    if payload.len() > 0 {
        lemma_escaped_len(payload.drop_first());
    }
}

/// Escaping distributes over concatenation.
pub proof fn lemma_escaped_add(a: Seq<u8>, b: Seq<u8>)
    ensures
        escaped(a + b) == escaped(a) + escaped(b),
    decreases a.len(),
{
    if a.len() == 0 {
        assert(a + b =~= b);
        assert(escaped(a) + escaped(b) =~= escaped(b));
    } else {
        assert((a + b).drop_first() =~= a.drop_first() + b);
        lemma_escaped_add(a.drop_first(), b);
        assert(escaped(a + b) =~= escaped(a) + escaped(b));
    }
}

/// Escaping a payload extended by one byte appends that byte's escape.
pub proof fn lemma_escaped_push(payload: Seq<u8>, value: u8)
    ensures
        escaped(payload.push(value)) == escaped(payload) + escape_byte(value),
{
    assert(payload.push(value) =~= payload + seq![value]);
    lemma_escaped_add(payload, seq![value]);
    assert(seq![value].drop_first() =~= Seq::<u8>::empty());
    assert(escaped(Seq::<u8>::empty()) =~= Seq::<u8>::empty());
    assert(escaped(seq![value]) =~= escape_byte(value));
}

/// Extending a payload by one byte raises its special count by one exactly
/// when that byte is special.
pub proof fn lemma_special_count_push(payload: Seq<u8>, value: u8)
    ensures
        special_count(payload.push(value)) == special_count(payload) + (if is_special(value) {
            1nat
        } else {
            0nat
        }),
{
    assert(payload.push(value) =~= payload + seq![value]);
    lemma_special_count_add(payload, seq![value]);
    assert(seq![value].drop_first() =~= Seq::<u8>::empty());
    assert(special_count(Seq::<u8>::empty()) == 0);
    assert(special_count(seq![value]) == (if is_special(value) {
        1nat
    } else {
        0nat
    }));
}

/// The special count distributes over concatenation.
pub proof fn lemma_special_count_add(a: Seq<u8>, b: Seq<u8>)
    ensures
        special_count(a + b) == special_count(a) + special_count(b),
    decreases a.len(),
{
    if a.len() == 0 {
        assert(a + b =~= b);
    } else {
        assert((a + b).drop_first() =~= a.drop_first() + b);
        lemma_special_count_add(a.drop_first(), b);
    }
}

/// A SLIP encoder.
///
/// Provides the single in-place transform from a raw payload to a frame.
pub struct SlipEncoder;

impl SlipEncoder {
    /// Rewrites the payload held by `vec` in place into a SLIP frame.
    ///
    /// Succeeds exactly when the capacity admits the frame, that is when it
    /// is at least the payload length plus two delimiters plus one byte per
    /// special payload byte; the buffer then holds `frame` of the payload.
    /// On failure the buffer is left partially transformed, not rolled back:
    /// it must be discarded.
    pub fn encode<const MAX_LENGTH: usize>(vec: &mut Buffer<MAX_LENGTH>) -> (r: Result<(), ()>)
        requires
            old(vec)@.len() <= MAX_LENGTH,
        ensures
            r is Ok <==> old(vec)@.len() + 2 + special_count(old(vec)@) <= MAX_LENGTH,
            r is Ok ==> final(vec)@ == frame(old(vec)@),
            final(vec)@.len() <= MAX_LENGTH,
    {
        let ghost orig = vec@;

        // Begin the SLIP frame
        match vec.insert(0, END_CHAR) {
            Ok(()) => {},
            Err(()) => {
                return Err(());
            },
        }
        proof {
            assert(vec@ =~= seq![END_CHAR] + escaped(orig.take(0)) + orig.skip(0));
        }

        let mut index: usize = 1;
        let ghost mut consumed: int = 0;
        while index < vec.len()
            invariant
                orig == old(vec)@,
                0 <= consumed <= orig.len(),
                orig.len() < MAX_LENGTH,
                vec@ == seq![END_CHAR] + escaped(orig.take(consumed)) + orig.skip(consumed),
                index == 1 + consumed + special_count(orig.take(consumed)),
                vec@.len() == 1 + orig.len() + special_count(orig.take(consumed)),
                vec@.len() <= MAX_LENGTH,
            decreases vec@.len() - index,
        {
            proof {
                lemma_escaped_len(orig.take(consumed));
                assert(vec@[index as int] == orig.skip(consumed)[0]);
                assert(orig.take(consumed + 1) =~= orig.take(consumed).push(orig[consumed]));
                lemma_escaped_push(orig.take(consumed), orig[consumed]);
                lemma_special_count_push(orig.take(consumed), orig[consumed]);
            }
            let value = vec.get(index);
            if value == END_CHAR || value == ESC_CHAR {
                let escape_code = if value == END_CHAR {
                    ESC_END_CHAR
                } else {
                    ESC_ESC_CHAR
                };
                match vec.insert(index, ESC_CHAR) {
                    Ok(()) => {},
                    Err(()) => {
                        proof {
                            // the buffer is full here, and the byte in hand
                            // still needs its second escape byte
                            assert(orig =~= orig.take(consumed) + orig.skip(consumed));
                            lemma_special_count_add(orig.take(consumed), orig.skip(consumed));
                            assert(is_special(orig.skip(consumed)[0]));
                            assert(special_count(orig.skip(consumed)) >= 1);
                        }
                        return Err(());
                    },
                }
                match vec.write(index + 1, escape_code) {
                    Ok(()) => {},
                    Err(()) => {
                        return Err(());
                    },
                }
                proof {
                    let before = seq![END_CHAR] + escaped(orig.take(consumed)) + orig.skip(
                        consumed,
                    );
                    assert(before.insert(index as int, ESC_CHAR).update(
                        index + 1,
                        escape_code,
                    ) =~= seq![END_CHAR] + escaped(orig.take(consumed + 1)) + orig.skip(
                        consumed + 1,
                    ));
                    consumed = consumed + 1;
                }
                index += 2;
            } else {
                proof {
                    let before = seq![END_CHAR] + escaped(orig.take(consumed)) + orig.skip(
                        consumed,
                    );
                    let after = seq![END_CHAR] + escaped(orig.take(consumed + 1)) + orig.skip(
                        consumed + 1,
                    );
                    assert(before =~= after);
                    consumed = consumed + 1;
                }
                index += 1;
            }
        }

        proof {
            assert(orig.take(consumed) =~= orig);
            assert(orig.skip(consumed) =~= Seq::<u8>::empty());
            lemma_escaped_len(orig);
        }

        // End the SLIP frame
        let end_index = vec.len();
        match vec.insert(end_index, END_CHAR) {
            Ok(()) => {},
            Err(()) => {
                return Err(());
            },
        }
        proof {
            assert(vec@ =~= frame(orig));
        }

        Ok(())
    }
}

/// The state of the SLIP decoder.
#[derive(Clone, Copy, Debug, PartialEq, Eq, Structural)]
pub enum SlipDecoderState {
    /// The decoder is waiting for the start of a frame.
    Start,
    /// The decoder has reached the end of a frame.
    End,
    /// The decoder is appending bytes to the payload.
    Append,
    /// The decoder has encountered an escape character.
    Escape,
}

/// The state the decoder moves to on one input byte.
pub open spec fn next_state(state: SlipDecoderState, value: u8) -> SlipDecoderState {
    match state {
        SlipDecoderState::Start => if value == END_CHAR {
            SlipDecoderState::Append
        } else {
            SlipDecoderState::Start
        },
        SlipDecoderState::Append => if value == END_CHAR {
            SlipDecoderState::End
        } else if value == ESC_CHAR {
            SlipDecoderState::Escape
        } else {
            SlipDecoderState::Append
        },
        SlipDecoderState::Escape => SlipDecoderState::Append,
        SlipDecoderState::End => SlipDecoderState::End,
    }
}

/// The payload byte one input byte asks the decoder to store, if any.
pub open spec fn pushed_byte(state: SlipDecoderState, value: u8) -> Option<u8> {
    match state {
        SlipDecoderState::Append => if is_special(value) {
            None
        } else {
            Some(value)
        },
        SlipDecoderState::Escape => if value == ESC_END_CHAR {
            Some(END_CHAR)
        } else if value == ESC_ESC_CHAR {
            Some(ESC_CHAR)
        } else {
            None
        },
        _ => None,
    }
}

/// The decoder's buffer after one input byte: the stored byte is appended
/// when there is one and the capacity `cap` leaves room for it.
pub open spec fn next_buffer(state: SlipDecoderState, buf: Seq<u8>, value: u8, cap: nat) -> Seq<
    u8,
> {
    match pushed_byte(state, value) {
        Some(b) => if buf.len() < cap {
            buf.push(b)
        } else {
            buf
        },
        None => buf,
    }
}

/// Whether the decoder accepts one input byte: rejected are any byte in the
/// terminal state, an invalid escape code, and a payload byte that the full
/// buffer cannot store.
pub open spec fn step_ok(state: SlipDecoderState, buf: Seq<u8>, value: u8, cap: nat) -> bool {
    match state {
        SlipDecoderState::Start => true,
        SlipDecoderState::Append => is_special(value) || buf.len() < cap,
        SlipDecoderState::Escape => (value == ESC_END_CHAR || value == ESC_ESC_CHAR) && buf.len()
            < cap,
        SlipDecoderState::End => false,
    }
}

/// Feeds `input` into the decoder model byte by byte, starting from `state`
/// and `buf`: the resulting state, the resulting buffer, and whether every
/// single byte was accepted.
pub open spec fn run(state: SlipDecoderState, buf: Seq<u8>, cap: nat, input: Seq<u8>) -> (
    SlipDecoderState,
    Seq<u8>,
    bool,
)
    decreases input.len(),
{
    if input.len() == 0 {
        (state, buf, true)
    } else {
        let rest = run(
            next_state(state, input[0]),
            next_buffer(state, buf, input[0], cap),
            cap,
            input.drop_first(),
        );
        (rest.0, rest.1, step_ok(state, buf, input[0], cap) && rest.2)
    }
}

/// A SLIP decoder.
///
/// Fed one byte at a time, it presynchronizes on the first frame delimiter,
/// undoes the encoder's escaping, and holds one decoded payload once the
/// closing delimiter arrives.
pub struct SlipDecoder<const MAX_LENGTH: usize> {
    /// The current state of the decoder.
    pub state: SlipDecoderState,
    /// The buffer holding the payload decoded so far.
    pub buffer: Buffer<MAX_LENGTH>,
}

impl<const MAX_LENGTH: usize> SlipDecoder<MAX_LENGTH> {
    /// The buffer never holds more than its capacity.
    pub open spec fn wf(&self) -> bool {
        self.buffer@.len() <= MAX_LENGTH
    }

    /// Feeds one byte into the decoder.
    ///
    /// State and buffer move exactly as the transition model says; the call
    /// is rejected when the byte is an invalid escape code, arrives after a
    /// completed frame, or needs buffer room that is not there. On a
    /// rejection the state stands as the partial transition set it: recovery
    /// is the caller's, through `reset`.
    pub fn insert(&mut self, value: u8) -> (r: Result<(), ()>)
        requires
            old(self).wf(),
        ensures
            final(self).wf(),
            final(self).state == next_state(old(self).state, value),
            final(self).buffer@ == next_buffer(
                old(self).state,
                old(self).buffer@,
                value,
                MAX_LENGTH as nat,
            ),
            r is Ok <==> step_ok(old(self).state, old(self).buffer@, value, MAX_LENGTH as nat),
    {
        match self.state {
            SlipDecoderState::Start => {
                if value == END_CHAR {
                    self.state = SlipDecoderState::Append;
                }
                Ok(())
            },
            SlipDecoderState::Append => {
                if value == END_CHAR {
                    self.state = SlipDecoderState::End;
                    Ok(())
                } else if value == ESC_CHAR {
                    self.state = SlipDecoderState::Escape;
                    Ok(())
                } else {
                    self.buffer.push(value)
                }
            },
            SlipDecoderState::Escape => {
                self.state = SlipDecoderState::Append;
                if value == ESC_END_CHAR {
                    self.buffer.push(END_CHAR)
                } else if value == ESC_ESC_CHAR {
                    self.buffer.push(ESC_CHAR)
                } else {
                    Err(())
                }
            },
            SlipDecoderState::End => Err(()),
        }
    }

    /// Returns the decoder to its initial state: `Start`, empty buffer.
    pub fn reset(&mut self)
        ensures
            final(self).wf(),
            final(self).state == SlipDecoderState::Start,
            final(self).buffer@ == Seq::<u8>::empty(),
    {
        self.state = SlipDecoderState::Start;
        self.buffer.clear();
    }

    /// Whether a whole frame has been decoded and the buffer holds its
    /// payload.
    #[must_use]
    pub fn is_buffer_completed(&self) -> (r: bool)
        ensures
            r == (self.state == SlipDecoderState::End),
    {
        self.state == SlipDecoderState::End
    }

    /// The payload decoded so far; meaningful once a frame is completed.
    #[must_use]
    pub fn get_buffer(&self) -> (r: &[u8])
        ensures
            r@ == self.buffer@,
    {
        self.buffer.as_slice()
    }
}

impl<const MAX_LENGTH: usize> Default for SlipDecoder<MAX_LENGTH> {
    /// A fresh decoder: state `Start`, empty buffer.
    fn default() -> (d: Self)
        ensures
            d.wf(),
            d.state == SlipDecoderState::Start,
            d.buffer@ == Seq::<u8>::empty(),
    {
        SlipDecoder { state: SlipDecoderState::Start, buffer: Buffer::new() }
    }
}

} // verus!
