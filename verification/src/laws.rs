//! Protocol-level properties of the codec, stated over the specification
//! model and proved once for all payloads, capacities and input streams.

use vstd::prelude::*;

use crate::slip::ESC_CHAR;
use crate::slip::ESC_END_CHAR;
use crate::slip::ESC_ESC_CHAR;
use crate::slip::END_CHAR;
use crate::slip::SlipDecoderState;
use crate::slip::escape_byte;
use crate::slip::escaped;
use crate::slip::frame;
use crate::slip::is_special;
use crate::slip::lemma_escaped_len;
use crate::slip::next_buffer;
use crate::slip::next_state;
use crate::slip::run;
use crate::slip::special_count;
use crate::slip::step_ok;

verus! {

/// The escaped payload holds no frame delimiter, and each of its escape
/// introducers is directly followed by a valid escape code.
proof fn lemma_escaped_bytes(payload: Seq<u8>)
    ensures
        forall|i: int|
            0 <= i < escaped(payload).len() ==> #[trigger] escaped(payload)[i] != END_CHAR,
        forall|i: int|
            0 <= i < escaped(payload).len() && #[trigger] escaped(payload)[i] == ESC_CHAR ==> i + 1
                < escaped(payload).len() && (escaped(payload)[i + 1] == ESC_END_CHAR || escaped(
                payload,
            )[i + 1] == ESC_ESC_CHAR),
    decreases payload.len(),
{
    if payload.len() > 0 {
        lemma_escaped_bytes(payload.drop_first());
        let head = escape_byte(payload[0]);
        let tail = escaped(payload.drop_first());
        assert(escaped(payload) == head + tail);
        assert forall|i: int|
            0 <= i < escaped(payload).len() implies #[trigger] escaped(payload)[i]
            != END_CHAR by {
            if i < head.len() {
                assert(escaped(payload)[i] == head[i]);
            } else {
                assert(escaped(payload)[i] == tail[i - head.len()]);
            }
        }
        assert forall|i: int|
            0 <= i < escaped(payload).len() && #[trigger] escaped(payload)[i]
                == ESC_CHAR implies i + 1 < escaped(payload).len() && (escaped(payload)[i + 1]
            == ESC_END_CHAR || escaped(payload)[i + 1] == ESC_ESC_CHAR) by {
            if i < head.len() {
                assert(escaped(payload)[i] == head[i]);
                if is_special(payload[0]) && i == 0 {
                    assert(escaped(payload)[i + 1] == head[1]);
                }
            } else {
                assert(escaped(payload)[i] == tail[i - head.len()]);
                assert(escaped(payload)[i + 1] == tail[i + 1 - head.len()]);
            }
        }
    }
}

/// Framing: a frame is exactly the payload length plus the two delimiters
/// plus one byte per special payload byte; it starts and ends with
/// `END_CHAR`; no bare `END_CHAR` stands between the delimiters; and every
/// `ESC_CHAR` between them is directly followed by a valid escape code.
pub proof fn lemma_frame_shape(payload: Seq<u8>)
    ensures
        frame(payload).len() == payload.len() + 2 + special_count(payload),
        frame(payload)[0] == END_CHAR,
        frame(payload)[frame(payload).len() - 1] == END_CHAR,
        forall|i: int|
            0 < i < frame(payload).len() - 1 ==> #[trigger] frame(payload)[i] != END_CHAR,
        forall|i: int|
            0 < i < frame(payload).len() - 1 && #[trigger] frame(payload)[i] == ESC_CHAR ==> i + 1
                < frame(payload).len() - 1 && (frame(payload)[i + 1] == ESC_END_CHAR || frame(
                payload,
            )[i + 1] == ESC_ESC_CHAR),
{
    lemma_escaped_len(payload);
    lemma_escaped_bytes(payload);
    let f = frame(payload);
    let e = escaped(payload);
    assert forall|i: int| 0 < i < f.len() - 1 implies #[trigger] f[i] != END_CHAR by {
        assert(f[i] == e[i - 1]);
    }
    assert forall|i: int|
        0 < i < f.len() - 1 && #[trigger] f[i] == ESC_CHAR implies i + 1 < f.len() - 1 && (f[i + 1]
        == ESC_END_CHAR || f[i + 1] == ESC_ESC_CHAR) by {
        assert(f[i] == e[i - 1]);
        assert(f[i + 1] == e[i]);
    }
}

/// Running the decoder model over a concatenation is running it over the
/// first part and then, from where that left it, over the second; it accepts
/// the whole exactly when it accepts both parts.
proof fn lemma_run_append(state: SlipDecoderState, buf: Seq<u8>, cap: nat, a: Seq<u8>, b: Seq<u8>)
    ensures
        ({
            let ra = run(state, buf, cap, a);
            let rb = run(ra.0, ra.1, cap, b);
            run(state, buf, cap, a + b).0 == rb.0 && run(state, buf, cap, a + b).1 == rb.1 && run(
                state,
                buf,
                cap,
                a + b,
            ).2 == (ra.2 && rb.2)
        }),
    decreases a.len(),
{
    if a.len() == 0 {
        assert(a + b =~= b);
    } else {
        assert((a + b).drop_first() =~= a.drop_first() + b);
        lemma_run_append(
            next_state(state, a[0]),
            next_buffer(state, buf, a[0], cap),
            cap,
            a.drop_first(),
            b,
        );
    }
}

/// Feeding the escaped form of `payload` to an accumulating decoder with
/// room for it appends exactly `payload` to the buffer and accepts every
/// byte.
proof fn lemma_run_escaped(buf: Seq<u8>, cap: nat, payload: Seq<u8>)
    requires
        buf.len() + payload.len() <= cap,
    ensures
        run(SlipDecoderState::Append, buf, cap, escaped(payload)).0 == SlipDecoderState::Append,
        run(SlipDecoderState::Append, buf, cap, escaped(payload)).1 == buf + payload,
        run(SlipDecoderState::Append, buf, cap, escaped(payload)).2,
    decreases payload.len(),
{
    if payload.len() == 0 {
        assert(buf + payload =~= buf);
    } else {
        let v = payload[0];
        let eb = escape_byte(v);
        let rest = payload.drop_first();
        assert(escaped(payload) == eb + escaped(rest));
        let stored: u8 = if v == END_CHAR {
            END_CHAR
        } else if v == ESC_CHAR {
            ESC_CHAR
        } else {
            v
        };
        assert(run(
            SlipDecoderState::Append,
            buf.push(stored),
            cap,
            Seq::<u8>::empty(),
        ) == (SlipDecoderState::Append, buf.push(stored), true));
        if is_special(v) {
            assert(eb.drop_first() =~= seq![eb[1]]);
            assert(seq![eb[1]].drop_first() =~= Seq::<u8>::empty());
            assert(run(SlipDecoderState::Escape, buf, cap, seq![eb[1]]) == (
                SlipDecoderState::Append,
                buf.push(stored),
                true,
            ));
            assert(run(SlipDecoderState::Append, buf, cap, eb) == (
                SlipDecoderState::Append,
                buf.push(stored),
                true,
            ));
        } else {
            assert(eb.drop_first() =~= Seq::<u8>::empty());
            assert(run(SlipDecoderState::Append, buf, cap, eb) == (
                SlipDecoderState::Append,
                buf.push(stored),
                true,
            ));
        }
        lemma_run_append(SlipDecoderState::Append, buf, cap, eb, escaped(rest));
        lemma_run_escaped(buf.push(stored), cap, rest);
        assert(buf.push(stored) + rest =~= buf + payload);
    }
}

/// Round trip: the frame of any payload that fits the decoder's capacity,
/// fed byte by byte into a freshly reset decoder, is accepted in full and
/// leaves the decoder completed with exactly the payload in its buffer.
pub proof fn lemma_round_trip(payload: Seq<u8>, cap: nat)
    requires
        payload.len() <= cap,
    ensures
        run(SlipDecoderState::Start, Seq::<u8>::empty(), cap, frame(payload)).0
            == SlipDecoderState::End,
        run(SlipDecoderState::Start, Seq::<u8>::empty(), cap, frame(payload)).1 == payload,
        run(SlipDecoderState::Start, Seq::<u8>::empty(), cap, frame(payload)).2,
{
    let delim = seq![END_CHAR];
    assert(frame(payload) =~= delim + (escaped(payload) + delim));
    assert(delim.drop_first() =~= Seq::<u8>::empty());
    assert(run(SlipDecoderState::Append, Seq::<u8>::empty(), cap, Seq::<u8>::empty()) == (
        SlipDecoderState::Append,
        Seq::<u8>::empty(),
        true,
    ));
    assert(run(SlipDecoderState::Start, Seq::<u8>::empty(), cap, delim) == (
        SlipDecoderState::Append,
        Seq::<u8>::empty(),
        true,
    ));
    lemma_run_append(
        SlipDecoderState::Start,
        Seq::<u8>::empty(),
        cap,
        delim,
        escaped(payload) + delim,
    );
    lemma_run_append(SlipDecoderState::Append, Seq::<u8>::empty(), cap, escaped(payload), delim);
    lemma_run_escaped(Seq::<u8>::empty(), cap, payload);
    assert(Seq::<u8>::empty() + payload =~= payload);
    assert(run(SlipDecoderState::End, payload, cap, Seq::<u8>::empty()) == (
        SlipDecoderState::End,
        payload,
        true,
    ));
    assert(run(SlipDecoderState::Append, payload, cap, delim) == (
        SlipDecoderState::End,
        payload,
        true,
    ));
}

/// Presync: bytes other than `END_CHAR`, fed while the decoder waits for a
/// frame, are all accepted and ignored — the decoder stays in `Start` with
/// its buffer untouched — and whatever follows decodes exactly as if the
/// noise had never been fed.
pub proof fn lemma_presync(buf: Seq<u8>, cap: nat, noise: Seq<u8>, rest: Seq<u8>)
    requires
        forall|i: int| 0 <= i < noise.len() ==> noise[i] != END_CHAR,
    ensures
        run(SlipDecoderState::Start, buf, cap, noise) == (SlipDecoderState::Start, buf, true),
        run(SlipDecoderState::Start, buf, cap, noise + rest) == run(
            SlipDecoderState::Start,
            buf,
            cap,
            rest,
        ),
    decreases noise.len(),
{
    if noise.len() == 0 {
        assert(noise + rest =~= rest);
        assert(run(SlipDecoderState::Start, buf, cap, noise) =~= (
            SlipDecoderState::Start,
            buf,
            true,
        ));
    } else {
        assert(noise[0] != END_CHAR);
        lemma_presync(buf, cap, noise.drop_first(), rest);
        assert((noise + rest).drop_first() =~= noise.drop_first() + rest);
    }
}

/// Terminal protection: a completed decoder keeps its state and its decoded
/// payload whatever is fed to it, and rejects any nonempty input, until it
/// is reset.
pub proof fn lemma_terminal_protection(buf: Seq<u8>, cap: nat, input: Seq<u8>)
    ensures
        run(SlipDecoderState::End, buf, cap, input).0 == SlipDecoderState::End,
        run(SlipDecoderState::End, buf, cap, input).1 == buf,
        input.len() > 0 ==> !run(SlipDecoderState::End, buf, cap, input).2,
    decreases input.len(),
{
    if input.len() > 0 {
        lemma_terminal_protection(buf, cap, input.drop_first());
    }
}

} // verus!
