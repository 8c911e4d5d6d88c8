use slip_codec::buffer::Buffer;
use slip_codec::slip::SlipDecoder;
use slip_codec::slip::SlipDecoderState;
use slip_codec::slip::SlipEncoder;
use slip_codec::slip::END_CHAR;
use slip_codec::slip::ESC_CHAR;
use slip_codec::slip::ESC_END_CHAR;
use slip_codec::slip::ESC_ESC_CHAR;

fn buffer_from<const MAX_LENGTH: usize>(bytes: &[u8]) -> Buffer<MAX_LENGTH> {
    let mut buffer = Buffer::<MAX_LENGTH>::new();
    for &byte in bytes {
        buffer.push(byte).unwrap();
    }
    buffer
}

#[test]
fn test_encode() {
    let mut array = buffer_from::<12>(&[0x00, 0x01, 0x02, 0x03]);

    let result = SlipEncoder::encode(&mut array);

    assert!(result.is_ok());
    assert_eq!(array.as_slice(), &[END_CHAR, 0x00, 0x01, 0x02, 0x03, END_CHAR]);
}

#[test]
fn test_encode_empty() {
    let mut array = Buffer::<12>::new();

    let result = SlipEncoder::encode(&mut array);

    assert!(result.is_ok());
    assert_eq!(array.as_slice(), &[END_CHAR, END_CHAR]);
}

#[test]
fn test_encode_with_escape_characters() {
    let mut array = buffer_from::<12>(&[END_CHAR, ESC_CHAR, ESC_END_CHAR, ESC_ESC_CHAR]);

    let result = SlipEncoder::encode(&mut array);

    assert!(result.is_ok());
    assert_eq!(
        array.as_slice(),
        &[
            END_CHAR,
            ESC_CHAR,
            ESC_END_CHAR,
            ESC_CHAR,
            ESC_ESC_CHAR,
            ESC_END_CHAR,
            ESC_ESC_CHAR,
            END_CHAR
        ]
    );
}

#[test]
fn test_decode() {
    let mut slip_decoder = SlipDecoder::<1>::default();

    assert_eq!(slip_decoder.state, SlipDecoderState::Start);

    let result = slip_decoder.insert(END_CHAR);
    assert!(result.is_ok());
    assert_eq!(slip_decoder.state, SlipDecoderState::Append);

    let result = slip_decoder.insert(0x00);
    assert!(result.is_ok());
    assert_eq!(slip_decoder.state, SlipDecoderState::Append);

    let result = slip_decoder.insert(END_CHAR);
    assert!(result.is_ok());
    assert_eq!(slip_decoder.state, SlipDecoderState::End);

    assert!(slip_decoder.is_buffer_completed());

    assert_eq!(slip_decoder.get_buffer(), &[0x00]);
}

#[test]
fn test_decode_with_escape_characters() {
    let mut slip_decoder = SlipDecoder::<6>::default();

    assert_eq!(slip_decoder.state, SlipDecoderState::Start);

    let result = slip_decoder.insert(END_CHAR);
    assert!(result.is_ok());
    assert_eq!(slip_decoder.state, SlipDecoderState::Append);

    let result = slip_decoder.insert(ESC_CHAR);
    assert!(result.is_ok());
    assert_eq!(slip_decoder.state, SlipDecoderState::Escape);

    let result = slip_decoder.insert(ESC_END_CHAR);
    assert!(result.is_ok());
    assert_eq!(slip_decoder.state, SlipDecoderState::Append);

    let result = slip_decoder.insert(ESC_CHAR);
    assert!(result.is_ok());
    assert_eq!(slip_decoder.state, SlipDecoderState::Escape);

    let result = slip_decoder.insert(ESC_ESC_CHAR);
    assert!(result.is_ok());
    assert_eq!(slip_decoder.state, SlipDecoderState::Append);

    let result = slip_decoder.insert(END_CHAR);
    assert!(result.is_ok());
    assert_eq!(slip_decoder.state, SlipDecoderState::End);

    assert!(slip_decoder.is_buffer_completed());

    assert_eq!(slip_decoder.get_buffer(), &[END_CHAR, ESC_CHAR]);
}

#[test]
fn test_decode_with_bad_escape_character() {
    let mut slip_decoder = SlipDecoder::<1>::default();

    assert_eq!(slip_decoder.state, SlipDecoderState::Start);

    let result = slip_decoder.insert(END_CHAR);
    assert!(result.is_ok());
    assert_eq!(slip_decoder.state, SlipDecoderState::Append);

    let result = slip_decoder.insert(ESC_CHAR);
    assert!(result.is_ok());
    assert_eq!(slip_decoder.state, SlipDecoderState::Escape);

    let result = slip_decoder.insert(0x00);
    assert!(result.is_err());
}

#[test]
fn test_decode_empty() {
    let mut slip_decoder = SlipDecoder::<0>::default();

    assert_eq!(slip_decoder.state, SlipDecoderState::Start);

    let result = slip_decoder.insert(END_CHAR);
    assert!(result.is_ok());
    assert_eq!(slip_decoder.state, SlipDecoderState::Append);

    let result = slip_decoder.insert(END_CHAR);
    assert!(result.is_ok());
    assert_eq!(slip_decoder.state, SlipDecoderState::End);

    assert!(slip_decoder.is_buffer_completed());

    assert_eq!(slip_decoder.get_buffer(), &[]);
}

#[test]
fn test_decode_and_reset() {
    let mut slip_decoder = SlipDecoder::<1>::default();

    assert_eq!(slip_decoder.state, SlipDecoderState::Start);

    let result = slip_decoder.insert(END_CHAR);
    assert!(result.is_ok());
    assert_eq!(slip_decoder.state, SlipDecoderState::Append);

    let result = slip_decoder.insert(0x00);
    assert!(result.is_ok());
    assert_eq!(slip_decoder.state, SlipDecoderState::Append);

    let result = slip_decoder.insert(END_CHAR);
    assert!(result.is_ok());
    assert_eq!(slip_decoder.state, SlipDecoderState::End);

    assert!(slip_decoder.is_buffer_completed());

    assert_eq!(slip_decoder.get_buffer(), &[0x00]);

    slip_decoder.reset();
    assert_eq!(slip_decoder.state, SlipDecoderState::Start);
    assert!(!slip_decoder.is_buffer_completed());
}

#[test]
fn test_decode_with_not_enough_space() {
    let mut slip_decoder = SlipDecoder::<1>::default();

    assert_eq!(slip_decoder.state, SlipDecoderState::Start);

    let result = slip_decoder.insert(END_CHAR);
    assert!(result.is_ok());
    assert_eq!(slip_decoder.state, SlipDecoderState::Append);

    let result = slip_decoder.insert(0x00);
    assert!(result.is_ok());
    assert_eq!(slip_decoder.state, SlipDecoderState::Append);

    let result = slip_decoder.insert(0x00);
    assert!(result.is_err());
}

#[test]
fn test_encode_exact_capacity() {
    // frame length is payload length + 2 + one byte per special byte: 2 + 2 + 1
    let mut array = buffer_from::<5>(&[0x01, END_CHAR]);

    let result = SlipEncoder::encode(&mut array);

    assert!(result.is_ok());
    assert_eq!(array.as_slice(), &[END_CHAR, 0x01, ESC_CHAR, ESC_END_CHAR, END_CHAR]);
}

#[test]
fn test_encode_not_enough_space() {
    // four payload bytes need six frame bytes, one more than the capacity
    let mut array = buffer_from::<5>(&[0x00, 0x01, 0x02, 0x03]);

    let result = SlipEncoder::encode(&mut array);

    assert!(result.is_err());
}

#[test]
fn test_encode_not_enough_space_for_escape() {
    // the special byte needs a two-byte escape, taking the frame to six bytes
    let mut array = buffer_from::<5>(&[0x00, 0x01, ESC_CHAR]);

    let result = SlipEncoder::encode(&mut array);

    assert!(result.is_err());
}

#[test]
fn test_round_trip_through_decoder() {
    let payload: [u8; 4] = [0x41, END_CHAR, 0x42, ESC_CHAR];
    let mut array = buffer_from::<10>(&payload);

    assert!(SlipEncoder::encode(&mut array).is_ok());

    let mut slip_decoder = SlipDecoder::<8>::default();
    for &byte in array.as_slice() {
        assert!(slip_decoder.insert(byte).is_ok());
    }

    assert!(slip_decoder.is_buffer_completed());
    assert_eq!(slip_decoder.get_buffer(), &payload);
}

#[test]
fn test_round_trip_empty_payload() {
    let mut array = Buffer::<2>::new();

    assert!(SlipEncoder::encode(&mut array).is_ok());

    let mut slip_decoder = SlipDecoder::<4>::default();
    for &byte in array.as_slice() {
        assert!(slip_decoder.insert(byte).is_ok());
    }

    assert!(slip_decoder.is_buffer_completed());
    assert_eq!(slip_decoder.get_buffer(), &[]);
}

#[test]
fn test_presync_ignores_leading_garbage() {
    let mut slip_decoder = SlipDecoder::<4>::default();

    for &byte in &[0x01, ESC_CHAR, 0xFF, ESC_END_CHAR] {
        assert!(slip_decoder.insert(byte).is_ok());
        assert_eq!(slip_decoder.state, SlipDecoderState::Start);
        assert_eq!(slip_decoder.get_buffer(), &[]);
    }

    for &byte in &[END_CHAR, 0x41, END_CHAR] {
        assert!(slip_decoder.insert(byte).is_ok());
    }

    assert!(slip_decoder.is_buffer_completed());
    assert_eq!(slip_decoder.get_buffer(), &[0x41]);
}

#[test]
fn test_terminal_state_rejects_bytes_until_reset() {
    let mut slip_decoder = SlipDecoder::<2>::default();

    for &byte in &[END_CHAR, 0x41, END_CHAR] {
        assert!(slip_decoder.insert(byte).is_ok());
    }
    assert!(slip_decoder.is_buffer_completed());

    // every byte is rejected now, the decoded payload stays as it is
    assert!(slip_decoder.insert(0x42).is_err());
    assert!(slip_decoder.insert(END_CHAR).is_err());
    assert!(slip_decoder.is_buffer_completed());
    assert_eq!(slip_decoder.get_buffer(), &[0x41]);

    slip_decoder.reset();
    assert_eq!(slip_decoder.state, SlipDecoderState::Start);
    assert!(!slip_decoder.is_buffer_completed());
    assert_eq!(slip_decoder.get_buffer(), &[]);

    for &byte in &[END_CHAR, 0x42, END_CHAR] {
        assert!(slip_decoder.insert(byte).is_ok());
    }
    assert!(slip_decoder.is_buffer_completed());
    assert_eq!(slip_decoder.get_buffer(), &[0x42]);
}

#[test]
fn test_bad_escape_leaves_decoder_in_append() {
    let mut slip_decoder = SlipDecoder::<2>::default();

    assert!(slip_decoder.insert(END_CHAR).is_ok());
    assert!(slip_decoder.insert(ESC_CHAR).is_ok());
    assert!(slip_decoder.insert(0x00).is_err());

    // the failed transition still moved the state out of Escape
    assert_eq!(slip_decoder.state, SlipDecoderState::Append);

    slip_decoder.reset();
    assert_eq!(slip_decoder.state, SlipDecoderState::Start);
    assert_eq!(slip_decoder.get_buffer(), &[]);
}

#[test]
fn test_decode_escaped_end_only() {
    let mut slip_decoder = SlipDecoder::<1>::default();

    for &byte in &[END_CHAR, ESC_CHAR, ESC_END_CHAR, END_CHAR] {
        assert!(slip_decoder.insert(byte).is_ok());
    }

    assert!(slip_decoder.is_buffer_completed());
    assert_eq!(slip_decoder.get_buffer(), &[END_CHAR]);
}

#[test]
fn test_buffer_push_insert_write_get() {
    let mut buffer = Buffer::<3>::new();

    assert_eq!(buffer.len(), 0);
    assert!(buffer.push(0x01).is_ok());
    assert!(buffer.push(0x02).is_ok());
    assert!(buffer.insert(0, 0x09).is_ok());
    assert_eq!(buffer.len(), 3);
    assert_eq!(buffer.get(0), 0x09);
    assert_eq!(buffer.get(1), 0x01);
    assert_eq!(buffer.get(2), 0x02);

    assert!(buffer.write(1, 0x07).is_ok());
    assert_eq!(buffer.as_slice(), &[0x09, 0x07, 0x02]);

    // the buffer is full: nothing more can be placed in it
    assert!(buffer.push(0x0A).is_err());
    assert!(buffer.insert(0, 0x0A).is_err());
    assert_eq!(buffer.as_slice(), &[0x09, 0x07, 0x02]);

    buffer.clear();
    assert_eq!(buffer.len(), 0);
    assert_eq!(buffer.as_slice(), &[]);
}

#[test]
fn test_buffer_write_appends_at_length() {
    let mut buffer = Buffer::<2>::new();

    assert!(buffer.write(0, 0x05).is_ok());
    assert!(buffer.write(1, 0x06).is_ok());
    assert_eq!(buffer.as_slice(), &[0x05, 0x06]);

    // out of capacity, and past the end
    assert!(buffer.write(2, 0x07).is_err());
    assert_eq!(buffer.as_slice(), &[0x05, 0x06]);
}
