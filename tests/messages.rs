use rspirv::{DecodeError, Decoder, State};

#[test]
fn located_messages() {
    assert_eq!(
        State::WordCountZero(24, 2).message(),
        "zero word count found for instruction #2 at offset 24"
    );
    assert_eq!(
        State::OpcodeUnknown(20, 1, 999).message(),
        "unknown opcode (999) for instruction #1 at offset 20"
    );
    assert_eq!(
        State::OperandExpected(32, 10).message(),
        "expected more operands for instruction #10 at offset 32"
    );
    assert_eq!(
        State::OperandExceeded(0, 1).message(),
        "found extra operands for instruction #1 at offset 0"
    );
    assert_eq!(
        State::InstructionIncomplete(4096, 7).message(),
        "incomplete instruction #7 at offset 4096"
    );
}

#[test]
fn plain_messages() {
    assert_eq!(State::Complete.message(), "completed parsing");
    assert_eq!(State::ConsumerStopRequested.message(), "stop parsing requested by consumer");
    assert_eq!(State::HeaderIncorrect.message(), "incorrect module header");
    assert_eq!(State::EndiannessUnsupported.message(), "unsupported endianness");
    assert_eq!(State::ConsumerError("disk full".to_string()).message(), "consumer error: disk full");
}

#[test]
fn wrapped_decode_messages() {
    assert_eq!(
        State::HeaderIncomplete(DecodeError::StreamExpected(12)).message(),
        "incomplete module header: expected more bytes in the stream at offset 12"
    );
    assert_eq!(
        State::OperandError(DecodeError::EnumerantUnknown(28, 77)).message(),
        "operand decoding error: unknown enumerant value 77 at offset 28"
    );
    assert_eq!(DecodeError::LimitReached(8).message(), "reached word limit at offset 8");
    assert_eq!(
        DecodeError::StreamExpected(usize::MAX).message(),
        format!("expected more bytes in the stream at offset {}", usize::MAX)
    );
}

fn bytes(words: &[u32]) -> Vec<u8> {
    words.iter().flat_map(|w| w.to_le_bytes()).collect()
}

#[test]
fn cursor_reads_little_endian_words() {
    let mut d = Decoder::new(vec![0x03, 0x02, 0x23, 0x07, 0xff]);
    assert_eq!(d.word(), Ok(0x07230203));
    assert_eq!(d.offset(), 4);
    assert_eq!(d.word(), Err(DecodeError::StreamExpected(4)));
}

#[test]
fn cursor_words_are_all_or_nothing() {
    let mut d = Decoder::new(bytes(&[1, 2, 3]));
    assert_eq!(d.words(4), Err(DecodeError::StreamExpected(12)));
    assert_eq!(d.offset(), 0);
    assert_eq!(d.words(2), Ok(vec![1, 2]));
    assert_eq!(d.offset(), 8);
}

#[test]
fn cursor_window_bounds_reads() {
    let mut d = Decoder::new(bytes(&[1, 2, 3]));
    d.set_limit(1);
    assert!(!d.limit_reached());
    assert_eq!(d.id(), Ok(1));
    assert!(d.limit_reached());
    assert_eq!(d.word(), Err(DecodeError::LimitReached(4)));
    d.clear_limit();
    assert!(!d.limit_reached());
    assert_eq!(d.word(), Ok(2));
}
