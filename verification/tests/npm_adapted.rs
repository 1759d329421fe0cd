use compact_encoding::Decode;
use compact_encoding::DecodeError;
use compact_encoding::Encode;
use compact_encoding::Float64Bits;
use compact_encoding::Raw;
use compact_encoding::State;

// largest integer that survives a round trip through an IEEE-754 double
const MAX_SAFE_INTEGER: u64 = 9007199254740991;

#[test]
fn test_uint() {
    let mut state = State::new();

    (42u8).pre_encode(&mut state);
    assert_eq!(
        state,
        State {
            start: 0,
            end: 1,
            buffer: None,
        }
    );

    (4200u16).pre_encode(&mut state);
    assert_eq!(
        state,
        State {
            start: 0,
            end: 4,
            buffer: None,
        }
    );

    MAX_SAFE_INTEGER.pre_encode(&mut state);
    assert_eq!(
        state,
        State {
            start: 0,
            end: 13,
            buffer: None,
        }
    );

    state.allocate();

    assert_eq!(42u8.encode(&mut state), Ok(()));
    assert_eq!(
        state,
        State {
            start: 1,
            end: 13,
            buffer: Some(vec![42, 0, 0, 0, 0, 0, 0, 0, 0, 0, 0, 0, 0]),
        }
    );

    assert_eq!(4200u16.encode(&mut state), Ok(()));
    assert_eq!(
        state,
        State {
            start: 4,
            end: 13,
            buffer: Some(vec![42, 0xFD, 104, 16, 0, 0, 0, 0, 0, 0, 0, 0, 0]),
        }
    );
    assert_eq!(MAX_SAFE_INTEGER.encode(&mut state), Ok(()));
    assert_eq!(
        state,
        State {
            start: 13,
            end: 13,
            buffer: Some(vec![
                42, 0xFD, 104, 16, 0xFF, 255, 255, 255, 255, 255, 255, 31, 0
            ]),
        }
    );

    state.start = 0;
    assert_eq!(u8::decode(&mut state), Ok(42));
    assert_eq!(state.start, 1);
    assert_eq!(state.end, 13);

    assert_eq!(u16::decode(&mut state), Ok(4200));
    assert_eq!(state.start, 4);
    assert_eq!(state.end, 13);

    assert_eq!(u64::decode(&mut state), Ok(MAX_SAFE_INTEGER));
    assert_eq!(state.start, 13);
    assert_eq!(state.end, 13);

    assert_eq!(state.start, state.end);

    assert_eq!(u8::decode(&mut state), Err(DecodeError::BufferTooSmall));
}

#[test]
fn test_int() {
    let mut state = State::new();

    42i8.pre_encode(&mut state);
    assert_eq!(
        state,
        State {
            start: 0,
            end: 1,
            buffer: None,
        }
    );

    (-4200i16).pre_encode(&mut state);
    assert_eq!(
        state,
        State {
            start: 0,
            end: 4,
            buffer: None,
        }
    );

    state.allocate();

    assert_eq!(42i8.encode(&mut state), Ok(()));
    assert_eq!(
        state,
        State {
            start: 1,
            end: 4,
            buffer: Some(vec![84, 0, 0, 0]),
        }
    );

    assert_eq!((-4200i16).encode(&mut state), Ok(()));
    assert_eq!(
        state,
        State {
            start: 4,
            end: 4,
            buffer: Some(vec![84, 0xFD, 207, 32]),
        }
    );

    state.start = 0;
    assert_eq!(i8::decode(&mut state), Ok(42));
    assert_eq!(state.start, 1);
    assert_eq!(state.end, 4);

    assert_eq!(i16::decode(&mut state), Ok(-4200));
    assert_eq!(state.start, 4);
    assert_eq!(state.end, 4);

    assert_eq!(state.start, state.end);

    assert_eq!(i8::decode(&mut state), Err(DecodeError::BufferTooSmall));
}

#[test]
fn test_float64() {
    let mut state = State::new();
    let num: f64 = 162.2377294;

    Float64Bits(num.to_bits()).pre_encode(&mut state);
    assert_eq!(
        state,
        State {
            start: 0,
            end: 8,
            buffer: None,
        }
    );

    state.allocate();
    assert_eq!(
        state,
        State {
            start: 0,
            end: 8,
            buffer: Some(vec![0, 0, 0, 0, 0, 0, 0, 0]),
        }
    );

    assert_eq!(Float64Bits(num.to_bits()).encode(&mut state), Ok(()));
    assert_eq!(
        state,
        State {
            start: 8,
            end: 8,
            buffer: Some(vec![0x87, 0xC9, 0xAF, 0x7A, 0x9B, 0x47, 0x64, 0x40]),
        }
    );

    state.start = 0;
    assert_eq!(
        Float64Bits::decode(&mut state).map(|bits| f64::from_bits(bits.0)),
        Ok(num)
    );
    assert_eq!(state.start, state.end);

    assert_eq!(
        Float64Bits::decode(&mut state),
        Err(DecodeError::BufferTooSmall)
    );

    // alignment
    state.dealloc();

    0u8.pre_encode(&mut state);
    Float64Bits(num.to_bits()).pre_encode(&mut state);
    assert_eq!(
        state,
        State {
            start: 0,
            end: 9,
            buffer: None,
        }
    );

    state.allocate();
    assert_eq!(
        state,
        State {
            start: 0,
            end: 9,
            buffer: Some(vec![0, 0, 0, 0, 0, 0, 0, 0, 0]),
        }
    );

    assert_eq!(0u8.encode(&mut state), Ok(()));
    assert_eq!(Float64Bits(num.to_bits()).encode(&mut state), Ok(()));
    assert_eq!(
        state,
        State {
            start: 9,
            end: 9,
            buffer: Some(vec![0, 0x87, 0xC9, 0xAF, 0x7A, 0x9B, 0x47, 0x64, 0x40]),
        }
    );

    state.start = 0;
    assert_eq!(u8::decode(&mut state), Ok(0));
    assert_eq!(
        Float64Bits::decode(&mut state).map(|bits| f64::from_bits(bits.0)),
        Ok(num)
    );
    assert_eq!(state.start, state.end);

    assert_eq!(
        Float64Bits::decode(&mut state),
        Err(DecodeError::BufferTooSmall)
    );

    // 0
    state.dealloc();
    Float64Bits(num.to_bits()).pre_encode(&mut state);

    state.allocate();
    assert_eq!(Float64Bits(0f64.to_bits()).encode(&mut state), Ok(()));
    assert_eq!(
        state,
        State {
            start: 8,
            end: 8,
            buffer: Some(vec![0, 0, 0, 0, 0, 0, 0, 0]),
        }
    );

    state.start = 0;
    assert_eq!(
        Float64Bits::decode(&mut state).map(|bits| f64::from_bits(bits.0)),
        Ok(0.)
    );
    assert_eq!(state.start, state.end);

    // infinity
    state.dealloc();
    Float64Bits(f64::INFINITY.to_bits()).pre_encode(&mut state);

    state.allocate();
    assert_eq!(
        Float64Bits(f64::INFINITY.to_bits()).encode(&mut state),
        Ok(())
    );
    assert_eq!(
        state,
        State {
            start: 8,
            end: 8,
            buffer: Some(vec![0, 0, 0, 0, 0, 0, 0xF0, 0x7F]),
        }
    );

    state.start = 0;
    assert_eq!(
        Float64Bits::decode(&mut state).map(|bits| f64::from_bits(bits.0)),
        Ok(f64::INFINITY)
    );
    assert_eq!(state.start, state.end);

    // edge cases
    state.dealloc();
    Float64Bits((0.1 + 0.2f64).to_bits()).pre_encode(&mut state);

    state.allocate();
    assert_eq!(
        Float64Bits((0.1 + 0.2f64).to_bits()).encode(&mut state),
        Ok(())
    );
    assert_eq!(
        state,
        State {
            start: 8,
            end: 8,
            buffer: Some(vec![0x34, 0x33, 0x33, 0x33, 0x33, 0x33, 0xD3, 0x3F]),
        }
    );

    state.start = 0;
    assert_eq!(
        Float64Bits::decode(&mut state).map(|bits| f64::from_bits(bits.0)),
        Ok(0.1 + 0.2)
    );
    assert_eq!(state.start, state.end);
}

#[test]
fn test_buffer() {
    let mut state = State::new();

    Some("hi".as_bytes()).pre_encode(&mut state);
    assert_eq!(
        state,
        State {
            start: 0,
            end: 3,
            buffer: None,
        }
    );
    Some("hello".as_bytes()).pre_encode(&mut state);
    assert_eq!(
        state,
        State {
            start: 0,
            end: 9,
            buffer: None,
        }
    );
    None.pre_encode(&mut state);
    assert_eq!(
        state,
        State {
            start: 0,
            end: 10,
            buffer: None,
        }
    );

    state.allocate();

    assert_eq!(Some("hi".as_bytes()).encode(&mut state), Ok(()));
    assert_eq!(
        state,
        State {
            start: 3,
            end: 10,
            buffer: Some(vec![
                2, 'h' as u8, 'i' as u8, // "hi"
                0, 0, 0, 0, 0, 0, // "hello"
                0, // None
            ]),
        }
    );
    assert_eq!(Some("hello".as_bytes()).encode(&mut state), Ok(()));
    assert_eq!(
        state,
        State {
            start: 9,
            end: 10,
            buffer: Some(vec![
                2, 'h' as u8, 'i' as u8, // "hi"
                5, 'h' as u8, 'e' as u8, 'l' as u8, 'l' as u8, 'o' as u8, // "hello"
                0,         // None
            ]),
        }
    );
    assert_eq!(None.encode(&mut state), Ok(()));
    assert_eq!(
        state,
        State {
            start: 10,
            end: 10,
            buffer: Some(vec![
                2, 'h' as u8, 'i' as u8, // "hi"
                5, 'h' as u8, 'e' as u8, 'l' as u8, 'l' as u8, 'o' as u8, // "hello"
                0,         // None
            ]),
        }
    );

    state.start = 0;
    assert_eq!(
        Option::<Box<Vec<u8>>>::decode(&mut state),
        Ok(Some(Box::new(vec!['h' as u8, 'i' as u8])))
    );
    assert_eq!(
        Option::<Box<Vec<u8>>>::decode(&mut state),
        Ok(Some(Box::new(vec![
            'h' as u8, 'e' as u8, 'l' as u8, 'l' as u8, 'o' as u8
        ])))
    );
    assert_eq!(Option::<Box<Vec<u8>>>::decode(&mut state), Ok(None));
    assert_eq!(state.start, state.end);
    assert_eq!(
        Option::<Box<Vec<u8>>>::decode(&mut state),
        Err(DecodeError::BufferTooSmall)
    );
    // set a smaller buffer -> should throw an error
    state.buffer = Some(Vec::from(&state.buffer.expect("buffer must exist")[0..8]));
    state.start = 3;
    // element at index 3 is 5, which is interpreted as the encoded buffer length
    // however, the newly set buffer has only 4 elements left -> should throw an error
    assert_eq!(
        Option::<Box<Vec<u8>>>::decode(&mut state),
        Err(DecodeError::BufferTooSmall)
    );
}

#[test]
fn test_uint32array() {
    let _state = State::new();
}

#[test]
fn test_array() {
    let _state = State::new();
}

#[test]
fn test_string() {
    let mut state = State::new();
    let emoji_string = "🌾";
    let utf8_string = "høsten er fin";

    emoji_string.pre_encode(&mut state);
    assert_eq!(
        state,
        State {
            start: 0,
            end: 5,
            buffer: None,
        }
    );

    utf8_string.pre_encode(&mut state);
    assert_eq!(
        state,
        State {
            start: 0,
            end: 20,
            buffer: None,
        }
    );

    state.allocate();

    assert_eq!((&emoji_string).encode(&mut state), Ok(()));
    assert_eq!(
        state,
        State {
            start: 5,
            end: 20,
            buffer: Some(
                "\x04🌾\x00\x00\x00\x00\x00\x00\x00\x00\x00\x00\x00\x00\x00\x00\x00"
                    .as_bytes()
                    .to_vec()
            ),
        }
    );

    assert_eq!((&utf8_string).encode(&mut state), Ok(()));
    assert_eq!(
        state,
        State {
            start: 20,
            end: 20,
            buffer: Some("\x04🌾\x0ehøsten er fin".as_bytes().to_vec()),
        }
    );

    state.start = 0;
    assert_eq!(String::decode(&mut state), Ok(emoji_string.into()));
    assert_eq!(String::decode(&mut state), Ok(utf8_string.into()));
    assert_eq!(state.start, state.end);

    assert_eq!(String::decode(&mut state), Err(DecodeError::BufferTooSmall));
}

#[test]
fn test_raw() {
    let mut state = State::new();

    let buffer = "hi".as_bytes();

    Raw::Slice(buffer).pre_encode(&mut state);
    assert_eq!(
        state,
        State {
            start: 0,
            end: 2,
            buffer: None,
        }
    );

    state.allocate();
    assert_eq!(Raw::Slice(buffer).encode(&mut state), Ok(()));
    assert_eq!(
        state,
        State {
            start: 2,
            end: 2,
            buffer: Some(vec![
                'h' as u8, 'i' as u8, // "hi"
            ]),
        }
    );

    state.start = 0;
    assert_eq!(Raw::decode(&mut state), Ok(Raw::Vec(buffer.into())));
    assert_eq!(state.start, state.end);
}

#[test]
fn test_fixed32() {
    let _state = State::new();
}

#[test]
fn test_fixed64() {
    let _state = State::new();
}

#[test]
fn test_fixed() {
    let _state = State::new();
}
