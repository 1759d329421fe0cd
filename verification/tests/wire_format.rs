use compact_encoding::Decode;
use compact_encoding::DecodeError;
use compact_encoding::Encode;
use compact_encoding::EncodeError;
use compact_encoding::Fixed;
use compact_encoding::Float32Bits;
use compact_encoding::Float64Bits;
use compact_encoding::Raw;
use compact_encoding::State;
use compact_encoding::U32Array;
use compact_encoding::zig_zag_decode;
use compact_encoding::zig_zag_encode;

fn state_over(bytes: Vec<u8>) -> State {
    let mut state = State::new();
    state.end = bytes.len();
    state.buffer = Some(bytes);
    state
}

fn encoding_of<T: Encode>(value: &T) -> Vec<u8> {
    let mut state = State::new();
    value.pre_encode(&mut state);
    state.allocate();
    assert_eq!(value.encode(&mut state), Ok(()));
    assert_eq!(state.start, state.end);
    state.buffer.expect("buffer was allocated")
}

#[test]
fn test_minimal_width_boundaries() {
    assert_eq!(encoding_of(&252usize), vec![252]);
    assert_eq!(encoding_of(&253usize), vec![0xFD, 253, 0]);
    assert_eq!(encoding_of(&65535usize), vec![0xFD, 255, 255]);
    assert_eq!(encoding_of(&65536usize), vec![0xFE, 0, 0, 1, 0]);
    assert_eq!(encoding_of(&4294967295usize), vec![0xFE, 255, 255, 255, 255]);
    assert_eq!(
        encoding_of(&4294967296usize),
        vec![0xFF, 0, 0, 0, 0, 1, 0, 0, 0]
    );
}

#[test]
fn test_zig_zag_values() {
    assert_eq!(zig_zag_encode(0), 0);
    assert_eq!(zig_zag_encode(-1), 1);
    assert_eq!(zig_zag_encode(1), 2);
    assert_eq!(zig_zag_decode(0), 0);
    assert_eq!(zig_zag_decode(1), -1);
    assert_eq!(zig_zag_decode(2), 1);
    assert_eq!(zig_zag_decode(zig_zag_encode(i64::MAX)), i64::MAX);
    assert_eq!(zig_zag_decode(zig_zag_encode(i64::MIN)), i64::MIN);
    assert_eq!(zig_zag_decode(zig_zag_encode(-4200)), -4200);
    assert_eq!(zig_zag_encode(i64::MIN), u64::MAX);
}

#[test]
fn test_end_to_end_triple() {
    let mut state = State::new();
    42u8.pre_encode(&mut state);
    4200u16.pre_encode(&mut state);
    9007199254740991u64.pre_encode(&mut state);
    assert_eq!(state.end, 13);

    state.allocate();
    assert_eq!(42u8.encode(&mut state), Ok(()));
    assert_eq!(4200u16.encode(&mut state), Ok(()));
    assert_eq!(9007199254740991u64.encode(&mut state), Ok(()));
    assert_eq!(
        state.buffer,
        Some(vec![
            42, 0xFD, 0x68, 0x10, 0xFF, 0xFF, 0xFF, 0xFF, 0xFF, 0xFF, 0xFF, 0x1F, 0x00
        ])
    );

    state.start = 0;
    assert_eq!(u8::decode(&mut state), Ok(42));
    assert_eq!(u16::decode(&mut state), Ok(4200));
    assert_eq!(u64::decode(&mut state), Ok(9007199254740991));
    assert_eq!(state.start, 13);
    assert_eq!(state.end, 13);
}

#[test]
fn test_truncated_buffers_fail_for_every_codec() {
    // a u16 frame cut off after its marker
    let mut state = state_over(vec![0xFD, 1]);
    assert_eq!(u16::decode(&mut state), Err(DecodeError::BufferTooSmall));

    // a u32 frame cut off inside its payload
    let mut state = state_over(vec![0xFE, 1, 2, 3]);
    assert_eq!(u32::decode(&mut state), Err(DecodeError::BufferTooSmall));

    // a u64 frame cut off inside its payload
    let mut state = state_over(vec![0xFF, 1, 2, 3, 4, 5, 6, 7]);
    assert_eq!(u64::decode(&mut state), Err(DecodeError::BufferTooSmall));

    // a string that declares more bytes than remain
    let mut state = state_over(vec![5, b'h', b'i']);
    assert_eq!(String::decode(&mut state), Err(DecodeError::BufferTooSmall));

    // a buffer that declares more bytes than remain
    let mut state = state_over(vec![5, b'h', b'i']);
    assert_eq!(
        Option::<Box<Vec<u8>>>::decode(&mut state),
        Err(DecodeError::BufferTooSmall)
    );

    // a sequence that declares more elements than remain
    let mut state = state_over(vec![9, 1, 0]);
    assert_eq!(
        Vec::<bool>::decode(&mut state),
        Err(DecodeError::BufferTooSmall)
    );

    // a word sequence cut off inside a word
    let mut state = state_over(vec![1, 9, 9]);
    assert_eq!(
        U32Array::decode(&mut state),
        Err(DecodeError::BufferTooSmall)
    );

    // a fixed block larger than what remains
    let mut state = state_over(vec![1, 2]);
    assert_eq!(
        Fixed::<3>::decode(&mut state),
        Err(DecodeError::BufferTooSmall)
    );

    // float words cut short
    let mut state = state_over(vec![1, 2, 3]);
    assert_eq!(
        Float32Bits::decode(&mut state),
        Err(DecodeError::BufferTooSmall)
    );
    let mut state = state_over(vec![1, 2, 3, 4, 5, 6, 7]);
    assert_eq!(
        Float64Bits::decode(&mut state),
        Err(DecodeError::BufferTooSmall)
    );

    // an empty window fails even a bool
    let mut state = state_over(vec![]);
    assert_eq!(bool::decode(&mut state), Err(DecodeError::BufferTooSmall));
}

#[test]
fn test_array_too_large_ceiling() {
    // a count just above the ceiling, with enough bytes on hand so that
    // only the ceiling itself can reject it
    let count: u32 = 1048577;
    let mut bytes = vec![0xFE];
    bytes.extend_from_slice(&count.to_le_bytes());
    bytes.resize(5 + count as usize, 1u8);
    let mut state = state_over(bytes);
    assert_eq!(
        Vec::<bool>::decode(&mut state),
        Err(DecodeError::ArrayTooLarge)
    );

    // at the ceiling the count is accepted
    let count: u32 = 1048576;
    let mut bytes = vec![0xFE];
    bytes.extend_from_slice(&count.to_le_bytes());
    bytes.resize(5 + count as usize, 1u8);
    let mut state = state_over(bytes);
    let decoded = Vec::<bool>::decode(&mut state).expect("count at the ceiling decodes");
    assert_eq!(decoded.len(), count as usize);
    assert!(decoded[0]);
}

#[test]
fn test_invalid_utf8_is_rejected() {
    // correct declared length, invalid content
    let mut state = state_over(vec![2, 0xFF, 0xFE]);
    assert_eq!(String::decode(&mut state), Err(DecodeError::InvalidUtf8));

    // a lone continuation byte
    let mut state = state_over(vec![1, 0x80]);
    assert_eq!(String::decode(&mut state), Err(DecodeError::InvalidUtf8));

    // a multi-byte scalar decodes to the character, not to its raw bytes
    let mut state = state_over(vec![2, 0xC3, 0xA9]);
    assert_eq!(String::decode(&mut state), Ok(String::from("é")));
}

#[test]
fn test_type_mismatch_on_fixed_width_decode() {
    // a literal byte where a u16 marker is demanded
    let mut state = state_over(vec![42, 0, 0]);
    assert_eq!(u16::decode(&mut state), Err(DecodeError::TypeMismatch));

    // a u16 marker where a u32 marker is demanded
    let mut state = state_over(vec![0xFD, 0, 0, 0, 0]);
    assert_eq!(u32::decode(&mut state), Err(DecodeError::TypeMismatch));

    // a u32 marker where a u64 marker is demanded
    let mut state = state_over(vec![0xFE, 0, 0, 0, 0, 0, 0, 0, 0]);
    assert_eq!(u64::decode(&mut state), Err(DecodeError::TypeMismatch));

    // the generic decode auto-selects the width instead
    let mut state = state_over(vec![0xFD, 0x68, 0x10]);
    assert_eq!(usize::decode(&mut state), Ok(4200));
}

#[test]
fn test_encode_errors() {
    // encoding without a buffer, with room before the boundary
    let mut state = State::new();
    42u8.pre_encode(&mut state);
    assert_eq!(42u8.encode(&mut state), Err(EncodeError::NoBuffer));

    // encoding past the boundary of an allocated buffer
    let mut state = State::new();
    42u8.pre_encode(&mut state);
    state.allocate();
    assert_eq!(4200u16.encode(&mut state), Err(EncodeError::BufferTooSmall));

    // decoding without a buffer
    let mut state = State::new();
    state.end = 3;
    assert_eq!(u16::decode(&mut state), Err(DecodeError::NoBuffer));
}

#[test]
fn test_array_of_bools_round_trip() {
    let mut state = State::new();

    let first = vec![true, false, true];
    let second = vec![false, false, true, true];
    first.pre_encode(&mut state);
    assert_eq!(state.end, 4);
    second.pre_encode(&mut state);
    assert_eq!(state.end, 9);

    state.allocate();
    assert_eq!(first.encode(&mut state), Ok(()));
    assert_eq!(
        state.buffer,
        Some(vec![3, 1, 0, 1, 0, 0, 0, 0, 0])
    );
    assert_eq!(second.encode(&mut state), Ok(()));
    assert_eq!(
        state.buffer,
        Some(vec![3, 1, 0, 1, 4, 0, 0, 1, 1])
    );

    state.start = 0;
    assert_eq!(Vec::<bool>::decode(&mut state), Ok(first));
    assert_eq!(Vec::<bool>::decode(&mut state), Ok(second));
    assert_eq!(state.start, state.end);

    assert_eq!(
        Vec::<bool>::decode(&mut state),
        Err(DecodeError::BufferTooSmall)
    );
}

#[test]
fn test_uint32array_round_trip() {
    let mut state = State::new();

    let first = vec![1u32];
    let second = vec![42u32, 43u32];
    U32Array::VecRef(&first).pre_encode(&mut state);
    assert_eq!(state.end, 5);
    U32Array::VecRef(&second).pre_encode(&mut state);
    assert_eq!(state.end, 14);

    state.allocate();
    assert_eq!(U32Array::VecRef(&first).encode(&mut state), Ok(()));
    assert_eq!(
        state.buffer,
        Some(vec![1, 1, 0, 0, 0, 0, 0, 0, 0, 0, 0, 0, 0, 0])
    );
    assert_eq!(U32Array::Slice(&second).encode(&mut state), Ok(()));
    assert_eq!(
        state.buffer,
        Some(vec![1, 1, 0, 0, 0, 2, 42, 0, 0, 0, 43, 0, 0, 0])
    );

    state.start = 0;
    assert_eq!(U32Array::decode(&mut state), Ok(U32Array::Vec(first)));
    assert_eq!(U32Array::decode(&mut state), Ok(U32Array::Vec(second)));
    assert_eq!(state.start, state.end);

    assert_eq!(
        U32Array::decode(&mut state),
        Err(DecodeError::BufferTooSmall)
    );
}

#[test]
fn test_fixed_round_trip() {
    // a fixed block carries no frame: decode it from raw bytes, encode it
    // back, and the same bytes come out
    let mut state = state_over(vec![7, 8, 9]);
    let block = Fixed::<3>::decode(&mut state).expect("three bytes are available");
    assert_eq!(state.start, 3);

    assert_eq!(encoding_of(&block), vec![7, 8, 9]);

    // a fixed block at an exhausted cursor is refused
    let mut state = state_over(vec![7, 8, 9]);
    state.start = 3;
    assert_eq!(
        Fixed::<3>::decode(&mut state),
        Err(DecodeError::BufferTooSmall)
    );
}

#[test]
fn test_signed_round_trips() {
    for value in [-128i8, -1, 0, 1, 127] {
        let mut state = state_over(encoding_of(&value));
        assert_eq!(i8::decode(&mut state), Ok(value));
        assert_eq!(state.start, state.end);
    }
    for value in [i16::MIN, -4200, 0, 4200, i16::MAX] {
        let mut state = state_over(encoding_of(&value));
        assert_eq!(i16::decode(&mut state), Ok(value));
        assert_eq!(state.start, state.end);
    }
    for value in [i32::MIN, -1, 0, 1, i32::MAX] {
        let mut state = state_over(encoding_of(&value));
        assert_eq!(i32::decode(&mut state), Ok(value));
        assert_eq!(state.start, state.end);
    }
    for value in [i64::MIN, -1, 0, 1, i64::MAX] {
        let mut state = state_over(encoding_of(&value));
        assert_eq!(i64::decode(&mut state), Ok(value));
        assert_eq!(state.start, state.end);
    }
}

#[test]
fn test_raw_consumes_the_tail() {
    let mut state = state_over(vec![10, 20, 30]);
    state.start = 1;
    assert_eq!(Raw::decode(&mut state), Ok(Raw::Vec(vec![20, 30])));
    assert_eq!(state.start, state.end);
}

#[test]
fn test_bool_decode_nonzero_bytes() {
    // the byte value 1 reads back as true; every other byte, including
    // values above 1, reads back as false
    let mut state = state_over(vec![1, 0, 2, 255]);
    assert_eq!(bool::decode(&mut state), Ok(true));
    assert_eq!(bool::decode(&mut state), Ok(false));
    assert_eq!(bool::decode(&mut state), Ok(false));
    assert_eq!(bool::decode(&mut state), Ok(false));
    assert_eq!(state.start, state.end);
}

#[test]
fn test_error_messages() {
    assert_eq!(
        EncodeError::NoBuffer.message(),
        "no buffer allocated in State struct"
    );
    assert_eq!(
        DecodeError::ArrayTooLarge.message(),
        "the encoded array is bigger than the maximum supported array size of 1048576"
    );
    assert_eq!(
        DecodeError::InvalidUtf8.message(),
        "the buffer did not contain a valid UTF8 string when decoding to a string"
    );
}
