//! A compact, self-describing binary encoding: a deterministic mapping
//! between typed in-memory values and a minimal-length byte representation.
//!
//! Every codec works against a [`State`] cursor in two phases: a sizing pass
//! (`pre_encode`) that accumulates the required buffer length, and a fill or
//! read pass (`encode` / `decode`) that advances the cursor over the bytes.

pub mod arrays;
pub mod codec;
pub mod compound;
pub mod error;
pub mod fixed;
pub mod laws;
pub mod state;
pub mod wire;

pub use arrays::U32Array;
pub use codec::Decode;
pub use codec::Encode;
pub use codec::zig_zag_decode;
pub use codec::zig_zag_encode;
pub use compound::Raw;
pub use error::DecodeError;
pub use error::DecodeResultT;
pub use error::EncodeError;
pub use error::EncodeResult;
pub use fixed::Fixed;
pub use fixed::Fixed32;
pub use fixed::Fixed64;
pub use fixed::Float32Bits;
pub use fixed::Float64Bits;
pub use laws::RoundTrip;
pub use state::Reader;
pub use state::State;
pub use state::Writer;
pub use wire::MAX_ARRAY_DECODE_SIZE;
pub use wire::U16_PREFIX;
pub use wire::U32_PREFIX;
pub use wire::U64_PREFIX;
pub use wire::U8_MAX_VALUE;
