//! The memcached text protocol: its frames, how they are written and read,
//! and the mapping between frames and typed calls.
//!
//! * [`value`], [`request`] and [`response`] hold the frames: each has its
//!   bytes on the wire, a writer that appends exactly those, and a reader
//!   that takes a frame from the front of a buffer, calls for more bytes, or
//!   fails.
//! * [`scan`], [`text`] and [`decimal`] hold what the frames are made of.
//! * [`proto`] holds the two ends of a connection, which read from a buffer
//!   of bytes that have arrived.
//! * [`api`] holds the client's typed calls, [`server`] the way from a
//!   command to a backend and back.
//! * [`laws`] states what holds of writing and reading, whatever the frame;
//!   [`request_laws`] and [`response_laws`] hold the proofs.

pub mod api;
pub mod decimal;
pub mod laws;
pub mod proto;
pub mod request;
pub mod request_laws;
pub mod response;
pub mod response_laws;
pub mod scan;
pub mod server;
pub mod text;
pub mod value;

pub use api::ApiError;
pub use proto::{ClientCodec, FrameError, ReadBuf, ServerCodec};
pub use request::Request;
pub use response::Response;
pub use scan::Parsed;
pub use server::{Api, ApiService, Call, Outcome};
pub use text::BuildError;
pub use value::Value;
