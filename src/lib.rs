//! Table-driven UTF-8 validation over fixed-size blocks, with a proof that the
//! block classification accepts exactly the well-formed UTF-8 byte sequences.

pub mod tables;
pub mod grammar;
pub mod classify;
pub mod block;
pub mod validate;
pub mod stream;

pub use block::{process_block, BlockOutcome, CarriedState, BLOCK_SIZE};
pub use stream::Utf8Stream;
pub use validate::{utf8_validate, ValidateError};
