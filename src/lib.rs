//! Encodes typed values into the binary layout that contract calls, predicate data
//! and configurable constants use, in two layouts: a word-aligned legacy layout with
//! variable-length data behind pointers, and a compact layout.

pub mod bytes;
pub mod compact;
pub mod config;
pub mod depth;
pub mod conformance;
pub mod encoder;
pub mod error;
pub mod legacy;
pub mod selector;
pub mod types;
pub mod unresolved;
pub mod width;

pub use config::{EncoderConfig, Layout};
pub use encoder::{ABIEncoder, ConfigurablesEncoder};
pub use error::Error;
pub use selector::first_four_bytes_of_sha256_hash;
pub use types::{EnumSelector, EnumVariants, ParamType, StaticStringToken, Token, U256};
pub use unresolved::{Data, UnresolvedBytes};
