use vstd::prelude::*;

verus! {

/// Limits that an encoding is held to.
#[derive(Debug, Clone, Copy)]
pub struct EncoderConfig {
    /// Entering a struct, array, tuple, enum or vector increases the depth. Encoding
    /// fails if the depth becomes greater than `max_depth`.
    pub max_depth: usize,
    /// Every encoded token increases the token count. Encoding fails if the count
    /// becomes greater than `max_tokens`.
    pub max_tokens: usize,
    /// Encoding fails on an enum whose width, in bytes, is greater than this.
    pub max_total_enum_width: usize,
}

impl Default for EncoderConfig {
    fn default() -> (r: EncoderConfig)
        ensures
            r.max_depth == 45,
            r.max_tokens == 10_000,
            r.max_total_enum_width == 10_000,
    {
        EncoderConfig { max_depth: 45, max_tokens: 10_000, max_total_enum_width: 10_000 }
    }
}

/// How values are laid out.
#[derive(Debug, Clone, Copy)]
pub enum Layout {
    /// Word-aligned values, variable-length data behind pointers, enums padded to
    /// their widest variant.
    Legacy,
    /// Values at their natural width, variable-length data in place after its length.
    Compact,
}

} // verus!
