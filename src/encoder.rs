use vstd::prelude::*;
use crate::compact::{compact_encoding, encode_args as compact_args};
use crate::config::{EncoderConfig, Layout};
use crate::error::{Error, Fault, fault_error, fault_text};
use crate::legacy::{legacy_encoding, encode_args as legacy_args};
use crate::types::Token;
use crate::unresolved::{Chunk, UnresolvedBytes, chunks_of, resolved};

verus! {

/// The encoding of an argument list in the given layout: its pieces, or the
/// first limit it breaks.
pub open spec fn encoding(cfg: EncoderConfig, layout: Layout, args: Seq<Token>) -> Result<Seq<Chunk>, Fault> {
    match layout {
        Layout::Legacy => legacy_encoding(cfg, false, args),
        Layout::Compact => compact_encoding(cfg, args),
    }
}

/// Whether `r` is what the specified outcome `s` describes: the same pieces, or an
/// error whose message reports the same fault.
pub open spec fn outcome_matches(r: Result<UnresolvedBytes, Error>, s: Result<Seq<Chunk>, Fault>) -> bool {
    match (r, s) {
        (Ok(u), Ok(cs)) => u@ == cs,
        (Err(e), Err(f)) => e.message_view() == fault_text(f),
        _ => false,
    }
}

fn finish(r: Result<Vec<crate::unresolved::Data>, Fault>) -> (out: Result<UnresolvedBytes, Error>)
    ensures
        outcome_matches(out, match r {
            Ok(v) => Ok(chunks_of(v@)),
            Err(f) => Err(f),
        }),
{
    match r {
        Ok(v) => Ok(UnresolvedBytes::new(v)),
        Err(f) => Err(fault_error(f)),
    }
}

/// Encodes argument lists, in the layout it was built with.
#[derive(Clone, Copy, Debug)]
pub struct ABIEncoder {
    pub config: EncoderConfig,
    pub layout: Layout,
}

impl ABIEncoder {
    /// An encoder with the given limits, in the compact layout.
    pub fn new(config: EncoderConfig) -> (r: ABIEncoder)
        ensures
            r.config == config,
            r.layout == Layout::Compact,
    {
        ABIEncoder { config, layout: Layout::Compact }
    }

    /// An encoder with the given limits and layout.
    pub fn with_layout(config: EncoderConfig, layout: Layout) -> (r: ABIEncoder)
        ensures
            r.config == config,
            r.layout == layout,
    {
        ABIEncoder { config, layout }
    }

    /// Encodes the tokens in `args`, one after another.
    pub fn encode(&self, args: &[Token]) -> (r: Result<UnresolvedBytes, Error>)
        ensures
            outcome_matches(r, encoding(self.config, self.layout, args@)),
    {
        match self.layout {
            Layout::Legacy => finish(legacy_args(&self.config, false, args)),
            Layout::Compact => finish(compact_args(&self.config, args)),
        }
    }
}

impl Default for ABIEncoder {
    fn default() -> (r: ABIEncoder)
        ensures
            r.config.max_depth == 45,
            r.config.max_tokens == 10_000,
            r.config.max_total_enum_width == 10_000,
            r.layout == Layout::Compact,
    {
        ABIEncoder::new(EncoderConfig::default())
    }
}

/// Encodes the values of configurable constants, which are written into compiled
/// code in the legacy layout, a lone `u8` or `bool` as a single byte.
#[derive(Clone, Copy, Debug)]
pub struct ConfigurablesEncoder {
    pub config: EncoderConfig,
}

impl ConfigurablesEncoder {
    pub fn new(config: EncoderConfig) -> (r: ConfigurablesEncoder)
        ensures
            r.config == config,
    {
        ConfigurablesEncoder { config }
    }

    /// Encodes the tokens in `args`, one after another.
    pub fn encode(&self, args: &[Token]) -> (r: Result<UnresolvedBytes, Error>)
        ensures
            outcome_matches(r, legacy_encoding(self.config, true, args@)),
    {
        finish(legacy_args(&self.config, true, args))
    }
}

impl Default for ConfigurablesEncoder {
    fn default() -> (r: ConfigurablesEncoder)
        ensures
            r.config.max_depth == 45,
            r.config.max_tokens == 10_000,
            r.config.max_total_enum_width == 10_000,
    {
        ConfigurablesEncoder::new(EncoderConfig::default())
    }
}

/// Encoding is deterministic: two encodings of the same tokens by the same encoder
/// both succeed or both fail; on success they resolve to the same bytes at every
/// offset, and on failure they carry the same message.
pub proof fn encoding_is_deterministic(
    enc: ABIEncoder,
    args: Seq<Token>,
    r1: Result<UnresolvedBytes, Error>,
    r2: Result<UnresolvedBytes, Error>,
)
    requires
        outcome_matches(r1, encoding(enc.config, enc.layout, args)),
        outcome_matches(r2, encoding(enc.config, enc.layout, args)),
    ensures
        r1 is Ok <==> r2 is Ok,
        r1 is Ok ==> forall|o: int| resolved(r1->Ok_0@, o) == resolved(r2->Ok_0@, o),
        r1 is Err ==> r1->Err_0.message_view() == r2->Err_0.message_view(),
{
}

} // verus!
