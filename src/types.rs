use vstd::prelude::*;
use crate::error::{Error, Fault, fault_error, fault_text};
use crate::bytes::{be_bytes, pow256, lemma_be_bytes_split};

verus! {

/// A 256-bit unsigned integer, held as two 128-bit halves.
#[derive(Clone, Copy, Debug, PartialEq, Eq)]
pub struct U256 {
    pub high: u128,
    pub low: u128,
}

impl U256 {
    /// The largest value: all 256 bits set.
    pub fn max_value() -> (r: U256)
        ensures
            r.high == u128::MAX,
            r.low == u128::MAX,
    {
        U256 { high: u128::MAX, low: u128::MAX }
    }

    /// The number the two halves stand for.
    pub open spec fn value(self) -> nat {
        (self.high as nat) * 0x1_0000_0000_0000_0000_0000_0000_0000_0000 + (self.low as nat)
    }

    /// The 32 big-endian bytes of the value are those of its high half, then those
    /// of its low half.
    pub proof fn lemma_bytes(self)
        ensures
            be_bytes(self.value(), 32) == be_bytes(self.high as nat, 16) + be_bytes(self.low as nat, 16),
    {
        reveal_with_fuel(pow256, 17);
        assert(pow256(16) == 0x1_0000_0000_0000_0000_0000_0000_0000_0000);
        lemma_be_bytes_split(self.high as nat, self.low as nat, 16, 16);
    }

    /// The value `high * 2^128 + low`.
    pub fn from_halves(high: u128, low: u128) -> (r: U256)
        ensures
            r.high == high,
            r.low == low,
    {
        U256 { high, low }
    }
}

/// Text of a fixed-length (`str[n]`) or dynamic (`str`) string, with the length that
/// its declared type gives, if any.
#[derive(Debug)]
pub struct StaticStringToken {
    pub data: String,
    pub expected_len: Option<usize>,
}

impl StaticStringToken {
    /// A string token holding `data`, declared `expected_len` bytes long if given.
    pub fn new(data: String, expected_len: Option<usize>) -> (r: StaticStringToken)
        ensures
            r.data@ == data@,
            r.expected_len == expected_len,
    {
        StaticStringToken { data, expected_len }
    }
}

/// The declared shape of a value, as far as its encoded width depends on it.
#[derive(Debug)]
pub enum ParamType {
    Unit,
    Bool,
    U8,
    U16,
    U32,
    U64,
    U128,
    U256,
    B256,
    Bytes,
    String,
    RawSlice,
    StringSlice,
    StringArray(usize),
    Array(Box<ParamType>, usize),
    Vector(Box<ParamType>),
    Tuple(Vec<ParamType>),
    Struct { name: String, fields: Vec<(String, ParamType)>, generics: Vec<ParamType> },
    Enum { name: String, enum_variants: EnumVariants, generics: Vec<ParamType> },
}

/// The declared variants of an enum type, in order, each with its name and type.
#[derive(Debug)]
pub struct EnumVariants {
    pub variants: Vec<(String, ParamType)>,
}

impl EnumVariants {
    /// The variants of an enum type; an enum type must declare at least one.
    pub fn new(variants: Vec<(String, ParamType)>) -> (r: Result<EnumVariants, Error>)
        ensures
            match r {
                Ok(v) => variants@.len() > 0 && v.variants@ == variants@,
                Err(e) => variants@.len() == 0 && e.message_view() == fault_text(Fault::NoVariants),
            },
    {
        if variants.len() == 0 {
            Err(fault_error(Fault::NoVariants))
        } else {
            Ok(EnumVariants { variants })
        }
    }
}

/// A selected enum variant: its zero-based index, its value and the declared variants.
pub type EnumSelector = (u64, Token, EnumVariants);

/// One value to encode.
#[derive(Debug)]
pub enum Token {
    Unit,
    Bool(bool),
    U8(u8),
    U16(u16),
    U32(u32),
    U64(u64),
    U128(u128),
    U256(U256),
    B256([u8; 32]),
    Bytes(Vec<u8>),
    String(String),
    RawSlice(Vec<u8>),
    StringArray(StaticStringToken),
    StringSlice(StaticStringToken),
    Tuple(Vec<Token>),
    Array(Vec<Token>),
    Vector(Vec<Token>),
    Struct(Vec<Token>),
    Enum(Box<EnumSelector>),
}

} // verus!
