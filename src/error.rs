use vstd::prelude::*;
use vstd::string::StringExecFns;

verus! {

/// The reason an encoding or a resolution was refused.
#[derive(Clone, Copy, Debug)]
pub enum Fault {
    /// Nesting went deeper than the configured depth limit.
    DepthLimit(usize),
    /// More tokens were visited than the configured token limit.
    TokenLimit(usize),
    /// An enum is wider than the configured maximum total enum width.
    EnumTooWide(usize),
    /// An enum's discriminant names no declared variant.
    UnknownVariant(u64),
    /// A variable-length value is too long for its padded length to be represented.
    LengthOverflow(usize),
    /// A pointer would not fit in a word once placed at the given offset.
    PointerOverflow(u64),
    /// An enum type was declared without variants.
    NoVariants,
}

/// The error of this library: a codec error with a message that says what failed.
#[derive(Debug)]
pub enum Error {
    Codec(String),
}

impl Error {
    pub open spec fn message_view(&self) -> Seq<char> {
        match self {
            Error::Codec(m) => m@,
        }
    }

    /// The error's message.
    pub fn to_string(&self) -> (r: String)
        ensures
            r@ == self.message_view(),
    {
        match self {
            Error::Codec(m) => m.clone(),
        }
    }
}

pub open spec fn digit_char(d: nat) -> char {
    if d == 0 { '0' }
    else if d == 1 { '1' }
    else if d == 2 { '2' }
    else if d == 3 { '3' }
    else if d == 4 { '4' }
    else if d == 5 { '5' }
    else if d == 6 { '6' }
    else if d == 7 { '7' }
    else if d == 8 { '8' }
    else { '9' }
}

/// The decimal digits of `n`, without leading zeros.
pub open spec fn decimal(n: nat) -> Seq<char>
    decreases n,
{
    if n < 10 {
        seq![digit_char(n)]
    } else {
        decimal(n / 10).push(digit_char(n % 10))
    }
}

/// The message that goes with each fault.
pub open spec fn fault_text(f: Fault) -> Seq<char> {
    match f {
        Fault::DepthLimit(n) => "depth limit `"@ + decimal(n as nat)
            + "` reached while encoding. Try increasing it"@,
        Fault::TokenLimit(n) => "token limit `"@ + decimal(n as nat)
            + "` reached while encoding. Try increasing it"@,
        Fault::EnumTooWide(n) => "enum is wider than `"@ + decimal(n as nat)
            + "` bytes. Try increasing maximum total enum width"@,
        Fault::UnknownVariant(d) => "discriminant `"@ + decimal(d as nat)
            + "` doesn't point to any variant"@,
        Fault::LengthOverflow(n) => "length `"@ + decimal(n as nat)
            + "` cannot be padded to a whole number of words"@,
        Fault::PointerOverflow(o) => "pointers overflow a word when resolved at offset `"@
            + decimal(o as nat) + "`"@,
        Fault::NoVariants => "enum variants can not be empty"@,
    }
}

fn digit_str(d: u64) -> (s: &'static str)
    requires
        d < 10,
    ensures
        s@ == seq![digit_char(d as nat)],
{
    proof {
        reveal_strlit("0");
        reveal_strlit("1");
        reveal_strlit("2");
        reveal_strlit("3");
        reveal_strlit("4");
        reveal_strlit("5");
        reveal_strlit("6");
        reveal_strlit("7");
        reveal_strlit("8");
        reveal_strlit("9");
    }
    if d == 0 { "0" }
    else if d == 1 { "1" }
    else if d == 2 { "2" }
    else if d == 3 { "3" }
    else if d == 4 { "4" }
    else if d == 5 { "5" }
    else if d == 6 { "6" }
    else if d == 7 { "7" }
    else if d == 8 { "8" }
    else { "9" }
}

/// Appends the decimal digits of `n` to `s`.
pub fn push_decimal(s: &mut String, n: u64)
    ensures
        final(s)@ == old(s)@ + decimal(n as nat),
    decreases n,
{
    if n >= 10 {
        push_decimal(s, n / 10);
    }
    s.append(digit_str(n % 10));
    assert(final(s)@ =~= old(s)@ + decimal(n as nat));
}

fn framed(before: &str, n: u64, after: &str) -> (r: String)
    ensures
        r@ == before@ + decimal(n as nat) + after@,
{
    let mut s = String::from_str(before);
    push_decimal(&mut s, n);
    s.append(after);
    s
}

/// The error that reports `f`.
pub fn fault_error(f: Fault) -> (e: Error)
    ensures
        e.message_view() == fault_text(f),
{
    let m = match f {
        Fault::DepthLimit(n) => framed("depth limit `", n as u64,
            "` reached while encoding. Try increasing it"),
        Fault::TokenLimit(n) => framed("token limit `", n as u64,
            "` reached while encoding. Try increasing it"),
        Fault::EnumTooWide(n) => framed("enum is wider than `", n as u64,
            "` bytes. Try increasing maximum total enum width"),
        Fault::UnknownVariant(d) => framed("discriminant `", d,
            "` doesn't point to any variant"),
        Fault::LengthOverflow(n) => framed("length `", n as u64,
            "` cannot be padded to a whole number of words"),
        Fault::PointerOverflow(o) => framed("pointers overflow a word when resolved at offset `",
            o, "`"),
        Fault::NoVariants => String::from_str("enum variants can not be empty"),
    };
    Error::Codec(m)
}

} // verus!
