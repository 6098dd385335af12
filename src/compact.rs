use vstd::prelude::*;
use vstd::utf8::encode_utf8;
use crate::bytes::{be_bytes, word, push_be, push_word, push_slice};
use crate::config::EncoderConfig;
use crate::error::Fault;
use crate::legacy::{string_bytes, string_token_bytes, one_byte};
use crate::types::Token;
use crate::unresolved::{Chunk, Data, chunks_of, push_inline};
use crate::width::{all_units, only_units};

verus! {

/// What a scalar or variable-length token becomes in the compact layout; `None`
/// for the tokens that hold other tokens.
pub open spec fn compact_leaf(t: Token) -> Option<Seq<u8>> {
    match t {
        Token::Unit => Some(seq![]),
        Token::Bool(b) => Some(seq![if b { 1u8 } else { 0u8 }]),
        Token::U8(v) => Some(seq![v]),
        Token::U16(v) => Some(be_bytes(v as nat, 2)),
        Token::U32(v) => Some(be_bytes(v as nat, 4)),
        Token::U64(v) => Some(be_bytes(v as nat, 8)),
        Token::U128(v) => Some(be_bytes(v as nat, 16)),
        Token::U256(v) => Some(be_bytes(v.value(), 32)),
        Token::B256(b) => Some(b@),
        Token::Bytes(b) => Some(word(b@.len()) + b@),
        Token::String(s) => Some(word(encode_utf8(s@).len()) + encode_utf8(s@)),
        Token::RawSlice(b) => Some(word(b@.len()) + b@),
        Token::StringSlice(s) => Some(word(string_bytes(s).len()) + string_bytes(s)),
        Token::StringArray(s) => Some(string_bytes(s)),
        _ => None,
    }
}

/// The compact encoding of `t` at nesting depth `depth`, after `count` tokens were
/// visited: its bytes and the new token count, or the first limit it breaks.
pub open spec fn compact_token(cfg: EncoderConfig, t: Token, depth: nat, count: nat)
    -> Result<(Seq<u8>, nat), Fault>
    decreases t,
{
    if count >= cfg.max_tokens {
        Err(Fault::TokenLimit(cfg.max_tokens))
    } else if let Some(b) = compact_leaf(t) {
        Ok((b, count + 1))
    } else if depth >= cfg.max_depth {
        Err(Fault::DepthLimit(cfg.max_depth))
    } else {
        match t {
            Token::Array(ts) => compact_list(cfg, ts@, depth + 1, count + 1),
            Token::Tuple(ts) => compact_list(cfg, ts@, depth + 1, count + 1),
            Token::Struct(ts) => compact_list(cfg, ts@, depth + 1, count + 1),
            Token::Vector(ts) => match compact_list(cfg, ts@, depth + 1, count + 1) {
                Ok((b, c)) => Ok((word(ts@.len()) + b, c)),
                Err(f) => Err(f),
            },
            Token::Enum(sel) => {
                if all_units(sel.2.variants@) {
                    Ok((word(sel.0 as nat), count + 1))
                } else {
                    match compact_token(cfg, sel.1, depth + 1, count + 1) {
                        Ok((b, c)) => Ok((word(sel.0 as nat) + b, c)),
                        Err(f) => Err(f),
                    }
                }
            },
            _ => Err(Fault::DepthLimit(cfg.max_depth)),
        }
    }
}

/// The compact encoding of the tokens `ts`, one after another.
pub open spec fn compact_list(cfg: EncoderConfig, ts: Seq<Token>, depth: nat, count: nat)
    -> Result<(Seq<u8>, nat), Fault>
    decreases ts,
{
    if ts.len() == 0 {
        Ok((seq![], count))
    } else {
        match compact_list(cfg, ts.drop_last(), depth, count) {
            Err(f) => Err(f),
            Ok((pre, c)) => match compact_token(cfg, ts.last(), depth, c) {
                Err(f) => Err(f),
                Ok((b, c2)) => Ok((pre + b, c2)),
            },
        }
    }
}

/// The compact encoding of an argument list: one in-place piece, with no pointers.
pub open spec fn compact_encoding(cfg: EncoderConfig, args: Seq<Token>) -> Result<Seq<Chunk>, Fault> {
    match compact_list(cfg, args, 0, 0) {
        Ok((b, _)) => Ok(seq![Chunk::Inline(b)]),
        Err(f) => Err(f),
    }
}

pub proof fn lemma_list_prefix_err(cfg: EncoderConfig, ts: Seq<Token>, depth: nat, count: nat, j: int)
    requires
        0 <= j <= ts.len(),
        compact_list(cfg, ts.subrange(0, j), depth, count) is Err,
    ensures
        compact_list(cfg, ts, depth, count) == compact_list(cfg, ts.subrange(0, j), depth, count),
    decreases ts.len(),
{
    if j == ts.len() {
        assert(ts.subrange(0, j) =~= ts);
    } else {
        assert(ts.drop_last().subrange(0, j) =~= ts.subrange(0, j));
        lemma_list_prefix_err(cfg, ts.drop_last(), depth, count, j);
    }
}

/// Appends the compact encoding of a token that holds no other token to `out`.
fn push_leaf(t: &Token, out: &mut Vec<u8>)
    requires
        compact_leaf(*t) is Some,
    ensures
        final(out)@ == old(out)@ + compact_leaf(*t)->Some_0,
{
    let ghost start = out@;
    match t {
        Token::Unit => {
            assert(start + seq![] =~= start);
        },
        Token::Bool(b) => push_slice(out, one_byte(if *b { 1u8 } else { 0u8 }).as_slice()),
        Token::U8(v) => push_slice(out, one_byte(*v).as_slice()),
        Token::U16(v) => push_be(out, *v as u128, 2),
        Token::U32(v) => push_be(out, *v as u128, 4),
        Token::U64(v) => push_be(out, *v as u128, 8),
        Token::U128(v) => push_be(out, *v, 16),
        Token::U256(v) => {
            push_be(out, v.high, 16);
            push_be(out, v.low, 16);
            proof {
                v.lemma_bytes();
            }
            assert(out@ =~= start + compact_leaf(*t)->Some_0);
        },
        Token::B256(b) => push_slice(out, b.as_slice()),
        Token::Bytes(b) | Token::RawSlice(b) => {
            push_word(out, b.len() as u64);
            push_slice(out, b.as_slice());
            assert(out@ =~= start + compact_leaf(*t)->Some_0);
        },
        Token::String(s) => {
            let b = s.as_str().as_bytes();
            push_word(out, b.len() as u64);
            push_slice(out, b);
            assert(out@ =~= start + compact_leaf(*t)->Some_0);
        },
        Token::StringSlice(s) => {
            let b = string_token_bytes(s);
            push_word(out, b.len() as u64);
            push_slice(out, b.as_slice());
            assert(out@ =~= start + compact_leaf(*t)->Some_0);
        },
        Token::StringArray(s) => {
            let b = string_token_bytes(s);
            push_slice(out, b.as_slice());
        },
        _ => {},
    }
}

/// The outcome of an exec encoding step, seen through the view of its bytes.
pub open spec fn step_view(r: Result<(Vec<u8>, usize), Fault>) -> Result<(Seq<u8>, nat), Fault> {
    match r {
        Ok((v, c)) => Ok((v@, c as nat)),
        Err(f) => Err(f),
    }
}

/// Encodes `t` in the compact layout at nesting depth `depth`, after `count` tokens.
pub fn encode_token(cfg: &EncoderConfig, t: &Token, depth: usize, count: usize)
    -> (r: Result<(Vec<u8>, usize), Fault>)
    requires
        count <= cfg.max_tokens,
    ensures
        step_view(r) == compact_token(*cfg, *t, depth as nat, count as nat),
        r is Ok ==> r->Ok_0.1 <= cfg.max_tokens,
    decreases t,
{
    if count >= cfg.max_tokens {
        return Err(Fault::TokenLimit(cfg.max_tokens));
    }
    let c = count + 1;
    match t {
        Token::Array(ts) | Token::Tuple(ts) | Token::Struct(ts) | Token::Vector(ts) => {
            if depth >= cfg.max_depth {
                return Err(Fault::DepthLimit(cfg.max_depth));
            }
            let (b, c2) = match encode_list(cfg, ts.as_slice(), depth + 1, c) {
                Ok(x) => x,
                Err(f) => return Err(f),
            };
            match t {
                Token::Vector(_) => {
                    let mut out: Vec<u8> = Vec::new();
                    push_word(&mut out, ts.len() as u64);
                    push_slice(&mut out, b.as_slice());
                    Ok((out, c2))
                },
                _ => Ok((b, c2)),
            }
        },
        Token::Enum(sel) => {
            if depth >= cfg.max_depth {
                return Err(Fault::DepthLimit(cfg.max_depth));
            }
            let mut out: Vec<u8> = Vec::new();
            push_word(&mut out, sel.0);
            if only_units(&sel.2.variants) {
                assert(out@ =~= word(sel.0 as nat));
                return Ok((out, c));
            }
            let (b, c2) = match encode_token(cfg, &sel.1, depth + 1, c) {
                Ok(x) => x,
                Err(f) => return Err(f),
            };
            push_slice(&mut out, b.as_slice());
            Ok((out, c2))
        },
        _ => {
            let mut out: Vec<u8> = Vec::new();
            push_leaf(t, &mut out);
            assert(out@ =~= compact_leaf(*t)->Some_0);
            Ok((out, c))
        },
    }
}

/// Encodes the tokens `ts` one after another in the compact layout.
pub fn encode_list(cfg: &EncoderConfig, ts: &[Token], depth: usize, count: usize)
    -> (r: Result<(Vec<u8>, usize), Fault>)
    requires
        count <= cfg.max_tokens,
    ensures
        step_view(r) == compact_list(*cfg, ts@, depth as nat, count as nat),
        r is Ok ==> r->Ok_0.1 <= cfg.max_tokens,
    decreases ts@,
{
    let mut out: Vec<u8> = Vec::new();
    let mut c: usize = count;
    let mut i: usize = 0;
    assert(ts@.subrange(0, 0) =~= Seq::<Token>::empty());
    while i < ts.len()
        invariant
            i <= ts@.len(),
            c <= cfg.max_tokens,
            compact_list(*cfg, ts@.subrange(0, i as int), depth as nat, count as nat)
                == Ok::<(Seq<u8>, nat), Fault>((out@, c as nat)),
        decreases ts@.len() - i,
    {
        assert(ts@.subrange(0, i + 1).drop_last() =~= ts@.subrange(0, i as int));
        assert(ts@.subrange(0, i + 1).last() == ts@[i as int]);
        match encode_token(cfg, &ts[i], depth, c) {
            Err(f) => {
                proof {
                    lemma_list_prefix_err(*cfg, ts@, depth as nat, count as nat, i + 1);
                }
                return Err(f);
            },
            Ok((b, c2)) => {
                push_slice(&mut out, b.as_slice());
                c = c2;
            },
        }
        i = i + 1;
    }
    assert(ts@.subrange(0, i as int) =~= ts@);
    Ok((out, c))
}

/// Encodes an argument list in the compact layout.
pub fn encode_args(cfg: &EncoderConfig, args: &[Token]) -> (r: Result<Vec<Data>, Fault>)
    ensures
        match r {
            Ok(v) => compact_encoding(*cfg, args@) == Ok::<Seq<Chunk>, Fault>(chunks_of(v@)),
            Err(f) => compact_encoding(*cfg, args@) == Err::<Seq<Chunk>, Fault>(f),
        },
{
    match encode_list(cfg, args, 0, 0) {
        Ok((bytes, _)) => {
            let mut v: Vec<Data> = Vec::new();
            push_inline(&mut v, bytes);
            assert(chunks_of(v@) =~= seq![Chunk::Inline(bytes@)]);
            Ok(v)
        },
        Err(f) => Err(f),
    }
}

} // verus!
