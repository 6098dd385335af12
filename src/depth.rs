use vstd::prelude::*;
use crate::compact::{compact_list, compact_token, compact_leaf};
use crate::config::{EncoderConfig, Layout};
use crate::encoder::encoding;
use crate::legacy::{legacy_encoding, legacy_leaf, legacy_list, legacy_token};
use crate::types::Token;
use crate::width::all_units;

verus! {

/// How deeply `t` nests: the number of arrays, tuples, structs, vectors and enums on
/// the longest path from `t` to a value inside it. The value of an enum whose
/// variants all carry no value is not encoded, so it does not count.
pub open spec fn nesting(t: Token) -> nat
    decreases t,
{
    match t {
        Token::Array(ts) => 1 + list_nesting(ts@),
        Token::Tuple(ts) => 1 + list_nesting(ts@),
        Token::Struct(ts) => 1 + list_nesting(ts@),
        Token::Vector(ts) => 1 + list_nesting(ts@),
        Token::Enum(sel) => if all_units(sel.2.variants@) { 1 } else { 1 + nesting(sel.1) },
        _ => 0,
    }
}

/// The deepest nesting among the tokens `ts`.
pub open spec fn list_nesting(ts: Seq<Token>) -> nat
    decreases ts,
{
    if ts.len() == 0 {
        0
    } else {
        let a = list_nesting(ts.drop_last());
        let b = nesting(ts.last());
        if a < b { b } else { a }
    }
}

proof fn lemma_legacy_token_too_deep(cfg: EncoderConfig, t: Token, depth: nat, count: nat)
    requires
        depth <= cfg.max_depth,
        depth + nesting(t) > cfg.max_depth,
    ensures
        legacy_token(cfg, t, depth, count) is Err,
    decreases t,
{
    if count < cfg.max_tokens && legacy_leaf(t) is None && depth < cfg.max_depth {
        match t {
            Token::Array(ts) => lemma_legacy_list_too_deep(cfg, ts@, false, depth + 1, count + 1),
            Token::Tuple(ts) => lemma_legacy_list_too_deep(cfg, ts@, true, depth + 1, count + 1),
            Token::Struct(ts) => lemma_legacy_list_too_deep(cfg, ts@, true, depth + 1, count + 1),
            Token::Vector(ts) => lemma_legacy_list_too_deep(cfg, ts@, false, depth + 1, count + 1),
            Token::Enum(sel) => {
                if !all_units(sel.2.variants@) {
                    lemma_legacy_token_too_deep(cfg, sel.1, depth + 1, count + 1);
                }
            },
            _ => {},
        }
    }
}

proof fn lemma_legacy_list_too_deep(cfg: EncoderConfig, ts: Seq<Token>, aligned: bool, depth: nat, count: nat)
    requires
        depth <= cfg.max_depth,
        depth + list_nesting(ts) > cfg.max_depth,
    ensures
        legacy_list(cfg, ts, aligned, depth, count) is Err,
    decreases ts,
{
    if ts.len() > 0 {
        if depth + list_nesting(ts.drop_last()) > cfg.max_depth {
            lemma_legacy_list_too_deep(cfg, ts.drop_last(), aligned, depth, count);
        } else if let Ok((pre, c)) = legacy_list(cfg, ts.drop_last(), aligned, depth, count) {
            lemma_legacy_token_too_deep(cfg, ts.last(), depth, c);
        }
    }
}

proof fn lemma_compact_token_too_deep(cfg: EncoderConfig, t: Token, depth: nat, count: nat)
    requires
        depth <= cfg.max_depth,
        depth + nesting(t) > cfg.max_depth,
    ensures
        compact_token(cfg, t, depth, count) is Err,
    decreases t,
{
    if count < cfg.max_tokens && compact_leaf(t) is None && depth < cfg.max_depth {
        match t {
            Token::Array(ts) => lemma_compact_list_too_deep(cfg, ts@, depth + 1, count + 1),
            Token::Tuple(ts) => lemma_compact_list_too_deep(cfg, ts@, depth + 1, count + 1),
            Token::Struct(ts) => lemma_compact_list_too_deep(cfg, ts@, depth + 1, count + 1),
            Token::Vector(ts) => lemma_compact_list_too_deep(cfg, ts@, depth + 1, count + 1),
            Token::Enum(sel) => {
                if !all_units(sel.2.variants@) {
                    lemma_compact_token_too_deep(cfg, sel.1, depth + 1, count + 1);
                }
            },
            _ => {},
        }
    }
}

proof fn lemma_compact_list_too_deep(cfg: EncoderConfig, ts: Seq<Token>, depth: nat, count: nat)
    requires
        depth <= cfg.max_depth,
        depth + list_nesting(ts) > cfg.max_depth,
    ensures
        compact_list(cfg, ts, depth, count) is Err,
    decreases ts,
{
    if ts.len() > 0 {
        if depth + list_nesting(ts.drop_last()) > cfg.max_depth {
            lemma_compact_list_too_deep(cfg, ts.drop_last(), depth, count);
        } else if let Ok((pre, c)) = compact_list(cfg, ts.drop_last(), depth, count) {
            lemma_compact_token_too_deep(cfg, ts.last(), depth, c);
        }
    }
}

proof fn lemma_single_nesting(args: Seq<Token>)
    requires
        args.len() == 1,
    ensures
        list_nesting(args) == nesting(args[0]),
{
    assert(args.drop_last() =~= Seq::<Token>::empty());
    assert(list_nesting(Seq::<Token>::empty()) == 0);
}

/// Tokens nested deeper than the depth limit are never encoded, in either layout,
/// and not as configurable constants either.
pub proof fn too_deep_nesting_fails(cfg: EncoderConfig, layout: Layout, configurables: bool, args: Seq<Token>)
    requires
        list_nesting(args) > cfg.max_depth,
    ensures
        encoding(cfg, layout, args) is Err,
        legacy_encoding(cfg, configurables, args) is Err,
{
    lemma_legacy_list_too_deep(cfg, args, true, 0, 0);
    lemma_compact_list_too_deep(cfg, args, 0, 0);
    if args.len() == 1 {
        lemma_single_nesting(args);
    }
}

} // verus!
