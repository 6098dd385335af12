use vstd::prelude::*;
use vstd::utf8::encode_utf8;
use crate::bytes::{be_bytes, word, zeros, pad_len, round_up, padding_for, push_be, push_zeros, push_slice, word_of};
use crate::config::EncoderConfig;
use crate::error::Fault;
use crate::types::{StaticStringToken, Token};
use crate::unresolved::{Chunk, Data, chunks_of, inline_size, inline_residue, append_data, push_inline, push_dynamic};
use crate::width::{all_units, enum_width, max_width, width, only_units, bounded_enum_width, bounded_width};

verus! {

/// The bytes of a string token: its UTF-8 bytes, cut or padded with zeros to the
/// expected length where one is given.
pub open spec fn string_bytes(s: StaticStringToken) -> Seq<u8> {
    let b = encode_utf8(s.data@);
    match s.expected_len {
        None => b,
        Some(n) => if b.len() >= n { b.subrange(0, n as int) } else { b + zeros((n - b.len()) as nat) },
    }
}

/// `b` followed by the zeros that bring it to a whole number of words.
pub open spec fn word_padded(b: Seq<u8>) -> Seq<u8> {
    b + zeros(pad_len(b.len() as int))
}

/// The pieces of a byte blob or string in the legacy layout: a pointer to the
/// word-padded bytes, the padded length, the length.
pub open spec fn legacy_blob(b: Seq<u8>) -> Seq<Chunk> {
    seq![
        Chunk::Dynamic(seq![Chunk::Inline(word_padded(b))]),
        Chunk::Inline(word(round_up(b.len() as int) as nat)),
        Chunk::Inline(word(b.len())),
    ]
}

/// What a scalar or variable-length token becomes in the legacy layout; `None`
/// for the tokens that hold other tokens.
pub open spec fn legacy_leaf(t: Token) -> Option<Seq<Chunk>> {
    match t {
        Token::Unit => Some(seq![Chunk::Inline(seq![0u8])]),
        Token::Bool(b) => Some(seq![Chunk::Inline(seq![if b { 1u8 } else { 0u8 }])]),
        Token::U8(v) => Some(seq![Chunk::Inline(seq![v])]),
        Token::U16(v) => Some(seq![Chunk::Inline(word(v as nat))]),
        Token::U32(v) => Some(seq![Chunk::Inline(word(v as nat))]),
        Token::U64(v) => Some(seq![Chunk::Inline(word(v as nat))]),
        Token::U128(v) => Some(seq![Chunk::Inline(be_bytes(v as nat, 16))]),
        Token::U256(v) => Some(seq![Chunk::Inline(be_bytes(v.value(), 32))]),
        Token::B256(b) => Some(seq![Chunk::Inline(b@)]),
        Token::Bytes(b) => Some(legacy_blob(b@)),
        Token::String(s) => Some(legacy_blob(encode_utf8(s@))),
        Token::RawSlice(b) => Some(seq![
            Chunk::Dynamic(seq![Chunk::Inline(word_padded(b@))]),
            Chunk::Inline(word(b@.len())),
        ]),
        Token::StringSlice(s) => Some(seq![
            Chunk::Dynamic(seq![Chunk::Inline(string_bytes(s))]),
            Chunk::Inline(word(string_bytes(s).len())),
        ]),
        Token::StringArray(s) => Some(seq![Chunk::Inline(word_padded(string_bytes(s)))]),
        _ => None,
    }
}

/// The length of a byte blob or string token whose padded length cannot be
/// represented, if it is one.
pub open spec fn blob_overflow(t: Token) -> Option<nat> {
    let n = match t {
        Token::Bytes(b) => b@.len(),
        Token::String(s) => encode_utf8(s@).len(),
        _ => 0,
    };
    if round_up(n as int) > usize::MAX { Some(n) } else { None }
}

/// The legacy encoding of `t` at nesting depth `depth`, after `count` tokens were
/// visited: its pieces and the new token count, or the first limit it breaks.
pub open spec fn legacy_token(cfg: EncoderConfig, t: Token, depth: nat, count: nat)
    -> Result<(Seq<Chunk>, nat), Fault>
    decreases t,
{
    if count >= cfg.max_tokens {
        Err(Fault::TokenLimit(cfg.max_tokens))
    } else if let Some(n) = blob_overflow(t) {
        Err(Fault::LengthOverflow(n as usize))
    } else if let Some(cs) = legacy_leaf(t) {
        Ok((cs, count + 1))
    } else if depth >= cfg.max_depth {
        Err(Fault::DepthLimit(cfg.max_depth))
    } else {
        match t {
            Token::Array(ts) => legacy_list(cfg, ts@, false, depth + 1, count + 1),
            Token::Tuple(ts) => legacy_list(cfg, ts@, true, depth + 1, count + 1),
            Token::Struct(ts) => legacy_list(cfg, ts@, true, depth + 1, count + 1),
            Token::Vector(ts) => match legacy_list(cfg, ts@, false, depth + 1, count + 1) {
                Ok((cs, c)) => Ok((seq![
                    Chunk::Dynamic(cs),
                    Chunk::Inline(word(ts@.len())),
                    Chunk::Inline(word(ts@.len())),
                ], c)),
                Err(f) => Err(f),
            },
            Token::Enum(sel) => {
                let vs = sel.2.variants@;
                if all_units(vs) {
                    Ok((seq![Chunk::Inline(word(sel.0 as nat))], count + 1))
                } else if enum_width(vs) > cfg.max_total_enum_width {
                    Err(Fault::EnumTooWide(cfg.max_total_enum_width))
                } else if sel.0 >= vs.len() {
                    Err(Fault::UnknownVariant(sel.0))
                } else {
                    match legacy_token(cfg, sel.1, depth + 1, count + 1) {
                        Ok((cs, c)) => Ok((seq![
                            Chunk::Inline(word(sel.0 as nat)),
                            Chunk::Inline(zeros((enum_width(vs) - 8 - width(vs[sel.0 as int].1)) as nat)),
                        ] + cs, c)),
                        Err(f) => Err(f),
                    }
                }
            },
            _ => Err(Fault::DepthLimit(cfg.max_depth)),
        }
    }
}

/// The legacy encoding of the tokens `ts` one after another, each followed by the
/// zeros that bring it to a whole number of words where `aligned` holds.
pub open spec fn legacy_list(cfg: EncoderConfig, ts: Seq<Token>, aligned: bool, depth: nat, count: nat)
    -> Result<(Seq<Chunk>, nat), Fault>
    decreases ts,
{
    if ts.len() == 0 {
        Ok((seq![], count))
    } else {
        match legacy_list(cfg, ts.drop_last(), aligned, depth, count) {
            Err(f) => Err(f),
            Ok((pre, c)) => match legacy_token(cfg, ts.last(), depth, c) {
                Err(f) => Err(f),
                Ok((cs, c2)) => Ok((pre + cs + aligned_tail(cs, aligned), c2)),
            },
        }
    }
}

/// The padding after an element of a list: zeros up to a whole number of words
/// where `aligned` holds, nothing otherwise.
pub open spec fn aligned_tail(cs: Seq<Chunk>, aligned: bool) -> Seq<Chunk> {
    if aligned {
        seq![Chunk::Inline(zeros(pad_len(inline_size(cs) as int)))]
    } else {
        seq![]
    }
}

/// The legacy encoding of an argument list. A single `u8` or `bool` is one byte
/// when it is a configurable constant, and a whole word otherwise.
pub open spec fn legacy_encoding(cfg: EncoderConfig, configurables: bool, args: Seq<Token>)
    -> Result<Seq<Chunk>, Fault>
{
    if args.len() == 1 && (args[0] is U8 || args[0] is Bool) {
        let v: u8 = match args[0] {
            Token::U8(v) => v,
            Token::Bool(b) => if b { 1u8 } else { 0u8 },
            _ => 0u8,
        };
        if cfg.max_tokens == 0 {
            Err(Fault::TokenLimit(cfg.max_tokens))
        } else if configurables {
            Ok(seq![Chunk::Inline(seq![v])])
        } else {
            Ok(seq![Chunk::Inline(word(v as nat))])
        }
    } else {
        match legacy_list(cfg, args, true, 0, 0) {
            Ok((cs, _)) => Ok(cs),
            Err(f) => Err(f),
        }
    }
}


/// The outcome of an exec encoding step, seen through the view of its pieces.
pub open spec fn step_view(r: Result<(Vec<Data>, usize), Fault>) -> Result<(Seq<Chunk>, nat), Fault> {
    match r {
        Ok((v, c)) => Ok((chunks_of(v@), c as nat)),
        Err(f) => Err(f),
    }
}

pub proof fn lemma_list_prefix_err(
    cfg: EncoderConfig,
    ts: Seq<Token>,
    aligned: bool,
    depth: nat,
    count: nat,
    j: int,
)
    requires
        0 <= j <= ts.len(),
        legacy_list(cfg, ts.subrange(0, j), aligned, depth, count) is Err,
    ensures
        legacy_list(cfg, ts, aligned, depth, count) == legacy_list(cfg, ts.subrange(0, j), aligned, depth, count),
    decreases ts.len(),
{
    if j == ts.len() {
        assert(ts.subrange(0, j) =~= ts);
    } else {
        assert(ts.drop_last().subrange(0, j) =~= ts.subrange(0, j));
        lemma_list_prefix_err(cfg, ts.drop_last(), aligned, depth, count, j);
    }
}

pub proof fn lemma_max_width_bounds(vs: Seq<(String, crate::types::ParamType)>, i: int)
    requires
        0 <= i < vs.len(),
    ensures
        width(vs[i].1) <= max_width(vs),
    decreases vs.len(),
{
    if i < vs.len() - 1 {
        lemma_max_width_bounds(vs.drop_last(), i);
    }
}

/// The bytes of a string token: its UTF-8 bytes, cut or padded with zeros to the
/// expected length where one is given.
pub fn string_token_bytes(s: &StaticStringToken) -> (r: Vec<u8>)
    ensures
        r@ == string_bytes(*s),
{
    let b = s.data.as_str().as_bytes();
    let mut r: Vec<u8> = Vec::new();
    match s.expected_len {
        None => {
            push_slice(&mut r, b);
        },
        Some(n) => {
            if b.len() >= n {
                let ghost all = b@;
                let mut i: usize = 0;
                while i < n
                    invariant
                        i <= n,
                        n <= b@.len(),
                        r@ == b@.subrange(0, i as int),
                    decreases n - i,
                {
                    r.push(b[i]);
                    i = i + 1;
                    assert(r@ =~= b@.subrange(0, i as int));
                }
            } else {
                push_slice(&mut r, b);
                push_zeros(&mut r, n - b.len());
            }
        },
    }
    r
}

/// The single byte `v`.
pub fn one_byte(v: u8) -> (r: Vec<u8>)
    ensures
        r@ == seq![v],
{
    let mut r: Vec<u8> = Vec::new();
    r.push(v);
    assert(r@ =~= seq![v]);
    r
}

/// One in-place piece holding `b`.
fn single(b: Vec<u8>) -> (r: Vec<Data>)
    ensures
        chunks_of(r@) == seq![Chunk::Inline(b@)],
{
    let mut r: Vec<Data> = Vec::new();
    push_inline(&mut r, b);
    assert(chunks_of(r@) =~= seq![Chunk::Inline(b@)]);
    r
}

/// `b` followed by the zeros that bring it to a whole number of words.
fn padded_copy(b: &[u8]) -> (r: Vec<u8>)
    ensures
        r@ == word_padded(b@),
{
    let mut r: Vec<u8> = Vec::new();
    push_slice(&mut r, b);
    push_zeros(&mut r, padding_for(b.len()));
    r
}

/// The legacy pieces of a byte blob or string.
fn encode_blob(b: &[u8]) -> (r: Result<Vec<Data>, Fault>)
    ensures
        match r {
            Ok(v) => round_up(b@.len() as int) <= usize::MAX && chunks_of(v@) == legacy_blob(b@),
            Err(f) => round_up(b@.len() as int) > usize::MAX && f is LengthOverflow
                && (f->LengthOverflow_0) as nat == b@.len(),
        },
{
    let n = b.len();
    let pad = padding_for(n);
    if pad > usize::MAX - n {
        return Err(Fault::LengthOverflow(n));
    }
    let heap = single(padded_copy(b));
    let mut out: Vec<Data> = Vec::new();
    push_dynamic(&mut out, heap);
    push_inline(&mut out, word_of((n + pad) as u64));
    push_inline(&mut out, word_of(n as u64));
    assert(chunks_of(out@) =~= legacy_blob(b@));
    Ok(out)
}

/// The legacy encoding of a token that holds no other token.
fn encode_leaf(t: &Token) -> (r: Result<Vec<Data>, Fault>)
    requires
        legacy_leaf(*t) is Some,
    ensures
        match r {
            Ok(v) => blob_overflow(*t) is None && chunks_of(v@) == legacy_leaf(*t)->Some_0,
            Err(f) => blob_overflow(*t) == Some((f->LengthOverflow_0) as nat) && f is LengthOverflow,
        },
{
    match t {
        Token::Unit => Ok(single(one_byte(0u8))),
        Token::Bool(b) => Ok(single(one_byte(if *b { 1u8 } else { 0u8 }))),
        Token::U8(v) => Ok(single(one_byte(*v))),
        Token::U16(v) => Ok(single(word_of(*v as u64))),
        Token::U32(v) => Ok(single(word_of(*v as u64))),
        Token::U64(v) => Ok(single(word_of(*v))),
        Token::U128(v) => {
            let mut b: Vec<u8> = Vec::new();
            push_be(&mut b, *v, 16);
            Ok(single(b))
        },
        Token::U256(v) => {
            let mut b: Vec<u8> = Vec::new();
            push_be(&mut b, v.high, 16);
            push_be(&mut b, v.low, 16);
            proof {
                v.lemma_bytes();
            }
            Ok(single(b))
        },
        Token::B256(bytes) => {
            let mut b: Vec<u8> = Vec::new();
            push_slice(&mut b, bytes.as_slice());
            Ok(single(b))
        },
        Token::Bytes(b) => encode_blob(b.as_slice()),
        Token::String(s) => encode_blob(s.as_str().as_bytes()),
        Token::RawSlice(b) => {
            let heap = single(padded_copy(b.as_slice()));
            let mut out: Vec<Data> = Vec::new();
            push_dynamic(&mut out, heap);
            push_inline(&mut out, word_of(b.len() as u64));
            assert(chunks_of(out@) =~= legacy_leaf(*t)->Some_0);
            Ok(out)
        },
        Token::StringSlice(s) => {
            let sb = string_token_bytes(s);
            let n = sb.len();
            let heap = single(sb);
            let mut out: Vec<Data> = Vec::new();
            push_dynamic(&mut out, heap);
            push_inline(&mut out, word_of(n as u64));
            assert(chunks_of(out@) =~= legacy_leaf(*t)->Some_0);
            Ok(out)
        },
        Token::StringArray(s) => {
            let sb = string_token_bytes(s);
            Ok(single(padded_copy(sb.as_slice())))
        },
        _ => Err(Fault::LengthOverflow(0)),
    }
}

/// Encodes `t` in the legacy layout at nesting depth `depth`, after `count` tokens.
pub fn encode_token(cfg: &EncoderConfig, t: &Token, depth: usize, count: usize)
    -> (r: Result<(Vec<Data>, usize), Fault>)
    requires
        count <= cfg.max_tokens,
    ensures
        step_view(r) == legacy_token(*cfg, *t, depth as nat, count as nat),
        r is Ok ==> r->Ok_0.1 <= cfg.max_tokens,
    decreases t,
{
    if count >= cfg.max_tokens {
        return Err(Fault::TokenLimit(cfg.max_tokens));
    }
    let c = count + 1;
    match t {
        Token::Array(ts) | Token::Tuple(ts) | Token::Struct(ts) | Token::Vector(ts) => {
            if depth >= cfg.max_depth {
                return Err(Fault::DepthLimit(cfg.max_depth));
            }
            let aligned = match t {
                Token::Tuple(_) | Token::Struct(_) => true,
                _ => false,
            };
            let (cs, c2) = match encode_list(cfg, ts.as_slice(), aligned, depth + 1, c) {
                Ok(x) => x,
                Err(f) => return Err(f),
            };
            match t {
                Token::Vector(_) => {
                    let mut out: Vec<Data> = Vec::new();
                    push_dynamic(&mut out, cs);
                    push_inline(&mut out, word_of(ts.len() as u64));
                    push_inline(&mut out, word_of(ts.len() as u64));
                    assert(chunks_of(out@) =~= seq![
                        Chunk::Dynamic(chunks_of(cs@)),
                        Chunk::Inline(word(ts@.len())),
                        Chunk::Inline(word(ts@.len())),
                    ]);
                    Ok((out, c2))
                },
                _ => Ok((cs, c2)),
            }
        },
        Token::Enum(sel) => {
            if depth >= cfg.max_depth {
                return Err(Fault::DepthLimit(cfg.max_depth));
            }
            let vs = &sel.2.variants;
            if only_units(vs) {
                return Ok((single(word_of(sel.0)), c));
            }
            let ew = match bounded_enum_width(vs, cfg.max_total_enum_width) {
                Some(w) => w,
                None => return Err(Fault::EnumTooWide(cfg.max_total_enum_width)),
            };
            if sel.0 >= vs.len() as u64 {
                return Err(Fault::UnknownVariant(sel.0));
            }
            let d = sel.0 as usize;
            proof {
                lemma_max_width_bounds(vs@, d as int);
            }
            let vw = match bounded_width(&vs[d].1, ew - 8) {
                Some(w) => w,
                None => return Err(Fault::EnumTooWide(cfg.max_total_enum_width)),
            };
            let (cs, c2) = match encode_token(cfg, &sel.1, depth + 1, c) {
                Ok(x) => x,
                Err(f) => return Err(f),
            };
            let mut out = single(word_of(sel.0));
            let mut pad: Vec<u8> = Vec::new();
            push_zeros(&mut pad, ew - 8 - vw);
            let ghost pad_view = pad@;
            push_inline(&mut out, pad);
            append_data(&mut out, cs);
            assert(pad_view =~= zeros((enum_width(vs@) - 8 - width(vs@[sel.0 as int].1)) as nat));
            assert(chunks_of(out@) =~= seq![
                Chunk::Inline(word(sel.0 as nat)),
                Chunk::Inline(pad_view),
            ] + chunks_of(cs@));
            Ok((out, c2))
        },
        _ => {
            match encode_leaf(t) {
                Ok(v) => Ok((v, c)),
                Err(f) => Err(f),
            }
        },
    }
}

/// Encodes the tokens `ts` one after another in the legacy layout, each padded to a
/// whole number of words where `aligned` holds.
pub fn encode_list(cfg: &EncoderConfig, ts: &[Token], aligned: bool, depth: usize, count: usize)
    -> (r: Result<(Vec<Data>, usize), Fault>)
    requires
        count <= cfg.max_tokens,
    ensures
        step_view(r) == legacy_list(*cfg, ts@, aligned, depth as nat, count as nat),
        r is Ok ==> r->Ok_0.1 <= cfg.max_tokens,
    decreases ts@,
{
    let mut acc: Vec<Data> = Vec::new();
    let mut c: usize = count;
    let mut i: usize = 0;
    assert(ts@.subrange(0, 0) =~= Seq::<Token>::empty());
    assert(chunks_of(acc@) =~= Seq::<Chunk>::empty());
    while i < ts.len()
        invariant
            i <= ts@.len(),
            c <= cfg.max_tokens,
            legacy_list(*cfg, ts@.subrange(0, i as int), aligned, depth as nat, count as nat)
                == Ok::<(Seq<Chunk>, nat), Fault>((chunks_of(acc@), c as nat)),
        decreases ts@.len() - i,
    {
        let ghost pre = ts@.subrange(0, i as int);
        assert(ts@.subrange(0, i + 1).drop_last() =~= pre);
        assert(ts@.subrange(0, i + 1).last() == ts@[i as int]);
        match encode_token(cfg, &ts[i], depth, c) {
            Err(f) => {
                proof {
                    lemma_list_prefix_err(*cfg, ts@, aligned, depth as nat, count as nat, i + 1);
                }
                return Err(f);
            },
            Ok((cs, c2)) => {
                let ghost cs_view = chunks_of(cs@);
                let ghost acc_before = chunks_of(acc@);
                let residue = inline_residue(&cs);
                append_data(&mut acc, cs);
                if aligned {
                    let mut pad: Vec<u8> = Vec::new();
                    push_zeros(&mut pad, padding_for(residue));
                    push_inline(&mut acc, pad);
                }
                assert(chunks_of(acc@) =~= acc_before + cs_view + aligned_tail(cs_view, aligned));
                c = c2;
            },
        }
        i = i + 1;
    }
    assert(ts@.subrange(0, i as int) =~= ts@);
    Ok((acc, c))
}


/// Encodes an argument list in the legacy layout.
pub fn encode_args(cfg: &EncoderConfig, configurables: bool, args: &[Token]) -> (r: Result<Vec<Data>, Fault>)
    ensures
        match r {
            Ok(v) => legacy_encoding(*cfg, configurables, args@) == Ok::<Seq<Chunk>, Fault>(chunks_of(v@)),
            Err(f) => legacy_encoding(*cfg, configurables, args@) == Err::<Seq<Chunk>, Fault>(f),
        },
{
    if args.len() == 1 {
        let v: Option<u8> = match &args[0] {
            Token::U8(v) => Some(*v),
            Token::Bool(b) => Some(if *b { 1u8 } else { 0u8 }),
            _ => None,
        };
        if let Some(v) = v {
            if cfg.max_tokens == 0 {
                return Err(Fault::TokenLimit(cfg.max_tokens));
            }
            return if configurables { Ok(single(one_byte(v))) } else { Ok(single(word_of(v as u64))) };
        }
    }
    match encode_list(cfg, args, true, 0, 0) {
        Ok((v, _)) => Ok(v),
        Err(f) => Err(f),
    }
}

} // verus!
