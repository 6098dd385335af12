use vstd::prelude::*;
use crate::bytes::{lemma_be_bytes_len, round_up, word, zeros};
use crate::config::EncoderConfig;
use crate::legacy::{legacy_leaf, legacy_list, legacy_token, string_bytes, aligned_tail, lemma_max_width_bounds};
use crate::types::{EnumSelector, ParamType, Token};
use crate::unresolved::{Chunk, inline_size};
use crate::width::{all_units, enum_width, fields_width, max_width, tuple_width, width};

verus! {

/// Whether the value `t` has the declared type `p`.
pub open spec fn conforms(t: Token, p: ParamType) -> bool
    decreases t,
{
    match (t, p) {
        (Token::Unit, ParamType::Unit) => true,
        (Token::Bool(_), ParamType::Bool) => true,
        (Token::U8(_), ParamType::U8) => true,
        (Token::U16(_), ParamType::U16) => true,
        (Token::U32(_), ParamType::U32) => true,
        (Token::U64(_), ParamType::U64) => true,
        (Token::U128(_), ParamType::U128) => true,
        (Token::U256(_), ParamType::U256) => true,
        (Token::B256(_), ParamType::B256) => true,
        (Token::Bytes(_), ParamType::Bytes) => true,
        (Token::String(_), ParamType::String) => true,
        (Token::RawSlice(_), ParamType::RawSlice) => true,
        (Token::StringSlice(_), ParamType::StringSlice) => true,
        (Token::StringArray(s), ParamType::StringArray(n)) => string_bytes(s).len() == n,
        (Token::Vector(_), ParamType::Vector(_)) => true,
        (Token::Array(ts), ParamType::Array(e, n)) => ts@.len() == n && all_conform(ts@, *e),
        (Token::Tuple(ts), ParamType::Tuple(ps)) => each_conforms(ts@, ps@),
        (Token::Struct(ts), ParamType::Struct { fields, .. }) => fields_conform(ts@, fields@),
        (Token::Enum(sel), ParamType::Enum { enum_variants, .. }) => sel.2.variants@ == enum_variants.variants@
            && selection_conforms(*sel),
        _ => false,
    }
}

/// Whether every value of `ts` has the type `e`.
pub open spec fn all_conform(ts: Seq<Token>, e: ParamType) -> bool
    decreases ts,
{
    ts.len() == 0 || (all_conform(ts.drop_last(), e) && conforms(ts.last(), e))
}

/// Whether the values `ts` have the types `ps`, one for one.
pub open spec fn each_conforms(ts: Seq<Token>, ps: Seq<ParamType>) -> bool
    decreases ts,
{
    ts.len() == ps.len() && (ts.len() == 0 || (each_conforms(ts.drop_last(), ps.drop_last())
        && conforms(ts.last(), ps.last())))
}

/// Whether the values `ts` have the types of the fields `fs`, one for one.
pub open spec fn fields_conform(ts: Seq<Token>, fs: Seq<(String, ParamType)>) -> bool
    decreases ts,
{
    ts.len() == fs.len() && (ts.len() == 0 || (fields_conform(ts.drop_last(), fs.drop_last())
        && conforms(ts.last(), fs.last().1)))
}

/// Whether a selected enum variant names a declared variant and holds a value of its
/// type; an enum whose variants all carry no value needs neither.
pub open spec fn selection_conforms(sel: EnumSelector) -> bool
    decreases sel,
{
    let vs = sel.2.variants@;
    all_units(vs) || (sel.0 < vs.len() && conforms(sel.1, vs[sel.0 as int].1))
}

proof fn lemma_inline_size_concat(a: Seq<Chunk>, b: Seq<Chunk>)
    ensures
        inline_size(a + b) == inline_size(a) + inline_size(b),
    decreases b.len(),
{
    if b.len() == 0 {
        assert(a + b =~= a);
    } else {
        lemma_inline_size_concat(a, b.drop_last());
        assert((a + b).drop_last() =~= a + b.drop_last());
    }
}

pub open spec fn chunk_size(c: Chunk) -> nat {
    match c {
        Chunk::Inline(b) => b.len(),
        Chunk::Dynamic(_) => 8nat,
    }
}

proof fn lemma_inline_size_one(c: Chunk)
    ensures
        inline_size(seq![c]) == chunk_size(c),
{
    assert(seq![c].drop_last() =~= Seq::<Chunk>::empty());
    assert(inline_size(Seq::<Chunk>::empty()) == 0);
    assert(seq![c].last() == c);
    assert(seq![c].len() == 1);
}

proof fn lemma_inline_size_small(cs: Seq<Chunk>)
    ensures
        cs.len() == 1 ==> inline_size(cs) == chunk_size(cs[0]),
        cs.len() == 2 ==> inline_size(cs) == chunk_size(cs[0]) + chunk_size(cs[1]),
        cs.len() == 3 ==> inline_size(cs) == chunk_size(cs[0]) + chunk_size(cs[1]) + chunk_size(cs[2]),
{
    if cs.len() >= 1 {
        lemma_inline_size_one(cs[0]);
    }
    if cs.len() >= 2 {
        lemma_inline_size_one(cs[1]);
    }
    if cs.len() == 1 {
        assert(cs =~= seq![cs[0]]);
    }
    if cs.len() == 2 {
        assert(cs =~= seq![cs[0]] + seq![cs[1]]);
        lemma_inline_size_concat(seq![cs[0]], seq![cs[1]]);
    }
    if cs.len() == 3 {
        lemma_inline_size_one(cs[2]);
        assert(cs =~= seq![cs[0]] + seq![cs[1]] + seq![cs[2]]);
        lemma_inline_size_concat(seq![cs[0]], seq![cs[1]]);
        lemma_inline_size_concat(seq![cs[0]] + seq![cs[1]], seq![cs[2]]);
    }
}

proof fn lemma_word_len(v: nat)
    ensures
        word(v).len() == 8,
{
    lemma_be_bytes_len(v, 8);
}

proof fn lemma_leaf_width(t: Token, p: ParamType)
    requires
        conforms(t, p),
        legacy_leaf(t) is Some,
    ensures
        inline_size(legacy_leaf(t)->Some_0) == width(p),
{
    let cs = legacy_leaf(t)->Some_0;
    lemma_inline_size_small(cs);
    match t {
        Token::U16(v) => lemma_word_len(v as nat),
        Token::U32(v) => lemma_word_len(v as nat),
        Token::U64(v) => lemma_word_len(v as nat),
        Token::U128(v) => lemma_be_bytes_len(v as nat, 16),
        Token::U256(v) => lemma_be_bytes_len(v.value(), 32),
        Token::Bytes(b) => {
            lemma_word_len(round_up(b@.len() as int) as nat);
            lemma_word_len(b@.len());
        },
        Token::String(s) => {
            let b = vstd::utf8::encode_utf8(s@);
            lemma_word_len(round_up(b.len() as int) as nat);
            lemma_word_len(b.len());
        },
        Token::RawSlice(b) => lemma_word_len(b@.len()),
        Token::StringSlice(s) => lemma_word_len(string_bytes(s).len()),
        _ => {},
    }
}

proof fn lemma_token_width(cfg: EncoderConfig, t: Token, p: ParamType, depth: nat, count: nat)
    requires
        conforms(t, p),
        legacy_token(cfg, t, depth, count) is Ok,
    ensures
        inline_size(legacy_token(cfg, t, depth, count)->Ok_0.0) == width(p),
    decreases t, 1int,
{
    if legacy_leaf(t) is Some {
        lemma_leaf_width(t, p);
    } else {
        match (t, p) {
            (Token::Array(ts), ParamType::Array(e, n)) => {
                lemma_array_width(cfg, ts@, *e, depth + 1, count + 1);
            },
            (Token::Tuple(ts), ParamType::Tuple(ps)) => {
                lemma_tuple_width(cfg, ts@, ps@, depth + 1, count + 1);
            },
            (Token::Struct(ts), ParamType::Struct { fields, .. }) => {
                lemma_fields_width(cfg, ts@, fields@, depth + 1, count + 1);
            },
            (Token::Vector(ts), _) => {
                let cs = legacy_token(cfg, t, depth, count)->Ok_0.0;
                lemma_inline_size_small(cs);
                lemma_word_len(ts@.len());
            },
            (Token::Enum(sel), _) => {
                lemma_enum_token_width(cfg, t, depth, count);
            },
            _ => {},
        }
    }
}

proof fn lemma_enum_token_width(cfg: EncoderConfig, t: Token, depth: nat, count: nat)
    requires
        t is Enum,
        selection_conforms(*t->Enum_0),
        legacy_token(cfg, t, depth, count) is Ok,
    ensures
        inline_size(legacy_token(cfg, t, depth, count)->Ok_0.0) == enum_width(t->Enum_0.2.variants@),
    decreases t, 0int,
{
    let sel = *t->Enum_0;
    let vs = sel.2.variants@;
    let cs = legacy_token(cfg, t, depth, count)->Ok_0.0;
    if all_units(vs) {
        lemma_inline_size_small(cs);
        lemma_word_len(sel.0 as nat);
    } else {
        let d = sel.0 as int;
        lemma_token_width(cfg, sel.1, vs[d].1, depth + 1, count + 1);
        lemma_max_width_bounds(vs, d);
        let inner = legacy_token(cfg, sel.1, depth + 1, count + 1)->Ok_0.0;
        let head = seq![
            Chunk::Inline(word(sel.0 as nat)),
            Chunk::Inline(zeros((enum_width(vs) - 8 - width(vs[d].1)) as nat)),
        ];
        lemma_inline_size_concat(head, inner);
        lemma_inline_size_small(head);
        lemma_word_len(sel.0 as nat);
    }
}

proof fn lemma_array_width(cfg: EncoderConfig, ts: Seq<Token>, e: ParamType, depth: nat, count: nat)
    requires
        all_conform(ts, e),
        legacy_list(cfg, ts, false, depth, count) is Ok,
    ensures
        inline_size(legacy_list(cfg, ts, false, depth, count)->Ok_0.0) == width(e) * ts.len(),
    decreases ts, 1int,
{
    if ts.len() > 0 {
        lemma_array_width(cfg, ts.drop_last(), e, depth, count);
        let (pre, c) = legacy_list(cfg, ts.drop_last(), false, depth, count)->Ok_0;
        lemma_token_width(cfg, ts.last(), e, depth, c);
        let cs = legacy_token(cfg, ts.last(), depth, c)->Ok_0.0;
        lemma_inline_size_concat(pre + cs, seq![]);
        assert(pre + cs + aligned_tail(cs, false) =~= pre + cs);
        lemma_inline_size_concat(pre, cs);
        let n = ts.len() as int;
        assert(width(e) * (n - 1) + width(e) == width(e) * n) by (nonlinear_arith);
    }
}

proof fn lemma_aligned_step(pre: Seq<Chunk>, cs: Seq<Chunk>)
    ensures
        inline_size(pre + cs + aligned_tail(cs, true)) == inline_size(pre) + round_up(inline_size(cs) as int),
{
    lemma_inline_size_concat(pre + cs, aligned_tail(cs, true));
    lemma_inline_size_concat(pre, cs);
    lemma_inline_size_small(aligned_tail(cs, true));
}

proof fn lemma_tuple_width(cfg: EncoderConfig, ts: Seq<Token>, ps: Seq<ParamType>, depth: nat, count: nat)
    requires
        each_conforms(ts, ps),
        legacy_list(cfg, ts, true, depth, count) is Ok,
    ensures
        inline_size(legacy_list(cfg, ts, true, depth, count)->Ok_0.0) == tuple_width(ps),
    decreases ts, 1int,
{
    if ts.len() > 0 {
        lemma_tuple_width(cfg, ts.drop_last(), ps.drop_last(), depth, count);
        let (pre, c) = legacy_list(cfg, ts.drop_last(), true, depth, count)->Ok_0;
        lemma_token_width(cfg, ts.last(), ps.last(), depth, c);
        lemma_aligned_step(pre, legacy_token(cfg, ts.last(), depth, c)->Ok_0.0);
    }
}

proof fn lemma_fields_width(
    cfg: EncoderConfig,
    ts: Seq<Token>,
    fs: Seq<(String, ParamType)>,
    depth: nat,
    count: nat,
)
    requires
        fields_conform(ts, fs),
        legacy_list(cfg, ts, true, depth, count) is Ok,
    ensures
        inline_size(legacy_list(cfg, ts, true, depth, count)->Ok_0.0) == fields_width(fs),
    decreases ts, 1int,
{
    if ts.len() > 0 {
        lemma_fields_width(cfg, ts.drop_last(), fs.drop_last(), depth, count);
        let (pre, c) = legacy_list(cfg, ts.drop_last(), true, depth, count)->Ok_0;
        lemma_token_width(cfg, ts.last(), fs.last().1, depth, c);
        lemma_aligned_step(pre, legacy_token(cfg, ts.last(), depth, c)->Ok_0.0);
    }
}

/// In the legacy layout an enum takes the same room whichever variant is selected:
/// two values of one enum type, each holding a value of its selected variant's
/// type, take in place exactly the enum's width: the discriminant word, then the
/// width of the widest declared variant rounded up to whole words (the discriminant
/// alone where no variant carries a value).
pub proof fn legacy_enum_width_is_fixed(
    cfg: EncoderConfig,
    t1: Token,
    t2: Token,
    depth1: nat,
    count1: nat,
    depth2: nat,
    count2: nat,
)
    requires
        t1 is Enum,
        t2 is Enum,
        t1->Enum_0.2.variants@ == t2->Enum_0.2.variants@,
        selection_conforms(*t1->Enum_0),
        selection_conforms(*t2->Enum_0),
        legacy_token(cfg, t1, depth1, count1) is Ok,
        legacy_token(cfg, t2, depth2, count2) is Ok,
    ensures
        inline_size(legacy_token(cfg, t1, depth1, count1)->Ok_0.0)
            == inline_size(legacy_token(cfg, t2, depth2, count2)->Ok_0.0),
        inline_size(legacy_token(cfg, t1, depth1, count1)->Ok_0.0) == enum_width(t1->Enum_0.2.variants@),
        enum_width(t1->Enum_0.2.variants@) == if all_units(t1->Enum_0.2.variants@) {
            8
        } else {
            8 + round_up(max_width(t1->Enum_0.2.variants@) as int)
        },
{
    lemma_enum_token_width(cfg, t1, depth1, count1);
    lemma_enum_token_width(cfg, t2, depth2, count2);
}

} // verus!
