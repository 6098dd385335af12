use vstd::prelude::*;
use crate::bytes::{round_up, padding_for};
use crate::types::ParamType;

verus! {

/// Whether every declared variant carries no value.
pub open spec fn all_units(vs: Seq<(String, ParamType)>) -> bool {
    forall|i: int| 0 <= i < vs.len() ==> (#[trigger] vs[i].1 is Unit)
}

/// The number of bytes that a value of type `p` takes in place in the legacy layout.
pub open spec fn width(p: ParamType) -> nat
    decreases p,
{
    match p {
        ParamType::Unit | ParamType::Bool | ParamType::U8 => 1,
        ParamType::U16 | ParamType::U32 | ParamType::U64 => 8,
        ParamType::U128 | ParamType::RawSlice | ParamType::StringSlice => 16,
        ParamType::U256 | ParamType::B256 => 32,
        ParamType::Bytes | ParamType::String | ParamType::Vector(_) => 24,
        ParamType::StringArray(n) => round_up(n as int) as nat,
        ParamType::Array(e, n) => width(*e) * (n as nat),
        ParamType::Tuple(ps) => tuple_width(ps@),
        ParamType::Struct { fields, .. } => fields_width(fields@),
        ParamType::Enum { enum_variants, .. } => {
            if all_units(enum_variants.variants@) {
                8
            } else {
                8 + round_up(max_width(enum_variants.variants@) as int) as nat
            }
        },
    }
}

/// The width of a tuple: each element takes a whole number of words.
pub open spec fn tuple_width(ps: Seq<ParamType>) -> nat
    decreases ps,
{
    if ps.len() == 0 {
        0
    } else {
        tuple_width(ps.drop_last()) + round_up(width(ps.last()) as int) as nat
    }
}

/// The width of a struct: each field takes a whole number of words.
pub open spec fn fields_width(fs: Seq<(String, ParamType)>) -> nat
    decreases fs,
{
    if fs.len() == 0 {
        0
    } else {
        fields_width(fs.drop_last()) + round_up(width(fs.last().1) as int) as nat
    }
}

/// The largest width among the declared variants.
pub open spec fn max_width(vs: Seq<(String, ParamType)>) -> nat
    decreases vs,
{
    if vs.len() == 0 {
        0
    } else {
        let a = max_width(vs.drop_last());
        let b = width(vs.last().1);
        if a < b { b } else { a }
    }
}

/// The width of an enum: the discriminant word, then room for the widest variant
/// rounded up to a whole number of words; the discriminant alone where every
/// variant carries no value.
pub open spec fn enum_width(vs: Seq<(String, ParamType)>) -> nat {
    if all_units(vs) {
        8
    } else {
        8 + round_up(max_width(vs) as int) as nat
    }
}

/// `round_up(w)`, where it is at most `limit`.
fn bounded_round_up(w: usize, limit: usize) -> (r: Option<usize>)
    requires
        w <= limit,
    ensures
        r == (if round_up(w as int) <= limit { Some(round_up(w as int) as usize) } else { None::<usize> }),
{
    let pad = padding_for(w);
    if pad > limit - w { None } else { Some(w + pad) }
}

proof fn lemma_round_up_grows(w: int)
    ensures
        w <= round_up(w),
        round_up(w) < w + 8,
{
}

proof fn lemma_tuple_prefix(ps: Seq<ParamType>, j: int)
    requires
        0 <= j <= ps.len(),
    ensures
        tuple_width(ps.subrange(0, j)) <= tuple_width(ps),
    decreases ps.len(),
{
    if j == ps.len() {
        assert(ps.subrange(0, j) =~= ps);
    } else {
        lemma_tuple_prefix(ps.drop_last(), j);
        assert(ps.drop_last().subrange(0, j) =~= ps.subrange(0, j));
    }
}

proof fn lemma_fields_prefix(fs: Seq<(String, ParamType)>, j: int)
    requires
        0 <= j <= fs.len(),
    ensures
        fields_width(fs.subrange(0, j)) <= fields_width(fs),
    decreases fs.len(),
{
    if j == fs.len() {
        assert(fs.subrange(0, j) =~= fs);
    } else {
        lemma_fields_prefix(fs.drop_last(), j);
        assert(fs.drop_last().subrange(0, j) =~= fs.subrange(0, j));
    }
}

proof fn lemma_max_prefix(vs: Seq<(String, ParamType)>, j: int)
    requires
        0 <= j <= vs.len(),
    ensures
        max_width(vs.subrange(0, j)) <= max_width(vs),
    decreases vs.len(),
{
    if j == vs.len() {
        assert(vs.subrange(0, j) =~= vs);
    } else {
        lemma_max_prefix(vs.drop_last(), j);
        assert(vs.drop_last().subrange(0, j) =~= vs.subrange(0, j));
    }
}

/// The width of a value of type `p`, where it is at most `limit`.
pub fn bounded_width(p: &ParamType, limit: usize) -> (r: Option<usize>)
    ensures
        r == (if width(*p) <= limit { Some(width(*p) as usize) } else { None::<usize> }),
    decreases p,
{
    match p {
        ParamType::Unit | ParamType::Bool | ParamType::U8 => {
            if limit < 1 { None } else { Some(1) }
        },
        ParamType::U16 | ParamType::U32 | ParamType::U64 => {
            if limit < 8 { None } else { Some(8) }
        },
        ParamType::U128 | ParamType::RawSlice | ParamType::StringSlice => {
            if limit < 16 { None } else { Some(16) }
        },
        ParamType::U256 | ParamType::B256 => {
            if limit < 32 { None } else { Some(32) }
        },
        ParamType::Bytes | ParamType::String | ParamType::Vector(_) => {
            if limit < 24 { None } else { Some(24) }
        },
        ParamType::StringArray(n) => {
            if *n > limit {
                proof { lemma_round_up_grows(*n as int); }
                None
            } else {
                bounded_round_up(*n, limit)
            }
        },
        ParamType::Array(e, n) => {
            if *n == 0 {
                assert(width(*p) == 0) by (nonlinear_arith)
                    requires width(*p) == width(**e) * (*n as nat), *n == 0;
                return Some(0);
            }
            match bounded_width(&**e, limit) {
                None => {
                    assert(width(*p) > limit) by (nonlinear_arith)
                        requires width(*p) == width(**e) * (*n as nat), *n >= 1, width(**e) > limit;
                    None
                },
                Some(w) => {
                    if w > limit / *n {
                        assert(width(*p) > limit) by (nonlinear_arith)
                            requires width(*p) == w * (*n as nat), *n >= 1, (w as int) > (limit as int) / (*n as int);
                        None
                    } else {
                        assert(w * *n <= limit) by (nonlinear_arith)
                            requires *n >= 1, (w as int) <= (limit as int) / (*n as int);
                        Some(w * *n)
                    }
                },
            }
        },
        ParamType::Tuple(ps) => {
            let mut total: usize = 0;
            let mut i: usize = 0;
            while i < ps.len()
                invariant
                    i <= ps@.len(),
                    total == tuple_width(ps@.subrange(0, i as int)),
                    total <= limit,
                    width(*p) == tuple_width(ps@),
                    *p == ParamType::Tuple(*ps),
                decreases ps@.len() - i,
            {
                assert(ps@.subrange(0, i + 1).drop_last() =~= ps@.subrange(0, i as int));
                proof {
                    lemma_tuple_prefix(ps@, i + 1);
                    lemma_round_up_grows(width(ps@[i as int]) as int);
                }
                let w = match bounded_width(&ps[i], limit) {
                    Some(w) => w,
                    None => return None,
                };
                let w = match bounded_round_up(w, limit) {
                    Some(w) => w,
                    None => return None,
                };
                if w > limit - total {
                    return None;
                }
                total = total + w;
                i = i + 1;
            }
            assert(ps@.subrange(0, i as int) =~= ps@);
            Some(total)
        },
        ParamType::Struct { fields, .. } => {
            let mut total: usize = 0;
            let mut i: usize = 0;
            while i < fields.len()
                invariant
                    i <= fields@.len(),
                    total == fields_width(fields@.subrange(0, i as int)),
                    total <= limit,
                    width(*p) == fields_width(fields@),
                    *p is Struct && (*p)->Struct_fields == *fields,
                decreases fields@.len() - i,
            {
                assert(fields@.subrange(0, i + 1).drop_last() =~= fields@.subrange(0, i as int));
                proof {
                    lemma_fields_prefix(fields@, i + 1);
                    lemma_round_up_grows(width(fields@[i as int].1) as int);
                }
                let w = match bounded_width(&fields[i].1, limit) {
                    Some(w) => w,
                    None => return None,
                };
                let w = match bounded_round_up(w, limit) {
                    Some(w) => w,
                    None => return None,
                };
                if w > limit - total {
                    return None;
                }
                total = total + w;
                i = i + 1;
            }
            assert(fields@.subrange(0, i as int) =~= fields@);
            Some(total)
        },
        ParamType::Enum { enum_variants, .. } => {
            bounded_enum_width(&enum_variants.variants, limit)
        },
    }
}

/// The width of an enum with the variants `vs`, where it is at most `limit`.
pub fn bounded_enum_width(vs: &Vec<(String, ParamType)>, limit: usize) -> (r: Option<usize>)
    ensures
        r == (if enum_width(vs@) <= limit { Some(enum_width(vs@) as usize) } else { None::<usize> }),
    decreases vs,
{
    if only_units(vs) {
        return if limit < 8 { None } else { Some(8) };
    }
    let mut max: usize = 0;
    let mut i: usize = 0;
    while i < vs.len()
        invariant
            i <= vs@.len(),
            max == max_width(vs@.subrange(0, i as int)),
            max <= limit,
            !all_units(vs@),
        decreases vs@.len() - i,
    {
        assert(vs@.subrange(0, i + 1).drop_last() =~= vs@.subrange(0, i as int));
        proof {
            lemma_max_prefix(vs@, i + 1);
            lemma_round_up_grows(max_width(vs@) as int);
        }
        let w = match bounded_width(&vs[i].1, limit) {
            Some(w) => w,
            None => return None,
        };
        if w > max {
            max = w;
        }
        i = i + 1;
    }
    assert(vs@.subrange(0, i as int) =~= vs@);
    match bounded_round_up(max, limit) {
        Some(w) => {
            if limit < 8 || w > limit - 8 { None } else { Some(w + 8) }
        },
        None => None,
    }
}

/// Whether every declared variant carries no value.
pub fn only_units(vs: &Vec<(String, ParamType)>) -> (r: bool)
    ensures
        r == all_units(vs@),
{
    let mut i: usize = 0;
    while i < vs.len()
        invariant
            i <= vs@.len(),
            forall|k: int| 0 <= k < i ==> (#[trigger] vs@[k].1 is Unit),
        decreases vs@.len() - i,
    {
        match &vs[i].1 {
            ParamType::Unit => {},
            _ => return false,
        }
        i = i + 1;
    }
    true
}

} // verus!
