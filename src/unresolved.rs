use vstd::prelude::*;
use crate::bytes::{word, word_of, push_slice, lemma_be_bytes_len};
use crate::error::{Error, Fault, fault_error};

verus! {

/// What a piece of encoded output stands for: bytes written in place, or a
/// pointer to a list of pieces placed later, in the region after the inline bytes.
pub enum Chunk {
    Inline(Seq<u8>),
    Dynamic(Seq<Chunk>),
}

/// A piece of encoded output: bytes written in place, or data held elsewhere
/// and reached through a word-sized pointer.
#[derive(Debug)]
pub enum Data {
    Inline(Vec<u8>),
    Dynamic(Vec<Data>),
}

pub open spec fn chunk_of(d: Data) -> Chunk
    decreases d,
{
    match d {
        Data::Inline(b) => Chunk::Inline(b@),
        Data::Dynamic(v) => Chunk::Dynamic(chunks_of(v@)),
    }
}

pub open spec fn chunks_of(ds: Seq<Data>) -> Seq<Chunk>
    decreases ds,
{
    if ds.len() == 0 {
        seq![]
    } else {
        chunks_of(ds.drop_last()).push(chunk_of(ds.last()))
    }
}

/// The number of bytes that `cs` takes in place: pointers take a word each.
pub open spec fn inline_size(cs: Seq<Chunk>) -> nat
    decreases cs.len(),
{
    if cs.len() == 0 {
        0
    } else {
        inline_size(cs.drop_last()) + match cs.last() {
            Chunk::Inline(b) => b.len(),
            Chunk::Dynamic(_) => 8nat,
        }
    }
}

/// The in-place bytes and the pointed-to bytes of `cs`, where the pointed-to data
/// starts at address `heap_at`.
pub open spec fn layout(cs: Seq<Chunk>, heap_at: int) -> (Seq<u8>, Seq<u8>)
    decreases cs, 0int,
{
    if cs.len() == 0 {
        (seq![], seq![])
    } else {
        let (i, d) = layout(cs.drop_last(), heap_at);
        match cs.last() {
            Chunk::Inline(b) => (i + b, d),
            Chunk::Dynamic(sub) => {
                let at = heap_at + d.len();
                (i + word(at as nat), d + resolved(sub, at))
            },
        }
    }
}

/// The final bytes of `cs` placed at address `addr`: its in-place bytes, then the
/// data its pointers reach, each pointer holding the address of its data.
pub open spec fn resolved(cs: Seq<Chunk>, addr: int) -> Seq<u8>
    decreases cs, 1int,
{
    let (i, d) = layout(cs, addr + inline_size(cs));
    i + d
}

/// Whether every pointer of `layout(cs, heap_at)` fits in a word.
pub open spec fn layout_fits(cs: Seq<Chunk>, heap_at: int) -> bool
    decreases cs, 0int,
{
    if cs.len() == 0 {
        true
    } else {
        layout_fits(cs.drop_last(), heap_at) && match cs.last() {
            Chunk::Inline(_) => true,
            Chunk::Dynamic(sub) => {
                let at = heap_at + layout(cs.drop_last(), heap_at).1.len();
                at <= u64::MAX && fits(sub, at)
            },
        }
    }
}

/// Whether `cs` can be placed at `addr` with every pointer fitting in a word.
pub open spec fn fits(cs: Seq<Chunk>, addr: int) -> bool
    decreases cs, 1int,
{
    addr + inline_size(cs) <= u64::MAX && layout_fits(cs, addr + inline_size(cs))
}


pub proof fn lemma_chunks_of(ds: Seq<Data>)
    ensures
        chunks_of(ds).len() == ds.len(),
        forall|i: int| 0 <= i < ds.len() ==> #[trigger] chunks_of(ds)[i] == chunk_of(ds[i]),
    decreases ds.len(),
{
    if ds.len() > 0 {
        lemma_chunks_of(ds.drop_last());
    }
}

pub proof fn lemma_chunks_of_push(ds: Seq<Data>, d: Data)
    ensures
        chunks_of(ds.push(d)) == chunks_of(ds).push(chunk_of(d)),
{
    assert(ds.push(d).drop_last() =~= ds);
}

pub proof fn lemma_chunks_of_concat(a: Seq<Data>, b: Seq<Data>)
    ensures
        chunks_of(a + b) == chunks_of(a) + chunks_of(b),
    decreases b.len(),
{
    if b.len() == 0 {
        assert(a + b =~= a);
        assert(chunks_of(a) + chunks_of(b) =~= chunks_of(a));
    } else {
        lemma_chunks_of_concat(a, b.drop_last());
        assert((a + b).drop_last() =~= a + b.drop_last());
        assert((a + b).last() == b.last());
        assert(chunks_of(a) + chunks_of(b) =~= (chunks_of(a) + chunks_of(b.drop_last())).push(chunk_of(b.last())));
    }
}

/// Appends the pieces of `other` to `v`.
pub fn append_data(v: &mut Vec<Data>, other: Vec<Data>)
    ensures
        chunks_of(final(v)@) == chunks_of(old(v)@) + chunks_of(other@),
{
    let mut other = other;
    proof {
        lemma_chunks_of_concat(v@, other@);
    }
    v.append(&mut other);
}

/// Appends an in-place piece holding `b` to `v`.
pub fn push_inline(v: &mut Vec<Data>, b: Vec<u8>)
    ensures
        chunks_of(final(v)@) == chunks_of(old(v)@).push(Chunk::Inline(b@)),
{
    v.push(Data::Inline(b));
    proof {
        lemma_chunks_of_push(old(v)@, Data::Inline(b));
    }
}

/// Appends a pointer to the pieces `sub` to `v`.
pub fn push_dynamic(v: &mut Vec<Data>, sub: Vec<Data>)
    ensures
        chunks_of(final(v)@) == chunks_of(old(v)@).push(Chunk::Dynamic(chunks_of(sub@))),
{
    proof {
        lemma_chunks_of_push(v@, Data::Dynamic(sub));
    }
    v.push(Data::Dynamic(sub));
}

/// `inline_size(chunks_of(v@))` modulo the word size.
pub fn inline_residue(v: &Vec<Data>) -> (r: usize)
    ensures
        r == inline_size(chunks_of(v@)) % 8,
{
    let ghost cs = chunks_of(v@);
    proof {
        lemma_chunks_of(v@);
    }
    let mut r: usize = 0;
    let mut i: usize = 0;
    while i < v.len()
        invariant
            cs == chunks_of(v@),
            cs.len() == v@.len(),
            forall|k: int| 0 <= k < v@.len() ==> #[trigger] cs[k] == chunk_of(v@[k]),
            i <= v@.len(),
            r == inline_size(cs.subrange(0, i as int)) % 8,
        decreases v@.len() - i,
    {
        assert(cs.subrange(0, i + 1).drop_last() =~= cs.subrange(0, i as int));
        let ghost before = inline_size(cs.subrange(0, i as int));
        match &v[i] {
            Data::Inline(b) => {
                let n = b.len();
                assert((before + n) % 8 == (before % 8 + n % 8) % 8) by (nonlinear_arith);
                r = (r + n % 8) % 8;
            },
            Data::Dynamic(_) => {
                assert((before + 8) % 8 == before % 8) by (nonlinear_arith);
            },
        }
        i = i + 1;
    }
    assert(cs.subrange(0, i as int) =~= cs);
    r
}

pub proof fn lemma_prefix_size(cs: Seq<Chunk>, j: int)
    requires
        0 <= j <= cs.len(),
    ensures
        inline_size(cs.subrange(0, j)) <= inline_size(cs),
    decreases cs.len(),
{
    if j == cs.len() {
        assert(cs.subrange(0, j) =~= cs);
    } else {
        lemma_prefix_size(cs.drop_last(), j);
        assert(cs.drop_last().subrange(0, j) =~= cs.subrange(0, j));
    }
}

pub proof fn lemma_prefix_fits(cs: Seq<Chunk>, heap_at: int, j: int)
    requires
        0 <= j <= cs.len(),
        layout_fits(cs, heap_at),
    ensures
        layout_fits(cs.subrange(0, j), heap_at),
    decreases cs.len(),
{
    if j == cs.len() {
        assert(cs.subrange(0, j) =~= cs);
    } else {
        lemma_prefix_fits(cs.drop_last(), heap_at, j);
        assert(cs.drop_last().subrange(0, j) =~= cs.subrange(0, j));
    }
}

/// Where the pointed-to data of `data` starts when `data` is placed at `addr`,
/// if that address fits in a word.
fn heap_start(data: &Vec<Data>, addr: u64) -> (r: Option<u64>)
    ensures
        r == (if addr + inline_size(chunks_of(data@)) <= u64::MAX {
            Some((addr + inline_size(chunks_of(data@))) as u64)
        } else {
            None::<u64>
        }),
{
    let ghost cs = chunks_of(data@);
    proof {
        lemma_chunks_of(data@);
    }
    let mut total: u64 = addr;
    let mut i: usize = 0;
    while i < data.len()
        invariant
            cs == chunks_of(data@),
            cs.len() == data@.len(),
            forall|k: int| 0 <= k < data@.len() ==> #[trigger] cs[k] == chunk_of(data@[k]),
            i <= data@.len(),
            total == addr + inline_size(cs.subrange(0, i as int)),
        decreases data@.len() - i,
    {
        let size: usize = match &data[i] {
            Data::Inline(b) => b.len(),
            Data::Dynamic(_) => 8,
        };
        assert(cs.subrange(0, i + 1).drop_last() =~= cs.subrange(0, i as int));
        if total > u64::MAX - size as u64 {
            proof {
                lemma_prefix_size(cs, i + 1);
            }
            return None;
        }
        total = total + size as u64;
        i = i + 1;
    }
    assert(cs.subrange(0, i as int) =~= cs);
    Some(total)
}

/// The bytes of `data` placed at `addr`, if every pointer fits in a word.
fn resolve_data(data: &Vec<Data>, addr: u64) -> (r: Option<Vec<u8>>)
    ensures
        match r {
            Some(b) => fits(chunks_of(data@), addr as int) && b@ == resolved(chunks_of(data@), addr as int),
            None => !fits(chunks_of(data@), addr as int),
        },
    decreases data,
{
    let ghost cs = chunks_of(data@);
    proof {
        lemma_chunks_of(data@);
    }
    let heap_at = match heap_start(data, addr) {
        Some(h) => h,
        None => return None,
    };
    let mut inl: Vec<u8> = Vec::new();
    let mut dynamic: Vec<u8> = Vec::new();
    let mut i: usize = 0;
    while i < data.len()
        invariant
            cs == chunks_of(data@),
            cs.len() == data@.len(),
            forall|k: int| 0 <= k < data@.len() ==> #[trigger] cs[k] == chunk_of(data@[k]),
            i <= data@.len(),
            heap_at == addr + inline_size(cs),
            layout(cs.subrange(0, i as int), heap_at as int) == (inl@, dynamic@),
            layout_fits(cs.subrange(0, i as int), heap_at as int),
        decreases data@.len() - i,
    {
        let ghost pre = cs.subrange(0, i as int);
        assert(cs.subrange(0, i + 1).drop_last() =~= pre);
        assert(cs.subrange(0, i + 1).last() == cs[i as int]);
        match &data[i] {
            Data::Inline(b) => {
                push_slice(&mut inl, b.as_slice());
            },
            Data::Dynamic(sub) => {
                if dynamic.len() as u64 > u64::MAX - heap_at {
                    proof {
                        if fits(cs, addr as int) {
                            lemma_prefix_fits(cs, heap_at as int, i + 1);
                        }
                    }
                    return None;
                }
                let at: u64 = heap_at + dynamic.len() as u64;
                match resolve_data(sub, at) {
                    None => {
                        proof {
                            if fits(cs, addr as int) {
                                lemma_prefix_fits(cs, heap_at as int, i + 1);
                            }
                        }
                        return None;
                    },
                    Some(r) => {
                        let w = word_of(at);
                        push_slice(&mut inl, w.as_slice());
                        push_slice(&mut dynamic, r.as_slice());
                    },
                }
            },
        }
        i = i + 1;
    }
    assert(cs.subrange(0, i as int) =~= cs);
    let mut out = inl;
    push_slice(&mut out, dynamic.as_slice());
    Some(out)
}

/// Encoded output whose pointers are filled in once its final address is known.
#[derive(Debug)]
pub struct UnresolvedBytes {
    pub data: Vec<Data>,
}

impl View for UnresolvedBytes {
    type V = Seq<Chunk>;

    open spec fn view(&self) -> Seq<Chunk> {
        chunks_of(self.data@)
    }
}

impl UnresolvedBytes {
    pub fn new(data: Vec<Data>) -> (r: UnresolvedBytes)
        ensures
            r@ == chunks_of(data@),
    {
        UnresolvedBytes { data }
    }

    /// Whether the bytes can be placed at `start_addr` with every pointer fitting in a word.
    pub open spec fn fits_at(&self, start_addr: u64) -> bool {
        fits(self@, start_addr as int)
    }

    /// The final bytes placed at `start_addr`: the in-place bytes, then the data
    /// that pointers reach, each pointer holding the address of its data.
    pub fn resolve(&self, start_addr: u64) -> (r: Vec<u8>)
        requires
            self.fits_at(start_addr),
        ensures
            r@ == resolved(self@, start_addr as int),
    {
        match resolve_data(&self.data, start_addr) {
            Some(b) => b,
            None => Vec::new(),
        }
    }

    /// As `resolve`, and an error where some pointer would not fit in a word.
    pub fn try_resolve(&self, start_addr: u64) -> (r: Result<Vec<u8>, Error>)
        ensures
            match r {
                Ok(b) => self.fits_at(start_addr) && b@ == resolved(self@, start_addr as int),
                Err(e) => !self.fits_at(start_addr)
                    && e.message_view() == crate::error::fault_text(Fault::PointerOverflow(start_addr)),
            },
    {
        match resolve_data(&self.data, start_addr) {
            Some(b) => Ok(b),
            None => Err(fault_error(Fault::PointerOverflow(start_addr))),
        }
    }
}


/// Marks the bytes of `layout(cs, _)` that belong to pointer words: the in-place
/// part, then the pointed-to part.
pub open spec fn mask_layout(cs: Seq<Chunk>) -> (Seq<bool>, Seq<bool>)
    decreases cs, 0int,
{
    if cs.len() == 0 {
        (seq![], seq![])
    } else {
        let (i, d) = mask_layout(cs.drop_last());
        match cs.last() {
            Chunk::Inline(b) => (i + Seq::new(b.len(), |k: int| false), d),
            Chunk::Dynamic(sub) => (i + Seq::new(8, |k: int| true), d + pointer_mask(sub)),
        }
    }
}

/// Marks the bytes of `resolved(cs, _)` that belong to pointer words.
pub open spec fn pointer_mask(cs: Seq<Chunk>) -> Seq<bool>
    decreases cs, 1int,
{
    let (i, d) = mask_layout(cs);
    i + d
}

/// `x` and `y` have the length of `m`, and agree wherever `m` is false.
pub open spec fn agree_outside(x: Seq<u8>, y: Seq<u8>, m: Seq<bool>) -> bool {
    &&& x.len() == m.len()
    &&& y.len() == m.len()
    &&& forall|i: int| 0 <= i < m.len() && !m[i] ==> x[i] == y[i]
}

proof fn lemma_agree_concat(x1: Seq<u8>, y1: Seq<u8>, m1: Seq<bool>, x2: Seq<u8>, y2: Seq<u8>, m2: Seq<bool>)
    requires
        agree_outside(x1, y1, m1),
        agree_outside(x2, y2, m2),
    ensures
        agree_outside(x1 + x2, y1 + y2, m1 + m2),
{
    assert forall|i: int| 0 <= i < (m1 + m2).len() && !(m1 + m2)[i] implies (x1 + x2)[i] == (y1 + y2)[i] by {
        if i >= m1.len() {
            assert(!m2[i - m1.len()]);
        }
    }
}

proof fn lemma_layout_agrees(cs: Seq<Chunk>, h1: int, h2: int)
    ensures
        agree_outside(layout(cs, h1).0, layout(cs, h2).0, mask_layout(cs).0),
        agree_outside(layout(cs, h1).1, layout(cs, h2).1, mask_layout(cs).1),
    decreases cs, 0int,
{
    if cs.len() > 0 {
        let pre = cs.drop_last();
        lemma_layout_agrees(pre, h1, h2);
        let (i1, d1) = layout(pre, h1);
        let (i2, d2) = layout(pre, h2);
        let (mi, md) = mask_layout(pre);
        match cs.last() {
            Chunk::Inline(b) => {
                lemma_agree_concat(i1, i2, mi, b, b, Seq::new(b.len(), |k: int| false));
            },
            Chunk::Dynamic(sub) => {
                let at1 = h1 + d1.len();
                let at2 = h2 + d2.len();
                lemma_be_bytes_len(at1 as nat, 8);
                lemma_be_bytes_len(at2 as nat, 8);
                lemma_agree_concat(i1, i2, mi, word(at1 as nat), word(at2 as nat), Seq::new(8, |k: int| true));
                lemma_resolved_agrees(sub, at1, at2);
                lemma_agree_concat(d1, d2, md, resolved(sub, at1), resolved(sub, at2), pointer_mask(sub));
            },
        }
    }
}

proof fn lemma_resolved_agrees(cs: Seq<Chunk>, a1: int, a2: int)
    ensures
        agree_outside(resolved(cs, a1), resolved(cs, a2), pointer_mask(cs)),
    decreases cs, 1int,
{
    lemma_layout_agrees(cs, a1 + inline_size(cs), a2 + inline_size(cs));
    let (i1, d1) = layout(cs, a1 + inline_size(cs));
    let (i2, d2) = layout(cs, a2 + inline_size(cs));
    let (mi, md) = mask_layout(cs);
    lemma_agree_concat(i1, i2, mi, d1, d2, md);
}

/// Resolving bytes twice at the same offset gives the same result.
pub proof fn resolution_is_repeatable(u: UnresolvedBytes, start_addr: u64, r1: Seq<u8>, r2: Seq<u8>)
    requires
        r1 == resolved(u@, start_addr as int),
        r2 == resolved(u@, start_addr as int),
    ensures
        r1 == r2,
{
}

/// Resolving bytes at two offsets gives results of one length that differ only in
/// the words that hold pointers.
pub proof fn offsets_move_only_pointers(u: UnresolvedBytes, a: u64, b: u64)
    ensures
        agree_outside(resolved(u@, a as int), resolved(u@, b as int), pointer_mask(u@)),
{
    lemma_resolved_agrees(u@, a as int, b as int);
}

} // verus!
