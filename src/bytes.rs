use vstd::prelude::*;

verus! {

/// Number of bytes in a word.
pub const WORD_SIZE: usize = 8;

/// The `n` lowest bytes of `v`, most significant first.
pub open spec fn be_bytes(v: nat, n: nat) -> Seq<u8>
    decreases n,
{
    if n == 0 {
        seq![]
    } else {
        be_bytes(v / 256, (n - 1) as nat).push((v % 256) as u8)
    }
}

/// A word holding `v`, most significant byte first.
pub open spec fn word(v: nat) -> Seq<u8> {
    be_bytes(v, 8)
}

/// `n` zero bytes.
pub open spec fn zeros(n: nat) -> Seq<u8> {
    Seq::new(n, |i: int| 0u8)
}

/// Number of zero bytes that bring a length of `n` to a whole number of words.
pub open spec fn pad_len(n: int) -> nat {
    if n % 8 == 0 { 0 } else { (8 - n % 8) as nat }
}

/// `n` rounded up to a whole number of words.
pub open spec fn round_up(n: int) -> int {
    n + pad_len(n)
}

pub proof fn lemma_be_bytes_len(v: nat, n: nat)
    ensures
        be_bytes(v, n).len() == n,
    decreases n,
{
    if n > 0 {
        lemma_be_bytes_len(v / 256, (n - 1) as nat);
    }
}

/// `256` to the power `m`.
pub open spec fn pow256(m: nat) -> nat
    decreases m,
{
    if m == 0 { 1 } else { 256 * pow256((m - 1) as nat) }
}

/// Writing `a * 256^m + b` on `m + k` bytes writes `a` on the first `k` bytes and `b`
/// on the last `m`.
pub proof fn lemma_be_bytes_split(a: nat, b: nat, m: nat, k: nat)
    requires
        b < pow256(m),
    ensures
        be_bytes(a * pow256(m) + b, m + k) == be_bytes(a, k) + be_bytes(b, m),
    decreases m,
{
    if m == 0 {
        assert(b == 0);
        assert(be_bytes(a, k) + be_bytes(b, 0) =~= be_bytes(a, k));
    } else {
        let p = pow256((m - 1) as nat);
        let x = a * pow256(m) + b;
        assert(pow256(m) == 256 * p);
        assert(x == 256 * (a * p + b / 256) + b % 256) by (nonlinear_arith)
            requires x == a * (256 * p) + b, b % 256 < 256, b == 256 * (b / 256) + b % 256;
        assert(x / 256 == a * p + b / 256 && x % 256 == b % 256) by (nonlinear_arith)
            requires x == 256 * (a * p + b / 256) + b % 256, 0 <= b % 256 < 256, a * p + b / 256 >= 0;
        assert(b / 256 < p) by (nonlinear_arith)
            requires b < 256 * p;
        lemma_be_bytes_split(a, b / 256, (m - 1) as nat, k);
        assert((m + k - 1) as nat == (m - 1) as nat + k);
        assert(be_bytes(x, m + k) == be_bytes(x / 256, (m + k - 1) as nat).push((x % 256) as u8));
        assert(be_bytes(b, m) == be_bytes(b / 256, (m - 1) as nat).push((b % 256) as u8));
        assert(be_bytes(a, k) + be_bytes(b, m) =~= (be_bytes(a, k) + be_bytes(b / 256, (m - 1) as nat)).push(
            (b % 256) as u8));
    }
}

/// Appends the `n` lowest bytes of `v` to `out`, most significant first.
pub fn push_be(out: &mut Vec<u8>, v: u128, n: usize)
    requires
        n <= 16,
    ensures
        final(out)@ == old(out)@ + be_bytes(v as nat, n as nat),
    decreases n,
{
    if n > 0 {
        push_be(out, v / 256, n - 1);
        out.push((v % 256) as u8);
        assert(final(out)@ =~= old(out)@ + be_bytes(v as nat, n as nat));
    } else {
        assert(final(out)@ =~= old(out)@ + be_bytes(v as nat, n as nat));
    }
}

/// Appends a word holding `v` to `out`.
pub fn push_word(out: &mut Vec<u8>, v: u64)
    ensures
        final(out)@ == old(out)@ + word(v as nat),
{
    push_be(out, v as u128, 8);
}

/// A word holding `v`.
pub fn word_of(v: u64) -> (r: Vec<u8>)
    ensures
        r@ == word(v as nat),
{
    let mut r: Vec<u8> = Vec::new();
    push_word(&mut r, v);
    assert(r@ =~= word(v as nat));
    r
}

/// Appends `n` zero bytes to `out`.
pub fn push_zeros(out: &mut Vec<u8>, n: usize)
    ensures
        final(out)@ == old(out)@ + zeros(n as nat),
{
    let ghost start = out@;
    let mut i: usize = 0;
    while i < n
        invariant
            i <= n,
            out@ == start + zeros(i as nat),
        decreases n - i,
    {
        out.push(0u8);
        i = i + 1;
        assert(out@ =~= start + zeros(i as nat));
    }
}

/// Appends the bytes of `src` to `out`.
pub fn push_slice(out: &mut Vec<u8>, src: &[u8])
    ensures
        final(out)@ == old(out)@ + src@,
{
    let ghost start = out@;
    let mut i: usize = 0;
    while i < src.len()
        invariant
            i <= src@.len(),
            out@ == start + src@.subrange(0, i as int),
        decreases src@.len() - i,
    {
        out.push(src[i]);
        i = i + 1;
        assert(out@ =~= start + src@.subrange(0, i as int));
    }
    assert(src@.subrange(0, src@.len() as int) =~= src@);
}

/// Number of zero bytes that bring a length of `n` to a whole number of words.
pub fn padding_for(n: usize) -> (r: usize)
    ensures
        r == pad_len(n as int),
        r < 8,
{
    if n % 8 == 0 { 0 } else { 8 - n % 8 }
}

} // verus!
