//! Little-endian numbers in byte messages.
use vstd::prelude::*;

verus! {

/// The number whose bytes, least significant first, are `b`.
pub open spec fn le_value(b: Seq<u8>) -> nat
    decreases b.len(),
{
    if b.len() == 0 {
        0
    } else {
        b[0] as nat + 256 * le_value(b.skip(1))
    }
}

/// The `n` lowest bytes of `v`, least significant first.
pub open spec fn le_bytes(v: nat, n: nat) -> Seq<u8>
    decreases n,
{
    if n == 0 {
        Seq::empty()
    } else {
        seq![(v % 256) as u8] + le_bytes(v / 256, (n - 1) as nat)
    }
}

/// 256 to the power of `n`.
pub open spec fn byte_range(n: nat) -> nat
    decreases n,
{
    if n == 0 {
        1
    } else {
        256 * byte_range((n - 1) as nat)
    }
}

/// The number in `b` at position `at` with `n` bytes.
pub open spec fn le_at(b: Seq<u8>, at: int, n: int) -> nat {
    le_value(b.subrange(at, at + n))
}

/// The widths in use.
pub proof fn lemma_byte_range()
    ensures
        byte_range(1) == 0x100,
        byte_range(2) == 0x1_0000,
        byte_range(4) == 0x1_0000_0000,
        byte_range(8) == 0x1_0000_0000_0000_0000,
        byte_range(16) == 0x1_0000_0000_0000_0000_0000_0000_0000_0000,
{
    reveal_with_fuel(byte_range, 17);
}

/// A number of `n` bytes is below 256 to the power of `n`.
pub proof fn lemma_le_bound(b: Seq<u8>)
    ensures
        le_value(b) < byte_range(b.len()),
    decreases b.len(),
{
    if b.len() > 0 {
        lemma_le_bound(b.skip(1));
    }
}

/// Reading the bytes of a number that fits gives the number.
pub proof fn lemma_le_round_trip(v: nat, n: nat)
    requires
        v < byte_range(n),
    ensures
        le_bytes(v, n).len() == n,
        le_value(le_bytes(v, n)) == v,
    decreases n,
{
    if n > 0 {
        lemma_le_round_trip(v / 256, (n - 1) as nat);
        assert(le_bytes(v, n).skip(1) =~= le_bytes(v / 256, (n - 1) as nat));
    }
}

/// A number's bytes are as many as were asked for.
pub proof fn lemma_le_len(v: nat, n: nat)
    ensures
        le_bytes(v, n).len() == n,
    decreases n,
{
    if n > 0 {
        lemma_le_len(v / 256, (n - 1) as nat);
    }
}

/// Reading a number where it was written gives the number.
pub proof fn lemma_le_at(a: Seq<u8>, v: nat, n: nat, b: Seq<u8>)
    requires
        v < byte_range(n),
    ensures
        le_at(a + le_bytes(v, n) + b, a.len() as int, n as int) == v,
{
    lemma_le_round_trip(v, n);
    let s = a + le_bytes(v, n) + b;
    assert(s.subrange(a.len() as int, a.len() as int + n as int) =~= le_bytes(v, n));
}

/// Appends the `n` lowest bytes of `v`.
pub fn push_le(out: &mut Vec<u8>, v: u64, n: usize)
    ensures
        final(out)@ == old(out)@ + le_bytes(v as nat, n as nat),
{
    let ghost start = out@;
    let mut rest: u64 = v;
    let mut i: usize = 0;
    proof { assert(start + le_bytes(v as nat, n as nat) =~= out@ + le_bytes(rest as nat, (n - i) as nat)); }
    while i < n
        invariant
            i <= n,
            start + le_bytes(v as nat, n as nat) == out@ + le_bytes(rest as nat, (n - i) as nat),
        decreases n - i,
    {
        let ghost before = out@;
        out.push((rest % 256) as u8);
        proof {
            assert(before + le_bytes(rest as nat, (n - i) as nat) =~= out@ + le_bytes(
                (rest / 256) as nat,
                (n - i - 1) as nat,
            ));
        }
        rest = rest / 256;
        i = i + 1;
    }
    proof { assert(out@ + le_bytes(rest as nat, 0) =~= out@); }
}

/// Reads a number of at most eight bytes.
pub fn read_le(b: &[u8], at: usize, n: usize) -> (v: u64)
    requires
        n <= 8,
        at + n <= b@.len(),
    ensures
        v == le_at(b@, at as int, n as int),
        v < byte_range(n as nat),
{
    let size: usize = b.len();
    let mut v: u64 = 0;
    let mut i: usize = n;
    proof {
        assert(b@.subrange(at + n, at + n) =~= Seq::empty());
        assert(byte_range(0) == 1);
    }
    while i > 0
        invariant
            i <= n <= 8,
            at + n <= b@.len(),
            size == b@.len(),
            v == le_value(b@.subrange(at + i, at + n)),
            v < byte_range((n - i) as nat),
        decreases i,
    {
        let ghost tail = b@.subrange(at + i, at + n);
        let ghost longer = b@.subrange(at + i - 1, at + n);
        proof {
            assert(longer.skip(1) =~= tail);
            lemma_le_bound(longer);
            lemma_byte_range();
            lemma_range_monotone((n - i + 1) as nat, 8);
        }
        v = b[at + i - 1] as u64 + 256 * v;
        i = i - 1;
    }
    v
}

proof fn lemma_range_monotone(a: nat, b: nat)
    requires
        a <= b,
    ensures
        1 <= byte_range(a) <= byte_range(b),
    decreases b,
{
    if a < b {
        lemma_range_monotone(a, (b - 1) as nat);
    } else if b > 0 {
        lemma_range_monotone((a - 1) as nat, (b - 1) as nat);
    }
}

/// Reads two bytes.
pub fn read_u16(b: &[u8], at: usize) -> (v: u16)
    requires
        at + 2 <= b@.len(),
    ensures
        v == le_at(b@, at as int, 2),
{
    proof { lemma_byte_range(); }
    read_le(b, at, 2) as u16
}

/// Reads four bytes.
pub fn read_u32(b: &[u8], at: usize) -> (v: u32)
    requires
        at + 4 <= b@.len(),
    ensures
        v == le_at(b@, at as int, 4),
{
    proof { lemma_byte_range(); }
    read_le(b, at, 4) as u32
}

/// Reads eight bytes.
pub fn read_u64(b: &[u8], at: usize) -> (v: u64)
    requires
        at + 8 <= b@.len(),
    ensures
        v == le_at(b@, at as int, 8),
{
    read_le(b, at, 8)
}

/// Appends four bytes.
pub fn push_u32(out: &mut Vec<u8>, v: u32)
    ensures
        final(out)@ == old(out)@ + le_bytes(v as nat, 4),
{
    push_le(out, v as u64, 4)
}

/// Appends eight bytes.
pub fn push_u64(out: &mut Vec<u8>, v: u64)
    ensures
        final(out)@ == old(out)@ + le_bytes(v as nat, 8),
{
    push_le(out, v, 8)
}

/// Appends the bytes `b`.
pub fn push_bytes(out: &mut Vec<u8>, b: &[u8])
    ensures
        final(out)@ == old(out)@ + b@,
{
    let ghost start = out@;
    let mut i: usize = 0;
    proof { assert(start + b@.take(0) =~= start); }
    while i < b.len()
        invariant
            i <= b@.len(),
            out@ == start + b@.take(i as int),
        decreases b@.len() - i,
    {
        out.push(b[i]);
        i = i + 1;
        proof { assert(start + b@.take(i as int) =~= (start + b@.take(i - 1)).push(b@[i - 1])); }
    }
    proof { assert(b@.take(b@.len() as int) =~= b@); }
}

/// The bytes of `b` from `from` up to, not including, `to`.
pub fn byte_stretch(b: &[u8], from: usize, to: usize) -> (r: Vec<u8>)
    requires
        from <= to <= b@.len(),
    ensures
        r@ == b@.subrange(from as int, to as int),
{
    let mut r: Vec<u8> = Vec::new();
    push_bytes(&mut r, vstd::slice::slice_subrange(b, from, to));
    proof { assert(r@ =~= b@.subrange(from as int, to as int)); }
    r
}

/// Whether `b` holds `pattern` at position `at`.
pub fn bytes_at(b: &[u8], at: usize, pattern: &[u8]) -> (r: bool)
    ensures
        r == (at + pattern@.len() <= b@.len() && b@.subrange(
            at as int,
            at + pattern@.len(),
        ) == pattern@),
{
    let size: usize = b.len();
    if at > size || pattern.len() > size - at {
        return false;
    }
    let mut i: usize = 0;
    while i < pattern.len()
        invariant
            i <= pattern@.len(),
            at + pattern@.len() <= b@.len(),
            size == b@.len(),
            forall|j: int| 0 <= j < i ==> b@[at + j] == pattern@[j],
        decreases pattern@.len() - i,
    {
        if b[at + i] != pattern[i] {
            proof {
                assert(b@.subrange(at as int, at + pattern@.len())[i as int] != pattern@[i as int]);
            }
            return false;
        }
        i = i + 1;
    }
    proof { assert(b@.subrange(at as int, at + pattern@.len()) =~= pattern@); }
    true
}

/// Whether two byte strings are equal.
pub fn bytes_eq(a: &[u8], b: &[u8]) -> (r: bool)
    ensures
        r == (a@ == b@),
{
    if a.len() != b.len() {
        return false;
    }
    let r = bytes_at(a, 0, b);
    proof { assert(a@.subrange(0, a@.len() as int) =~= a@); }
    r
}

} // verus!
