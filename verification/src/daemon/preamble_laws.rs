//! What a preamble that was written is read as.
use crate::daemon::preamble::{
    PeekStep, RamRegion, clone_mark, init_token, peek, policy_magic, policy_of, procmem_magic,
    procmem_of, procmem_total, ram_magic, ram_of, ram_region_at, ram_region_ok, ram_total,
    ring_dir_magic, ring_dir_of, starts_with, triple_at, triple_bytes, triples,
};
use crate::wire::{byte_range, le_at, le_bytes, lemma_byte_range, lemma_le_at, lemma_le_len};
use vstd::prelude::*;

verus! {

/// The bytes of a number, the lowest first.
pub proof fn law_lowest_byte_first(v: nat, n: nat, i: int)
    requires
        0 <= i < n,
    ensures
        le_bytes(v, n).len() == n,
        le_bytes(v, n)[i] as int == (v as int / vstd::arithmetic::power::pow(256, i as nat)) % 256,
    decreases n,
{
    lemma_le_len(v, n);
    if i == 0 {
        vstd::arithmetic::power::lemma_pow0(256);
    } else {
        law_lowest_byte_first(v / 256, (n - 1) as nat, i - 1);
        let p = vstd::arithmetic::power::pow(256, (i - 1) as nat);
        vstd::arithmetic::power::lemma_pow_positive(256, (i - 1) as nat);
        assert(vstd::arithmetic::power::pow(256, i as nat) == 256 * p) by {
            reveal(vstd::arithmetic::power::pow);
        }
        vstd::arithmetic::div_mod::lemma_div_denominator(v as int, 256, p);
    }
}

proof fn lemma_number_at(s: Seq<u8>, a: Seq<u8>, v: nat, n: nat, b: Seq<u8>)
    requires
        s == a + le_bytes(v, n) + b,
        v < byte_range(n),
    ensures
        le_at(s, a.len() as int, n as int) == v,
{
    lemma_le_at(a, v, n, b);
}

proof fn lemma_starts(s: Seq<u8>, magic: Seq<u8>, b: Seq<u8>)
    requires
        s == magic + b,
    ensures
        starts_with(s, magic),
{
    assert(s.subrange(0, magic.len() as int) =~= magic);
}

// ---------------------------------------------------------------------------
// Policy
// ---------------------------------------------------------------------------

/// The bytes that open a policy.
pub open spec fn policy_bytes(limit: u64, pool: u32, rest: u32) -> Seq<u8> {
    seq![0x53u8, 0x4d, 0x56, 0x43, 0x50, 0x4f, 0x4c, 0x31] + le_bytes(limit as nat, 8) + le_bytes(
        pool as nat,
        4,
    ) + le_bytes(rest as nat, 4)
}

/// A policy is read as it was written: its limit and its pool, where they are not zero.
pub proof fn law_policy_is_read_back(limit: u64, pool: u32, rest: u32)
    ensures
        ({
            let read = policy_of(policy_bytes(limit, pool, rest));
            &&& limit > 0 ==> read.vram_limit_bytes == Some(limit)
            &&& limit == 0 ==> read.vram_limit_bytes is None
            &&& pool > 0 ==> read.fork_pool_size == Some(pool)
            &&& pool == 0 ==> read.fork_pool_size is None
            &&& !read.fork_clone
        }),
{
    let m = seq![0x53u8, 0x4d, 0x56, 0x43, 0x50, 0x4f, 0x4c, 0x31];
    let a = le_bytes(limit as nat, 8);
    let b = le_bytes(pool as nat, 4);
    let c = le_bytes(rest as nat, 4);
    let s = policy_bytes(limit, pool, rest);
    lemma_byte_range();
    lemma_le_len(limit as nat, 8);
    lemma_le_len(pool as nat, 4);
    lemma_le_len(rest as nat, 4);
    assert(m =~= policy_magic());
    assert(s =~= m + (a + b + c));
    lemma_starts(s, m, a + b + c);
    assert(s =~= m + a + (b + c));
    lemma_number_at(s, m, limit as nat, 8, b + c);
    lemma_number_at(s, m + a, pool as nat, 4, c);
}

/// What is not a policy of the right length and opening sets no limit.
pub proof fn law_other_bytes_are_no_policy(buf: Seq<u8>)
    requires
        buf.len() != 24 || buf.take(8) != seq![0x53u8, 0x4d, 0x56, 0x43, 0x50, 0x4f, 0x4c, 0x31],
    ensures
        policy_of(buf).vram_limit_bytes is None,
        policy_of(buf).fork_pool_size is None,
        !policy_of(buf).fork_clone,
{
    let m = seq![0x53u8, 0x4d, 0x56, 0x43, 0x50, 0x4f, 0x4c, 0x31];
    assert(m =~= policy_magic());
    assert(m.len() == 8);
    if buf.len() == 24 {
        assert(buf.subrange(0, 8) =~= buf.take(8));
    }
}

// ---------------------------------------------------------------------------
// Process memory
// ---------------------------------------------------------------------------

/// The bytes that advertise the memory of a process.
pub open spec fn procmem_bytes(pid: u32, rest: u32, regions: Seq<(u64, u64, u64)>) -> Seq<u8> {
    seq![0x53u8, 0x4d, 0x56, 0x47, 0x50, 0x56, 0x4d, 0x31] + le_bytes(pid as nat, 4) + le_bytes(
        regions.len(),
        4,
    ) + le_bytes(rest as nat, 4) + triple_bytes(regions)
}

/// Regions are written one after the other, each as its three numbers.
pub proof fn law_regions_are_written_in_turn(
    a: Seq<(u64, u64, u64)>,
    b: Seq<(u64, u64, u64)>,
    r: (u64, u64, u64),
)
    ensures
        triple_bytes(a + b) == triple_bytes(a) + triple_bytes(b),
        triple_bytes(seq![r]) == le_bytes(r.0 as nat, 8) + le_bytes(r.1 as nat, 8) + le_bytes(
            r.2 as nat,
            8,
        ),
    decreases b.len(),
{
    let empty = Seq::<u8>::empty();
    assert(seq![r].drop_last() =~= Seq::empty());
    assert(triple_bytes(seq![r].drop_last()) == empty);
    assert(triple_bytes(seq![r]) =~= le_bytes(r.0 as nat, 8) + le_bytes(r.1 as nat, 8) + le_bytes(
        r.2 as nat,
        8,
    ));
    if b.len() == 0 {
        assert(a + b =~= a);
        assert(triple_bytes(a) + triple_bytes(b) =~= triple_bytes(a));
    } else {
        law_regions_are_written_in_turn(a, b.drop_last(), r);
        assert((a + b).drop_last() =~= a + b.drop_last());
        assert(triple_bytes(a + b) =~= triple_bytes(a) + triple_bytes(b));
    }
}

proof fn lemma_triples(
    s: Seq<u8>,
    head: Seq<u8>,
    regions: Seq<(u64, u64, u64)>,
    i: int,
)
    requires
        s == head + triple_bytes(regions),
        0 <= i < regions.len(),
    ensures
        triple_at(s, head.len() as int, i) == regions[i],
{
    let before = regions.take(i);
    let after = regions.skip(i + 1);
    let r = regions[i];
    let one = seq![r];
    assert(regions =~= before + one + after);
    law_regions_are_written_in_turn(before + one, after, r);
    law_regions_are_written_in_turn(before, one, r);
    lemma_triple_len(before);
    lemma_byte_range();
    let x = le_bytes(r.0 as nat, 8);
    let y = le_bytes(r.1 as nat, 8);
    let z = le_bytes(r.2 as nat, 8);
    lemma_le_len(r.0 as nat, 8);
    lemma_le_len(r.1 as nat, 8);
    lemma_le_len(r.2 as nat, 8);
    let a = head + triple_bytes(before);
    let b = triple_bytes(after);
    assert(s =~= a + x + (y + z + b));
    lemma_number_at(s, a, r.0 as nat, 8, y + z + b);
    assert(s =~= (a + x) + y + (z + b));
    lemma_number_at(s, a + x, r.1 as nat, 8, z + b);
    assert(s =~= (a + x + y) + z + b);
    lemma_number_at(s, a + x + y, r.2 as nat, 8, b);
}

proof fn lemma_triple_len(v: Seq<(u64, u64, u64)>)
    ensures
        triple_bytes(v).len() == 24 * v.len(),
    decreases v.len(),
{
    if v.len() > 0 {
        lemma_triple_len(v.drop_last());
        lemma_le_len(v.last().0 as nat, 8);
        lemma_le_len(v.last().1 as nat, 8);
        lemma_le_len(v.last().2 as nat, 8);
    }
}

/// Memory that is advertised by a process, in at most sixty-four regions none of which is
/// empty, is read as it was written.
pub proof fn law_procmem_is_read_back(pid: u32, rest: u32, regions: Seq<(u64, u64, u64)>)
    requires
        pid != 0,
        regions.len() <= 64,
    ensures
        procmem_total(procmem_bytes(pid, rest, regions)) == Some(
            (20 + 24 * regions.len()) as usize,
        ),
        (forall|i: int| 0 <= i < regions.len() ==> (#[trigger] regions[i]).2 > 0) ==> procmem_of(
            procmem_bytes(pid, rest, regions),
        ) == Some((pid, regions)),
        (exists|i: int| 0 <= i < regions.len() && (#[trigger] regions[i]).2 == 0) ==> procmem_of(
            procmem_bytes(pid, rest, regions),
        ) is None,
{
    let m = seq![0x53u8, 0x4d, 0x56, 0x47, 0x50, 0x56, 0x4d, 0x31];
    let a = le_bytes(pid as nat, 4);
    let b = le_bytes(regions.len(), 4);
    let c = le_bytes(rest as nat, 4);
    let d = triple_bytes(regions);
    let s = procmem_bytes(pid, rest, regions);
    lemma_byte_range();
    lemma_le_len(pid as nat, 4);
    lemma_le_len(regions.len(), 4);
    lemma_le_len(rest as nat, 4);
    lemma_triple_len(regions);
    assert(m =~= procmem_magic());
    assert(s =~= m + (a + b + c + d));
    lemma_starts(s, m, a + b + c + d);
    assert(s =~= m + a + (b + c + d));
    lemma_number_at(s, m, pid as nat, 4, b + c + d);
    assert(s =~= (m + a) + b + (c + d));
    lemma_number_at(s, m + a, regions.len(), 4, c + d);
    let head = m + a + b + c;
    assert(head.len() == 20);
    let read = triples(s, 20, regions.len() as int);
    assert forall|i: int| 0 <= i < regions.len() implies #[trigger] read[i] == regions[i] by {
        lemma_triples(s, head, regions, i);
    }
    assert(read =~= regions);
}

/// Advertisements without a process, or of more than sixty-four regions, are not read.
pub proof fn law_refused_advertisements(header: Seq<u8>)
    requires
        header.len() >= 20,
        le_at(header, 8, 4) == 0 || le_at(header, 12, 4) > 64,
    ensures
        procmem_total(header) is None,
        le_at(header, 12, 4) > 64 ==> ram_total(header) is None,
{
}

// ---------------------------------------------------------------------------
// Ring directories
// ---------------------------------------------------------------------------

/// The bytes that name a directory of rings.
pub open spec fn ring_dir_bytes(path: Seq<char>) -> Seq<u8> {
    seq![0x53u8, 0x4d, 0x56, 0x52, 0x44, 0x49, 0x52, 0x31] + le_bytes(
        vstd::utf8::encode_utf8(path).len(),
        2,
    ) + vstd::utf8::encode_utf8(path)
}

/// A directory of rings is read as it was written, if its name has from one to five
/// hundred and twelve bytes.
pub proof fn law_ring_dir_is_read_back(path: Seq<char>)
    requires
        1 <= vstd::utf8::encode_utf8(path).len() <= 512,
    ensures
        ring_dir_of(ring_dir_bytes(path)) == Some(path),
{
    let m = seq![0x53u8, 0x4d, 0x56, 0x52, 0x44, 0x49, 0x52, 0x31];
    let text = vstd::utf8::encode_utf8(path);
    let a = le_bytes(text.len(), 2);
    let s = ring_dir_bytes(path);
    lemma_byte_range();
    lemma_le_len(text.len(), 2);
    assert(m =~= ring_dir_magic());
    assert(s =~= m + (a + text));
    lemma_starts(s, m, a + text);
    lemma_number_at(s, m, text.len(), 2, text);
    assert(s.subrange(10, s.len() as int) =~= text);
    vstd::utf8::encode_utf8_valid_utf8(path);
    vstd::utf8::encode_utf8_decode_utf8(path);
}

// ---------------------------------------------------------------------------
// Guest memory
// ---------------------------------------------------------------------------

/// The bytes of regions of guest memory.
pub open spec fn ram_region_bytes(v: Seq<RamRegion>) -> Seq<u8>
    decreases v.len(),
{
    if v.len() == 0 {
        Seq::empty()
    } else {
        ram_region_bytes(v.drop_last()) + le_bytes(v.last().gpa as nat, 8) + le_bytes(
            v.last().fd as nat,
            4,
        ) + le_bytes(v.last().offset as nat, 8) + le_bytes(v.last().len as nat, 8)
    }
}

/// The bytes that advertise guest memory.
pub open spec fn ram_bytes(pid: u32, rest: u32, regions: Seq<RamRegion>) -> Seq<u8> {
    seq![0x53u8, 0x4d, 0x56, 0x47, 0x52, 0x41, 0x4d, 0x32] + le_bytes(pid as nat, 4) + le_bytes(
        regions.len(),
        4,
    ) + le_bytes(rest as nat, 4) + ram_region_bytes(regions)
}

proof fn lemma_ram_region(head: Seq<u8>, regions: Seq<RamRegion>, i: int)
    requires
        head.len() == 20,
        0 <= i < regions.len(),
    ensures
        ram_region_bytes(regions).len() == 28 * regions.len(),
        ram_region_at(head + ram_region_bytes(regions), i) == regions[i],
    decreases regions.len(),
{
    let front = regions.drop_last();
    let r = regions.last();
    let before = ram_region_bytes(front);
    lemma_ram_len(front);
    lemma_byte_range();
    let w = le_bytes(r.gpa as nat, 8);
    let x = le_bytes(r.fd as nat, 4);
    let y = le_bytes(r.offset as nat, 8);
    let z = le_bytes(r.len as nat, 8);
    lemma_le_len(r.gpa as nat, 8);
    lemma_le_len(r.fd as nat, 4);
    lemma_le_len(r.offset as nat, 8);
    lemma_le_len(r.len as nat, 8);
    let s = head + ram_region_bytes(regions);
    let a = head + before;
    if i == front.len() {
        assert(s =~= a + w + (x + y + z));
        lemma_number_at(s, a, r.gpa as nat, 8, x + y + z);
        assert(s =~= (a + w) + x + (y + z));
        lemma_number_at(s, a + w, r.fd as nat, 4, y + z);
        assert(s =~= (a + w + x) + y + z);
        lemma_number_at(s, a + w + x, r.offset as nat, 8, z);
        assert(s =~= (a + w + x + y) + z + Seq::<u8>::empty());
        lemma_number_at(s, a + w + x + y, r.len as nat, 8, Seq::empty());
    } else {
        lemma_ram_region(head, front, i);
        let t = head + before;
        let o = 20 + 28 * i;
        assert(s.subrange(o, o + 8) =~= t.subrange(o, o + 8));
        assert(s.subrange(o + 8, o + 8 + 4) =~= t.subrange(o + 8, o + 8 + 4));
        assert(s.subrange(o + 12, o + 12 + 8) =~= t.subrange(o + 12, o + 12 + 8));
        assert(s.subrange(o + 20, o + 20 + 8) =~= t.subrange(o + 20, o + 20 + 8));
        assert(front[i] == regions[i]);
    }
}

proof fn lemma_ram_len(v: Seq<RamRegion>)
    ensures
        ram_region_bytes(v).len() == 28 * v.len(),
    decreases v.len(),
{
    if v.len() > 0 {
        lemma_ram_len(v.drop_last());
        lemma_le_len(v.last().gpa as nat, 8);
        lemma_le_len(v.last().fd as nat, 4);
        lemma_le_len(v.last().offset as nat, 8);
        lemma_le_len(v.last().len as nat, 8);
    }
}

/// Guest memory that is advertised in one to sixty-four regions, none of which is empty or
/// starts within a page of its file, is read as it was written; any other is refused.
pub proof fn law_ram_is_read_back(pid: u32, rest: u32, regions: Seq<RamRegion>)
    requires
        1 <= regions.len() <= 64,
    ensures
        ram_total(ram_bytes(pid, rest, regions)) == Some((20 + 28 * regions.len()) as usize),
        (forall|i: int|
            0 <= i < regions.len() ==> (#[trigger] regions[i]).len > 0 && regions[i].offset % 4096
                == 0) ==> ram_of(ram_bytes(pid, rest, regions)) == Some((pid, regions)),
        (exists|i: int|
            0 <= i < regions.len() && ((#[trigger] regions[i]).len == 0 || regions[i].offset % 4096
                != 0)) ==> ram_of(ram_bytes(pid, rest, regions)) is None,
{
    let m = seq![0x53u8, 0x4d, 0x56, 0x47, 0x52, 0x41, 0x4d, 0x32];
    let a = le_bytes(pid as nat, 4);
    let b = le_bytes(regions.len(), 4);
    let c = le_bytes(rest as nat, 4);
    let d = ram_region_bytes(regions);
    let s = ram_bytes(pid, rest, regions);
    lemma_byte_range();
    lemma_le_len(pid as nat, 4);
    lemma_le_len(regions.len(), 4);
    lemma_le_len(rest as nat, 4);
    lemma_ram_len(regions);
    assert(m =~= ram_magic());
    assert(s =~= m + (a + b + c + d));
    lemma_starts(s, m, a + b + c + d);
    assert(s =~= m + a + (b + c + d));
    lemma_number_at(s, m, pid as nat, 4, b + c + d);
    assert(s =~= (m + a) + b + (c + d));
    lemma_number_at(s, m + a, regions.len(), 4, c + d);
    let head = m + a + b + c;
    let read = Seq::new(le_at(s, 12, 4), |i: int| ram_region_at(s, i));
    assert forall|i: int| 0 <= i < regions.len() implies #[trigger] read[i] == regions[i] by {
        lemma_ram_region(head, regions, i);
    }
    assert(read =~= regions);
    if exists|i: int|
        0 <= i < regions.len() && ((#[trigger] regions[i]).len == 0 || regions[i].offset % 4096
            != 0) {
        let i = choose|i: int|
            0 <= i < regions.len() && ((#[trigger] regions[i]).len == 0 || regions[i].offset % 4096
                != 0);
        assert(!ram_region_ok(read[i]));
    }
}

// ---------------------------------------------------------------------------
// Clones
// ---------------------------------------------------------------------------

/// What marks a clone is read as it was written: its token, then its flags.
pub proof fn law_clone_mark_is_read_back(magic: Seq<u8>, token: u64, flags: u8)
    requires
        magic.len() == 8,
    ensures
        clone_mark(magic + le_bytes(token as nat, 8) + seq![flags], magic) == Some((token, flags)),
{
    let a = le_bytes(token as nat, 8);
    let s = magic + a + seq![flags];
    lemma_byte_range();
    lemma_le_len(token as nat, 8);
    assert(s =~= magic + (a + seq![flags]));
    lemma_starts(s, magic, a + seq![flags]);
    lemma_number_at(s, magic, token as nat, 8, seq![flags]);
}

/// A token stands behind the thirteen bytes that open a session, of which the fifth is one;
/// zero is none.
pub proof fn law_token_is_read_back(head: Seq<u8>, token: u64, rest: Seq<u8>)
    requires
        head.len() == 13,
    ensures
        head[4] == 1 && token != 0 ==> init_token(head + le_bytes(token as nat, 8) + rest) == Some(
            token,
        ),
        head[4] != 1 || token == 0 ==> init_token(head + le_bytes(token as nat, 8) + rest) is None,
{
    let s = head + le_bytes(token as nat, 8) + rest;
    lemma_byte_range();
    lemma_le_len(token as nat, 8);
    lemma_number_at(s, head, token as nat, 8, rest);
    assert(s[4] == head[4]);
}

/// Bytes whose start is another's are not ours, however many there are; those whose start
/// is ours are there once all have come.
pub proof fn law_what_a_peek_tells(magic: Seq<u8>, full: int, b: Seq<u8>)
    requires
        0 < magic.len() <= full,
    ensures
        peek(None, magic, full) == PeekStep::Again,
        b.len() == 0 ==> peek(Some(b), magic, full) == PeekStep::Closed,
        b.len() >= magic.len() && b.take(magic.len() as int) != magic ==> peek(Some(b), magic, full)
            == PeekStep::NotOurs,
        b.len() >= full && b.take(magic.len() as int) == magic ==> peek(Some(b), magic, full)
            == PeekStep::Present,
        magic.len() <= b.len() < full && b.take(magic.len() as int) == magic ==> peek(
            Some(b),
            magic,
            full,
        ) == PeekStep::Again,
        0 < b.len() < magic.len() ==> peek(Some(b), magic, full) == PeekStep::Again,
{
}

} // verus!
