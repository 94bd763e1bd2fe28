//! What a machine's proxy announces ahead of its first request.
use crate::copying::opt_text;
use crate::digest::{hex_prefix, hex_text};
use crate::numerals::{
    decimal, decimal_chars, lemma_numeral_chars, lemma_parse_numeral, parse_number, parse_u32,
    parse_u64,
};
use crate::split::{lemma_split_append, lemma_split_plain, only, pieces, split_chars, split_on};
use crate::text::{chars_of, say5, string_of, text_from_utf8};
use crate::wire::{
    byte_stretch, bytes_at, le_at, le_bytes, lemma_byte_range, lemma_le_len, lemma_le_round_trip,
    push_le, push_u32, push_u64, read_u16, read_u32, read_u64,
};
use vstd::prelude::*;

verus! {

/// Serving options of a connection.
#[derive(Debug, Clone, Copy, PartialEq, Eq, Structural)]
pub struct ServeOptions {
    /// Device memory the connection may use.
    pub vram_limit_bytes: Option<u64>,
    /// Planned size of the fork pool.
    pub fork_pool_size: Option<u32>,
    /// The connection belongs to a fork clone.
    pub fork_clone: bool,
}

impl ServeOptions {
    /// No limit, no pool, no clone.
    pub fn unlimited() -> (r: Self)
        ensures
            r == (ServeOptions { vram_limit_bytes: None, fork_pool_size: None, fork_clone: false }),
    {
        ServeOptions { vram_limit_bytes: None, fork_pool_size: None, fork_clone: false }
    }
}

/// Most memory regions an announcement holds.
pub const MAX_ADVERT_REGIONS: u32 = 64;

/// Longest ring directory path, in bytes.
pub const MAX_RING_DIR_BYTES: u16 = 512;

/// What a look at the first bytes of a connection tells.
#[derive(Debug, Clone, Copy, PartialEq, Eq, Structural)]
pub enum PeekStep {
    /// The bytes are something else; leave them.
    NotOurs,
    /// The whole header is there.
    Present,
    /// The peer closed before the header was there.
    Closed,
    /// Too little is there yet; look again.
    Again,
}

/// What the first bytes of a connection tell about a header of `full` bytes that
/// starts with `magic`. `seen` is what is there; nothing for a failed look.
pub open spec fn peek(seen: Option<Seq<u8>>, magic: Seq<u8>, full: int) -> PeekStep {
    match seen {
        None => PeekStep::Again,
        Some(b) => if b.len() >= magic.len() && b.take(magic.len() as int) != magic {
            PeekStep::NotOurs
        } else if b.len() >= full {
            PeekStep::Present
        } else if b.len() == 0 {
            PeekStep::Closed
        } else {
            PeekStep::Again
        },
    }
}

/// What the first bytes of a connection tell about a header.
pub fn peek_preamble(seen: Option<&[u8]>, magic: &[u8], full: usize) -> (r: PeekStep)
    ensures
        r == peek(
            match seen {
                Some(b) => Some(b@),
                None => None,
            },
            magic@,
            full as int,
        ),
{
    match seen {
        None => PeekStep::Again,
        Some(b) => {
            let starts = bytes_at(b, 0, magic);
            proof {
                if b@.len() >= magic@.len() {
                    assert(b@.subrange(0, magic@.len() as int) =~= b@.take(magic@.len() as int));
                }
            }
            if b.len() >= magic.len() && !starts {
                PeekStep::NotOurs
            } else if b.len() >= full {
                PeekStep::Present
            } else if b.len() == 0 {
                PeekStep::Closed
            } else {
                PeekStep::Again
            }
        },
    }
}

/// How often the first bytes of a connection are looked at.
pub const PEEK_ATTEMPTS: u32 = 200;

/// Milliseconds between two looks.
pub const PEEK_PAUSE_MILLIS: u64 = 5;

/// How many first bytes of a connection tell which golden process it names.
pub const TOKEN_BYTES: usize = 21;

/// Looking at the first bytes of a connection, which may come in pieces.
#[derive(Debug, Clone, Copy, PartialEq, Eq, Structural)]
pub enum Looking {
    /// Look, this many times at most.
    Look { left: u32 },
    /// The whole header is there.
    Found,
    /// It is not there, and does not come in time.
    Absent,
}

impl Looking {
    /// What follows a look.
    pub open spec fn after(self, seen: PeekStep) -> Looking {
        match (self, seen) {
            (Looking::Look { left }, PeekStep::Present) => Looking::Found,
            (Looking::Look { left }, PeekStep::Again) => if left > 1 {
                Looking::Look { left: (left - 1) as u32 }
            } else {
                Looking::Absent
            },
            (Looking::Look { left }, _) => Looking::Absent,
            _ => self,
        }
    }

    /// The start.
    pub fn start() -> (r: Looking)
        ensures
            r == (Looking::Look { left: PEEK_ATTEMPTS }),
    {
        Looking::Look { left: PEEK_ATTEMPTS }
    }

    /// What follows a look.
    pub fn advance(self, seen: PeekStep) -> (r: Looking)
        ensures
            r == self.after(seen),
    {
        match (self, seen) {
            (Looking::Look { left: _ }, PeekStep::Present) => Looking::Found,
            (Looking::Look { left }, PeekStep::Again) => if left > 1 {
                Looking::Look { left: left - 1 }
            } else {
                Looking::Absent
            },
            (Looking::Look { left: _ }, _) => Looking::Absent,
            _ => self,
        }
    }
}

/// What is reached after looks.
pub open spec fn looked(seen: Seq<PeekStep>) -> Looking
    decreases seen.len(),
{
    if seen.len() == 0 {
        Looking::Look { left: PEEK_ATTEMPTS }
    } else {
        looked(seen.drop_last()).after(seen.last())
    }
}

/// Looking ends in time, and finds a header only if a look saw the whole of it.
pub proof fn law_looking_ends(seen: Seq<PeekStep>)
    ensures
        seen.len() >= PEEK_ATTEMPTS ==> !(looked(seen) is Look),
        looked(seen) is Found ==> seen.contains(PeekStep::Present),
        looked(seen) matches Looking::Look { left } ==> left + seen.len() == PEEK_ATTEMPTS
            && left > 0,
    decreases seen.len(),
{
    if seen.len() > 0 {
        let front = seen.drop_last();
        law_looking_ends(front);
        if looked(seen) is Found {
            if looked(front) is Found {
                let k = choose|k: int| 0 <= k < front.len() && front[k] == PeekStep::Present;
                assert(seen[k] == PeekStep::Present);
            } else {
                assert(seen[seen.len() - 1] == PeekStep::Present);
            }
        }
    }
}

/// Whether `b` starts with `magic`.
pub open spec fn starts_with(b: Seq<u8>, magic: Seq<u8>) -> bool {
    b.len() >= magic.len() && b.subrange(0, magic.len() as int) == magic
}

/// `SMVCPOL1`: the capacity policy.
pub open spec fn policy_magic() -> Seq<u8> {
    seq![0x53u8, 0x4d, 0x56, 0x43, 0x50, 0x4f, 0x4c, 0x31]
}

/// `SMVGPVM1`: live memory of a fork clone.
pub open spec fn procmem_magic() -> Seq<u8> {
    seq![0x53u8, 0x4d, 0x56, 0x47, 0x50, 0x56, 0x4d, 0x31]
}

/// `SMVRDIR1`: the ring directory.
pub open spec fn ring_dir_magic() -> Seq<u8> {
    seq![0x53u8, 0x4d, 0x56, 0x52, 0x44, 0x49, 0x52, 0x31]
}

/// `SMVGRAM2`: guest memory files.
pub open spec fn ram_magic() -> Seq<u8> {
    seq![0x53u8, 0x4d, 0x56, 0x47, 0x52, 0x41, 0x4d, 0x32]
}

/// `PMV1`: live memory that goes with a late channel.
pub open spec fn attach_magic() -> Seq<u8> {
    seq![0x50u8, 0x4d, 0x56, 0x31]
}

/// The magic of the capacity policy.
pub fn policy_magic_bytes() -> (magic: Vec<u8>)
    ensures
        magic@ == policy_magic(),
{
    let magic: Vec<u8> = vec![0x53, 0x4d, 0x56, 0x43, 0x50, 0x4f, 0x4c, 0x31];
    proof { assert(magic@ =~= policy_magic()); }
    magic
}

/// The magic of a clone's live memory.
pub fn procmem_magic_bytes() -> (magic: Vec<u8>)
    ensures
        magic@ == procmem_magic(),
{
    let magic: Vec<u8> = vec![0x53, 0x4d, 0x56, 0x47, 0x50, 0x56, 0x4d, 0x31];
    proof { assert(magic@ =~= procmem_magic()); }
    magic
}

/// The magic of the ring directory.
pub fn ring_dir_magic_bytes() -> (magic: Vec<u8>)
    ensures
        magic@ == ring_dir_magic(),
{
    let magic: Vec<u8> = vec![0x53, 0x4d, 0x56, 0x52, 0x44, 0x49, 0x52, 0x31];
    proof { assert(magic@ =~= ring_dir_magic()); }
    magic
}

/// The magic of guest memory files.
pub fn ram_magic_bytes() -> (magic: Vec<u8>)
    ensures
        magic@ == ram_magic(),
{
    let magic: Vec<u8> = vec![0x53, 0x4d, 0x56, 0x47, 0x52, 0x41, 0x4d, 0x32];
    proof { assert(magic@ =~= ram_magic()); }
    magic
}

// ---------------------------------------------------------------------------
// Capacity policy
// ---------------------------------------------------------------------------

/// The options that a policy announcement sets; zero means no limit and no pool,
/// and anything that is no announcement sets none.
pub open spec fn policy_of(buf: Seq<u8>) -> ServeOptions {
    if buf.len() != 24 || !starts_with(buf, policy_magic()) {
        ServeOptions { vram_limit_bytes: None, fork_pool_size: None, fork_clone: false }
    } else {
        let limit = le_at(buf, 8, 8) as u64;
        let pool = le_at(buf, 16, 4) as u32;
        ServeOptions {
            vram_limit_bytes: if limit > 0 {
                Some(limit)
            } else {
                None
            },
            fork_pool_size: if pool > 0 {
                Some(pool)
            } else {
                None
            },
            fork_clone: false,
        }
    }
}

/// Reads a policy announcement.
pub fn consume_policy_preamble(buf: &[u8]) -> (r: ServeOptions)
    ensures
        r == policy_of(buf@),
{
    let magic = policy_magic_bytes();
    if buf.len() != 24 || !bytes_at(buf, 0, &magic) {
        return ServeOptions::unlimited();
    }
    let limit = read_u64(buf, 8);
    let pool = read_u32(buf, 16);
    ServeOptions {
        vram_limit_bytes: if limit > 0 {
            Some(limit)
        } else {
            None
        },
        fork_pool_size: if pool > 0 {
            Some(pool)
        } else {
            None
        },
        fork_clone: false,
    }
}

// ---------------------------------------------------------------------------
// Live memory of a clone
// ---------------------------------------------------------------------------

/// Three numbers of eight bytes each at the `i`th place from `base`.
pub open spec fn triple_at(b: Seq<u8>, base: int, i: int) -> (u64, u64, u64) {
    (
        le_at(b, base + 24 * i, 8) as u64,
        le_at(b, base + 24 * i + 8, 8) as u64,
        le_at(b, base + 24 * i + 16, 8) as u64,
    )
}

/// The `n` triples from `base` on.
pub open spec fn triples(b: Seq<u8>, base: int, n: int) -> Seq<(u64, u64, u64)> {
    Seq::new(n as nat, |i: int| triple_at(b, base, i))
}

/// Reads `n` triples.
fn read_triples(b: &[u8], base: usize, n: usize) -> (r: Vec<(u64, u64, u64)>)
    requires
        base + 24 * n <= b@.len(),
    ensures
        r@ == triples(b@, base as int, n as int),
{
    let size: usize = b.len();
    let mut r: Vec<(u64, u64, u64)> = Vec::new();
    let mut i: usize = 0;
    while i < n
        invariant
            i <= n,
            base + 24 * n <= b@.len(),
            size == b@.len(),
            r@.len() == i,
            forall|j: int| 0 <= j < i ==> r@[j] == triple_at(b@, base as int, j),
        decreases n - i,
    {
        assert(base + 24 * i + 24 <= base + 24 * n);
        let at: usize = base + 24 * i;
        r.push((read_u64(b, at), read_u64(b, at + 8), read_u64(b, at + 16)));
        i = i + 1;
    }
    proof { assert(r@ =~= triples(b@, base as int, n as int)); }
    r
}

/// The length of the announcement that a header starts, if it is acceptable.
pub open spec fn procmem_total(header: Seq<u8>) -> Option<usize> {
    if header.len() < 20 || !starts_with(header, procmem_magic()) || le_at(header, 8, 4) == 0
        || le_at(header, 12, 4) > MAX_ADVERT_REGIONS {
        None
    } else {
        Some((20 + 24 * le_at(header, 12, 4)) as usize)
    }
}

/// The length of the announcement that a header starts, if it is acceptable.
pub fn procmem_preamble_len(header: &[u8]) -> (r: Option<usize>)
    ensures
        r == procmem_total(header@),
{
    let magic = procmem_magic_bytes();
    if header.len() < 20 || !bytes_at(header, 0, &magic) {
        return None;
    }
    let pid = read_u32(header, 8);
    let count = read_u32(header, 12);
    if pid == 0 || count > MAX_ADVERT_REGIONS {
        None
    } else {
        Some(20 + 24 * (count as usize))
    }
}

/// The process and the regions that a whole announcement names; none where a
/// region is empty.
pub open spec fn procmem_of(buf: Seq<u8>) -> Option<(u32, Seq<(u64, u64, u64)>)> {
    if procmem_total(buf) != Some(buf.len() as usize) {
        None
    } else {
        let regions = triples(buf, 20, le_at(buf, 12, 4) as int);
        if exists|i: int| 0 <= i < regions.len() && (#[trigger] regions[i]).2 == 0 {
            None
        } else {
            Some((le_at(buf, 8, 4) as u32, regions))
        }
    }
}

/// The mathematical value of an announcement of live memory.
pub open spec fn advert_view(a: Option<(u32, Vec<(u64, u64, u64)>)>) -> Option<
    (u32, Seq<(u64, u64, u64)>),
> {
    match a {
        Some((pid, regions)) => Some((pid, regions@)),
        None => None,
    }
}

/// Reads a whole announcement of live memory.
pub fn consume_procmem_preamble(buf: &[u8]) -> (r: Option<(u32, Vec<(u64, u64, u64)>)>)
    ensures
        advert_view(r) == procmem_of(buf@),
{
    match procmem_preamble_len(buf) {
        None => None,
        Some(total) => {
            if total != buf.len() {
                return None;
            }
            let pid = read_u32(buf, 8);
            let count = read_u32(buf, 12) as usize;
            let regions = read_triples(buf, 20, count);
            let mut i: usize = 0;
            while i < regions.len()
                invariant
                    i <= regions@.len(),
                    regions@ == triples(buf@, 20, le_at(buf@, 12, 4) as int),
                    procmem_total(buf@) == Some(buf@.len() as usize),
                    forall|j: int| 0 <= j < i ==> (#[trigger] regions@[j]).2 != 0,
                decreases regions@.len() - i,
            {
                if regions[i].2 == 0 {
                    return None;
                }
                i = i + 1;
            }
            Some((pid, regions))
        },
    }
}

// ---------------------------------------------------------------------------
// Ring directory
// ---------------------------------------------------------------------------

/// The length of the announcement that a header starts, if it is acceptable.
pub open spec fn ring_dir_total(header: Seq<u8>) -> Option<usize> {
    if header.len() < 10 || !starts_with(header, ring_dir_magic()) || le_at(header, 8, 2) == 0
        || le_at(header, 8, 2) > MAX_RING_DIR_BYTES {
        None
    } else {
        Some((10 + le_at(header, 8, 2)) as usize)
    }
}

/// The length of the announcement that a header starts, if it is acceptable.
pub fn ring_dir_preamble_len(header: &[u8]) -> (r: Option<usize>)
    ensures
        r == ring_dir_total(header@),
{
    let magic = ring_dir_magic_bytes();
    if header.len() < 10 || !bytes_at(header, 0, &magic) {
        return None;
    }
    let len = read_u16(header, 8);
    if len == 0 || len > MAX_RING_DIR_BYTES {
        None
    } else {
        Some(10 + len as usize)
    }
}

/// The directory that a whole announcement names.
pub open spec fn ring_dir_of(buf: Seq<u8>) -> Option<Seq<char>> {
    if ring_dir_total(buf) == Some(buf.len() as usize) && vstd::utf8::valid_utf8(
        buf.subrange(10, buf.len() as int),
    ) {
        Some(vstd::utf8::decode_utf8(buf.subrange(10, buf.len() as int)))
    } else {
        None
    }
}

/// Reads a whole announcement of the ring directory.
pub fn consume_ring_dir_preamble(buf: &[u8]) -> (r: Option<String>)
    ensures
        opt_text(r) == ring_dir_of(buf@),
{
    match ring_dir_preamble_len(buf) {
        None => None,
        Some(total) => {
            if total != buf.len() {
                return None;
            }
            text_from_utf8(byte_stretch(buf, 10, buf.len()))
        },
    }
}

// ---------------------------------------------------------------------------
// Guest memory files
// ---------------------------------------------------------------------------

/// One region of guest memory: its guest address, the descriptor number of its
/// file in the machine's process, its offset there and its length.
#[derive(Debug, Clone, Copy, PartialEq, Eq, Structural)]
pub struct RamRegion {
    pub gpa: u64,
    pub fd: u32,
    pub offset: u64,
    pub len: u64,
}

/// The `i`th region of an announcement.
pub open spec fn ram_region_at(b: Seq<u8>, i: int) -> RamRegion {
    RamRegion {
        gpa: le_at(b, 20 + 28 * i, 8) as u64,
        fd: le_at(b, 20 + 28 * i + 8, 4) as u32,
        offset: le_at(b, 20 + 28 * i + 12, 8) as u64,
        len: le_at(b, 20 + 28 * i + 20, 8) as u64,
    }
}

/// A region that can be mapped: it is not empty and starts on a page.
pub open spec fn ram_region_ok(r: RamRegion) -> bool {
    r.len != 0 && r.offset % 4096 == 0
}

/// The length of the announcement that a header starts, if it is acceptable.
pub open spec fn ram_total(header: Seq<u8>) -> Option<usize> {
    if header.len() < 20 || !starts_with(header, ram_magic()) || le_at(header, 12, 4) == 0 || le_at(
        header,
        12,
        4,
    ) > MAX_ADVERT_REGIONS {
        None
    } else {
        Some((20 + 28 * le_at(header, 12, 4)) as usize)
    }
}

/// The length of the announcement that a header starts, if it is acceptable.
pub fn ram_preamble_len(header: &[u8]) -> (r: Option<usize>)
    ensures
        r == ram_total(header@),
{
    let magic = ram_magic_bytes();
    if header.len() < 20 || !bytes_at(header, 0, &magic) {
        return None;
    }
    let count = read_u32(header, 12);
    if count == 0 || count > MAX_ADVERT_REGIONS {
        None
    } else {
        Some(20 + 28 * (count as usize))
    }
}

/// The process and regions that a whole announcement names, if all can be mapped.
pub open spec fn ram_of(buf: Seq<u8>) -> Option<(u32, Seq<RamRegion>)> {
    if ram_total(buf) != Some(buf.len() as usize) {
        None
    } else {
        let regions = Seq::new(le_at(buf, 12, 4), |i: int| ram_region_at(buf, i));
        if forall|i: int| 0 <= i < regions.len() ==> ram_region_ok(#[trigger] regions[i]) {
            Some((le_at(buf, 8, 4) as u32, regions))
        } else {
            None
        }
    }
}

/// Reads a whole announcement of guest memory files.
pub fn consume_ram_preamble(buf: &[u8]) -> (r: Option<(u32, Vec<RamRegion>)>)
    ensures
        match r {
            Some((pid, regions)) => ram_of(buf@) == Some((pid, regions@)),
            None => ram_of(buf@) is None,
        },
{
    let total = match ram_preamble_len(buf) {
        None => {
            return None;
        },
        Some(total) => total,
    };
    let size: usize = buf.len();
    if total != size {
        return None;
    }
    let pid = read_u32(buf, 8);
    let count = read_u32(buf, 12) as usize;
    let ghost all = Seq::new(le_at(buf@, 12, 4), |i: int| ram_region_at(buf@, i));
    let mut regions: Vec<RamRegion> = Vec::new();
    let mut i: usize = 0;
    while i < count
        invariant
            i <= count,
            count == le_at(buf@, 12, 4),
            count <= MAX_ADVERT_REGIONS,
            size == buf@.len(),
            size == 20 + 28 * count,
            ram_total(buf@) == Some(buf@.len() as usize),
            all == Seq::new(le_at(buf@, 12, 4), |i: int| ram_region_at(buf@, i)),
            regions@.len() == i,
            forall|j: int|
                0 <= j < i ==> #[trigger] regions@[j] == all[j] && ram_region_ok(regions@[j]),
        decreases count - i,
    {
        let at: usize = 20 + 28 * i;
        let region = RamRegion {
            gpa: read_u64(buf, at),
            fd: read_u32(buf, at + 8),
            offset: read_u64(buf, at + 12),
            len: read_u64(buf, at + 20),
        };
        assert(region == all[i as int]);
        if region.len == 0 || region.offset % 4096 != 0 {
            assert(!ram_region_ok(all[i as int]));
            return None;
        }
        regions.push(region);
        i = i + 1;
    }
    proof { assert(regions@ =~= all); }
    Some((pid, regions))
}

// ---------------------------------------------------------------------------
// Clone marks
// ---------------------------------------------------------------------------

/// The clone and the flags that a clone mark carries.
pub open spec fn clone_mark(buf: Seq<u8>, magic: Seq<u8>) -> Option<(u64, u8)> {
    if buf.len() == 17 && starts_with(buf, magic) {
        Some((le_at(buf, 8, 8) as u64, buf[16]))
    } else {
        None
    }
}

/// Reads a clone mark that starts with the protocol's `magic`.
pub fn consume_clone_preamble(buf: &[u8], magic: &[u8]) -> (r: Option<(u64, u8)>)
    requires
        magic@.len() == 8,
    ensures
        r == clone_mark(buf@, magic@),
{
    if buf.len() == 17 && bytes_at(buf, 0, magic) {
        Some((read_u64(buf, 8), buf[16]))
    } else {
        None
    }
}

/// The lineage token of a first request, if the request initialises a session and
/// names one.
pub open spec fn init_token(buf: Seq<u8>) -> Option<u64> {
    if buf.len() < 21 || buf[4] != 1 || le_at(buf, 13, 8) == 0 {
        None
    } else {
        Some(le_at(buf, 13, 8) as u64)
    }
}

/// The lineage token of a first request; looked for only where clones are isolated
/// in workers.
pub fn peek_clone_token(buf: &[u8], workers: bool, isolate: bool) -> (r: Option<u64>)
    ensures
        r == if workers && isolate {
            init_token(buf@)
        } else {
            None
        },
{
    if !workers || !isolate || buf.len() < 21 || buf[4] != 1 {
        return None;
    }
    let token = read_u64(buf, 13);
    if token == 0 {
        None
    } else {
        Some(token)
    }
}

// ---------------------------------------------------------------------------
// Live memory that goes with a late channel
// ---------------------------------------------------------------------------

/// Why metadata of a late channel is refused.
#[derive(Debug, Clone, Copy, PartialEq, Eq, Structural)]
pub enum AttachError {
    /// Too short, or something else.
    Invalid,
    /// The counts do not account for the bytes.
    Inconsistent,
}

/// The wire form of triples.
pub open spec fn triple_bytes(v: Seq<(u64, u64, u64)>) -> Seq<u8>
    decreases v.len(),
{
    if v.len() == 0 {
        Seq::empty()
    } else {
        triple_bytes(v.drop_last()) + le_bytes(v.last().0 as nat, 8) + le_bytes(
            v.last().1 as nat,
            8,
        ) + le_bytes(v.last().2 as nat, 8)
    }
}

/// The wire form of an optional announcement.
pub open spec fn attach_bytes(a: Option<(u32, Seq<(u64, u64, u64)>)>) -> Seq<u8> {
    match a {
        Some((pid, regions)) => attach_magic() + le_bytes(pid as nat, 4) + le_bytes(
            regions.len(),
            4,
        ) + triple_bytes(regions),
        None => attach_magic() + le_bytes(0, 4) + le_bytes(0, 4),
    }
}

/// What metadata of a late channel announces.
pub open spec fn parse_attach(data: Seq<u8>) -> Result<
    Option<(u32, Seq<(u64, u64, u64)>)>,
    AttachError,
> {
    if data.len() < 12 || !starts_with(data, attach_magic()) {
        Err(AttachError::Invalid)
    } else {
        let pid = le_at(data, 4, 4);
        let n = le_at(data, 8, 4);
        if data.len() != 12 + 24 * n || (pid == 0) != (n == 0) {
            Err(AttachError::Inconsistent)
        } else if n == 0 {
            Ok(None)
        } else {
            Ok(Some((pid as u32, triples(data, 12, n as int))))
        }
    }
}

/// Writes the metadata of a late channel.
pub fn encode_attach_procmem(procmem: Option<&(u32, Vec<(u64, u64, u64)>)>) -> (r: Vec<u8>)
    ensures
        r@ == attach_bytes(
            match procmem {
                Some(a) => Some((a.0, a.1@)),
                None => None,
            },
        ),
{
    let mut out: Vec<u8> = vec![0x50, 0x4d, 0x56, 0x31];
    proof { assert(out@ =~= attach_magic()); }
    match procmem {
        Some(a) => {
            push_u32(&mut out, a.0);
            push_le(&mut out, a.1.len() as u64, 4);
            let ghost head = out@;
            let ghost all = a.1@;
            let mut i: usize = 0;
            proof { assert(head + triple_bytes(all.take(0)) =~= head); }
            while i < a.1.len()
                invariant
                    i <= all.len(),
                    all == a.1@,
                    out@ == head + triple_bytes(all.take(i as int)),
                decreases all.len() - i,
            {
                push_u64(&mut out, a.1[i].0);
                push_u64(&mut out, a.1[i].1);
                push_u64(&mut out, a.1[i].2);
                i = i + 1;
                proof {
                    assert(all.take(i as int).drop_last() =~= all.take(i - 1));
                    assert(all.take(i as int).last() == all[i - 1]);
                    assert(out@ =~= head + triple_bytes(all.take(i as int)));
                }
            }
            proof { assert(all.take(all.len() as int) =~= all); }
        },
        None => {
            push_u32(&mut out, 0);
            push_u32(&mut out, 0);
        },
    }
    out
}

/// Bytes as they are listed: two hexadecimal digits each, with commas between them.
pub open spec fn byte_list(b: Seq<u8>) -> Seq<char>
    decreases b.len(),
{
    if b.len() == 0 {
        Seq::empty()
    } else if b.len() == 1 {
        hex_text(b)
    } else {
        byte_list(b.drop_last()) + ", "@ + hex_text(seq![b.last()])
    }
}

fn list_bytes(b: &[u8], n: usize) -> (r: String)
    requires
        n <= b@.len(),
    ensures
        r@ == byte_list(b@.take(n as int)),
{
    let mut r = String::new();
    let mut i: usize = 0;
    proof { assert(b@.take(0) =~= Seq::<u8>::empty()); }
    while i < n
        invariant
            i <= n <= b@.len(),
            r@ == byte_list(b@.take(i as int)),
        decreases n - i,
    {
        let one: Vec<u8> = vec![b[i]];
        let digits = hex_prefix(&one, 2);
        proof {
            assert(one@ =~= seq![b@[i as int]]);
            assert(hex_text(one@).take(2) =~= hex_text(one@));
            assert(b@.take(i + 1).drop_last() =~= b@.take(i as int));
            assert(b@.take(i + 1).last() == b@[i as int]);
            if i == 0 {
                assert(b@.take(1) =~= one@);
            }
        }
        if i > 0 {
            r.append(", ");
            r.append(digits.as_str());
        } else {
            r = digits;
        }
        i = i + 1;
    }
    r
}

/// What is said of metadata that is refused.
pub open spec fn attach_refusal_text(data: Seq<u8>, e: AttachError) -> Seq<char> {
    match e {
        AttachError::Invalid => "invalid clone attach metadata (len="@ + decimal(data.len())
            + ", head=["@ + byte_list(
            data.take(
                if data.len() < 12 {
                    data.len() as int
                } else {
                    12
                },
            ),
        ) + "])"@,
        AttachError::Inconsistent => "inconsistent clone attach metadata"@,
    }
}

/// What is said of metadata that is refused.
pub fn attach_refusal(data: &[u8], e: AttachError) -> (r: String)
    ensures
        r@ == attach_refusal_text(data@, e),
{
    match e {
        AttachError::Invalid => {
            let n: usize = if data.len() < 12 {
                data.len()
            } else {
                12
            };
            let length = string_of(&decimal_chars(data.len() as u128));
            let head = list_bytes(data, n);
            say5(
                "invalid clone attach metadata (len=",
                length.as_str(),
                ", head=[",
                head.as_str(),
                "])",
            )
        },
        AttachError::Inconsistent => "inconsistent clone attach metadata".to_owned(),
    }
}

/// Reads the metadata of a late channel.
pub fn decode_attach_procmem(data: &[u8]) -> (r: Result<
    Option<(u32, Vec<(u64, u64, u64)>)>,
    AttachError,
>)
    ensures
        match r {
            Ok(a) => parse_attach(data@) == Ok::<_, AttachError>(advert_view(a)),
            Err(e) => parse_attach(data@) == Err::<Option<(u32, Seq<(u64, u64, u64)>)>, _>(e),
        },
{
    let magic: Vec<u8> = vec![0x50, 0x4d, 0x56, 0x31];
    proof { assert(magic@ =~= attach_magic()); }
    if data.len() < 12 || !bytes_at(data, 0, &magic) {
        return Err(AttachError::Invalid);
    }
    let pid = read_u32(data, 4);
    let n = read_u32(data, 8);
    if data.len() as u64 != 12 + 24 * (n as u64) || (pid == 0) != (n == 0) {
        return Err(AttachError::Inconsistent);
    }
    if n == 0 {
        return Ok(None);
    }
    Ok(Some((pid, read_triples(data, 12, n as usize))))
}

// ---------------------------------------------------------------------------
// Live memory in a worker's environment
// ---------------------------------------------------------------------------

/// One region as text.
pub open spec fn region_text(r: (u64, u64, u64)) -> Seq<char> {
    decimal(r.0 as nat).push(',') + decimal(r.1 as nat).push(',') + decimal(r.2 as nat)
}

/// An announcement as text.
pub open spec fn procmem_text(pid: u32, regions: Seq<(u64, u64, u64)>) -> Seq<char>
    decreases regions.len(),
{
    if regions.len() == 0 {
        decimal(pid as nat)
    } else {
        procmem_text(pid, regions.drop_last()).push(';') + region_text(regions.last())
    }
}

/// The region that a text names: its first three comma-separated numbers.
pub open spec fn parse_region(part: Seq<char>) -> Option<(u64, u64, u64)> {
    let c = split_on(part, ',');
    if c.len() < 3 {
        None
    } else {
        match (
            parse_number(c[0], 10, u64::MAX as nat),
            parse_number(c[1], 10, u64::MAX as nat),
            parse_number(c[2], 10, u64::MAX as nat),
        ) {
            (Some(g), Some(h), Some(l)) => Some((g as u64, h as u64, l as u64)),
            _ => None,
        }
    }
}

/// The announcement that a text names.
pub open spec fn parse_procmem_text(v: Seq<char>) -> Option<(u32, Seq<(u64, u64, u64)>)> {
    let parts = split_on(v, ';');
    match parse_number(parts[0], 10, u32::MAX as nat) {
        Some(pid) if pid != 0 && (forall|i: int|
            1 <= i < parts.len() ==> parse_region(#[trigger] parts[i]) is Some) => Some(
            (
                pid as u32,
                Seq::new(
                    (parts.len() - 1) as nat,
                    |i: int| parse_region(parts[i + 1])->Some_0,
                ),
            ),
        ),
        _ => None,
    }
}

/// Writes an announcement for a worker's environment.
pub fn procmem_to_env(pid: u32, regions: &[(u64, u64, u64)]) -> (r: String)
    ensures
        r@ == procmem_text(pid, regions@),
{
    let mut out = decimal_chars(pid as u128);
    let mut i: usize = 0;
    proof { assert(regions@.take(0) =~= Seq::empty()); }
    while i < regions.len()
        invariant
            i <= regions@.len(),
            out@ == procmem_text(pid, regions@.take(i as int)),
        decreases regions@.len() - i,
    {
        let ghost before = out@;
        out.push(';');
        out.append(&mut decimal_chars(regions[i].0 as u128));
        out.push(',');
        out.append(&mut decimal_chars(regions[i].1 as u128));
        out.push(',');
        out.append(&mut decimal_chars(regions[i].2 as u128));
        i = i + 1;
        proof {
            assert(regions@.take(i as int).drop_last() =~= regions@.take(i - 1));
            assert(regions@.take(i as int).last() == regions@[i - 1]);
            assert(out@ =~= before.push(';') + region_text(regions@[i - 1]));
        }
    }
    proof { assert(regions@.take(regions@.len() as int) =~= regions@); }
    string_of(&out)
}

fn read_region(part: &[char]) -> (r: Option<(u64, u64, u64)>)
    ensures
        r == parse_region(part@),
{
    let c = split_chars(part, ',');
    proof { assert(pieces(c@).len() == c@.len()); }
    if c.len() < 3 {
        return None;
    }
    proof {
        assert(pieces(c@)[0] == c@[0]@);
        assert(pieces(c@)[1] == c@[1]@);
        assert(pieces(c@)[2] == c@[2]@);
    }
    match (parse_u64(&c[0]), parse_u64(&c[1]), parse_u64(&c[2])) {
        (Some(g), Some(h), Some(l)) => Some((g, h, l)),
        _ => None,
    }
}

/// Reads an announcement from a worker's environment.
pub fn procmem_from_env(value: &str) -> (r: Option<(u32, Vec<(u64, u64, u64)>)>)
    ensures
        advert_view(r) == parse_procmem_text(value@),
{
    let chars = chars_of(value);
    let parts = split_chars(&chars, ';');
    let ghost all = pieces(parts@);
    proof {
        assert(all.len() == parts@.len());
        assert(all[0] == parts@[0]@);
    }
    let pid = match parse_u32(&parts[0]) {
        Some(pid) => pid,
        None => {
            return None;
        },
    };
    if pid == 0 {
        return None;
    }
    let mut regions: Vec<(u64, u64, u64)> = Vec::new();
    let mut i: usize = 1;
    while i < parts.len()
        invariant
            1 <= i <= parts@.len(),
            all == pieces(parts@),
            all == split_on(value@, ';'),
            all.len() == parts@.len(),
            regions@.len() == i - 1,
            forall|j: int| 1 <= j < i ==> parse_region(#[trigger] all[j]) == Some(regions@[j - 1]),
        decreases parts@.len() - i,
    {
        assert(all[i as int] == parts@[i as int]@);
        match read_region(&parts[i]) {
            Some(r) => regions.push(r),
            None => {
                assert(parse_region(all[i as int]) is None);
                return None;
            },
        }
        i = i + 1;
    }
    proof {
        assert(regions@ =~= Seq::new(
            (all.len() - 1) as nat,
            |i: int| parse_region(all[i + 1])->Some_0,
        ));
    }
    Some((pid, regions))
}

// ---------------------------------------------------------------------------
// What the announcements guarantee
// ---------------------------------------------------------------------------

proof fn lemma_triple_bytes(v: Seq<(u64, u64, u64)>, i: int)
    ensures
        triple_bytes(v).len() == 24 * v.len(),
        0 <= i < v.len() ==> triple_bytes(v).subrange(24 * i, 24 * i + 8) == le_bytes(
            v[i].0 as nat,
            8,
        ) && triple_bytes(v).subrange(24 * i + 8, 24 * i + 16) == le_bytes(v[i].1 as nat, 8)
            && triple_bytes(v).subrange(24 * i + 16, 24 * i + 24) == le_bytes(v[i].2 as nat, 8),
    decreases v.len(),
{
    if v.len() > 0 {
        let front = triple_bytes(v.drop_last());
        let a = le_bytes(v.last().0 as nat, 8);
        let b = le_bytes(v.last().1 as nat, 8);
        let c = le_bytes(v.last().2 as nat, 8);
        lemma_triple_bytes(v.drop_last(), i);
        lemma_le_len(v.last().0 as nat, 8);
        lemma_le_len(v.last().1 as nat, 8);
        lemma_le_len(v.last().2 as nat, 8);
        let all = triple_bytes(v);
        if 0 <= i < v.len() - 1 {
            assert(v.drop_last()[i] == v[i]);
            assert(all.subrange(24 * i, 24 * i + 8) =~= front.subrange(24 * i, 24 * i + 8));
            assert(all.subrange(24 * i + 8, 24 * i + 16) =~= front.subrange(24 * i + 8, 24 * i + 16));
            assert(all.subrange(24 * i + 16, 24 * i + 24) =~= front.subrange(
                24 * i + 16,
                24 * i + 24,
            ));
        } else if i == v.len() - 1 {
            assert(all.subrange(24 * i, 24 * i + 8) =~= a);
            assert(all.subrange(24 * i + 8, 24 * i + 16) =~= b);
            assert(all.subrange(24 * i + 16, 24 * i + 24) =~= c);
        }
    }
}

/// What goes with a late channel reads back as it was written: nothing, or a
/// process with at least one region.
pub proof fn law_attach_round_trips(pid: u32, regions: Seq<(u64, u64, u64)>)
    requires
        pid != 0,
        0 < regions.len() <= u32::MAX,
    ensures
        parse_attach(attach_bytes(Some((pid, regions)))) == Ok::<_, AttachError>(
            Some((pid, regions)),
        ),
        parse_attach(attach_bytes(None)) == Ok::<Option<(u32, Seq<(u64, u64, u64)>)>, AttachError>(
            None,
        ),
{
    lemma_byte_range();
    let data = attach_bytes(Some((pid, regions)));
    let body = triple_bytes(regions);
    lemma_triple_bytes(regions, 0);
    lemma_le_round_trip(pid as nat, 4);
    lemma_le_round_trip(regions.len(), 4);
    assert(data.subrange(0, 4) =~= attach_magic());
    assert(data.subrange(4, 8) =~= le_bytes(pid as nat, 4));
    assert(data.subrange(8, 12) =~= le_bytes(regions.len(), 4));
    assert forall|i: int| 0 <= i < regions.len() implies #[trigger] triple_at(data, 12, i)
        == regions[i] by {
        lemma_triple_bytes(regions, i);
        lemma_le_round_trip(regions[i].0 as nat, 8);
        lemma_le_round_trip(regions[i].1 as nat, 8);
        lemma_le_round_trip(regions[i].2 as nat, 8);
        assert(data.subrange(12 + 24 * i, 12 + 24 * i + 8) =~= body.subrange(24 * i, 24 * i + 8));
        assert(data.subrange(12 + 24 * i + 8, 12 + 24 * i + 8 + 8) =~= body.subrange(
            24 * i + 8,
            24 * i + 16,
        ));
        assert(data.subrange(12 + 24 * i + 16, 12 + 24 * i + 16 + 8) =~= body.subrange(
            24 * i + 16,
            24 * i + 24,
        ));
    }
    assert(triples(data, 12, regions.len() as int) =~= regions);
    let none = attach_bytes(None);
    lemma_le_round_trip(0, 4);
    assert(none.subrange(0, 4) =~= attach_magic());
    assert(none.subrange(4, 8) =~= le_bytes(0, 4));
    assert(none.subrange(8, 12) =~= le_bytes(0, 4));
}

proof fn lemma_region_text(r: (u64, u64, u64))
    ensures
        parse_region(region_text(r)) == Some(r),
        forall|i: int| 0 <= i < region_text(r).len() ==> #[trigger] region_text(r)[i] != ';',
{
    let a = decimal(r.0 as nat);
    let b = decimal(r.1 as nat);
    let c = decimal(r.2 as nat);
    lemma_numeral_chars(r.0 as nat, 10);
    lemma_numeral_chars(r.1 as nat, 10);
    lemma_numeral_chars(r.2 as nat, 10);
    lemma_parse_numeral(r.0 as nat, 10, u64::MAX as nat);
    lemma_parse_numeral(r.1 as nat, 10, u64::MAX as nat);
    lemma_parse_numeral(r.2 as nat, 10, u64::MAX as nat);
    lemma_split_plain(a, only(','));
    lemma_split_plain(b, only(','));
    lemma_split_plain(c, only(','));
    lemma_split_append(b, ',', c, only(','));
    lemma_split_append(a, ',', b.push(',') + c, only(','));
    let s = region_text(r);
    assert(s =~= a.push(',') + (b.push(',') + c));
    assert(split_on(s, ',') =~= seq![a, b, c]);
    assert forall|i: int| 0 <= i < s.len() implies #[trigger] s[i] != ';' by {
        if i < a.len() {
            assert(s[i] == a[i]);
        } else if i == a.len() {
        } else if i < a.len() + 1 + b.len() {
            assert(s[i] == b[i - a.len() - 1]);
        } else if i == a.len() + 1 + b.len() {
        } else {
            assert(s[i] == c[i - a.len() - b.len() - 2]);
        }
    }
}

proof fn lemma_procmem_text(pid: u32, regions: Seq<(u64, u64, u64)>)
    ensures
        split_on(procmem_text(pid, regions), ';') == seq![decimal(pid as nat)]
            + regions.map_values(|r: (u64, u64, u64)| region_text(r)),
    decreases regions.len(),
{
    if regions.len() == 0 {
        lemma_numeral_chars(pid as nat, 10);
        lemma_split_plain(decimal(pid as nat), only(';'));
        assert(split_on(procmem_text(pid, regions), ';') =~= seq![decimal(pid as nat)]
            + regions.map_values(|r: (u64, u64, u64)| region_text(r)));
    } else {
        let front = regions.drop_last();
        lemma_procmem_text(pid, front);
        lemma_region_text(regions.last());
        lemma_split_plain(region_text(regions.last()), only(';'));
        lemma_split_append(
            procmem_text(pid, front),
            ';',
            region_text(regions.last()),
            only(';'),
        );
        assert(regions.map_values(|r: (u64, u64, u64)| region_text(r)) =~= front.map_values(
            |r: (u64, u64, u64)| region_text(r),
        ).push(region_text(regions.last())));
        assert(split_on(procmem_text(pid, regions), ';') =~= seq![decimal(pid as nat)]
            + regions.map_values(|r: (u64, u64, u64)| region_text(r)));
    }
}

/// What a worker's environment announces reads back as it was written.
pub proof fn law_procmem_env_round_trips(pid: u32, regions: Seq<(u64, u64, u64)>)
    requires
        pid != 0,
    ensures
        parse_procmem_text(procmem_text(pid, regions)) == Some((pid, regions)),
{
    lemma_procmem_text(pid, regions);
    lemma_parse_numeral(pid as nat, 10, u32::MAX as nat);
    let parts = split_on(procmem_text(pid, regions), ';');
    assert(parts[0] == decimal(pid as nat));
    assert forall|i: int| 1 <= i < parts.len() implies parse_region(#[trigger] parts[i]) == Some(
        regions[i - 1],
    ) by {
        assert(parts[i] == region_text(regions[i - 1]));
        lemma_region_text(regions[i - 1]);
    }
    assert(Seq::new(
        (parts.len() - 1) as nat,
        |i: int| parse_region(parts[i + 1])->Some_0,
    ) =~= regions);
}

} // verus!
