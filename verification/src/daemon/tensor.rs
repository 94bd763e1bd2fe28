//! Tensor bundles handed from clone workers to consumers through one-use tokens.
use crate::split::words;
use crate::text::{chars_of, string_of};
use crate::wire::{
    bytes_at, bytes_eq, le_at, le_bytes, lemma_byte_range, lemma_le_len, lemma_le_round_trip,
    push_bytes, push_le, push_u32, push_u64, read_u16, read_u32, read_u64,
};
use vstd::prelude::*;

verus! {

/// Largest metadata of a bundle, in bytes.
pub const MAX_TENSOR_BUNDLE_METADATA: usize = 2_097_216;

/// Most bundles pending at a time.
pub const MAX_PENDING_TENSOR_BUNDLES: usize = 64;

/// Most bytes of device memory pending at a time.
pub const MAX_PENDING_TENSOR_BYTES: u64 = 0x8_0000_0000;

/// Longest manifest, in bytes.
pub const MAX_MANIFEST_BYTES: u32 = 0x10_0000;

/// Most tensors of a bundle.
pub const MAX_TENSORS: u32 = 65_536;

/// Longest token, in bytes.
pub const MAX_TOKEN_BYTES: usize = 256;

/// Most random tokens tried for one bundle.
pub const TOKEN_ATTEMPTS: usize = 4;

/// Where one tensor lies in its allocation.
#[derive(Debug, Clone, Copy, PartialEq, Eq, Structural)]
pub struct TensorRange {
    pub offset: u64,
    pub size: u64,
}

/// Why metadata is refused.
#[derive(Debug, Clone, Copy, PartialEq, Eq, Structural)]
pub enum TensorMetadataError {
    /// Shorter than its two counts or longer than allowed.
    Length,
    /// The counts do not account for the bytes, or are out of bounds.
    Inconsistent,
    /// A tensor ends beyond what can be addressed.
    RangeOverflow,
    /// A tensor is empty, leaves a gap, or ends outside the allocation.
    OutsideAllocation,
}

impl TensorMetadataError {
    /// What is said of it.
    pub open spec fn words(self) -> Seq<char> {
        match self {
            TensorMetadataError::Length => "invalid tensor-bundle metadata length"@,
            TensorMetadataError::Inconsistent => "inconsistent tensor-bundle metadata"@,
            TensorMetadataError::RangeOverflow => "tensor range overflow"@,
            TensorMetadataError::OutsideAllocation => "tensor range falls outside its allocation"@,
        }
    }

    /// What is said of it.
    pub fn text(self) -> (r: &'static str)
        ensures
            r@ == self.words(),
    {
        match self {
            TensorMetadataError::Length => "invalid tensor-bundle metadata length",
            TensorMetadataError::Inconsistent => "inconsistent tensor-bundle metadata",
            TensorMetadataError::RangeOverflow => "tensor range overflow",
            TensorMetadataError::OutsideAllocation => "tensor range falls outside its allocation",
        }
    }
}

/// Why a request or a response is refused.
#[derive(Debug, Clone, Copy, PartialEq, Eq, Structural)]
pub enum TensorMessageError {
    /// Something else than a request.
    Request,
    /// A token that no bundle can have.
    TokenLength,
    /// Something else than a response.
    Response,
    /// A response about nothing, or about too much.
    Dimensions,
}

impl TensorMessageError {
    /// What is said of it.
    pub open spec fn words(self) -> Seq<char> {
        match self {
            TensorMessageError::Request => "invalid tensor-bundle consume request"@,
            TensorMessageError::TokenLength => "invalid tensor-bundle token length"@,
            TensorMessageError::Response => "invalid tensor-bundle response"@,
            TensorMessageError::Dimensions => "invalid tensor-bundle response dimensions"@,
        }
    }

    /// What is said of it.
    pub fn text(self) -> (r: &'static str)
        ensures
            r@ == self.words(),
    {
        match self {
            TensorMessageError::Request => "invalid tensor-bundle consume request",
            TensorMessageError::TokenLength => "invalid tensor-bundle token length",
            TensorMessageError::Response => "invalid tensor-bundle response",
            TensorMessageError::Dimensions => "invalid tensor-bundle response dimensions",
        }
    }
}

// ---------------------------------------------------------------------------
// Metadata
// ---------------------------------------------------------------------------

/// The wire form of tensor ranges.
pub open spec fn ranges_bytes(tensors: Seq<TensorRange>) -> Seq<u8>
    decreases tensors.len(),
{
    if tensors.len() == 0 {
        Seq::empty()
    } else {
        ranges_bytes(tensors.drop_last()) + le_bytes(tensors.last().offset as nat, 8) + le_bytes(
            tensors.last().size as nat,
            8,
        )
    }
}

/// The wire form of a bundle's metadata.
pub open spec fn metadata_bytes(manifest: Seq<u8>, tensors: Seq<TensorRange>) -> Seq<u8> {
    le_bytes(manifest.len(), 4) + le_bytes(tensors.len(), 4) + manifest + ranges_bytes(tensors)
}

/// The range at position `i` of metadata whose ranges start at `base`.
pub open spec fn range_at(metadata: Seq<u8>, base: int, i: int) -> TensorRange {
    TensorRange {
        offset: le_at(metadata, base + 16 * i, 8) as u64,
        size: le_at(metadata, base + 16 * i + 8, 8) as u64,
    }
}

/// The check of the ranges from position `i` on, the one before having ended at `end`.
pub open spec fn check_ranges(
    metadata: Seq<u8>,
    base: int,
    count: int,
    allocation_size: u64,
    i: int,
    end: int,
) -> Result<(), TensorMetadataError>
    decreases count - i,
{
    if i >= count {
        Ok(())
    } else {
        let r = range_at(metadata, base, i);
        if r.offset + r.size > u64::MAX {
            Err(TensorMetadataError::RangeOverflow)
        } else if r.size == 0 || r.offset != end || r.offset + r.size > allocation_size {
            Err(TensorMetadataError::OutsideAllocation)
        } else {
            check_ranges(metadata, base, count, allocation_size, i + 1, r.offset + r.size)
        }
    }
}

/// The check of metadata for an allocation of the given size.
pub open spec fn check_metadata(metadata: Seq<u8>, allocation_size: u64) -> Result<
    (),
    TensorMetadataError,
> {
    if metadata.len() < 8 || metadata.len() > MAX_TENSOR_BUNDLE_METADATA {
        Err(TensorMetadataError::Length)
    } else {
        let manifest = le_at(metadata, 0, 4) as int;
        let count = le_at(metadata, 4, 4) as int;
        if 8 + manifest + 16 * count != metadata.len() || manifest > MAX_MANIFEST_BYTES || count
            == 0 || count > MAX_TENSORS {
            Err(TensorMetadataError::Inconsistent)
        } else {
            check_ranges(metadata, 8 + manifest, count, allocation_size, 0, 0)
        }
    }
}

/// Writes the metadata of a bundle.
pub fn encode_tensor_bundle_metadata(manifest: &[u8], tensors: &[TensorRange]) -> (r: Vec<u8>)
    ensures
        r@ == metadata_bytes(manifest@, tensors@),
{
    let mut out: Vec<u8> = Vec::new();
    push_le(&mut out, manifest.len() as u64, 4);
    push_le(&mut out, tensors.len() as u64, 4);
    push_bytes(&mut out, manifest);
    let ghost head = le_bytes(manifest@.len(), 4) + le_bytes(tensors@.len(), 4) + manifest@;
    assert(out@ =~= head);
    assert(out@ =~= head + ranges_bytes(tensors@.take(0)));
    let mut i: usize = 0;
    while i < tensors.len()
        invariant
            i <= tensors@.len(),
            out@ == head + ranges_bytes(tensors@.take(i as int)),
        decreases tensors@.len() - i,
    {
        push_u64(&mut out, tensors[i].offset);
        push_u64(&mut out, tensors[i].size);
        i = i + 1;
        proof {
            assert(tensors@.take(i as int).drop_last() =~= tensors@.take(i - 1));
            assert(tensors@.take(i as int).last() == tensors@[i - 1]);
            assert(out@ =~= head + ranges_bytes(tensors@.take(i as int)));
        }
    }
    proof {
        assert(tensors@.take(tensors@.len() as int) =~= tensors@);
        assert(out@ =~= metadata_bytes(manifest@, tensors@));
    }
    out
}

/// Checks that metadata accounts for all its bytes and that its tensors follow
/// each other without a gap inside the allocation.
pub fn validate_tensor_bundle_metadata(metadata: &[u8], allocation_size: u64) -> (r: Result<
    (),
    TensorMetadataError,
>)
    ensures
        r == check_metadata(metadata@, allocation_size),
{
    let size: usize = metadata.len();
    if size < 8 || size > MAX_TENSOR_BUNDLE_METADATA {
        return Err(TensorMetadataError::Length);
    }
    let manifest = read_u32(metadata, 0);
    let count = read_u32(metadata, 4);
    if 8 + manifest as u64 + 16 * (count as u64) != size as u64 || manifest > MAX_MANIFEST_BYTES
        || count == 0 || count > MAX_TENSORS {
        return Err(TensorMetadataError::Inconsistent);
    }
    let base: usize = 8 + manifest as usize;
    let n: usize = count as usize;
    let mut i: usize = 0;
    let mut end: u64 = 0;
    while i < n
        invariant
            i <= n <= MAX_TENSORS,
            base <= 8 + MAX_MANIFEST_BYTES,
            base + 16 * n == metadata@.len(),
            size == metadata@.len(),
            size <= MAX_TENSOR_BUNDLE_METADATA,
            check_ranges(metadata@, base as int, n as int, allocation_size, 0, 0) == check_ranges(
                metadata@,
                base as int,
                n as int,
                allocation_size,
                i as int,
                end as int,
            ),
            check_metadata(metadata@, allocation_size) == check_ranges(
                metadata@,
                base as int,
                n as int,
                allocation_size,
                0,
                0,
            ),
        decreases n - i,
    {
        let offset = read_u64(metadata, base + 16 * i);
        let length = read_u64(metadata, base + 16 * i + 8);
        proof {
            assert(range_at(metadata@, base as int, i as int) == (TensorRange {
                offset,
                size: length,
            }));
        }
        match offset.checked_add(length) {
            None => {
                return Err(TensorMetadataError::RangeOverflow);
            },
            Some(stop) => {
                if length == 0 || offset != end || stop > allocation_size {
                    return Err(TensorMetadataError::OutsideAllocation);
                }
                end = stop;
            },
        }
        i = i + 1;
    }
    Ok(())
}

// ---------------------------------------------------------------------------
// Messages
// ---------------------------------------------------------------------------

/// Starts the header of a publication.
pub open spec fn publish_magic() -> Seq<u8> {
    seq![0x54u8, 0x42, 0x50, 0x31]
}

/// Starts the header of a response.
pub open spec fn response_magic() -> Seq<u8> {
    seq![0x54u8, 0x42, 0x52, 0x31]
}

/// Starts a request for a bundle.
pub open spec fn consume_magic() -> Seq<u8> {
    seq![0x54u8, 0x42, 0x43, 0x31]
}

/// The header that goes with a descriptor: what it is, how much metadata follows,
/// how large the allocation is.
pub open spec fn header_bytes(magic: Seq<u8>, metadata_len: nat, allocation_size: u64) -> Seq<u8> {
    magic + le_bytes(metadata_len, 4) + le_bytes(allocation_size as nat, 8)
}

/// What an acceptable header announces.
pub open spec fn parse_header(magic: Seq<u8>, header: Seq<u8>) -> Option<(u32, u64)> {
    let metadata_len = le_at(header, 4, 4);
    let allocation_size = le_at(header, 8, 8);
    if header.len() != 16 || header.subrange(0, 4) != magic || metadata_len == 0 || metadata_len
        > MAX_TENSOR_BUNDLE_METADATA || allocation_size == 0 {
        None
    } else {
        Some((metadata_len as u32, allocation_size as u64))
    }
}

fn write_header(magic: Vec<u8>, metadata_len: usize, allocation_size: u64) -> (r: Vec<u8>)
    ensures
        r@ == header_bytes(magic@, metadata_len as nat, allocation_size),
{
    let mut out = magic;
    push_le(&mut out, metadata_len as u64, 4);
    push_u64(&mut out, allocation_size);
    out
}

fn read_header(magic: &[u8], header: &[u8]) -> (r: Option<(u32, u64)>)
    requires
        magic@.len() == 4,
    ensures
        r == parse_header(magic@, header@),
{
    if header.len() != 16 || !bytes_at(header, 0, magic) {
        return None;
    }
    let metadata_len = read_u32(header, 4);
    let allocation_size = read_u64(header, 8);
    if metadata_len == 0 || metadata_len as u64 > MAX_TENSOR_BUNDLE_METADATA as u64
        || allocation_size == 0 {
        None
    } else {
        Some((metadata_len, allocation_size))
    }
}

/// The header with which a worker publishes a bundle.
pub fn publish_header(metadata_len: usize, allocation_size: u64) -> (r: Vec<u8>)
    ensures
        r@ == header_bytes(publish_magic(), metadata_len as nat, allocation_size),
{
    let magic: Vec<u8> = vec![0x54, 0x42, 0x50, 0x31];
    proof { assert(magic@ =~= publish_magic()); }
    write_header(magic, metadata_len, allocation_size)
}

/// The header with which the daemon hands a bundle out.
pub fn response_header(metadata_len: usize, allocation_size: u64) -> (r: Vec<u8>)
    ensures
        r@ == header_bytes(response_magic(), metadata_len as nat, allocation_size),
{
    let magic: Vec<u8> = vec![0x54, 0x42, 0x52, 0x31];
    proof { assert(magic@ =~= response_magic()); }
    write_header(magic, metadata_len, allocation_size)
}

/// Reads the header of a publication.
pub fn read_publish_header(header: &[u8]) -> (r: Option<(u32, u64)>)
    ensures
        r == parse_header(publish_magic(), header@),
{
    let magic: Vec<u8> = vec![0x54, 0x42, 0x50, 0x31];
    proof { assert(magic@ =~= publish_magic()); }
    read_header(&magic, header)
}

/// Reads the header of a response.
pub fn read_response_header(header: &[u8]) -> (r: Result<(u32, u64), TensorMessageError>)
    ensures
        r == parse_response(header@),
{
    let magic: Vec<u8> = vec![0x54, 0x42, 0x52, 0x31];
    proof { assert(magic@ =~= response_magic()); }
    match read_header(&magic, header) {
        Some(h) => Ok(h),
        None => if header.len() == 16 && bytes_at(header, 0, &magic) {
            Err(TensorMessageError::Dimensions)
        } else {
            Err(TensorMessageError::Response)
        },
    }
}

/// What the header of a response announces.
pub open spec fn parse_response(header: Seq<u8>) -> Result<(u32, u64), TensorMessageError> {
    match parse_header(response_magic(), header) {
        Some(h) => Ok(h),
        None => if header.len() == 16 && header.subrange(0, 4) == response_magic() {
            Err(TensorMessageError::Dimensions)
        } else {
            Err(TensorMessageError::Response)
        },
    }
}

/// The daemon's answer to a publication: a status and the length of the token.
pub fn publish_ack(status: u32, token: &[u8]) -> (r: Vec<u8>)
    ensures
        r@ == le_bytes(status as nat, 4) + le_bytes(token@.len(), 4),
{
    let mut out: Vec<u8> = Vec::new();
    push_u32(&mut out, status);
    push_le(&mut out, token.len() as u64, 4);
    proof { assert(out@ =~= le_bytes(status as nat, 4) + le_bytes(token@.len(), 4)); }
    out
}

/// Status of a publication that could not be carried out.
pub const STATUS_UNKNOWN: u32 = 999;

/// Status of a publication that breaks the protocol.
pub const STATUS_INVALID: u32 = 1;

/// Status of a publication for which there is no room.
pub const STATUS_FULL: u32 = 2;

/// What a worker reads from the daemon's answer: the length of the token that
/// follows, or the status to report.
pub fn read_publish_ack(ack: &[u8]) -> (r: Result<usize, u32>)
    requires
        ack@.len() == 8,
    ensures
        r == parse_ack(ack@),
{
    let status = read_u32(ack, 0);
    let token_len = read_u32(ack, 4);
    if status != 0 {
        Err(status)
    } else if token_len == 0 || token_len as u64 > MAX_TOKEN_BYTES as u64 {
        Err(STATUS_UNKNOWN)
    } else {
        Ok(token_len as usize)
    }
}

/// What the daemon's answer means.
pub open spec fn parse_ack(ack: Seq<u8>) -> Result<usize, u32> {
    let status = le_at(ack, 0, 4);
    let token_len = le_at(ack, 4, 4);
    if status != 0 {
        Err(status as u32)
    } else if token_len == 0 || token_len > MAX_TOKEN_BYTES {
        Err(STATUS_UNKNOWN)
    } else {
        Ok(token_len as usize)
    }
}

/// The request for the bundle under `token`, or nothing for a token that no
/// bundle can have.
pub fn consume_request(token: &[u8]) -> (r: Option<Vec<u8>>)
    ensures
        match r {
            Some(b) => 0 < token@.len() <= MAX_TOKEN_BYTES && b@ == consume_magic() + le_bytes(
                token@.len(),
                2,
            ) + token@,
            None => token@.len() == 0 || token@.len() > MAX_TOKEN_BYTES,
        },
{
    if token.len() == 0 || token.len() > MAX_TOKEN_BYTES {
        return None;
    }
    let mut out: Vec<u8> = vec![0x54, 0x42, 0x43, 0x31];
    proof { assert(out@ =~= consume_magic()); }
    push_le(&mut out, token.len() as u64, 2);
    push_bytes(&mut out, token);
    Some(out)
}

/// The length of the token that follows the six bytes of a request.
pub fn read_consume_header(header: &[u8]) -> (r: Result<usize, TensorMessageError>)
    ensures
        r == parse_consume_header(header@),
{
    let magic: Vec<u8> = vec![0x54, 0x42, 0x43, 0x31];
    proof { assert(magic@ =~= consume_magic()); }
    if header.len() != 6 || !bytes_at(header, 0, &magic) {
        return Err(TensorMessageError::Request);
    }
    let token_len = read_u16(header, 4) as usize;
    if token_len == 0 || token_len > MAX_TOKEN_BYTES {
        Err(TensorMessageError::TokenLength)
    } else {
        Ok(token_len)
    }
}

/// The length of the token that follows the six bytes of a request.
pub open spec fn parse_consume_header(header: Seq<u8>) -> Result<usize, TensorMessageError> {
    let token_len = le_at(header, 4, 2);
    if header.len() != 6 || header.subrange(0, 4) != consume_magic() {
        Err(TensorMessageError::Request)
    } else if token_len == 0 || token_len > MAX_TOKEN_BYTES {
        Err(TensorMessageError::TokenLength)
    } else {
        Ok(token_len as usize)
    }
}

// ---------------------------------------------------------------------------
// Pending bundles
// ---------------------------------------------------------------------------

/// A published bundle that nobody has taken yet.
#[derive(Debug)]
pub struct PendingTensorBundle {
    /// One-use token.
    pub token: Vec<u8>,
    /// Descriptor of the device allocation.
    pub allocation: i32,
    /// Size of the allocation.
    pub allocation_size: u64,
    /// Its metadata.
    pub metadata: Vec<u8>,
    /// When it was published, in milliseconds of a steady clock.
    pub created: u64,
}

/// The mathematical value of a [`PendingTensorBundle`].
#[verifier::ext_equal]
pub struct BundleModel {
    pub token: Seq<u8>,
    pub allocation: i32,
    pub allocation_size: u64,
    pub metadata: Seq<u8>,
    pub created: u64,
}

impl View for PendingTensorBundle {
    type V = BundleModel;

    open spec fn view(&self) -> BundleModel {
        BundleModel {
            token: self.token@,
            allocation: self.allocation,
            allocation_size: self.allocation_size,
            metadata: self.metadata@,
            created: self.created,
        }
    }
}

/// The mathematical values of `v`, in order.
pub open spec fn bundles_view(v: Seq<PendingTensorBundle>) -> Seq<BundleModel> {
    v.map_values(|b: PendingTensorBundle| b@)
}

/// Whether a bundle may still be taken.
pub open spec fn is_fresh(now: u64, ttl: u64) -> spec_fn(BundleModel) -> bool {
    |b: BundleModel| (if now >= b.created {
        now - b.created
    } else {
        0
    }) < ttl
}

/// Whether a bundle has waited too long.
pub open spec fn is_stale(now: u64, ttl: u64) -> spec_fn(BundleModel) -> bool {
    |b: BundleModel| !is_fresh(now, ttl)(b)
}

/// Bytes of device memory that the bundles hold.
pub open spec fn total_bytes(v: Seq<BundleModel>) -> nat
    decreases v.len(),
{
    if v.len() == 0 {
        0
    } else {
        total_bytes(v.drop_last()) + v.last().allocation_size as nat
    }
}

/// Whether some bundle has the token.
pub open spec fn has_token(v: Seq<BundleModel>, token: Seq<u8>) -> bool {
    exists|i: int| 0 <= i < v.len() && (#[trigger] v[i]).token == token
}

/// No two bundles share a token.
pub open spec fn unique_tokens(v: Seq<BundleModel>) -> bool {
    forall|i: int, j: int|
        #![trigger v[i], v[j]]
        0 <= i < v.len() && 0 <= j < v.len() && v[i].token == v[j].token ==> i == j
}

/// The first unused candidate among those that are tried.
pub open spec fn pick_token(v: Seq<BundleModel>, candidates: Seq<Seq<u8>>, i: int) -> Option<
    Seq<u8>,
>
    decreases candidates.len() - i,
{
    if i >= candidates.len() || i >= TOKEN_ATTEMPTS {
        None
    } else if !has_token(v, candidates[i]) {
        Some(candidates[i])
    } else {
        pick_token(v, candidates, i + 1)
    }
}

/// The contents of byte strings.
pub open spec fn byte_views(v: Seq<Vec<u8>>) -> Seq<Seq<u8>> {
    v.map_values(|b: Vec<u8>| b@)
}

/// What admitting a bundle comes to: the status, the token, and the bundles then
/// pending.
pub open spec fn admitted(
    v: Seq<BundleModel>,
    allocation: i32,
    allocation_size: u64,
    metadata: Seq<u8>,
    candidates: Seq<Seq<u8>>,
    now: u64,
    ttl: u64,
) -> (u32, Seq<u8>, Seq<BundleModel>) {
    let live = v.filter(is_fresh(now, ttl));
    if live.len() >= MAX_PENDING_TENSOR_BUNDLES || total_bytes(live) + allocation_size
        > MAX_PENDING_TENSOR_BYTES {
        (STATUS_FULL, Seq::empty(), live)
    } else {
        match pick_token(live, candidates, 0) {
            Some(token) if token.len() > 0 => (
                0,
                token,
                live.push(
                    BundleModel { token, allocation, allocation_size, metadata, created: now },
                ),
            ),
            _ => (STATUS_UNKNOWN, Seq::empty(), live),
        }
    }
}

/// The bundles waiting to be taken.
pub struct TensorStore {
    bundles: Vec<PendingTensorBundle>,
}

impl View for TensorStore {
    type V = Seq<BundleModel>;

    closed spec fn view(&self) -> Seq<BundleModel> {
        bundles_view(self.bundles@)
    }
}

impl TensorStore {
    /// Tokens are distinct, and neither bound on what is pending is exceeded.
    pub open spec fn wf(&self) -> bool {
        &&& unique_tokens(self@)
        &&& self@.len() <= MAX_PENDING_TENSOR_BUNDLES
        &&& total_bytes(self@) <= MAX_PENDING_TENSOR_BYTES
    }

    /// Nothing pending.
    pub fn new() -> (r: Self)
        ensures
            r.wf(),
            r@ == Seq::<BundleModel>::empty(),
    {
        let r = TensorStore { bundles: Vec::new() };
        proof { assert(r@ =~= Seq::<BundleModel>::empty()); }
        r
    }

    /// Drops the bundles that have waited too long and returns them.
    pub fn prune(&mut self, now: u64, ttl: u64) -> (gone: Vec<PendingTensorBundle>)
        requires
            old(self).wf(),
        ensures
            final(self).wf(),
            final(self)@ == old(self)@.filter(is_fresh(now, ttl)),
            bundles_view(gone@) == old(self)@.filter(is_stale(now, ttl)),
    {
        let ghost all = self@;
        let ghost fresh = is_fresh(now, ttl);
        let ghost stale = is_stale(now, ttl);
        let mut rest: Vec<PendingTensorBundle> = Vec::new();
        core::mem::swap(&mut self.bundles, &mut rest);
        let mut kept: Vec<PendingTensorBundle> = Vec::new();
        let mut gone: Vec<PendingTensorBundle> = Vec::new();
        let ghost mut n: int = 0;
        proof {
            assert(all.skip(0) =~= all);
            assert(all.take(0) =~= Seq::<BundleModel>::empty());
            reveal(Seq::filter);
            assert(bundles_view(kept@) =~= all.take(0).filter(fresh));
            assert(bundles_view(gone@) =~= all.take(0).filter(stale));
        }
        while rest.len() > 0
            invariant
                0 <= n <= all.len(),
                fresh == is_fresh(now, ttl),
                stale == is_stale(now, ttl),
                bundles_view(rest@) == all.skip(n),
                bundles_view(kept@) == all.take(n).filter(fresh),
                bundles_view(gone@) == all.take(n).filter(stale),
            decreases rest@.len(),
        {
            let ghost before = rest@;
            proof {
                assert(bundles_view(before).len() == before.len());
                assert(n < all.len());
            }
            let ghost item = all[n];
            let b = rest.remove(0);
            proof {
                assert(bundles_view(before)[0] == all.skip(n)[0]);
                assert(b@ == item);
                assert(bundles_view(rest@) =~= all.skip(n + 1)) by {
                    assert forall|j: int| 0 <= j < rest@.len() implies bundles_view(rest@)[j]
                        == all.skip(n + 1)[j] by {
                        assert(bundles_view(before)[j + 1] == all.skip(n)[j + 1]);
                    }
                    assert(bundles_view(before).len() == all.skip(n).len());
                }
                assert(all.take(n + 1).drop_last() =~= all.take(n));
                assert(all.take(n + 1).last() == item);
                reveal(Seq::filter);
            }
            let ghost kept0 = bundles_view(kept@);
            let ghost gone0 = bundles_view(gone@);
            let age: u64 = if now >= b.created {
                now - b.created
            } else {
                0
            };
            if age < ttl {
                kept.push(b);
                proof { assert(bundles_view(kept@) =~= kept0.push(item)); }
            } else {
                gone.push(b);
                proof { assert(bundles_view(gone@) =~= gone0.push(item)); }
            }
            proof { n = n + 1; }
        }
        self.bundles = kept;
        proof {
            assert(bundles_view(rest@).len() == 0);
            assert(all.take(n) =~= all);
            lemma_filter_keeps(all, fresh);
        }
        gone
    }

    /// Whether some bundle has the token.
    fn position(&self, token: &[u8]) -> (r: Option<usize>)
        ensures
            match r {
                Some(i) => i < self.bundles@.len() && self@[i as int].token == token@,
                None => !has_token(self@, token@),
            },
    {
        let mut i: usize = 0;
        while i < self.bundles.len()
            invariant
                i <= self.bundles@.len(),
                forall|j: int| 0 <= j < i ==> (#[trigger] self@[j]).token != token@,
            decreases self.bundles@.len() - i,
        {
            if bytes_eq(&self.bundles[i].token, token) {
                return Some(i);
            }
            i = i + 1;
        }
        None
    }

    /// Bytes of device memory that the bundles hold.
    pub fn pending_tensor_bytes(&self) -> (n: u64)
        requires
            self.wf(),
        ensures
            n == total_bytes(self@),
    {
        let ghost all = self@;
        let mut n: u64 = 0;
        let mut i: usize = 0;
        proof { assert(all.take(0) =~= Seq::<BundleModel>::empty()); }
        while i < self.bundles.len()
            invariant
                self.wf(),
                all == self@,
                i <= self.bundles@.len(),
                n == total_bytes(all.take(i as int)),
            decreases self.bundles@.len() - i,
        {
            proof {
                assert(all.take(i + 1).drop_last() =~= all.take(i as int));
                assert(all.take(i + 1).last() == self.bundles@[i as int]@);
                lemma_total_prefix(all, i + 1);
            }
            n = n + self.bundles[i].allocation_size;
            i = i + 1;
        }
        proof { assert(all.take(all.len() as int) =~= all); }
        n
    }

    /// Takes a checked bundle in under the first unused of the drawn tokens, if
    /// there is room beside the bundles that have not waited too long. Returns the
    /// status for the worker, the token, and the bundles that were dropped.
    pub fn take_in(
        &mut self,
        allocation: i32,
        allocation_size: u64,
        metadata: Vec<u8>,
        candidates: &Vec<Vec<u8>>,
        now: u64,
        ttl: u64,
    ) -> (r: (u32, Vec<u8>, Vec<PendingTensorBundle>))
        requires
            old(self).wf(),
        ensures
            final(self).wf(),
            (r.0, r.1@, final(self)@) == admitted(
                old(self)@,
                allocation,
                allocation_size,
                metadata@,
                byte_views(candidates@),
                now,
                ttl,
            ),
            bundles_view(r.2@) == old(self)@.filter(is_stale(now, ttl)),
    {
        let gone = self.prune(now, ttl);
        let ghost live = self@;
        let pending = self.pending_tensor_bytes();
        if self.bundles.len() >= MAX_PENDING_TENSOR_BUNDLES || allocation_size
            > MAX_PENDING_TENSOR_BYTES - pending {
            let token: Vec<u8> = Vec::new();
            proof { assert(token@ =~= Seq::<u8>::empty()); }
            return (STATUS_FULL, token, gone);
        }
        let ghost cands = byte_views(candidates@);
        let mut i: usize = 0;
        while i < candidates.len() && i < TOKEN_ATTEMPTS && self.position(&candidates[i]).is_some()
            invariant
                self@ == live,
                i <= candidates@.len(),
                cands == byte_views(candidates@),
                pick_token(live, cands, 0) == pick_token(live, cands, i as int),
            decreases candidates@.len() - i,
        {
            proof { assert(cands[i as int] == candidates@[i as int]@); }
            i = i + 1;
        }
        if i < candidates.len() && i < TOKEN_ATTEMPTS && candidates[i].len() > 0 {
            proof { assert(cands[i as int] == candidates@[i as int]@); }
            let mut token: Vec<u8> = Vec::new();
            push_bytes(&mut token, &candidates[i]);
            let mut own: Vec<u8> = Vec::new();
            push_bytes(&mut own, &candidates[i]);
            proof {
                assert(token@ =~= candidates@[i as int]@);
                assert(own@ =~= candidates@[i as int]@);
            }
            let bundle = PendingTensorBundle {
                token: own,
                allocation,
                allocation_size,
                metadata,
                created: now,
            };
            let ghost item = bundle@;
            self.bundles.push(bundle);
            proof {
                assert(self@ =~= live.push(item));
                assert(live.push(item).drop_last() =~= live);
                assert(unique_tokens(self@)) by {
                    assert(!has_token(live, item.token));
                    assert forall|a: int, b: int|
                        #![trigger self@[a], self@[b]]
                        0 <= a < self@.len() && 0 <= b < self@.len() && self@[a].token
                            == self@[b].token implies a == b by {
                        if a < live.len() {
                            assert(self@[a] == live[a]);
                        }
                        if b < live.len() {
                            assert(self@[b] == live[b]);
                        }
                    }
                }
            }
            (0, token, gone)
        } else {
            proof {
                if i < cands.len() {
                    assert(cands[i as int] == candidates@[i as int]@);
                }
            }
            let token: Vec<u8> = Vec::new();
            proof { assert(token@ =~= Seq::<u8>::empty()); }
            (STATUS_UNKNOWN, token, gone)
        }
    }

    /// Takes a bundle out for good, so that no second consumer gets it. Returns it
    /// with the bundles that were dropped for having waited too long.
    pub fn redeem(&mut self, token: &[u8], now: u64, ttl: u64) -> (r: (
        Option<PendingTensorBundle>,
        Vec<PendingTensorBundle>,
    ))
        requires
            old(self).wf(),
        ensures
            final(self).wf(),
            match r.0 {
                Some(b) => b@.token == token@ && old(self)@.contains(b@) && is_fresh(now, ttl)(b@)
                    && final(self)@ == old(self)@.filter(is_fresh(now, ttl)).filter(
                    other_token(token@),
                ),
                None => !has_token(old(self)@.filter(is_fresh(now, ttl)), token@) && final(self)@
                    == old(self)@.filter(is_fresh(now, ttl)),
            },
            !has_token(final(self)@, token@),
            bundles_view(r.1@) == old(self)@.filter(is_stale(now, ttl)),
    {
        let gone = self.prune(now, ttl);
        let ghost live = self@;
        match self.position(token) {
            Some(i) => {
                let b = self.bundles.remove(i);
                proof {
                    assert(b@ == live[i as int]);
                    assert(self@ =~= live.remove(i as int));
                    lemma_remove_token(live, i as int);
                    lemma_filter_member(old(self)@, is_fresh(now, ttl), i as int);
                    lemma_filter_keeps(live, other_token(token@));
                }
                (Some(b), gone)
            },
            None => (None, gone),
        }
    }

    /// Takes a bundle back whose token could not be delivered.
    pub fn forget(&mut self, token: &[u8]) -> (r: Option<PendingTensorBundle>)
        requires
            old(self).wf(),
        ensures
            final(self).wf(),
            final(self)@ == old(self)@.filter(other_token(token@)),
            match r {
                Some(b) => b@.token == token@ && old(self)@.contains(b@),
                None => !has_token(old(self)@, token@),
            },
    {
        let ghost live = self@;
        match self.position(token) {
            Some(i) => {
                let b = self.bundles.remove(i);
                proof {
                    assert(b@ == live[i as int]);
                    assert(self@ =~= live.remove(i as int));
                    lemma_remove_token(live, i as int);
                    lemma_filter_keeps(live, other_token(token@));
                    assert(live.contains(live[i as int]));
                }
                Some(b)
            },
            None => {
                proof { lemma_filter_all(live, other_token(token@)); }
                None
            },
        }
    }
}

/// Holds of the bundles under other tokens.
pub open spec fn other_token(token: Seq<u8>) -> spec_fn(BundleModel) -> bool {
    |b: BundleModel| b.token != token
}

proof fn lemma_total_prefix(v: Seq<BundleModel>, n: int)
    requires
        0 <= n <= v.len(),
    ensures
        total_bytes(v.take(n)) <= total_bytes(v),
    decreases v.len() - n,
{
    if n == v.len() {
        assert(v.take(n) =~= v);
    } else {
        lemma_total_prefix(v, n + 1);
        assert(v.take(n + 1).drop_last() =~= v.take(n));
    }
}

/// A filter keeps tokens distinct and adds no bytes.
proof fn lemma_filter_keeps(v: Seq<BundleModel>, p: spec_fn(BundleModel) -> bool)
    requires
        unique_tokens(v),
    ensures
        unique_tokens(v.filter(p)),
        v.filter(p).len() <= v.len(),
        total_bytes(v.filter(p)) <= total_bytes(v),
        forall|i: int| 0 <= i < v.filter(p).len() ==> p(#[trigger] v.filter(p)[i]),
    decreases v.len(),
{
    reveal(Seq::filter);
    if v.len() > 0 {
        let front = v.drop_last();
        assert(unique_tokens(front)) by {
            assert forall|i: int, j: int|
                #![trigger front[i], front[j]]
                0 <= i < front.len() && 0 <= j < front.len() && front[i].token
                    == front[j].token implies i == j by {
                assert(front[i] == v[i]);
                assert(front[j] == v[j]);
            }
        }
        lemma_filter_keeps(front, p);
        let kept = front.filter(p);
        if p(v.last()) {
            assert(v.filter(p) == kept.push(v.last()));
            assert(kept.push(v.last()).drop_last() =~= kept);
            assert forall|i: int| 0 <= i < kept.len() implies #[trigger] kept[i].token
                != v.last().token by {
                lemma_filter_member(front, p, i);
                let j = choose|j: int| 0 <= j < front.len() && front[j] == kept[i];
                assert(v[j] == front[j]);
                assert(v[v.len() - 1] == v.last());
            }
            let w = v.filter(p);
            assert forall|i: int, j: int|
                #![trigger w[i], w[j]]
                0 <= i < w.len() && 0 <= j < w.len() && w[i].token == w[j].token implies i == j by {
                if i < kept.len() {
                    assert(w[i] == kept[i]);
                }
                if j < kept.len() {
                    assert(w[j] == kept[j]);
                }
            }
        } else {
            assert(v.filter(p) == kept);
        }
    }
}

/// What a filter keeps was there.
proof fn lemma_filter_member(v: Seq<BundleModel>, p: spec_fn(BundleModel) -> bool, i: int)
    requires
        0 <= i < v.filter(p).len(),
    ensures
        v.contains(v.filter(p)[i]),
        p(v.filter(p)[i]),
{
    v.lemma_filter_pred(p, i);
    assert(v.filter(p).contains(v.filter(p)[i]));
    v.lemma_filter_contains_rev(p, v.filter(p)[i]);
}

/// A filter that refuses nothing changes nothing.
proof fn lemma_filter_all(v: Seq<BundleModel>, p: spec_fn(BundleModel) -> bool)
    requires
        forall|i: int| 0 <= i < v.len() ==> p(#[trigger] v[i]),
    ensures
        v.filter(p) == v,
    decreases v.len(),
{
    reveal(Seq::filter);
    if v.len() > 0 {
        assert forall|i: int| 0 <= i < v.drop_last().len() implies p(#[trigger] v.drop_last()[i]) by {
            assert(v.drop_last()[i] == v[i]);
        }
        lemma_filter_all(v.drop_last(), p);
        assert(p(v[v.len() - 1]));
        assert(v.drop_last().push(v.last()) =~= v);
    } else {
        assert(v.filter(p) =~= v);
    }
}

/// Removing the bundle of a token leaves those of the other tokens.
proof fn lemma_remove_token(v: Seq<BundleModel>, i: int)
    requires
        unique_tokens(v),
        0 <= i < v.len(),
    ensures
        v.remove(i) == v.filter(other_token(v[i].token)),
        !has_token(v.remove(i), v[i].token),
    decreases v.len(),
{
    reveal(Seq::filter);
    let p = other_token(v[i].token);
    let w = v.remove(i);
    assert forall|j: int| 0 <= j < w.len() implies (#[trigger] w[j]).token != v[i].token by {
        let k = if j < i { j } else { j + 1 };
        assert(w[j] == v[k]);
    }
    let front = v.drop_last();
    assert forall|a: int, b: int|
        #![trigger front[a], front[b]]
        0 <= a < front.len() && 0 <= b < front.len() && front[a].token == front[b].token implies a
        == b by {
        assert(front[a] == v[a]);
        assert(front[b] == v[b]);
    }
    if i == v.len() - 1 {
        assert forall|j: int| 0 <= j < front.len() implies p(#[trigger] front[j]) by {
            assert(front[j] == v[j]);
        }
        lemma_filter_all(front, p);
        assert(w =~= front);
    } else {
        lemma_remove_token(front, i);
        assert(v[v.len() - 1].token != v[i].token);
        assert(w =~= front.remove(i).push(v.last()));
    }
}

// ---------------------------------------------------------------------------
// A worker's publication
// ---------------------------------------------------------------------------

/// What the daemon does with one publication.
pub struct Publication {
    /// Status for the worker.
    pub status: u32,
    /// Token for the worker, empty unless the status is zero.
    pub token: Vec<u8>,
    /// Whether the channel ends after the answer.
    pub close_after_ack: bool,
    /// Bundles that were dropped for having waited too long.
    pub expired: Vec<PendingTensorBundle>,
}

/// Handles one publication: its header, and its metadata where it could be read.
///
/// A header that breaks the protocol, or metadata that cannot be read, ends the
/// channel; metadata that does not fit its allocation is refused; anything else is
/// admitted as far as there is room.
pub fn receive_publication(
    store: &mut TensorStore,
    header: &[u8],
    allocation: i32,
    metadata: Option<Vec<u8>>,
    candidates: &Vec<Vec<u8>>,
    now: u64,
    ttl: u64,
) -> (r: Publication)
    requires
        old(store).wf(),
    ensures
        final(store).wf(),
        match (parse_header(publish_magic(), header@), metadata) {
            (None, _) => r.status == STATUS_INVALID && r.close_after_ack && r.token@.len() == 0
                && r.expired@.len() == 0 && final(store)@ == old(store)@,
            (Some(_), None) => r.status == STATUS_UNKNOWN && r.close_after_ack && r.token@.len()
                == 0 && r.expired@.len() == 0 && final(store)@ == old(store)@,
            (Some((_, size)), Some(m)) => {
                &&& !r.close_after_ack
                &&& if check_metadata(m@, size) is Err {
                    r.status == STATUS_INVALID && r.token@.len() == 0 && r.expired@.len() == 0
                        && final(store)@ == old(store)@
                } else {
                    &&& (r.status, r.token@, final(store)@) == admitted(
                        old(store)@,
                        allocation,
                        size,
                        m@,
                        byte_views(candidates@),
                        now,
                        ttl,
                    )
                    &&& bundles_view(r.expired@) == old(store)@.filter(is_stale(now, ttl))
                }
            },
        },
{
    match read_publish_header(header) {
        None => Publication {
            status: STATUS_INVALID,
            token: Vec::new(),
            close_after_ack: true,
            expired: Vec::new(),
        },
        Some((_, size)) => match metadata {
            None => Publication {
                status: STATUS_UNKNOWN,
                token: Vec::new(),
                close_after_ack: true,
                expired: Vec::new(),
            },
            Some(m) => {
                if validate_tensor_bundle_metadata(&m, size).is_err() {
                    Publication {
                        status: STATUS_INVALID,
                        token: Vec::new(),
                        close_after_ack: false,
                        expired: Vec::new(),
                    }
                } else {
                    let (status, token, expired) = store.take_in(
                        allocation,
                        size,
                        m,
                        candidates,
                        now,
                        ttl,
                    );
                    Publication { status, token, close_after_ack: false, expired }
                }
            },
        },
    }
}

// ---------------------------------------------------------------------------
// What the messages and the store guarantee
// ---------------------------------------------------------------------------

/// The tensors follow each other from the start of the allocation without a gap,
/// none is empty, and none ends outside.
pub open spec fn tiles(tensors: Seq<TensorRange>, allocation_size: u64) -> bool {
    forall|i: int|
        0 <= i < tensors.len() ==> {
            &&& (#[trigger] tensors[i]).size > 0
            &&& tensors[i].offset == if i == 0 {
                0
            } else {
                tensors[i - 1].offset + tensors[i - 1].size
            }
            &&& tensors[i].offset + tensors[i].size <= allocation_size
        }
}

proof fn lemma_ranges_bytes(tensors: Seq<TensorRange>, i: int)
    ensures
        ranges_bytes(tensors).len() == 16 * tensors.len(),
        0 <= i < tensors.len() ==> ranges_bytes(tensors).subrange(16 * i, 16 * i + 8) == le_bytes(
            tensors[i].offset as nat,
            8,
        ) && ranges_bytes(tensors).subrange(16 * i + 8, 16 * i + 16) == le_bytes(
            tensors[i].size as nat,
            8,
        ),
    decreases tensors.len(),
{
    if tensors.len() > 0 {
        let front = ranges_bytes(tensors.drop_last());
        let a = le_bytes(tensors.last().offset as nat, 8);
        let b = le_bytes(tensors.last().size as nat, 8);
        lemma_ranges_bytes(tensors.drop_last(), i);
        lemma_le_len(tensors.last().offset as nat, 8);
        lemma_le_len(tensors.last().size as nat, 8);
        let all = ranges_bytes(tensors);
        if 0 <= i < tensors.len() - 1 {
            assert(tensors.drop_last()[i] == tensors[i]);
            assert(all.subrange(16 * i, 16 * i + 8) =~= front.subrange(16 * i, 16 * i + 8));
            assert(all.subrange(16 * i + 8, 16 * i + 16) =~= front.subrange(
                16 * i + 8,
                16 * i + 16,
            ));
        } else if i == tensors.len() - 1 {
            assert(all.subrange(16 * i, 16 * i + 8) =~= a);
            assert(all.subrange(16 * i + 8, 16 * i + 16) =~= b);
        }
    }
}

proof fn lemma_metadata_fields(manifest: Seq<u8>, tensors: Seq<TensorRange>)
    requires
        manifest.len() <= MAX_MANIFEST_BYTES,
        tensors.len() <= MAX_TENSORS,
    ensures
        ({
            let m = metadata_bytes(manifest, tensors);
            &&& m.len() == 8 + manifest.len() + 16 * tensors.len()
            &&& le_at(m, 0, 4) == manifest.len()
            &&& le_at(m, 4, 4) == tensors.len()
            &&& forall|i: int|
                0 <= i < tensors.len() ==> #[trigger] range_at(m, 8 + manifest.len() as int, i)
                    == tensors[i]
        }),
{
    let m = metadata_bytes(manifest, tensors);
    let body = ranges_bytes(tensors);
    let base = 8 + manifest.len() as int;
    lemma_byte_range();
    lemma_ranges_bytes(tensors, 0);
    lemma_le_round_trip(manifest.len(), 4);
    lemma_le_round_trip(tensors.len(), 4);
    assert(m.subrange(0, 4) =~= le_bytes(manifest.len(), 4));
    assert(m.subrange(4, 8) =~= le_bytes(tensors.len(), 4));
    assert forall|i: int| 0 <= i < tensors.len() implies #[trigger] range_at(m, base, i)
        == tensors[i] by {
        lemma_ranges_bytes(tensors, i);
        lemma_le_round_trip(tensors[i].offset as nat, 8);
        lemma_le_round_trip(tensors[i].size as nat, 8);
        assert(m.subrange(base + 16 * i, base + 16 * i + 8) =~= body.subrange(16 * i, 16 * i + 8));
        assert(m.subrange(base + 16 * i + 8, base + 16 * i + 8 + 8) =~= body.subrange(
            16 * i + 8,
            16 * i + 16,
        ));
    }
}

proof fn lemma_check_ranges(
    metadata: Seq<u8>,
    base: int,
    tensors: Seq<TensorRange>,
    allocation_size: u64,
    i: int,
    end: int,
)
    requires
        0 <= i <= tensors.len(),
        forall|j: int|
            0 <= j < tensors.len() ==> #[trigger] range_at(metadata, base, j) == tensors[j],
        end == if i == 0 {
            0
        } else {
            tensors[i - 1].offset + tensors[i - 1].size
        },
        forall|j: int|
            0 <= j < i ==> {
                &&& (#[trigger] tensors[j]).size > 0
                &&& tensors[j].offset == if j == 0 {
                    0
                } else {
                    tensors[j - 1].offset + tensors[j - 1].size
                }
                &&& tensors[j].offset + tensors[j].size <= allocation_size
            },
    ensures
        check_ranges(metadata, base, tensors.len() as int, allocation_size, i, end) is Ok <==> tiles(
            tensors,
            allocation_size,
        ),
    decreases tensors.len() - i,
{
    if i < tensors.len() {
        let r = tensors[i];
        assert(range_at(metadata, base, i) == r);
        if r.size > 0 && r.offset == end && r.offset + r.size <= allocation_size {
            lemma_check_ranges(metadata, base, tensors, allocation_size, i + 1, r.offset + r.size);
        }
    }
}

/// Metadata within its bounds is accepted exactly when its tensors tile a prefix
/// of the allocation.
pub proof fn law_metadata_accepted_iff_tiled(
    manifest: Seq<u8>,
    tensors: Seq<TensorRange>,
    allocation_size: u64,
)
    requires
        manifest.len() <= MAX_MANIFEST_BYTES,
        0 < tensors.len() <= MAX_TENSORS,
    ensures
        check_metadata(metadata_bytes(manifest, tensors), allocation_size) is Ok <==> tiles(
            tensors,
            allocation_size,
        ),
{
    lemma_metadata_fields(manifest, tensors);
    let m = metadata_bytes(manifest, tensors);
    lemma_check_ranges(m, 8 + manifest.len() as int, tensors, allocation_size, 0, 0);
}

/// A header reads back as it was written, as far as it is acceptable, and never as
/// a header of another message.
pub proof fn law_header_round_trips(
    magic: Seq<u8>,
    other: Seq<u8>,
    metadata_len: nat,
    allocation_size: u64,
)
    requires
        magic.len() == 4,
        other.len() == 4,
        0 < metadata_len <= MAX_TENSOR_BUNDLE_METADATA,
        allocation_size > 0,
    ensures
        parse_header(other, header_bytes(magic, metadata_len, allocation_size)) == if other
            == magic {
            Some((metadata_len as u32, allocation_size))
        } else {
            None
        },
{
    lemma_byte_range();
    let h = header_bytes(magic, metadata_len, allocation_size);
    lemma_le_round_trip(metadata_len, 4);
    lemma_le_round_trip(allocation_size as nat, 8);
    assert(h.subrange(0, 4) =~= magic);
    assert(h.subrange(4, 8) =~= le_bytes(metadata_len, 4));
    assert(h.subrange(8, 16) =~= le_bytes(allocation_size as nat, 8));
}

/// A request reads back as the length of its token.
pub proof fn law_consume_request_round_trips(token: Seq<u8>)
    requires
        0 < token.len() <= MAX_TOKEN_BYTES,
    ensures
        ({
            let request = consume_magic() + le_bytes(token.len(), 2) + token;
            &&& parse_consume_header(request.take(6)) == Ok::<usize, TensorMessageError>(
                token.len() as usize,
            )
            &&& request.skip(6) == token
        }),
{
    lemma_byte_range();
    lemma_le_round_trip(token.len(), 2);
    let request = consume_magic() + le_bytes(token.len(), 2) + token;
    let head = request.take(6);
    assert(head.subrange(0, 4) =~= consume_magic());
    assert(head.subrange(4, 6) =~= le_bytes(token.len(), 2));
    assert(request.skip(6) =~= token);
}

/// A bundle that was taken in is there, under its token, until it has waited too
/// long, whoever published it and whatever became of them.
pub proof fn law_published_bundle_can_be_redeemed(
    v: Seq<BundleModel>,
    allocation: i32,
    allocation_size: u64,
    metadata: Seq<u8>,
    candidates: Seq<Seq<u8>>,
    now: u64,
    ttl: u64,
    later: u64,
)
    requires
        admitted(v, allocation, allocation_size, metadata, candidates, now, ttl).0 == 0,
        now <= later,
        later - now < ttl,
    ensures
        ({
            let r = admitted(v, allocation, allocation_size, metadata, candidates, now, ttl);
            r.2.filter(is_fresh(later, ttl)).contains(
                BundleModel {
                    token: r.1,
                    allocation,
                    allocation_size,
                    metadata,
                    created: now,
                },
            )
        }),
{
    let r = admitted(v, allocation, allocation_size, metadata, candidates, now, ttl);
    let item = BundleModel { token: r.1, allocation, allocation_size, metadata, created: now };
    assert(r.2.last() == item);
    r.2.lemma_filter_contains(is_fresh(later, ttl), r.2.len() - 1);
}

/// The path of the tensor service's socket.
pub fn tensor_bundle_socket_path(cuda_socket: &str) -> (r: String)
    ensures
        r@ == cuda_socket@ + ".tensors"@,
{
    let mut out = chars_of(cuda_socket);
    out.append(&mut chars_of(".tensors"));
    string_of(&out)
}

} // verus!
