//! The cache of machine images with their first steps already run.
use crate::copying::{opt_str, opt_text, texts};
use crate::daemon::ranges::{lemma_sorted_pairs, pair_leq, sort_pairs, sorted_pairs};
use crate::digest::{digest_text, is_hex_char, short_digest};
use crate::machine::flags::starts;
use crate::numerals::{decimal, decimal_chars, parse_number, parse_u64, sat_sub};
use crate::paths::{join, joined, parent_of, path_parent, plain_parent, plainly_written};
use crate::split::{same_chars, stretch, strip_prefix_chars, trim, trim_chars};
use crate::text::{chars_of, say2, say4, string_of, text_eq};
use vstd::prelude::*;
use vstd::utf8::encode_utf8;

verus! {

// ---------------------------------------------------------------------------
// Keys
// ---------------------------------------------------------------------------

/// Bytes that say themselves where they end: a one before each byte, and a zero behind
/// the last.
pub open spec fn marked(b: Seq<u8>) -> Seq<u8>
    decreases b.len(),
{
    if b.len() == 0 {
        seq![0u8]
    } else {
        seq![1u8, b[0]] + marked(b.skip(1))
    }
}

/// A text that may be there: a one before it if it is, and otherwise a zero.
pub open spec fn marked_option(o: Option<Seq<char>>) -> Seq<u8> {
    match o {
        Some(s) => seq![1u8] + marked(encode_utf8(s)),
        None => seq![0u8],
    }
}

/// Texts that say themselves where they end: a one before each text, and a zero behind
/// the last.
pub open spec fn marked_list(v: Seq<Seq<char>>) -> Seq<u8>
    decreases v.len(),
{
    if v.len() == 0 {
        seq![0u8]
    } else {
        seq![1u8] + marked(encode_utf8(v[0])) + marked_list(v.skip(1))
    }
}

/// What the key of a layer is made of: image, digest, steps and variables.
pub open spec fn key_bytes(
    image: Option<Seq<char>>,
    init: Seq<Seq<char>>,
    env: Seq<Seq<char>>,
    digest: Option<Seq<char>>,
) -> Seq<u8> {
    marked_option(image) + marked_option(digest) + marked_list(init) + marked_list(env)
}

fn push_marked(out: &mut Vec<u8>, s: &str)
    ensures
        final(out)@ == old(out)@ + marked(encode_utf8(s@)),
{
    let bytes = s.as_bytes();
    let ghost before = out@;
    let ghost all = encode_utf8(s@);
    let mut i: usize = 0;
    proof { assert(all.skip(0) =~= all); }
    while i < bytes.len()
        invariant
            i <= bytes@.len(),
            bytes@ == all,
            out@ + marked(all.skip(i as int)) == before + marked(all),
        decreases bytes@.len() - i,
    {
        let ghost here = out@;
        out.push(1);
        out.push(bytes[i]);
        proof {
            let rest = all.skip(i as int);
            assert(rest.skip(1) =~= all.skip(i + 1));
            assert(here + marked(rest) =~= out@ + marked(all.skip(i + 1)));
        }
        i = i + 1;
    }
    proof { assert(all.skip(i as int) =~= Seq::empty()); }
    let ghost here = out@;
    out.push(0);
    proof { assert(out@ =~= here + seq![0u8]); }
}

fn push_marked_option(out: &mut Vec<u8>, o: Option<&str>)
    ensures
        final(out)@ == old(out)@ + marked_option(opt_str(o)),
{
    let ghost before = out@;
    match o {
        Some(s) => {
            out.push(1);
            push_marked(out, s);
        },
        None => {
            out.push(0);
        },
    }
    proof { assert(out@ =~= before + marked_option(opt_str(o))); }
}

fn push_marked_list(out: &mut Vec<u8>, v: &[String])
    ensures
        final(out)@ == old(out)@ + marked_list(texts(v@)),
{
    let ghost before = out@;
    let ghost all = texts(v@);
    let mut i: usize = 0;
    proof { assert(all.skip(0) =~= all); }
    while i < v.len()
        invariant
            i <= v@.len(),
            all == texts(v@),
            out@ + marked_list(all.skip(i as int)) == before + marked_list(all),
        decreases v@.len() - i,
    {
        let ghost here = out@;
        out.push(1);
        push_marked(out, v[i].as_str());
        proof {
            let rest = all.skip(i as int);
            assert(rest[0] == v@[i as int]@);
            assert(rest.skip(1) =~= all.skip(i + 1));
            assert(here + marked_list(rest) =~= out@ + marked_list(all.skip(i + 1)));
        }
        i = i + 1;
    }
    proof { assert(all.skip(i as int) =~= Seq::empty()); }
    let ghost here = out@;
    out.push(0);
    proof { assert(out@ =~= here + seq![0u8]); }
}

/// The key of a layer: sixteen digits of a digest of the image, the steps, the variables
/// and, where it is known, the image's digest, so that a tag that moves gives another key.
pub fn init_layer_key(
    image: Option<&str>,
    init: &[String],
    env: &[String],
    digest: Option<&str>,
) -> (r: String)
    ensures
        r@ == digest_text(
            key_bytes(opt_str(image), texts(init@), texts(env@), opt_str(digest)),
            16,
        ),
        r@.len() == 16,
        forall|i: int| 0 <= i < 16 ==> is_hex_char(#[trigger] r@[i]),
{
    let mut out: Vec<u8> = Vec::new();
    push_marked_option(&mut out, image);
    push_marked_option(&mut out, digest);
    push_marked_list(&mut out, init);
    push_marked_list(&mut out, env);
    proof {
        assert(out@ =~= key_bytes(opt_str(image), texts(init@), texts(env@), opt_str(digest)));
    }
    short_digest(&out, 16)
}

proof fn lemma_encoding(a: Seq<char>, b: Seq<char>)
    requires
        encode_utf8(a) == encode_utf8(b),
    ensures
        a == b,
{
    vstd::utf8::encode_utf8_decode_utf8(a);
    vstd::utf8::encode_utf8_decode_utf8(b);
}

/// Of marked bytes with anything behind them, both can be told.
proof fn lemma_marked_cut(a: Seq<u8>, x: Seq<u8>, b: Seq<u8>, y: Seq<u8>)
    requires
        marked(a) + x == marked(b) + y,
    ensures
        a == b,
        x == y,
    decreases a.len(),
{
    let l = marked(a) + x;
    let r = marked(b) + y;
    assert(l[0] == marked(a)[0]);
    assert(r[0] == marked(b)[0]);
    if a.len() == 0 {
        assert(b.len() == 0);
        assert(a =~= b);
        assert(l.skip(1) =~= x);
        assert(r.skip(1) =~= y);
    } else {
        assert(b.len() > 0);
        assert(l[1] == a[0]);
        assert(r[1] == b[0]);
        assert(l.skip(2) =~= marked(a.skip(1)) + x);
        assert(r.skip(2) =~= marked(b.skip(1)) + y);
        lemma_marked_cut(a.skip(1), x, b.skip(1), y);
        assert(a =~= seq![a[0]] + a.skip(1));
        assert(b =~= seq![b[0]] + b.skip(1));
    }
}

proof fn lemma_option_cut(a: Option<Seq<char>>, x: Seq<u8>, b: Option<Seq<char>>, y: Seq<u8>)
    requires
        marked_option(a) + x == marked_option(b) + y,
    ensures
        a == b,
        x == y,
{
    let l = marked_option(a) + x;
    let r = marked_option(b) + y;
    assert(l[0] == marked_option(a)[0]);
    assert(r[0] == marked_option(b)[0]);
    match (a, b) {
        (Some(s), Some(t)) => {
            assert(l.skip(1) =~= marked(encode_utf8(s)) + x);
            assert(r.skip(1) =~= marked(encode_utf8(t)) + y);
            lemma_marked_cut(encode_utf8(s), x, encode_utf8(t), y);
            lemma_encoding(s, t);
        },
        _ => {
            assert(l.skip(1) =~= x);
            assert(r.skip(1) =~= y);
        },
    }
}

proof fn lemma_list_cut(a: Seq<Seq<char>>, x: Seq<u8>, b: Seq<Seq<char>>, y: Seq<u8>)
    requires
        marked_list(a) + x == marked_list(b) + y,
    ensures
        a == b,
        x == y,
    decreases a.len(),
{
    let l = marked_list(a) + x;
    let r = marked_list(b) + y;
    assert(l[0] == marked_list(a)[0]);
    assert(r[0] == marked_list(b)[0]);
    if a.len() == 0 {
        assert(b.len() == 0);
        assert(a =~= b);
        assert(l.skip(1) =~= x);
        assert(r.skip(1) =~= y);
    } else {
        assert(b.len() > 0);
        let ra = marked_list(a.skip(1)) + x;
        let rb = marked_list(b.skip(1)) + y;
        assert(l.skip(1) =~= marked(encode_utf8(a[0])) + ra);
        assert(r.skip(1) =~= marked(encode_utf8(b[0])) + rb);
        lemma_marked_cut(encode_utf8(a[0]), ra, encode_utf8(b[0]), rb);
        lemma_encoding(a[0], b[0]);
        lemma_list_cut(a.skip(1), x, b.skip(1), y);
        assert(a =~= seq![a[0]] + a.skip(1));
        assert(b =~= seq![b[0]] + b.skip(1));
    }
}

proof fn lemma_regroup(a: Seq<u8>, b: Seq<u8>, c: Seq<u8>, d: Seq<u8>)
    ensures
        a + b + c + d == a + (b + (c + d)),
{
    assert(a + b + c + d =~= a + (b + (c + d)));
}

/// What a key is made of pins down the image, its digest, the steps and the variables,
/// in their order: whatever differs in one of them, if only in what is there at all, is
/// told apart.
pub proof fn law_key_pins_its_inputs(
    image: Option<Seq<char>>,
    init: Seq<Seq<char>>,
    env: Seq<Seq<char>>,
    digest: Option<Seq<char>>,
    image2: Option<Seq<char>>,
    init2: Seq<Seq<char>>,
    env2: Seq<Seq<char>>,
    digest2: Option<Seq<char>>,
)
    requires
        key_bytes(image, init, env, digest) == key_bytes(image2, init2, env2, digest2),
    ensures
        image == image2,
        init == init2,
        env == env2,
        digest == digest2,
{
    let e = marked_list(env);
    let e2 = marked_list(env2);
    let i = marked_list(init) + e;
    let i2 = marked_list(init2) + e2;
    let d = marked_option(digest) + i;
    let d2 = marked_option(digest2) + i2;
    lemma_regroup(marked_option(image), marked_option(digest), marked_list(init), e);
    lemma_regroup(marked_option(image2), marked_option(digest2), marked_list(init2), e2);
    lemma_option_cut(image, d, image2, d2);
    lemma_option_cut(digest, i, digest2, i2);
    lemma_list_cut(init, e, init2, e2);
    lemma_list_cut(env, Seq::empty(), env2, Seq::empty());
}

// ---------------------------------------------------------------------------
// Names
// ---------------------------------------------------------------------------

/// What an image value stands for.
#[derive(Debug, Clone, Copy, PartialEq, Eq, Structural)]
pub enum ImageSource {
    /// A reference into a registry.
    Registry,
    /// A saved archive.
    Archive,
    /// An unpacked directory.
    Rootfs,
}

/// Whether a layer can be made of an image: only of one with a registry manifest to
/// pull its base from.
pub fn image_bakeable(image: Option<ImageSource>) -> (r: bool)
    ensures
        r == (image == Some(ImageSource::Registry)),
{
    match image {
        Some(ImageSource::Registry) => true,
        _ => false,
    }
}

/// The directory of the cache below a root.
pub open spec fn cache_dir_of(root: Option<Seq<char>>) -> Seq<char> {
    match root {
        Some(root) => joined(root, "init-layers"@),
        None => "/tmp/smolvm-init-layers"@,
    }
}

/// The directory of the cache below a root.
pub fn cache_dir_below(root: Option<String>) -> (r: String)
    ensures
        r@ == cache_dir_of(opt_text(root)),
{
    match root {
        Some(root) => join(root.as_str(), "init-layers"),
        None => "/tmp/smolvm-init-layers".to_owned(),
    }
}

/// The directory of the cache: beside that of the machines, below the same root.
pub fn init_layer_cache_dir(machines: &str) -> (r: String)
    ensures
        r@ == cache_dir_of(path_parent(machines@)),
        plainly_written(machines@) ==> r@ == cache_dir_of(Some(plain_parent(machines@))),
{
    cache_dir_below(parent_of(machines))
}

/// The file name of a layer.
pub fn layer_file_name(key: &str) -> (r: String)
    ensures
        r@ == key@ + ".smolmachine"@,
{
    say2(key, ".smolmachine")
}

/// Whether a file of the cache is a layer, by its name's extension.
pub open spec fn layer_file(name: Seq<char>) -> bool {
    name.len() > ".smolmachine"@.len() && name.skip(name.len() - ".smolmachine"@.len())
        == ".smolmachine"@
}

/// Whether a file of the cache is a layer, by its name's extension.
pub fn is_layer_file(name: &str) -> (r: bool)
    ensures
        r == layer_file(name@),
{
    let chars = chars_of(name);
    let end = chars_of(".smolmachine");
    if chars.len() <= end.len() {
        return false;
    }
    let tail = stretch(&chars, chars.len() - end.len(), chars.len());
    proof { assert(tail@ =~= name@.skip(name@.len() - ".smolmachine"@.len())); }
    same_chars(&tail, &end)
}

/// The machine that a layer is made with.
pub fn bake_machine_name(key: &str, pid: u32) -> (r: String)
    ensures
        r@ == "init-bake-"@ + key@ + "-"@ + decimal(pid as nat),
{
    say4("init-bake-", key, "-", string_of(&decimal_chars(pid as u128)).as_str())
}

/// The directory that a layer is made in.
pub fn staging_name(key: &str, pid: u32) -> (r: String)
    ensures
        r@ == ".staging-"@ + key@ + "-"@ + decimal(pid as nat),
{
    say4(".staging-", key, "-", string_of(&decimal_chars(pid as u128)).as_str())
}

// ---------------------------------------------------------------------------
// Settings
// ---------------------------------------------------------------------------

/// The largest size of the cache where nothing else is set.
pub const DEFAULT_INIT_CACHE_BYTES: u64 = 10_737_418_240;

/// The largest size of the cache: the setting, if it is a positive number.
pub fn init_cache_max_bytes(setting: Option<&str>) -> (r: u64)
    ensures
        r == match opt_str(setting) {
            Some(s) => match parse_number(trim(s), 10, u64::MAX as nat) {
                Some(n) => if n > 0 {
                    n as u64
                } else {
                    DEFAULT_INIT_CACHE_BYTES
                },
                None => DEFAULT_INIT_CACHE_BYTES,
            },
            None => DEFAULT_INIT_CACHE_BYTES,
        },
{
    match setting {
        Some(s) => {
            let chars = trim_chars(&chars_of(s));
            match parse_u64(&chars) {
                Some(n) => if n > 0 {
                    n
                } else {
                    DEFAULT_INIT_CACHE_BYTES
                },
                None => DEFAULT_INIT_CACHE_BYTES,
            }
        },
        None => DEFAULT_INIT_CACHE_BYTES,
    }
}

/// Seconds after which a machine that was making a layer counts as left behind,
/// where nothing else is set.
pub const DEFAULT_BAKE_GC_SECS: u64 = 1800;

/// Seconds after which a machine that was making a layer counts as left behind.
pub fn bake_gc_secs(setting: Option<&str>) -> (r: u64)
    ensures
        r == match opt_str(setting) {
            Some(s) => match parse_number(trim(s), 10, u64::MAX as nat) {
                Some(n) => n as u64,
                None => DEFAULT_BAKE_GC_SECS,
            },
            None => DEFAULT_BAKE_GC_SECS,
        },
{
    match setting {
        Some(s) => {
            let chars = trim_chars(&chars_of(s));
            match parse_u64(&chars) {
                Some(n) => n,
                None => DEFAULT_BAKE_GC_SECS,
            }
        },
        None => DEFAULT_BAKE_GC_SECS,
    }
}

/// Machines that were left behind while making layers: by their name, and no
/// younger than that.
pub open spec fn stale_bakes(vms: Seq<(String, u64)>, now: u64, stale_after: u64) -> Seq<Seq<char>>
    decreases vms.len(),
{
    if vms.len() == 0 {
        Seq::empty()
    } else {
        let front = stale_bakes(vms.drop_last(), now, stale_after);
        let (name, created) = vms.last();
        if starts(name@, "init-bake-"@) && sat_sub(now as int, created as int) >= stale_after {
            front.push(name@)
        } else {
            front
        }
    }
}

/// The names of machines that were left behind while making layers. `vms` holds
/// the names and when each was created.
pub fn gc_stale_bake_machines(vms: &[(String, u64)], now: u64, stale_after: u64) -> (r: Vec<String>)
    ensures
        texts(r@) == stale_bakes(vms@, now, stale_after),
{
    let mut out: Vec<String> = Vec::new();
    let mut i: usize = 0;
    proof {
        assert(vms@.take(0) =~= Seq::empty());
        assert(texts(out@) =~= Seq::empty());
    }
    while i < vms.len()
        invariant
            i <= vms@.len(),
            texts(out@) == stale_bakes(vms@.take(i as int), now, stale_after),
        decreases vms@.len() - i,
    {
        proof {
            assert(vms@.take(i + 1).drop_last() =~= vms@.take(i as int));
            assert(vms@.take(i + 1).last() == vms@[i as int]);
        }
        let chars = chars_of(vms[i].0.as_str());
        if strip_prefix_chars(&chars, "init-bake-").is_some() && now.saturating_sub(vms[i].1)
            >= stale_after {
            let ghost before = out@;
            out.push(vms[i].0.clone());
            proof { assert(texts(out@) =~= texts(before).push(vms@[i as int].0@)); }
        }
        i = i + 1;
    }
    proof { assert(vms@.take(vms@.len() as int) =~= vms@); }
    out
}

/// A machine that is making a layer right now is never taken for one that was left
/// behind, and no other machine is either.
pub proof fn law_only_stale_bakes_are_removed(vms: Seq<(String, u64)>, now: u64, stale_after: u64)
    ensures
        forall|i: int|
            0 <= i < stale_bakes(vms, now, stale_after).len() ==> exists|j: int|
                0 <= j < vms.len() && (#[trigger] vms[j]).0@ == (#[trigger] stale_bakes(
                    vms,
                    now,
                    stale_after,
                )[i]) && starts(vms[j].0@, "init-bake-"@) && sat_sub(
                    now as int,
                    vms[j].1 as int,
                ) >= stale_after,
    decreases vms.len(),
{
    if vms.len() > 0 {
        let front = vms.drop_last();
        law_only_stale_bakes_are_removed(front, now, stale_after);
        let all = stale_bakes(vms, now, stale_after);
        let part = stale_bakes(front, now, stale_after);
        assert forall|i: int| 0 <= i < all.len() implies exists|j: int|
            0 <= j < vms.len() && (#[trigger] vms[j]).0@ == (#[trigger] all[i]) && starts(
                vms[j].0@,
                "init-bake-"@,
            ) && sat_sub(now as int, vms[j].1 as int) >= stale_after by {
            if i < part.len() {
                assert(all[i] == part[i]);
                let j = choose|j: int|
                    0 <= j < front.len() && (#[trigger] front[j]).0@ == part[i] && starts(
                        front[j].0@,
                        "init-bake-"@,
                    ) && sat_sub(now as int, front[j].1 as int) >= stale_after;
                assert(vms[j] == front[j]);
            } else {
                assert(vms[vms.len() - 1].0@ == all[i]);
            }
        }
    }
}

// ---------------------------------------------------------------------------
// Eviction
// ---------------------------------------------------------------------------

/// A layer of the cache.
#[derive(Debug, PartialEq, Eq)]
pub struct LayerEntry {
    pub path: String,
    /// When it was last used, in nanoseconds.
    pub modified: u64,
    pub size: u64,
}

/// A layer of the cache.
pub struct LayerModel {
    pub path: Seq<char>,
    pub modified: u64,
    pub size: u64,
}

impl View for LayerEntry {
    type V = LayerModel;

    open spec fn view(&self) -> LayerModel {
        LayerModel { path: self.path@, modified: self.modified, size: self.size }
    }
}

/// Layers by what they are.
pub open spec fn layers_view(v: Seq<LayerEntry>) -> Seq<LayerModel> {
    v.map_values(|e: LayerEntry| e@)
}

/// The total size of layers.
pub open spec fn layers_total(v: Seq<LayerModel>) -> nat
    decreases v.len(),
{
    if v.len() == 0 {
        0
    } else {
        layers_total(v.drop_last()) + v.last().size as nat
    }
}

/// When each layer was last used, with its place.
pub open spec fn ages(v: Seq<LayerModel>) -> Seq<(u64, u64)> {
    Seq::new(v.len(), |i: int| (v[i].modified, i as u64))
}

/// Layers, those that were used longest ago first.
pub open spec fn by_age(v: Seq<LayerModel>) -> Seq<LayerModel> {
    sorted_pairs(ages(v)).map_values(|p: (u64, u64)| v[p.1 as int])
}

/// The places of the layers that are evicted from `at` on to free `over` bytes, if
/// each can be removed.
pub open spec fn evicted(order: Seq<LayerModel>, keep: Seq<char>, at: int, over: nat) -> Seq<int>
    decreases order.len() - at,
{
    if over == 0 || at < 0 || at >= order.len() {
        Seq::empty()
    } else if order[at].path == keep {
        evicted(order, keep, at + 1, over)
    } else {
        seq![at] + evicted(order, keep, at + 1, sat_sub(over as int, order[at].size as int) as nat)
    }
}

/// Eviction from the cache while it goes on.
#[derive(Debug)]
pub struct CachePrune {
    /// Layers, those that were used longest ago first.
    pub order: Vec<LayerEntry>,
    /// The layer that stays.
    pub keep: String,
    /// The next layer to look at.
    pub next: usize,
    /// Bytes that are still too many.
    pub over: u128,
}

impl CachePrune {
    /// The layers that are still to go, if each can be removed.
    pub open spec fn pending(&self) -> Seq<int> {
        evicted(layers_view(self.order@), self.keep@, self.next as int, self.over as nat)
    }

    /// Starts to evict layers until the cache holds at most `max_bytes`, those that
    /// were used longest ago first, and never `keep`.
    pub fn start(layers: &[LayerEntry], max_bytes: u64, keep: &str) -> (r: Self)
        ensures
            layers_view(r.order@) == by_age(layers_view(layers@)),
            r.keep@ == keep@,
            r.next == 0,
            r.over == sat_sub(layers_total(layers_view(layers@)) as int, max_bytes as int),
    {
        let ghost all = layers_view(layers@);
        let size: usize = layers.len();
        let mut total: u128 = 0;
        let mut keys: Vec<(u64, u64)> = Vec::new();
        let mut i: usize = 0;
        proof { assert(all.take(0) =~= Seq::empty()); }
        while i < layers.len()
            invariant
                i <= layers@.len(),
                all == layers_view(layers@),
                size == layers@.len(),
                total == layers_total(all.take(i as int)),
                total <= i * 0xffff_ffff_ffff_ffff,
                keys@.len() == i,
                forall|j: int| 0 <= j < i ==> #[trigger] keys@[j] == (all[j].modified, j as u64),
            decreases layers@.len() - i,
        {
            proof {
                assert(all.take(i + 1).drop_last() =~= all.take(i as int));
                assert(all.take(i + 1).last() == layers@[i as int]@);
                assert(i * 0xffff_ffff_ffff_ffff + 0xffff_ffff_ffff_ffff == (i + 1)
                    * 0xffff_ffff_ffff_ffff) by (nonlinear_arith);
                assert((i + 1) * 0xffff_ffff_ffff_ffff
                    <= 0xffff_ffff_ffff_ffff * 0xffff_ffff_ffff_ffff) by (nonlinear_arith)
                    requires
                        i + 1 <= 0xffff_ffff_ffff_ffff,
                ;
            }
            total = total + layers[i].size as u128;
            keys.push((layers[i].modified, i as u64));
            i = i + 1;
        }
        proof {
            assert(all.take(layers@.len() as int) =~= all);
            assert(keys@ =~= ages(all));
        }
        let sorted = sort_pairs(&keys);
        proof { lemma_places(all); }
        let mut order: Vec<LayerEntry> = Vec::new();
        let mut j: usize = 0;
        while j < sorted.len()
            invariant
                j <= sorted@.len(),
                all == layers_view(layers@),
                sorted@ == sorted_pairs(ages(all)),
                size == layers@.len(),
                forall|k: int| 0 <= k < sorted@.len() ==> (#[trigger] sorted@[k]).1 < all.len(),
                order@.len() == j,
                forall|k: int| 0 <= k < j ==> (#[trigger] order@[k])@ == by_age(all)[k],
            decreases sorted@.len() - j,
        {
            assert(sorted@[j as int].1 < all.len());
            let k = sorted[j].1 as usize;
            order.push(
                LayerEntry {
                    path: layers[k].path.clone(),
                    modified: layers[k].modified,
                    size: layers[k].size,
                },
            );
            j = j + 1;
        }
        proof { assert(layers_view(order@) =~= by_age(all)); }
        let over: u128 = if total > max_bytes as u128 {
            total - max_bytes as u128
        } else {
            0
        };
        CachePrune { order, keep: keep.to_owned(), next: 0, over }
    }

    /// The next layer to remove, if there is one.
    pub fn next(&mut self) -> (r: Option<String>)
        ensures
            final(self).order == old(self).order,
            final(self).keep == old(self).keep,
            final(self).over == old(self).over,
            match r {
                None => old(self).pending().len() == 0,
                Some(path) => {
                    let p = old(self).pending();
                    &&& p.len() > 0
                    &&& 0 <= p[0] < old(self).order@.len()
                    &&& path@ == old(self).order@[p[0]].path@
                    &&& path@ != old(self).keep@
                    &&& final(self).next == p[0] + 1
                },
            },
    {
        if self.over == 0 {
            return None;
        }
        while self.next < self.order.len()
            invariant
                self.order == old(self).order,
                self.keep == old(self).keep,
                self.over == old(self).over,
                self.over > 0,
                self.pending() == old(self).pending(),
            decreases self.order@.len() - self.next,
        {
            let i = self.next;
            self.next = i + 1;
            proof { assert(layers_view(self.order@)[i as int] == self.order@[i as int]@); }
            if !text_eq(self.order[i].path.as_str(), self.keep.as_str()) {
                return Some(self.order[i].path.clone());
            }
        }
        None
    }

    /// Notes whether the layer that was to be removed is gone.
    pub fn settle(&mut self, removed: bool)
        requires
            0 < old(self).next <= old(self).order@.len(),
        ensures
            final(self).order == old(self).order,
            final(self).keep == old(self).keep,
            final(self).next == old(self).next,
            final(self).over == if removed {
                sat_sub(old(self).over as int, old(self).order@[old(self).next - 1].size as int)
            } else {
                old(self).over as int
            },
    {
        if removed {
            let size = self.order[self.next - 1].size as u128;
            self.over = if self.over > size {
                self.over - size
            } else {
                0
            };
        }
    }
}

proof fn lemma_places(v: Seq<LayerModel>)
    requires
        v.len() <= usize::MAX,
    ensures
        sorted_pairs(ages(v)).len() == v.len(),
        forall|k: int|
            0 <= k < v.len() ==> (#[trigger] sorted_pairs(ages(v))[k]).1 < v.len() && sorted_pairs(
                ages(v),
            )[k].0 == v[sorted_pairs(ages(v))[k].1 as int].modified,
{
    let keys = ages(v);
    lemma_sorted_pairs(keys);
    let sorted = sorted_pairs(keys);
    assert forall|k: int| 0 <= k < v.len() implies (#[trigger] sorted[k]).1 < v.len() && sorted[k].0
        == v[sorted[k].1 as int].modified by {
        assert(sorted.contains(sorted[k]));
        assert(keys.contains(sorted[k]));
        let j = choose|j: int| 0 <= j < keys.len() && keys[j] == sorted[k];
        assert(keys[j] == (v[j].modified, j as u64));
    }
}

/// The total size of the layers at some places.
pub open spec fn size_at(order: Seq<LayerModel>, places: Seq<int>) -> nat
    decreases places.len(),
{
    if places.len() == 0 {
        0
    } else {
        order[places[0]].size as nat + size_at(order, places.skip(1))
    }
}

/// Eviction frees what is too many, unless nothing but the layer that stays is left;
/// it never takes that layer, and it takes no layer while one that was used less
/// recently stays.
pub proof fn law_eviction_takes_the_oldest(
    layers: Seq<LayerModel>,
    keep: Seq<char>,
    over: nat,
)
    requires
        layers.len() <= usize::MAX,
    ensures
        ({
            let order = by_age(layers);
            let gone = evicted(order, keep, 0, over);
            &&& size_at(order, gone) >= over || forall|i: int|
                0 <= i < order.len() && (#[trigger] order[i]).path != keep ==> gone.contains(i)
            &&& forall|k: int|
                0 <= k < gone.len() ==> 0 <= #[trigger] gone[k] < order.len()
                    && order[gone[k]].path != keep
            &&& forall|i: int, j: int|
                #![trigger order[i], order[j]]
                0 <= i < order.len() && 0 <= j < order.len() && gone.contains(j)
                    && order[i].modified < order[j].modified && order[i].path != keep
                    ==> gone.contains(i)
        }),
{
    let order = by_age(layers);
    let sorted = sorted_pairs(ages(layers));
    lemma_places(layers);
    lemma_sorted_pairs(ages(layers));
    lemma_evicted(order, keep, 0, over);
    let gone = evicted(order, keep, 0, over);
    assert forall|i: int, j: int|
        #![trigger order[i], order[j]]
        0 <= i < order.len() && 0 <= j < order.len() && gone.contains(j) && order[i].modified
            < order[j].modified && order[i].path != keep implies gone.contains(i) by {
        if j <= i {
            assert(order[j].modified == sorted[j].0);
            assert(order[i].modified == sorted[i].0);
            if j < i {
                assert(pair_leq()(sorted[j], sorted[i]));
            }
        }
    }
}

proof fn lemma_evicted(order: Seq<LayerModel>, keep: Seq<char>, at: int, over: nat)
    requires
        0 <= at <= order.len(),
    ensures
        ({
            let gone = evicted(order, keep, at, over);
            &&& size_at(order, gone) >= over || forall|i: int|
                at <= i < order.len() && (#[trigger] order[i]).path != keep ==> gone.contains(i)
            &&& forall|k: int|
                0 <= k < gone.len() ==> at <= #[trigger] gone[k] < order.len()
                    && order[gone[k]].path != keep
            &&& forall|i: int, j: int|
                #![trigger order[i], order[j]]
                at <= i < j < order.len() && gone.contains(j) && order[i].path != keep
                    ==> gone.contains(i)
        }),
    decreases order.len() - at,
{
    let gone = evicted(order, keep, at, over);
    if over == 0 || at == order.len() {
    } else if order[at].path == keep {
        lemma_evicted(order, keep, at + 1, over);
    } else {
        let rest_over = sat_sub(over as int, order[at].size as int) as nat;
        let rest = evicted(order, keep, at + 1, rest_over);
        lemma_evicted(order, keep, at + 1, rest_over);
        assert(gone.skip(1) =~= rest);
        assert(gone[0] == at);
        assert(gone.contains(at));
        assert forall|i: int| rest.contains(i) implies gone.contains(i) by {
            let k = choose|k: int| 0 <= k < rest.len() && rest[k] == i;
            assert(gone[k + 1] == i);
        }
        assert forall|i: int| gone.contains(i) && i != at implies rest.contains(i) by {
            let k = choose|k: int| 0 <= k < gone.len() && gone[k] == i;
            assert(rest[k - 1] == i);
        }
        assert forall|k: int| 0 <= k < gone.len() implies at <= #[trigger] gone[k] < order.len()
            && order[gone[k]].path != keep by {
            if k > 0 {
                assert(gone[k] == rest[k - 1]);
            }
        }
    }
}

} // verus!
