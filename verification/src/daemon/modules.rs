//! The module handoff: what a clone worker needs to know of its golden's loaded
//! code, streams, events and graphs, as one byte message.
//!
//! Counts and lengths are four bytes, handles eight. In order: modules, functions,
//! streams, events, and then, each only if bytes are left, graphs, library handles
//! and operation logs. Module images stand in the message itself, or, where it
//! starts with its own mark, in a separate image store.
use crate::daemon::tensor::byte_views;
use crate::split::words;
use crate::wire::{le_bytes, push_bytes, push_le, push_u32, push_u64};
use vstd::prelude::*;

verus! {

/// Largest handoff, in bytes.
pub const MAX_MODULE_HANDOFF_BLOB_BYTES: u64 = 0x8_0000_0000;

/// Why a handoff cannot be written.
#[derive(Debug, Clone, Copy, PartialEq, Eq, Structural)]
pub enum HandoffError {
    /// A count or length does not fit its four bytes.
    LengthOverflow,
    /// The message is too long.
    TooLarge,
    /// An image is missing from its store.
    MissingImage,
    /// An image in the store is not the one that was captured.
    ImageMismatch,
}

impl HandoffError {
    /// What is said of it.
    pub open spec fn words(self) -> Seq<char> {
        match self {
            HandoffError::LengthOverflow => "CUDA module handoff field exceeds 4 GiB"@,
            HandoffError::TooLarge => "CUDA module handoff exceeds cache limit"@,
            HandoffError::MissingImage => {
                "CUDA module image is missing from its append-only store"@
            },
            HandoffError::ImageMismatch => {
                "CUDA module image store range does not match its captured image"@
            },
        }
    }

    /// What is said of it.
    pub fn text(self) -> (r: &'static str)
        ensures
            r@ == self.words(),
    {
        match self {
            HandoffError::LengthOverflow => "CUDA module handoff field exceeds 4 GiB",
            HandoffError::TooLarge => "CUDA module handoff exceeds cache limit",
            HandoffError::MissingImage => {
                "CUDA module image is missing from its append-only store"
            },
            HandoffError::ImageMismatch => {
                "CUDA module image store range does not match its captured image"
            },
        }
    }
}

/// Why a handoff cannot be read.
#[derive(Debug, Clone, Copy, PartialEq, Eq, Structural)]
pub enum HandoffReadError {
    /// It ends too early.
    Truncated,
    /// It needs an image store that is not there.
    MissingStore,
    /// An image lies outside its store.
    OutsideStore,
}

impl HandoffReadError {
    /// What is said of it.
    pub open spec fn words(self) -> Seq<char> {
        match self {
            HandoffReadError::Truncated => "CUDA module handoff is truncated"@,
            HandoffReadError::MissingStore => {
                "CUDA module handoff requires a missing external image store"@
            },
            HandoffReadError::OutsideStore => {
                "CUDA module image range exceeds its external store"@
            },
        }
    }

    /// What is said of it.
    pub fn text(self) -> (r: &'static str)
        ensures
            r@ == self.words(),
    {
        match self {
            HandoffReadError::Truncated => "CUDA module handoff is truncated",
            HandoffReadError::MissingStore => {
                "CUDA module handoff requires a missing external image store"
            },
            HandoffReadError::OutsideStore => "CUDA module image range exceeds its external store",
        }
    }
}

/// A loaded function with the attributes set on it.
#[derive(Debug, PartialEq, Eq)]
pub struct FuncMeta {
    pub handle: u64,
    pub module: u64,
    pub name: String,
    pub attrs: Vec<(i32, i32)>,
}

/// One kernel of a graph.
#[derive(Debug, PartialEq, Eq)]
pub struct GraphKernelNode {
    pub func: u64,
    pub grid: (u32, u32, u32),
    pub block: (u32, u32, u32),
    pub shared_mem: u32,
    pub params: Vec<Vec<u8>>,
}

/// A captured graph.
#[derive(Debug, PartialEq, Eq)]
pub struct GraphSer {
    pub graph: u64,
    pub instance: u64,
    pub nodes: Vec<GraphKernelNode>,
    pub edges: Vec<(u32, u32)>,
}

/// The creation of a library handle.
#[derive(Debug, PartialEq, Eq)]
pub struct LibHandle {
    pub library: u8,
    pub function: u16,
    pub handle: u64,
    pub args: Vec<u8>,
}

/// The operations to replay for a graph.
#[derive(Debug, PartialEq, Eq)]
pub struct GraphOplog {
    pub graph: u64,
    pub instance: u64,
    pub ops: Vec<Vec<u8>>,
}

/// Where an image lies: in the message, or in its store.
#[derive(Debug, Clone, Copy, PartialEq, Eq, Structural)]
pub struct ImageRef {
    pub handle: u64,
    pub offset: u64,
    pub len: u32,
}

/// A separate store of images: where each lies, and how long the store is.
#[derive(Debug)]
pub struct ImageStore {
    /// Module handle, offset and length of each image.
    pub ranges: Vec<(u64, u64, u64)>,
    /// Length of the store.
    pub bytes: u64,
}

/// What is handed off.
#[derive(Debug)]
pub struct ModuleHandoff {
    pub modules: Vec<(u64, Vec<u8>)>,
    pub funcs: Vec<FuncMeta>,
    pub streams: Vec<(u64, u32)>,
    pub events: Vec<(u64, u32)>,
    pub graphs: Vec<GraphSer>,
    pub libs: Vec<LibHandle>,
    pub oplogs: Vec<GraphOplog>,
}

/// What was read of a handoff.
#[derive(Debug)]
pub struct ReceivedHandoff {
    /// The images lie in the store.
    pub external: bool,
    pub images: Vec<ImageRef>,
    pub funcs: Vec<FuncMeta>,
    pub streams: Vec<(u64, u32)>,
    pub events: Vec<(u64, u32)>,
    pub graphs: Vec<GraphSer>,
    pub libs: Vec<LibHandle>,
    pub oplogs: Vec<GraphOplog>,
}

/// The mathematical value of a [`FuncMeta`].
#[verifier::ext_equal]
pub struct FuncModel {
    pub handle: u64,
    pub module: u64,
    pub name: Seq<char>,
    pub attrs: Seq<(i32, i32)>,
}

/// The mathematical value of a [`GraphKernelNode`].
#[verifier::ext_equal]
pub struct NodeModel {
    pub func: u64,
    pub grid: (u32, u32, u32),
    pub block: (u32, u32, u32),
    pub shared_mem: u32,
    pub params: Seq<Seq<u8>>,
}

/// The mathematical value of a [`GraphSer`].
#[verifier::ext_equal]
pub struct GraphModel {
    pub graph: u64,
    pub instance: u64,
    pub nodes: Seq<NodeModel>,
    pub edges: Seq<(u32, u32)>,
}

/// The mathematical value of a [`LibHandle`].
#[verifier::ext_equal]
pub struct LibModel {
    pub library: u8,
    pub function: u16,
    pub handle: u64,
    pub args: Seq<u8>,
}

/// The mathematical value of a [`GraphOplog`].
#[verifier::ext_equal]
pub struct OplogModel {
    pub graph: u64,
    pub instance: u64,
    pub ops: Seq<Seq<u8>>,
}

/// The mathematical value of everything behind the modules.
#[verifier::ext_equal]
pub struct HandoffModel {
    pub funcs: Seq<FuncModel>,
    pub streams: Seq<(u64, u32)>,
    pub events: Seq<(u64, u32)>,
    pub graphs: Seq<GraphModel>,
    pub libs: Seq<LibModel>,
    pub oplogs: Seq<OplogModel>,
}

impl View for FuncMeta {
    type V = FuncModel;

    open spec fn view(&self) -> FuncModel {
        FuncModel {
            handle: self.handle,
            module: self.module,
            name: self.name@,
            attrs: self.attrs@,
        }
    }
}

impl View for GraphKernelNode {
    type V = NodeModel;

    open spec fn view(&self) -> NodeModel {
        NodeModel {
            func: self.func,
            grid: self.grid,
            block: self.block,
            shared_mem: self.shared_mem,
            params: byte_views(self.params@),
        }
    }
}

/// The mathematical values of nodes.
pub open spec fn nodes_view(v: Seq<GraphKernelNode>) -> Seq<NodeModel> {
    v.map_values(|n: GraphKernelNode| n@)
}

impl View for GraphSer {
    type V = GraphModel;

    open spec fn view(&self) -> GraphModel {
        GraphModel {
            graph: self.graph,
            instance: self.instance,
            nodes: nodes_view(self.nodes@),
            edges: self.edges@,
        }
    }
}

impl View for LibHandle {
    type V = LibModel;

    open spec fn view(&self) -> LibModel {
        LibModel {
            library: self.library,
            function: self.function,
            handle: self.handle,
            args: self.args@,
        }
    }
}

impl View for GraphOplog {
    type V = OplogModel;

    open spec fn view(&self) -> OplogModel {
        OplogModel { graph: self.graph, instance: self.instance, ops: byte_views(self.ops@) }
    }
}

/// The mathematical values of functions.
pub open spec fn funcs_view(v: Seq<FuncMeta>) -> Seq<FuncModel> {
    v.map_values(|x: FuncMeta| x@)
}

/// The mathematical values of graphs.
pub open spec fn graphs_view(v: Seq<GraphSer>) -> Seq<GraphModel> {
    v.map_values(|x: GraphSer| x@)
}

/// The mathematical values of library handles.
pub open spec fn libs_view(v: Seq<LibHandle>) -> Seq<LibModel> {
    v.map_values(|x: LibHandle| x@)
}

/// The mathematical values of operation logs.
pub open spec fn oplogs_view(v: Seq<GraphOplog>) -> Seq<OplogModel> {
    v.map_values(|x: GraphOplog| x@)
}

/// The mathematical values of modules.
pub open spec fn modules_view(v: Seq<(u64, Vec<u8>)>) -> Seq<(u64, Seq<u8>)> {
    v.map_values(|m: (u64, Vec<u8>)| (m.0, m.1@))
}

impl ModuleHandoff {
    /// Everything behind the modules.
    pub open spec fn rest(&self) -> HandoffModel {
        HandoffModel {
            funcs: funcs_view(self.funcs@),
            streams: self.streams@,
            events: self.events@,
            graphs: graphs_view(self.graphs@),
            libs: libs_view(self.libs@),
            oplogs: oplogs_view(self.oplogs@),
        }
    }
}

impl ReceivedHandoff {
    /// Everything behind the modules.
    pub open spec fn rest(&self) -> HandoffModel {
        HandoffModel {
            funcs: funcs_view(self.funcs@),
            streams: self.streams@,
            events: self.events@,
            graphs: graphs_view(self.graphs@),
            libs: libs_view(self.libs@),
            oplogs: oplogs_view(self.oplogs@),
        }
    }
}

/// A signed number as the unsigned one with the same bits.
pub open spec fn bits_of(a: i32) -> u32 {
    if a >= 0 {
        a as u32
    } else {
        (a + 0x1_0000_0000) as u32
    }
}

/// The signed number with the bits of an unsigned one.
pub open spec fn signed_of(u: u32) -> i32 {
    if u < 0x8000_0000 {
        u as i32
    } else {
        (u - 0x1_0000_0000) as i32
    }
}

pub(crate) fn to_bits(a: i32) -> (u: u32)
    ensures
        u == bits_of(a),
{
    if a >= 0 {
        a as u32
    } else {
        (a as i64 + 0x1_0000_0000) as u32
    }
}

pub(crate) fn to_signed(u: u32) -> (a: i32)
    ensures
        a == signed_of(u),
{
    if u < 0x8000_0000 {
        u as i32
    } else {
        (u as i64 - 0x1_0000_0000) as i32
    }
}

// ---------------------------------------------------------------------------
// Writing
// ---------------------------------------------------------------------------

/// `st` with the bytes `b` behind it, unless it failed or becomes too long.
pub open spec fn put(st: Result<Seq<u8>, HandoffError>, b: Seq<u8>) -> Result<
    Seq<u8>,
    HandoffError,
> {
    match st {
        Err(e) => Err(e),
        Ok(s) => if s.len() + b.len() > MAX_MODULE_HANDOFF_BLOB_BYTES {
            Err(HandoffError::TooLarge)
        } else {
            Ok(s + b)
        },
    }
}

/// `st` with a count or length behind it.
pub open spec fn put_len(st: Result<Seq<u8>, HandoffError>, n: nat) -> Result<
    Seq<u8>,
    HandoffError,
> {
    match st {
        Err(e) => Err(e),
        Ok(s) => if n > u32::MAX {
            Err(HandoffError::LengthOverflow)
        } else {
            put(st, le_bytes(n, 4))
        },
    }
}

/// `st` with a length and that many bytes behind it.
pub open spec fn put_blob(st: Result<Seq<u8>, HandoffError>, b: Seq<u8>) -> Result<
    Seq<u8>,
    HandoffError,
> {
    put(put_len(st, b.len()), b)
}

/// `st` with the elements of `v` behind it, each written by `w`.
pub open spec fn put_each<T>(
    w: spec_fn(Result<Seq<u8>, HandoffError>, T) -> Result<Seq<u8>, HandoffError>,
    st: Result<Seq<u8>, HandoffError>,
    v: Seq<T>,
) -> Result<Seq<u8>, HandoffError>
    decreases v.len(),
{
    if v.len() == 0 {
        st
    } else {
        w(put_each(w, st, v.drop_last()), v.last())
    }
}

/// `st` with the number of elements of `v` and the elements behind it.
pub open spec fn put_list<T>(
    w: spec_fn(Result<Seq<u8>, HandoffError>, T) -> Result<Seq<u8>, HandoffError>,
    st: Result<Seq<u8>, HandoffError>,
    v: Seq<T>,
) -> Result<Seq<u8>, HandoffError> {
    put_each(w, put_len(st, v.len()), v)
}

/// Writes a module with its image.
pub open spec fn put_module() -> spec_fn(Result<Seq<u8>, HandoffError>, (u64, Seq<u8>)) -> Result<
    Seq<u8>,
    HandoffError,
> {
    |st: Result<Seq<u8>, HandoffError>, m: (u64, Seq<u8>)|
        put_blob(put(st, le_bytes(m.0 as nat, 8)), m.1)
}

/// The first range of a handle from `i` on.
pub open spec fn range_of(ranges: Seq<(u64, u64, u64)>, handle: u64, i: int) -> Option<(u64, u64)>
    decreases ranges.len() - i,
{
    if i >= ranges.len() {
        None
    } else if ranges[i].0 == handle {
        Some((ranges[i].1, ranges[i].2))
    } else {
        range_of(ranges, handle, i + 1)
    }
}

/// Writes a module whose image lies in a store.
pub open spec fn put_stored(ranges: Seq<(u64, u64, u64)>, bytes: u64) -> spec_fn(
    Result<Seq<u8>, HandoffError>,
    (u64, Seq<u8>),
) -> Result<Seq<u8>, HandoffError> {
    |st: Result<Seq<u8>, HandoffError>, m: (u64, Seq<u8>)|
        match put(st, le_bytes(m.0 as nat, 8)) {
            Err(e) => Err(e),
            Ok(s) => match range_of(ranges, m.0, 0) {
                None => Err(HandoffError::MissingImage),
                Some((offset, len)) => if len != m.1.len() || offset + len > bytes {
                    Err(HandoffError::ImageMismatch)
                } else {
                    put_len(put(Ok(s), le_bytes(offset as nat, 8)), m.1.len())
                },
            },
        }
}

/// Writes an attribute.
pub open spec fn put_attr() -> spec_fn(Result<Seq<u8>, HandoffError>, (i32, i32)) -> Result<
    Seq<u8>,
    HandoffError,
> {
    |st: Result<Seq<u8>, HandoffError>, a: (i32, i32)|
        put(put(st, le_bytes(bits_of(a.0) as nat, 4)), le_bytes(bits_of(a.1) as nat, 4))
}

/// Writes a function.
pub open spec fn put_func() -> spec_fn(Result<Seq<u8>, HandoffError>, FuncModel) -> Result<
    Seq<u8>,
    HandoffError,
> {
    |st: Result<Seq<u8>, HandoffError>, f: FuncModel|
        put_list(
            put_attr(),
            put_blob(
                put(put(st, le_bytes(f.handle as nat, 8)), le_bytes(f.module as nat, 8)),
                vstd::utf8::encode_utf8(f.name),
            ),
            f.attrs,
        )
}

/// Writes a stream or an event.
pub open spec fn put_flagged() -> spec_fn(Result<Seq<u8>, HandoffError>, (u64, u32)) -> Result<
    Seq<u8>,
    HandoffError,
> {
    |st: Result<Seq<u8>, HandoffError>, x: (u64, u32)|
        put(put(st, le_bytes(x.0 as nat, 8)), le_bytes(x.1 as nat, 4))
}

/// Writes a length and that many bytes.
pub open spec fn put_bytes() -> spec_fn(Result<Seq<u8>, HandoffError>, Seq<u8>) -> Result<
    Seq<u8>,
    HandoffError,
> {
    |st: Result<Seq<u8>, HandoffError>, b: Seq<u8>| put_blob(st, b)
}

/// The seven numbers of a node.
pub open spec fn node_head(n: NodeModel) -> Seq<u8> {
    le_bytes(n.func as nat, 8) + le_bytes(n.grid.0 as nat, 4) + le_bytes(n.grid.1 as nat, 4)
        + le_bytes(n.grid.2 as nat, 4) + le_bytes(n.block.0 as nat, 4) + le_bytes(
        n.block.1 as nat,
        4,
    ) + le_bytes(n.block.2 as nat, 4) + le_bytes(n.shared_mem as nat, 4)
}

/// Writes a node.
pub open spec fn put_node() -> spec_fn(Result<Seq<u8>, HandoffError>, NodeModel) -> Result<
    Seq<u8>,
    HandoffError,
> {
    |st: Result<Seq<u8>, HandoffError>, n: NodeModel|
        put_list(put_bytes(), put(st, node_head(n)), n.params)
}

/// Writes an edge.
pub open spec fn put_edge() -> spec_fn(Result<Seq<u8>, HandoffError>, (u32, u32)) -> Result<
    Seq<u8>,
    HandoffError,
> {
    |st: Result<Seq<u8>, HandoffError>, e: (u32, u32)|
        put(put(st, le_bytes(e.0 as nat, 4)), le_bytes(e.1 as nat, 4))
}

/// Writes a graph.
pub open spec fn put_graph() -> spec_fn(Result<Seq<u8>, HandoffError>, GraphModel) -> Result<
    Seq<u8>,
    HandoffError,
> {
    |st: Result<Seq<u8>, HandoffError>, g: GraphModel|
        put_list(
            put_edge(),
            put_list(
                put_node(),
                put(put(st, le_bytes(g.graph as nat, 8)), le_bytes(g.instance as nat, 8)),
                g.nodes,
            ),
            g.edges,
        )
}

/// Writes the creation of a library handle.
pub open spec fn put_lib() -> spec_fn(Result<Seq<u8>, HandoffError>, LibModel) -> Result<
    Seq<u8>,
    HandoffError,
> {
    |st: Result<Seq<u8>, HandoffError>, l: LibModel|
        put_blob(
            put(
                put(put(st, seq![l.library]), le_bytes(l.function as nat, 2)),
                le_bytes(l.handle as nat, 8),
            ),
            l.args,
        )
}

/// Writes an operation log.
pub open spec fn put_oplog() -> spec_fn(Result<Seq<u8>, HandoffError>, OplogModel) -> Result<
    Seq<u8>,
    HandoffError,
> {
    |st: Result<Seq<u8>, HandoffError>, o: OplogModel|
        put_list(
            put_bytes(),
            put(put(st, le_bytes(o.graph as nat, 8)), le_bytes(o.instance as nat, 8)),
            o.ops,
        )
}

/// Everything behind the modules.
pub open spec fn put_rest(st: Result<Seq<u8>, HandoffError>, h: HandoffModel) -> Result<
    Seq<u8>,
    HandoffError,
> {
    put_list(
        put_oplog(),
        put_list(
            put_lib(),
            put_list(
                put_graph(),
                put_list(
                    put_flagged(),
                    put_list(put_flagged(), put_list(put_func(), st, h.funcs), h.streams),
                    h.events,
                ),
                h.graphs,
            ),
            h.libs,
        ),
        h.oplogs,
    )
}

/// `MHI2`: the images lie in a store.
pub open spec fn external_magic() -> Seq<u8> {
    seq![0x4du8, 0x48, 0x49, 0x32]
}

/// The message of a handoff with its images.
pub open spec fn handoff_message(modules: Seq<(u64, Seq<u8>)>, rest: HandoffModel) -> Result<
    Seq<u8>,
    HandoffError,
> {
    put_rest(put_list(put_module(), Ok(Seq::empty()), modules), rest)
}

/// The message of a handoff whose images lie in a store.
pub open spec fn stored_message(
    modules: Seq<(u64, Seq<u8>)>,
    ranges: Seq<(u64, u64, u64)>,
    bytes: u64,
    rest: HandoffModel,
) -> Result<Seq<u8>, HandoffError> {
    put_rest(
        put_list(put_stored(ranges, bytes), put(Ok(Seq::empty()), external_magic()), modules),
        rest,
    )
}

/// The four bytes of a count or length, or nothing where it does not fit.
pub fn module_handoff_len(len: usize) -> (r: Result<Vec<u8>, HandoffError>)
    ensures
        match r {
            Ok(b) => len <= u32::MAX && b@ == le_bytes(len as nat, 4),
            Err(e) => len > u32::MAX && e == HandoffError::LengthOverflow,
        },
{
    if len as u64 > 0xffff_ffff {
        return Err(HandoffError::LengthOverflow);
    }
    let mut b: Vec<u8> = Vec::new();
    push_u32(&mut b, len as u32);
    proof { assert(b@ =~= le_bytes(len as nat, 4)); }
    Ok(b)
}

/// A message being written; once something does not fit, it stays failed.
struct HandoffWriter {
    out: Vec<u8>,
    error: Option<HandoffError>,
}

impl View for HandoffWriter {
    type V = Result<Seq<u8>, HandoffError>;

    closed spec fn view(&self) -> Result<Seq<u8>, HandoffError> {
        match self.error {
            Some(e) => Err(e),
            None => Ok(self.out@),
        }
    }
}

impl HandoffWriter {
    fn new() -> (w: Self)
        ensures
            w@ == Ok::<_, HandoffError>(Seq::<u8>::empty()),
    {
        let w = HandoffWriter { out: Vec::new(), error: None };
        proof { assert(w.out@ =~= Seq::<u8>::empty()); }
        w
    }

    fn bytes(&mut self, b: &[u8])
        ensures
            final(self)@ == put(old(self)@, b@),
    {
        if self.error.is_none() {
            let have = self.out.len() as u64;
            let more = b.len() as u64;
            if have > MAX_MODULE_HANDOFF_BLOB_BYTES || more > MAX_MODULE_HANDOFF_BLOB_BYTES - have {
                self.error = Some(HandoffError::TooLarge);
            } else {
                push_bytes(&mut self.out, b);
            }
        }
    }

    fn number(&mut self, v: u64, n: usize)
        ensures
            final(self)@ == put(old(self)@, le_bytes(v as nat, n as nat)),
    {
        let mut b: Vec<u8> = Vec::new();
        push_le(&mut b, v, n);
        proof { assert(b@ =~= le_bytes(v as nat, n as nat)); }
        self.bytes(&b);
    }

    fn len(&mut self, n: usize)
        ensures
            final(self)@ == put_len(old(self)@, n as nat),
    {
        if self.error.is_none() {
            match module_handoff_len(n) {
                Ok(b) => self.bytes(&b),
                Err(e) => {
                    self.error = Some(e);
                },
            }
        }
    }

    fn blob(&mut self, b: &[u8])
        ensures
            final(self)@ == put_blob(old(self)@, b@),
    {
        self.len(b.len());
        self.bytes(b);
    }

    fn blobs(&mut self, v: &Vec<Vec<u8>>)
        ensures
            final(self)@ == put_list(put_bytes(), old(self)@, byte_views(v@)),
    {
        self.len(v.len());
        let ghost start = self@;
        let ghost all = byte_views(v@);
        let mut i: usize = 0;
        proof { assert(all.take(0) =~= Seq::empty()); }
        while i < v.len()
            invariant
                i <= v@.len(),
                all == byte_views(v@),
                self@ == put_each(put_bytes(), start, all.take(i as int)),
            decreases v@.len() - i,
        {
            proof {
                assert(all.take(i + 1).drop_last() =~= all.take(i as int));
                assert(all.take(i + 1).last() == v@[i as int]@);
            }
            self.blob(&v[i]);
            i = i + 1;
        }
        proof { assert(all.take(all.len() as int) =~= all); }
    }

    fn modules(&mut self, v: &Vec<(u64, Vec<u8>)>)
        ensures
            final(self)@ == put_list(put_module(), old(self)@, modules_view(v@)),
    {
        self.len(v.len());
        let ghost start = self@;
        let ghost all = modules_view(v@);
        let mut i: usize = 0;
        proof { assert(all.take(0) =~= Seq::empty()); }
        while i < v.len()
            invariant
                i <= v@.len(),
                all == modules_view(v@),
                self@ == put_each(put_module(), start, all.take(i as int)),
            decreases v@.len() - i,
        {
            proof {
                assert(all.take(i + 1).drop_last() =~= all.take(i as int));
                assert(all.take(i + 1).last() == (v@[i as int].0, v@[i as int].1@));
            }
            self.number(v[i].0, 8);
            self.blob(&v[i].1);
            i = i + 1;
        }
        proof { assert(all.take(all.len() as int) =~= all); }
    }

    fn stored_modules(&mut self, v: &Vec<(u64, Vec<u8>)>, store: &ImageStore)
        ensures
            final(self)@ == put_list(
                put_stored(store.ranges@, store.bytes),
                old(self)@,
                modules_view(v@),
            ),
    {
        self.len(v.len());
        let ghost start = self@;
        let ghost all = modules_view(v@);
        let ghost w = put_stored(store.ranges@, store.bytes);
        let mut i: usize = 0;
        proof { assert(all.take(0) =~= Seq::empty()); }
        while i < v.len()
            invariant
                i <= v@.len(),
                all == modules_view(v@),
                w == put_stored(store.ranges@, store.bytes),
                self@ == put_each(w, start, all.take(i as int)),
            decreases v@.len() - i,
        {
            proof {
                assert(all.take(i + 1).drop_last() =~= all.take(i as int));
                assert(all.take(i + 1).last() == (v@[i as int].0, v@[i as int].1@));
            }
            let handle = v[i].0;
            let size: usize = v[i].1.len();
            self.number(handle, 8);
            if self.error.is_none() {
                match find_range(&store.ranges, handle) {
                    None => {
                        self.error = Some(HandoffError::MissingImage);
                    },
                    Some((offset, len)) => {
                        let fits = match offset.checked_add(len) {
                            Some(end) => end <= store.bytes,
                            None => false,
                        };
                        if len != size as u64 || !fits {
                            self.error = Some(HandoffError::ImageMismatch);
                        } else {
                            self.number(offset, 8);
                            self.len(size);
                        }
                    },
                }
            }
            i = i + 1;
        }
        proof { assert(all.take(all.len() as int) =~= all); }
    }

    fn attrs(&mut self, v: &Vec<(i32, i32)>)
        ensures
            final(self)@ == put_list(put_attr(), old(self)@, v@),
    {
        self.len(v.len());
        let ghost start = self@;
        let mut i: usize = 0;
        proof { assert(v@.take(0) =~= Seq::empty()); }
        while i < v.len()
            invariant
                i <= v@.len(),
                self@ == put_each(put_attr(), start, v@.take(i as int)),
            decreases v@.len() - i,
        {
            proof {
                assert(v@.take(i + 1).drop_last() =~= v@.take(i as int));
                assert(v@.take(i + 1).last() == v@[i as int]);
            }
            self.number(to_bits(v[i].0) as u64, 4);
            self.number(to_bits(v[i].1) as u64, 4);
            i = i + 1;
        }
        proof { assert(v@.take(v@.len() as int) =~= v@); }
    }

    fn funcs(&mut self, v: &Vec<FuncMeta>)
        ensures
            final(self)@ == put_list(put_func(), old(self)@, funcs_view(v@)),
    {
        self.len(v.len());
        let ghost start = self@;
        let ghost all = funcs_view(v@);
        let mut i: usize = 0;
        proof { assert(all.take(0) =~= Seq::empty()); }
        while i < v.len()
            invariant
                i <= v@.len(),
                all == funcs_view(v@),
                self@ == put_each(put_func(), start, all.take(i as int)),
            decreases v@.len() - i,
        {
            proof {
                assert(all.take(i + 1).drop_last() =~= all.take(i as int));
                assert(all.take(i + 1).last() == v@[i as int]@);
            }
            let f = &v[i];
            self.number(f.handle, 8);
            self.number(f.module, 8);
            self.blob(f.name.as_str().as_bytes());
            self.attrs(&f.attrs);
            i = i + 1;
        }
        proof { assert(all.take(all.len() as int) =~= all); }
    }

    fn flagged(&mut self, v: &Vec<(u64, u32)>)
        ensures
            final(self)@ == put_list(put_flagged(), old(self)@, v@),
    {
        self.len(v.len());
        let ghost start = self@;
        let mut i: usize = 0;
        proof { assert(v@.take(0) =~= Seq::empty()); }
        while i < v.len()
            invariant
                i <= v@.len(),
                self@ == put_each(put_flagged(), start, v@.take(i as int)),
            decreases v@.len() - i,
        {
            proof {
                assert(v@.take(i + 1).drop_last() =~= v@.take(i as int));
                assert(v@.take(i + 1).last() == v@[i as int]);
            }
            self.number(v[i].0, 8);
            self.number(v[i].1 as u64, 4);
            i = i + 1;
        }
        proof { assert(v@.take(v@.len() as int) =~= v@); }
    }

    fn nodes(&mut self, v: &Vec<GraphKernelNode>)
        ensures
            final(self)@ == put_list(put_node(), old(self)@, nodes_view(v@)),
    {
        self.len(v.len());
        let ghost start = self@;
        let ghost all = nodes_view(v@);
        let mut i: usize = 0;
        proof { assert(all.take(0) =~= Seq::empty()); }
        while i < v.len()
            invariant
                i <= v@.len(),
                all == nodes_view(v@),
                self@ == put_each(put_node(), start, all.take(i as int)),
            decreases v@.len() - i,
        {
            proof {
                assert(all.take(i + 1).drop_last() =~= all.take(i as int));
                assert(all.take(i + 1).last() == v@[i as int]@);
            }
            let n = &v[i];
            let mut head: Vec<u8> = Vec::new();
            push_u64(&mut head, n.func);
            push_u32(&mut head, n.grid.0);
            push_u32(&mut head, n.grid.1);
            push_u32(&mut head, n.grid.2);
            push_u32(&mut head, n.block.0);
            push_u32(&mut head, n.block.1);
            push_u32(&mut head, n.block.2);
            push_u32(&mut head, n.shared_mem);
            proof { assert(head@ =~= node_head(n@)); }
            self.bytes(&head);
            self.blobs(&n.params);
            i = i + 1;
        }
        proof { assert(all.take(all.len() as int) =~= all); }
    }

    fn edges(&mut self, v: &Vec<(u32, u32)>)
        ensures
            final(self)@ == put_list(put_edge(), old(self)@, v@),
    {
        self.len(v.len());
        let ghost start = self@;
        let mut i: usize = 0;
        proof { assert(v@.take(0) =~= Seq::empty()); }
        while i < v.len()
            invariant
                i <= v@.len(),
                self@ == put_each(put_edge(), start, v@.take(i as int)),
            decreases v@.len() - i,
        {
            proof {
                assert(v@.take(i + 1).drop_last() =~= v@.take(i as int));
                assert(v@.take(i + 1).last() == v@[i as int]);
            }
            self.number(v[i].0 as u64, 4);
            self.number(v[i].1 as u64, 4);
            i = i + 1;
        }
        proof { assert(v@.take(v@.len() as int) =~= v@); }
    }

    fn graphs(&mut self, v: &Vec<GraphSer>)
        ensures
            final(self)@ == put_list(put_graph(), old(self)@, graphs_view(v@)),
    {
        self.len(v.len());
        let ghost start = self@;
        let ghost all = graphs_view(v@);
        let mut i: usize = 0;
        proof { assert(all.take(0) =~= Seq::empty()); }
        while i < v.len()
            invariant
                i <= v@.len(),
                all == graphs_view(v@),
                self@ == put_each(put_graph(), start, all.take(i as int)),
            decreases v@.len() - i,
        {
            proof {
                assert(all.take(i + 1).drop_last() =~= all.take(i as int));
                assert(all.take(i + 1).last() == v@[i as int]@);
            }
            let g = &v[i];
            self.number(g.graph, 8);
            self.number(g.instance, 8);
            self.nodes(&g.nodes);
            self.edges(&g.edges);
            i = i + 1;
        }
        proof { assert(all.take(all.len() as int) =~= all); }
    }

    fn libs(&mut self, v: &Vec<LibHandle>)
        ensures
            final(self)@ == put_list(put_lib(), old(self)@, libs_view(v@)),
    {
        self.len(v.len());
        let ghost start = self@;
        let ghost all = libs_view(v@);
        let mut i: usize = 0;
        proof { assert(all.take(0) =~= Seq::empty()); }
        while i < v.len()
            invariant
                i <= v@.len(),
                all == libs_view(v@),
                self@ == put_each(put_lib(), start, all.take(i as int)),
            decreases v@.len() - i,
        {
            proof {
                assert(all.take(i + 1).drop_last() =~= all.take(i as int));
                assert(all.take(i + 1).last() == v@[i as int]@);
            }
            let l = &v[i];
            let one: Vec<u8> = vec![l.library];
            proof { assert(one@ =~= seq![l.library]); }
            self.bytes(&one);
            self.number(l.function as u64, 2);
            self.number(l.handle, 8);
            self.blob(&l.args);
            i = i + 1;
        }
        proof { assert(all.take(all.len() as int) =~= all); }
    }

    fn oplogs(&mut self, v: &Vec<GraphOplog>)
        ensures
            final(self)@ == put_list(put_oplog(), old(self)@, oplogs_view(v@)),
    {
        self.len(v.len());
        let ghost start = self@;
        let ghost all = oplogs_view(v@);
        let mut i: usize = 0;
        proof { assert(all.take(0) =~= Seq::empty()); }
        while i < v.len()
            invariant
                i <= v@.len(),
                all == oplogs_view(v@),
                self@ == put_each(put_oplog(), start, all.take(i as int)),
            decreases v@.len() - i,
        {
            proof {
                assert(all.take(i + 1).drop_last() =~= all.take(i as int));
                assert(all.take(i + 1).last() == v@[i as int]@);
            }
            let o = &v[i];
            self.number(o.graph, 8);
            self.number(o.instance, 8);
            self.blobs(&o.ops);
            i = i + 1;
        }
        proof { assert(all.take(all.len() as int) =~= all); }
    }

    fn rest(&mut self, h: &ModuleHandoff)
        ensures
            final(self)@ == put_rest(old(self)@, h.rest()),
    {
        self.funcs(&h.funcs);
        self.flagged(&h.streams);
        self.flagged(&h.events);
        self.graphs(&h.graphs);
        self.libs(&h.libs);
        self.oplogs(&h.oplogs);
    }

    fn finish(self) -> (r: Result<Vec<u8>, HandoffError>)
        ensures
            match r {
                Ok(b) => self@ == Ok::<_, HandoffError>(b@),
                Err(e) => self@ == Err::<Seq<u8>, _>(e),
            },
    {
        match self.error {
            Some(e) => Err(e),
            None => Ok(self.out),
        }
    }
}

fn find_range(ranges: &[(u64, u64, u64)], handle: u64) -> (r: Option<(u64, u64)>)
    ensures
        r == range_of(ranges@, handle, 0),
{
    let mut i: usize = 0;
    while i < ranges.len()
        invariant
            i <= ranges@.len(),
            range_of(ranges@, handle, 0) == range_of(ranges@, handle, i as int),
        decreases ranges@.len() - i,
    {
        if ranges[i].0 == handle {
            return Some((ranges[i].1, ranges[i].2));
        }
        i = i + 1;
    }
    None
}

/// Writes a handoff, with its images in the message or, where there is one, in
/// their store.
pub fn write_module_handoff(h: &ModuleHandoff, store: Option<&ImageStore>) -> (r: Result<
    Vec<u8>,
    HandoffError,
>)
    ensures
        ({
            let message = match store {
                Some(s) => stored_message(modules_view(h.modules@), s.ranges@, s.bytes, h.rest()),
                None => handoff_message(modules_view(h.modules@), h.rest()),
            };
            match r {
                Ok(b) => message == Ok::<_, HandoffError>(b@),
                Err(e) => message == Err::<Seq<u8>, _>(e),
            }
        }),
{
    let mut w = HandoffWriter::new();
    match store {
        Some(s) => {
            let magic: Vec<u8> = vec![0x4d, 0x48, 0x49, 0x32];
            proof { assert(magic@ =~= external_magic()); }
            w.bytes(&magic);
            w.stored_modules(&h.modules, s);
        },
        None => w.modules(&h.modules),
    }
    w.rest(h);
    w.finish()
}

} // verus!
