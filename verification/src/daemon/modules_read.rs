//! Reading a module handoff, and what reading one back gives.
use crate::daemon::modules::{
    FuncMeta, FuncModel, GraphKernelNode, GraphModel, GraphOplog, GraphSer, HandoffModel,
    HandoffReadError, ImageRef, LibHandle, LibModel, NodeModel, OplogModel, ReceivedHandoff,
    external_magic, funcs_view, graphs_view, libs_view, nodes_view, oplogs_view, signed_of,
    to_signed,
};
use crate::daemon::tensor::byte_views;
use crate::text::{lossy_text, text_lossy};
use crate::wire::{
    byte_range, byte_stretch, bytes_at, le_at, lemma_byte_range, read_le, read_u32, read_u64,
};
use vstd::prelude::*;

verus! {

// ---------------------------------------------------------------------------
// The grammar
// ---------------------------------------------------------------------------

/// A number of `n` bytes at `p`.
pub open spec fn get_number(b: Seq<u8>, p: int, n: int) -> Result<(nat, int), HandoffReadError> {
    if p + n > b.len() {
        Err(HandoffReadError::Truncated)
    } else {
        Ok((le_at(b, p, n), p + n))
    }
}

/// `n` bytes at `p`.
pub open spec fn get_bytes(b: Seq<u8>, p: int, n: int) -> Result<(Seq<u8>, int), HandoffReadError> {
    if p + n > b.len() {
        Err(HandoffReadError::Truncated)
    } else {
        Ok((b.subrange(p, p + n), p + n))
    }
}

/// A length and that many bytes.
pub open spec fn get_blob() -> spec_fn(Seq<u8>, int) -> Result<(Seq<u8>, int), HandoffReadError> {
    |b: Seq<u8>, p: int|
        match get_number(b, p, 4) {
            Err(e) => Err(e),
            Ok((n, q)) => get_bytes(b, q, n as int),
        }
}

/// `n` elements, each read by `elem`.
pub open spec fn get_each<T>(
    elem: spec_fn(Seq<u8>, int) -> Result<(T, int), HandoffReadError>,
    b: Seq<u8>,
    p: int,
    n: nat,
) -> Result<(Seq<T>, int), HandoffReadError>
    decreases n,
{
    if n == 0 {
        Ok((Seq::empty(), p))
    } else {
        match get_each(elem, b, p, (n - 1) as nat) {
            Err(e) => Err(e),
            Ok((v, q)) => match elem(b, q) {
                Err(e) => Err(e),
                Ok((x, r)) => Ok((v.push(x), r)),
            },
        }
    }
}

/// A count and that many elements.
pub open spec fn get_list<T>(
    elem: spec_fn(Seq<u8>, int) -> Result<(T, int), HandoffReadError>,
    b: Seq<u8>,
    p: int,
) -> Result<(Seq<T>, int), HandoffReadError> {
    match get_number(b, p, 4) {
        Err(e) => Err(e),
        Ok((n, q)) => get_each(elem, b, q, n),
    }
}

/// A list, if bytes are left.
pub open spec fn get_optional<T>(
    elem: spec_fn(Seq<u8>, int) -> Result<(T, int), HandoffReadError>,
    b: Seq<u8>,
    p: int,
) -> Result<(Seq<T>, int), HandoffReadError> {
    if p < b.len() {
        get_list(elem, b, p)
    } else {
        Ok((Seq::empty(), p))
    }
}

/// A module with its image.
pub open spec fn get_module() -> spec_fn(Seq<u8>, int) -> Result<
    ((u64, Seq<u8>), int),
    HandoffReadError,
> {
    |b: Seq<u8>, p: int|
        match get_number(b, p, 8) {
            Err(e) => Err(e),
            Ok((h, q)) => match get_blob()(b, q) {
                Err(e) => Err(e),
                Ok((image, r)) => Ok(((h as u64, image), r)),
            },
        }
}

/// A module whose image lies in a store of the given length.
pub open spec fn get_stored(store: u64) -> spec_fn(Seq<u8>, int) -> Result<
    (ImageRef, int),
    HandoffReadError,
> {
    |b: Seq<u8>, p: int|
        match get_number(b, p, 8) {
            Err(e) => Err(e),
            Ok((h, q)) => match get_number(b, q, 8) {
                Err(e) => Err(e),
                Ok((offset, r)) => match get_number(b, r, 4) {
                    Err(e) => Err(e),
                    Ok((len, t)) => if offset + len > store {
                        Err(HandoffReadError::OutsideStore)
                    } else {
                        Ok(
                            (
                                ImageRef {
                                    handle: h as u64,
                                    offset: offset as u64,
                                    len: len as u32,
                                },
                                t,
                            ),
                        )
                    },
                },
            },
        }
}

/// An attribute.
pub open spec fn get_attr() -> spec_fn(Seq<u8>, int) -> Result<((i32, i32), int), HandoffReadError> {
    |b: Seq<u8>, p: int|
        match get_number(b, p, 4) {
            Err(e) => Err(e),
            Ok((x, q)) => match get_number(b, q, 4) {
                Err(e) => Err(e),
                Ok((y, r)) => Ok(((signed_of(x as u32), signed_of(y as u32)), r)),
            },
        }
}

/// A function.
pub open spec fn get_func() -> spec_fn(Seq<u8>, int) -> Result<(FuncModel, int), HandoffReadError> {
    |b: Seq<u8>, p: int|
        match get_number(b, p, 8) {
            Err(e) => Err(e),
            Ok((handle, q)) => match get_number(b, q, 8) {
                Err(e) => Err(e),
                Ok((module, r)) => match get_blob()(b, r) {
                    Err(e) => Err(e),
                    Ok((name, s)) => match get_list(get_attr(), b, s) {
                        Err(e) => Err(e),
                        Ok((attrs, t)) => Ok(
                            (
                                FuncModel {
                                    handle: handle as u64,
                                    module: module as u64,
                                    name: name_of(name),
                                    attrs,
                                },
                                t,
                            ),
                        ),
                    },
                },
            },
        }
}

/// A stream or an event.
pub open spec fn get_flagged() -> spec_fn(Seq<u8>, int) -> Result<
    ((u64, u32), int),
    HandoffReadError,
> {
    |b: Seq<u8>, p: int|
        match get_number(b, p, 8) {
            Err(e) => Err(e),
            Ok((x, q)) => match get_number(b, q, 4) {
                Err(e) => Err(e),
                Ok((y, r)) => Ok(((x as u64, y as u32), r)),
            },
        }
}

/// A node. Its numbers come first; where they are cut off, so is the node.
pub open spec fn get_node() -> spec_fn(Seq<u8>, int) -> Result<(NodeModel, int), HandoffReadError> {
    |b: Seq<u8>, p: int|
        if p + 36 > b.len() {
            Err(HandoffReadError::Truncated)
        } else {
            match get_list(get_blob(), b, p + 36) {
                Err(e) => Err(e),
                Ok((params, q)) => Ok(
                    (
                        NodeModel {
                            func: le_at(b, p, 8) as u64,
                            grid: (
                                le_at(b, p + 8, 4) as u32,
                                le_at(b, p + 12, 4) as u32,
                                le_at(b, p + 16, 4) as u32,
                            ),
                            block: (
                                le_at(b, p + 20, 4) as u32,
                                le_at(b, p + 24, 4) as u32,
                                le_at(b, p + 28, 4) as u32,
                            ),
                            shared_mem: le_at(b, p + 32, 4) as u32,
                            params,
                        },
                        q,
                    ),
                ),
            }
        }
}

/// An edge.
pub open spec fn get_edge() -> spec_fn(Seq<u8>, int) -> Result<((u32, u32), int), HandoffReadError> {
    |b: Seq<u8>, p: int|
        match get_number(b, p, 4) {
            Err(e) => Err(e),
            Ok((x, q)) => match get_number(b, q, 4) {
                Err(e) => Err(e),
                Ok((y, r)) => Ok(((x as u32, y as u32), r)),
            },
        }
}

/// A graph.
pub open spec fn get_graph() -> spec_fn(Seq<u8>, int) -> Result<
    (GraphModel, int),
    HandoffReadError,
> {
    |b: Seq<u8>, p: int|
        match get_number(b, p, 8) {
            Err(e) => Err(e),
            Ok((graph, q)) => match get_number(b, q, 8) {
                Err(e) => Err(e),
                Ok((instance, r)) => match get_list(get_node(), b, r) {
                    Err(e) => Err(e),
                    Ok((nodes, s)) => match get_list(get_edge(), b, s) {
                        Err(e) => Err(e),
                        Ok((edges, t)) => Ok(
                            (
                                GraphModel {
                                    graph: graph as u64,
                                    instance: instance as u64,
                                    nodes,
                                    edges,
                                },
                                t,
                            ),
                        ),
                    },
                },
            },
        }
}

/// The creation of a library handle.
pub open spec fn get_lib() -> spec_fn(Seq<u8>, int) -> Result<(LibModel, int), HandoffReadError> {
    |b: Seq<u8>, p: int|
        match get_number(b, p, 1) {
            Err(e) => Err(e),
            Ok((library, q)) => match get_number(b, q, 2) {
                Err(e) => Err(e),
                Ok((function, r)) => match get_number(b, r, 8) {
                    Err(e) => Err(e),
                    Ok((handle, s)) => match get_blob()(b, s) {
                        Err(e) => Err(e),
                        Ok((args, t)) => Ok(
                            (
                                LibModel {
                                    library: library as u8,
                                    function: function as u16,
                                    handle: handle as u64,
                                    args,
                                },
                                t,
                            ),
                        ),
                    },
                },
            },
        }
}

/// An operation log.
pub open spec fn get_oplog() -> spec_fn(Seq<u8>, int) -> Result<
    (OplogModel, int),
    HandoffReadError,
> {
    |b: Seq<u8>, p: int|
        match get_number(b, p, 8) {
            Err(e) => Err(e),
            Ok((graph, q)) => match get_number(b, q, 8) {
                Err(e) => Err(e),
                Ok((instance, r)) => match get_list(get_blob(), b, r) {
                    Err(e) => Err(e),
                    Ok((ops, t)) => Ok(
                        (
                            OplogModel {
                                graph: graph as u64,
                                instance: instance as u64,
                                ops,
                            },
                            t,
                        ),
                    ),
                },
            },
        }
}

/// Everything behind the modules.
pub open spec fn get_rest(b: Seq<u8>, p: int) -> Result<HandoffModel, HandoffReadError> {
    match get_list(get_func(), b, p) {
        Err(e) => Err(e),
        Ok((funcs, p1)) => match get_list(get_flagged(), b, p1) {
            Err(e) => Err(e),
            Ok((streams, p2)) => match get_list(get_flagged(), b, p2) {
                Err(e) => Err(e),
                Ok((events, p3)) => match get_optional(get_graph(), b, p3) {
                    Err(e) => Err(e),
                    Ok((graphs, p4)) => match get_optional(get_lib(), b, p4) {
                        Err(e) => Err(e),
                        Ok((libs, p5)) => match get_optional(get_oplog(), b, p5) {
                            Err(e) => Err(e),
                            Ok((oplogs, p6)) => Ok(
                                HandoffModel { funcs, streams, events, graphs, libs, oplogs },
                            ),
                        },
                    },
                },
            },
        },
    }
}

/// Whether a message keeps its images in a store.
pub open spec fn uses_store(b: Seq<u8>) -> bool {
    b.len() >= 4 && b.subrange(0, 4) == external_magic()
}

/// The modules of a message with their images, and the rest.
pub open spec fn parsed_handoff(b: Seq<u8>) -> Result<
    (Seq<(u64, Seq<u8>)>, HandoffModel),
    HandoffReadError,
> {
    match get_list(get_module(), b, 0) {
        Err(e) => Err(e),
        Ok((modules, p)) => match get_rest(b, p) {
            Err(e) => Err(e),
            Ok(rest) => Ok((modules, rest)),
        },
    }
}

/// The places of the images of a message in a store of the given length, and the
/// rest.
pub open spec fn parsed_stored_handoff(b: Seq<u8>, store: u64) -> Result<
    (Seq<ImageRef>, HandoffModel),
    HandoffReadError,
> {
    match get_list(get_stored(store), b, 4) {
        Err(e) => Err(e),
        Ok((images, p)) => match get_rest(b, p) {
            Err(e) => Err(e),
            Ok(rest) => Ok((images, rest)),
        },
    }
}

// ---------------------------------------------------------------------------
// Reading
// ---------------------------------------------------------------------------

/// The name that bytes encode: their text where they are UTF-8.
pub open spec fn name_of(bytes: Seq<u8>) -> Seq<char> {
    if vstd::utf8::valid_utf8(bytes) {
        vstd::utf8::decode_utf8(bytes)
    } else {
        lossy_text(bytes)
    }
}

proof fn lemma_each_fails<T>(
    elem: spec_fn(Seq<u8>, int) -> Result<(T, int), HandoffReadError>,
    b: Seq<u8>,
    p: int,
    m: nat,
    n: nat,
    e: HandoffReadError,
)
    requires
        m <= n,
        get_each(elem, b, p, m) == Err::<(Seq<T>, int), _>(e),
    ensures
        get_each(elem, b, p, n) == Err::<(Seq<T>, int), _>(e),
    decreases n,
{
    if m < n {
        lemma_each_fails(elem, b, p, m, (n - 1) as nat, e);
    }
}

fn take_number(b: &[u8], p: usize, n: usize) -> (r: Result<(u64, usize), HandoffReadError>)
    requires
        p <= b@.len(),
        n <= 8,
    ensures
        match r {
            Ok((v, q)) => get_number(b@, p as int, n as int) == Ok::<_, HandoffReadError>(
                (v as nat, q as int),
            ) && q == p + n && q <= b@.len() && v < byte_range(n as nat),
            Err(e) => get_number(b@, p as int, n as int) == Err::<(nat, int), _>(e),
        },
{
    let size: usize = b.len();
    if n > size - p {
        Err(HandoffReadError::Truncated)
    } else {
        Ok((read_le(b, p, n), p + n))
    }
}

fn take_u32(b: &[u8], p: usize) -> (r: Result<(u32, usize), HandoffReadError>)
    requires
        p <= b@.len(),
    ensures
        match r {
            Ok((v, q)) => get_number(b@, p as int, 4) == Ok::<_, HandoffReadError>(
                (v as nat, q as int),
            ) && q == p + 4 && q <= b@.len(),
            Err(e) => get_number(b@, p as int, 4) == Err::<(nat, int), _>(e),
        },
{
    match take_number(b, p, 4) {
        Ok((v, q)) => {
            proof { lemma_byte_range(); }
            Ok((v as u32, q))
        },
        Err(e) => Err(e),
    }
}

fn take_u64(b: &[u8], p: usize) -> (r: Result<(u64, usize), HandoffReadError>)
    requires
        p <= b@.len(),
    ensures
        match r {
            Ok((v, q)) => get_number(b@, p as int, 8) == Ok::<_, HandoffReadError>(
                (v as nat, q as int),
            ) && q == p + 8 && q <= b@.len(),
            Err(e) => get_number(b@, p as int, 8) == Err::<(nat, int), _>(e),
        },
{
    take_number(b, p, 8)
}

/// A length and the place of that many bytes.
fn take_span(b: &[u8], p: usize) -> (r: Result<(usize, usize), HandoffReadError>)
    requires
        p <= b@.len(),
    ensures
        match r {
            Ok((from, to)) => get_blob()(b@, p as int) == Ok::<_, HandoffReadError>(
                (b@.subrange(from as int, to as int), to as int),
            ) && p + 4 == from && from <= to <= b@.len() && to - from <= u32::MAX,
            Err(e) => get_blob()(b@, p as int) == Err::<(Seq<u8>, int), _>(e),
        },
{
    match take_u32(b, p) {
        Err(e) => Err(e),
        Ok((n, q)) => {
            let size: usize = b.len();
            if n as usize > size - q {
                Err(HandoffReadError::Truncated)
            } else {
                Ok((q, q + n as usize))
            }
        },
    }
}

fn take_blob(b: &[u8], p: usize) -> (r: Result<(Vec<u8>, usize), HandoffReadError>)
    requires
        p <= b@.len(),
    ensures
        match r {
            Ok((v, q)) => get_blob()(b@, p as int) == Ok::<_, HandoffReadError>((v@, q as int))
                && q <= b@.len(),
            Err(e) => get_blob()(b@, p as int) == Err::<(Seq<u8>, int), _>(e),
        },
{
    match take_span(b, p) {
        Err(e) => Err(e),
        Ok((from, to)) => Ok((byte_stretch(b, from, to), to)),
    }
}

fn take_attr(b: &[u8], p: usize) -> (r: Result<((i32, i32), usize), HandoffReadError>)
    requires
        p <= b@.len(),
    ensures
        match r {
            Ok((x, q)) => get_attr()(b@, p as int) == Ok::<_, HandoffReadError>((x, q as int))
                && q <= b@.len(),
            Err(e) => get_attr()(b@, p as int) == Err::<((i32, i32), int), _>(e),
        },
{
    let (x, q) = match take_u32(b, p) {
        Ok(x) => x,
        Err(e) => {
            return Err(e);
        },
    };
    match take_u32(b, q) {
        Ok((y, r)) => Ok(((to_signed(x), to_signed(y)), r)),
        Err(e) => Err(e),
    }
}

fn take_attrs(b: &[u8], p: usize) -> (r: Result<(Vec<(i32, i32)>, usize), HandoffReadError>)
    requires
        p <= b@.len(),
    ensures
        match r {
            Ok((v, q)) => get_list(get_attr(), b@, p as int) == Ok::<_, HandoffReadError>(
                (v@, q as int),
            ) && q <= b@.len(),
            Err(e) => get_list(get_attr(), b@, p as int) == Err::<(Seq<(i32, i32)>, int), _>(e),
        },
{
    let (n, start) = match take_u32(b, p) {
        Ok(x) => x,
        Err(e) => {
            return Err(e);
        },
    };
    let ghost elem = get_attr();
    let mut v: Vec<(i32, i32)> = Vec::new();
    let mut q: usize = start;
    let mut i: u32 = 0;
    proof { assert(v@ =~= Seq::empty()); }
    while i < n
        invariant
            i <= n,
            q <= b@.len(),
            elem == get_attr(),
            get_number(b@, p as int, 4) == Ok::<_, HandoffReadError>((n as nat, start as int)),
            get_each(elem, b@, start as int, i as nat) == Ok::<_, HandoffReadError>(
                (v@, q as int),
            ),
        decreases n - i,
    {
        let ghost before = v@;
        match take_attr(b, q) {
            Ok((x, t)) => {
                let ghost y = x;
                v.push(x);
                q = t;
                proof { assert(v@ =~= before.push(y)); }
            },
            Err(e) => {
                proof {
                    assert(get_each(elem, b@, start as int, (i + 1) as nat) == Err::<
                        (Seq<(i32, i32)>, int),
                        _,
                    >(e));
                    lemma_each_fails(elem, b@, start as int, (i + 1) as nat, n as nat, e);
                }
                return Err(e);
            },
        }
        i = i + 1;
    }
    Ok((v, q))
}

fn take_func(b: &[u8], p: usize) -> (r: Result<(FuncMeta, usize), HandoffReadError>)
    requires
        p <= b@.len(),
    ensures
        match r {
            Ok((x, q)) => get_func()(b@, p as int) == Ok::<_, HandoffReadError>((x@, q as int))
                && q <= b@.len(),
            Err(e) => get_func()(b@, p as int) == Err::<(FuncModel, int), _>(e),
        },
{
    let (handle, q) = match take_u64(b, p) {
        Ok(x) => x,
        Err(e) => {
            return Err(e);
        },
    };
    let (module, r) = match take_u64(b, q) {
        Ok(x) => x,
        Err(e) => {
            return Err(e);
        },
    };
    let (name, s) = match take_blob(b, r) {
        Ok(x) => x,
        Err(e) => {
            return Err(e);
        },
    };
    match take_attrs(b, s) {
        Ok((attrs, t)) => Ok((FuncMeta { handle, module, name: text_lossy(&name), attrs }, t)),
        Err(e) => Err(e),
    }
}

fn take_funcs(b: &[u8], p: usize) -> (r: Result<(Vec<FuncMeta>, usize), HandoffReadError>)
    requires
        p <= b@.len(),
    ensures
        match r {
            Ok((v, q)) => get_list(get_func(), b@, p as int) == Ok::<_, HandoffReadError>(
                (funcs_view(v@), q as int),
            ) && q <= b@.len(),
            Err(e) => get_list(get_func(), b@, p as int) == Err::<(Seq<FuncModel>, int), _>(e),
        },
{
    let (n, start) = match take_u32(b, p) {
        Ok(x) => x,
        Err(e) => {
            return Err(e);
        },
    };
    let ghost elem = get_func();
    let mut v: Vec<FuncMeta> = Vec::new();
    let mut q: usize = start;
    let mut i: u32 = 0;
    proof { assert(funcs_view(v@) =~= Seq::empty()); }
    while i < n
        invariant
            i <= n,
            q <= b@.len(),
            elem == get_func(),
            get_number(b@, p as int, 4) == Ok::<_, HandoffReadError>((n as nat, start as int)),
            get_each(elem, b@, start as int, i as nat) == Ok::<_, HandoffReadError>(
                (funcs_view(v@), q as int),
            ),
        decreases n - i,
    {
        let ghost before = funcs_view(v@);
        match take_func(b, q) {
            Ok((x, t)) => {
                let ghost y = x@;
                v.push(x);
                q = t;
                proof { assert(funcs_view(v@) =~= before.push(y)); }
            },
            Err(e) => {
                proof {
                    assert(get_each(elem, b@, start as int, (i + 1) as nat) == Err::<
                        (Seq<FuncModel>, int),
                        _,
                    >(e));
                    lemma_each_fails(elem, b@, start as int, (i + 1) as nat, n as nat, e);
                }
                return Err(e);
            },
        }
        i = i + 1;
    }
    Ok((v, q))
}

fn take_flag(b: &[u8], p: usize) -> (r: Result<((u64, u32), usize), HandoffReadError>)
    requires
        p <= b@.len(),
    ensures
        match r {
            Ok((x, q)) => get_flagged()(b@, p as int) == Ok::<_, HandoffReadError>((x, q as int))
                && q <= b@.len(),
            Err(e) => get_flagged()(b@, p as int) == Err::<((u64, u32), int), _>(e),
        },
{
    let (x, q) = match take_u64(b, p) {
        Ok(x) => x,
        Err(e) => {
            return Err(e);
        },
    };
    match take_u32(b, q) {
        Ok((y, r)) => Ok(((x, y), r)),
        Err(e) => Err(e),
    }
}

fn take_flags(b: &[u8], p: usize) -> (r: Result<(Vec<(u64, u32)>, usize), HandoffReadError>)
    requires
        p <= b@.len(),
    ensures
        match r {
            Ok((v, q)) => get_list(get_flagged(), b@, p as int) == Ok::<_, HandoffReadError>(
                (v@, q as int),
            ) && q <= b@.len(),
            Err(e) => get_list(get_flagged(), b@, p as int) == Err::<(Seq<(u64, u32)>, int), _>(e),
        },
{
    let (n, start) = match take_u32(b, p) {
        Ok(x) => x,
        Err(e) => {
            return Err(e);
        },
    };
    let ghost elem = get_flagged();
    let mut v: Vec<(u64, u32)> = Vec::new();
    let mut q: usize = start;
    let mut i: u32 = 0;
    proof { assert(v@ =~= Seq::empty()); }
    while i < n
        invariant
            i <= n,
            q <= b@.len(),
            elem == get_flagged(),
            get_number(b@, p as int, 4) == Ok::<_, HandoffReadError>((n as nat, start as int)),
            get_each(elem, b@, start as int, i as nat) == Ok::<_, HandoffReadError>(
                (v@, q as int),
            ),
        decreases n - i,
    {
        let ghost before = v@;
        match take_flag(b, q) {
            Ok((x, t)) => {
                let ghost y = x;
                v.push(x);
                q = t;
                proof { assert(v@ =~= before.push(y)); }
            },
            Err(e) => {
                proof {
                    assert(get_each(elem, b@, start as int, (i + 1) as nat) == Err::<
                        (Seq<(u64, u32)>, int),
                        _,
                    >(e));
                    lemma_each_fails(elem, b@, start as int, (i + 1) as nat, n as nat, e);
                }
                return Err(e);
            },
        }
        i = i + 1;
    }
    Ok((v, q))
}

fn take_blobs(b: &[u8], p: usize) -> (r: Result<(Vec<Vec<u8>>, usize), HandoffReadError>)
    requires
        p <= b@.len(),
    ensures
        match r {
            Ok((v, q)) => get_list(get_blob(), b@, p as int) == Ok::<_, HandoffReadError>(
                (byte_views(v@), q as int),
            ) && q <= b@.len(),
            Err(e) => get_list(get_blob(), b@, p as int) == Err::<(Seq<Seq<u8>>, int), _>(e),
        },
{
    let (n, start) = match take_u32(b, p) {
        Ok(x) => x,
        Err(e) => {
            return Err(e);
        },
    };
    let ghost elem = get_blob();
    let mut v: Vec<Vec<u8>> = Vec::new();
    let mut q: usize = start;
    let mut i: u32 = 0;
    proof { assert(byte_views(v@) =~= Seq::empty()); }
    while i < n
        invariant
            i <= n,
            q <= b@.len(),
            elem == get_blob(),
            get_number(b@, p as int, 4) == Ok::<_, HandoffReadError>((n as nat, start as int)),
            get_each(elem, b@, start as int, i as nat) == Ok::<_, HandoffReadError>(
                (byte_views(v@), q as int),
            ),
        decreases n - i,
    {
        let ghost before = byte_views(v@);
        match take_blob(b, q) {
            Ok((x, t)) => {
                let ghost y = x@;
                v.push(x);
                q = t;
                proof { assert(byte_views(v@) =~= before.push(y)); }
            },
            Err(e) => {
                proof {
                    assert(get_each(elem, b@, start as int, (i + 1) as nat) == Err::<
                        (Seq<Seq<u8>>, int),
                        _,
                    >(e));
                    lemma_each_fails(elem, b@, start as int, (i + 1) as nat, n as nat, e);
                }
                return Err(e);
            },
        }
        i = i + 1;
    }
    Ok((v, q))
}

fn take_node(b: &[u8], p: usize) -> (r: Result<(GraphKernelNode, usize), HandoffReadError>)
    requires
        p <= b@.len(),
    ensures
        match r {
            Ok((x, q)) => get_node()(b@, p as int) == Ok::<_, HandoffReadError>((x@, q as int))
                && q <= b@.len(),
            Err(e) => get_node()(b@, p as int) == Err::<(NodeModel, int), _>(e),
        },
{
    let size: usize = b.len();
    if size - p < 36 {
        return Err(HandoffReadError::Truncated);
    }
    let func = read_u64(b, p);
    let grid = (read_u32(b, p + 8), read_u32(b, p + 12), read_u32(b, p + 16));
    let block = (read_u32(b, p + 20), read_u32(b, p + 24), read_u32(b, p + 28));
    let shared_mem = read_u32(b, p + 32);
    match take_blobs(b, p + 36) {
        Ok((params, q)) => Ok((GraphKernelNode { func, grid, block, shared_mem, params }, q)),
        Err(e) => Err(e),
    }
}

fn take_nodes(b: &[u8], p: usize) -> (r: Result<(Vec<GraphKernelNode>, usize), HandoffReadError>)
    requires
        p <= b@.len(),
    ensures
        match r {
            Ok((v, q)) => get_list(get_node(), b@, p as int) == Ok::<_, HandoffReadError>(
                (nodes_view(v@), q as int),
            ) && q <= b@.len(),
            Err(e) => get_list(get_node(), b@, p as int) == Err::<(Seq<NodeModel>, int), _>(e),
        },
{
    let (n, start) = match take_u32(b, p) {
        Ok(x) => x,
        Err(e) => {
            return Err(e);
        },
    };
    let ghost elem = get_node();
    let mut v: Vec<GraphKernelNode> = Vec::new();
    let mut q: usize = start;
    let mut i: u32 = 0;
    proof { assert(nodes_view(v@) =~= Seq::empty()); }
    while i < n
        invariant
            i <= n,
            q <= b@.len(),
            elem == get_node(),
            get_number(b@, p as int, 4) == Ok::<_, HandoffReadError>((n as nat, start as int)),
            get_each(elem, b@, start as int, i as nat) == Ok::<_, HandoffReadError>(
                (nodes_view(v@), q as int),
            ),
        decreases n - i,
    {
        let ghost before = nodes_view(v@);
        match take_node(b, q) {
            Ok((x, t)) => {
                let ghost y = x@;
                v.push(x);
                q = t;
                proof { assert(nodes_view(v@) =~= before.push(y)); }
            },
            Err(e) => {
                proof {
                    assert(get_each(elem, b@, start as int, (i + 1) as nat) == Err::<
                        (Seq<NodeModel>, int),
                        _,
                    >(e));
                    lemma_each_fails(elem, b@, start as int, (i + 1) as nat, n as nat, e);
                }
                return Err(e);
            },
        }
        i = i + 1;
    }
    Ok((v, q))
}

fn take_edge(b: &[u8], p: usize) -> (r: Result<((u32, u32), usize), HandoffReadError>)
    requires
        p <= b@.len(),
    ensures
        match r {
            Ok((x, q)) => get_edge()(b@, p as int) == Ok::<_, HandoffReadError>((x, q as int))
                && q <= b@.len(),
            Err(e) => get_edge()(b@, p as int) == Err::<((u32, u32), int), _>(e),
        },
{
    let (x, q) = match take_u32(b, p) {
        Ok(x) => x,
        Err(e) => {
            return Err(e);
        },
    };
    match take_u32(b, q) {
        Ok((y, r)) => Ok(((x, y), r)),
        Err(e) => Err(e),
    }
}

fn take_edges(b: &[u8], p: usize) -> (r: Result<(Vec<(u32, u32)>, usize), HandoffReadError>)
    requires
        p <= b@.len(),
    ensures
        match r {
            Ok((v, q)) => get_list(get_edge(), b@, p as int) == Ok::<_, HandoffReadError>(
                (v@, q as int),
            ) && q <= b@.len(),
            Err(e) => get_list(get_edge(), b@, p as int) == Err::<(Seq<(u32, u32)>, int), _>(e),
        },
{
    let (n, start) = match take_u32(b, p) {
        Ok(x) => x,
        Err(e) => {
            return Err(e);
        },
    };
    let ghost elem = get_edge();
    let mut v: Vec<(u32, u32)> = Vec::new();
    let mut q: usize = start;
    let mut i: u32 = 0;
    proof { assert(v@ =~= Seq::empty()); }
    while i < n
        invariant
            i <= n,
            q <= b@.len(),
            elem == get_edge(),
            get_number(b@, p as int, 4) == Ok::<_, HandoffReadError>((n as nat, start as int)),
            get_each(elem, b@, start as int, i as nat) == Ok::<_, HandoffReadError>(
                (v@, q as int),
            ),
        decreases n - i,
    {
        let ghost before = v@;
        match take_edge(b, q) {
            Ok((x, t)) => {
                let ghost y = x;
                v.push(x);
                q = t;
                proof { assert(v@ =~= before.push(y)); }
            },
            Err(e) => {
                proof {
                    assert(get_each(elem, b@, start as int, (i + 1) as nat) == Err::<
                        (Seq<(u32, u32)>, int),
                        _,
                    >(e));
                    lemma_each_fails(elem, b@, start as int, (i + 1) as nat, n as nat, e);
                }
                return Err(e);
            },
        }
        i = i + 1;
    }
    Ok((v, q))
}

fn take_graph(b: &[u8], p: usize) -> (r: Result<(GraphSer, usize), HandoffReadError>)
    requires
        p <= b@.len(),
    ensures
        match r {
            Ok((x, q)) => get_graph()(b@, p as int) == Ok::<_, HandoffReadError>((x@, q as int))
                && q <= b@.len(),
            Err(e) => get_graph()(b@, p as int) == Err::<(GraphModel, int), _>(e),
        },
{
    let (graph, q) = match take_u64(b, p) {
        Ok(x) => x,
        Err(e) => {
            return Err(e);
        },
    };
    let (instance, r) = match take_u64(b, q) {
        Ok(x) => x,
        Err(e) => {
            return Err(e);
        },
    };
    let (nodes, s) = match take_nodes(b, r) {
        Ok(x) => x,
        Err(e) => {
            return Err(e);
        },
    };
    match take_edges(b, s) {
        Ok((edges, t)) => Ok((GraphSer { graph, instance, nodes, edges }, t)),
        Err(e) => Err(e),
    }
}

fn take_graphs(b: &[u8], p: usize) -> (r: Result<(Vec<GraphSer>, usize), HandoffReadError>)
    requires
        p <= b@.len(),
    ensures
        match r {
            Ok((v, q)) => get_list(get_graph(), b@, p as int) == Ok::<_, HandoffReadError>(
                (graphs_view(v@), q as int),
            ) && q <= b@.len(),
            Err(e) => get_list(get_graph(), b@, p as int) == Err::<(Seq<GraphModel>, int), _>(e),
        },
{
    let (n, start) = match take_u32(b, p) {
        Ok(x) => x,
        Err(e) => {
            return Err(e);
        },
    };
    let ghost elem = get_graph();
    let mut v: Vec<GraphSer> = Vec::new();
    let mut q: usize = start;
    let mut i: u32 = 0;
    proof { assert(graphs_view(v@) =~= Seq::empty()); }
    while i < n
        invariant
            i <= n,
            q <= b@.len(),
            elem == get_graph(),
            get_number(b@, p as int, 4) == Ok::<_, HandoffReadError>((n as nat, start as int)),
            get_each(elem, b@, start as int, i as nat) == Ok::<_, HandoffReadError>(
                (graphs_view(v@), q as int),
            ),
        decreases n - i,
    {
        let ghost before = graphs_view(v@);
        match take_graph(b, q) {
            Ok((x, t)) => {
                let ghost y = x@;
                v.push(x);
                q = t;
                proof { assert(graphs_view(v@) =~= before.push(y)); }
            },
            Err(e) => {
                proof {
                    assert(get_each(elem, b@, start as int, (i + 1) as nat) == Err::<
                        (Seq<GraphModel>, int),
                        _,
                    >(e));
                    lemma_each_fails(elem, b@, start as int, (i + 1) as nat, n as nat, e);
                }
                return Err(e);
            },
        }
        i = i + 1;
    }
    Ok((v, q))
}

fn take_lib(b: &[u8], p: usize) -> (r: Result<(LibHandle, usize), HandoffReadError>)
    requires
        p <= b@.len(),
    ensures
        match r {
            Ok((x, q)) => get_lib()(b@, p as int) == Ok::<_, HandoffReadError>((x@, q as int))
                && q <= b@.len(),
            Err(e) => get_lib()(b@, p as int) == Err::<(LibModel, int), _>(e),
        },
{
    proof { lemma_byte_range(); }
    let (library, q) = match take_number(b, p, 1) {
        Ok(x) => x,
        Err(e) => {
            return Err(e);
        },
    };
    let (function, r) = match take_number(b, q, 2) {
        Ok(x) => x,
        Err(e) => {
            return Err(e);
        },
    };
    let (handle, s) = match take_u64(b, r) {
        Ok(x) => x,
        Err(e) => {
            return Err(e);
        },
    };
    match take_blob(b, s) {
        Ok((args, t)) => Ok(
            (LibHandle { library: library as u8, function: function as u16, handle, args }, t),
        ),
        Err(e) => Err(e),
    }
}

fn take_libs(b: &[u8], p: usize) -> (r: Result<(Vec<LibHandle>, usize), HandoffReadError>)
    requires
        p <= b@.len(),
    ensures
        match r {
            Ok((v, q)) => get_list(get_lib(), b@, p as int) == Ok::<_, HandoffReadError>(
                (libs_view(v@), q as int),
            ) && q <= b@.len(),
            Err(e) => get_list(get_lib(), b@, p as int) == Err::<(Seq<LibModel>, int), _>(e),
        },
{
    let (n, start) = match take_u32(b, p) {
        Ok(x) => x,
        Err(e) => {
            return Err(e);
        },
    };
    let ghost elem = get_lib();
    let mut v: Vec<LibHandle> = Vec::new();
    let mut q: usize = start;
    let mut i: u32 = 0;
    proof { assert(libs_view(v@) =~= Seq::empty()); }
    while i < n
        invariant
            i <= n,
            q <= b@.len(),
            elem == get_lib(),
            get_number(b@, p as int, 4) == Ok::<_, HandoffReadError>((n as nat, start as int)),
            get_each(elem, b@, start as int, i as nat) == Ok::<_, HandoffReadError>(
                (libs_view(v@), q as int),
            ),
        decreases n - i,
    {
        let ghost before = libs_view(v@);
        match take_lib(b, q) {
            Ok((x, t)) => {
                let ghost y = x@;
                v.push(x);
                q = t;
                proof { assert(libs_view(v@) =~= before.push(y)); }
            },
            Err(e) => {
                proof {
                    assert(get_each(elem, b@, start as int, (i + 1) as nat) == Err::<
                        (Seq<LibModel>, int),
                        _,
                    >(e));
                    lemma_each_fails(elem, b@, start as int, (i + 1) as nat, n as nat, e);
                }
                return Err(e);
            },
        }
        i = i + 1;
    }
    Ok((v, q))
}

fn take_oplog(b: &[u8], p: usize) -> (r: Result<(GraphOplog, usize), HandoffReadError>)
    requires
        p <= b@.len(),
    ensures
        match r {
            Ok((x, q)) => get_oplog()(b@, p as int) == Ok::<_, HandoffReadError>((x@, q as int))
                && q <= b@.len(),
            Err(e) => get_oplog()(b@, p as int) == Err::<(OplogModel, int), _>(e),
        },
{
    let (graph, q) = match take_u64(b, p) {
        Ok(x) => x,
        Err(e) => {
            return Err(e);
        },
    };
    let (instance, r) = match take_u64(b, q) {
        Ok(x) => x,
        Err(e) => {
            return Err(e);
        },
    };
    match take_blobs(b, r) {
        Ok((ops, t)) => Ok((GraphOplog { graph, instance, ops }, t)),
        Err(e) => Err(e),
    }
}

fn take_oplogs(b: &[u8], p: usize) -> (r: Result<(Vec<GraphOplog>, usize), HandoffReadError>)
    requires
        p <= b@.len(),
    ensures
        match r {
            Ok((v, q)) => get_list(get_oplog(), b@, p as int) == Ok::<_, HandoffReadError>(
                (oplogs_view(v@), q as int),
            ) && q <= b@.len(),
            Err(e) => get_list(get_oplog(), b@, p as int) == Err::<(Seq<OplogModel>, int), _>(e),
        },
{
    let (n, start) = match take_u32(b, p) {
        Ok(x) => x,
        Err(e) => {
            return Err(e);
        },
    };
    let ghost elem = get_oplog();
    let mut v: Vec<GraphOplog> = Vec::new();
    let mut q: usize = start;
    let mut i: u32 = 0;
    proof { assert(oplogs_view(v@) =~= Seq::empty()); }
    while i < n
        invariant
            i <= n,
            q <= b@.len(),
            elem == get_oplog(),
            get_number(b@, p as int, 4) == Ok::<_, HandoffReadError>((n as nat, start as int)),
            get_each(elem, b@, start as int, i as nat) == Ok::<_, HandoffReadError>(
                (oplogs_view(v@), q as int),
            ),
        decreases n - i,
    {
        let ghost before = oplogs_view(v@);
        match take_oplog(b, q) {
            Ok((x, t)) => {
                let ghost y = x@;
                v.push(x);
                q = t;
                proof { assert(oplogs_view(v@) =~= before.push(y)); }
            },
            Err(e) => {
                proof {
                    assert(get_each(elem, b@, start as int, (i + 1) as nat) == Err::<
                        (Seq<OplogModel>, int),
                        _,
                    >(e));
                    lemma_each_fails(elem, b@, start as int, (i + 1) as nat, n as nat, e);
                }
                return Err(e);
            },
        }
        i = i + 1;
    }
    Ok((v, q))
}

/// The modules that references into a message stand for.
pub open spec fn images_in(b: Seq<u8>, refs: Seq<ImageRef>) -> Seq<(u64, Seq<u8>)> {
    refs.map_values(
        |r: ImageRef| (r.handle, b.subrange(r.offset as int, r.offset as int + r.len as int)),
    )
}

fn take_module(b: &[u8], p: usize) -> (r: Result<(ImageRef, usize), HandoffReadError>)
    requires
        p <= b@.len(),
    ensures
        match r {
            Ok((x, q)) => get_module()(b@, p as int) == Ok::<_, HandoffReadError>(
                (
                    (x.handle, b@.subrange(x.offset as int, x.offset as int + x.len as int)),
                    q as int,
                ),
            ) && q <= b@.len() && x.offset + x.len <= b@.len(),
            Err(e) => get_module()(b@, p as int) == Err::<((u64, Seq<u8>), int), _>(e),
        },
{
    let (handle, q) = match take_u64(b, p) {
        Ok(x) => x,
        Err(e) => {
            return Err(e);
        },
    };
    match take_span(b, q) {
        Ok((from, to)) => Ok(
            (ImageRef { handle, offset: from as u64, len: (to - from) as u32 }, to),
        ),
        Err(e) => Err(e),
    }
}

fn take_modules(b: &[u8], p: usize) -> (r: Result<(Vec<ImageRef>, usize), HandoffReadError>)
    requires
        p <= b@.len(),
    ensures
        match r {
            Ok((v, q)) => get_list(get_module(), b@, p as int) == Ok::<_, HandoffReadError>(
                (images_in(b@, v@), q as int),
            ) && q <= b@.len() && forall|i: int|
                0 <= i < v@.len() ==> (#[trigger] v@[i]).offset + v@[i].len <= b@.len(),
            Err(e) => get_list(get_module(), b@, p as int) == Err::<(Seq<(u64, Seq<u8>)>, int), _>(e),
        },
{
    let (n, start) = match take_u32(b, p) {
        Ok(x) => x,
        Err(e) => {
            return Err(e);
        },
    };
    let ghost elem = get_module();
    let mut v: Vec<ImageRef> = Vec::new();
    let mut q: usize = start;
    let mut i: u32 = 0;
    proof { assert(images_in(b@, v@) =~= Seq::empty()); }
    while i < n
        invariant
            i <= n,
            q <= b@.len(),
            elem == get_module(),
            get_number(b@, p as int, 4) == Ok::<_, HandoffReadError>((n as nat, start as int)),
            get_each(elem, b@, start as int, i as nat) == Ok::<_, HandoffReadError>(
                (images_in(b@, v@), q as int),
            ),
            forall|j: int|
                0 <= j < v@.len() ==> (#[trigger] v@[j]).offset + v@[j].len <= b@.len(),
        decreases n - i,
    {
        let ghost before = images_in(b@, v@);
        match take_module(b, q) {
            Ok((x, t)) => {
                let ghost y = (x.handle, b@.subrange(x.offset as int, x.offset as int + x.len as int));
                v.push(x);
                q = t;
                proof { assert(images_in(b@, v@) =~= before.push(y)); }
            },
            Err(e) => {
                proof {
                    assert(get_each(elem, b@, start as int, (i + 1) as nat) == Err::<
                        (Seq<(u64, Seq<u8>)>, int),
                        _,
                    >(e));
                    lemma_each_fails(elem, b@, start as int, (i + 1) as nat, n as nat, e);
                }
                return Err(e);
            },
        }
        i = i + 1;
    }
    Ok((v, q))
}

fn take_stored(b: &[u8], p: usize, store: u64) -> (r: Result<(ImageRef, usize), HandoffReadError>)
    requires
        p <= b@.len(),
    ensures
        match r {
            Ok((x, q)) => get_stored(store)(b@, p as int) == Ok::<_, HandoffReadError>(
                (x, q as int),
            ) && q <= b@.len(),
            Err(e) => get_stored(store)(b@, p as int) == Err::<(ImageRef, int), _>(e),
        },
{
    let (handle, q) = match take_u64(b, p) {
        Ok(x) => x,
        Err(e) => {
            return Err(e);
        },
    };
    let (offset, r) = match take_u64(b, q) {
        Ok(x) => x,
        Err(e) => {
            return Err(e);
        },
    };
    let (len, t) = match take_u32(b, r) {
        Ok(x) => x,
        Err(e) => {
            return Err(e);
        },
    };
    let fits = match offset.checked_add(len as u64) {
        Some(end) => end <= store,
        None => false,
    };
    if fits {
        Ok((ImageRef { handle, offset, len }, t))
    } else {
        Err(HandoffReadError::OutsideStore)
    }
}

fn take_stored_list(b: &[u8], p: usize, store: u64) -> (r: Result<(Vec<ImageRef>, usize), HandoffReadError>)
    requires
        p <= b@.len(),
    ensures
        match r {
            Ok((v, q)) => get_list(get_stored(store), b@, p as int) == Ok::<_, HandoffReadError>(
                (v@, q as int),
            ) && q <= b@.len(),
            Err(e) => get_list(get_stored(store), b@, p as int) == Err::<(Seq<ImageRef>, int), _>(e),
        },
{
    let (n, start) = match take_u32(b, p) {
        Ok(x) => x,
        Err(e) => {
            return Err(e);
        },
    };
    let ghost elem = get_stored(store);
    let mut v: Vec<ImageRef> = Vec::new();
    let mut q: usize = start;
    let mut i: u32 = 0;
    proof { assert(v@ =~= Seq::empty()); }
    while i < n
        invariant
            i <= n,
            q <= b@.len(),
            elem == get_stored(store),
            get_number(b@, p as int, 4) == Ok::<_, HandoffReadError>((n as nat, start as int)),
            get_each(elem, b@, start as int, i as nat) == Ok::<_, HandoffReadError>(
                (v@, q as int),
            ),
        decreases n - i,
    {
        let ghost before = v@;
        match take_stored(b, q, store) {
            Ok((x, t)) => {
                let ghost y = x;
                v.push(x);
                q = t;
                proof { assert(v@ =~= before.push(y)); }
            },
            Err(e) => {
                proof {
                    assert(get_each(elem, b@, start as int, (i + 1) as nat) == Err::<
                        (Seq<ImageRef>, int),
                        _,
                    >(e));
                    lemma_each_fails(elem, b@, start as int, (i + 1) as nat, n as nat, e);
                }
                return Err(e);
            },
        }
        i = i + 1;
    }
    Ok((v, q))
}

/// The parts behind the modules.
struct Rest {
    funcs: Vec<FuncMeta>,
    streams: Vec<(u64, u32)>,
    events: Vec<(u64, u32)>,
    graphs: Vec<GraphSer>,
    libs: Vec<LibHandle>,
    oplogs: Vec<GraphOplog>,
}

impl View for Rest {
    type V = HandoffModel;

    closed spec fn view(&self) -> HandoffModel {
        HandoffModel {
            funcs: funcs_view(self.funcs@),
            streams: self.streams@,
            events: self.events@,
            graphs: graphs_view(self.graphs@),
            libs: libs_view(self.libs@),
            oplogs: oplogs_view(self.oplogs@),
        }
    }
}

fn take_rest(b: &[u8], p: usize) -> (r: Result<Rest, HandoffReadError>)
    requires
        p <= b@.len(),
    ensures
        match r {
            Ok(x) => get_rest(b@, p as int) == Ok::<_, HandoffReadError>(x@),
            Err(e) => get_rest(b@, p as int) == Err::<HandoffModel, _>(e),
        },
{
    let (funcs, p1) = match take_funcs(b, p) {
        Ok(x) => x,
        Err(e) => {
            return Err(e);
        },
    };
    let (streams, p2) = match take_flags(b, p1) {
        Ok(x) => x,
        Err(e) => {
            return Err(e);
        },
    };
    let (events, p3) = match take_flags(b, p2) {
        Ok(x) => x,
        Err(e) => {
            return Err(e);
        },
    };
    let mut graphs: Vec<GraphSer> = Vec::new();
    let mut p4: usize = p3;
    proof { assert(graphs_view(graphs@) =~= Seq::empty()); }
    if p3 < b.len() {
        match take_graphs(b, p3) {
            Ok((v, q)) => {
                graphs = v;
                p4 = q;
            },
            Err(e) => {
                return Err(e);
            },
        }
    }
    let mut libs: Vec<LibHandle> = Vec::new();
    let mut p5: usize = p4;
    proof { assert(libs_view(libs@) =~= Seq::empty()); }
    if p4 < b.len() {
        match take_libs(b, p4) {
            Ok((v, q)) => {
                libs = v;
                p5 = q;
            },
            Err(e) => {
                return Err(e);
            },
        }
    }
    let mut oplogs: Vec<GraphOplog> = Vec::new();
    proof { assert(oplogs_view(oplogs@) =~= Seq::empty()); }
    if p5 < b.len() {
        match take_oplogs(b, p5) {
            Ok((v, _)) => {
                oplogs = v;
            },
            Err(e) => {
                return Err(e);
            },
        }
    }
    Ok(Rest { funcs, streams, events, graphs, libs, oplogs })
}

/// Reads a handoff; `store` is the length of the image store, if there is one.
///
/// The images of a message that keeps them itself are given as places in the
/// message, those of one that needs a store as places in the store.
pub fn read_module_handoff(b: &[u8], store: Option<u64>) -> (r: Result<
    ReceivedHandoff,
    HandoffReadError,
>)
    ensures
        if uses_store(b@) {
            match (store, r) {
                (None, _) => r == Err::<ReceivedHandoff, _>(HandoffReadError::MissingStore),
                (Some(n), Ok(h)) => h.external && parsed_stored_handoff(b@, n) == Ok::<
                    _,
                    HandoffReadError,
                >((h.images@, h.rest())),
                (Some(n), Err(e)) => parsed_stored_handoff(b@, n) == Err::<
                    (Seq<ImageRef>, HandoffModel),
                    _,
                >(e),
            }
        } else {
            match r {
                Ok(h) => {
                    &&& !h.external
                    &&& parsed_handoff(b@) == Ok::<_, HandoffReadError>(
                        (images_in(b@, h.images@), h.rest()),
                    )
                    &&& forall|i: int|
                        0 <= i < h.images@.len() ==> (#[trigger] h.images@[i]).offset
                            + h.images@[i].len <= b@.len()
                },
                Err(e) => parsed_handoff(b@) == Err::<(Seq<(u64, Seq<u8>)>, HandoffModel), _>(e),
            }
        },
{
    let magic: Vec<u8> = vec![0x4d, 0x48, 0x49, 0x32];
    proof { assert(magic@ =~= external_magic()); }
    let external = bytes_at(b, 0, &magic);
    let (images, p) = if external {
        match store {
            None => {
                return Err(HandoffReadError::MissingStore);
            },
            Some(n) => match take_stored_list(b, 4, n) {
                Ok(x) => x,
                Err(e) => {
                    return Err(e);
                },
            },
        }
    } else {
        match take_modules(b, 0) {
            Ok(x) => x,
            Err(e) => {
                return Err(e);
            },
        }
    };
    match take_rest(b, p) {
        Ok(rest) => Ok(
            ReceivedHandoff {
                external,
                images,
                funcs: rest.funcs,
                streams: rest.streams,
                events: rest.events,
                graphs: rest.graphs,
                libs: rest.libs,
                oplogs: rest.oplogs,
            },
        ),
        Err(e) => Err(e),
    }
}

/// The golden's streams or events with those made in their place; one that could not
/// be made has none.
pub open spec fn recreated_of(golden: Seq<(u64, u32)>, made: Seq<Option<u64>>) -> Seq<(u64, u64)>
    decreases golden.len(),
{
    if golden.len() == 0 {
        Seq::empty()
    } else {
        match made[golden.len() - 1] {
            Some(own) => recreated_of(golden.drop_last(), made).push((golden.last().0, own)),
            None => recreated_of(golden.drop_last(), made),
        }
    }
}

/// The golden's streams or events with those made in their place.
pub fn recreated(golden: &[(u64, u32)], made: &[Option<u64>]) -> (r: Vec<(u64, u64)>)
    requires
        golden@.len() == made@.len(),
    ensures
        r@ == recreated_of(golden@, made@),
{
    let mut out: Vec<(u64, u64)> = Vec::new();
    let mut i: usize = 0;
    proof { assert(golden@.take(0) =~= Seq::empty()); }
    while i < golden.len()
        invariant
            i <= golden@.len(),
            golden@.len() == made@.len(),
            out@ == recreated_of(golden@.take(i as int), made@),
        decreases golden@.len() - i,
    {
        proof {
            assert(golden@.take(i + 1).drop_last() =~= golden@.take(i as int));
            assert(golden@.take(i + 1).last() == golden@[i as int]);
        }
        match made[i] {
            Some(own) => out.push((golden[i].0, own)),
            None => {},
        }
        i = i + 1;
    }
    proof { assert(golden@.take(golden@.len() as int) =~= golden@); }
    out
}

} // verus!
