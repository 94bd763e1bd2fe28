//! A handoff that was written reads back as it was.
use crate::daemon::modules::{
    FuncModel, GraphModel, HandoffError, HandoffModel, HandoffReadError, ImageRef, LibModel,
    MAX_MODULE_HANDOFF_BLOB_BYTES, NodeModel, OplogModel, bits_of, external_magic, handoff_message,
    node_head, put, put_attr, put_blob, put_bytes, put_each, put_edge, put_flagged, put_func,
    put_graph, put_len, put_lib, put_list, put_module, put_node, put_oplog, put_rest, put_stored,
    range_of, stored_message,
};
use crate::daemon::modules_read::{
    get_attr, get_blob, get_each, get_edge, get_flagged, get_func, get_graph, get_lib, get_list,
    get_module, get_node, get_number, get_oplog, get_rest, get_stored, name_of, parsed_handoff,
    parsed_stored_handoff, uses_store,
};
use crate::wire::{
    byte_range, le_at, le_bytes, le_value, lemma_byte_range, lemma_le_at, lemma_le_len,
    lemma_le_round_trip,
};
use vstd::prelude::*;

verus! {

/// `t` continues `s`.
spec fn grows(s: Seq<u8>, t: Seq<u8>) -> bool {
    s.len() <= t.len() && t.take(s.len() as int) == s
}

/// Whatever follows `t`, the element `x` is read from where `s` ends to where `t`
/// ends.
spec fn reads_back<T>(
    p: spec_fn(Seq<u8>, int) -> Result<(T, int), HandoffReadError>,
    s: Seq<u8>,
    t: Seq<u8>,
    x: T,
) -> bool {
    &&& grows(s, t)
    &&& forall|c: Seq<u8>| #[trigger]
        p(t + c, s.len() as int) == Ok::<_, HandoffReadError>((x, t.len() as int))
}

/// Writing `x` with `w` keeps a failure, and what it writes `p` reads back.
spec fn round_trips<T>(
    w: spec_fn(Result<Seq<u8>, HandoffError>, T) -> Result<Seq<u8>, HandoffError>,
    p: spec_fn(Seq<u8>, int) -> Result<(T, int), HandoffReadError>,
    x: T,
) -> bool {
    &&& forall|e: HandoffError| #[trigger] w(Err(e), x) == Err::<Seq<u8>, _>(e)
    &&& forall|s: Seq<u8>|
        (#[trigger] w(Ok(s), x)) is Ok ==> reads_back(p, s, w(Ok(s), x)->Ok_0, x)
}

/// Whatever follows `t`, the list `v` is read from where `s` ends to where `t` ends.
spec fn list_reads_back<T>(
    p: spec_fn(Seq<u8>, int) -> Result<(T, int), HandoffReadError>,
    s: Seq<u8>,
    t: Seq<u8>,
    v: Seq<T>,
) -> bool {
    &&& grows(s, t)
    &&& s.len() + 4 <= t.len()
    &&& forall|c: Seq<u8>| #[trigger]
        get_list(p, t + c, s.len() as int) == Ok::<_, HandoffReadError>((v, t.len() as int))
}

proof fn lemma_grows(s: Seq<u8>, t: Seq<u8>)
    requires
        grows(s, t),
    ensures
        t == s + t.skip(s.len() as int),
{
    assert(t =~= s + t.skip(s.len() as int));
}

proof fn lemma_number(a: Seq<u8>, v: nat, n: nat, rest: Seq<u8>, whole: Seq<u8>)
    requires
        v < byte_range(n),
        whole == a + le_bytes(v, n) + rest,
    ensures
        get_number(whole, a.len() as int, n as int) == Ok::<_, HandoffReadError>(
            (v, (a.len() + n) as int),
        ),
{
    lemma_le_at(a, v, n, rest);
    lemma_le_len(v, n);
}

proof fn lemma_bytes_at(a: Seq<u8>, b: Seq<u8>, rest: Seq<u8>, whole: Seq<u8>)
    requires
        b.len() <= u32::MAX,
        whole == a + le_bytes(b.len(), 4) + b + rest,
    ensures
        get_blob()(whole, a.len() as int) == Ok::<_, HandoffReadError>(
            (b, (a.len() + 4 + b.len()) as int),
        ),
{
    lemma_byte_range();
    lemma_le_len(b.len(), 4);
    assert(whole =~= a + le_bytes(b.len(), 4) + (b + rest));
    lemma_number(a, b.len(), 4, b + rest, whole);
    assert(whole.subrange(a.len() as int + 4, a.len() as int + 4 + b.len() as int) =~= b);
}

proof fn lemma_each_round_trips<T>(
    w: spec_fn(Result<Seq<u8>, HandoffError>, T) -> Result<Seq<u8>, HandoffError>,
    p: spec_fn(Seq<u8>, int) -> Result<(T, int), HandoffReadError>,
    s: Seq<u8>,
    v: Seq<T>,
    t: Seq<u8>,
    c: Seq<u8>,
)
    requires
        forall|i: int| 0 <= i < v.len() ==> round_trips(w, p, #[trigger] v[i]),
        put_each(w, Ok(s), v) == Ok::<_, HandoffError>(t),
    ensures
        grows(s, t),
        get_each(p, t + c, s.len() as int, v.len()) == Ok::<_, HandoffReadError>(
            (v, t.len() as int),
        ),
    decreases v.len(),
{
    if v.len() == 0 {
        assert(t.take(s.len() as int) =~= s);
        assert(v =~= Seq::empty());
    } else {
        let front = v.drop_last();
        let x = v.last();
        assert(round_trips(w, p, v[v.len() - 1]));
        let mid = put_each(w, Ok(s), front);
        if let Err(e) = mid {
            assert(w(Err(e), x) == Err::<Seq<u8>, _>(e));
            assert(false);
        }
        let m = mid->Ok_0;
        assert(w(Ok(m), x) == Ok::<_, HandoffError>(t));
        assert(reads_back(p, m, t, x));
        assert forall|i: int| 0 <= i < front.len() implies round_trips(w, p, #[trigger] front[i]) by {
            assert(front[i] == v[i]);
        }
        lemma_grows(m, t);
        let c2 = t.skip(m.len() as int) + c;
        lemma_each_round_trips(w, p, s, front, m, c2);
        assert(m + c2 =~= t + c);
        assert(p(t + c, m.len() as int) == Ok::<_, HandoffReadError>((x, t.len() as int)));
        assert(front.push(x) =~= v);
        assert(t.take(s.len() as int) =~= m.take(s.len() as int));
    }
}

/// A failed message stays failed.
proof fn lemma_each_sticky<T>(
    w: spec_fn(Result<Seq<u8>, HandoffError>, T) -> Result<Seq<u8>, HandoffError>,
    p: spec_fn(Seq<u8>, int) -> Result<(T, int), HandoffReadError>,
    e: HandoffError,
    v: Seq<T>,
)
    requires
        forall|i: int| 0 <= i < v.len() ==> round_trips(w, p, #[trigger] v[i]),
    ensures
        put_each(w, Err(e), v) == Err::<Seq<u8>, _>(e),
    decreases v.len(),
{
    if v.len() > 0 {
        let front = v.drop_last();
        assert(round_trips(w, p, v[v.len() - 1]));
        assert forall|i: int| 0 <= i < front.len() implies round_trips(w, p, #[trigger] front[i]) by {
            assert(front[i] == v[i]);
        }
        lemma_each_sticky(w, p, e, front);
        assert(w(Err(e), v.last()) == Err::<Seq<u8>, _>(e));
    }
}

proof fn lemma_list_round_trips<T>(
    w: spec_fn(Result<Seq<u8>, HandoffError>, T) -> Result<Seq<u8>, HandoffError>,
    p: spec_fn(Seq<u8>, int) -> Result<(T, int), HandoffReadError>,
    v: Seq<T>,
)
    requires
        forall|i: int| 0 <= i < v.len() ==> round_trips(w, p, #[trigger] v[i]),
    ensures
        forall|e: HandoffError| #[trigger] put_list(w, Err(e), v) == Err::<Seq<u8>, _>(e),
        forall|s: Seq<u8>|
            (#[trigger] put_list(w, Ok(s), v)) is Ok ==> list_reads_back(
                p,
                s,
                put_list(w, Ok(s), v)->Ok_0,
                v,
            ),
{
    assert forall|e: HandoffError| #[trigger] put_list(w, Err(e), v) == Err::<Seq<u8>, _>(e) by {
        lemma_each_sticky(w, p, e, v);
    }
    assert forall|s: Seq<u8>|
        (#[trigger] put_list(w, Ok(s), v)) is Ok implies list_reads_back(
        p,
        s,
        put_list(w, Ok(s), v)->Ok_0,
        v,
    ) by {
        let t = put_list(w, Ok(s), v)->Ok_0;
        if put_list(w, Ok(s), v) is Ok {
            let head = put_len(Ok(s), v.len());
            if let Err(e) = head {
                lemma_each_sticky(w, p, e, v);
                assert(false);
            }
            let h = head->Ok_0;
            assert(h == s + le_bytes(v.len(), 4));
            lemma_le_len(v.len(), 4);
            assert forall|c: Seq<u8>| #[trigger]
                get_list(p, t + c, s.len() as int) == Ok::<_, HandoffReadError>(
                    (v, t.len() as int),
                ) by {
                lemma_each_round_trips(w, p, h, v, t, c);
                lemma_grows(h, t);
                let rest = t.skip(h.len() as int) + c;
                lemma_byte_range();
                assert(t + c =~= s + le_bytes(v.len(), 4) + rest);
                lemma_number(s, v.len(), 4, rest, t + c);
            }
            lemma_each_round_trips(w, p, h, v, t, Seq::empty());
            assert(t.take(s.len() as int) =~= h.take(s.len() as int));
            assert(h.take(s.len() as int) =~= s);
        }
    }
}

proof fn lemma_blob_round_trips(x: Seq<u8>)
    ensures
        round_trips(put_bytes(), get_blob(), x),
{
    let w = put_bytes();
    let p = get_blob();
    assert forall|s: Seq<u8>| (#[trigger] w(Ok(s), x)) is Ok implies reads_back(
        p,
        s,
        w(Ok(s), x)->Ok_0,
        x,
    ) by {
        let t = w(Ok(s), x)->Ok_0;
        if w(Ok(s), x) is Ok {
            lemma_le_len(x.len(), 4);
            assert(t =~= s + le_bytes(x.len(), 4) + x);
            assert(t.take(s.len() as int) =~= s);
            assert forall|c: Seq<u8>| #[trigger]
                p(t + c, s.len() as int) == Ok::<_, HandoffReadError>((x, t.len() as int)) by {
                lemma_bytes_at(s, x, c, t + c);
            }
        }
    }
}

proof fn lemma_module_round_trips(x: (u64, Seq<u8>))
    ensures
        round_trips(put_module(), get_module(), x),
{
    let w = put_module();
    let p = get_module();
    assert forall|s: Seq<u8>| (#[trigger] w(Ok(s), x)) is Ok implies reads_back(
        p,
        s,
        w(Ok(s), x)->Ok_0,
        x,
    ) by {
        let t = w(Ok(s), x)->Ok_0;
        if w(Ok(s), x) is Ok {
            let a = le_bytes(x.0 as nat, 8);
            lemma_le_len(x.0 as nat, 8);
            lemma_le_len(x.1.len(), 4);
            lemma_byte_range();
            assert(t =~= (s + a) + le_bytes(x.1.len(), 4) + x.1);
            assert(t.take(s.len() as int) =~= s);
            assert forall|c: Seq<u8>| #[trigger]
                p(t + c, s.len() as int) == Ok::<_, HandoffReadError>((x, t.len() as int)) by {
                assert(t + c =~= s + a + (le_bytes(x.1.len(), 4) + x.1 + c));
                lemma_number(s, x.0 as nat, 8, le_bytes(x.1.len(), 4) + x.1 + c, t + c);
                lemma_bytes_at(s + a, x.1, c, t + c);
            }
        }
    }
}

proof fn lemma_attr_round_trips(x: (i32, i32))
    ensures
        round_trips(put_attr(), get_attr(), x),
{
    let w = put_attr();
    let p = get_attr();
    assert forall|s: Seq<u8>| (#[trigger] w(Ok(s), x)) is Ok implies reads_back(
        p,
        s,
        w(Ok(s), x)->Ok_0,
        x,
    ) by {
        let t = w(Ok(s), x)->Ok_0;
        if w(Ok(s), x) is Ok {
            let a = le_bytes(bits_of(x.0) as nat, 4);
            let b = le_bytes(bits_of(x.1) as nat, 4);
            lemma_le_len(bits_of(x.0) as nat, 4);
            lemma_le_len(bits_of(x.1) as nat, 4);
            lemma_byte_range();
            assert(t =~= s + a + b);
            assert(t.take(s.len() as int) =~= s);
            assert forall|c: Seq<u8>| #[trigger]
                p(t + c, s.len() as int) == Ok::<_, HandoffReadError>((x, t.len() as int)) by {
                assert(t + c =~= s + a + (b + c));
                assert(t + c =~= (s + a) + b + c);
                lemma_number(s, bits_of(x.0) as nat, 4, b + c, t + c);
                lemma_number(s + a, bits_of(x.1) as nat, 4, c, t + c);
            }
        }
    }
}

proof fn lemma_flagged_round_trips(x: (u64, u32))
    ensures
        round_trips(put_flagged(), get_flagged(), x),
{
    let w = put_flagged();
    let p = get_flagged();
    assert forall|s: Seq<u8>| (#[trigger] w(Ok(s), x)) is Ok implies reads_back(
        p,
        s,
        w(Ok(s), x)->Ok_0,
        x,
    ) by {
        let t = w(Ok(s), x)->Ok_0;
        if w(Ok(s), x) is Ok {
            let a = le_bytes(x.0 as nat, 8);
            let b = le_bytes(x.1 as nat, 4);
            lemma_le_len(x.0 as nat, 8);
            lemma_le_len(x.1 as nat, 4);
            lemma_byte_range();
            assert(t =~= s + a + b);
            assert(t.take(s.len() as int) =~= s);
            assert forall|c: Seq<u8>| #[trigger]
                p(t + c, s.len() as int) == Ok::<_, HandoffReadError>((x, t.len() as int)) by {
                assert(t + c =~= s + a + (b + c));
                assert(t + c =~= (s + a) + b + c);
                lemma_number(s, x.0 as nat, 8, b + c, t + c);
                lemma_number(s + a, x.1 as nat, 4, c, t + c);
            }
        }
    }
}

proof fn lemma_edge_round_trips(x: (u32, u32))
    ensures
        round_trips(put_edge(), get_edge(), x),
{
    let w = put_edge();
    let p = get_edge();
    assert forall|s: Seq<u8>| (#[trigger] w(Ok(s), x)) is Ok implies reads_back(
        p,
        s,
        w(Ok(s), x)->Ok_0,
        x,
    ) by {
        let t = w(Ok(s), x)->Ok_0;
        if w(Ok(s), x) is Ok {
            let a = le_bytes(x.0 as nat, 4);
            let b = le_bytes(x.1 as nat, 4);
            lemma_le_len(x.0 as nat, 4);
            lemma_le_len(x.1 as nat, 4);
            lemma_byte_range();
            assert(t =~= s + a + b);
            assert(t.take(s.len() as int) =~= s);
            assert forall|c: Seq<u8>| #[trigger]
                p(t + c, s.len() as int) == Ok::<_, HandoffReadError>((x, t.len() as int)) by {
                assert(t + c =~= s + a + (b + c));
                assert(t + c =~= (s + a) + b + c);
                lemma_number(s, x.0 as nat, 4, b + c, t + c);
                lemma_number(s + a, x.1 as nat, 4, c, t + c);
            }
        }
    }
}

/// A function is read from its fields, given that its attributes are.
proof fn lemma_func_fields(x: FuncModel, s: Seq<u8>, h: Seq<u8>, rest: Seq<u8>, end: int)
    requires
        vstd::utf8::encode_utf8(x.name).len() <= u32::MAX,
        h == s + le_bytes(x.handle as nat, 8) + le_bytes(x.module as nat, 8) + le_bytes(
            vstd::utf8::encode_utf8(x.name).len(),
            4,
        ) + vstd::utf8::encode_utf8(x.name),
        get_list(get_attr(), h + rest, h.len() as int) == Ok::<_, HandoffReadError>((x.attrs, end)),
    ensures
        get_func()(h + rest, s.len() as int) == Ok::<_, HandoffReadError>((x, end)),
{
    let name = vstd::utf8::encode_utf8(x.name);
    vstd::utf8::encode_utf8_valid_utf8(x.name);
    vstd::utf8::encode_utf8_decode_utf8(x.name);
    assert(name_of(name) == x.name);
    let a = le_bytes(x.handle as nat, 8);
    let b = le_bytes(x.module as nat, 8);
    let n = le_bytes(name.len(), 4);
    let whole = h + rest;
    lemma_le_len(x.handle as nat, 8);
    lemma_le_len(x.module as nat, 8);
    lemma_le_len(name.len(), 4);
    lemma_byte_range();
    assert(whole =~= s + a + (b + n + name + rest));
    lemma_number(s, x.handle as nat, 8, b + n + name + rest, whole);
    assert(whole =~= (s + a) + b + (n + name + rest));
    lemma_number(s + a, x.module as nat, 8, n + name + rest, whole);
    assert(whole =~= (s + a + b) + n + name + rest);
    lemma_bytes_at(s + a + b, name, rest, whole);
}

proof fn lemma_func_round_trips(x: FuncModel)
    ensures
        round_trips(put_func(), get_func(), x),
{
    let w = put_func();
    let p = get_func();
    assert forall|i: int| 0 <= i < x.attrs.len() implies round_trips(
        put_attr(),
        get_attr(),
        #[trigger] x.attrs[i],
    ) by {
        lemma_attr_round_trips(x.attrs[i]);
    }
    lemma_list_round_trips(put_attr(), get_attr(), x.attrs);
    assert forall|s: Seq<u8>| (#[trigger] w(Ok(s), x)) is Ok implies reads_back(
        p,
        s,
        w(Ok(s), x)->Ok_0,
        x,
    ) by {
        lemma_func_reads_back(x, s);
    }
    assert forall|e: HandoffError| #[trigger] w(Err(e), x) == Err::<Seq<u8>, _>(e) by {
        assert(put_list(put_attr(), Err(e), x.attrs) == Err::<Seq<u8>, _>(e));
    }
}

proof fn lemma_func_reads_back(x: FuncModel, s: Seq<u8>)
    requires
        put_func()(Ok(s), x) is Ok,
        forall|e: HandoffError| #[trigger]
            put_list(put_attr(), Err(e), x.attrs) == Err::<Seq<u8>, _>(e),
        forall|s: Seq<u8>|
            (#[trigger] put_list(put_attr(), Ok(s), x.attrs)) is Ok ==> list_reads_back(
                get_attr(),
                s,
                put_list(put_attr(), Ok(s), x.attrs)->Ok_0,
                x.attrs,
            ),
    ensures
        reads_back(get_func(), s, put_func()(Ok(s), x)->Ok_0, x),
{
    let p = get_func();
    let t = put_func()(Ok(s), x)->Ok_0;
    let name = vstd::utf8::encode_utf8(x.name);
    let a = le_bytes(x.handle as nat, 8);
    let b = le_bytes(x.module as nat, 8);
    let n = le_bytes(name.len(), 4);
    let head = put_blob(put(put(Ok(s), a), b), name);
    if let Err(e) = head {
        assert(put_list(put_attr(), Err(e), x.attrs) == Err::<Seq<u8>, _>(e));
        assert(false);
    }
    let h = head->Ok_0;
    assert(h == s + a + b + n + name);
    assert(put_list(put_attr(), Ok(h), x.attrs) == Ok::<_, HandoffError>(t));
    assert(list_reads_back(get_attr(), h, t, x.attrs));
    lemma_grows(h, t);
    assert(h.take(s.len() as int) =~= s);
    assert(grows(s, h));
    lemma_chain(s, h, t);
    assert forall|c: Seq<u8>| #[trigger]
        p(t + c, s.len() as int) == Ok::<_, HandoffReadError>((x, t.len() as int)) by {
        let rest = t.skip(h.len() as int) + c;
        assert(t + c =~= h + rest);
        assert(get_list(get_attr(), t + c, h.len() as int) == Ok::<_, HandoffReadError>(
            (x.attrs, t.len() as int),
        ));
        lemma_func_fields(x, s, h, rest, t.len() as int);
    }
}

proof fn lemma_node_head(n: NodeModel, s: Seq<u8>, rest: Seq<u8>, whole: Seq<u8>)
    requires
        whole == s + node_head(n) + rest,
    ensures
        node_head(n).len() == 36,
        le_at(whole, s.len() as int, 8) == n.func,
        le_at(whole, s.len() as int + 8, 4) == n.grid.0,
        le_at(whole, s.len() as int + 12, 4) == n.grid.1,
        le_at(whole, s.len() as int + 16, 4) == n.grid.2,
        le_at(whole, s.len() as int + 20, 4) == n.block.0,
        le_at(whole, s.len() as int + 24, 4) == n.block.1,
        le_at(whole, s.len() as int + 28, 4) == n.block.2,
        le_at(whole, s.len() as int + 32, 4) == n.shared_mem,
{
    lemma_byte_range();
    let f = le_bytes(n.func as nat, 8);
    let g0 = le_bytes(n.grid.0 as nat, 4);
    let g1 = le_bytes(n.grid.1 as nat, 4);
    let g2 = le_bytes(n.grid.2 as nat, 4);
    let b0 = le_bytes(n.block.0 as nat, 4);
    let b1 = le_bytes(n.block.1 as nat, 4);
    let b2 = le_bytes(n.block.2 as nat, 4);
    let m = le_bytes(n.shared_mem as nat, 4);
    lemma_le_round_trip(n.func as nat, 8);
    lemma_le_round_trip(n.grid.0 as nat, 4);
    lemma_le_round_trip(n.grid.1 as nat, 4);
    lemma_le_round_trip(n.grid.2 as nat, 4);
    lemma_le_round_trip(n.block.0 as nat, 4);
    lemma_le_round_trip(n.block.1 as nat, 4);
    lemma_le_round_trip(n.block.2 as nat, 4);
    lemma_le_round_trip(n.shared_mem as nat, 4);
    let k = s.len() as int;
    assert(whole.subrange(k, k + 8) =~= f);
    assert(whole.subrange(k + 8, k + 8 + 4) =~= g0);
    assert(whole.subrange(k + 12, k + 12 + 4) =~= g1);
    assert(whole.subrange(k + 16, k + 16 + 4) =~= g2);
    assert(whole.subrange(k + 20, k + 20 + 4) =~= b0);
    assert(whole.subrange(k + 24, k + 24 + 4) =~= b1);
    assert(whole.subrange(k + 28, k + 28 + 4) =~= b2);
    assert(whole.subrange(k + 32, k + 32 + 4) =~= m);
}

proof fn lemma_node_round_trips(x: NodeModel)
    ensures
        round_trips(put_node(), get_node(), x),
{
    let w = put_node();
    let p = get_node();
    assert forall|i: int| 0 <= i < x.params.len() implies round_trips(
        put_bytes(),
        get_blob(),
        #[trigger] x.params[i],
    ) by {
        lemma_blob_round_trips(x.params[i]);
    }
    lemma_list_round_trips(put_bytes(), get_blob(), x.params);
    assert forall|s: Seq<u8>| (#[trigger] w(Ok(s), x)) is Ok implies reads_back(
        p,
        s,
        w(Ok(s), x)->Ok_0,
        x,
    ) by {
        let t = w(Ok(s), x)->Ok_0;
        if w(Ok(s), x) is Ok {
            let head = put(Ok(s), node_head(x));
            if let Err(e) = head {
                assert(put_list(put_bytes(), Err(e), x.params) == Err::<Seq<u8>, _>(e));
                assert(false);
            }
            let h = head->Ok_0;
            assert(h == s + node_head(x));
            assert(put_list(put_bytes(), Ok(h), x.params) == Ok::<_, HandoffError>(t));
            lemma_grows(h, t);
            assert(t.take(s.len() as int) =~= h.take(s.len() as int));
            assert(h.take(s.len() as int) =~= s);
            assert forall|c: Seq<u8>| #[trigger]
                p(t + c, s.len() as int) == Ok::<_, HandoffReadError>((x, t.len() as int)) by {
                let rest = t.skip(h.len() as int) + c;
                assert(t + c =~= s + node_head(x) + rest);
                lemma_node_head(x, s, rest, t + c);
                assert(get_list(get_blob(), t + c, h.len() as int) == Ok::<_, HandoffReadError>(
                    (x.params, t.len() as int),
                ));
            }
        }
    }
    assert forall|e: HandoffError| #[trigger] w(Err(e), x) == Err::<Seq<u8>, _>(e) by {
        assert(put_list(put_bytes(), Err(e), x.params) == Err::<Seq<u8>, _>(e));
    }
}

#[verifier::rlimit(40)]
proof fn lemma_graph_round_trips(x: GraphModel)
    ensures
        round_trips(put_graph(), get_graph(), x),
{
    let w = put_graph();
    let p = get_graph();
    assert forall|i: int| 0 <= i < x.nodes.len() implies round_trips(
        put_node(),
        get_node(),
        #[trigger] x.nodes[i],
    ) by {
        lemma_node_round_trips(x.nodes[i]);
    }
    assert forall|i: int| 0 <= i < x.edges.len() implies round_trips(
        put_edge(),
        get_edge(),
        #[trigger] x.edges[i],
    ) by {
        lemma_edge_round_trips(x.edges[i]);
    }
    lemma_list_round_trips(put_node(), get_node(), x.nodes);
    lemma_list_round_trips(put_edge(), get_edge(), x.edges);
    assert forall|s: Seq<u8>| (#[trigger] w(Ok(s), x)) is Ok implies reads_back(
        p,
        s,
        w(Ok(s), x)->Ok_0,
        x,
    ) by {
        let t = w(Ok(s), x)->Ok_0;
        if w(Ok(s), x) is Ok {
            let a = le_bytes(x.graph as nat, 8);
            let b = le_bytes(x.instance as nat, 8);
            lemma_le_len(x.graph as nat, 8);
            lemma_le_len(x.instance as nat, 8);
            lemma_byte_range();
            let head = put(put(Ok(s), a), b);
            let middle = put_list(put_node(), head, x.nodes);
            if let Err(e) = head {
                assert(put_list(put_node(), Err(e), x.nodes) == Err::<Seq<u8>, _>(e));
                assert(put_list(put_edge(), Err(e), x.edges) == Err::<Seq<u8>, _>(e));
                assert(false);
            }
            if let Err(e) = middle {
                assert(put_list(put_edge(), Err(e), x.edges) == Err::<Seq<u8>, _>(e));
                assert(false);
            }
            let h = head->Ok_0;
            let m = middle->Ok_0;
            assert(h =~= s + a + b);
            assert(put_list(put_node(), Ok(h), x.nodes) == Ok::<_, HandoffError>(m));
            assert(put_list(put_edge(), Ok(m), x.edges) == Ok::<_, HandoffError>(t));
            lemma_grows(h, m);
            lemma_grows(m, t);
            assert(t.take(s.len() as int) =~= h.take(s.len() as int)) by {
                assert(m.take(s.len() as int) =~= h.take(s.len() as int));
                assert(t.take(s.len() as int) =~= m.take(s.len() as int));
            }
            assert(h.take(s.len() as int) =~= s);
            assert forall|c: Seq<u8>| #[trigger]
                p(t + c, s.len() as int) == Ok::<_, HandoffReadError>((x, t.len() as int)) by {
                let c1 = t.skip(m.len() as int) + c;
                let c0 = m.skip(h.len() as int) + c1;
                assert(t + c =~= m + c1);
                assert(t + c =~= s + a + (b + c0));
                assert(t + c =~= (s + a) + b + c0);
                lemma_number(s, x.graph as nat, 8, b + c0, t + c);
                lemma_number(s + a, x.instance as nat, 8, c0, t + c);
                assert(get_list(get_node(), m + c1, h.len() as int) == Ok::<_, HandoffReadError>(
                    (x.nodes, m.len() as int),
                ));
                assert(get_list(get_edge(), t + c, m.len() as int) == Ok::<_, HandoffReadError>(
                    (x.edges, t.len() as int),
                ));
            }
        }
    }
    assert forall|e: HandoffError| #[trigger] w(Err(e), x) == Err::<Seq<u8>, _>(e) by {
        assert(put_list(put_node(), Err(e), x.nodes) == Err::<Seq<u8>, _>(e));
        assert(put_list(put_edge(), Err(e), x.edges) == Err::<Seq<u8>, _>(e));
    }
}

proof fn lemma_lib_round_trips(x: LibModel)
    ensures
        round_trips(put_lib(), get_lib(), x),
{
    let w = put_lib();
    let p = get_lib();
    assert forall|s: Seq<u8>| (#[trigger] w(Ok(s), x)) is Ok implies reads_back(
        p,
        s,
        w(Ok(s), x)->Ok_0,
        x,
    ) by {
        let t = w(Ok(s), x)->Ok_0;
        if w(Ok(s), x) is Ok {
            let l = seq![x.library];
            let f = le_bytes(x.function as nat, 2);
            let h = le_bytes(x.handle as nat, 8);
            let n = le_bytes(x.args.len(), 4);
            lemma_le_len(x.function as nat, 2);
            lemma_le_len(x.handle as nat, 8);
            lemma_le_len(x.args.len(), 4);
            lemma_byte_range();
            assert(le_bytes(x.library as nat, 1) =~= l) by {
                reveal_with_fuel(le_bytes, 2);
            }
            assert(t =~= s + l + f + h + n + x.args);
            assert(t.take(s.len() as int) =~= s);
            assert forall|c: Seq<u8>| #[trigger]
                p(t + c, s.len() as int) == Ok::<_, HandoffReadError>((x, t.len() as int)) by {
                let rest = n + x.args + c;
                assert(t + c =~= s + l + (f + h + rest));
                assert(t + c =~= (s + l) + f + (h + rest));
                assert(t + c =~= (s + l + f) + h + rest);
                assert(t + c =~= (s + l + f + h) + n + x.args + c);
                lemma_number(s, x.library as nat, 1, f + h + rest, t + c);
                lemma_number(s + l, x.function as nat, 2, h + rest, t + c);
                lemma_number(s + l + f, x.handle as nat, 8, rest, t + c);
                lemma_bytes_at(s + l + f + h, x.args, c, t + c);
            }
        }
    }
}

proof fn lemma_oplog_round_trips(x: OplogModel)
    ensures
        round_trips(put_oplog(), get_oplog(), x),
{
    let w = put_oplog();
    let p = get_oplog();
    assert forall|i: int| 0 <= i < x.ops.len() implies round_trips(
        put_bytes(),
        get_blob(),
        #[trigger] x.ops[i],
    ) by {
        lemma_blob_round_trips(x.ops[i]);
    }
    lemma_list_round_trips(put_bytes(), get_blob(), x.ops);
    assert forall|s: Seq<u8>| (#[trigger] w(Ok(s), x)) is Ok implies reads_back(
        p,
        s,
        w(Ok(s), x)->Ok_0,
        x,
    ) by {
        let t = w(Ok(s), x)->Ok_0;
        if w(Ok(s), x) is Ok {
            let a = le_bytes(x.graph as nat, 8);
            let b = le_bytes(x.instance as nat, 8);
            lemma_le_len(x.graph as nat, 8);
            lemma_le_len(x.instance as nat, 8);
            lemma_byte_range();
            let head = put(put(Ok(s), a), b);
            if let Err(e) = head {
                assert(put_list(put_bytes(), Err(e), x.ops) == Err::<Seq<u8>, _>(e));
                assert(false);
            }
            let h = head->Ok_0;
            assert(h =~= s + a + b);
            assert(put_list(put_bytes(), Ok(h), x.ops) == Ok::<_, HandoffError>(t));
            lemma_grows(h, t);
            assert(t.take(s.len() as int) =~= h.take(s.len() as int));
            assert(h.take(s.len() as int) =~= s);
            assert forall|c: Seq<u8>| #[trigger]
                p(t + c, s.len() as int) == Ok::<_, HandoffReadError>((x, t.len() as int)) by {
                let rest = t.skip(h.len() as int) + c;
                assert(t + c =~= s + a + (b + rest));
                assert(t + c =~= (s + a) + b + rest);
                lemma_number(s, x.graph as nat, 8, b + rest, t + c);
                lemma_number(s + a, x.instance as nat, 8, rest, t + c);
                assert(get_list(get_blob(), t + c, h.len() as int) == Ok::<_, HandoffReadError>(
                    (x.ops, t.len() as int),
                ));
            }
        }
    }
    assert forall|e: HandoffError| #[trigger] w(Err(e), x) == Err::<Seq<u8>, _>(e) by {
        assert(put_list(put_bytes(), Err(e), x.ops) == Err::<Seq<u8>, _>(e));
    }
}

/// What is written behind the modules reads back, whatever stands before it.
proof fn lemma_rest_round_trips(s: Seq<u8>, h: HandoffModel, t: Seq<u8>)
    requires
        put_rest(Ok(s), h) == Ok::<_, HandoffError>(t),
    ensures
        grows(s, t),
        get_rest(t, s.len() as int) == Ok::<_, HandoffReadError>(h),
{
    assert forall|i: int| 0 <= i < h.funcs.len() implies round_trips(
        put_func(),
        get_func(),
        #[trigger] h.funcs[i],
    ) by {
        lemma_func_round_trips(h.funcs[i]);
    }
    assert forall|i: int| 0 <= i < h.streams.len() implies round_trips(
        put_flagged(),
        get_flagged(),
        #[trigger] h.streams[i],
    ) by {
        lemma_flagged_round_trips(h.streams[i]);
    }
    assert forall|i: int| 0 <= i < h.events.len() implies round_trips(
        put_flagged(),
        get_flagged(),
        #[trigger] h.events[i],
    ) by {
        lemma_flagged_round_trips(h.events[i]);
    }
    assert forall|i: int| 0 <= i < h.graphs.len() implies round_trips(
        put_graph(),
        get_graph(),
        #[trigger] h.graphs[i],
    ) by {
        lemma_graph_round_trips(h.graphs[i]);
    }
    assert forall|i: int| 0 <= i < h.libs.len() implies round_trips(
        put_lib(),
        get_lib(),
        #[trigger] h.libs[i],
    ) by {
        lemma_lib_round_trips(h.libs[i]);
    }
    assert forall|i: int| 0 <= i < h.oplogs.len() implies round_trips(
        put_oplog(),
        get_oplog(),
        #[trigger] h.oplogs[i],
    ) by {
        lemma_oplog_round_trips(h.oplogs[i]);
    }
    lemma_list_round_trips(put_func(), get_func(), h.funcs);
    lemma_list_round_trips(put_flagged(), get_flagged(), h.streams);
    lemma_list_round_trips(put_flagged(), get_flagged(), h.events);
    lemma_list_round_trips(put_graph(), get_graph(), h.graphs);
    lemma_list_round_trips(put_lib(), get_lib(), h.libs);
    lemma_list_round_trips(put_oplog(), get_oplog(), h.oplogs);
    let r1 = put_list(put_func(), Ok(s), h.funcs);
    let r2 = put_list(put_flagged(), r1, h.streams);
    let r3 = put_list(put_flagged(), r2, h.events);
    let r4 = put_list(put_graph(), r3, h.graphs);
    let r5 = put_list(put_lib(), r4, h.libs);
    let r6 = put_list(put_oplog(), r5, h.oplogs);
    assert(r6 == Ok::<_, HandoffError>(t));
    if let Err(e) = r5 {
        assert(put_list(put_oplog(), Err(e), h.oplogs) == Err::<Seq<u8>, _>(e));
        assert(false);
    }
    if let Err(e) = r4 {
        assert(put_list(put_lib(), Err(e), h.libs) == Err::<Seq<u8>, _>(e));
        assert(false);
    }
    if let Err(e) = r3 {
        assert(put_list(put_graph(), Err(e), h.graphs) == Err::<Seq<u8>, _>(e));
        assert(false);
    }
    if let Err(e) = r2 {
        assert(put_list(put_flagged(), Err(e), h.events) == Err::<Seq<u8>, _>(e));
        assert(false);
    }
    if let Err(e) = r1 {
        assert(put_list(put_flagged(), Err(e), h.streams) == Err::<Seq<u8>, _>(e));
        assert(false);
    }
    let t1 = r1->Ok_0;
    let t2 = r2->Ok_0;
    let t3 = r3->Ok_0;
    let t4 = r4->Ok_0;
    let t5 = r5->Ok_0;
    assert(put_list(put_func(), Ok(s), h.funcs) == Ok::<_, HandoffError>(t1));
    assert(put_list(put_flagged(), Ok(t1), h.streams) == Ok::<_, HandoffError>(t2));
    assert(put_list(put_flagged(), Ok(t2), h.events) == Ok::<_, HandoffError>(t3));
    assert(put_list(put_graph(), Ok(t3), h.graphs) == Ok::<_, HandoffError>(t4));
    assert(put_list(put_lib(), Ok(t4), h.libs) == Ok::<_, HandoffError>(t5));
    assert(put_list(put_oplog(), Ok(t5), h.oplogs) == Ok::<_, HandoffError>(t));
    lemma_chain(s, t1, t2);
    lemma_chain(s, t2, t3);
    lemma_chain(s, t3, t4);
    lemma_chain(s, t4, t5);
    lemma_chain(s, t5, t);
    lemma_chain(t1, t2, t3);
    lemma_chain(t1, t3, t4);
    lemma_chain(t1, t4, t5);
    lemma_chain(t1, t5, t);
    lemma_chain(t2, t3, t4);
    lemma_chain(t2, t4, t5);
    lemma_chain(t2, t5, t);
    lemma_chain(t3, t4, t5);
    lemma_chain(t3, t5, t);
    lemma_chain(t4, t5, t);
    lemma_grows(t1, t);
    lemma_grows(t2, t);
    lemma_grows(t3, t);
    lemma_grows(t4, t);
    lemma_grows(t5, t);
    let e = Seq::<u8>::empty();
    assert(t + e =~= t);
    assert(get_list(get_func(), t1 + t.skip(t1.len() as int), s.len() as int) == Ok::<
        _,
        HandoffReadError,
    >((h.funcs, t1.len() as int)));
    assert(get_list(get_flagged(), t2 + t.skip(t2.len() as int), t1.len() as int) == Ok::<
        _,
        HandoffReadError,
    >((h.streams, t2.len() as int)));
    assert(get_list(get_flagged(), t3 + t.skip(t3.len() as int), t2.len() as int) == Ok::<
        _,
        HandoffReadError,
    >((h.events, t3.len() as int)));
    assert(get_list(get_graph(), t4 + t.skip(t4.len() as int), t3.len() as int) == Ok::<
        _,
        HandoffReadError,
    >((h.graphs, t4.len() as int)));
    assert(get_list(get_lib(), t5 + t.skip(t5.len() as int), t4.len() as int) == Ok::<
        _,
        HandoffReadError,
    >((h.libs, t5.len() as int)));
    assert(get_list(get_oplog(), t + e, t5.len() as int) == Ok::<_, HandoffReadError>(
        (h.oplogs, t.len() as int),
    ));
    assert(t3.len() < t.len() && t4.len() < t.len() && t5.len() < t.len());
}

proof fn lemma_chain(a: Seq<u8>, b: Seq<u8>, c: Seq<u8>)
    requires
        grows(a, b),
        grows(b, c),
    ensures
        grows(a, c),
{
    assert(c.take(a.len() as int) =~= b.take(a.len() as int));
}

/// What was written without a store reads back as it was, images and all, unless
/// the number of modules happens to spell the mark of a message with a store.
pub proof fn law_handoff_round_trips(
    modules: Seq<(u64, Seq<u8>)>,
    rest: HandoffModel,
    message: Seq<u8>,
)
    requires
        handoff_message(modules, rest) == Ok::<_, HandoffError>(message),
        modules.len() != 0x3249_484d,
    ensures
        !uses_store(message),
        parsed_handoff(message) == Ok::<_, HandoffReadError>((modules, rest)),
{
    let start = Seq::<u8>::empty();
    let r = put_list(put_module(), Ok(start), modules);
    lemma_rest_ok(r, rest);
    let m = r->Ok_0;
    lemma_rest_round_trips(m, rest, message);
    lemma_grows(m, message);
    lemma_modules_part(modules, m, message.skip(m.len() as int));
    let n = le_bytes(modules.len(), 4);
    lemma_byte_range();
    lemma_le_round_trip(modules.len(), 4);
    assert(message.subrange(0, 4) =~= n);
    lemma_magic_value();
}

/// A message that was finished had not failed before.
proof fn lemma_rest_ok(r: Result<Seq<u8>, HandoffError>, rest: HandoffModel)
    requires
        put_rest(r, rest) is Ok,
    ensures
        r is Ok,
{
    if let Err(e) = r {
        lemma_rest_sticky(e, rest);
    }
}

proof fn lemma_modules_part(modules: Seq<(u64, Seq<u8>)>, m: Seq<u8>, c: Seq<u8>)
    requires
        put_list(put_module(), Ok(Seq::<u8>::empty()), modules) == Ok::<_, HandoffError>(m),
    ensures
        get_list(get_module(), m + c, 0) == Ok::<_, HandoffReadError>((modules, m.len() as int)),
        m.len() >= 4,
        m.take(4) == le_bytes(modules.len(), 4),
        modules.len() <= u32::MAX,
{
    let start = Seq::<u8>::empty();
    assert forall|i: int| 0 <= i < modules.len() implies round_trips(
        put_module(),
        get_module(),
        #[trigger] modules[i],
    ) by {
        lemma_module_round_trips(modules[i]);
    }
    lemma_list_round_trips(put_module(), get_module(), modules);
    assert(list_reads_back(get_module(), start, m, modules));
    assert(get_list(get_module(), m + c, start.len() as int) == Ok::<_, HandoffReadError>(
        (modules, m.len() as int),
    ));
    let head = put_len(Ok(start), modules.len());
    if let Err(e) = head {
        lemma_each_sticky(put_module(), get_module(), e, modules);
        assert(false);
    }
    let n = le_bytes(modules.len(), 4);
    assert(start + n =~= n);
    lemma_le_len(modules.len(), 4);
    lemma_each_round_trips(put_module(), get_module(), n, modules, m, start);
}

proof fn lemma_magic_value()
    ensures
        le_value(external_magic()) == 0x3249_484d,
{
    reveal_with_fuel(le_value, 5);
    let x = external_magic();
    assert(x.skip(1) =~= seq![0x48u8, 0x49u8, 0x32u8]);
    assert(x.skip(1).skip(1) =~= seq![0x49u8, 0x32u8]);
    assert(x.skip(1).skip(1).skip(1) =~= seq![0x32u8]);
    assert(x.skip(1).skip(1).skip(1).skip(1) =~= Seq::empty());
}

proof fn lemma_rest_sticky(e: HandoffError, h: HandoffModel)
    ensures
        put_rest(Err(e), h) == Err::<Seq<u8>, _>(e),
{
    assert forall|i: int| 0 <= i < h.funcs.len() implies round_trips(
        put_func(),
        get_func(),
        #[trigger] h.funcs[i],
    ) by {
        lemma_func_round_trips(h.funcs[i]);
    }
    assert forall|i: int| 0 <= i < h.streams.len() implies round_trips(
        put_flagged(),
        get_flagged(),
        #[trigger] h.streams[i],
    ) by {
        lemma_flagged_round_trips(h.streams[i]);
    }
    assert forall|i: int| 0 <= i < h.events.len() implies round_trips(
        put_flagged(),
        get_flagged(),
        #[trigger] h.events[i],
    ) by {
        lemma_flagged_round_trips(h.events[i]);
    }
    assert forall|i: int| 0 <= i < h.graphs.len() implies round_trips(
        put_graph(),
        get_graph(),
        #[trigger] h.graphs[i],
    ) by {
        lemma_graph_round_trips(h.graphs[i]);
    }
    assert forall|i: int| 0 <= i < h.libs.len() implies round_trips(
        put_lib(),
        get_lib(),
        #[trigger] h.libs[i],
    ) by {
        lemma_lib_round_trips(h.libs[i]);
    }
    assert forall|i: int| 0 <= i < h.oplogs.len() implies round_trips(
        put_oplog(),
        get_oplog(),
        #[trigger] h.oplogs[i],
    ) by {
        lemma_oplog_round_trips(h.oplogs[i]);
    }
    lemma_each_sticky(put_func(), get_func(), e, h.funcs);
    lemma_each_sticky(put_flagged(), get_flagged(), e, h.streams);
    lemma_each_sticky(put_flagged(), get_flagged(), e, h.events);
    lemma_each_sticky(put_graph(), get_graph(), e, h.graphs);
    lemma_each_sticky(put_lib(), get_lib(), e, h.libs);
    lemma_each_sticky(put_oplog(), get_oplog(), e, h.oplogs);
}

/// The place of a module's image in its store.
pub open spec fn place_of(ranges: Seq<(u64, u64, u64)>, m: (u64, Seq<u8>)) -> ImageRef {
    ImageRef {
        handle: m.0,
        offset: range_of(ranges, m.0, 0)->Some_0.0,
        len: m.1.len() as u32,
    }
}

/// The places of the modules' images in their store.
pub open spec fn places_of(ranges: Seq<(u64, u64, u64)>, v: Seq<(u64, Seq<u8>)>) -> Seq<ImageRef> {
    v.map_values(|m: (u64, Seq<u8>)| place_of(ranges, m))
}

proof fn lemma_stored_each(
    ranges: Seq<(u64, u64, u64)>,
    bytes: u64,
    s: Seq<u8>,
    v: Seq<(u64, Seq<u8>)>,
    t: Seq<u8>,
    c: Seq<u8>,
)
    requires
        put_each(put_stored(ranges, bytes), Ok(s), v) == Ok::<_, HandoffError>(t),
    ensures
        grows(s, t),
        get_each(get_stored(bytes), t + c, s.len() as int, v.len()) == Ok::<_, HandoffReadError>(
            (places_of(ranges, v), t.len() as int),
        ),
    decreases v.len(),
{
    let w = put_stored(ranges, bytes);
    let places = places_of(ranges, v);
    if v.len() == 0 {
        assert(t.take(s.len() as int) =~= s);
        assert(places =~= Seq::empty());
    } else {
        let front = v.drop_last();
        let x = v.last();
        let mid = put_each(w, Ok(s), front);
        assert(mid is Ok);
        let m = mid->Ok_0;
        let a = le_bytes(x.0 as nat, 8);
        let range = range_of(ranges, x.0, 0)->Some_0;
        let b = le_bytes(range.0 as nat, 8);
        let n = le_bytes(x.1.len(), 4);
        lemma_le_len(x.0 as nat, 8);
        lemma_le_len(range.0 as nat, 8);
        lemma_le_len(x.1.len(), 4);
        lemma_byte_range();
        assert(t =~= m + a + b + n);
        assert(t.take(m.len() as int) =~= m);
        let c2 = a + b + n + c;
        lemma_stored_each(ranges, bytes, s, front, m, c2);
        assert(m + c2 =~= t + c);
        assert(t + c =~= m + a + (b + n + c));
        assert(t + c =~= (m + a) + b + (n + c));
        assert(t + c =~= (m + a + b) + n + c);
        lemma_number(m, x.0 as nat, 8, b + n + c, t + c);
        lemma_number(m + a, range.0 as nat, 8, n + c, t + c);
        lemma_number(m + a + b, x.1.len(), 4, c, t + c);
        assert(places =~= places_of(ranges, front).push(place_of(ranges, x)));
        lemma_chain(s, m, t);
    }
}

/// What was written with a store reads back as the places of its images there and
/// everything else as it was.
pub proof fn law_stored_handoff_round_trips(
    modules: Seq<(u64, Seq<u8>)>,
    ranges: Seq<(u64, u64, u64)>,
    bytes: u64,
    rest: HandoffModel,
    message: Seq<u8>,
)
    requires
        stored_message(modules, ranges, bytes, rest) == Ok::<_, HandoffError>(message),
    ensures
        uses_store(message),
        parsed_stored_handoff(message, bytes) == Ok::<_, HandoffReadError>(
            (places_of(ranges, modules), rest),
        ),
{
    let magic = external_magic();
    lemma_start_with(magic);
    let r = put_list(put_stored(ranges, bytes), Ok(magic), modules);
    assert(put_rest(r, rest) == Ok::<_, HandoffError>(message));
    lemma_rest_ok(r, rest);
    let m = r->Ok_0;
    lemma_rest_round_trips(m, rest, message);
    lemma_grows(m, message);
    let c = message.skip(m.len() as int);
    lemma_stored_part(modules, ranges, bytes, m, c);
    assert(message.subrange(0, 4) =~= m.take(4));
}

proof fn lemma_start_with(b: Seq<u8>)
    requires
        b.len() <= MAX_MODULE_HANDOFF_BLOB_BYTES,
    ensures
        put(Ok(Seq::<u8>::empty()), b) == Ok::<_, HandoffError>(b),
{
    assert(Seq::<u8>::empty() + b =~= b);
}

proof fn lemma_stored_part(
    modules: Seq<(u64, Seq<u8>)>,
    ranges: Seq<(u64, u64, u64)>,
    bytes: u64,
    m: Seq<u8>,
    c: Seq<u8>,
)
    requires
        put_list(put_stored(ranges, bytes), Ok(external_magic()), modules) == Ok::<_, HandoffError>(
            m,
        ),
    ensures
        get_list(get_stored(bytes), m + c, 4) == Ok::<_, HandoffReadError>(
            (places_of(ranges, modules), m.len() as int),
        ),
        m.len() >= 4,
        m.take(4) == external_magic(),
{
    let magic = external_magic();
    let head = put_len(Ok(magic), modules.len());
    if let Err(e) = head {
        lemma_stored_sticky(ranges, bytes, e, modules);
        assert(false);
    }
    let n = le_bytes(modules.len(), 4);
    let h = head->Ok_0;
    assert(h == magic + n);
    lemma_le_len(modules.len(), 4);
    lemma_stored_each(ranges, bytes, h, modules, m, c);
    lemma_grows(h, m);
    lemma_byte_range();
    let rest = m.skip(h.len() as int) + c;
    assert(m + c =~= magic + n + rest);
    lemma_number(magic, modules.len(), 4, rest, m + c);
    assert(m.take(4) =~= magic);
}

proof fn lemma_stored_sticky(
    ranges: Seq<(u64, u64, u64)>,
    bytes: u64,
    e: HandoffError,
    v: Seq<(u64, Seq<u8>)>,
)
    ensures
        put_each(put_stored(ranges, bytes), Err(e), v) == Err::<Seq<u8>, _>(e),
    decreases v.len(),
{
    if v.len() > 0 {
        lemma_stored_sticky(ranges, bytes, e, v.drop_last());
    }
}

} // verus!
