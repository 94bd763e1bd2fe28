//! Writing a memory layout as text, and what reading it back gives.
use crate::daemon::layout::{
    CloneLayout, LayoutModel, MapEntry, alloc_reader, hex_number, last_section, map_reader,
    parsed_layout, region_reader, reservation_reader,
};
use crate::numerals::{
    decimal, decimal_chars, is_digit_char, lemma_numeral_chars, lemma_numeral_value,
    lemma_parse_numeral, numeral, numeral_chars, parse_signed,
};
use crate::split::{
    after_prefix, lemma_split_append, lemma_split_first, lemma_split_nonempty, lemma_split_plain,
    only, split_on,
};
use crate::text::{chars_of, string_of};
use vstd::prelude::*;

verus! {

/// A number in hexadecimal.
pub open spec fn hex_text(n: u64) -> Seq<char> {
    numeral(n as nat, 16)
}

/// An entry with the given fields.
pub open spec fn fields_text(fields: Seq<Seq<char>>) -> Seq<char>
    decreases fields.len(),
{
    if fields.len() == 0 {
        Seq::empty()
    } else if fields.len() == 1 {
        fields[0]
    } else {
        fields_text(fields.drop_last()).push(':') + fields.last()
    }
}

/// Entries, each with a comma behind it.
pub open spec fn entries_text(entries: Seq<Seq<char>>) -> Seq<char>
    decreases entries.len(),
{
    if entries.len() == 0 {
        Seq::empty()
    } else {
        entries_text(entries.drop_last()) + entries.last().push(',')
    }
}

/// The fields of a reserved range.
pub open spec fn reservation_fields(r: (u64, u64)) -> Seq<Seq<char>> {
    seq![hex_text(r.0), hex_text(r.1)]
}

/// The fields of a mapped range.
pub open spec fn map_fields(m: MapEntry) -> Seq<Seq<char>> {
    let head = seq![
        hex_text(m.va),
        hex_text(m.size),
        decimal(m.index as nat),
        if m.loaded {
            seq!['1']
        } else {
            seq!['0']
        },
    ];
    match (m.handle, m.host_offset) {
        (Some(h), Some(o)) => head + seq![hex_text(h), hex_text(o)],
        (Some(h), None) => head + seq![hex_text(h)],
        _ => head,
    }
}

/// The fields of a region.
pub open spec fn region_fields(r: (u64, u64, u64)) -> Seq<Seq<char>> {
    seq![hex_text(r.0), hex_text(r.1), hex_text(r.2)]
}

/// The fields of an allocation.
pub open spec fn alloc_fields(a: (u64, u64, Option<u64>)) -> Seq<Seq<char>> {
    match a.2 {
        Some(o) => seq![hex_text(a.0), hex_text(a.1), hex_text(o)],
        None => seq![hex_text(a.0), hex_text(a.1)],
    }
}

/// The text of the reserved ranges.
pub open spec fn reservations_text(v: Seq<(u64, u64)>) -> Seq<char> {
    entries_text(v.map_values(|r: (u64, u64)| fields_text(reservation_fields(r))))
}

/// The text of the mapped ranges.
pub open spec fn maps_text(v: Seq<MapEntry>) -> Seq<char> {
    entries_text(v.map_values(|m: MapEntry| fields_text(map_fields(m))))
}

/// The text of the regions.
pub open spec fn regions_text(v: Seq<(u64, u64, u64)>) -> Seq<char> {
    entries_text(v.map_values(|r: (u64, u64, u64)| fields_text(region_fields(r))))
}

/// The text of the allocations.
pub open spec fn allocs_text(v: Seq<(u64, u64, Option<u64>)>) -> Seq<char> {
    entries_text(v.map_values(|a: (u64, u64, Option<u64>)| fields_text(alloc_fields(a))))
}

/// The text of a layout. A layout without a descriptor for ordinary allocations
/// has none of their sections.
pub open spec fn layout_text(l: LayoutModel) -> Seq<char> {
    let head = ("resv="@ + reservations_text(l.reservations)).push('|') + ("maps="@ + maps_text(
        l.maps,
    ));
    let tail = (("aregions="@ + regions_text(l.regions)).push('|') + ("allocs="@ + allocs_text(
        l.allocs,
    )));
    match (l.host, l.stage) {
        (Some(i), _) => head.push('|') + (("ahost="@ + decimal(i as nat)).push('|') + tail),
        (None, Some(i)) => head.push('|') + (("astage="@ + decimal(i as nat)).push('|') + tail),
        (None, None) => head,
    }
}

/// A layout that can be written: descriptor indices are not negative, every mapped
/// range has its handle, and ordinary allocations come with exactly one descriptor.
pub open spec fn writable(l: LayoutModel) -> bool {
    &&& forall|i: int|
        0 <= i < l.maps.len() ==> (#[trigger] l.maps[i]).index >= 0 && l.maps[i].handle is Some
    &&& l.regions_given == (l.regions.len() > 0)
    &&& l.host matches Some(i) ==> i >= 0 && l.stage is None
    &&& l.stage matches Some(i) ==> i >= 0
    &&& l.host is None && l.stage is None ==> l.regions.len() == 0 && l.allocs.len() == 0
}

fn push_text(out: &mut Vec<char>, text: &str)
    ensures
        final(out)@ == old(out)@ + text@,
{
    let mut more = chars_of(text);
    out.append(&mut more);
}

fn push_hex(out: &mut Vec<char>, n: u64)
    ensures
        final(out)@ == old(out)@ + hex_text(n),
{
    let mut more = numeral_chars(n as u128, 16);
    out.append(&mut more);
}

fn push_index(out: &mut Vec<char>, n: i32)
    requires
        n >= 0,
    ensures
        final(out)@ == old(out)@ + decimal(n as nat),
{
    let mut more = decimal_chars(n as u128);
    out.append(&mut more);
}

proof fn lemma_two_fields(a: Seq<char>, b: Seq<char>)
    ensures
        fields_text(seq![a, b]) == a.push(':') + b,
{
    reveal_with_fuel(fields_text, 3);
    assert(seq![a, b].drop_last() =~= seq![a]);
    assert(fields_text(seq![a]) == a);
}

proof fn lemma_more_fields(v: Seq<Seq<char>>, x: Seq<char>)
    requires
        v.len() > 0,
    ensures
        fields_text(v.push(x)) == fields_text(v).push(':') + x,
{
    assert(v.push(x).drop_last() =~= v);
}

fn push_reservations(out: &mut Vec<char>, v: &[(u64, u64)])
    ensures
        final(out)@ == old(out)@ + reservations_text(v@),
{
    let ghost start = out@;
    let ghost texts = v@.map_values(|r: (u64, u64)| fields_text(reservation_fields(r)));
    let mut i: usize = 0;
    proof { assert(start + entries_text(texts.take(0)) =~= start); }
    while i < v.len()
        invariant
            i <= v@.len(),
            texts == v@.map_values(|r: (u64, u64)| fields_text(reservation_fields(r))),
            out@ == start + entries_text(texts.take(i as int)),
        decreases v@.len() - i,
    {
        let ghost before = out@;
        push_hex(out, v[i].0);
        out.push(':');
        push_hex(out, v[i].1);
        out.push(',');
        proof {
            let r = v@[i as int];
            lemma_two_fields(hex_text(r.0), hex_text(r.1));
            assert(texts.take(i + 1).drop_last() =~= texts.take(i as int));
            assert(texts.take(i + 1).last() == fields_text(reservation_fields(r)));
            assert(out@ =~= before + fields_text(reservation_fields(r)).push(','));
            assert(out@ =~= start + entries_text(texts.take(i + 1)));
        }
        i = i + 1;
    }
    proof { assert(texts.take(texts.len() as int) =~= texts); }
}

fn push_maps(out: &mut Vec<char>, v: &[MapEntry])
    requires
        forall|i: int| 0 <= i < v@.len() ==> (#[trigger] v@[i]).index >= 0,
    ensures
        final(out)@ == old(out)@ + maps_text(v@),
{
    let ghost start = out@;
    let ghost texts = v@.map_values(|m: MapEntry| fields_text(map_fields(m)));
    let mut i: usize = 0;
    proof { assert(start + entries_text(texts.take(0)) =~= start); }
    while i < v.len()
        invariant
            i <= v@.len(),
            forall|i: int| 0 <= i < v@.len() ==> (#[trigger] v@[i]).index >= 0,
            texts == v@.map_values(|m: MapEntry| fields_text(map_fields(m))),
            out@ == start + entries_text(texts.take(i as int)),
        decreases v@.len() - i,
    {
        let ghost before = out@;
        let m = v[i];
        assert(v@[i as int].index >= 0);
        push_hex(out, m.va);
        out.push(':');
        push_hex(out, m.size);
        out.push(':');
        push_index(out, m.index);
        out.push(':');
        out.push(
            if m.loaded {
                '1'
            } else {
                '0'
            },
        );
        let ghost flag = if m.loaded {
            seq!['1']
        } else {
            seq!['0']
        };
        let ghost head = seq![hex_text(m.va), hex_text(m.size), decimal(m.index as nat), flag];
        proof {
            lemma_two_fields(hex_text(m.va), hex_text(m.size));
            let two = seq![hex_text(m.va), hex_text(m.size)];
            lemma_more_fields(two, decimal(m.index as nat));
            let three = two.push(decimal(m.index as nat));
            lemma_more_fields(three, flag);
            assert(three.push(flag) =~= head);
            assert(out@ =~= before + fields_text(head));
        }
        if let Some(h) = m.handle {
            out.push(':');
            push_hex(out, h);
            proof {
                lemma_more_fields(head, hex_text(h));
                assert(head.push(hex_text(h)) =~= head + seq![hex_text(h)]);
                assert(out@ =~= before + fields_text(head.push(hex_text(h))));
            }
            if let Some(o) = m.host_offset {
                out.push(':');
                push_hex(out, o);
                proof {
                    let five = head.push(hex_text(h));
                    lemma_more_fields(five, hex_text(o));
                    assert(five.push(hex_text(o)) =~= head + seq![hex_text(h), hex_text(o)]);
                    assert(out@ =~= before + fields_text(five.push(hex_text(o))));
                }
            }
        }
        proof { assert(out@ == before + fields_text(map_fields(m))); }
        out.push(',');
        proof {
            assert(texts.take(i + 1).drop_last() =~= texts.take(i as int));
            assert(texts.take(i + 1).last() == fields_text(map_fields(m)));
            assert(out@ =~= before + fields_text(map_fields(m)).push(','));
            assert(out@ =~= start + entries_text(texts.take(i + 1)));
        }
        i = i + 1;
    }
    proof { assert(texts.take(texts.len() as int) =~= texts); }
}

fn push_regions(out: &mut Vec<char>, v: &[(u64, u64, u64)])
    ensures
        final(out)@ == old(out)@ + regions_text(v@),
{
    let ghost start = out@;
    let ghost texts = v@.map_values(|r: (u64, u64, u64)| fields_text(region_fields(r)));
    let mut i: usize = 0;
    proof { assert(start + entries_text(texts.take(0)) =~= start); }
    while i < v.len()
        invariant
            i <= v@.len(),
            texts == v@.map_values(|r: (u64, u64, u64)| fields_text(region_fields(r))),
            out@ == start + entries_text(texts.take(i as int)),
        decreases v@.len() - i,
    {
        let ghost before = out@;
        push_hex(out, v[i].0);
        out.push(':');
        push_hex(out, v[i].1);
        out.push(':');
        push_hex(out, v[i].2);
        out.push(',');
        proof {
            let r = v@[i as int];
            lemma_two_fields(hex_text(r.0), hex_text(r.1));
            let two = seq![hex_text(r.0), hex_text(r.1)];
            lemma_more_fields(two, hex_text(r.2));
            assert(two.push(hex_text(r.2)) =~= region_fields(r));
            assert(texts.take(i + 1).drop_last() =~= texts.take(i as int));
            assert(texts.take(i + 1).last() == fields_text(region_fields(r)));
            assert(out@ =~= before + fields_text(region_fields(r)).push(','));
            assert(out@ =~= start + entries_text(texts.take(i + 1)));
        }
        i = i + 1;
    }
    proof { assert(texts.take(texts.len() as int) =~= texts); }
}

fn push_allocs(out: &mut Vec<char>, v: &[(u64, u64, Option<u64>)])
    ensures
        final(out)@ == old(out)@ + allocs_text(v@),
{
    let ghost start = out@;
    let ghost texts = v@.map_values(|a: (u64, u64, Option<u64>)| fields_text(alloc_fields(a)));
    let mut i: usize = 0;
    proof { assert(start + entries_text(texts.take(0)) =~= start); }
    while i < v.len()
        invariant
            i <= v@.len(),
            texts == v@.map_values(|a: (u64, u64, Option<u64>)| fields_text(alloc_fields(a))),
            out@ == start + entries_text(texts.take(i as int)),
        decreases v@.len() - i,
    {
        let ghost before = out@;
        let a = v[i];
        push_hex(out, a.0);
        out.push(':');
        push_hex(out, a.1);
        proof {
            lemma_two_fields(hex_text(a.0), hex_text(a.1));
            assert(out@ =~= before + fields_text(seq![hex_text(a.0), hex_text(a.1)]));
        }
        if let Some(o) = a.2 {
            out.push(':');
            push_hex(out, o);
            proof {
                let two = seq![hex_text(a.0), hex_text(a.1)];
                lemma_more_fields(two, hex_text(o));
                assert(two.push(hex_text(o)) =~= alloc_fields(a));
                assert(out@ =~= before + fields_text(alloc_fields(a)));
            }
        }
        proof { assert(out@ == before + fields_text(alloc_fields(a))); }
        out.push(',');
        proof {
            assert(texts.take(i + 1).drop_last() =~= texts.take(i as int));
            assert(texts.take(i + 1).last() == fields_text(alloc_fields(a)));
            assert(out@ =~= before + fields_text(alloc_fields(a)).push(','));
            assert(out@ =~= start + entries_text(texts.take(i + 1)));
        }
        i = i + 1;
    }
    proof { assert(texts.take(texts.len() as int) =~= texts); }
}

/// Writes a layout.
pub fn write_layout(l: &CloneLayout) -> (r: String)
    requires
        writable(l@),
    ensures
        r@ == layout_text(l@),
{
    let mut out: Vec<char> = Vec::new();
    push_text(&mut out, "resv=");
    push_reservations(&mut out, &l.reservations);
    out.push('|');
    push_text(&mut out, "maps=");
    push_maps(&mut out, &l.maps);
    let ghost head = ("resv="@ + reservations_text(l.reservations@)).push('|') + ("maps="@
        + maps_text(l.maps@));
    proof { assert(out@ =~= head); }
    let index = match (l.host, l.stage) {
        (Some(i), _) => {
            out.push('|');
            push_text(&mut out, "ahost=");
            Some(i)
        },
        (None, Some(i)) => {
            out.push('|');
            push_text(&mut out, "astage=");
            Some(i)
        },
        (None, None) => None,
    };
    if let Some(i) = index {
        push_index(&mut out, i);
        out.push('|');
        push_text(&mut out, "aregions=");
        push_regions(&mut out, &l.regions);
        out.push('|');
        push_text(&mut out, "allocs=");
        push_allocs(&mut out, &l.allocs);
    }
    proof { assert(out@ =~= layout_text(l@)); }
    string_of(&out)
}

// ---------------------------------------------------------------------------
// Reading back
// ---------------------------------------------------------------------------

/// The characters of a field.
spec fn plain_field(f: Seq<char>) -> bool {
    forall|i: int| 0 <= i < f.len() ==> is_digit_char(#[trigger] f[i])
}

/// The characters of an entry.
spec fn plain_entry(e: Seq<char>) -> bool {
    forall|i: int| 0 <= i < e.len() ==> is_digit_char(#[trigger] e[i]) || e[i] == ':'
}

/// The characters of a list of entries.
spec fn plain_list(s: Seq<char>) -> bool {
    forall|i: int|
        0 <= i < s.len() ==> is_digit_char(#[trigger] s[i]) || s[i] == ':' || s[i] == ','
}

proof fn lemma_fields(fields: Seq<Seq<char>>)
    requires
        fields.len() > 0,
        forall|i: int| 0 <= i < fields.len() ==> plain_field(#[trigger] fields[i]),
    ensures
        split_on(fields_text(fields), ':') == fields,
        plain_entry(fields_text(fields)),
    decreases fields.len(),
{
    let last = fields.last();
    assert(plain_field(fields[fields.len() - 1]));
    lemma_split_plain(last, only(':'));
    if fields.len() == 1 {
        assert(fields =~= seq![last]);
    } else {
        let front = fields.drop_last();
        assert forall|i: int| 0 <= i < front.len() implies plain_field(#[trigger] front[i]) by {
            assert(front[i] == fields[i]);
        }
        lemma_fields(front);
        let a = fields_text(front);
        lemma_split_append(a, ':', last, only(':'));
        assert(front + seq![last] =~= fields);
        let s = fields_text(fields);
        assert forall|i: int| 0 <= i < s.len() implies is_digit_char(#[trigger] s[i]) || s[i]
            == ':' by {
            if i < a.len() {
                assert(s[i] == a[i]);
            } else if i > a.len() {
                assert(s[i] == last[i - a.len() - 1]);
            }
        }
    }
}

proof fn lemma_entries(entries: Seq<Seq<char>>)
    requires
        forall|i: int| 0 <= i < entries.len() ==> plain_entry(#[trigger] entries[i]),
    ensures
        split_on(entries_text(entries), ',') == entries.push(Seq::<char>::empty()),
        plain_list(entries_text(entries)),
    decreases entries.len(),
{
    if entries.len() == 0 {
        assert(split_on(entries_text(entries), ',') =~= entries.push(Seq::<char>::empty()));
    } else {
        let front = entries.drop_last();
        let last = entries.last();
        assert(plain_entry(entries[entries.len() - 1]));
        assert forall|i: int| 0 <= i < front.len() implies plain_entry(#[trigger] front[i]) by {
            assert(front[i] == entries[i]);
        }
        lemma_entries(front);
        let a = entries_text(front);
        let s = entries_text(entries);
        let empty = Seq::<char>::empty();
        lemma_split_plain(last, only(','));
        lemma_split_append(a + last, ',', empty, only(','));
        assert((a + last).push(',') + empty =~= s);
        lemma_split_plain(empty, only(','));
        lemma_split_tail(a, last);
        assert(split_on(a + last, ',') =~= front.push(last));
        assert(front.push(last) =~= entries);
        assert(split_on(s, ',') =~= entries.push(empty));
        assert forall|i: int| 0 <= i < s.len() implies is_digit_char(#[trigger] s[i]) || s[i] == ':'
            || s[i] == ',' by {
            if i < a.len() {
                assert(s[i] == a[i]);
            } else if i < a.len() + last.len() {
                assert(s[i] == last[i - a.len()]);
            }
        }
    }
}

/// Text without commas behind a text extends its last piece.
proof fn lemma_split_tail(a: Seq<char>, b: Seq<char>)
    requires
        plain_entry(b),
    ensures
        ({
            let x = split_on(a, ',');
            split_on(a + b, ',') == x.drop_last().push(x.last() + b)
        }),
    decreases b.len(),
{
    let x = split_on(a, ',');
    lemma_split_nonempty(a, only(','));
    if b.len() == 0 {
        assert(a + b =~= a);
        assert(x.last() + b =~= x.last());
        assert(x.drop_last().push(x.last()) =~= x);
    } else {
        let front = b.drop_last();
        assert forall|i: int| 0 <= i < front.len() implies is_digit_char(#[trigger] front[i])
            || front[i] == ':' by {
            assert(front[i] == b[i]);
        }
        lemma_split_tail(a, front);
        assert((a + b).drop_last() =~= a + front);
        assert((a + b).last() == b[b.len() - 1]);
        assert(is_digit_char(b[b.len() - 1]) || b[b.len() - 1] == ':');
        let y = x.drop_last().push(x.last() + front);
        assert(y.drop_last() =~= x.drop_last());
        assert((x.last() + front).push(b.last()) =~= x.last() + b);
    }
}

/// Reading every entry and dropping the empty rest behind the last comma gives
/// the values.
proof fn lemma_read_entries<B>(
    entries: Seq<Seq<char>>,
    f: spec_fn(Seq<char>) -> Option<B>,
    values: Seq<B>,
)
    requires
        entries.len() == values.len(),
        forall|i: int| 0 <= i < entries.len() ==> f(#[trigger] entries[i]) == Some(values[i]),
        f(Seq::<char>::empty()) is None,
    ensures
        entries.push(Seq::<char>::empty()).filter_map(f) == values,
{
    lemma_read_all(entries, f, values);
    assert(entries.push(Seq::<char>::empty()).drop_last() =~= entries);
}

proof fn lemma_read_all<B>(
    entries: Seq<Seq<char>>,
    f: spec_fn(Seq<char>) -> Option<B>,
    values: Seq<B>,
)
    requires
        entries.len() == values.len(),
        forall|i: int| 0 <= i < entries.len() ==> f(#[trigger] entries[i]) == Some(values[i]),
    ensures
        entries.filter_map(f) == values,
    decreases entries.len(),
{
    if entries.len() == 0 {
        assert(entries.filter_map(f) =~= values);
    } else {
        let front = entries.drop_last();
        assert forall|i: int| 0 <= i < front.len() implies f(#[trigger] front[i]) == Some(
            values.drop_last()[i],
        ) by {
            assert(front[i] == entries[i]);
        }
        lemma_read_all(front, f, values.drop_last());
        assert(f(entries[entries.len() - 1]) == Some(values[entries.len() - 1]));
        assert(values.drop_last() + seq![values.last()] =~= values);
    }
}

proof fn lemma_hex_field(n: u64)
    ensures
        plain_field(hex_text(n)),
        hex_number(hex_text(n)) == Some(n),
{
    lemma_numeral_chars(n as nat, 16);
    lemma_parse_numeral(n as nat, 16, u64::MAX as nat);
}

proof fn lemma_index_field(n: i32)
    requires
        n >= 0,
    ensures
        plain_field(decimal(n as nat)),
        parse_signed(decimal(n as nat)) == Some(n as int),
{
    lemma_numeral_chars(n as nat, 10);
    lemma_parse_numeral(n as nat, 10, i32::MAX as nat);
    lemma_numeral_value(n as nat, 10);
    assert(is_digit_char(decimal(n as nat)[0]));
}

/// Nothing reads an entry out of nothing.
proof fn lemma_empty_entry()
    ensures
        reservation_reader()(Seq::<char>::empty()) is None,
        map_reader()(Seq::<char>::empty()) is None,
        region_reader()(Seq::<char>::empty()) is None,
        alloc_reader()(Seq::<char>::empty()) is None,
{
    let e = Seq::<char>::empty();
    lemma_split_plain(e, only(':'));
    assert(!e.contains(':'));
}

proof fn lemma_reservations(v: Seq<(u64, u64)>)
    ensures
        split_on(reservations_text(v), ',').filter_map(reservation_reader()) == v,
        plain_list(reservations_text(v)),
{
    let texts = v.map_values(|r: (u64, u64)| fields_text(reservation_fields(r)));
    assert forall|i: int| 0 <= i < texts.len() implies plain_entry(#[trigger] texts[i])
        && reservation_reader()(texts[i]) == Some(v[i]) by {
        let r = v[i];
        let a = hex_text(r.0);
        let b = hex_text(r.1);
        lemma_hex_field(r.0);
        lemma_hex_field(r.1);
        lemma_fields(reservation_fields(r));
        lemma_two_fields(a, b);
        let s = a.push(':') + b;
        assert(texts[i] == s);
        assert(s[a.len() as int] == ':');
        assert forall|j: int| 0 <= j < a.len() implies s[j] != ':' by {
            assert(s[j] == a[j]);
            assert(is_digit_char(a[j]));
        }
        lemma_split_first(s, ':', a.len() as int);
        assert(s.take(a.len() as int) =~= a);
        assert(s.skip(a.len() as int + 1) =~= b);
    }
    lemma_entries(texts);
    lemma_empty_entry();
    lemma_read_entries(texts, reservation_reader(), v);
}

proof fn lemma_maps(v: Seq<MapEntry>)
    requires
        forall|i: int|
            0 <= i < v.len() ==> (#[trigger] v[i]).index >= 0 && v[i].handle is Some,
    ensures
        split_on(maps_text(v), ',').filter_map(map_reader()) == v,
        plain_list(maps_text(v)),
{
    let texts = v.map_values(|m: MapEntry| fields_text(map_fields(m)));
    assert forall|i: int| 0 <= i < texts.len() implies plain_entry(#[trigger] texts[i])
        && map_reader()(texts[i]) == Some(v[i]) by {
        let m = v[i];
        let f = map_fields(m);
        let h = m.handle->Some_0;
        lemma_hex_field(m.va);
        lemma_hex_field(m.size);
        lemma_index_field(m.index);
        lemma_hex_field(h);
        assert(plain_field(seq!['1']));
        assert(plain_field(seq!['0']));
        assert(seq!['1'] != seq!['0']) by {
            assert(seq!['1'][0] != seq!['0'][0]);
        }
        if let Some(o) = m.host_offset {
            lemma_hex_field(o);
        }
        assert forall|j: int| 0 <= j < f.len() implies plain_field(#[trigger] f[j]) by {}
        lemma_fields(f);
        assert(f[0] == hex_text(m.va));
        assert(f[1] == hex_text(m.size));
        assert(f[2] == decimal(m.index as nat));
        assert(f[4] == hex_text(h));
        assert(map_reader()(texts[i]) == Some(m));
    }
    lemma_entries(texts);
    lemma_empty_entry();
    lemma_read_entries(texts, map_reader(), v);
}

proof fn lemma_regions(v: Seq<(u64, u64, u64)>)
    ensures
        split_on(regions_text(v), ',').filter_map(region_reader()) == v,
        plain_list(regions_text(v)),
{
    let texts = v.map_values(|r: (u64, u64, u64)| fields_text(region_fields(r)));
    assert forall|i: int| 0 <= i < texts.len() implies plain_entry(#[trigger] texts[i])
        && region_reader()(texts[i]) == Some(v[i]) by {
        let r = v[i];
        lemma_hex_field(r.0);
        lemma_hex_field(r.1);
        lemma_hex_field(r.2);
        lemma_fields(region_fields(r));
    }
    lemma_entries(texts);
    lemma_empty_entry();
    lemma_read_entries(texts, region_reader(), v);
}

proof fn lemma_allocs(v: Seq<(u64, u64, Option<u64>)>)
    ensures
        split_on(allocs_text(v), ',').filter_map(alloc_reader()) == v,
        plain_list(allocs_text(v)),
{
    let texts = v.map_values(|a: (u64, u64, Option<u64>)| fields_text(alloc_fields(a)));
    assert forall|i: int| 0 <= i < texts.len() implies plain_entry(#[trigger] texts[i])
        && alloc_reader()(texts[i]) == Some(v[i]) by {
        let a = v[i];
        lemma_hex_field(a.0);
        lemma_hex_field(a.1);
        if let Some(o) = a.2 {
            lemma_hex_field(o);
        }
        lemma_fields(alloc_fields(a));
    }
    lemma_entries(texts);
    lemma_empty_entry();
    lemma_read_entries(texts, alloc_reader(), v);
}

/// The names of the sections start differently.
proof fn lemma_prefixes(a: Seq<char>, b: Seq<char>, rest: Seq<char>)
    requires
        exists|i: int| 0 <= i < a.len() && i < b.len() && #[trigger] a[i] != b[i],
    ensures
        after_prefix(a + rest, b) is None,
{
    let i = choose|i: int| 0 <= i < a.len() && i < b.len() && #[trigger] a[i] != b[i];
    let s = a + rest;
    if s.len() >= b.len() && s.take(b.len() as int) == b {
        assert(s.take(b.len() as int)[i] == s[i]);
        assert(s[i] == a[i]);
    }
}

proof fn lemma_own_prefix(a: Seq<char>, rest: Seq<char>)
    ensures
        after_prefix(a + rest, a) == Some(rest),
{
    assert((a + rest).take(a.len() as int) =~= a);
    assert((a + rest).skip(a.len() as int) =~= rest);
}

proof fn lemma_no_bar(name: Seq<char>, list: Seq<char>)
    requires
        forall|i: int| 0 <= i < name.len() ==> #[trigger] name[i] != '|',
        plain_list(list),
    ensures
        split_on(name + list, '|') == seq![name + list],
{
    let s = name + list;
    assert forall|i: int| 0 <= i < s.len() implies !only('|')(#[trigger] s[i]) by {
        if i < name.len() {
            assert(s[i] == name[i]);
        } else {
            assert(s[i] == list[i - name.len()]);
        }
    }
    lemma_split_plain(s, only('|'));
}

/// The name of the section with the descriptor of ordinary allocations.
spec fn index_name(l: LayoutModel) -> Seq<char> {
    if l.host is Some {
        "ahost="@
    } else {
        "astage="@
    }
}

/// The descriptor of ordinary allocations as text.
spec fn index_text(l: LayoutModel) -> Seq<char> {
    match (l.host, l.stage) {
        (Some(i), _) => decimal(i as nat),
        (None, Some(i)) => decimal(i as nat),
        (None, None) => Seq::empty(),
    }
}

/// The sections of a written layout.
spec fn text_sections(l: LayoutModel) -> Seq<Seq<char>> {
    let s0 = "resv="@ + reservations_text(l.reservations);
    let s1 = "maps="@ + maps_text(l.maps);
    if l.host is None && l.stage is None {
        seq![s0, s1]
    } else {
        seq![
            s0,
            s1,
            index_name(l) + index_text(l),
            "aregions="@ + regions_text(l.regions),
            "allocs="@ + allocs_text(l.allocs),
        ]
    }
}

proof fn lemma_text_sections(l: LayoutModel)
    requires
        writable(l),
        plain_list(reservations_text(l.reservations)),
        plain_list(maps_text(l.maps)),
        plain_list(regions_text(l.regions)),
        plain_list(allocs_text(l.allocs)),
        plain_list(index_text(l)),
    ensures
        split_on(layout_text(l), '|') == text_sections(l),
{
    reveal_strlit("resv=");
    reveal_strlit("maps=");
    reveal_strlit("ahost=");
    reveal_strlit("astage=");
    reveal_strlit("aregions=");
    reveal_strlit("allocs=");
    let s0 = "resv="@ + reservations_text(l.reservations);
    let s1 = "maps="@ + maps_text(l.maps);
    let s2 = index_name(l) + index_text(l);
    let s3 = "aregions="@ + regions_text(l.regions);
    let s4 = "allocs="@ + allocs_text(l.allocs);
    lemma_no_bar("resv="@, reservations_text(l.reservations));
    lemma_no_bar("maps="@, maps_text(l.maps));
    lemma_no_bar("aregions="@, regions_text(l.regions));
    lemma_no_bar("allocs="@, allocs_text(l.allocs));
    lemma_no_bar(index_name(l), index_text(l));
    let head = s0.push('|') + s1;
    let tail = s3.push('|') + s4;
    lemma_split_append(s0, '|', s1, only('|'));
    assert(split_on(head, '|') =~= seq![s0, s1]);
    if l.host is Some || l.stage is Some {
        lemma_split_append(s3, '|', s4, only('|'));
        lemma_split_append(s2, '|', tail, only('|'));
        lemma_split_append(head, '|', s2.push('|') + tail, only('|'));
        assert(split_on(layout_text(l), '|') =~= seq![s0, s1, s2, s3, s4]);
    }
}

/// A written layout reads back as it was.
pub proof fn law_layout_round_trips(l: LayoutModel)
    requires
        writable(l),
    ensures
        parsed_layout(layout_text(l)) == l,
{
    lemma_reservations(l.reservations);
    lemma_maps(l.maps);
    lemma_regions(l.regions);
    lemma_allocs(l.allocs);
    let r = reservations_text(l.reservations);
    let m = maps_text(l.maps);
    let g = regions_text(l.regions);
    let a = allocs_text(l.allocs);
    let d = index_text(l);
    let parts = text_sections(l);
    let p = parsed_layout(layout_text(l));
    lemma_sections_of_names(r, m, g, a);
    lemma_index_names(d);
    if l.host is None && l.stage is None {
        lemma_text_sections(l);
        lemma_two_sections(parts, "resv="@ + r, "maps="@ + m);
        let e = Seq::<char>::empty();
        lemma_split_plain(e, only(','));
        lemma_empty_entry();
        lemma_read_entries(Seq::empty(), region_reader(), l.regions);
        lemma_read_entries(Seq::empty(), alloc_reader(), l.allocs);
        assert(Seq::<Seq<char>>::empty().push(e) =~= seq![e]);
        assert(p.regions == l.regions);
        assert(p.allocs == l.allocs);
    } else {
        lemma_index_field(if l.host is Some { l.host->Some_0 } else { l.stage->Some_0 });
        lemma_text_sections(l);
        lemma_five_sections(
            parts,
            "resv="@ + r,
            "maps="@ + m,
            index_name(l) + d,
            "aregions="@ + g,
            "allocs="@ + a,
        );
        assert(p.regions == l.regions);
        assert(p.allocs == l.allocs);
    }
    lemma_entries_empty(l.regions);
    assert(p.regions_given == l.regions_given);
    assert(p.reservations == l.reservations);
    assert(p.maps == l.maps);
    assert(p.host == l.host);
    assert(p.stage == l.stage);
}

proof fn lemma_entries_empty(v: Seq<(u64, u64, u64)>)
    ensures
        regions_text(v).len() > 0 <==> v.len() > 0,
{
    let texts = v.map_values(|r: (u64, u64, u64)| fields_text(region_fields(r)));
    if v.len() > 0 {
        assert(entries_text(texts).len() > 0);
    } else {
        assert(texts =~= Seq::empty());
    }
}

proof fn lemma_index_names(d: Seq<char>)
    ensures
        after_prefix("ahost="@ + d, "ahost="@) == Some(d),
        after_prefix("astage="@ + d, "astage="@) == Some(d),
        after_prefix("ahost="@ + d, "astage="@) is None,
        after_prefix("astage="@ + d, "ahost="@) is None,
        after_prefix("ahost="@ + d, "resv="@) is None,
        after_prefix("astage="@ + d, "resv="@) is None,
        after_prefix("ahost="@ + d, "maps="@) is None,
        after_prefix("astage="@ + d, "maps="@) is None,
        after_prefix("ahost="@ + d, "aregions="@) is None,
        after_prefix("astage="@ + d, "aregions="@) is None,
        after_prefix("ahost="@ + d, "allocs="@) is None,
        after_prefix("astage="@ + d, "allocs="@) is None,
{
    reveal_strlit("resv=");
    reveal_strlit("maps=");
    reveal_strlit("ahost=");
    reveal_strlit("astage=");
    reveal_strlit("aregions=");
    reveal_strlit("allocs=");
    lemma_own_prefix("ahost="@, d);
    lemma_own_prefix("astage="@, d);
    assert("ahost="@[0] != "resv="@[0] && "ahost="@[0] != "maps="@[0]);
    assert("astage="@[0] != "resv="@[0] && "astage="@[0] != "maps="@[0]);
    assert("ahost="@[1] != "astage="@[1] && "ahost="@[1] != "aregions="@[1] && "ahost="@[1]
        != "allocs="@[1]);
    assert("astage="@[1] != "ahost="@[1] && "astage="@[1] != "aregions="@[1] && "astage="@[1]
        != "allocs="@[1]);
    lemma_prefixes("ahost="@, "astage="@, d);
    lemma_prefixes("astage="@, "ahost="@, d);
    lemma_prefixes("ahost="@, "resv="@, d);
    lemma_prefixes("astage="@, "resv="@, d);
    lemma_prefixes("ahost="@, "maps="@, d);
    lemma_prefixes("astage="@, "maps="@, d);
    lemma_prefixes("ahost="@, "aregions="@, d);
    lemma_prefixes("astage="@, "aregions="@, d);
    lemma_prefixes("ahost="@, "allocs="@, d);
    lemma_prefixes("astage="@, "allocs="@, d);
}

proof fn lemma_sections_of_names(r: Seq<char>, m: Seq<char>, g: Seq<char>, a: Seq<char>)
    ensures
        after_prefix("resv="@ + r, "resv="@) == Some(r),
        after_prefix("maps="@ + m, "maps="@) == Some(m),
        after_prefix("aregions="@ + g, "aregions="@) == Some(g),
        after_prefix("allocs="@ + a, "allocs="@) == Some(a),
        after_prefix("maps="@ + m, "resv="@) is None,
        after_prefix("aregions="@ + g, "resv="@) is None,
        after_prefix("allocs="@ + a, "resv="@) is None,
        after_prefix("resv="@ + r, "maps="@) is None,
        after_prefix("aregions="@ + g, "maps="@) is None,
        after_prefix("allocs="@ + a, "maps="@) is None,
        after_prefix("resv="@ + r, "aregions="@) is None,
        after_prefix("maps="@ + m, "aregions="@) is None,
        after_prefix("allocs="@ + a, "aregions="@) is None,
        after_prefix("resv="@ + r, "allocs="@) is None,
        after_prefix("maps="@ + m, "allocs="@) is None,
        after_prefix("aregions="@ + g, "allocs="@) is None,
        after_prefix("resv="@ + r, "ahost="@) is None,
        after_prefix("maps="@ + m, "ahost="@) is None,
        after_prefix("aregions="@ + g, "ahost="@) is None,
        after_prefix("allocs="@ + a, "ahost="@) is None,
        after_prefix("resv="@ + r, "astage="@) is None,
        after_prefix("maps="@ + m, "astage="@) is None,
        after_prefix("aregions="@ + g, "astage="@) is None,
        after_prefix("allocs="@ + a, "astage="@) is None,
{
    reveal_strlit("resv=");
    reveal_strlit("maps=");
    reveal_strlit("ahost=");
    reveal_strlit("astage=");
    reveal_strlit("aregions=");
    reveal_strlit("allocs=");
    lemma_own_prefix("resv="@, r);
    lemma_own_prefix("maps="@, m);
    lemma_own_prefix("aregions="@, g);
    lemma_own_prefix("allocs="@, a);
    assert("resv="@[0] != "maps="@[0] && "resv="@[0] != "ahost="@[0] && "resv="@[0] != "astage="@[0]
        && "resv="@[0] != "aregions="@[0] && "resv="@[0] != "allocs="@[0]);
    assert("maps="@[0] != "resv="@[0] && "maps="@[0] != "ahost="@[0] && "maps="@[0] != "astage="@[0]
        && "maps="@[0] != "aregions="@[0] && "maps="@[0] != "allocs="@[0]);
    assert("aregions="@[0] != "resv="@[0] && "aregions="@[0] != "maps="@[0]);
    assert("allocs="@[0] != "resv="@[0] && "allocs="@[0] != "maps="@[0]);
    assert("aregions="@[1] != "ahost="@[1] && "aregions="@[1] != "astage="@[1] && "aregions="@[1]
        != "allocs="@[1]);
    assert("allocs="@[1] != "ahost="@[1] && "allocs="@[1] != "astage="@[1] && "allocs="@[1]
        != "aregions="@[1]);
    lemma_prefixes("maps="@, "resv="@, m);
    lemma_prefixes("aregions="@, "resv="@, g);
    lemma_prefixes("allocs="@, "resv="@, a);
    lemma_prefixes("resv="@, "maps="@, r);
    lemma_prefixes("aregions="@, "maps="@, g);
    lemma_prefixes("allocs="@, "maps="@, a);
    lemma_prefixes("resv="@, "aregions="@, r);
    lemma_prefixes("maps="@, "aregions="@, m);
    lemma_prefixes("allocs="@, "aregions="@, a);
    lemma_prefixes("resv="@, "allocs="@, r);
    lemma_prefixes("maps="@, "allocs="@, m);
    lemma_prefixes("aregions="@, "allocs="@, g);
    lemma_prefixes("resv="@, "ahost="@, r);
    lemma_prefixes("maps="@, "ahost="@, m);
    lemma_prefixes("aregions="@, "ahost="@, g);
    lemma_prefixes("allocs="@, "ahost="@, a);
    lemma_prefixes("resv="@, "astage="@, r);
    lemma_prefixes("maps="@, "astage="@, m);
    lemma_prefixes("aregions="@, "astage="@, g);
    lemma_prefixes("allocs="@, "astage="@, a);
}

/// Looking for a section among two.
proof fn lemma_two_sections(parts: Seq<Seq<char>>, s0: Seq<char>, s1: Seq<char>)
    requires
        parts == seq![s0, s1],
    ensures
        forall|p: Seq<char>| #[trigger]
            last_section(parts, p) == match after_prefix(s1, p) {
                Some(x) => Some(x),
                None => after_prefix(s0, p),
            },
{
    assert forall|p: Seq<char>| #[trigger]
        last_section(parts, p) == match after_prefix(s1, p) {
            Some(x) => Some(x),
            None => after_prefix(s0, p),
        } by {
        reveal_with_fuel(last_section, 3);
        assert(parts.drop_last() =~= seq![s0]);
        assert(seq![s0].drop_last() =~= Seq::<Seq<char>>::empty());
    }
}

/// Looking for a section among five.
proof fn lemma_five_sections(
    parts: Seq<Seq<char>>,
    s0: Seq<char>,
    s1: Seq<char>,
    s2: Seq<char>,
    s3: Seq<char>,
    s4: Seq<char>,
)
    requires
        parts == seq![s0, s1, s2, s3, s4],
    ensures
        forall|p: Seq<char>| #[trigger]
            last_section(parts, p) == match after_prefix(s4, p) {
                Some(x) => Some(x),
                None => match after_prefix(s3, p) {
                    Some(x) => Some(x),
                    None => match after_prefix(s2, p) {
                        Some(x) => Some(x),
                        None => match after_prefix(s1, p) {
                            Some(x) => Some(x),
                            None => after_prefix(s0, p),
                        },
                    },
                },
            },
{
    lemma_two_sections(seq![s0, s1], s0, s1);
    assert(parts.drop_last() =~= seq![s0, s1, s2, s3]);
    assert(seq![s0, s1, s2, s3].drop_last() =~= seq![s0, s1, s2]);
    assert(seq![s0, s1, s2].drop_last() =~= seq![s0, s1]);
    assert forall|p: Seq<char>| #[trigger]
        last_section(parts, p) == match after_prefix(s4, p) {
            Some(x) => Some(x),
            None => match after_prefix(s3, p) {
                Some(x) => Some(x),
                None => match after_prefix(s2, p) {
                    Some(x) => Some(x),
                    None => match after_prefix(s1, p) {
                        Some(x) => Some(x),
                        None => after_prefix(s0, p),
                    },
                },
            },
        } by {
        assert(last_section(seq![s0, s1], p) == match after_prefix(s1, p) {
            Some(x) => Some(x),
            None => after_prefix(s0, p),
        });
        assert(last_section(seq![s0, s1, s2], p) == match after_prefix(s2, p) {
            Some(x) => Some(x),
            None => last_section(seq![s0, s1], p),
        });
        assert(last_section(seq![s0, s1, s2, s3], p) == match after_prefix(s3, p) {
            Some(x) => Some(x),
            None => last_section(seq![s0, s1, s2], p),
        });
    }
}

} // verus!
