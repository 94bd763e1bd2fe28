//! What the text of a layout means.
use crate::daemon::layout::{
    MapEntry, hex_number, last_section, layout_ranges, parse_alloc, parse_map, parse_region_entry,
    parse_reservation, parse_two, reservation_reader, section_ranges, two_reader,
};
use crate::daemon::memory::{MapStep, map_call};
use crate::daemon::ranges::without_repeats;
use crate::daemon::restore::TallyModel;
use crate::daemon::restore_text::{map_failure_text, map_fault};
use crate::daemon::worker::signed_decimal;
use crate::daemon::worker_env_laws::law_signed_number_is_read_back;
use crate::filtering::lemma_push_members;
use crate::numerals::{
    decimal, is_digit_char, lemma_numeral_chars, lemma_parse_numeral, numeral, parse_signed,
};
use crate::split::{
    after_prefix, law_split_first, lemma_split_append, lemma_split_plain, only, split_on,
};
use crate::text_laws::law_what_follows_a_prefix;
use vstd::prelude::*;

verus! {

/// A number in hexadecimal.
pub open spec fn hex(n: u64) -> Seq<char> {
    numeral(n as nat, 16)
}

/// Two texts with a colon between them.
pub open spec fn colon(a: Seq<char>, b: Seq<char>) -> Seq<char> {
    a.push(':') + b
}

proof fn lemma_plain(n: nat, radix: nat)
    requires
        2 <= radix <= 16,
    ensures
        split_on(numeral(n, radix), ':') == seq![numeral(n, radix)],
        !numeral(n, radix).contains(':'),
{
    let s = numeral(n, radix);
    lemma_numeral_chars(n, radix);
    assert forall|i: int| 0 <= i < s.len() implies !only(':')(#[trigger] s[i]) by {
        assert(is_digit_char(s[i]));
    }
    lemma_split_plain(s, only(':'));
    if s.contains(':') {
        let i = choose|i: int| 0 <= i < s.len() && s[i] == ':';
        assert(is_digit_char(s[i]));
    }
}

proof fn lemma_colon(a: Seq<char>, b: Seq<char>)
    requires
        split_on(a, ':') == seq![a],
    ensures
        split_on(colon(a, b), ':') == seq![a] + split_on(b, ':'),
{
    lemma_split_append(a, ':', b, only(':'));
}

/// A reservation is `ADDRESS:SIZE`, both in hexadecimal.
pub proof fn law_reservation_entry(va: u64, size: u64)
    ensures
        parse_reservation(hex(va) + ":"@ + hex(size)) == Some((va, size)),
        parse_two(hex(va) + ":"@ + hex(size)) == Some((va, size)),
{
    reveal_strlit(":");
    assert(":"@ =~= seq![':']);
    let a = hex(va);
    let b = hex(size);
    let s = a + ":"@ + b;
    lemma_plain(va as nat, 16);
    lemma_plain(size as nat, 16);
    law_split_first(s, ':', a, b);
    lemma_parse_numeral(va as nat, 16, u64::MAX as nat);
    lemma_parse_numeral(size as nat, 16, u64::MAX as nat);
    assert(s =~= colon(a, b));
    lemma_colon(a, b);
    assert(split_on(s, ':') =~= seq![a, b]);
}

/// A region is `ADDRESS:SIZE:OFFSET`, and an allocation `ADDRESS:SIZE` with its place in a
/// snapshot behind it where it has one.
pub proof fn law_region_entries(va: u64, size: u64, offset: u64)
    ensures
        parse_region_entry(hex(va) + ":"@ + hex(size) + ":"@ + hex(offset)) == Some(
            (va, size, offset),
        ),
        parse_alloc(hex(va) + ":"@ + hex(size) + ":"@ + hex(offset)) == Some(
            (va, size, Some(offset)),
        ),
        parse_alloc(hex(va) + ":"@ + hex(size)) == Some((va, size, None::<u64>)),
{
    reveal_strlit(":");
    assert(":"@ =~= seq![':']);
    let a = hex(va);
    let b = hex(size);
    let c = hex(offset);
    lemma_plain(va as nat, 16);
    lemma_plain(size as nat, 16);
    lemma_plain(offset as nat, 16);
    lemma_parse_numeral(va as nat, 16, u64::MAX as nat);
    lemma_parse_numeral(size as nat, 16, u64::MAX as nat);
    lemma_parse_numeral(offset as nat, 16, u64::MAX as nat);
    let two = a + ":"@ + b;
    let three = two + ":"@ + c;
    assert(two =~= colon(a, b));
    lemma_colon(a, b);
    assert(split_on(two, ':') =~= seq![a, b]);
    assert(three =~= colon(a, colon(b, c)));
    lemma_colon(b, c);
    lemma_colon(a, colon(b, c));
    assert(split_on(three, ':') =~= seq![a, b, c]);
}

/// A range is `ADDRESS:SIZE:INDEX:LOADED:HANDLE:OFFSET`. Its index is in decimal; it is
/// loaded if a one stands there. Handle and offset may be left out.
pub proof fn law_range_entry(
    va: u64,
    size: u64,
    index: i32,
    loaded: bool,
    handle: u64,
    offset: u64,
)
    requires
        index >= 0,
    ensures
        ({
            let mark = if loaded {
                "1"@
            } else {
                "0"@
            };
            let head = hex(va) + ":"@ + hex(size) + ":"@ + decimal(index as nat) + ":"@ + mark;
            let bare = MapEntry { va, size, index, loaded, handle: None, host_offset: None };
            &&& parse_map(head) == Some(bare)
            &&& parse_map(head + ":"@ + hex(handle)) == Some(
                MapEntry { handle: Some(handle), ..bare },
            )
            &&& parse_map(head + ":"@ + hex(handle) + ":"@ + hex(offset)) == Some(
                MapEntry { handle: Some(handle), host_offset: Some(offset), ..bare },
            )
        }),
{
    reveal_strlit(":");
    reveal_strlit("1");
    reveal_strlit("0");
    assert(":"@ =~= seq![':']);
    assert("1"@ =~= seq!['1']);
    assert("0"@ =~= seq!['0']);
    let mark = if loaded {
        "1"@
    } else {
        "0"@
    };
    let a = hex(va);
    let b = hex(size);
    let c = decimal(index as nat);
    let e = hex(handle);
    let f = hex(offset);
    lemma_plain(va as nat, 16);
    lemma_plain(size as nat, 16);
    lemma_plain(index as nat, 10);
    lemma_plain(handle as nat, 16);
    lemma_plain(offset as nat, 16);
    assert(mark != seq!['1'] || loaded) by {
        if !loaded {
            assert(mark[0] != seq!['1'][0]);
        }
    }
    lemma_split_plain(mark, only(':'));
    lemma_parse_numeral(va as nat, 16, u64::MAX as nat);
    lemma_parse_numeral(size as nat, 16, u64::MAX as nat);
    lemma_parse_numeral(handle as nat, 16, u64::MAX as nat);
    lemma_parse_numeral(offset as nat, 16, u64::MAX as nat);
    law_signed_number_is_read_back(index);
    assert(signed_decimal(index as int) == c);
    let two = a + ":"@ + b;
    let three = two + ":"@ + c;
    let head = three + ":"@ + mark;
    let five = head + ":"@ + e;
    let six = five + ":"@ + f;
    lemma_one_more(a, b, seq![a]);
    lemma_one_more(two, c, seq![a].push(b));
    lemma_one_more(three, mark, seq![a].push(b).push(c));
    lemma_one_more(head, e, seq![a].push(b).push(c).push(mark));
    lemma_one_more(five, f, seq![a].push(b).push(c).push(mark).push(e));
    lemma_map_read(head, a, b, c, mark, va, size, index, loaded);
    lemma_map_read(five, a, b, c, mark, va, size, index, loaded);
    lemma_map_read(six, a, b, c, mark, va, size, index, loaded);
}

/// One field more behind a colon.
proof fn lemma_one_more(s: Seq<char>, f: Seq<char>, fields: Seq<Seq<char>>)
    requires
        split_on(s, ':') == fields,
        split_on(f, ':') == seq![f],
    ensures
        split_on(s + ":"@ + f, ':') == fields.push(f),
{
    reveal_strlit(":");
    assert(s + ":"@ + f =~= s.push(':') + f);
    lemma_split_append(s, ':', f, only(':'));
    assert(fields + seq![f] =~= fields.push(f));
}

/// What the first four fields of an entry say.
proof fn lemma_map_read(
    entry: Seq<char>,
    a: Seq<char>,
    b: Seq<char>,
    c: Seq<char>,
    mark: Seq<char>,
    va: u64,
    size: u64,
    index: i32,
    loaded: bool,
)
    requires
        ({
            let f = split_on(entry, ':');
            f.len() >= 4 && f[0] == a && f[1] == b && f[2] == c && f[3] == mark
        }),
        hex_number(a) == Some(va),
        hex_number(b) == Some(size),
        parse_signed(c) == Some(index as int),
        (mark == seq!['1']) == loaded,
    ensures
        parse_map(entry) == Some(
            MapEntry {
                va,
                size,
                index,
                loaded,
                handle: if split_on(entry, ':').len() > 4 {
                    hex_number(split_on(entry, ':')[4])
                } else {
                    None
                },
                host_offset: if split_on(entry, ':').len() > 5 {
                    hex_number(split_on(entry, ':')[5])
                } else {
                    None
                },
            },
        ),
{
}

/// A text begins with another.
pub open spec fn begins(s: Seq<char>, prefix: Seq<char>) -> bool {
    s.len() >= prefix.len() && s.take(prefix.len() as int) == prefix
}

/// Of sections with the same name the last one counts.
pub proof fn law_last_section_counts(
    sections: Seq<Seq<char>>,
    prefix: Seq<char>,
    i: int,
    rest: Seq<char>,
)
    requires
        0 <= i < sections.len(),
        sections[i] == prefix + rest,
        forall|j: int| i < j < sections.len() ==> !begins(#[trigger] sections[j], prefix),
    ensures
        last_section(sections, prefix) == Some(rest),
    decreases sections.len(),
{
    let last = sections.len() - 1;
    assert(sections.last() == sections[last]);
    if i == last {
        let s = sections[i];
        assert(s.take(prefix.len() as int) =~= prefix);
        assert(s.skip(prefix.len() as int) =~= rest);
    } else {
        let front = sections.drop_last();
        assert(!begins(sections[last], prefix));
        assert(front[i] == sections[i]);
        assert forall|j: int| i < j < front.len() implies !begins(#[trigger] front[j], prefix) by {
            assert(front[j] == sections[j]);
        }
        law_last_section_counts(front, prefix, i, rest);
    }
}

/// What is noted of a range that was restored: it is counted; if it is shared, its address
/// and size are told; and if the golden named a handle, the worker's own memory stands for
/// it, or the shared one that was kept.
pub proof fn law_what_is_noted_of_a_range(t: TallyModel, entry: MapEntry, own: u64, kept: Option<u64>)
    ensures
        ({
            let p = crate::daemon::restore::noted(t, entry, MapStep::Private { own });
            let s = crate::daemon::restore::noted(t, entry, MapStep::Shared { kept });
            &&& p.count == t.count + 1 && s.count == t.count + 1
            &&& p.shared == t.shared
            &&& s.shared.len() == t.shared.len() + 1 && s.shared.drop_last() == t.shared
                && s.shared.last() == (entry.va, entry.size)
            &&& entry.handle is None ==> p.handles == t.handles && s.handles == t.handles
            &&& entry.handle is Some ==> p.handles.drop_last() == t.handles && p.handles.last() == (
                entry.handle->Some_0,
                own,
            ) && p.handles.len() == t.handles.len() + 1
            &&& entry.handle is Some && kept is Some ==> s.handles.drop_last() == t.handles
                && s.handles.last() == (entry.handle->Some_0, kept->Some_0) && s.handles.len()
                == t.handles.len() + 1
        }),
{
    let p = crate::daemon::restore::noted(t, entry, MapStep::Private { own });
    let s = crate::daemon::restore::noted(t, entry, MapStep::Shared { kept });
    assert(s.shared.drop_last() =~= t.shared);
    if entry.handle is Some {
        assert(p.handles.drop_last() =~= t.handles);
        if kept is Some {
            assert(s.handles.drop_last() =~= t.handles);
        }
    }
}

/// What a failure tells ends with its cause, and tells of the address of the range.
pub proof fn law_failures_tell_their_cause(entry: MapEntry, step: MapStep, cause: Seq<char>)
    ensures
        ({
            let text = map_failure_text(entry, step, cause);
            &&& text is Some && !(step is ImportSource) ==> exists|what: Seq<char>|
                text->Some_0 == #[trigger] (what + " failed at "@) + ("0x"@ + numeral(
                    entry.va as nat,
                    16,
                )) + ": "@ + cause
            &&& text is Some && step is ImportSource ==> exists|what: Seq<char>|
                text->Some_0 == #[trigger] (what + " failed for range "@) + signed_decimal(
                    entry.index as int,
                ) + ": "@ + cause
            &&& text is None <==> map_call(entry, step) is None && !(step is FillFromHost)
                || step is ShareImport || step is ShareMap || step is ShareProtect
                || step is ShareUnmap || step is ShareDrop || step is ShareForget
        }),
{
    if let Some(what) = map_fault(step) {
        let t = map_failure_text(entry, step, cause)->Some_0;
        if step is ImportSource {
            assert(t == (what + " failed for range "@) + signed_decimal(entry.index as int) + ": "@
                + cause);
        } else {
            assert(t == (what + " failed at "@) + ("0x"@ + numeral(entry.va as nat, 16)) + ": "@
                + cause);
        }
    }
}

/// Repeats are dropped and nothing else is: what stood there still does, and no two
/// neighbours are the same.
pub proof fn law_repeats_are_dropped(v: Seq<(u64, u64)>, x: (u64, u64))
    ensures
        without_repeats(v).contains(x) <==> v.contains(x),
        forall|i: int|
            0 <= i < without_repeats(v).len() - 1 ==> #[trigger] without_repeats(v)[i]
                != without_repeats(v)[i + 1],
        v.len() > 0 ==> without_repeats(v).len() > 0 && without_repeats(v).last() == v.last(),
    decreases v.len(),
{
    if v.len() > 1 {
        let front = v.drop_last();
        law_repeats_are_dropped(front, x);
        let before = without_repeats(front);
        let after = without_repeats(v);
        assert(front.push(v.last()) =~= v);
        lemma_push_members(front, v.last(), x);
        lemma_push_members(before, v.last(), x);
        assert(front.last() == v[v.len() - 2]);
        if v.last() == v[v.len() - 2] {
            assert(front.contains(front.last()));
            law_repeats_are_dropped(front, v.last());
        } else {
            assert forall|i: int| 0 <= i < after.len() - 1 implies #[trigger] after[i]
                != after[i + 1] by {
                if i < before.len() - 1 {
                    assert(after[i] == before[i]);
                    assert(after[i + 1] == before[i + 1]);
                } else {
                    assert(after[i] == before.last());
                }
            }
        }
    }
}

/// Of a layout's sections, the reservations and the regions are to be reserved, each with
/// its address and size; no other section is.
pub proof fn law_sections_that_reserve(text: Seq<char>, other: Seq<char>)
    ensures
        section_ranges("resv="@ + text) == split_on(text, ',').filter_map(reservation_reader()),
        section_ranges("aregions="@ + text) == split_on(text, ',').filter_map(two_reader()),
        !begins(other, "resv="@) && !begins(other, "aregions="@) ==> section_ranges(other)
            == Seq::<(u64, u64)>::empty(),
{
    reveal_strlit("resv=");
    reveal_strlit("aregions=");
    let none = Seq::<(u64, u64)>::empty();
    let a = "resv="@ + text;
    let b = "aregions="@ + text;
    law_what_follows_a_prefix("resv="@, text, a);
    law_what_follows_a_prefix("aregions="@, text, b);
    assert(after_prefix(a, "aregions="@) is None) by {
        assert(a[0] == 'r');
        if begins(a, "aregions="@) {
            assert(a.take("aregions="@.len() as int)[0] == a[0]);
        }
    }
    assert(after_prefix(b, "resv="@) is None) by {
        assert(b[0] == 'a');
        if begins(b, "resv="@) {
            assert(b.take("resv="@.len() as int)[0] == b[0]);
        }
    }
    let x = split_on(text, ',').filter_map(reservation_reader());
    let y = split_on(text, ',').filter_map(two_reader());
    assert(x + none =~= x);
    assert(none + y =~= y);
    assert(none + none =~= none);
}

/// What a layout reserves is what its sections do, in their order.
pub proof fn law_ranges_of_all_sections(a: Seq<Seq<char>>, b: Seq<Seq<char>>, x: Seq<char>)
    ensures
        layout_ranges(a + b) == layout_ranges(a) + layout_ranges(b),
        layout_ranges(seq![x]) == section_ranges(x),
    decreases b.len(),
{
    let none = Seq::<(u64, u64)>::empty();
    assert(seq![x].drop_last() =~= Seq::empty());
    assert(layout_ranges(seq![x].drop_last()) == none);
    assert(none + section_ranges(x) =~= section_ranges(x));
    if b.len() == 0 {
        assert(a + b =~= a);
        assert(layout_ranges(a) + layout_ranges(b) =~= layout_ranges(a));
    } else {
        law_ranges_of_all_sections(a, b.drop_last(), x);
        assert((a + b).drop_last() =~= a + b.drop_last());
        assert(layout_ranges(a + b) =~= layout_ranges(a) + layout_ranges(b));
    }
}

} // verus!
