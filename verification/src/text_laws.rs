//! What cutting, joining and reading text comes to.
use crate::filtering::{lemma_filter_members, lemma_push_members};
use crate::numerals::{
    all_digits, digit_char, digit_value, digits_value, numeral, parse_number, strip_plus,
};
use crate::phrase::{holds, holds_at, join_with};
use crate::split::{
    after_prefix, is_space, lemma_split_append, lemma_split_nonempty, lemma_split_plain,
    lemma_words_append, lemma_words_plain, lines, only, spaces, split_by, split_on, strip_cr, trim,
    trim_end, trim_start, words,
};
use crate::text::{ascii_lower, lemma_text_lt_asymmetric, lt_at, text_lt};
use vstd::prelude::*;

verus! {

// ---------------------------------------------------------------------------
// Cutting
// ---------------------------------------------------------------------------

/// What lies between separators holds none of them, and with the separators back in place
/// it is the text again.
pub proof fn law_pieces_make_up_the_text(s: Seq<char>, c: char)
    ensures
        split_on(s, c).len() > 0,
        forall|i: int|
            0 <= i < split_on(s, c).len() ==> !(#[trigger] split_on(s, c)[i]).contains(c),
        join_with(split_on(s, c), seq![c]) == s,
    decreases s.len(),
{
    let all = split_on(s, c);
    lemma_split_nonempty(s, only(c));
    if s.len() == 0 {
        assert(all =~= seq![Seq::empty()]);
        assert(join_with(all, seq![c]) =~= s);
    } else {
        let front = s.drop_last();
        let before = split_on(front, c);
        law_pieces_make_up_the_text(front, c);
        assert(front.push(s.last()) =~= s);
        if s.last() == c {
            assert(all == before.push(Seq::empty()));
            assert(all.drop_last() =~= before);
            assert(join_with(all, seq![c]) =~= front + seq![c] + Seq::<char>::empty());
            assert(front + seq![c] + Seq::<char>::empty() =~= s);
            assert forall|i: int| 0 <= i < all.len() implies !(#[trigger] all[i]).contains(c) by {
                if i < before.len() {
                    assert(all[i] == before[i]);
                }
            }
        } else {
            let tail = before.last().push(s.last());
            assert(all == before.drop_last().push(tail));
            assert forall|i: int| 0 <= i < all.len() implies !(#[trigger] all[i]).contains(c) by {
                if i < before.len() - 1 {
                    assert(all[i] == before[i]);
                } else {
                    lemma_push_members(before.last(), s.last(), c);
                    assert(!before[before.len() - 1].contains(c));
                }
            }
            if before.len() == 1 {
                assert(before[0] == front);
                assert(all =~= seq![tail]);
            } else {
                assert(all.drop_last() =~= before.drop_last());
                let head = join_with(before.drop_last(), seq![c]);
                assert(head + seq![c] + tail =~= (head + seq![c] + before.last()).push(s.last()));
            }
        }
    }
}

/// A text is cut at a separator into what lies before it and after it.
pub proof fn law_cutting_at_a_separator(a: Seq<char>, c: char, b: Seq<char>)
    ensures
        split_on(a + seq![c] + b, c) == split_on(a, c) + split_on(b, c),
        !a.contains(c) ==> split_on(a, c) == seq![a],
{
    assert(a + seq![c] + b =~= a.push(c) + b);
    lemma_split_append(a, c, b, only(c));
    if !a.contains(c) {
        assert forall|i: int| 0 <= i < a.len() implies !only(c)(#[trigger] a[i]) by {
            assert(a.contains(a[i]));
        }
        lemma_split_plain(a, only(c));
    }
}

/// A line is what a line feed ends, without a carriage return before it; the rest is a line
/// too, if there is any.
pub proof fn law_lines_end_at_line_feeds(l: Seq<char>, rest: Seq<char>)
    requires
        !l.contains('\n'),
    ensures
        lines(l + "\n"@ + rest) == seq![
            if l.len() > 0 && l.last() == '\r' {
                l.drop_last()
            } else {
                l
            },
        ] + lines(rest),
        l.len() > 0 ==> lines(l) == seq![l],
        lines(Seq::empty()) == Seq::<Seq<char>>::empty(),
{
    reveal_strlit("\n");
    assert("\n"@ =~= seq!['\n']);
    let s = l + "\n"@ + rest;
    law_cutting_at_a_separator(l, '\n', rest);
    law_cutting_at_a_separator(Seq::empty(), '\n', rest);
    let strip = |line: Seq<char>| strip_cr(line);
    let all = split_on(s, '\n');
    let tail = split_on(rest, '\n');
    lemma_split_nonempty(rest, only('\n'));
    assert(all =~= seq![l] + tail);
    assert(all.drop_last() =~= seq![l] + tail.drop_last());
    assert(all.last() == tail.last());
    assert(all.drop_last().map_values(strip) =~= seq![strip_cr(l)] + tail.drop_last().map_values(
        strip,
    ));
    assert(lines(s) =~= seq![strip_cr(l)] + lines(rest));
    assert(split_on(l, '\n').drop_last().map_values(strip) =~= Seq::empty());
    if l.len() > 0 {
        assert(lines(l) =~= seq![l]);
    }
    let none = Seq::<char>::empty();
    assert(split_on(none, '\n') =~= seq![none]);
    assert(split_on(none, '\n').drop_last().map_values(strip) =~= Seq::empty());
    assert(lines(none) =~= Seq::empty());
}

/// Trimming takes white space from both ends and nothing else.
pub proof fn law_trimming(s: Seq<char>)
    ensures
        exists|a: Seq<char>, b: Seq<char>|
            s == #[trigger] (a + trim(s) + b) && all_space(a) && all_space(b),
        trim(s).len() > 0 ==> !is_space(trim(s)[0]) && !is_space(trim(s).last()),
{
    let t = trim_start(s);
    let a = lemma_trim_start(s);
    let b = lemma_trim_end(t);
    assert(s =~= a + trim(s) + b);
    if trim(s).len() > 0 {
        assert(trim(s)[0] == t[0]);
    }
}

/// Nothing but white space.
pub open spec fn all_space(s: Seq<char>) -> bool {
    forall|i: int| 0 <= i < s.len() ==> is_space(#[trigger] s[i])
}

proof fn lemma_trim_start(s: Seq<char>) -> (a: Seq<char>)
    ensures
        s == a + trim_start(s),
        all_space(a),
        trim_start(s).len() > 0 ==> !is_space(trim_start(s)[0]),
    decreases s.len(),
{
    if s.len() > 0 && is_space(s[0]) {
        let r = s.skip(1);
        let rest = lemma_trim_start(r);
        let a = seq![s[0]] + rest;
        assert(s =~= seq![s[0]] + r);
        assert(r == rest + trim_start(s));
        assert(s =~= a + trim_start(s));
        a
    } else {
        let a = Seq::<char>::empty();
        assert(s =~= a + trim_start(s));
        a
    }
}

proof fn lemma_trim_end(s: Seq<char>) -> (b: Seq<char>)
    ensures
        s == trim_end(s) + b,
        all_space(b),
        trim_end(s).len() > 0 ==> !is_space(trim_end(s).last()),
    decreases s.len(),
{
    if s.len() > 0 && is_space(s.last()) {
        let r = s.drop_last();
        let rest = lemma_trim_end(r);
        let b = rest.push(s.last());
        assert(s =~= r.push(s.last()));
        assert(r == trim_end(s) + rest);
        assert(s =~= trim_end(s) + b);
        b
    } else {
        let b = Seq::<char>::empty();
        assert(s =~= trim_end(s) + b);
        b
    }
}

/// Among ASCII characters, blanks, tabs, line feeds and the like are white space, and no
/// others.
pub proof fn law_white_space(c: char)
    ensures
        is_space(' ') && is_space('\t') && is_space('\n') && is_space('\r'),
        c as u32 <= 0x7f ==> (is_space(c) <==> c == ' ' || 0x09 <= c as u32 <= 0x0d),
{
}

/// Words hold no white space and are not empty.
pub proof fn law_words_are_words(s: Seq<char>)
    ensures
        forall|i: int|
            0 <= i < words(s).len() ==> (#[trigger] words(s)[i]).len() > 0 && no_space(words(s)[i]),
{
    let p = |w: Seq<char>| w.len() > 0;
    let all = split_by(s, spaces());
    assert forall|i: int| 0 <= i < words(s).len() implies (#[trigger] words(s)[i]).len() > 0
        && no_space(words(s)[i]) by {
        lemma_filter_members(all, p, words(s)[i]);
        assert(words(s).contains(words(s)[i]));
        let j = choose|j: int| 0 <= j < all.len() && all[j] == words(s)[i];
        lemma_no_space(s);
        assert(no_space(all[j]));
    }
}

/// No white space.
pub open spec fn no_space(s: Seq<char>) -> bool {
    forall|i: int| 0 <= i < s.len() ==> !is_space(#[trigger] s[i])
}

proof fn lemma_no_space(s: Seq<char>)
    ensures
        forall|i: int|
            0 <= i < split_by(s, spaces()).len() ==> no_space(#[trigger] split_by(s, spaces())[i]),
    decreases s.len(),
{
    if s.len() > 0 {
        let before = split_by(s.drop_last(), spaces());
        lemma_no_space(s.drop_last());
        lemma_split_nonempty(s.drop_last(), spaces());
        let all = split_by(s, spaces());
        assert forall|i: int| 0 <= i < all.len() implies no_space(#[trigger] all[i]) by {
            if i < before.len() - 1 {
                assert(all[i] == before[i]);
            } else if i == before.len() - 1 {
                assert(no_space(before[i]));
            }
        }
    }
}

/// The words of two texts with white space between them are those of the one and of the
/// other; a text without white space is one word.
pub proof fn law_words_of_two_texts(a: Seq<char>, c: char, b: Seq<char>)
    requires
        is_space(c),
    ensures
        words(a + seq![c] + b) == words(a) + words(b),
        a.len() > 0 && no_space(a) ==> words(a) == seq![a],
{
    assert(a + seq![c] + b =~= a.push(c) + b);
    lemma_words_append(a, c, b);
    if a.len() > 0 && no_space(a) {
        lemma_words_plain(a);
    }
}

// ---------------------------------------------------------------------------
// Joining and finding
// ---------------------------------------------------------------------------

/// Texts are joined in their order with the separator between each two.
pub proof fn law_joining(v: Seq<Seq<char>>, x: Seq<char>, sep: Seq<char>)
    ensures
        join_with(Seq::empty(), sep) == Seq::<char>::empty(),
        join_with(seq![x], sep) == x,
        v.len() > 0 ==> join_with(v.push(x), sep) == join_with(v, sep) + sep + x,
{
    assert(v.push(x).drop_last() =~= v);
}

/// A text holds another if it stands somewhere in it.
pub proof fn law_holding(a: Seq<char>, part: Seq<char>, b: Seq<char>, s: Seq<char>)
    ensures
        holds(a + part + b, part),
        holds(s, part) ==> exists|x: Seq<char>, y: Seq<char>| s == #[trigger] (x + part + y),
{
    let t = a + part + b;
    assert(t.subrange(a.len() as int, a.len() as int + part.len() as int) =~= part);
    assert(holds_at(t, part, a.len() as int));
    if holds(s, part) {
        let i = choose|i: int| holds_at(s, part, i);
        let x = s.take(i);
        let y = s.skip(i + part.len() as int);
        assert(s =~= x + part + y);
    }
}

/// What follows a prefix is what was put behind it; a text without the prefix has none.
pub proof fn law_what_follows_a_prefix(prefix: Seq<char>, rest: Seq<char>, s: Seq<char>)
    ensures
        after_prefix(prefix + rest, prefix) == Some(rest),
        after_prefix(s, prefix) matches Some(r) ==> s == prefix + r,
{
    let t = prefix + rest;
    assert(t.take(prefix.len() as int) =~= prefix);
    assert(t.skip(prefix.len() as int) =~= rest);
    if after_prefix(s, prefix) is Some {
        assert(s =~= prefix + s.skip(prefix.len() as int));
    }
}

/// Capitals become small letters, and nothing else changes.
pub proof fn law_small_letters(s: Seq<char>, i: int)
    requires
        0 <= i < s.len(),
    ensures
        ascii_lower(s).len() == s.len(),
        'A' <= s[i] <= 'Z' ==> ascii_lower(s)[i] as u32 == s[i] as u32 + 32,
        !('A' <= s[i] <= 'Z') ==> ascii_lower(s)[i] == s[i],
{
}

/// A text comes before another if it is a part of its start, or if at the first place where
/// they differ its character comes first.
pub proof fn law_order_of_texts(common: Seq<char>, x: char, y: char, a: Seq<char>, b: Seq<char>)
    ensures
        text_lt(common, common + seq![y] + b),
        (x as u32) < (y as u32) ==> text_lt(common + seq![x] + a, common + seq![y] + b),
        !text_lt(common, common),
{
    let n = common.len() as int;
    let longer = common + seq![y] + b;
    assert(lt_at(common, longer, n));
    if (x as u32) < (y as u32) {
        let s = common + seq![x] + a;
        assert(lt_at(s, longer, n));
    }
    lemma_text_lt_asymmetric(common, common);
}

// ---------------------------------------------------------------------------
// Numbers
// ---------------------------------------------------------------------------

/// The digits have the values that they stand for.
pub proof fn law_digits(d: nat)
    requires
        d < 16,
    ensures
        d < 10 ==> digit_char(d) as u32 == 0x30 + d && digit_value(digit_char(d)) == d,
        d >= 10 ==> digit_char(d) as u32 == 0x61 + (d - 10) && digit_value(digit_char(d)) == d,
{
}

/// A numeral is its digits, the highest first: the last is worth itself, and those before
/// it are worth the base each time.
pub proof fn law_numerals(n: nat, d: nat, radix: nat)
    requires
        2 <= radix <= 16,
        d < radix,
    ensures
        n > 0 ==> numeral(n * radix + d, radix) == numeral(n, radix).push(digit_char(d)),
        numeral(d, radix) == seq![digit_char(d)],
{
    if n > 0 {
        let m = n * radix + d;
        assert(m >= radix && m / radix == n && m % radix == d) by (nonlinear_arith)
            requires
                n > 0,
                d < radix,
                m == n * radix + d,
        ;
    }
}

/// Nothing but digits.
pub open spec fn only_digits(s: Seq<char>, radix: nat) -> bool {
    forall|i: int| 0 <= i < s.len() ==> digit_value(#[trigger] s[i]) < radix
}

/// A number is read from digits after at most one plus sign; anything else in it, nothing
/// at all, or a number over the limit is not read.
pub proof fn law_reading_numbers(s: Seq<char>, radix: nat, max: nat)
    requires
        s.len() == 0 || s[0] != '+',
    ensures
        parse_number(s, radix, max) is Some <==> s.len() > 0 && only_digits(s, radix)
            && digits_value(s, radix) <= max,
        parse_number(s, radix, max) is Some ==> parse_number(s, radix, max) == Some(
            digits_value(s, radix),
        ),
        parse_number(seq!['+'] + s, radix, max) == parse_number(s, radix, max),
{
    let t = seq!['+'] + s;
    assert(t.skip(1) =~= s);
    assert(t[0] == '+');
    assert(strip_plus(s) == s);
    assert(strip_plus(t) == s);
    assert(all_digits(s, radix) == only_digits(s, radix)) by {
        if only_digits(s, radix) {
            assert forall|i: int| 0 <= i < s.len() implies digit_value(#[trigger] s[i]) < radix by {
            }
        }
    }
}

} // verus!
