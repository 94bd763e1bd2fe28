//! Cutting text into pieces.
use crate::phrase::holds;
use vstd::prelude::*;

verus! {

/// The characters of each piece of a list.
pub open spec fn pieces(v: Seq<Vec<char>>) -> Seq<Seq<char>> {
    v.map_values(|p: Vec<char>| p@)
}

/// The stretches of `s` between the characters that satisfy `sep`; always one
/// more than there are such characters.
pub open spec fn split_by(s: Seq<char>, sep: spec_fn(char) -> bool) -> Seq<Seq<char>>
    decreases s.len(),
{
    if s.len() == 0 {
        seq![Seq::empty()]
    } else {
        let before = split_by(s.drop_last(), sep);
        if sep(s.last()) {
            before.push(Seq::empty())
        } else {
            before.drop_last().push(before.last().push(s.last()))
        }
    }
}

/// The predicate that holds of `c` alone.
pub open spec fn only(c: char) -> spec_fn(char) -> bool {
    |x: char| x == c
}

/// The predicate that holds of white space.
pub open spec fn spaces() -> spec_fn(char) -> bool {
    |x: char| is_space(x)
}

/// The stretches of `s` between the occurrences of `c`.
pub open spec fn split_on(s: Seq<char>, c: char) -> Seq<Seq<char>> {
    split_by(s, only(c))
}

/// The characters with the Unicode property White_Space.
pub open spec fn is_space(c: char) -> bool {
    let u = c as u32;
    0x09 <= u <= 0x0d || u == 0x20 || u == 0x85 || u == 0xa0 || u == 0x1680 || 0x2000 <= u
        <= 0x200a || u == 0x2028 || u == 0x2029 || u == 0x202f || u == 0x205f || u == 0x3000
}

/// The longest stretches of `s` without white space.
pub open spec fn words(s: Seq<char>) -> Seq<Seq<char>> {
    split_by(s, spaces()).filter(|w: Seq<char>| w.len() > 0)
}

/// `line` without one carriage return at its end.
pub open spec fn strip_cr(line: Seq<char>) -> Seq<char> {
    if line.len() > 0 && line.last() == '\r' {
        line.drop_last()
    } else {
        line
    }
}

/// The lines of `s`: what a line feed ends, without a carriage return before it, and
/// the rest after the last line feed as it is, unless it is empty.
pub open spec fn lines(s: Seq<char>) -> Seq<Seq<char>> {
    let all = split_on(s, '\n');
    let ended = all.drop_last().map_values(|line: Seq<char>| strip_cr(line));
    if all.last().len() == 0 {
        ended
    } else {
        ended.push(all.last())
    }
}

/// `i` is the first position of `c` in `s`.
pub open spec fn first_at(s: Seq<char>, c: char, i: int) -> bool {
    0 <= i < s.len() && s[i] == c && forall|j: int| 0 <= j < i ==> s[j] != c
}

/// What stands before and after the first `c` in `s`.
pub open spec fn split_first(s: Seq<char>, c: char) -> Option<(Seq<char>, Seq<char>)> {
    if s.contains(c) {
        let i = choose|i: int| first_at(s, c, i);
        Some((s.take(i), s.skip(i + 1)))
    } else {
        None
    }
}

/// `s` without the white space at its start.
pub open spec fn trim_start(s: Seq<char>) -> Seq<char>
    decreases s.len(),
{
    if s.len() > 0 && is_space(s[0]) {
        trim_start(s.skip(1))
    } else {
        s
    }
}

/// `s` without the white space at its end.
pub open spec fn trim_end(s: Seq<char>) -> Seq<char>
    decreases s.len(),
{
    if s.len() > 0 && is_space(s.last()) {
        trim_end(s.drop_last())
    } else {
        s
    }
}

/// `s` without the white space at both ends.
pub open spec fn trim(s: Seq<char>) -> Seq<char> {
    trim_end(trim_start(s))
}

/// Cutting at a separator cuts what stands before it and what stands after it.
pub proof fn lemma_split_append(
    a: Seq<char>,
    c: char,
    b: Seq<char>,
    sep: spec_fn(char) -> bool,
)
    requires
        sep(c),
    ensures
        split_by(a.push(c) + b, sep) == split_by(a, sep) + split_by(b, sep),
    decreases b.len(),
{
    lemma_split_nonempty(a, sep);
    lemma_split_nonempty(b, sep);
    let s = a.push(c) + b;
    if b.len() == 0 {
        assert(s =~= a.push(c));
        assert(s.drop_last() =~= a);
        assert(split_by(s, sep) =~= split_by(a, sep) + split_by(b, sep));
    } else {
        lemma_split_append(a, c, b.drop_last(), sep);
        lemma_split_nonempty(b.drop_last(), sep);
        assert(s.drop_last() =~= a.push(c) + b.drop_last());
        assert(s.last() == b.last());
        let x = split_by(a, sep);
        let y = split_by(b.drop_last(), sep);
        assert((x + y).last() == y.last());
        assert((x + y).drop_last() =~= x + y.drop_last());
        assert(split_by(s, sep) =~= x + split_by(b, sep));
    }
}

/// There is always a piece.
pub proof fn lemma_split_nonempty(s: Seq<char>, sep: spec_fn(char) -> bool)
    ensures
        split_by(s, sep).len() > 0,
    decreases s.len(),
{
    if s.len() > 0 {
        lemma_split_nonempty(s.drop_last(), sep);
    }
}

/// Text without separators is one piece.
pub proof fn lemma_split_plain(s: Seq<char>, sep: spec_fn(char) -> bool)
    requires
        forall|i: int| 0 <= i < s.len() ==> !sep(#[trigger] s[i]),
    ensures
        split_by(s, sep) == seq![s],
    decreases s.len(),
{
    if s.len() > 0 {
        lemma_split_plain(s.drop_last(), sep);
        assert(split_by(s, sep) =~= seq![s]) by {
            assert(s.drop_last().push(s.last()) =~= s);
        }
    } else {
        assert(s =~= Seq::empty());
        assert(split_by(s, sep) =~= seq![s]);
    }
}

/// The words on both sides of a white space are the words of the whole.
pub proof fn lemma_words_append(a: Seq<char>, c: char, b: Seq<char>)
    requires
        is_space(c),
    ensures
        words(a.push(c) + b) == words(a) + words(b),
{
    lemma_split_append(a, c, b, spaces());
    let keep = |w: Seq<char>| w.len() > 0;
    Seq::filter_distributes_over_add(split_by(a, spaces()), split_by(b, spaces()), keep);
}

/// Text without white space is one word, or none where it is empty.
pub proof fn lemma_words_plain(w: Seq<char>)
    requires
        forall|i: int| 0 <= i < w.len() ==> !is_space(#[trigger] w[i]),
    ensures
        words(w) == if w.len() > 0 {
            seq![w]
        } else {
            Seq::<Seq<char>>::empty()
        },
{
    lemma_split_plain(w, spaces());
    reveal(Seq::filter);
    let keep = |x: Seq<char>| x.len() > 0;
    assert(seq![w].drop_last() =~= Seq::<Seq<char>>::empty());
    assert(seq![w].drop_last().filter(keep) =~= Seq::<Seq<char>>::empty());
    if w.len() > 0 {
        assert(seq![w].filter(keep) =~= seq![w]);
    } else {
        assert(seq![w].filter(keep) =~= Seq::<Seq<char>>::empty());
    }
}

/// The first position of a character is the only first position.
pub proof fn lemma_split_first(s: Seq<char>, c: char, i: int)
    requires
        first_at(s, c, i),
    ensures
        split_first(s, c) == Some((s.take(i), s.skip(i + 1))),
{
    assert(s.contains(c));
    let k = choose|k: int| first_at(s, c, k);
    assert(first_at(s, c, k));
    if k < i {
        assert(s[k] != c);
    } else if i < k {
        assert(s[i] != c);
    }
}

/// Where text is cut.
enum Separator {
    Exactly(char),
    Space,
}

impl Separator {
    spec fn holds(self) -> spec_fn(char) -> bool {
        match self {
            Separator::Exactly(c) => only(c),
            Separator::Space => spaces(),
        }
    }

    fn test(&self, x: char) -> (r: bool)
        ensures
            r == self.holds()(x),
    {
        match self {
            Separator::Exactly(c) => x == *c,
            Separator::Space => space(x),
        }
    }
}

/// Cuts `s` at the separators.
fn split_where(s: &[char], sep: Separator) -> (r: Vec<Vec<char>>)
    ensures
        pieces(r@) == split_by(s@, sep.holds()),
        r@.len() > 0,
{
    let ghost p = sep.holds();
    let mut done: Vec<Vec<char>> = Vec::new();
    let mut current: Vec<char> = Vec::new();
    let mut i: usize = 0;
    while i < s.len()
        invariant
            p == sep.holds(),
            i <= s@.len(),
            pieces(done@).push(current@) =~= split_by(s@.take(i as int), p),
        decreases s@.len() - i,
    {
        let ghost before = split_by(s@.take(i as int), p);
        let ghost old_done = pieces(done@);
        let c = s[i];
        proof {
            assert(s@.take(i + 1).drop_last() =~= s@.take(i as int));
            assert(s@.take(i + 1).last() == c);
            assert(before.last() == current@);
            assert(before.drop_last() =~= old_done);
        }
        if sep.test(c) {
            let piece = current;
            current = Vec::new();
            done.push(piece);
            proof { assert(pieces(done@) =~= before); }
        } else {
            current.push(c);
        }
        i = i + 1;
    }
    let ghost old_done = pieces(done@);
    let ghost last = current@;
    done.push(current);
    proof {
        assert(s@.take(s@.len() as int) =~= s@);
        assert(pieces(done@) =~= old_done.push(last));
    }
    done
}

/// Cuts `s` at each `c`.
pub fn split_chars(s: &[char], c: char) -> (r: Vec<Vec<char>>)
    ensures
        pieces(r@) == split_on(s@, c),
        r@.len() > 0,
{
    split_where(s, Separator::Exactly(c))
}

/// Whether `c` is white space.
pub fn space(c: char) -> (r: bool)
    ensures
        r == is_space(c),
{
    let u = c as u32;
    (0x09 <= u && u <= 0x0d) || u == 0x20 || u == 0x85 || u == 0xa0 || u == 0x1680 || (0x2000 <= u
        && u <= 0x200a) || u == 0x2028 || u == 0x2029 || u == 0x202f || u == 0x205f || u == 0x3000
}

/// The words of `s`.
pub fn split_words(s: &[char]) -> (r: Vec<Vec<char>>)
    ensures
        pieces(r@) == words(s@),
{
    let all = split_where(s, Separator::Space);
    let ghost whole = pieces(all@);
    let mut kept: Vec<Vec<char>> = Vec::new();
    let mut i: usize = 0;
    let ghost keep = |w: Seq<char>| w.len() > 0;
    while i < all.len()
        invariant
            i <= all@.len(),
            whole == pieces(all@),
            keep == (|w: Seq<char>| w.len() > 0),
            pieces(kept@) =~= whole.take(i as int).filter(keep),
        decreases all@.len() - i,
    {
        proof {
            assert(whole.take(i + 1) =~= whole.take(i as int).push(whole[i as int]));
            assert(whole.take(i + 1).drop_last() =~= whole.take(i as int));
            reveal(Seq::filter);
        }
        if all[i].len() > 0 {
            let ghost before = pieces(kept@);
            kept.push(copy_chars(&all[i]));
            proof { assert(pieces(kept@) =~= before.push(whole[i as int])); }
        }
        i = i + 1;
    }
    proof { assert(whole.take(whole.len() as int) =~= whole); }
    kept
}

/// A copy of a stretch of text.
pub fn copy_chars(v: &[char]) -> (r: Vec<char>)
    ensures
        r@ == v@,
{
    let mut r: Vec<char> = Vec::new();
    let mut i: usize = 0;
    while i < v.len()
        invariant
            i <= v@.len(),
            r@ =~= v@.take(i as int),
        decreases v@.len() - i,
    {
        r.push(v[i]);
        i = i + 1;
    }
    proof { assert(v@.take(v@.len() as int) =~= v@); }
    r
}

/// The characters of `v` from `from` up to, not including, `to`.
pub fn stretch(v: &[char], from: usize, to: usize) -> (r: Vec<char>)
    requires
        from <= to <= v@.len(),
    ensures
        r@ == v@.subrange(from as int, to as int),
{
    copy_chars(vstd::slice::slice_subrange(v, from, to))
}

/// Whether two stretches hold the same characters.
pub fn same_chars(a: &[char], b: &[char]) -> (r: bool)
    ensures
        r == (a@ == b@),
{
    if a.len() != b.len() {
        return false;
    }
    let mut i: usize = 0;
    while i < a.len()
        invariant
            i <= a@.len(),
            a@.len() == b@.len(),
            forall|j: int| 0 <= j < i ==> a@[j] == b@[j],
        decreases a@.len() - i,
    {
        if a[i] != b[i] {
            return false;
        }
        i = i + 1;
    }
    proof { assert(a@ =~= b@); }
    true
}

/// Whether `s` holds the character `c`.
pub fn has_char(s: &[char], c: char) -> (r: bool)
    ensures
        r == s@.contains(c),
{
    let mut i: usize = 0;
    while i < s.len()
        invariant
            i <= s@.len(),
            forall|j: int| 0 <= j < i ==> s@[j] != c,
        decreases s@.len() - i,
    {
        if s[i] == c {
            return true;
        }
        i = i + 1;
    }
    false
}

/// What follows `prefix` in `s`, if `s` starts with it.
pub open spec fn after_prefix(s: Seq<char>, prefix: Seq<char>) -> Option<Seq<char>> {
    if s.len() >= prefix.len() && s.take(prefix.len() as int) == prefix {
        Some(s.skip(prefix.len() as int))
    } else {
        None
    }
}

/// What follows `prefix` in `s`, if `s` starts with it.
pub fn strip_prefix_chars(s: &[char], prefix: &str) -> (r: Option<Vec<char>>)
    ensures
        match r {
            Some(rest) => after_prefix(s@, prefix@) == Some(rest@),
            None => after_prefix(s@, prefix@) is None,
        },
{
    let p = crate::text::chars_of(prefix);
    if s.len() < p.len() {
        return None;
    }
    let head = stretch(s, 0, p.len());
    proof { assert(head@ =~= s@.take(p@.len() as int)); }
    if same_chars(&head, &p) {
        let rest = stretch(s, p.len(), s.len());
        proof { assert(rest@ =~= s@.skip(p@.len() as int)); }
        Some(rest)
    } else {
        None
    }
}

/// What stands before and after the first `c` in `s`.
pub fn split_once_chars(s: &[char], c: char) -> (r: Option<(Vec<char>, Vec<char>)>)
    ensures
        match r {
            Some((a, b)) => split_first(s@, c) == Some((a@, b@)),
            None => split_first(s@, c) is None,
        },
{
    let mut i: usize = 0;
    while i < s.len()
        invariant
            i <= s@.len(),
            forall|j: int| 0 <= j < i ==> s@[j] != c,
        decreases s@.len() - i,
    {
        if s[i] == c {
            let a = stretch(s, 0, i);
            let b = stretch(s, i + 1, s.len());
            proof {
                lemma_split_first(s@, c, i as int);
                assert(a@ =~= s@.take(i as int));
                assert(b@ =~= s@.skip(i + 1));
            }
            return Some((a, b));
        }
        i = i + 1;
    }
    None
}

/// `s` without the white space at both ends.
pub fn trim_chars(s: &[char]) -> (r: Vec<char>)
    ensures
        r@ == trim(s@),
{
    let mut from: usize = 0;
    proof { assert(s@.skip(0) =~= s@); }
    while from < s.len() && space(s[from])
        invariant
            from <= s@.len(),
            trim_start(s@) == trim_start(s@.skip(from as int)),
        decreases s@.len() - from,
    {
        proof {
            assert(s@.skip(from as int)[0] == s@[from as int]);
            assert(s@.skip(from as int).skip(1) =~= s@.skip(from + 1));
        }
        from = from + 1;
    }
    proof {
        if from < s@.len() {
            assert(s@.skip(from as int)[0] == s@[from as int]);
        }
        assert(trim_start(s@) == s@.skip(from as int));
        assert(s@.subrange(from as int, s@.len() as int) =~= s@.skip(from as int));
    }
    let mut to: usize = s.len();
    while to > from && space(s[to - 1])
        invariant
            from <= to <= s@.len(),
            trim(s@) == trim_end(s@.subrange(from as int, to as int)),
        decreases to,
    {
        proof {
            let cur = s@.subrange(from as int, to as int);
            assert(cur.last() == s@[to - 1]);
            assert(cur.drop_last() =~= s@.subrange(from as int, to - 1));
        }
        to = to - 1;
    }
    proof {
        if to > from {
            assert(s@.subrange(from as int, to as int).last() == s@[to - 1]);
        }
    }
    stretch(s, from, to)
}

/// The lines of `s`.
pub fn split_lines(s: &[char]) -> (r: Vec<Vec<char>>)
    ensures
        pieces(r@) == lines(s@),
{
    let all = split_chars(s, '\n');
    let ghost whole = pieces(all@);
    let n: usize = all.len() - 1;
    assert(whole.last() == all@[n as int]@);
    let mut r: Vec<Vec<char>> = Vec::new();
    let mut i: usize = 0;
    while i < n
        invariant
            i <= n,
            n + 1 == all@.len(),
            whole == pieces(all@),
            r@.len() == i,
            forall|j: int| 0 <= j < i ==> r@[j]@ == strip_cr(whole[j]),
        decreases n - i,
    {
        let line = &all[i];
        assert(whole[i as int] == line@);
        let len: usize = if line.len() > 0 && line[line.len() - 1] == '\r' {
            line.len() - 1
        } else {
            line.len()
        };
        let piece = stretch(line, 0, len);
        proof { assert(piece@ =~= strip_cr(line@)); }
        r.push(piece);
        i = i + 1;
    }
    if all[n].len() > 0 {
        let rest = stretch(&all[n], 0, all[n].len());
        proof { assert(rest@ =~= whole.last()); }
        r.push(rest);
    }
    proof { assert(pieces(r@) =~= lines(s@)); }
    r
}

/// A text that holds a character holds a first one.
proof fn lemma_first_at(s: Seq<char>, c: char)
    requires
        s.contains(c),
    ensures
        exists|i: int| first_at(s, c, i),
    decreases s.len(),
{
    let last = choose|i: int| 0 <= i < s.len() && s[i] == c;
    if !s.take(last).contains(c) {
        assert forall|j: int| 0 <= j < last implies s[j] != c by {
            assert(s.take(last)[j] == s[j]);
        }
        assert(first_at(s, c, last));
    } else {
        lemma_first_at(s.take(last), c);
        let i = choose|i: int| first_at(s.take(last), c, i);
        assert forall|j: int| 0 <= j < i implies s[j] != c by {
            assert(s.take(last)[j] == s[j]);
        }
        assert(first_at(s, c, i));
    }
}

/// A text is split at a character that it holds: the part before has none of them, and
/// the two parts with the character between them are the text. One without the character
/// is not split.
pub proof fn law_split_first(s: Seq<char>, c: char, a: Seq<char>, b: Seq<char>)
    ensures
        split_first(s, c) == Some((a, b)) <==> s == a + seq![c] + b && !a.contains(c),
        split_first(s, c) is None <==> !s.contains(c),
{
    if s.contains(c) {
        lemma_first_at(s, c);
        let i = choose|i: int| first_at(s, c, i);
        assert(s =~= s.take(i) + seq![c] + s.skip(i + 1));
        assert(!s.take(i).contains(c));
        if s == a + seq![c] + b && !a.contains(c) {
            assert(s[a.len() as int] == c);
            assert forall|j: int| 0 <= j < a.len() implies s[j] != c by {
                assert(s[j] == a[j]);
                assert(a.contains(a[j]));
            }
            assert(first_at(s, c, a.len() as int));
            assert(i == a.len());
            assert(s.take(i) =~= a);
            assert(s.skip(i + 1) =~= b);
        }
    } else if s == a + seq![c] + b {
        assert(s[a.len() as int] == c);
    }
}

} // verus!
