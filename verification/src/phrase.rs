//! Texts made of texts.
use crate::copying::{copy_texts, pairs, texts};
use crate::split::{same_chars, stretch};
use crate::text::chars_of;
use vstd::prelude::*;

verus! {

/// Texts behind each other with `sep` between them.
pub open spec fn join_with(v: Seq<Seq<char>>, sep: Seq<char>) -> Seq<char>
    decreases v.len(),
{
    if v.len() == 0 {
        Seq::empty()
    } else if v.len() == 1 {
        v[0]
    } else {
        join_with(v.drop_last(), sep) + sep + v.last()
    }
}

/// Texts behind each other with `sep` between them.
pub fn join_texts(v: &[String], sep: &str) -> (r: String)
    ensures
        r@ == join_with(texts(v@), sep@),
{
    let mut out = String::from_str("");
    let ghost all = texts(v@);
    proof {
        reveal_strlit("");
        assert(all.take(0) =~= Seq::empty());
        assert(out@ =~= Seq::empty());
    }
    let mut i: usize = 0;
    while i < v.len()
        invariant
            i <= v@.len(),
            all == texts(v@),
            out@ == join_with(all.take(i as int), sep@),
        decreases v@.len() - i,
    {
        let ghost before = out@;
        if i > 0 {
            out.append(sep);
        }
        out.append(v[i].as_str());
        proof {
            let next = all.take(i + 1);
            assert(next.drop_last() =~= all.take(i as int));
            assert(next.last() == v@[i as int]@);
            if i == 0 {
                assert(before =~= Seq::empty());
                assert(out@ =~= next[0]);
            }
        }
        i = i + 1;
    }
    proof { assert(all.take(v@.len() as int) =~= all); }
    out
}

/// `s` holds `part` from `i` on.
pub open spec fn holds_at(s: Seq<char>, part: Seq<char>, i: int) -> bool {
    0 <= i && i + part.len() <= s.len() && s.subrange(i, i + part.len()) == part
}

/// `s` holds `part` somewhere.
pub open spec fn holds(s: Seq<char>, part: Seq<char>) -> bool {
    exists|i: int| holds_at(s, part, i)
}

/// Whether `s` holds `part`.
pub fn holds_text(s: &str, part: &str) -> (r: bool)
    ensures
        r == holds(s@, part@),
{
    let chars = chars_of(s);
    let want = chars_of(part);
    if want.len() > chars.len() {
        return false;
    }
    let size: usize = chars.len();
    let width: usize = want.len();
    let last = size - width;
    let mut i: usize = 0;
    while i < last
        invariant
            i <= last,
            size == chars@.len(),
            width == want@.len(),
            last == size - width,
            chars@ == s@,
            want@ == part@,
            forall|j: int| 0 <= j < i ==> !holds_at(s@, part@, j),
        decreases last - i,
    {
        if here(&chars, &want, i) {
            return true;
        }
        i = i + 1;
    }
    here(&chars, &want, last)
}

fn here(chars: &[char], want: &[char], i: usize) -> (r: bool)
    requires
        i + want@.len() <= chars@.len(),
    ensures
        r == holds_at(chars@, want@, i as int),
{
    let size: usize = chars.len();
    let end = i + want.len();
    let head = stretch(chars, i, end);
    proof { assert(head@ =~= chars@.subrange(i as int, i + want@.len())); }
    same_chars(&head, want)
}

/// One list behind the other.
pub fn chain_texts(a: &[String], b: &[String]) -> (r: Vec<String>)
    ensures
        texts(r@) == texts(a@) + texts(b@),
{
    let mut out = copy_texts(a);
    extend_texts(&mut out, b);
    out
}

/// Adds texts behind others.
pub fn extend_texts(out: &mut Vec<String>, more: &[String])
    ensures
        texts(final(out)@) == texts(old(out)@) + texts(more@),
{
    let ghost before = texts(out@);
    let mut i: usize = 0;
    proof {
        assert(texts(more@.take(0)) =~= Seq::empty());
        assert(before + Seq::<Seq<char>>::empty() =~= before);
    }
    while i < more.len()
        invariant
            i <= more@.len(),
            before == texts(old(out)@),
            texts(out@) == before + texts(more@.take(i as int)),
        decreases more@.len() - i,
    {
        let s = more[i].clone();
        proof {
            lemma_texts_push(out@, s);
            assert(more@.take(i + 1) =~= more@.take(i as int).push(more@[i as int]));
            lemma_texts_push(more@.take(i as int), more@[i as int]);
            assert(before + texts(more@.take(i as int)).push(s@) =~= (before + texts(
                more@.take(i as int),
            )).push(s@));
        }
        out.push(s);
        i = i + 1;
    }
    proof { assert(more@.take(more@.len() as int) =~= more@); }
}

/// One text more.
pub proof fn lemma_texts_push(v: Seq<String>, s: String)
    ensures
        texts(v.push(s)) == texts(v).push(s@),
{
    assert(texts(v.push(s)) =~= texts(v).push(s@));
}

/// Pairs behind others.
pub fn extend_pairs(out: &mut Vec<(String, String)>, more: &[(String, String)])
    ensures
        pairs(final(out)@) == pairs(old(out)@) + pairs(more@),
{
    let ghost before = pairs(out@);
    let ghost all = pairs(more@);
    let mut i: usize = 0;
    proof { assert(before + all.take(0) =~= before); }
    while i < more.len()
        invariant
            i <= more@.len(),
            before == pairs(old(out)@),
            all == pairs(more@),
            pairs(out@) == before + all.take(i as int),
        decreases more@.len() - i,
    {
        let ghost mid = out@;
        let p = (more[i].0.clone(), more[i].1.clone());
        out.push(p);
        proof {
            assert(pairs(out@) =~= pairs(mid).push((p.0@, p.1@)));
            assert(all.take(i + 1) =~= all.take(i as int).push(all[i as int]));
            assert(before + all.take(i + 1) =~= (before + all.take(i as int)).push(all[i as int]));
        }
        i = i + 1;
    }
    proof { assert(all.take(more@.len() as int) =~= all); }
}

} // verus!
