//! Text as sequences of characters.
use vstd::prelude::*;

verus! {

/// `String::push` appends one character.
pub assume_specification[ String::push ](s: &mut String, c: char)
    ensures
        final(s)@ == old(s)@.push(c),
;

/// The characters of `s`, in order.
pub fn chars_of(s: &str) -> (v: Vec<char>)
    ensures
        v@ == s@,
{
    let mut v: Vec<char> = Vec::new();
    for c in it: s.chars()
        invariant
            v@ == s@.take(it.index() as int),
            it.seq() == s@,
    {
        v.push(c);
        proof { assert(s@.take(it.index() as int + 1) =~= s@.take(it.index() as int).push(c)); }
    }
    proof { assert(s@.take(s@.len() as int) =~= s@); }
    v
}

/// Two texts behind each other.
pub fn say2(a: &str, b: &str) -> (r: String)
    ensures
        r@ == a@ + b@,
{
    let mut r = a.to_owned();
    r.append(b);
    r
}

/// Three texts behind each other.
pub fn say3(a: &str, b: &str, c: &str) -> (r: String)
    ensures
        r@ == a@ + b@ + c@,
{
    let mut r = say2(a, b);
    r.append(c);
    r
}

/// Four texts behind each other.
pub fn say4(a: &str, b: &str, c: &str, d: &str) -> (r: String)
    ensures
        r@ == a@ + b@ + c@ + d@,
{
    let mut r = say3(a, b, c);
    r.append(d);
    r
}

/// Five texts behind each other.
pub fn say5(a: &str, b: &str, c: &str, d: &str, e: &str) -> (r: String)
    ensures
        r@ == a@ + b@ + c@ + d@ + e@,
{
    let mut r = say4(a, b, c, d);
    r.append(e);
    r
}

/// `String::from_utf8`: the text that the bytes encode, and nothing where they
/// are not valid UTF-8.
#[verifier::external_body]
pub(crate) fn text_from_utf8(bytes: Vec<u8>) -> (r: Option<String>)
    ensures
        match r {
            Some(s) => vstd::utf8::valid_utf8(bytes@) && s@ == vstd::utf8::decode_utf8(bytes@),
            None => !vstd::utf8::valid_utf8(bytes@),
        },
{
    String::from_utf8(bytes).ok()
}

/// The text that bytes encode, with a replacement character for what is not UTF-8.
pub uninterp spec fn lossy_text(bytes: Seq<u8>) -> Seq<char>;

/// `String::from_utf8_lossy`: a function of the bytes alone; of valid UTF-8 it is
/// the text that the bytes encode.
#[verifier::external_body]
pub(crate) fn text_lossy(bytes: &[u8]) -> (r: String)
    ensures
        r@ == lossy_text(bytes@),
        vstd::utf8::valid_utf8(bytes@) ==> r@ == vstd::utf8::decode_utf8(bytes@),
{
    String::from_utf8_lossy(bytes).into_owned()
}

/// The text made of the characters `v`.
pub fn string_of(v: &[char]) -> (s: String)
    ensures
        s@ == v@,
{
    let mut s = String::new();
    let mut i: usize = 0;
    while i < v.len()
        invariant
            i <= v@.len(),
            s@ == v@.take(i as int),
        decreases v@.len() - i,
    {
        s.push(v[i]);
        i = i + 1;
        proof { assert(v@.take(i as int) =~= v@.take(i - 1).push(v@[i - 1])); }
    }
    proof { assert(v@.take(v@.len() as int) =~= v@); }
    s
}

/// Whether two texts are the same.
pub fn text_eq(a: &str, b: &str) -> (r: bool)
    ensures
        r == (a@ == b@),
{
    a.to_owned() == b.to_owned()
}

/// Whether the characters `a` are those of `b`.
pub fn chars_are(a: &[char], b: &str) -> (r: bool)
    ensures
        r == (a@ == b@),
{
    let x = string_of(a);
    x == b.to_owned()
}

/// `c` in lower case, if it is an ASCII letter.
pub open spec fn lower_char(c: char) -> char {
    if 'A' <= c <= 'Z' {
        (c as u32 + 32) as char
    } else {
        c
    }
}

/// `s` with its ASCII letters in lower case.
pub open spec fn ascii_lower(s: Seq<char>) -> Seq<char> {
    s.map_values(|c: char| lower_char(c))
}

/// `s` with its ASCII letters in lower case.
pub fn lower_chars(s: &[char]) -> (r: Vec<char>)
    ensures
        r@ == ascii_lower(s@),
{
    let mut r: Vec<char> = Vec::new();
    let mut i: usize = 0;
    while i < s.len()
        invariant
            i <= s@.len(),
            r@.len() == i,
            forall|j: int| 0 <= j < i ==> r@[j] == lower_char(s@[j]),
        decreases s@.len() - i,
    {
        let c = s[i];
        if 'A' <= c && c <= 'Z' {
            r.push(((c as u8) + 32) as char);
        } else {
            r.push(c);
        }
        i = i + 1;
    }
    proof { assert(r@ =~= ascii_lower(s@)); }
    r
}

/// `a` comes before `b` at position `i`: they agree before it, and there `a`
/// ends or holds the smaller code point.
pub open spec fn lt_at(a: Seq<char>, b: Seq<char>, i: int) -> bool {
    &&& 0 <= i <= a.len()
    &&& i < b.len()
    &&& forall|j: int| 0 <= j < i ==> a[j] == b[j]
    &&& i == a.len() || (a[i] as u32) < (b[i] as u32)
}

/// Lexicographic order by code point, which for UTF-8 text is also the order of
/// the encoded bytes.
pub open spec fn text_lt(a: Seq<char>, b: Seq<char>) -> bool {
    exists|i: int| lt_at(a, b, i)
}

/// Whether `a` comes before `b` in code point order.
pub fn text_less(a: &str, b: &str) -> (r: bool)
    ensures
        r == text_lt(a@, b@),
{
    let x = chars_of(a);
    let y = chars_of(b);
    let mut i: usize = 0;
    while i < x.len() && i < y.len() && x[i] == y[i]
        invariant
            i <= x@.len(),
            i <= y@.len(),
            x@ == a@,
            y@ == b@,
            forall|j: int| 0 <= j < i ==> x@[j] == y@[j],
        decreases x@.len() - i,
    {
        i = i + 1;
    }
    if i >= y.len() {
        proof {
            assert forall|k: int| !lt_at(a@, b@, k) by {
                if lt_at(a@, b@, k) {
                    assert(a@[k] == b@[k]);
                }
            }
        }
        false
    } else if i >= x.len() {
        proof { assert(lt_at(a@, b@, i as int)); }
        true
    } else {
        let less = (x[i] as u32) < (y[i] as u32);
        proof {
            if less {
                assert(lt_at(a@, b@, i as int));
            } else {
                assert forall|k: int| !lt_at(a@, b@, k) by {
                    if lt_at(a@, b@, k) {
                        if k < i {
                            assert(a@[k] == b@[k]);
                        } else if k > i {
                            assert(a@[i as int] == b@[i as int]);
                        }
                    }
                }
            }
        }
        less
    }
}

/// No text comes before itself, and the order has no cycles of two.
pub proof fn lemma_text_lt_asymmetric(a: Seq<char>, b: Seq<char>)
    ensures
        !(text_lt(a, b) && text_lt(b, a)),
        !text_lt(a, a),
{
    if text_lt(a, b) && text_lt(b, a) {
        let i = choose|i: int| lt_at(a, b, i);
        let j = choose|j: int| lt_at(b, a, j);
        if i < j {
            assert(b[i] == a[i]);
        } else if j < i {
            assert(a[j] == b[j]);
        }
    }
    if text_lt(a, a) {
        let i = choose|i: int| lt_at(a, a, i);
        assert(a[i] == a[i]);
    }
}

/// The order is transitive.
pub proof fn lemma_text_lt_transitive(a: Seq<char>, b: Seq<char>, c: Seq<char>)
    requires
        text_lt(a, b),
        text_lt(b, c),
    ensures
        text_lt(a, c),
{
    let i = choose|i: int| lt_at(a, b, i);
    let j = choose|j: int| lt_at(b, c, j);
    let k = if i < j { i } else { j };
    assert forall|m: int| 0 <= m < k implies a[m] == c[m] by {
        assert(a[m] == b[m]);
        assert(b[m] == c[m]);
    }
    if i < j {
        assert(b[i] == c[i]);
    } else if j < i {
        assert(a[j] == b[j]);
    }
    assert(lt_at(a, c, k));
}

/// Two different texts are ordered one way or the other.
pub proof fn lemma_text_lt_total(a: Seq<char>, b: Seq<char>)
    requires
        a != b,
    ensures
        text_lt(a, b) || text_lt(b, a),
{
    if a.len() <= b.len() && a =~= b.take(a.len() as int) {
        assert(a.len() < b.len()) by {
            if a.len() == b.len() {
                assert(b.take(b.len() as int) =~= b);
            }
        }
        assert forall|j: int| 0 <= j < a.len() implies a[j] == b[j] by {
            assert(a[j] == b.take(a.len() as int)[j]);
        }
        assert(lt_at(a, b, a.len() as int));
    } else if b.len() <= a.len() && b =~= a.take(b.len() as int) {
        assert(b.len() < a.len()) by {
            if a.len() == b.len() {
                assert(a.take(a.len() as int) =~= a);
            }
        }
        assert forall|j: int| 0 <= j < b.len() implies a[j] == b[j] by {
            assert(b[j] == a.take(b.len() as int)[j]);
        }
        assert(lt_at(b, a, b.len() as int));
    } else {
        let i = first_difference(a, b, 0);
        lemma_first_difference(a, b, 0);
        vstd::utf8::char_u32_cast(a[i], a[i] as u32);
        vstd::utf8::char_u32_cast(b[i], b[i] as u32);
        if (a[i] as u32) < (b[i] as u32) {
            assert(lt_at(a, b, i));
        } else {
            assert(lt_at(b, a, i));
        }
    }
}

/// The first position from `i` on at which `a` and `b` differ or one ends.
spec fn first_difference(a: Seq<char>, b: Seq<char>, i: int) -> int
    decreases a.len() - i,
{
    if i >= a.len() || i >= b.len() || a[i] != b[i] {
        i
    } else {
        first_difference(a, b, i + 1)
    }
}

proof fn lemma_first_difference(a: Seq<char>, b: Seq<char>, i: int)
    requires
        0 <= i <= a.len(),
        i <= b.len(),
        forall|j: int| 0 <= j < i ==> a[j] == b[j],
    ensures
        ({
            let k = first_difference(a, b, i);
            &&& i <= k <= a.len()
            &&& k <= b.len()
            &&& forall|j: int| 0 <= j < k ==> a[j] == b[j]
            &&& k < a.len() && k < b.len() ==> a[k] != b[k]
            &&& k == a.len() ==> a =~= b.take(a.len() as int)
            &&& k == b.len() ==> b =~= a.take(b.len() as int)
        }),
    decreases a.len() - i,
{
    if i >= a.len() || i >= b.len() || a[i] != b[i] {
    } else {
        lemma_first_difference(a, b, i + 1);
    }
}

} // verus!
