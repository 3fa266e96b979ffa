//! Text as sequences of characters: equality, order and search.

use vstd::prelude::*;

verus! {

/// The characters of `s`, one by one.
pub fn chars_of(s: &str) -> (r: Vec<char>)
    ensures
        r@ == s@,
{
    let mut r: Vec<char> = Vec::new();
    for c in it: s.chars()
        invariant
            it.seq() == s@,
            r@ == s@.take(it.index() as int),
    {
        r.push(c);
    }
    assert(s@.take(s@.len() as int) == s@);
    r
}

/// Whether two character lists hold the same text.
pub fn same_chars(a: &Vec<char>, b: &Vec<char>) -> (r: bool)
    ensures
        r == (a@ == b@),
{
    if a.len() != b.len() {
        return false;
    }
    let mut i: usize = 0;
    while i < a.len()
        invariant
            i <= a.len(),
            a.len() == b.len(),
            forall|j: int| 0 <= j < i ==> a@[j] == b@[j],
        decreases a.len() - i,
    {
        if a[i] != b[i] {
            return false;
        }
        i += 1;
    }
    assert(a@ =~= b@);
    true
}

/// Whether two strings hold the same text.
pub fn same_text(a: &str, b: &str) -> (r: bool)
    ensures
        r == (a@ == b@),
{
    same_chars(&chars_of(a), &chars_of(b))
}

/// `hay` has `needle` at position `at`.
pub open spec fn occurs_at(hay: Seq<char>, needle: Seq<char>, at: int) -> bool {
    &&& 0 <= at <= hay.len() - needle.len()
    &&& hay.subrange(at, at + needle.len()) == needle
}

/// `needle` occurs somewhere in `hay`.
pub open spec fn contains(hay: Seq<char>, needle: Seq<char>) -> bool {
    exists|at: int| occurs_at(hay, needle, at)
}

/// Whether `hay` has `needle` at position `at`.
fn occurs_here(hay: &Vec<char>, needle: &Vec<char>, at: usize) -> (r: bool)
    requires
        at + needle.len() <= hay.len(),
    ensures
        r == occurs_at(hay@, needle@, at as int),
{
    let mut i: usize = 0;
    while i < needle.len()
        invariant
            i <= needle.len(),
            at + needle.len() <= hay.len(),
            forall|j: int| 0 <= j < i ==> hay@[at + j] == needle@[j],
        decreases needle.len() - i,
    {
        if hay[at + i] != needle[i] {
            proof {
                assert(hay@.subrange(at as int, at + needle@.len())[i as int] != needle@[i as int]);
            }
            return false;
        }
        i += 1;
    }
    assert(hay@.subrange(at as int, at + needle@.len()) =~= needle@);
    true
}

/// Whether `needle` occurs somewhere in `hay`.
pub fn has_text(hay: &str, needle: &str) -> (r: bool)
    ensures
        r == contains(hay@, needle@),
{
    let hay_chars = chars_of(hay);
    let needle_chars = chars_of(needle);
    if needle_chars.len() > hay_chars.len() {
        return false;
    }
    let last: usize = hay_chars.len() - needle_chars.len();
    let mut at: usize = 0;
    while at < last
        invariant
            hay_chars@ == hay@,
            needle_chars@ == needle@,
            last == hay_chars.len() - needle_chars.len(),
            at <= last,
            forall|j: int| 0 <= j < at ==> !occurs_at(hay@, needle@, j),
        decreases last - at,
    {
        if occurs_here(&hay_chars, &needle_chars, at) {
            return true;
        }
        at += 1;
    }
    occurs_here(&hay_chars, &needle_chars, last)
}

/// `a` comes before `b` in dictionary order: they agree up to a place where `a` has ended, or where
/// `a` has the smaller character.
pub open spec fn before(a: Seq<char>, b: Seq<char>) -> bool {
    exists|k: int| #[trigger] parts_at(a, b, k)
}

/// `a` and `b` first part at place `k`, and there `a` is the smaller one.
pub open spec fn parts_at(a: Seq<char>, b: Seq<char>, k: int) -> bool {
    &&& 0 <= k <= a.len()
    &&& k < b.len()
    &&& forall|j: int| 0 <= j < k ==> a[j] == b[j]
    &&& k == a.len() || a[k] < b[k]
}

/// Whether `a` comes before `b` in dictionary order.
pub fn is_before(a: &str, b: &str) -> (r: bool)
    ensures
        r == before(a@, b@),
{
    let a_chars = chars_of(a);
    let b_chars = chars_of(b);
    let mut k: usize = 0;
    while k < a_chars.len() && k < b_chars.len() && a_chars[k] == b_chars[k]
        invariant
            a_chars@ == a@,
            b_chars@ == b@,
            k <= a_chars.len(),
            k <= b_chars.len(),
            forall|j: int| 0 <= j < k ==> a@[j] == b@[j],
        decreases a_chars.len() - k,
    {
        k += 1;
    }
    let less: bool = if k == b_chars.len() {
        false
    } else if k == a_chars.len() {
        true
    } else {
        let x: char = a_chars[k];
        let y: char = b_chars[k];
        x < y
    };
    proof {
        if less {
            assert(parts_at(a@, b@, k as int));
        } else {
            assert forall|m: int| !parts_at(a@, b@, m) by {
                if parts_at(a@, b@, m) {
                    if m < k {
                        assert(a@[m] == b@[m]);
                    } else if m > k {
                        assert(a@[k as int] == b@[k as int]);
                    }
                }
            }
        }
    }
    less
}

/// No text comes before itself.
pub proof fn before_is_irreflexive(a: Seq<char>)
    ensures
        !before(a, a),
{
}

/// Of two texts at most one comes before the other.
pub proof fn before_is_asymmetric(a: Seq<char>, b: Seq<char>)
    requires
        before(a, b),
    ensures
        !before(b, a),
{
    let k = choose|k: int| #[trigger] parts_at(a, b, k);
    assert forall|m: int| !parts_at(b, a, m) by {
        if parts_at(b, a, m) {
            if m < k {
                assert(a[m] == b[m]);
            } else if m > k {
                assert(a[k] == b[k]);
            }
        }
    }
}

/// Dictionary order is transitive.
pub proof fn before_is_transitive(a: Seq<char>, b: Seq<char>, c: Seq<char>)
    requires
        before(a, b),
        before(b, c),
    ensures
        before(a, c),
{
    let k = choose|k: int| #[trigger] parts_at(a, b, k);
    let m = choose|m: int| #[trigger] parts_at(b, c, m);
    let n = if k < m {
        k
    } else {
        m
    };
    assert(parts_at(a, c, n)) by {
        assert forall|j: int| 0 <= j < n implies a[j] == c[j] by {
            assert(a[j] == b[j]);
            assert(b[j] == c[j]);
        }
        if k < m {
            assert(b[k] == c[k]);
        } else if m < k {
            assert(a[m] == b[m]);
        }
    }
}

/// Two different texts stand in order one way or the other.
pub proof fn before_is_total(a: Seq<char>, b: Seq<char>)
    requires
        a != b,
    ensures
        before(a, b) || before(b, a),
    decreases a.len(),
{
    if a.len() == 0 {
        assert(b.len() > 0) by {
            if b.len() == 0 {
                assert(a =~= b);
            }
        }
        assert(parts_at(a, b, 0));
    } else if b.len() == 0 {
        assert(parts_at(b, a, 0));
    } else if a[0] != b[0] {
        assert(parts_at(a, b, 0) || parts_at(b, a, 0));
    } else {
        let a_tail = a.drop_first();
        let b_tail = b.drop_first();
        if a_tail == b_tail {
            assert forall|i: int| 0 <= i < a.len() && i < b.len() implies a[i] == b[i] by {
                if i > 0 {
                    assert(a_tail[i - 1] == b_tail[i - 1]);
                }
            }
            assert(a_tail.len() == b_tail.len());
            assert(a =~= b);
        }
        before_is_total(a_tail, b_tail);
        if before(a_tail, b_tail) {
            let k = choose|k: int| #[trigger] parts_at(a_tail, b_tail, k);
            before_after_same_head(a, b, k);
        } else {
            let k = choose|k: int| #[trigger] parts_at(b_tail, a_tail, k);
            before_after_same_head(b, a, k);
        }
    }
}

proof fn before_after_same_head(a: Seq<char>, b: Seq<char>, k: int)
    requires
        a.len() > 0,
        b.len() > 0,
        a[0] == b[0],
        parts_at(a.drop_first(), b.drop_first(), k),
    ensures
        before(a, b),
{
    assert forall|j: int| 0 <= j < k + 1 implies a[j] == b[j] by {
        if j > 0 {
            assert(a.drop_first()[j - 1] == b.drop_first()[j - 1]);
        }
    }
    assert(parts_at(a, b, k + 1));
}

/// A text with something before it and something after it contains that text.
pub proof fn parts_are_contained(front: Seq<char>, part: Seq<char>, back: Seq<char>)
    ensures
        contains(front + part + back, part),
{
    let all = front + part + back;
    assert(all.subrange(front.len() as int, (front.len() + part.len()) as int) =~= part);
    assert(occurs_at(all, part, front.len() as int));
}

/// A text that contains another is that other one with something before it and something after it.
pub proof fn contained_parts_fit(all: Seq<char>, part: Seq<char>) -> (r: (Seq<char>, Seq<char>))
    requires
        contains(all, part),
    ensures
        all == r.0 + part + r.1,
{
    let at = choose|at: int| occurs_at(all, part, at);
    let front = all.subrange(0, at);
    let back = all.subrange(at + part.len(), all.len() as int);
    assert forall|i: int| at <= i < at + part.len() implies all[i] == part[i - at] by {
        assert(all.subrange(at, at + part.len())[i - at] == all[i]);
    }
    assert(all =~= front + part + back);
    (front, back)
}

/// Of two texts that part after the same beginning, the one with the smaller character comes
/// first.
pub proof fn first_difference_decides(
    start: Seq<char>,
    x: char,
    y: char,
    rest_x: Seq<char>,
    rest_y: Seq<char>,
)
    requires
        (x as int) < (y as int),
    ensures
        before(start.push(x) + rest_x, start.push(y) + rest_y),
        !before(start.push(y) + rest_y, start.push(x) + rest_x),
{
    let a = start.push(x) + rest_x;
    let b = start.push(y) + rest_y;
    let k = start.len() as int;
    assert forall|j: int| 0 <= j < k implies a[j] == b[j] by {}
    assert(a[k] == x && b[k] == y);
    assert(parts_at(a, b, k));
    before_is_asymmetric(a, b);
}

/// A text comes before every longer one that begins with it.
pub proof fn shorter_comes_first(a: Seq<char>, more: Seq<char>)
    requires
        more.len() > 0,
    ensures
        before(a, a + more),
        !before(a + more, a),
{
    assert(parts_at(a, a + more, a.len() as int));
    before_is_asymmetric(a, a + more);
}

} // verus!
