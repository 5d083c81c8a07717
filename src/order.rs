//! The natural order of strings and of optional strings: lexicographic by
//! character, with an absent value before any present one.
use vstd::prelude::*;

verus! {

/// `a` sorts before `b` when both agree on the characters before `i`.
pub open spec fn text_lt_from(a: Seq<char>, b: Seq<char>, i: int) -> bool
    decreases a.len() - i,
{
    if i >= a.len() {
        i < b.len()
    } else if i >= b.len() {
        false
    } else if a[i] != b[i] {
        a[i] < b[i]
    } else {
        text_lt_from(a, b, i + 1)
    }
}

/// Lexicographic order on character sequences.
pub open spec fn text_lt(a: Seq<char>, b: Seq<char>) -> bool {
    text_lt_from(a, b, 0)
}

/// Absent values first, then present values in text order.
pub open spec fn opt_text_lt(a: Option<Seq<char>>, b: Option<Seq<char>>) -> bool {
    match (a, b) {
        (None, Some(_)) => true,
        (Some(x), Some(y)) => text_lt(x, y),
        _ => false,
    }
}

/// No sequence sorts before itself.
pub proof fn lemma_text_lt_from_irreflexive(a: Seq<char>, i: int)
    requires
        0 <= i,
    ensures
        !text_lt_from(a, a, i),
    decreases a.len() - i,
{
    if i < a.len() {
        lemma_text_lt_from_irreflexive(a, i + 1);
    }
}

/// The text order is transitive.
pub proof fn lemma_text_lt_from_transitive(a: Seq<char>, b: Seq<char>, c: Seq<char>, i: int)
    requires
        0 <= i,
        text_lt_from(a, b, i),
        text_lt_from(b, c, i),
    ensures
        text_lt_from(a, c, i),
    decreases a.len() - i,
{
    if i < a.len() && i < b.len() && i < c.len() && a[i] == b[i] && b[i] == c[i] {
        lemma_text_lt_from_transitive(a, b, c, i + 1);
    }
}

/// Two sequences of which neither sorts before the other agree from `i` on.
pub proof fn lemma_text_lt_from_total(a: Seq<char>, b: Seq<char>, i: int)
    requires
        0 <= i <= a.len(),
        i <= b.len(),
        !text_lt_from(a, b, i),
        !text_lt_from(b, a, i),
    ensures
        a.len() == b.len(),
        forall|j: int| i <= j < a.len() ==> a[j] == b[j],
    decreases a.len() - i,
{
    if i < a.len() {
        assert(i < b.len());
        assert(a[i] == b[i]);
        lemma_text_lt_from_total(a, b, i + 1);
        assert forall|j: int| i <= j < a.len() implies a[j] == b[j] by {
            if j > i {
                assert(a[j] == b[j]);
            }
        }
    }
}

/// `opt_text_lt` is a strict total order.
pub proof fn lemma_opt_text_order(a: Option<Seq<char>>, b: Option<Seq<char>>, c: Option<Seq<char>>)
    ensures
        !opt_text_lt(a, a),
        opt_text_lt(a, b) && opt_text_lt(b, c) ==> opt_text_lt(a, c),
        !opt_text_lt(a, b) && !opt_text_lt(b, a) ==> a == b,
{
    if let Some(x) = a {
        lemma_text_lt_from_irreflexive(x, 0);
        if let Some(y) = b {
            if !text_lt(x, y) && !text_lt(y, x) {
                lemma_text_lt_from_total(x, y, 0);
                assert(x =~= y);
            }
            if let Some(z) = c {
                if text_lt(x, y) && text_lt(y, z) {
                    lemma_text_lt_from_transitive(x, y, z, 0);
                }
            }
        }
    }
}

/// Compares two strings: negative, zero or positive as `a` sorts before, equal
/// to, or after `b`.
pub fn compare_text(a: &str, b: &str) -> (r: i8)
    ensures
        r < 0 <==> text_lt(a@, b@),
        r == 0 <==> a@ == b@,
        r > 0 <==> text_lt(b@, a@),
{
    let n = a.unicode_len();
    let m = b.unicode_len();
    let mut i: usize = 0;
    while i < n && i < m
        invariant
            n == a@.len(),
            m == b@.len(),
            i <= n,
            i <= m,
            forall|j: int| 0 <= j < i ==> a@[j] == b@[j],
            text_lt(a@, b@) == text_lt_from(a@, b@, i as int),
            text_lt(b@, a@) == text_lt_from(b@, a@, i as int),
        decreases n - i,
    {
        let x = a.get_char(i);
        let y = b.get_char(i);
        if x != y {
            proof {
                if a@ == b@ {
                    assert(a@[i as int] == b@[i as int]);
                }
            }
            if x < y {
                return -1;
            } else {
                return 1;
            }
        }
        i += 1;
    }
    proof {
        if n == m {
            assert(a@ =~= b@);
        }
    }
    if n < m {
        -1
    } else if n > m {
        1
    } else {
        0
    }
}

/// Compares two optional strings in the order of `opt_text_lt`.
pub fn compare_opt_text(a: &Option<String>, b: &Option<String>) -> (r: i8)
    ensures
        r < 0 <==> opt_text_lt(opt_view(*a), opt_view(*b)),
        r == 0 <==> opt_view(*a) == opt_view(*b),
        r > 0 <==> opt_text_lt(opt_view(*b), opt_view(*a)),
{
    match (a, b) {
        (None, None) => 0,
        (None, Some(_)) => -1,
        (Some(_), None) => 1,
        (Some(x), Some(y)) => compare_text(x.as_str(), y.as_str()),
    }
}

/// The characters of an optional string.
pub open spec fn opt_view(o: Option<String>) -> Option<Seq<char>> {
    match o {
        Some(s) => Some(s@),
        None => None,
    }
}

/// A copy of an optional string.
pub fn copy_opt_text(o: &Option<String>) -> (r: Option<String>)
    ensures
        opt_view(r) == opt_view(*o),
{
    match o {
        Some(s) => Some(s.clone()),
        None => None,
    }
}

} // verus!
