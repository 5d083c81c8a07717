//! What each window contributes to its workspace's label: its identity and
//! title, the pair under which its icon is looked up.
use vstd::prelude::*;
use crate::order::{compare_opt_text, copy_opt_text, lemma_opt_text_order, opt_text_lt, opt_view};
use crate::tree::{targets, windows, windows_of, TreeNode};

verus! {

/// The identity and title of a window, as character sequences.
pub type QueryKey = (Option<Seq<char>>, Option<Seq<char>>);

/// The pair under which a window's icon is looked up.
#[derive(Debug)]
pub struct IconQuery {
    /// The application identity, if the window reports one.
    pub identity: Option<String>,
    /// The window title.
    pub title: Option<String>,
}

impl View for IconQuery {
    type V = QueryKey;

    open spec fn view(&self) -> QueryKey {
        (opt_view(self.identity), opt_view(self.title))
    }
}

/// A window's identity: its window class where it has one, else its
/// application identity, else none.
pub open spec fn identity_of(n: TreeNode) -> Option<Seq<char>> {
    if n.window_class is Some {
        opt_view(n.window_class)
    } else {
        opt_view(n.app_id)
    }
}

/// The lookup pair of a window: its identity and its title.
pub open spec fn query_of(n: TreeNode) -> QueryKey {
    (identity_of(n), opt_view(n.name))
}

/// The natural order of pairs: by identity, then by title.
pub open spec fn query_lt(a: QueryKey, b: QueryKey) -> bool {
    opt_text_lt(a.0, b.0) || (a.0 == b.0 && opt_text_lt(a.1, b.1))
}

/// Each pair sorts strictly before every later one: sorted, without repeats.
pub open spec fn strictly_sorted(s: Seq<QueryKey>) -> bool {
    forall|i: int, j: int| 0 <= i < j < s.len() ==> query_lt(#[trigger] s[i], #[trigger] s[j])
}

/// The pairs that a sequence of queries holds.
pub open spec fn query_views(s: Seq<IconQuery>) -> Seq<QueryKey> {
    s.map_values(|q: IconQuery| q@)
}

/// The lookup pairs of a workspace's windows: one per window in traversal
/// order, or, when deduplicating, each distinct pair once in natural order.
pub open spec fn queries_hold(ws: TreeNode, deduplicate: bool, r: Seq<QueryKey>) -> bool {
    let all = windows_of(ws).map_values(|w: TreeNode| query_of(w));
    if deduplicate {
        strictly_sorted(r) && r.to_set() == all.to_set()
    } else {
        r == all
    }
}

/// `query_lt` is a strict total order.
pub proof fn lemma_query_order(a: QueryKey, b: QueryKey, c: QueryKey)
    ensures
        !query_lt(a, a),
        query_lt(a, b) && query_lt(b, c) ==> query_lt(a, c),
        !query_lt(a, b) && !query_lt(b, a) ==> a == b,
{
    lemma_opt_text_order(a.0, b.0, c.0);
    lemma_opt_text_order(a.1, b.1, c.1);
    lemma_opt_text_order(b.0, a.0, c.0);
    lemma_opt_text_order(b.1, a.1, c.1);
}

/// Two strictly sorted sequences that hold the same pairs are equal.
pub proof fn lemma_strictly_sorted_unique(a: Seq<QueryKey>, b: Seq<QueryKey>)
    requires
        strictly_sorted(a),
        strictly_sorted(b),
        a.to_set() == b.to_set(),
    ensures
        a == b,
    decreases a.len(),
{
    if a.len() == 0 {
        if b.len() > 0 {
            assert(b.to_set().contains(b[0]));
        }
        assert(a =~= b);
    } else {
        assert(a.to_set().contains(a[0]));
        assert(b.len() > 0);
        assert(b.to_set().contains(b[0]));
        let j = choose|j: int| 0 <= j < a.len() && a[j] == b[0];
        let k = choose|k: int| 0 <= k < b.len() && b[k] == a[0];
        if j > 0 && k > 0 {
            lemma_query_order(a[0], b[0], a[0]);
            assert(query_lt(a[0], a[j]));
            assert(query_lt(b[0], b[k]));
        } else if j > 0 {
            lemma_query_order(a[0], a[0], a[0]);
            assert(query_lt(a[0], a[j]));
        } else if k > 0 {
            lemma_query_order(b[0], b[0], b[0]);
            assert(query_lt(b[0], b[k]));
        }
        assert(a[0] == b[0]);
        let ra = a.drop_first();
        let rb = b.drop_first();
        assert forall|x: QueryKey| ra.to_set().contains(x) implies rb.to_set().contains(x) by {
            let m = choose|m: int| 0 <= m < ra.len() && ra[m] == x;
            assert(a[m + 1] == x);
            assert(a.to_set().contains(x));
            let n = choose|n: int| 0 <= n < b.len() && b[n] == x;
            assert(query_lt(a[0], a[m + 1]));
            lemma_query_order(x, x, x);
            assert(n != 0);
            assert(rb[n - 1] == x);
        }
        assert forall|x: QueryKey| rb.to_set().contains(x) implies ra.to_set().contains(x) by {
            let m = choose|m: int| 0 <= m < rb.len() && rb[m] == x;
            assert(b[m + 1] == x);
            assert(b.to_set().contains(x));
            let n = choose|n: int| 0 <= n < a.len() && a[n] == x;
            assert(query_lt(b[0], b[m + 1]));
            lemma_query_order(x, x, x);
            assert(n != 0);
            assert(ra[n - 1] == x);
        }
        assert(ra.to_set() =~= rb.to_set());
        lemma_strictly_sorted_unique(ra, rb);
        assert forall|i: int| 0 <= i < a.len() implies a[i] == b[i] by {
            if i > 0 {
                assert(a[i] == ra[i - 1]);
                assert(b[i] == rb[i - 1]);
            }
        }
        assert(a =~= b);
    }
}

/// The lookup pairs of a workspace are determined by its windows: two
/// syntheses over the same windows yield the same pairs, deduplicated or not.
pub proof fn lemma_queries_determined(
    workspace: TreeNode,
    deduplicate: bool,
    r1: Seq<QueryKey>,
    r2: Seq<QueryKey>,
)
    requires
        queries_hold(workspace, deduplicate, r1),
        queries_hold(workspace, deduplicate, r2),
    ensures
        r1 == r2,
{
    if deduplicate {
        lemma_strictly_sorted_unique(r1, r2);
    }
}

/// The name under which a query's icon is looked up: its identity, or the
/// empty name, which makes the lookup fall back on the title.
pub open spec fn lookup_name_of(q: QueryKey) -> Seq<char> {
    match q.0 {
        Some(s) => s,
        None => Seq::empty(),
    }
}

impl IconQuery {
    /// The name under which this query's icon is looked up.
    pub fn lookup_name(&self) -> (r: String)
        ensures
            r@ == lookup_name_of(self@),
    {
        match &self.identity {
            Some(s) => s.clone(),
            None => String::new(),
        }
    }
}

/// The lookup pair of one window.
pub fn query_for(window: &TreeNode) -> (r: IconQuery)
    ensures
        r@ == query_of(*window),
{
    let identity = match &window.window_class {
        Some(_) => copy_opt_text(&window.window_class),
        None => copy_opt_text(&window.app_id),
    };
    IconQuery { identity, title: copy_opt_text(&window.name) }
}

/// Compares two queries: negative, zero or positive as `a` sorts before, equal
/// to, or after `b`.
fn compare_query(a: &IconQuery, b: &IconQuery) -> (r: i8)
    ensures
        r < 0 <==> query_lt(a@, b@),
        r == 0 <==> a@ == b@,
        r > 0 <==> query_lt(b@, a@),
{
    proof {
        lemma_query_order(a@, b@, a@);
    }
    let c = compare_opt_text(&a.identity, &b.identity);
    if c != 0 {
        c
    } else {
        compare_opt_text(&a.title, &b.title)
    }
}

/// A copy of a query.
fn copy_query(q: &IconQuery) -> (r: IconQuery)
    ensures
        r@ == q@,
{
    IconQuery { identity: copy_opt_text(&q.identity), title: copy_opt_text(&q.title) }
}

/// Each distinct pair of `queries` once, in natural order.
pub fn dedup_queries(queries: &Vec<IconQuery>) -> (r: Vec<IconQuery>)
    ensures
        strictly_sorted(query_views(r@)),
        query_views(r@).to_set() == query_views(queries@).to_set(),
{
    let mut out: Vec<IconQuery> = Vec::new();
    let mut i: usize = 0;
    while i < queries.len()
        invariant
            i <= queries@.len(),
            strictly_sorted(query_views(out@)),
            forall|x: QueryKey|
                query_views(out@).contains(x) <==> query_views(queries@.take(i as int)).contains(
                    x,
                ),
        decreases queries@.len() - i,
    {
        let q = copy_query(&queries[i]);
        let ghost k = q@;
        let ghost before = query_views(out@);
        let mut p: usize = 0;
        let mut seen = false;
        let mut done = false;
        while p < out.len() && !done
            invariant
                p <= out@.len(),
                q@ == k,
                out@.len() == before.len(),
                query_views(out@) == before,
                strictly_sorted(before),
                forall|j: int| 0 <= j < p ==> query_lt(#[trigger] before[j], k),
                done ==> p < before.len() && (seen ==> before[p as int] == k) && (!seen
                    ==> query_lt(k, before[p as int])),
                !done ==> !seen,
            decreases out@.len() - p + (if done { 0int } else { 1int }),
        {
            let c = compare_query(&out[p], &q);
            proof {
                assert(query_views(out@)[p as int] == out@[p as int]@);
                assert(before[p as int] == out@[p as int]@);
            }
            if c == 0 {
                seen = true;
                done = true;
            } else if c > 0 {
                done = true;
            } else {
                p += 1;
            }
        }
        let ghost prefix = query_views(queries@.take(i as int + 1));
        let ghost earlier = query_views(queries@.take(i as int));
        proof {
            assert(queries@[i as int]@ == k);
            assert(prefix =~= earlier.push(k));
            assert forall|x: QueryKey| prefix.contains(x) <==> (before.contains(x) || x == k) by {
                if prefix.contains(x) {
                    let j = choose|j: int| 0 <= j < prefix.len() && prefix[j] == x;
                    if j < earlier.len() {
                        assert(earlier[j] == x);
                        assert(earlier.contains(x));
                    }
                }
                if earlier.contains(x) {
                    let j = choose|j: int| 0 <= j < earlier.len() && earlier[j] == x;
                    assert(prefix[j] == x);
                }
                if x == k {
                    assert(prefix[earlier.len() as int] == x);
                }
            }
        }
        if !seen {
            out.insert(p, q);
            proof {
                let after = query_views(out@);
                assert(after =~= before.insert(p as int, k));
                assert forall|a: int, b: int| 0 <= a < b < after.len() implies query_lt(
                    #[trigger] after[a],
                    #[trigger] after[b],
                ) by {
                    if b == p {
                    } else if a == p {
                        lemma_query_order(k, before[p as int], before[b - 1]);
                        if b - 1 > p {
                            assert(query_lt(before[p as int], before[b - 1]));
                        }
                    } else if a < p && b > p {
                        assert(query_lt(before[a], k));
                    } else if a > p {
                        assert(after[a] == before[a - 1]);
                        assert(after[b] == before[b - 1]);
                    }
                }
                assert forall|x: QueryKey| after.contains(x) <==> (before.contains(x) || x == k) by {
                    if after.contains(x) {
                        let j = choose|j: int| 0 <= j < after.len() && after[j] == x;
                        if j < p {
                            assert(before[j] == x);
                        } else if j > p {
                            assert(before[j - 1] == x);
                        }
                    }
                    if before.contains(x) {
                        let j = choose|j: int| 0 <= j < before.len() && before[j] == x;
                        if j < p {
                            assert(after[j] == x);
                        } else {
                            assert(after[j + 1] == x);
                        }
                    }
                    assert(after[p as int] == k);
                }
            }
        } else {
            proof {
                assert(before[p as int] == k);
                assert(before.contains(k));
            }
        }
        i += 1;
    }
    proof {
        assert(queries@.take(i as int) =~= queries@);
        assert(query_views(out@).to_set() =~= query_views(queries@).to_set());
    }
    out
}

/// The lookup pairs of a workspace's windows: one per window in traversal
/// order, or, when `deduplicate` is set, each distinct pair once in natural
/// order.
pub fn window_queries(workspace: &TreeNode, deduplicate: bool) -> (r: Vec<IconQuery>)
    ensures
        queries_hold(*workspace, deduplicate, query_views(r@)),
{
    let found = windows(workspace);
    let ghost ws = windows_of(*workspace);
    let mut all: Vec<IconQuery> = Vec::new();
    let mut i: usize = 0;
    while i < found.len()
        invariant
            i <= found@.len(),
            all@.len() == i,
            found@.len() == ws.len(),
            targets(found@) == ws,
            query_views(all@) == ws.take(i as int).map_values(|w: TreeNode| query_of(w)),
        decreases found@.len() - i,
    {
        let q = query_for(found[i]);
        all.push(q);
        i += 1;
        proof {
            assert(targets(found@)[i - 1] == *found@[i - 1]);
            assert(ws.take(i as int)[i - 1] == ws[i - 1]);
            assert(query_views(all@)[i - 1] == all@[i - 1]@);
            let prev = ws.take(i - 1).map_values(|w: TreeNode| query_of(w));
            assert forall|j: int| 0 <= j < i implies query_views(all@)[j] == query_of(
                ws.take(i as int)[j],
            ) by {
                if j < i - 1 {
                    assert(query_views(all@)[j] == all@[j]@);
                    assert(prev[j] == query_of(ws.take(i - 1)[j]));
                    assert(ws.take(i - 1)[j] == ws.take(i as int)[j]);
                }
            }
            assert(query_views(all@) =~= ws.take(i as int).map_values(|w: TreeNode| query_of(w)));
        }
    }
    proof {
        assert(ws.take(i as int) =~= ws);
    }
    if deduplicate {
        dedup_queries(&all)
    } else {
        all
    }
}

} // verus!
