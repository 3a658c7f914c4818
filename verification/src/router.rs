//! The routing table: built once per configuration generation from a full
//! snapshot of route documents, then published atomically and never mutated.
//!
//! Matching tries an exact pattern hit first, then falls back to a scan over
//! prefix (`.../`) and wildcard (`.../*`) patterns, selecting the longest
//! matching pattern.

use vstd::prelude::*;
use crate::route::{Route, RouteView};
use crate::strutil::{spec_starts_with, str_eq, str_starts_with};

verus! {

/// Does `pattern` match `path`?
///
/// - a pattern ending in `/*` matches every path that strictly extends the
///   pattern minus the `/*` and continues at a `/` boundary; the boundary
///   sits before the slash, so the bare prefix itself is not matched;
/// - a pattern ending in `/` matches every path that begins with it, and the
///   path equal to it minus the trailing slash;
/// - any other pattern matches only the identical path.
pub open spec fn spec_pattern_matches(pattern: Seq<char>, path: Seq<char>) -> bool {
    if pattern.len() >= 2 && pattern[pattern.len() - 2] == '/' && pattern[pattern.len() - 1]
        == '*' {
        let pfx = pattern.subrange(0, pattern.len() - 2);
        spec_starts_with(path, pfx) && path.len() > pfx.len() && path[pfx.len() as int] == '/'
    } else if pattern.len() >= 1 && pattern[pattern.len() - 1] == '/' {
        spec_starts_with(path, pattern) || path == pattern.subrange(0, pattern.len() - 1)
    } else {
        path == pattern
    }
}

/// Whether `pattern` matches `path`.
pub fn path_matches(path: &str, pattern: &str) -> (b: bool)
    ensures
        b == spec_pattern_matches(pattern@, path@),
{
    let plen = pattern.unicode_len();
    if plen >= 2 && pattern.get_char(plen - 2) == '/' && pattern.get_char(plen - 1) == '*' {
        let pfx = pattern.substring_char(0, plen - 2);
        if !str_starts_with(path, pfx) {
            return false;
        }
        let n = path.unicode_len();
        if n == plen - 2 {
            false
        } else {
            path.get_char(plen - 2) == '/'
        }
    } else if plen >= 1 && pattern.get_char(plen - 1) == '/' {
        if str_starts_with(path, pattern) {
            return true;
        }
        let trimmed = pattern.substring_char(0, plen - 1);
        str_eq(path, trimmed)
    } else {
        str_eq(path, pattern)
    }
}

/// The routing table. All entries are active and carry pairwise distinct
/// path patterns; the table is immutable once published.
#[derive(Debug)]
pub struct RouterTable {
    /// The routes of this generation, one per pattern.
    pub entries: Vec<Route>,
}

impl View for RouterTable {
    type V = Seq<RouteView>;

    open spec fn view(&self) -> Seq<RouteView> {
        self.entries@.map_values(|r: Route| r@)
    }
}

/// Table well-formedness: only active routes, pairwise distinct patterns.
pub open spec fn table_wf(t: Seq<RouteView>) -> bool {
    &&& forall|i: int| 0 <= i < t.len() ==> #[trigger] t[i].active
    &&& forall|i: int, j: int| 0 <= i < j < t.len() ==> t[i].path != t[j].path
}

impl RouterTable {
    /// Number of routes in the table.
    pub fn len(&self) -> (n: usize)
        ensures
            n == self@.len(),
    {
        self.entries.len()
    }

    /// An empty table.
    pub fn empty() -> (t: RouterTable)
        ensures
            t@.len() == 0,
            table_wf(t@),
    {
        RouterTable { entries: Vec::new() }
    }
}

/// One step of table construction: drop any previous entry under the same
/// pattern.
pub open spec fn spec_remove_path(t: Seq<RouteView>, p: Seq<char>) -> Seq<RouteView>
    decreases t.len(),
{
    if t.len() == 0 {
        Seq::empty()
    } else {
        let rest = spec_remove_path(t.drop_last(), p);
        if t.last().path == p {
            rest
        } else {
            rest.push(t.last())
        }
    }
}

/// The table built from a snapshot of route documents: active routes only,
/// in snapshot order, later documents replacing earlier ones under the same
/// pattern.
pub open spec fn spec_build(routes: Seq<RouteView>) -> Seq<RouteView>
    decreases routes.len(),
{
    if routes.len() == 0 {
        Seq::empty()
    } else {
        let prev = spec_build(routes.drop_last());
        let r = routes.last();
        if r.active {
            spec_remove_path(prev, r.path).push(r)
        } else {
            prev
        }
    }
}

/// Every route kept by `spec_remove_path` is an element of the input with a
/// pattern other than `p`; activity and distinctness carry over.
proof fn lemma_remove_path_props(t: Seq<RouteView>, p: Seq<char>)
    ensures
        forall|i: int| 0 <= i < spec_remove_path(t, p).len()
            ==> #[trigger] spec_remove_path(t, p)[i].path != p,
        forall|i: int| 0 <= i < spec_remove_path(t, p).len()
            ==> t.contains(#[trigger] spec_remove_path(t, p)[i]),
        forall|i: int| 0 <= i < spec_remove_path(t, p).len()
            ==> exists|w: int| 0 <= w < t.len() && t[w] == spec_remove_path(t, p)[i]
                && #[trigger] spec_remove_path(t, p)[i].path == t[w].path,
    decreases t.len(),
{
    if t.len() > 0 {
        lemma_remove_path_props(t.drop_last(), p);
        assert(forall|i: int| 0 <= i < t.len() - 1 ==> #[trigger] t.drop_last()[i] == t[i]);
        let res = spec_remove_path(t, p);
        let rest = spec_remove_path(t.drop_last(), p);
        assert forall|i: int| 0 <= i < res.len() implies t.contains(#[trigger] res[i]) by {
            if i < rest.len() {
                assert(t.drop_last().contains(rest[i]));
                let w = choose|w: int| 0 <= w < t.drop_last().len() && t.drop_last()[w] == rest[i];
                assert(t[w] == res[i]);
            } else {
                assert(res[i] == t.last());
                assert(t[t.len() - 1] == t.last());
            }
        }
        assert forall|i: int| 0 <= i < res.len()
            implies exists|w: int| 0 <= w < t.len() && t[w] == res[i]
                && #[trigger] res[i].path == t[w].path by {
            assert(t.contains(res[i]));
            let w = choose|w: int| 0 <= w < t.len() && t[w] == res[i];
            assert(t[w] == res[i] && res[i].path == t[w].path);
        }
    }
}

/// A kept route preserves order-derived distinctness: if the input has
/// pairwise distinct patterns, so has the result.
proof fn lemma_remove_path_distinct(t: Seq<RouteView>, p: Seq<char>)
    requires
        forall|i: int, j: int| 0 <= i < j < t.len() ==> t[i].path != t[j].path,
    ensures
        forall|i: int, j: int| 0 <= i < j < spec_remove_path(t, p).len()
            ==> spec_remove_path(t, p)[i].path != spec_remove_path(t, p)[j].path,
    decreases t.len(),
{
    if t.len() > 0 {
        assert(forall|i: int| 0 <= i < t.len() - 1 ==> #[trigger] t.drop_last()[i] == t[i]);
        lemma_remove_path_distinct(t.drop_last(), p);
        lemma_remove_path_props(t.drop_last(), p);
        let res = spec_remove_path(t, p);
        let rest = spec_remove_path(t.drop_last(), p);
        if t.last().path != p {
            assert forall|i: int, j: int| 0 <= i < j < res.len()
                implies res[i].path != res[j].path by {
                if j == rest.len() {
                    // res[j] is t.last(); res[i] comes from t.drop_last(),
                    // whose patterns all differ from the last one's.
                    let w = choose|w: int| 0 <= w < t.drop_last().len()
                        && t.drop_last()[w] == rest[i] && rest[i].path == t.drop_last()[w].path;
                    assert(t[w].path != t[t.len() - 1].path);
                }
            }
        }
    }
}

/// Every entry of a built table is one of the snapshot's routes, and active.
pub proof fn lemma_build_entries_from_snapshot(routes: Seq<RouteView>)
    ensures
        forall|i: int| 0 <= i < spec_build(routes).len()
            ==> routes.contains(#[trigger] spec_build(routes)[i]),
        forall|i: int| 0 <= i < spec_build(routes).len()
            ==> #[trigger] spec_build(routes)[i].active,
    decreases routes.len(),
{
    if routes.len() > 0 {
        lemma_build_entries_from_snapshot(routes.drop_last());
        assert(forall|i: int| 0 <= i < routes.len() - 1
            ==> #[trigger] routes.drop_last()[i] == routes[i]);
        let prev = spec_build(routes.drop_last());
        let r = routes.last();
        let res = spec_build(routes);
        assert forall|i: int| 0 <= i < res.len()
            implies routes.contains(#[trigger] res[i]) && res[i].active by {
            if r.active {
                let removed = spec_remove_path(prev, r.path);
                lemma_remove_path_props(prev, r.path);
                if i < removed.len() {
                    assert(prev.contains(removed[i]));
                    let w = choose|w: int| 0 <= w < prev.len() && prev[w] == removed[i];
                    assert(routes.drop_last().contains(prev[w]));
                    let v = choose|v: int| 0 <= v < routes.drop_last().len()
                        && routes.drop_last()[v] == prev[w];
                    assert(routes[v] == res[i]);
                } else {
                    assert(res[i] == r);
                    assert(routes[routes.len() - 1] == r);
                }
            } else {
                assert(prev.contains(res[i]));
                let w = choose|w: int| 0 <= w < prev.len() && prev[w] == res[i];
                assert(routes.drop_last().contains(prev[w]));
                let v = choose|v: int| 0 <= v < routes.drop_last().len()
                    && routes.drop_last()[v] == prev[w];
                assert(routes[v] == res[i]);
            }
        }
    }
}

/// A built table is well-formed: active entries, distinct patterns.
pub proof fn lemma_build_wf(routes: Seq<RouteView>)
    ensures
        table_wf(spec_build(routes)),
    decreases routes.len(),
{
    lemma_build_entries_from_snapshot(routes);
    if routes.len() > 0 {
        lemma_build_wf(routes.drop_last());
        let prev = spec_build(routes.drop_last());
        let r = routes.last();
        if r.active {
            lemma_remove_path_props(prev, r.path);
            lemma_remove_path_distinct(prev, r.path);
            let removed = spec_remove_path(prev, r.path);
            assert forall|i: int, j: int| 0 <= i < j < spec_build(routes).len()
                implies spec_build(routes)[i].path != spec_build(routes)[j].path by {
                if j == removed.len() {
                    assert(spec_build(routes)[j] == r);
                    assert(removed[i].path != r.path);
                }
            }
        }
    }
}

/// Build the routing table from a snapshot of route documents. Only active
/// routes are kept; a later document replaces an earlier one under the same
/// pattern.
pub fn build_router_map(routes: Vec<Route>) -> (t: RouterTable)
    ensures
        t@ == spec_build(routes@.map_values(|r: Route| r@)),
        table_wf(t@),
{
    let ghost rv = routes@.map_values(|r: Route| r@);
    let mut entries: Vec<Route> = Vec::new();
    let mut k: usize = 0;
    while k < routes.len()
        invariant
            rv == routes@.map_values(|r: Route| r@),
            k <= routes@.len(),
            entries@.map_values(|r: Route| r@) == spec_build(rv.subrange(0, k as int)),
        decreases routes@.len() - k,
    {
        let ghost pre = rv.subrange(0, k as int);
        let ghost post = rv.subrange(0, k as int + 1);
        proof {
            assert(post.drop_last() =~= pre);
            assert(post.last() == rv[k as int]);
            assert(rv[k as int] == routes@[k as int]@);
        }
        let r = &routes[k];
        if r.active {
            // Drop any earlier entry under the same pattern.
            let ghost ev = entries@.map_values(|r: Route| r@);
            let mut kept: Vec<Route> = Vec::new();
            let mut i: usize = 0;
            while i < entries.len()
                invariant
                    ev == entries@.map_values(|e: Route| e@),
                    i <= entries@.len(),
                    kept@.map_values(|e: Route| e@)
                        == spec_remove_path(ev.subrange(0, i as int), r@.path),
                    r@ == rv[k as int],
                decreases entries@.len() - i,
            {
                let ghost epre = ev.subrange(0, i as int);
                let ghost epost = ev.subrange(0, i as int + 1);
                proof {
                    assert(epost.drop_last() =~= epre);
                    assert(epost.last() == ev[i as int]);
                    assert(ev[i as int] == entries@[i as int]@);
                }
                if !str_eq(entries[i].path.as_str(), r.path.as_str()) {
                    kept.push(entries[i].duplicate());
                    proof {
                        assert(kept@.map_values(|e: Route| e@)
                            =~= spec_remove_path(epre, r@.path).push(ev[i as int]));
                    }
                } else {
                }
                i += 1;
            }
            proof {
                assert(ev.subrange(0, ev.len() as int) =~= ev);
            }
            kept.push(r.duplicate());
            proof {
                assert(kept@.map_values(|e: Route| e@)
                    =~= spec_remove_path(ev, r@.path).push(r@));
            }
            entries = kept;
        }
        k += 1;
        proof {
            assert(entries@.map_values(|e: Route| e@) == spec_build(post));
        }
    }
    proof {
        assert(rv.subrange(0, rv.len() as int) =~= rv);
        lemma_build_wf(rv);
    }
    RouterTable { entries }
}

/// Index of the best fallback match in `t`: a route whose pattern matches
/// `path`, of maximal pattern length, the last such in table order; `-1`
/// when nothing matches.
pub open spec fn spec_best_idx(t: Seq<RouteView>, path: Seq<char>) -> int
    decreases t.len(),
{
    if t.len() == 0 {
        -1
    } else {
        let b = spec_best_idx(t.drop_last(), path);
        let i = t.len() - 1;
        if spec_pattern_matches(t[i].path, path)
            && (b == -1 || t[i].path.len() >= t[b].path.len()) {
            i as int
        } else {
            b
        }
    }
}

/// The best fallback index is a sound and complete summary of the scan: it
/// is `-1` exactly when no pattern matches, and otherwise points at a
/// longest matching pattern.
pub proof fn lemma_best_idx_props(t: Seq<RouteView>, path: Seq<char>)
    ensures
        spec_best_idx(t, path) == -1
            ==> forall|i: int| 0 <= i < t.len()
                ==> !spec_pattern_matches(#[trigger] t[i].path, path),
        spec_best_idx(t, path) != -1 ==> {
            let b = spec_best_idx(t, path);
            &&& 0 <= b < t.len()
            &&& spec_pattern_matches(t[b].path, path)
            &&& forall|i: int| 0 <= i < t.len()
                && spec_pattern_matches(#[trigger] t[i].path, path)
                ==> t[i].path.len() <= t[b].path.len()
        },
    decreases t.len(),
{
    if t.len() > 0 {
        let prev = t.drop_last();
        lemma_best_idx_props(prev, path);
        assert(forall|i: int| 0 <= i < t.len() - 1 ==> #[trigger] prev[i] == t[i]);
        let b0 = spec_best_idx(prev, path);
        let n = t.len() - 1;
        let b = spec_best_idx(t, path);
        if spec_pattern_matches(t[n].path, path)
            && (b0 == -1 || t[n].path.len() >= t[b0].path.len()) {
            assert(b == n);
            assert forall|i: int| 0 <= i < t.len()
                && spec_pattern_matches(#[trigger] t[i].path, path)
                implies t[i].path.len() <= t[b].path.len() by {
                if i < n {
                    assert(spec_pattern_matches(prev[i].path, path));
                    assert(b0 != -1);
                    assert(prev[i].path.len() <= prev[b0].path.len());
                }
            }
        } else {
            assert(b == b0);
            if b0 == -1 {
                assert forall|i: int| 0 <= i < t.len()
                    implies !spec_pattern_matches(#[trigger] t[i].path, path) by {
                    if i < n {
                        assert(!spec_pattern_matches(prev[i].path, path));
                    }
                }
            } else {
                assert forall|i: int| 0 <= i < t.len()
                    && spec_pattern_matches(#[trigger] t[i].path, path)
                    implies t[i].path.len() <= t[b].path.len() by {
                    if i < n {
                        assert(spec_pattern_matches(prev[i].path, path));
                        assert(prev[i].path.len() <= prev[b0].path.len());
                    }
                }
            }
        }
    }
}

/// The result of matching `path` against a table: the exact-pattern entry
/// when one exists, otherwise the best fallback entry, otherwise nothing.
pub open spec fn spec_match(t: Seq<RouteView>, path: Seq<char>) -> Option<RouteView> {
    if exists|i: int| 0 <= i < t.len() && #[trigger] t[i].path == path {
        Some(t[choose|i: int| 0 <= i < t.len() && #[trigger] t[i].path == path])
    } else if spec_best_idx(t, path) >= 0 {
        Some(t[spec_best_idx(t, path)])
    } else {
        None
    }
}

/// Match a request path against the routing table: exact pattern first, then
/// the longest matching prefix or wildcard pattern.
pub fn match_route<'a>(path: &str, table: &'a RouterTable) -> (r: Option<&'a Route>)
    requires
        table_wf(table@),
    ensures
        match r {
            Some(route) => spec_match(table@, path@) == Some(route@),
            None => spec_match(table@, path@) is None,
        },
{
    let n = table.entries.len();
    // Exact pattern lookup.
    let mut i: usize = 0;
    while i < n
        invariant
            table_wf(table@),
            n == table@.len(),
            n == table.entries@.len(),
            i <= n,
            forall|j: int| 0 <= j < i ==> #[trigger] table@[j].path != path@,
        decreases n - i,
    {
        proof {
            assert(table@[i as int] == table.entries@[i as int]@);
        }
        if str_eq(table.entries[i].path.as_str(), path) {
            proof {
                let w = choose|w: int| 0 <= w < table@.len() && #[trigger] table@[w].path == path@;
                if w < i as int {
                    assert(false);
                } else if w > i as int {
                    assert(table@[i as int].path != table@[w].path);
                    assert(false);
                }
            }
            return Some(&table.entries[i]);
        }
        i += 1;
    }
    // Fallback scan for the longest matching prefix or wildcard pattern.
    let mut best: usize = 0;
    let mut have_best = false;
    let mut j: usize = 0;
    while j < n
        invariant
            n == table@.len(),
            n == table.entries@.len(),
            j <= n,
            !have_best ==> spec_best_idx(table@.subrange(0, j as int), path@) == -1,
            have_best ==> best < j
                && spec_best_idx(table@.subrange(0, j as int), path@) == best as int,
        decreases n - j,
    {
        let ghost epre = table@.subrange(0, j as int);
        let ghost epost = table@.subrange(0, j as int + 1);
        proof {
            assert(epost.drop_last() =~= epre);
            assert(epost.last() == table@[j as int]);
            assert(forall|t: int| 0 <= t < epost.len() ==> epost[t] == table@[t]);
            assert(table@[j as int] == table.entries@[j as int]@);
        }
        if path_matches(path, table.entries[j].path.as_str()) {
            if !have_best {
                best = j;
                have_best = true;
            } else {
                proof {
                    assert(table@[best as int] == table.entries@[best as int]@);
                }
                let cur_len = table.entries[j].path.unicode_len();
                let best_len = table.entries[best].path.unicode_len();
                if cur_len >= best_len {
                    best = j;
                }
            }
        }
        j += 1;
    }
    proof {
        assert(table@.subrange(0, n as int) =~= table@);
    }
    if have_best {
        proof {
            assert(table@[best as int] == table.entries@[best as int]@);
        }
        Some(&table.entries[best])
    } else {
        None
    }
}

/// An active route present in a well-formed table is found by matching its
/// own pattern: the exact lookup hits it first.
pub proof fn lemma_inserted_route_is_matched(t: Seq<RouteView>, i: int)
    requires
        table_wf(t),
        0 <= i < t.len(),
    ensures
        spec_match(t, t[i].path) == Some(t[i]),
{
    let path = t[i].path;
    assert(exists|w: int| 0 <= w < t.len() && #[trigger] t[w].path == path);
    let w = choose|w: int| 0 <= w < t.len() && #[trigger] t[w].path == path;
    if w < i {
        assert(t[w].path != t[i].path);
        assert(false);
    } else if w > i {
        assert(t[i].path != t[w].path);
        assert(false);
    }
}

/// Matching is a function of the table contents and the path alone: two
/// tables with equal contents answer every path identically.
pub proof fn lemma_match_deterministic(t1: Seq<RouteView>, t2: Seq<RouteView>, path: Seq<char>)
    requires
        t1 == t2,
    ensures
        spec_match(t1, path) == spec_match(t2, path),
{
}

/// Table construction is a function of the snapshot alone: reloading from
/// an unchanged store yields an identical table.
pub proof fn lemma_reload_idempotent(s1: Seq<RouteView>, s2: Seq<RouteView>)
    requires
        s1 == s2,
    ensures
        spec_build(s1) == spec_build(s2),
{
}

/// An empty table matches no path at all.
pub proof fn lemma_empty_table_matches_nothing(t: Seq<RouteView>, path: Seq<char>)
    requires
        t.len() == 0,
    ensures
        spec_match(t, path) is None,
{
}

/// A wildcard pattern `P/*` matches every extension of `P` that continues
/// at a `/` boundary, and not `P` itself: the boundary sits before the
/// slash.
pub proof fn lemma_wildcard_matches(pfx: Seq<char>, rest: Seq<char>)
    ensures
        spec_pattern_matches(pfx + "/*"@, pfx + "/"@ + rest),
        !spec_pattern_matches(pfx + "/*"@, pfx),
{
    reveal_strlit("/*");
    reveal_strlit("/");
    let pattern = pfx + "/*"@;
    assert(pattern[pattern.len() - 2] == '/');
    assert(pattern[pattern.len() - 1] == '*');
    assert(pattern.subrange(0, pattern.len() - 2) =~= pfx);
    assert(pfx.subrange(0, pfx.len() as int) =~= pfx);
    let path = pfx + "/"@ + rest;
    assert(path.subrange(0, pfx.len() as int) =~= pfx);
    assert(path[pfx.len() as int] == '/');
}

/// A prefix pattern `P/` matches `P` itself and every path that begins with
/// `P/`; a path that neither begins with `P/` nor equals `P` is not matched.
pub proof fn lemma_prefix_matches(pfx: Seq<char>, rest: Seq<char>, other: Seq<char>)
    requires
        pfx.len() == 0 || pfx[pfx.len() - 1] != '/',
        !spec_starts_with(other, pfx + "/"@),
        other != pfx,
    ensures
        spec_pattern_matches(pfx + "/"@, pfx),
        spec_pattern_matches(pfx + "/"@, pfx + "/"@ + rest),
        !spec_pattern_matches(pfx + "/"@, other),
{
    reveal_strlit("/");
    reveal_strlit("*");
    let pattern = pfx + "/"@;
    assert(pattern[pattern.len() - 1] == '/');
    assert(pattern.subrange(0, pattern.len() - 1) =~= pfx);
    if pattern.len() >= 2 && pattern[pattern.len() - 2] == '/' && pattern[pattern.len() - 1]
        == '*' {
        assert(false);
    }
    let path = pfx + "/"@ + rest;
    assert(path.subrange(0, pattern.len() as int) =~= pattern);
}

/// Statistics about a routing table.
#[derive(Debug, Clone)]
pub struct RouterStats {
    /// Total number of routes in the table.
    pub total_routes: usize,
    /// Number of active routes (all table entries are active).
    pub active_routes: usize,
    /// Number of distinct upstream URLs.
    pub unique_upstreams: usize,
}

/// The set of distinct upstream URLs of a table.
pub open spec fn spec_upstreams(t: Seq<RouteView>) -> Set<Seq<char>> {
    t.map_values(|r: RouteView| r.upstream).to_set()
}

/// Compute statistics about a routing table.
pub fn router_stats(table: &RouterTable) -> (s: RouterStats)
    ensures
        s.total_routes == table@.len(),
        s.active_routes == table@.len(),
        s.unique_upstreams == spec_upstreams(table@).len(),
{
    let n = table.entries.len();
    let mut distinct: usize = 0;
    let ghost mut seen: Set<Seq<char>> = Set::empty();
    let ghost f = |r: RouteView| r.upstream;
    proof {
        assert(table@.subrange(0, 0).map_values(f).to_set() =~= seen);
    }
    let mut i: usize = 0;
    while i < n
        invariant
            n == table@.len(),
            n == table.entries@.len(),
            i <= n,
            f == (|r: RouteView| r.upstream),
            seen == table@.subrange(0, i as int).map_values(f).to_set(),
            seen.finite(),
            distinct == seen.len(),
            distinct <= i,
        decreases n - i,
    {
        // Is this upstream already present among the earlier entries?
        let mut dup = false;
        let mut j: usize = 0;
        while j < i
            invariant
                i < n,
                n == table@.len(),
                n == table.entries@.len(),
                j <= i,
                dup ==> exists|w: int| 0 <= w < i
                    && #[trigger] table@[w].upstream == table@[i as int].upstream,
                !dup ==> forall|w: int| 0 <= w < j
                    ==> #[trigger] table@[w].upstream != table@[i as int].upstream,
            decreases i - j,
        {
            proof {
                assert(table@[j as int] == table.entries@[j as int]@);
                assert(table@[i as int] == table.entries@[i as int]@);
            }
            if str_eq(table.entries[j].upstream.as_str(), table.entries[i].upstream.as_str()) {
                dup = true;
                proof {
                    assert(table@[j as int].upstream == table@[i as int].upstream);
                }
            }
            j += 1;
        }
        proof {
            let pre = table@.subrange(0, i as int);
            let post = table@.subrange(0, i as int + 1);
            assert(post.drop_last() =~= pre);
            assert(post.map_values(f).drop_last() =~= pre.map_values(f));
            assert(post.map_values(f).last() == table@[i as int].upstream);
            assert(post.map_values(f) =~= pre.map_values(f).push(table@[i as int].upstream));
            assert(post.map_values(f).to_set() =~= pre.map_values(f).to_set().insert(
                table@[i as int].upstream));
            if dup {
                let w = choose|w: int| 0 <= w < i
                    && #[trigger] table@[w].upstream == table@[i as int].upstream;
                assert(pre.map_values(f)[w] == table@[i as int].upstream);
                assert(pre.map_values(f).to_set().contains(table@[i as int].upstream));
            } else {
                if pre.map_values(f).to_set().contains(table@[i as int].upstream) {
                    let w = choose|w: int| 0 <= w < pre.map_values(f).len()
                        && pre.map_values(f)[w] == table@[i as int].upstream;
                    assert(table@[w].upstream == table@[i as int].upstream);
                    assert(false);
                }
            }
            vstd::set::axiom_set_insert_len(seen, table@[i as int].upstream);
            seen = seen.insert(table@[i as int].upstream);
        }
        if !dup {
            distinct += 1;
        }
        i += 1;
    }
    proof {
        assert(table@.subrange(0, n as int) =~= table@);
    }
    RouterStats { total_routes: n, active_routes: n, unique_upstreams: distinct }
}

} // verus!
