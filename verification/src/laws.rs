//! Properties that hold across the library's operations: what a
//! predicate-free search returns, how pagination windows the ordered rows,
//! that the distinct target list is determined by the store's contents, and
//! that in-flight correlation ids never collide.

use vstd::prelude::*;
use crate::types::{LogQueryParams, LogView, OrderBy};
use crate::query::{SearchPlanView, spec_plan};
use crate::store::{log_matches, matching, rec_lt, spec_search};
use crate::text::{lex_lt, upper_seq, lemma_lex_trichotomy};
use crate::rpc::CorrelationTable;

verus! {

/// A request that sets no filter, no search text and no time window plans no
/// predicate at all, and such a plan matches every record: a predicate-free
/// search means "all rows", never "no rows".
pub proof fn lemma_no_predicates_match_all(p: LogQueryParams, l: LogView)
    requires
        p.filter is None,
        p.search is None,
        p.time is None,
    ensures
        spec_plan(p).node_names is None,
        spec_plan(p).levels is None,
        spec_plan(p).targets is None,
        spec_plan(p).search is None,
        spec_plan(p).from_time is None,
        spec_plan(p).to_time is None,
        log_matches(l, spec_plan(p)),
{
}

/// A plan without predicates keeps every record, in order.
pub proof fn lemma_matching_all(s: Seq<LogView>, q: SearchPlanView)
    requires
        q.node_names is None,
        q.levels is None,
        q.targets is None,
        q.search is None,
        q.from_time is None,
        q.to_time is None,
    ensures
        matching(s, q) =~= s,
    decreases s.len(),
{
    reveal_with_fuel(Seq::filter, 2);
    if s.len() > 0 {
        lemma_matching_all(s.drop_last(), q);
        assert(log_matches(s.last(), q));
        assert(matching(s, q) =~= matching(s.drop_last(), q).push(s.last()));
    }
}

/// A search never returns more rows than the page size.
pub proof fn lemma_search_len_bounded(s: Seq<LogView>, q: SearchPlanView)
    requires
        q.page >= 1,
    ensures
        spec_search(s, q).len() <= q.limit,
{
}

/// Round-trip: when no predicate is set, the order is ascending, the page is
/// the first and the store's records fit it, a search returns the stored
/// records exactly — in particular every record just ingested, with its
/// fields as they were ingested.
pub proof fn lemma_round_trip(s: Seq<LogView>, q: SearchPlanView)
    requires
        q.node_names is None,
        q.levels is None,
        q.targets is None,
        q.search is None,
        q.from_time is None,
        q.to_time is None,
        q.order_by == OrderBy::ASC,
        q.page == 1,
        q.limit >= s.len(),
    ensures
        spec_search(s, q) =~= s,
{
    lemma_matching_all(s, q);
    assert(spec_search(s, q) =~= matching(s, q).subrange(0, s.len() as int));
}

/// Pagination: on the second page of ten the search returns exactly rows
/// 10 to 19 (counting from 0) of the ordered matching rows, clamped to how
/// many there are.
pub proof fn lemma_second_page(s: Seq<LogView>, q: SearchPlanView)
    requires
        q.page == 2,
        q.limit == 10,
        q.order_by == OrderBy::ASC,
    ensures
        spec_search(s, q) == matching(s, q).subrange(
            if matching(s, q).len() < 10 { matching(s, q).len() as int } else { 10 },
            if matching(s, q).len() < 20 { matching(s, q).len() as int } else { 20 },
        ),
{
}

/// Filtering keeps the stored order: the matching rows of a store sorted by
/// `(timestamp, id)` are sorted the same way, and every one of them is a
/// stored record.
pub proof fn lemma_matching_sorted(s: Seq<LogView>, q: SearchPlanView)
    requires
        forall|i: int, j: int| 0 <= i < j < s.len() ==> rec_lt(#[trigger] s[i], #[trigger] s[j]),
    ensures
        forall|i: int, j: int|
            0 <= i < j < matching(s, q).len() ==> rec_lt(
                #[trigger] matching(s, q)[i],
                #[trigger] matching(s, q)[j],
            ),
        forall|x: LogView| #[trigger] matching(s, q).contains(x) ==> s.contains(x),
    decreases s.len(),
{
    reveal_with_fuel(Seq::filter, 2);
    if s.len() > 0 {
        let d = s.drop_last();
        assert forall|i: int, j: int| 0 <= i < j < d.len() implies rec_lt(
            #[trigger] d[i],
            #[trigger] d[j],
        ) by {
            assert(d[i] == s[i] && d[j] == s[j]);
        }
        lemma_matching_sorted(d, q);
        let f = matching(d, q);
        assert forall|x: LogView| #[trigger] f.contains(x) implies (s.contains(x) && rec_lt(
            x,
            s.last(),
        )) by {
            assert(d.contains(x));
            let k = choose|k: int| 0 <= k < d.len() && d[k] == x;
            assert(s[k] == x);
            assert(s.contains(x));
            assert(rec_lt(s[k], s[s.len() - 1]));
        }
        if log_matches(s.last(), q) {
            assert(matching(s, q) == f.push(s.last()));
            assert forall|i: int, j: int|
                0 <= i < j < matching(s, q).len() implies rec_lt(
                #[trigger] matching(s, q)[i],
                #[trigger] matching(s, q)[j],
            ) by {
                if j == f.len() {
                    assert(f.contains(f[i]));
                } else {
                    assert(matching(s, q)[i] == f[i] && matching(s, q)[j] == f[j]);
                }
            }
            assert forall|x: LogView| #[trigger] matching(s, q).contains(x)
                implies s.contains(x) by {
                let k = choose|k: int| 0 <= k < matching(s, q).len() && matching(s, q)[k] == x;
                if k < f.len() {
                    assert(f[k] == x);
                    assert(f.contains(x));
                } else {
                    assert(x == s.last());
                    assert(s[s.len() - 1] == x);
                }
            }
        } else {
            assert(matching(s, q) == f);
        }
    }
}

/// An ascending search returns its page ordered by `(timestamp, id)`.
pub proof fn lemma_search_ascending_sorted(s: Seq<LogView>, q: SearchPlanView)
    requires
        forall|i: int, j: int| 0 <= i < j < s.len() ==> rec_lt(#[trigger] s[i], #[trigger] s[j]),
        q.order_by == OrderBy::ASC,
        q.page >= 1,
    ensures
        forall|i: int, j: int|
            0 <= i < j < spec_search(s, q).len() ==> rec_lt(
                #[trigger] spec_search(s, q)[i],
                #[trigger] spec_search(s, q)[j],
            ),
{
    lemma_matching_sorted(s, q);
    let f = matching(s, q);
    assert forall|i: int, j: int|
        0 <= i < j < spec_search(s, q).len() implies rec_lt(
        #[trigger] spec_search(s, q)[i],
        #[trigger] spec_search(s, q)[j],
    ) by {
        let start = if (q.page - 1) * q.limit <= f.len() {
            (q.page - 1) * q.limit
        } else {
            f.len() as int
        };
        assert(spec_search(s, q)[i] == f[start + i]);
        assert(spec_search(s, q)[j] == f[start + j]);
    }
}

/// Two strictly ordered lists holding the same texts are the same list:
/// what `get_targets` returns is determined by the store's contents alone,
/// so reading it twice with no intervening writes reads the same list.
pub proof fn lemma_sorted_distinct_unique(a: Seq<Seq<char>>, b: Seq<Seq<char>>)
    requires
        forall|i: int, j: int| 0 <= i < j < a.len() ==> lex_lt(#[trigger] a[i], #[trigger] a[j]),
        forall|i: int, j: int| 0 <= i < j < b.len() ==> lex_lt(#[trigger] b[i], #[trigger] b[j]),
        forall|t: Seq<char>| #[trigger] a.contains(t) <==> b.contains(t),
    ensures
        a =~= b,
    decreases a.len(),
{
    if a.len() == 0 {
        if b.len() > 0 {
            assert(b.contains(b[0]));
            assert(!a.contains(b[0]));
            assert(false);
        }
    } else if b.len() == 0 {
        assert(a.contains(a[0]));
        assert(!b.contains(a[0]));
        assert(false);
    } else {
        // the heads agree: each head occurs in the other list, and anything
        // after the other head sits strictly above it
        assert(a.contains(a[0]));
        assert(b.contains(b[0]));
        assert(b.contains(a[0]));
        assert(a.contains(b[0]));
        let i = choose|i: int| 0 <= i < b.len() && b[i] == a[0];
        let j = choose|j: int| 0 <= j < a.len() && a[j] == b[0];
        if i > 0 && j > 0 {
            assert(lex_lt(b[0], b[i]));
            assert(lex_lt(a[0], a[j]));
            lemma_lex_trichotomy(a[0], b[0]);
            assert(false);
        }
        assert(a[0] == b[0]);
        let at = a.skip(1);
        let bt = b.skip(1);
        assert forall|x: Seq<char>| #[trigger] at.contains(x) implies bt.contains(x) by {
            let k = choose|k: int| 0 <= k < at.len() && at[k] == x;
            assert(a[k + 1] == x);
            assert(a.contains(x));
            assert(b.contains(x));
            let m = choose|m: int| 0 <= m < b.len() && b[m] == x;
            assert(lex_lt(a[0], a[k + 1]));
            lemma_lex_trichotomy(x, b[0]);
            assert(m != 0);
            assert(bt[m - 1] == x);
        }
        assert forall|x: Seq<char>| #[trigger] bt.contains(x) implies at.contains(x) by {
            let k = choose|k: int| 0 <= k < bt.len() && bt[k] == x;
            assert(b[k + 1] == x);
            assert(b.contains(x));
            assert(a.contains(x));
            let m = choose|m: int| 0 <= m < a.len() && a[m] == x;
            assert(lex_lt(b[0], b[k + 1]));
            lemma_lex_trichotomy(x, a[0]);
            assert(m != 0);
            assert(at[m - 1] == x);
        }
        assert(forall|i2: int, j2: int|
            0 <= i2 < j2 < at.len() ==> lex_lt(#[trigger] at[i2], #[trigger] at[j2]));
        assert(forall|i2: int, j2: int|
            0 <= i2 < j2 < bt.len() ==> lex_lt(#[trigger] bt[i2], #[trigger] bt[j2]));
        lemma_sorted_distinct_unique(at, bt);
        assert forall|k: int| 0 <= k < a.len() implies a[k] == b[k] by {
            if k > 0 {
                assert(at[k - 1] == bt[k - 1]);
            }
        }
    }
}

/// The level predicate is case-insensitive in the stored convention: the
/// plan upper-cases a requested level, so asking for "error" matches records
/// persisted with level "ERROR".
pub proof fn lemma_levels_case_insensitive(l: LogView, q: SearchPlanView)
    requires
        l.level == "ERROR"@,
        q.levels == Some(Seq::<Seq<char>>::empty().push(upper_seq("error"@))),
    ensures
        upper_seq("error"@) == "ERROR"@,
        q.levels matches Some(ls) && ls.contains(l.level),
{
    reveal_strlit("error");
    reveal_strlit("ERROR");
    assert(upper_seq("error"@) =~= "ERROR"@);
    let ls = Seq::<Seq<char>>::empty().push(upper_seq("error"@));
    assert(ls[0] == l.level);
    assert(ls.contains(l.level));
}

/// Correlation ids of calls in flight on one agent are pairwise distinct:
/// a response picks out at most one waiting caller.
pub proof fn lemma_in_flight_unique(t: &CorrelationTable, i: int, j: int)
    requires
        t.inv(),
        0 <= i < j < t@.len(),
    ensures
        t@[i] != t@[j],
{
}

} // verus!
