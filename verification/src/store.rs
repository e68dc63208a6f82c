//! The log store: an ordered, append-only collection of persisted log
//! records, with batch ingestion, filtered/paginated search and the list of
//! distinct targets. Records are held sorted by `(timestamp, id)` ascending,
//! the order every search reads them in.

use vstd::prelude::*;
use crate::types::{Log, LogView, StructuredLog, StoreError, QueryError, LogQueryParams, NodeName, OrderBy};
use crate::query::{SearchPlan, SearchPlanView, spec_plan, page_valid, build_search_plan};
use crate::text::{lower_seq, ascii_lower, contains_str, contains_seq, lex_lt, str_lex_lt,
    lemma_lex_trichotomy, lemma_lex_trans};

verus! {

/// What parsing a timestamp text under the RFC3339-with-nanoseconds-and-
/// offset format yields: nanoseconds since the Unix epoch, or nothing when
/// the text does not parse. The outcome depends on the text alone.
pub uninterp spec fn parsed_timestamp(s: Seq<char>) -> Option<i64>;

/// Relies on chrono's `DateTime::parse_from_str` under the fixed
/// `%Y-%m-%dT%H:%M:%S.%f%z` format, and on `timestamp_nanos_opt` to read the
/// parsed instant as nanoseconds since the Unix epoch.
#[verifier::external_body]
fn parse_log_timestamp(s: &str) -> (r: Option<i64>)
    ensures
        r == parsed_timestamp(s@),
{
    let format = "%Y-%m-%dT%H:%M:%S.%f%z";
    chrono::DateTime::parse_from_str(s, format).ok().and_then(|dt| dt.timestamp_nanos_opt())
}

/// Ghost images of a sequence of records.
pub open spec fn log_views(s: Seq<Log>) -> Seq<LogView> {
    s.map_values(|l: Log| l@)
}

/// The order records are kept and returned in: by timestamp, with the
/// store-assigned id breaking ties.
pub open spec fn rec_lt(a: LogView, b: LogView) -> bool {
    a.timestamp < b.timestamp || (a.timestamp == b.timestamp && a.id < b.id)
}

/// A structured log whose timestamp parses.
pub open spec fn parses(sl: StructuredLog) -> bool {
    parsed_timestamp(sl.timestamp@) is Some
}

/// Every record of a batch has a well-formed timestamp.
pub open spec fn all_parse(b: Seq<StructuredLog>) -> bool {
    forall|i: int| 0 <= i < b.len() ==> parses(#[trigger] b[i])
}

/// Length of the leading run of a batch whose timestamps parse; ingestion
/// persists exactly this prefix.
pub open spec fn parsed_prefix_len(b: Seq<StructuredLog>) -> int
    decreases b.len(),
{
    if b.len() == 0 {
        0
    } else if !parses(b[0]) {
        0
    } else {
        1 + parsed_prefix_len(b.skip(1))
    }
}

/// The record a structured log becomes when persisted for `name` under `id`.
pub open spec fn record_view(name: Seq<char>, sl: StructuredLog, id: u64) -> LogView {
    LogView {
        id,
        node_name: name,
        level: sl.level@,
        target: sl.target@,
        timestamp: parsed_timestamp(sl.timestamp@)->Some_0,
        message: sl.message@,
    }
}

/// `v` is one of the records that ingesting the first `k` logs of the batch
/// for `name` creates, ids counted from `start_id` in batch order.
pub open spec fn batch_contains(
    name: Seq<char>,
    b: Seq<StructuredLog>,
    start_id: u64,
    k: int,
    v: LogView,
) -> bool {
    exists|i: int| 0 <= i < k && v == record_view(name, b[i], (start_id + i) as u64)
}

proof fn lemma_parsed_prefix_len(b: Seq<StructuredLog>, i: int)
    requires
        0 <= i <= b.len(),
        forall|j: int| 0 <= j < i ==> parses(#[trigger] b[j]),
        i == b.len() || !parses(b[i]),
    ensures
        parsed_prefix_len(b) == i,
    decreases b.len(),
{
    if b.len() != 0 && i != 0 {
        assert(parses(b[0]));
        assert(forall|j: int| 0 <= j < i - 1 ==> parses(#[trigger] b.skip(1)[j]));
        if i - 1 < b.len() - 1 {
            assert(b.skip(1)[i - 1] == b[i]);
        }
        lemma_parsed_prefix_len(b.skip(1), i - 1);
    }
}

/// The log store. Owns the persisted records; ids are assigned on insert
/// and never reused, and the records sit sorted by `(timestamp, id)`.
pub struct LogStore {
    logs: Vec<Log>,
    next_id: u64,
}

impl View for LogStore {
    type V = Seq<LogView>;

    closed spec fn view(&self) -> Seq<LogView> {
        log_views(self.logs@)
    }
}

impl LogStore {
    /// The id the next inserted record will get; every stored id is below it.
    pub closed spec fn next_id_spec(&self) -> u64 {
        self.next_id
    }

    /// Well-formedness: records sorted strictly by `(timestamp, id)`, every
    /// id below the next free one.
    pub open spec fn inv(&self) -> bool {
        &&& forall|i: int| 0 <= i < self@.len() ==> (#[trigger] self@[i]).id < self.next_id_spec()
        &&& forall|i: int, j: int| 0 <= i < j < self@.len() ==> rec_lt(self@[i], self@[j])
    }

    /// An empty store; ids start at 0.
    pub fn new() -> (r: LogStore)
        ensures
            r.inv(),
            r@ =~= Seq::<LogView>::empty(),
            r.next_id_spec() == 0,
    {
        LogStore { logs: Vec::new(), next_id: 0 }
    }

    /// Places one freshly numbered record at its ordered position.
    fn insert_record(&mut self, rec: Log)
        requires
            old(self).inv(),
            rec.id == old(self).next_id_spec(),
            old(self).next_id_spec() < u64::MAX,
        ensures
            final(self).inv(),
            final(self).next_id_spec() == old(self).next_id_spec() + 1,
            final(self)@.len() == old(self)@.len() + 1,
            forall|v: LogView|
                final(self)@.contains(v) <==> (old(self)@.contains(v) || v == rec@),
    {
        let ghost s0 = self@;
        let n = self.logs.len();
        let mut p: usize = 0;
        while p < n && self.logs[p].timestamp <= rec.timestamp
            invariant
                n == self.logs@.len(),
                p <= n,
                forall|j: int| 0 <= j < p ==> (#[trigger] self@[j]).timestamp <= rec.timestamp,
                self@ == s0,
            decreases n - p,
        {
            assert(self@[p as int] == self.logs@[p as int]@);
            p = p + 1;
        }
        proof {
            assert(forall|j: int| 0 <= j < self@.len()
                ==> (#[trigger] self@[j]) == self.logs@[j]@);
            assert forall|j: int| p <= j < s0.len() implies s0[j].timestamp > rec.timestamp by {
                assert(s0[p as int].timestamp > rec.timestamp);
                if j > p {
                    assert(rec_lt(s0[p as int], s0[j]));
                }
            }
        }
        self.logs.insert(p, rec);
        self.next_id = self.next_id + 1;
        proof {
            let s1 = self@;
            assert(self.logs@ == old(self).logs@.insert(p as int, rec));
            assert forall|i: int| 0 <= i < s1.len() implies s1[i] == (if i < p {
                s0[i]
            } else if i == p {
                rec@
            } else {
                s0[i - 1]
            }) by {
                old(self).logs@.insert_ensures(p as int, rec);
                assert(s1[i] == self.logs@[i]@);
                if i < p {
                    assert(self.logs@[i] == old(self).logs@[i]);
                } else if i > p {
                    assert(self.logs@[i] == old(self).logs@[i - 1]);
                }
            }
            // sortedness: everything before position p is at or below the new
            // record's timestamp and carries a smaller id; everything after is
            // strictly above its timestamp
            assert forall|i: int, j: int| 0 <= i < j < s1.len() implies rec_lt(s1[i], s1[j]) by {
                if i == p {
                    assert(s1[j] == s0[j - 1] && j - 1 >= p);
                    assert(s0[j - 1].timestamp > rec.timestamp);
                } else if j == p {
                    assert(s1[i] == s0[i] && i < p);
                    assert(s0[i].timestamp <= rec.timestamp);
                    assert(s0[i].id < rec.id);
                }
            }
            assert forall|v: LogView| s1.contains(v) implies (s0.contains(v) || v == rec@) by {
                let idx = choose|idx: int| 0 <= idx < s1.len() && s1[idx] == v;
                if idx < p {
                    assert(s0[idx] == v);
                } else if idx > p {
                    assert(s0[idx - 1] == v);
                }
            }
            assert forall|v: LogView| (s0.contains(v) || v == rec@) implies s1.contains(v) by {
                if s0.contains(v) {
                    let idx = choose|idx: int| 0 <= idx < s0.len() && s0[idx] == v;
                    if idx < p {
                        assert(s1[idx] == v);
                    } else {
                        assert(s1[idx + 1] == v);
                    }
                } else {
                    assert(s1[p as int] == v);
                }
            }
        }
    }

    /// Ingests a batch of structured logs for one node.
    ///
    /// Each record's timestamp is parsed under the fixed RFC3339 format; the
    /// batch is persisted in order, each record under the next free id, until
    /// the first record whose timestamp does not parse. That record fails the
    /// whole call, but the records before it stay persisted.
    #[verifier::loop_isolation(false)]
    pub fn insert(&mut self, node_name: &NodeName, logs: Vec<StructuredLog>) -> (r: Result<
        (),
        StoreError,
    >)
        requires
            old(self).inv(),
            old(self).next_id_spec() + logs@.len() <= u64::MAX,
        ensures
            final(self).inv(),
            r is Ok <==> all_parse(logs@),
            r is Err ==> r == Err::<(), StoreError>(StoreError::InvalidTimestamp),
            final(self).next_id_spec() == old(self).next_id_spec() + parsed_prefix_len(logs@),
            final(self)@.len() == old(self)@.len() + parsed_prefix_len(logs@),
            forall|v: LogView|
                #[trigger] final(self)@.contains(v) <==> (old(self)@.contains(v) || batch_contains(
                    node_name@,
                    logs@,
                    old(self).next_id_spec(),
                    parsed_prefix_len(logs@),
                    v,
                )),
    {
        let ghost b = logs@;
        let ghost start_id = self.next_id_spec();
        let ghost s0 = self@;
        let n = logs.len();
        let mut i: usize = 0;
        while i < n
            invariant
                n == b.len(),
                i <= n,
                logs@ == b,
                self.inv(),
                forall|j: int| 0 <= j < i ==> parses(#[trigger] b[j]),
                self.next_id_spec() == start_id + i,
                start_id + b.len() <= u64::MAX,
                self@.len() == s0.len() + i,
                forall|v: LogView|
                    #[trigger] self@.contains(v) <==> (s0.contains(v) || batch_contains(
                        node_name@,
                        b,
                        start_id,
                        i as int,
                        v,
                    )),
            decreases n - i,
        {
            let sl = &logs[i];
            let parsed = parse_log_timestamp(sl.timestamp.as_str());
            match parsed {
                None => {
                    proof {
                        lemma_parsed_prefix_len(b, i as int);
                    }
                    return Err(StoreError::InvalidTimestamp);
                },
                Some(ts) => {
                    let rec = Log {
                        id: self.next_id,
                        node_name: node_name.clone(),
                        level: sl.level.clone(),
                        target: sl.target.clone(),
                        timestamp: ts,
                        message: sl.message.clone(),
                    };
                    proof {
                        assert(rec@ == record_view(node_name@, b[i as int], (start_id + i) as u64));
                    }
                    let ghost pre = self@;
                    self.insert_record(rec);
                    proof {
                        assert forall|v: LogView|
                            #[trigger] self@.contains(v) implies (s0.contains(v) || batch_contains(
                            node_name@,
                            b,
                            start_id,
                            i + 1,
                            v,
                        )) by {
                            if pre.contains(v) {
                                if batch_contains(node_name@, b, start_id, i as int, v) {
                                    let w = choose|w: int|
                                        0 <= w < i && v == record_view(
                                            node_name@,
                                            b[w],
                                            (start_id + w) as u64,
                                        );
                                    assert(0 <= w < i + 1 && v == record_view(
                                        node_name@,
                                        b[w],
                                        (start_id + w) as u64,
                                    ));
                                }
                            } else {
                                assert(v == rec@);
                                assert(0 <= i < i + 1 && v == record_view(
                                    node_name@,
                                    b[i as int],
                                    (start_id + i) as u64,
                                ));
                            }
                        }
                    }
                    i = i + 1;
                    proof {
                        assert(forall|v: LogView|
                            self@.contains(v) ==> (s0.contains(v) || batch_contains(
                                node_name@,
                                b,
                                start_id,
                                i as int,
                                v,
                            )));
                        assert forall|v: LogView|
                            (s0.contains(v) || batch_contains(
                            node_name@,
                            b,
                            start_id,
                            i as int,
                            v,
                        )) implies #[trigger] self@.contains(v) by {
                            if s0.contains(v) {
                                assert(pre.contains(v));
                            } else {
                                let w = choose|w: int|
                                    0 <= w < i && v == record_view(
                                        node_name@,
                                        b[w],
                                        (start_id + w) as u64,
                                    );
                                if w < i - 1 {
                                    assert(batch_contains(node_name@, b, start_id, i - 1, v));
                                    assert(pre.contains(v));
                                } else {
                                    assert(v == rec@);
                                }
                            }
                        }
                    }
                },
            }
        }
        proof {
            lemma_parsed_prefix_len(b, n as int);
        }
        Ok(())
    }

    /// Runs a search request against the store.
    ///
    /// Returns `InvalidPage` exactly when the request names page 0; otherwise
    /// the records matching the request's predicates, in `(timestamp, id)`
    /// order in the requested direction, windowed to the requested page.
    #[verifier::loop_isolation(false)]
    pub fn search(&self, params: LogQueryParams) -> (r: Result<Vec<Log>, QueryError>)
        requires
            self.inv(),
        ensures
            r is Ok <==> page_valid(params),
            r matches Ok(v) ==> log_views(v@) == spec_search(self@, spec_plan(params)),
            r is Err ==> r == Err::<Vec<Log>, QueryError>(QueryError::InvalidPage),
    {
        let plan = match build_search_plan(params) {
            Ok(p) => p,
            Err(e) => {
                return Err(e);
            },
        };
        let ghost s = self@;
        let ghost q = plan@;
        let n = self.logs.len();
        let mut f: Vec<Log> = Vec::new();
        let mut i: usize = 0;
        proof {
            assert(s.subrange(0, 0) =~= Seq::<LogView>::empty());
            reveal_with_fuel(Seq::filter, 2);
            assert(matching(s.subrange(0, 0), q) =~= Seq::<LogView>::empty());
        }
        while i < n
            invariant
                i <= n,
                log_views(f@) == matching(s.subrange(0, i as int), q),
            decreases n - i,
        {
            proof {
                assert(self.logs@[i as int]@ == s[i as int]);
            }
            let m = exec_matches(&self.logs[i], &plan);
            let ghost f0 = log_views(f@);
            if m {
                let item = self.logs[i].clone();
                f.push(item);
            }
            proof {
                reveal_with_fuel(Seq::filter, 2);
                let t = s.subrange(0, i + 1);
                assert(t.drop_last() =~= s.subrange(0, i as int));
                assert(t.last() == s[i as int]);
                if log_matches(s[i as int], q) {
                    assert(log_views(f@) =~= f0.push(s[i as int]));
                    assert(matching(t, q) == matching(t.drop_last(), q).push(t.last()));
                } else {
                    assert(matching(t, q) == matching(t.drop_last(), q));
                }
            }
            i = i + 1;
        }
        proof {
            assert(s.subrange(0, n as int) =~= s);
        }
        let ordered = if matches!(plan.order_by, OrderBy::DESC) {
            reverse_logs(f)
        } else {
            f
        };
        let out = page_window(ordered, plan.page, plan.limit);
        proof {
            assert(plan.page == q.page && plan.limit == q.limit);
            assert(log_views(out@) =~= spec_search(s, spec_plan(params)));
        }
        Ok(out)
    }

    /// The distinct target values present in the store, each once, in
    /// strictly increasing lexicographic order.
    #[verifier::loop_isolation(false)]
    pub fn get_targets(&self) -> (r: Vec<String>)
        ensures
            forall|i: int, j: int|
                0 <= i < j < r@.len() ==> lex_lt(#[trigger] r@[i]@, #[trigger] r@[j]@),
            forall|t: Seq<char>| #[trigger] str_in(r@, t) <==> has_target(self@, t),
    {
        let ghost s = self@;
        let n = self.logs.len();
        let mut out: Vec<String> = Vec::new();
        let mut i: usize = 0;
        while i < n
            invariant
                i <= n,
                forall|a: int, b: int|
                    0 <= a < b < out@.len() ==> lex_lt(#[trigger] out@[a]@, #[trigger] out@[b]@),
                forall|t: Seq<char>| #[trigger] str_in(out@, t) <==> has_target(
                    s.subrange(0, i as int),
                    t,
                ),
            decreases n - i,
        {
            proof {
                assert(self.logs@[i as int]@ == s[i as int]);
            }
            let t = &self.logs[i].target;
            let m = out.len();
            let mut p: usize = 0;
            while p < m && str_lex_lt(out[p].as_str(), t.as_str())
                invariant
                    p <= m,
                    forall|j: int| 0 <= j < p ==> lex_lt(#[trigger] out@[j]@, t@),
                decreases m - p,
            {
                p = p + 1;
            }
            let dup = p < m && out[p].eq(t);
            let ghost out0 = out@;
            if dup {
                proof {
                    assert(out0[p as int]@ == t@);
                    assert(str_in(out0, t@));
                }
            } else {
                proof {
                    if p < m {
                        lemma_lex_trichotomy(t@, out0[p as int]@);
                        assert(lex_lt(t@, out0[p as int]@));
                    }
                }
                let item = t.clone();
                out.insert(p, item);
                proof {
                    assert(out@ == out0.insert(p as int, item));
                    out0.insert_ensures(p as int, item);
                    assert forall|a: int, b: int| 0 <= a < b < out@.len() implies lex_lt(
                        #[trigger] out@[a]@,
                        #[trigger] out@[b]@,
                    ) by {
                        if b < p {
                            assert(out@[a]@ == out0[a]@ && out@[b]@ == out0[b]@);
                        } else if b == p {
                            assert(out@[a]@ == out0[a]@ && out@[b]@ == t@);
                        } else if a < p {
                            assert(out@[a]@ == out0[a]@ && out@[b]@ == out0[b - 1]@);
                            if b - 1 == p {
                                if p < m {
                                    lemma_lex_trans(out0[a]@, t@, out0[p as int]@);
                                }
                                assert(b - 1 > p || out@[b]@ == out0[p as int]@);
                            }
                            if b - 1 > p {
                                assert(lex_lt(out0[a]@, out0[b - 1]@));
                            } else {
                                assert(lex_lt(out0[a]@, t@) || lex_lt(out0[a]@, out0[b - 1]@));
                            }
                        } else if a == p {
                            assert(out@[a]@ == t@ && out@[b]@ == out0[b - 1]@ && b - 1 >= p);
                            if b - 1 == p {
                                assert(lex_lt(t@, out0[p as int]@));
                            } else {
                                lemma_lex_trans(t@, out0[p as int]@, out0[b - 1]@);
                            }
                        } else {
                            assert(out@[a]@ == out0[a - 1]@ && out@[b]@ == out0[b - 1]@);
                        }
                    }
                    assert forall|x: Seq<char>| #[trigger] str_in(out@, x) implies (str_in(
                        out0,
                        x,
                    ) || x == t@) by {
                        let j = choose|j: int| 0 <= j < out@.len() && (#[trigger] out@[j])@ == x;
                        if j < p {
                            assert(out0[j]@ == x);
                        } else if j > p {
                            assert(out0[j - 1]@ == x);
                        }
                    }
                    assert forall|x: Seq<char>| (str_in(out0, x) || x == t@) implies #[trigger] str_in(
                        out@,
                        x,
                    ) by {
                        if str_in(out0, x) {
                            let j = choose|j: int|
                                0 <= j < out0.len() && (#[trigger] out0[j])@ == x;
                            if j < p {
                                assert(out@[j]@ == x);
                            } else {
                                assert(out@[j + 1]@ == x);
                            }
                        } else {
                            assert(out@[p as int]@ == x);
                        }
                    }
                }
            }
            proof {
                let sub1 = s.subrange(0, i + 1);
                let sub0 = s.subrange(0, i as int);
                assert forall|x: Seq<char>| #[trigger] has_target(sub1, x) implies (has_target(
                    sub0,
                    x,
                ) || x == s[i as int].target) by {
                    let k = choose|k: int| 0 <= k < sub1.len() && (#[trigger] sub1[k]).target == x;
                    if k < i {
                        assert(sub0[k].target == x);
                    } else {
                        assert(sub1[k] == s[i as int]);
                    }
                }
                assert forall|x: Seq<char>| (has_target(sub0, x) || x == s[i as int].target)
                    implies #[trigger] has_target(sub1, x) by {
                    if has_target(sub0, x) {
                        let k = choose|k: int|
                            0 <= k < sub0.len() && (#[trigger] sub0[k]).target == x;
                        assert(sub1[k].target == x);
                    } else {
                        assert(sub1[i as int].target == x);
                    }
                }
                assert forall|x: Seq<char>| #[trigger] str_in(out@, x) <==> has_target(sub1, x) by {
                    if dup {
                        assert(out@ == out0);
                    }
                }
            }
            i = i + 1;
        }
        proof {
            assert(s.subrange(0, n as int) =~= s);
        }
        out
    }
}


/// Some record of `s` carries target `t`.
pub open spec fn has_target(s: Seq<LogView>, t: Seq<char>) -> bool {
    exists|k: int| 0 <= k < s.len() && (#[trigger] s[k]).target == t
}

/// Text `t` reads as one of the strings of `v`.
pub open spec fn str_in(v: Seq<String>, t: Seq<char>) -> bool {
    exists|j: int| 0 <= j < v.len() && (#[trigger] v[j])@ == t
}

/// One record satisfies every predicate of a plan. A predicate that is
/// absent restricts nothing; the level predicate compares the stored level
/// against the upper-cased filter entries; the text search is a
/// case-insensitive substring match on the message.
pub open spec fn log_matches(l: LogView, q: SearchPlanView) -> bool {
    &&& match q.node_names {
        Some(ns) => ns.contains(l.node_name),
        None => true,
    }
    &&& match q.levels {
        Some(ls) => ls.contains(l.level),
        None => true,
    }
    &&& match q.targets {
        Some(ts) => ts.contains(l.target),
        None => true,
    }
    &&& match q.search {
        Some(t) => contains_seq(lower_seq(l.message), lower_seq(t)),
        None => true,
    }
    &&& match q.from_time {
        Some(t) => l.timestamp > t,
        None => true,
    }
    &&& match q.to_time {
        Some(t) => l.timestamp < t,
        None => true,
    }
}

/// The records of `s` that match the plan, in the order of `s`.
pub open spec fn matching(s: Seq<LogView>, q: SearchPlanView) -> Seq<LogView> {
    s.filter(|l: LogView| log_matches(l, q))
}

/// The rows a search under plan `q` returns on a store holding `s` in stored
/// (ascending) order: the matching records, reversed when the plan asks for
/// descending order, windowed to the plan's page.
pub open spec fn spec_search(s: Seq<LogView>, q: SearchPlanView) -> Seq<LogView> {
    let o = if q.order_by == OrderBy::DESC {
        matching(s, q).reverse()
    } else {
        matching(s, q)
    };
    let start = if (q.page - 1) * q.limit <= o.len() {
        (q.page - 1) * q.limit
    } else {
        o.len() as int
    };
    let end = if start + q.limit <= o.len() {
        start + q.limit
    } else {
        o.len() as int
    };
    o.subrange(start, end)
}

/// Whether one of the strings reads as the given text.
fn contains_string(v: &Vec<String>, s: &String) -> (r: bool)
    ensures
        r == v.deep_view().contains(s@),
{
    let n = v.len();
    let mut i: usize = 0;
    while i < n
        invariant
            i <= n,
            n == v@.len(),
            forall|j: int| 0 <= j < i ==> #[trigger] v@[j]@ != s@,
        decreases n - i,
    {
        if v[i].eq(s) {
            proof {
                assert(v.deep_view()[i as int] == s@);
            }
            return true;
        }
        i = i + 1;
    }
    proof {
        assert forall|j: int| 0 <= j < v.deep_view().len() implies #[trigger] v.deep_view()[j]
            != s@ by {
            assert(v.deep_view()[j] == v@[j]@);
        }
    }
    false
}

/// Whether one record passes every predicate of the plan.
fn exec_matches(l: &Log, q: &SearchPlan) -> (r: bool)
    ensures
        r == log_matches(l@, q@),
{
    let node_ok = match &q.node_names {
        Some(ns) => contains_string(ns, &l.node_name),
        None => true,
    };
    let level_ok = match &q.levels {
        Some(ls) => contains_string(ls, &l.level),
        None => true,
    };
    let target_ok = match &q.targets {
        Some(ts) => contains_string(ts, &l.target),
        None => true,
    };
    let search_ok = match &q.search {
        Some(t) => {
            let low_message = ascii_lower(l.message.as_str());
            let low_text = ascii_lower(t.as_str());
            contains_str(low_message.as_str(), low_text.as_str())
        },
        None => true,
    };
    let from_ok = match q.from_time {
        Some(t) => l.timestamp > t,
        None => true,
    };
    let to_ok = match q.to_time {
        Some(t) => l.timestamp < t,
        None => true,
    };
    node_ok && level_ok && target_ok && search_ok && from_ok && to_ok
}

/// The same records backwards.
fn reverse_logs(v: Vec<Log>) -> (r: Vec<Log>)
    ensures
        log_views(r@) == log_views(v@).reverse(),
{
    let n = v.len();
    let mut r: Vec<Log> = Vec::new();
    let mut i: usize = 0;
    while i < n
        invariant
            i <= n,
            n == v@.len(),
            r@.len() == i,
            forall|j: int| 0 <= j < i ==> #[trigger] r@[j]@ == v@[n - 1 - j]@,
        decreases n - i,
    {
        let item = v[n - 1 - i].clone();
        r.push(item);
        i = i + 1;
    }
    proof {
        assert(log_views(r@) =~= log_views(v@).reverse());
    }
    r
}

/// The window of rows belonging to the 1-based `page` of size `limit`.
fn page_window(v: Vec<Log>, page: u32, limit: u32) -> (r: Vec<Log>)
    requires
        page >= 1,
    ensures
        log_views(r@) == ({
            let o = log_views(v@);
            let start = if (page - 1) * limit <= o.len() {
                (page - 1) * limit
            } else {
                o.len() as int
            };
            let end = if start + limit <= o.len() {
                start + limit
            } else {
                o.len() as int
            };
            o.subrange(start, end)
        }),
{
    let n = v.len();
    proof {
        vstd::arithmetic::mul::lemma_mul_upper_bound(
            page as u64 - 1,
            0xffff_fffe,
            limit as int,
            0xffff_ffff,
        );
    }
    let start64: u64 = (page as u64 - 1) * (limit as u64);
    let start: usize = if start64 <= n as u64 {
        start64 as usize
    } else {
        n
    };
    let remaining: usize = n - start;
    let take: usize = if (limit as u64) <= (remaining as u64) {
        limit as usize
    } else {
        remaining
    };
    let end: usize = start + take;
    let mut r: Vec<Log> = Vec::new();
    let mut i: usize = start;
    while i < end
        invariant
            start <= i <= end,
            end <= n,
            n == v@.len(),
            r@.len() == i - start,
            forall|j: int| 0 <= j < i - start ==> #[trigger] r@[j]@ == v@[start + j]@,
        decreases end - i,
    {
        let item = v[i].clone();
        r.push(item);
        i = i + 1;
    }
    proof {
        let o = log_views(v@);
        let gstart = if (page - 1) * limit <= o.len() {
            (page - 1) * limit
        } else {
            o.len() as int
        };
        let gend = if gstart + limit <= o.len() {
            gstart + limit
        } else {
            o.len() as int
        };
        assert(gstart == start as int);
        assert(gend == end as int);
        assert(log_views(r@) =~= o.subrange(gstart, gend));
    }
    r
}

} // verus!
