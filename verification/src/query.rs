//! The search-plan builder: turns a `LogQueryParams` request into a
//! `SearchPlan`, the set of predicates a search applies. Every optional part
//! of the request contributes its predicate exactly when it is set; an absent
//! or empty part restricts nothing. The plan is what both the in-memory
//! search and the SQL rendering work from.

use vstd::prelude::*;
use crate::types::{LogQueryParams, OrderBy, QueryError};
use crate::text::{upper_seq, ascii_upper};

verus! {

/// Number of records a page holds when the request does not say.
pub const DEFAULT_ITEM_PER_PAGE: u32 = 100;

/// The predicates, ordering and page window of one search, with every bound
/// value held as data. Values are only ever bound as parameters of the
/// rendered query, never spliced into its text.
pub struct SearchPlan {
    /// Record's node name must be one of these; `None` restricts nothing.
    pub node_names: Option<Vec<String>>,
    /// Record's level must be one of these (already upper-cased).
    pub levels: Option<Vec<String>>,
    /// Record's target must be one of these.
    pub targets: Option<Vec<String>>,
    /// Record's message must contain this text, case-insensitively.
    pub search: Option<String>,
    /// Record's timestamp must be strictly above this.
    pub from_time: Option<i64>,
    /// Record's timestamp must be strictly below this.
    pub to_time: Option<i64>,
    /// Direction of the `(timestamp, id)` ordering.
    pub order_by: OrderBy,
    /// Page size; never zero pages of work, the window is `limit` rows.
    pub limit: u32,
    /// 1-based page number.
    pub page: u32,
}

/// Ghost image of a search plan: text as character sequences.
#[verifier::ext_equal]
pub ghost struct SearchPlanView {
    pub node_names: Option<Seq<Seq<char>>>,
    pub levels: Option<Seq<Seq<char>>>,
    pub targets: Option<Seq<Seq<char>>>,
    pub search: Option<Seq<char>>,
    pub from_time: Option<i64>,
    pub to_time: Option<i64>,
    pub order_by: OrderBy,
    pub limit: u32,
    pub page: u32,
}

impl View for SearchPlan {
    type V = SearchPlanView;

    open spec fn view(&self) -> SearchPlanView {
        SearchPlanView {
            node_names: match self.node_names {
                Some(v) => Some(v.deep_view()),
                None => None,
            },
            levels: match self.levels {
                Some(v) => Some(v.deep_view()),
                None => None,
            },
            targets: match self.targets {
                Some(v) => Some(v.deep_view()),
                None => None,
            },
            search: match self.search {
                Some(s) => Some(s@),
                None => None,
            },
            from_time: self.from_time,
            to_time: self.to_time,
            order_by: self.order_by,
            limit: self.limit,
            page: self.page,
        }
    }
}

/// The plan a given request must produce: each predicate present exactly when
/// the request sets the matching part, levels upper-cased, ordering defaulted
/// to ascending, page size defaulted, page taken as given.
pub open spec fn spec_plan(p: LogQueryParams) -> SearchPlanView {
    SearchPlanView {
        node_names: match p.filter {
            Some(f) => if f.node_names@.len() > 0 {
                Some(f.node_names.deep_view())
            } else {
                None
            },
            None => None,
        },
        levels: match p.filter {
            Some(f) => if f.levels@.len() > 0 {
                Some(f.levels.deep_view().map_values(|s: Seq<char>| upper_seq(s)))
            } else {
                None
            },
            None => None,
        },
        targets: match p.filter {
            Some(f) => if f.targets@.len() > 0 {
                Some(f.targets.deep_view())
            } else {
                None
            },
            None => None,
        },
        search: match p.search {
            Some(s) => if s@.len() > 0 {
                Some(s@)
            } else {
                None
            },
            None => None,
        },
        from_time: match p.time {
            Some(t) => t.from_time,
            None => None,
        },
        to_time: match p.time {
            Some(t) => t.to_time,
            None => None,
        },
        order_by: match p.order_by {
            Some(o) => o,
            None => OrderBy::ASC,
        },
        limit: match p.item_per_page {
            Some(n) => n,
            None => DEFAULT_ITEM_PER_PAGE,
        },
        page: match p.page {
            Some(n) => n,
            None => 1,
        },
    }
}

/// A request is rejected exactly when it asks for page 0: pages are 1-based
/// and page 0 would put the row offset before the first row.
pub open spec fn page_valid(p: LogQueryParams) -> bool {
    match p.page {
        Some(n) => n >= 1,
        None => true,
    }
}

/// Upper-cases every entry of a list of levels.
fn upper_all(levels: Vec<String>) -> (r: Vec<String>)
    ensures
        r.deep_view() == levels.deep_view().map_values(|s: Seq<char>| upper_seq(s)),
{
    let mut r: Vec<String> = Vec::new();
    let n = levels.len();
    let mut i: usize = 0;
    while i < n
        invariant
            i <= n,
            n == levels@.len(),
            r@.len() == i,
            forall|j: int| 0 <= j < i ==> #[trigger] r@[j]@ == upper_seq(levels@[j]@),
        decreases n - i,
    {
        let up = ascii_upper(levels[i].as_str());
        r.push(up);
        i = i + 1;
    }
    proof {
        assert forall|j: int| 0 <= j < n implies r.deep_view()[j] == levels.deep_view().map_values(
            |s: Seq<char>| upper_seq(s),
        )[j] by {
            assert(r@[j]@ == upper_seq(levels@[j]@));
        }
        assert(r.deep_view() =~= levels.deep_view().map_values(|s: Seq<char>| upper_seq(s)));
    }
    r
}

/// Builds the search plan of a request.
///
/// Returns the plan `spec_plan(params)` describes, or `InvalidPage` exactly
/// when the request names page 0.
pub fn build_search_plan(params: LogQueryParams) -> (r: Result<SearchPlan, QueryError>)
    ensures
        r is Ok <==> page_valid(params),
        r matches Ok(plan) ==> plan@ == spec_plan(params),
        r is Err ==> r == Err::<SearchPlan, QueryError>(QueryError::InvalidPage),
{
    let ghost p = params;
    let page: u32 = match params.page {
        Some(n) => n,
        None => 1,
    };
    if page == 0 {
        return Err(QueryError::InvalidPage);
    }
    let limit: u32 = match params.item_per_page {
        Some(n) => n,
        None => DEFAULT_ITEM_PER_PAGE,
    };
    let order_by = match params.order_by {
        Some(o) => o,
        None => OrderBy::ASC,
    };
    let (node_names, levels, targets) = match params.filter {
        Some(f) => {
            let node_names = if f.node_names.len() > 0 {
                Some(f.node_names)
            } else {
                None
            };
            let levels = if f.levels.len() > 0 {
                Some(upper_all(f.levels))
            } else {
                None
            };
            let targets = if f.targets.len() > 0 {
                Some(f.targets)
            } else {
                None
            };
            (node_names, levels, targets)
        },
        None => (None, None, None),
    };
    let search = match params.search {
        Some(s) => if s.as_str().unicode_len() > 0 {
            Some(s)
        } else {
            None
        },
        None => None,
    };
    let (from_time, to_time) = match params.time {
        Some(t) => (t.from_time, t.to_time),
        None => (None, None),
    };
    let plan = SearchPlan {
        node_names,
        levels,
        targets,
        search,
        from_time,
        to_time,
        order_by,
        limit,
        page,
    };
    proof {
        assert(plan@ =~= spec_plan(p));
    }
    Ok(plan)
}

/// A value bound into the query as a positional parameter: a list of texts
/// (for `ANY` clauses), one text, or one timestamp.
pub enum SqlValue {
    Texts(Vec<String>),
    Text(String),
    Time(i64),
}

/// Ghost image of a bound value.
pub ghost enum SqlValueView {
    Texts(Seq<Seq<char>>),
    Text(Seq<char>),
    Time(i64),
}

impl View for SqlValue {
    type V = SqlValueView;

    open spec fn view(&self) -> SqlValueView {
        match self {
            SqlValue::Texts(v) => SqlValueView::Texts(v.deep_view()),
            SqlValue::Text(t) => SqlValueView::Text(t@),
            SqlValue::Time(t) => SqlValueView::Time(*t),
        }
    }
}

/// Ghost images of a sequence of bound values.
pub open spec fn sql_views(v: Seq<SqlValue>) -> Seq<SqlValueView> {
    v.map_values(|x: SqlValue| x@)
}

/// The ordered positional parameters of one query: `add` hands back the
/// 1-based index the value will be bound under.
pub struct Parameters {
    parameter_count: i32,
    parameters: Vec<SqlValue>,
}

impl View for Parameters {
    type V = Seq<SqlValueView>;

    closed spec fn view(&self) -> Seq<SqlValueView> {
        sql_views(self.parameters@)
    }
}

impl Parameters {
    /// Count and values agree.
    pub closed spec fn inv(&self) -> bool {
        self.parameter_count == self@.len()
    }

    /// No parameters yet.
    pub fn new() -> (r: Parameters)
        ensures
            r.inv(),
            r@ =~= Seq::<SqlValueView>::empty(),
    {
        Parameters { parameter_count: 0, parameters: Vec::new() }
    }

    /// Appends a value; returns its 1-based placeholder index.
    pub fn add(&mut self, param: SqlValue) -> (index: i32)
        requires
            old(self).inv(),
            old(self)@.len() < i32::MAX,
        ensures
            final(self).inv(),
            final(self)@ == old(self)@.push(param@),
            index == old(self)@.len() + 1,
    {
        self.parameters.push(param);
        self.parameter_count = self.parameter_count + 1;
        proof {
            assert(final(self)@ =~= old(self)@.push(param@));
        }
        self.parameter_count
    }

    /// The values in bind order.
    pub fn get(&self) -> (r: &Vec<SqlValue>)
        ensures
            sql_views(r@) == self@,
    {
        &self.parameters
    }
}

/// The character a decimal digit prints as.
pub open spec fn digit_char(d: int) -> char {
    if d == 0 { '0' }
    else if d == 1 { '1' }
    else if d == 2 { '2' }
    else if d == 3 { '3' }
    else if d == 4 { '4' }
    else if d == 5 { '5' }
    else if d == 6 { '6' }
    else if d == 7 { '7' }
    else if d == 8 { '8' }
    else { '9' }
}

/// The decimal rendering of a non-negative number.
pub open spec fn dec_str(n: int) -> Seq<char>
    recommends
        n >= 0,
    decreases n,
{
    if n < 10 {
        seq![digit_char(n)]
    } else {
        dec_str(n / 10).push(digit_char(n % 10))
    }
}

fn digit_str(d: u64) -> (r: &'static str)
    requires
        d < 10,
    ensures
        r@ == seq![digit_char(d as int)],
{
    proof {
        reveal_strlit("0");
        reveal_strlit("1");
        reveal_strlit("2");
        reveal_strlit("3");
        reveal_strlit("4");
        reveal_strlit("5");
        reveal_strlit("6");
        reveal_strlit("7");
        reveal_strlit("8");
        reveal_strlit("9");
    }
    if d == 0 { "0" }
    else if d == 1 { "1" }
    else if d == 2 { "2" }
    else if d == 3 { "3" }
    else if d == 4 { "4" }
    else if d == 5 { "5" }
    else if d == 6 { "6" }
    else if d == 7 { "7" }
    else if d == 8 { "8" }
    else { "9" }
}

/// Appends the decimal rendering of `n`.
fn push_u64(s: &mut String, n: u64)
    ensures
        final(s)@ == old(s)@ + dec_str(n as int),
    decreases n,
{
    if n >= 10 {
        push_u64(s, n / 10);
        s.append(digit_str(n % 10));
        proof {
            assert(final(s)@ =~= old(s)@ + dec_str(n as int));
        }
    } else {
        s.append(digit_str(n));
        proof {
            assert(final(s)@ =~= old(s)@ + dec_str(n as int));
        }
    }
}

/// Ghost images of a sequence of strings.
pub open spec fn str_views(v: Seq<String>) -> Seq<Seq<char>> {
    v.map_values(|s: String| s@)
}

/// Texts joined with a separator between each adjacent pair.
pub open spec fn spec_join(v: Seq<Seq<char>>, sep: Seq<char>) -> Seq<char>
    decreases v.len(),
{
    if v.len() == 0 {
        Seq::empty()
    } else if v.len() == 1 {
        v[0]
    } else {
        spec_join(v.drop_last(), sep) + sep + v.last()
    }
}

/// The `WHERE` conditions a plan renders, paired with the values bound under
/// their placeholders: condition `i` (0-based) speaks of placeholder `$i+1`,
/// and the value lists, the `%`-wrapped search text and the time bounds are
/// bound as parameters, never spliced into the text.
pub open spec fn spec_conditions_binds(q: SearchPlanView) -> (Seq<Seq<char>>, Seq<SqlValueView>) {
    let conds = Seq::<Seq<char>>::empty();
    let binds = Seq::<SqlValueView>::empty();
    let (conds, binds) = match q.node_names {
        Some(ns) => (
            conds.push("name = ANY($"@ + dec_str(binds.len() as int + 1) + ")"@),
            binds.push(SqlValueView::Texts(ns)),
        ),
        None => (conds, binds),
    };
    let (conds, binds) = match q.levels {
        Some(ls) => (
            conds.push("level = ANY($"@ + dec_str(binds.len() as int + 1) + ")"@),
            binds.push(SqlValueView::Texts(ls)),
        ),
        None => (conds, binds),
    };
    let (conds, binds) = match q.targets {
        Some(ts) => (
            conds.push("target = ANY($"@ + dec_str(binds.len() as int + 1) + ")"@),
            binds.push(SqlValueView::Texts(ts)),
        ),
        None => (conds, binds),
    };
    let (conds, binds) = match q.search {
        Some(t) => (
            conds.push("message ILIKE $"@ + dec_str(binds.len() as int + 1)),
            binds.push(SqlValueView::Text("%"@ + t + "%"@)),
        ),
        None => (conds, binds),
    };
    let (conds, binds) = match q.from_time {
        Some(t) => (
            conds.push("timestamp > $"@ + dec_str(binds.len() as int + 1)),
            binds.push(SqlValueView::Time(t)),
        ),
        None => (conds, binds),
    };
    let (conds, binds) = match q.to_time {
        Some(t) => (
            conds.push("timestamp < $"@ + dec_str(binds.len() as int + 1)),
            binds.push(SqlValueView::Time(t)),
        ),
        None => (conds, binds),
    };
    (conds, binds)
}

/// How the ordering direction prints.
pub open spec fn dir_str(o: OrderBy) -> Seq<char> {
    if o == OrderBy::DESC {
        "DESC"@
    } else {
        "ASC"@
    }
}

/// The full query text a plan renders: the fixed select, the `WHERE` clause
/// (empty when no predicate is set), the `(timestamp, id)` ordering in the
/// plan's direction, and the page window as `LIMIT` and `OFFSET`.
pub open spec fn search_sql(q: SearchPlanView) -> Seq<char> {
    let conds = spec_conditions_binds(q).0;
    let where_clause = if conds.len() > 0 {
        "WHERE "@ + spec_join(conds, " AND "@)
    } else {
        Seq::<char>::empty()
    };
    "SELECT * FROM logs "@ + where_clause + " ORDER BY timestamp "@ + dir_str(q.order_by)
        + ", id "@ + dir_str(q.order_by) + " LIMIT "@ + dec_str(q.limit as int) + " OFFSET "@
        + dec_str((q.page - 1) * q.limit)
}

/// The values bound under the query's placeholders, in placeholder order.
pub open spec fn search_binds(q: SearchPlanView) -> Seq<SqlValueView> {
    spec_conditions_binds(q).1
}

fn join_with(v: &Vec<String>, sep: &str) -> (r: String)
    ensures
        r@ == spec_join(str_views(v@), sep@),
{
    let mut r = String::new();
    let n = v.len();
    let mut i: usize = 0;
    proof {
        assert(str_views(v@).subrange(0, 0) =~= Seq::<Seq<char>>::empty());
    }
    while i < n
        invariant
            i <= n,
            n == v@.len(),
            r@ == spec_join(str_views(v@).subrange(0, i as int), sep@),
        decreases n - i,
    {
        if i > 0 {
            r.append(sep);
        }
        r.append(v[i].as_str());
        proof {
            let all = str_views(v@);
            assert(all.subrange(0, i + 1).drop_last() =~= all.subrange(0, i as int));
            assert(all.subrange(0, i + 1).last() == v@[i as int]@);
        }
        i = i + 1;
    }
    proof {
        assert(str_views(v@).subrange(0, n as int) =~= str_views(v@));
    }
    r
}

/// Renders a plan into the query text and the ordered values to bind.
///
/// The text is exactly `search_sql` of the plan and the values exactly
/// `search_binds` of it: every requested value travels as a bound parameter.
#[verifier::rlimit(100)]
pub fn render_search_query(plan: SearchPlan) -> (r: (String, Parameters))
    requires
        plan@.page >= 1,
    ensures
        r.0@ == search_sql(plan@),
        r.1@ == search_binds(plan@),
        r.1.inv(),
{
    let ghost q = plan@;
    let mut parameters = Parameters::new();
    let mut conds: Vec<String> = Vec::new();
    match plan.node_names {
        Some(ns) => {
            let idx = parameters.add(SqlValue::Texts(ns));
            let mut c = String::from_str("name = ANY($");
            push_u64(&mut c, idx as u64);
            c.append(")");
            conds.push(c);
        },
        None => {},
    }
    match plan.levels {
        Some(ls) => {
            let idx = parameters.add(SqlValue::Texts(ls));
            let mut c = String::from_str("level = ANY($");
            push_u64(&mut c, idx as u64);
            c.append(")");
            conds.push(c);
        },
        None => {},
    }
    match plan.targets {
        Some(ts) => {
            let idx = parameters.add(SqlValue::Texts(ts));
            let mut c = String::from_str("target = ANY($");
            push_u64(&mut c, idx as u64);
            c.append(")");
            conds.push(c);
        },
        None => {},
    }
    match plan.search {
        Some(t) => {
            let mut wrapped = String::from_str("%");
            wrapped.append(t.as_str());
            wrapped.append("%");
            let idx = parameters.add(SqlValue::Text(wrapped));
            let mut c = String::from_str("message ILIKE $");
            push_u64(&mut c, idx as u64);
            conds.push(c);
        },
        None => {},
    }
    match plan.from_time {
        Some(t) => {
            let idx = parameters.add(SqlValue::Time(t));
            let mut c = String::from_str("timestamp > $");
            push_u64(&mut c, idx as u64);
            conds.push(c);
        },
        None => {},
    }
    match plan.to_time {
        Some(t) => {
            let idx = parameters.add(SqlValue::Time(t));
            let mut c = String::from_str("timestamp < $");
            push_u64(&mut c, idx as u64);
            conds.push(c);
        },
        None => {},
    }
    proof {
        assert(str_views(conds@) =~= spec_conditions_binds(q).0);
        assert(parameters@ =~= spec_conditions_binds(q).1);
    }
    let mut text = String::from_str("SELECT * FROM logs ");
    if conds.len() > 0 {
        text.append("WHERE ");
        let joined = join_with(&conds, " AND ");
        text.append(joined.as_str());
    }
    text.append(" ORDER BY timestamp ");
    let dir: &'static str = if matches!(plan.order_by, OrderBy::DESC) {
        "DESC"
    } else {
        "ASC"
    };
    text.append(dir);
    text.append(", id ");
    text.append(dir);
    text.append(" LIMIT ");
    push_u64(&mut text, plan.limit as u64);
    text.append(" OFFSET ");
    proof {
        vstd::arithmetic::mul::lemma_mul_upper_bound(
            plan.page as u64 - 1,
            0xffff_fffe,
            plan.limit as int,
            0xffff_ffff,
        );
    }
    let offset: u64 = (plan.page as u64 - 1) * (plan.limit as u64);
    push_u64(&mut text, offset);
    proof {
        assert(text@ =~= search_sql(q));
    }
    (text, parameters)
}

} // verus!
