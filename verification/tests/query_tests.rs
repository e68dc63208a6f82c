use agent_hub::query::{build_search_plan, render_search_query, Parameters, SqlValue};
use agent_hub::types::{LogFilter, LogQueryParams, OrderBy, QueryError, TimeRange};

fn no_params() -> LogQueryParams {
    LogQueryParams {
        filter: None,
        search: None,
        time: None,
        order_by: None,
        page: None,
        item_per_page: None,
    }
}

#[test]
fn empty_request_plans_no_predicates() {
    let plan = build_search_plan(no_params()).unwrap();
    assert!(plan.node_names.is_none());
    assert!(plan.levels.is_none());
    assert!(plan.targets.is_none());
    assert!(plan.search.is_none());
    assert!(plan.from_time.is_none());
    assert!(plan.to_time.is_none());
    assert_eq!(plan.order_by, OrderBy::ASC);
    assert_eq!(plan.limit, 100);
    assert_eq!(plan.page, 1);
}

#[test]
fn each_set_part_contributes_exactly_its_predicate() {
    let mut params = no_params();
    params.filter = Some(LogFilter {
        node_names: vec!["node-a".to_string()],
        levels: vec![],
        targets: vec!["net".to_string()],
    });
    params.search = Some("boot".to_string());
    let plan = build_search_plan(params).unwrap();
    assert_eq!(plan.node_names, Some(vec!["node-a".to_string()]));
    assert!(plan.levels.is_none());
    assert_eq!(plan.targets, Some(vec!["net".to_string()]));
    assert_eq!(plan.search, Some("boot".to_string()));
    assert!(plan.from_time.is_none());
    assert!(plan.to_time.is_none());
}

#[test]
fn levels_are_upper_cased_and_empty_search_is_dropped() {
    let mut params = no_params();
    params.filter = Some(LogFilter {
        node_names: vec![],
        levels: vec!["error".to_string(), "Warn".to_string()],
        targets: vec![],
    });
    params.search = Some("".to_string());
    let plan = build_search_plan(params).unwrap();
    assert_eq!(plan.levels, Some(vec!["ERROR".to_string(), "WARN".to_string()]));
    assert!(plan.search.is_none());
}

#[test]
fn page_zero_is_invalid_input() {
    let mut params = no_params();
    params.page = Some(0);
    match build_search_plan(params) {
        Err(e) => assert_eq!(e, QueryError::InvalidPage),
        Ok(_) => panic!("page 0 must be rejected"),
    }
}

#[test]
fn bare_query_text_matches_all_rows() {
    let plan = build_search_plan(no_params()).unwrap();
    let (text, parameters) = render_search_query(plan);
    assert_eq!(
        text,
        "SELECT * FROM logs  ORDER BY timestamp ASC, id ASC LIMIT 100 OFFSET 0"
    );
    assert!(parameters.get().is_empty());
}

#[test]
fn full_query_binds_every_value_as_a_parameter() {
    let mut params = no_params();
    params.filter = Some(LogFilter {
        node_names: vec!["node-a".to_string()],
        levels: vec!["error".to_string()],
        targets: vec!["net".to_string()],
    });
    params.search = Some("o'brien".to_string());
    params.time = Some(TimeRange { from_time: Some(5), to_time: Some(9) });
    params.order_by = Some(OrderBy::DESC);
    params.page = Some(3);
    params.item_per_page = Some(20);
    let plan = build_search_plan(params).unwrap();
    let (text, parameters) = render_search_query(plan);
    assert_eq!(
        text,
        "SELECT * FROM logs WHERE name = ANY($1) AND level = ANY($2) AND target = ANY($3) \
         AND message ILIKE $4 AND timestamp > $5 AND timestamp < $6 \
         ORDER BY timestamp DESC, id DESC LIMIT 20 OFFSET 40"
    );
    let binds = parameters.get();
    assert_eq!(binds.len(), 6);
    assert!(matches!(&binds[0], SqlValue::Texts(v) if v == &vec!["node-a".to_string()]));
    assert!(matches!(&binds[1], SqlValue::Texts(v) if v == &vec!["ERROR".to_string()]));
    assert!(matches!(&binds[2], SqlValue::Texts(v) if v == &vec!["net".to_string()]));
    // the search text travels %-wrapped as a bound value, never in the text
    assert!(matches!(&binds[3], SqlValue::Text(t) if t == "%o'brien%"));
    assert!(matches!(&binds[4], SqlValue::Time(5)));
    assert!(matches!(&binds[5], SqlValue::Time(9)));
    assert!(!text.contains("o'brien"));
}

#[test]
fn placeholders_follow_the_set_predicates() {
    let mut params = no_params();
    params.search = Some("x".to_string());
    params.time = Some(TimeRange { from_time: None, to_time: Some(7) });
    let plan = build_search_plan(params).unwrap();
    let (text, parameters) = render_search_query(plan);
    assert_eq!(
        text,
        "SELECT * FROM logs WHERE message ILIKE $1 AND timestamp < $2 \
         ORDER BY timestamp ASC, id ASC LIMIT 100 OFFSET 0"
    );
    assert_eq!(parameters.get().len(), 2);
}

#[test]
fn parameters_count_from_one() {
    let mut parameters = Parameters::new();
    let first = parameters.add(SqlValue::Time(1));
    let second = parameters.add(SqlValue::Text("x".to_string()));
    assert_eq!(first, 1);
    assert_eq!(second, 2);
    assert_eq!(parameters.get().len(), 2);
}

#[test]
fn text_helpers_fold_and_compare() {
    assert_eq!(agent_hub::text::ascii_upper("WaRn-7"), "WARN-7");
    assert_eq!(agent_hub::text::ascii_lower("WaRn-7"), "warn-7");
    assert!(agent_hub::text::contains_str("hello world", "lo wo"));
    assert!(!agent_hub::text::contains_str("hello", "world"));
    assert!(agent_hub::text::contains_str("anything", ""));
    assert!(agent_hub::text::str_lex_lt("miner", "net"));
    assert!(!agent_hub::text::str_lex_lt("net", "miner"));
    assert!(agent_hub::text::str_lex_lt("net", "nets"));
}

#[test]
fn log_export_path_names_the_node() {
    let good = vec!["log".to_string(), "node-a".to_string()];
    assert_eq!(agent_hub::export::log_export_node(&good), Some(&"node-a".to_string()));
    let wrong_route = vec!["logs".to_string(), "node-a".to_string()];
    assert!(agent_hub::export::log_export_node(&wrong_route).is_none());
    let too_long = vec!["log".to_string(), "node-a".to_string(), "x".to_string()];
    assert!(agent_hub::export::log_export_node(&too_long).is_none());
    let too_short = vec!["log".to_string()];
    assert!(agent_hub::export::log_export_node(&too_short).is_none());
}
