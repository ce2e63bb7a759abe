use ledger_scrape::envelope::{query_response, QueryEnvelope};
use ledger_scrape::table::{build_record, extract_table, records_from_cells, TableRecord};

fn strings(v: &[&str]) -> Vec<String> {
    v.iter().map(|s| s.to_string()).collect()
}

#[test]
fn record_insert_overwrites() {
    let mut r = TableRecord::new();
    r.insert("a".to_string(), "1".to_string());
    r.insert("b".to_string(), "2".to_string());
    r.insert("a".to_string(), "3".to_string());
    assert_eq!(r.len(), 2);
    assert_eq!(r.get("a"), Some("3".to_string()));
    assert_eq!(r.get("b"), Some("2".to_string()));
    assert_eq!(r.get("c"), None);
}

#[test]
fn join_by_position() {
    let titles = strings(&["date", "amount", "note"]);
    let r = build_record(&titles, &strings(&["2024-01-01", "5"]));
    assert_eq!(r.len(), 2);
    assert_eq!(r.get("date"), Some("2024-01-01".to_string()));
    assert_eq!(r.get("amount"), Some("5".to_string()));
    assert_eq!(r.get("note"), None);
}

#[test]
fn extra_cells_are_dropped() {
    let titles = strings(&["a"]);
    let r = build_record(&titles, &strings(&["1", "2", "3"]));
    assert_eq!(r.len(), 1);
    assert_eq!(r.get("a"), Some("1".to_string()));
}

#[test]
fn duplicate_title_later_wins() {
    let titles = strings(&["x", "y", "x"]);
    let r = build_record(&titles, &strings(&["first", "mid", "last"]));
    assert_eq!(r.len(), 2);
    assert_eq!(r.get("x"), Some("last".to_string()));
    assert_eq!(r.get("y"), Some("mid".to_string()));
}

#[test]
fn one_record_per_row_in_order() {
    let titles = strings(&["k"]);
    let rows = vec![strings(&["1"]), strings(&[]), strings(&["3"])];
    let recs = records_from_cells(&titles, &rows);
    assert_eq!(recs.len(), 3);
    assert_eq!(recs[0].get("k"), Some("1".to_string()));
    assert_eq!(recs[1].len(), 0);
    assert_eq!(recs[2].get("k"), Some("3".to_string()));
}

const TABLE: &str = "<table><thead><tr><th> account </th><th>balance</th></tr></thead>\
<tbody><tr><td>Assets:Cash</td><td>  12.50 CNY </td></tr>\
<tr><td>Assets:Bank</td></tr>\
<tr><td>Income</td><td>-3</td><td>dropped</td></tr></tbody></table>";

#[test]
fn extract_table_from_html() {
    let recs = extract_table(TABLE).ok().unwrap();
    assert_eq!(recs.len(), 3);
    assert_eq!(recs[0].len(), 2);
    assert_eq!(recs[0].get("account"), Some("Assets:Cash".to_string()));
    assert_eq!(recs[0].get("balance"), Some("12.50 CNY".to_string()));
    assert_eq!(recs[1].len(), 1);
    assert_eq!(recs[1].get("account"), Some("Assets:Bank".to_string()));
    assert_eq!(recs[2].len(), 2);
    assert_eq!(recs[2].get("balance"), Some("-3".to_string()));
}

#[test]
fn extract_table_duplicate_headers() {
    let html = "<table><thead><tr><th>v</th><th>v</th></tr></thead>\
<tbody><tr><td>one</td><td>two</td></tr></tbody></table>";
    let recs = extract_table(html).ok().unwrap();
    assert_eq!(recs.len(), 1);
    assert_eq!(recs[0].len(), 1);
    assert_eq!(recs[0].get("v"), Some("two".to_string()));
}

#[test]
fn empty_tbody_gives_success_and_no_rows() {
    let html = "<table><thead><tr><th>a</th></tr></thead><tbody></tbody></table>";
    let env = QueryEnvelope { success: true, error: None, table: Some(html.to_string()) };
    let r = query_response(env).ok().unwrap();
    assert!(r.success);
    assert_eq!(r.data.len(), 0);
}

#[test]
fn query_with_table_gives_records() {
    let env = QueryEnvelope { success: true, error: None, table: Some(TABLE.to_string()) };
    let r = query_response(env).ok().unwrap();
    assert!(r.success);
    assert_eq!(r.data.len(), 3);
    assert_eq!(r.data[1].get("account"), Some("Assets:Bank".to_string()));
}

#[test]
fn upstream_error_is_passed_on() {
    let env = QueryEnvelope { success: false, error: Some("bad query".to_string()), table: None };
    let e = query_response(env).err().unwrap();
    assert!(!e.success);
    assert_eq!(e.error, "bad query");
}

#[test]
fn upstream_error_without_message_gets_fallback() {
    let env = QueryEnvelope { success: false, error: None, table: None };
    let e = query_response(env).err().unwrap();
    assert!(!e.success);
    assert_eq!(e.error, "Something went wrong");
}

#[test]
fn success_without_data_is_empty() {
    let env = QueryEnvelope { success: true, error: None, table: None };
    let r = query_response(env).ok().unwrap();
    assert!(r.success);
    assert_eq!(r.data.len(), 0);
}
