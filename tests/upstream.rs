use ledger_scrape::envelope::{ErrorResult, SuccessResult};
use ledger_scrape::text::trim_str;
use ledger_scrape::upstream::{account_url, parse_flag, query_result_url, refresh_url};

#[test]
fn urls() {
    assert_eq!(refresh_url("http://h:5000/b"), "http://h:5000/b/income_statement/");
    assert_eq!(query_result_url("http://h"), "http://h/api/query_result");
    assert_eq!(account_url("http://h", "Assets:Cash"), "http://h/account/Assets:Cash");
}

#[test]
fn flags() {
    assert_eq!(parse_flag(None), Ok(None));
    assert_eq!(parse_flag(Some("")), Ok(None));
    assert_eq!(parse_flag(Some("true")), Ok(Some(true)));
    assert_eq!(parse_flag(Some("false")), Ok(Some(false)));
    assert!(parse_flag(Some("yes")).is_err());
    assert!(parse_flag(Some("True")).is_err());
}

#[test]
fn results() {
    let e = ErrorResult::new("boom".to_string());
    assert!(!e.success);
    assert_eq!(e.error, "boom");
    let s = SuccessResult::default();
    assert!(s.success);
    assert!(s.data.is_empty());
    let s = SuccessResult::new(Vec::new());
    assert!(s.success);
}

#[test]
fn trimming() {
    assert_eq!(trim_str(" \t a b \n"), "a b");
    assert_eq!(trim_str("\u{3000}x\u{2009}"), "x");
    assert_eq!(trim_str("   "), "");
}
