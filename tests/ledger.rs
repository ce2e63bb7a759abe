use ledger_scrape::amount::Amount;
use ledger_scrape::envelope::{account_response, ErrorResult, SuccessResult};
use ledger_scrape::ledger::{extract_ledger, ledger_from_lines, LedgerSelectors, RawLine, Transaction};
use ledger_scrape::markup::ScrapeError;

fn line(date: &str, change: &str, balance: &str) -> RawLine {
    RawLine { date: date.to_string(), change: change.to_string(), balance: balance.to_string() }
}

fn triple(t: &Transaction) -> (String, String, String) {
    (t.date.clone(), t.changed.render(), t.balance.render())
}

fn owned(d: &str, c: &str, b: &str) -> (String, String, String) {
    (d.to_string(), c.to_string(), b.to_string())
}

#[test]
fn dedup_then_reverse() {
    let lines = vec![
        line("2024-01-01", "100 CNY", "500 CNY"),
        line("2024-01-01", "999 CNY", "999 CNY"),
        line("2024-01-02", "-50 CNY", "450 CNY"),
    ];
    let out: Vec<_> = ledger_from_lines(&lines, false).ok().unwrap().iter().map(triple).collect();
    assert_eq!(out, vec![owned("2024-01-02", "-50", "450"), owned("2024-01-01", "100", "500")]);
}

#[test]
fn negate_flips_both_amounts() {
    let lines = vec![
        line("2024-01-01", "100 CNY", "500 CNY"),
        line("2024-01-02", "-50 CNY", "450 CNY"),
        line("2024-01-03", "0 CNY", "0.00 CNY"),
    ];
    let out: Vec<_> = ledger_from_lines(&lines, true).ok().unwrap().iter().map(triple).collect();
    assert_eq!(
        out,
        vec![
            owned("2024-01-03", "0", "0"),
            owned("2024-01-02", "50", "-450"),
            owned("2024-01-01", "-100", "-500"),
        ]
    );
}

#[test]
fn negate_twice_is_identity() {
    for text in ["12.5 CNY", "-7", "+3.", ".25", "0"] {
        let a = Amount::parse(text).unwrap();
        assert_eq!(a.negate().negate().render(), a.render());
    }
    assert_eq!(Amount::parse("-0").unwrap().render(), "-0");
    assert_eq!(Amount::parse("-0").unwrap().negate().negate().render(), "0");
}

#[test]
fn duplicate_date_with_bad_amount_is_skipped() {
    let lines = vec![line(" 2024-02-01 ", "1 CNY", "2 CNY"), line("2024-02-01", "oops", "oops")];
    let out: Vec<_> = ledger_from_lines(&lines, false).ok().unwrap().iter().map(triple).collect();
    assert_eq!(out, vec![owned("2024-02-01", "1", "2")]);
}

#[test]
fn bad_amount_fails() {
    let lines = vec![line("2024-02-01", "1 CNY", "2 CNY"), line("2024-02-02", "12x CNY", "2 CNY")];
    match ledger_from_lines(&lines, false) {
        Err(ScrapeError::BadAmount(s)) => assert_eq!(s, "12x CNY"),
        _ => panic!("expected a bad amount"),
    }
}

#[test]
fn amount_parsing() {
    assert_eq!(Amount::parse("  1,000 CNY").map(|a| a.render()), None);
    assert_eq!(Amount::parse("CNY").map(|a| a.render()), None);
    assert_eq!(Amount::parse("1.2.3").map(|a| a.render()), None);
    assert_eq!(Amount::parse("\u{a0}-12.30\tCNY ").map(|a| a.render()), Some("-12.3".to_string()));
    assert_eq!(Amount::parse("+4 CNY").map(|a| a.render()), Some("4".to_string()));
}

#[test]
fn amount_canonical_form() {
    let r = |t: &str| Amount::parse(t).map(|a| a.render());
    assert_eq!(r("100.00 CNY"), Some("100".to_string()));
    assert_eq!(r("007.50"), Some("7.5".to_string()));
    assert_eq!(r(".5"), Some("0.5".to_string()));
    assert_eq!(r("5."), Some("5".to_string()));
    assert_eq!(r("-0.000"), Some("-0".to_string()));
    assert_eq!(r("000"), Some("0".to_string()));
    assert_eq!(r("1CNY2"), Some("12".to_string()));
}

#[test]
fn empty_ledger() {
    let out = ledger_from_lines(&Vec::new(), true).ok().unwrap();
    assert_eq!(out.len(), 0);
}

const PAGE: &str = "<html><body><ol class=\"flex-table\">\
<li class=\"transaction\"><span class=\"datecell\"> 2024-01-01 </span><span>a</span><span>b</span><span>c</span><span class=\"change\">100 CNY</span><span>500 CNY</span></li>\
<li class=\"transaction\"><span class=\"datecell\">2024-01-01</span><span>a</span><span>b</span><span>c</span><span class=\"change\">999 CNY</span><span>999 CNY</span></li>\
<li class=\"transaction\"><span class=\"datecell\">2024-01-02</span><span>a</span><span>b</span><span>c</span><span class=\"change\">-50 CNY</span><span>450 CNY</span></li>\
</ol></body></html>";

#[test]
fn ledger_from_page() {
    let sel = LedgerSelectors::standard();
    let out: Vec<_> = extract_ledger(PAGE, &sel, false).ok().unwrap().iter().map(triple).collect();
    assert_eq!(out, vec![owned("2024-01-02", "-50", "450"), owned("2024-01-01", "100", "500")]);
}

#[test]
fn invalid_selector_is_reported() {
    let mut sel = LedgerSelectors::standard();
    sel.change = "[[".to_string();
    match extract_ledger(PAGE, &sel, false) {
        Err(ScrapeError::InvalidSelector(s)) => assert_eq!(s, "[["),
        _ => panic!("expected an invalid selector"),
    }
}

#[test]
fn account_reply_records() {
    let r: SuccessResult = account_response(PAGE, Some(true)).ok().unwrap();
    assert!(r.success);
    assert_eq!(r.data.len(), 2);
    assert_eq!(r.data[0].get("date"), Some("2024-01-02".to_string()));
    assert_eq!(r.data[0].get("changed"), Some("50".to_string()));
    assert_eq!(r.data[0].get("balance"), Some("-450".to_string()));
    assert_eq!(r.data[1].get("changed"), Some("-100".to_string()));
    assert_eq!(r.data[1].len(), 3);
}

#[test]
fn account_reply_error() {
    let page = "<div class=\"flex-table\"><p class=\"transaction\"><span class=\"datecell\">d</span><span class=\"change\">x</span></p></div>";
    let e: ErrorResult = account_response(page, None).err().unwrap();
    assert!(!e.success);
    assert_eq!(e.error, "not a decimal amount: x");
}
