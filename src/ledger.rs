//! The account ledger: transaction lines of a statement page, deduplicated
//! by date (first wins), optionally negated, and returned in reverse order.

use crate::amount::{negated, parse_amount_spec, render_spec, Amount};
use crate::markup::{select_texts, selected_texts, selector_is_valid, valid_selector, ScrapeError};
use crate::table::TableRecord;
use crate::text::{trim, trim_str};
use vstd::prelude::*;

verus! {

/// The texts of one transaction line as found in the page: its date cell,
/// its change cell and its balance cell.
pub struct RawLine {
    pub date: String,
    pub change: String,
    pub balance: String,
}

impl View for RawLine {
    type V = (Seq<char>, Seq<char>, Seq<char>);

    open spec fn view(&self) -> (Seq<char>, Seq<char>, Seq<char>) {
        (self.date@, self.change@, self.balance@)
    }
}

/// One transaction: its date, the change of the balance, and the balance.
pub struct Transaction {
    pub date: String,
    pub changed: Amount,
    pub balance: Amount,
}

pub type TransactionView = (Seq<char>, (bool, Seq<char>), (bool, Seq<char>));

impl View for Transaction {
    type V = TransactionView;

    open spec fn view(&self) -> TransactionView {
        (self.date@, self.changed@, self.balance@)
    }
}

pub open spec fn lines_view(v: Seq<RawLine>) -> Seq<(Seq<char>, Seq<char>, Seq<char>)> {
    v.map_values(|l: RawLine| l@)
}

pub open spec fn transactions_view(v: Seq<Transaction>) -> Seq<TransactionView> {
    v.map_values(|t: Transaction| t@)
}

/// The date by which lines are told apart.
pub open spec fn line_date(l: (Seq<char>, Seq<char>, Seq<char>)) -> Seq<char> {
    trim(l.0)
}

/// The transaction of one line, if both of its amounts are numbers.
pub open spec fn parse_line(l: (Seq<char>, Seq<char>, Seq<char>), negate: bool) -> Option<
    TransactionView,
> {
    match (parse_amount_spec(l.1), parse_amount_spec(l.2)) {
        (Some(c), Some(b)) => Some(
            (
                line_date(l),
                if negate {
                    negated(c)
                } else {
                    c
                },
                if negate {
                    negated(b)
                } else {
                    b
                },
            ),
        ),
        _ => None,
    }
}

/// No earlier line has the date of line `i`.
pub open spec fn is_first(lines: Seq<(Seq<char>, Seq<char>, Seq<char>)>, i: int) -> bool {
    forall|k: int| 0 <= k < i ==> line_date(#[trigger] lines[k]) != line_date(lines[i])
}

/// The positions, among the first `n` lines, of the lines that are the first
/// with their date, in increasing order.
pub open spec fn kept(lines: Seq<(Seq<char>, Seq<char>, Seq<char>)>, n: int) -> Seq<int>
    decreases n,
{
    if n <= 0 {
        Seq::empty()
    } else if is_first(lines, n - 1) {
        kept(lines, n - 1).push(n - 1)
    } else {
        kept(lines, n - 1)
    }
}

/// The ledger of the lines: the kept lines' transactions in reverse order,
/// or `None` when one of the kept lines does not hold numbers.
pub open spec fn ledger_spec(lines: Seq<(Seq<char>, Seq<char>, Seq<char>)>, negate: bool) -> Option<
    Seq<TransactionView>,
> {
    let idx = kept(lines, lines.len() as int);
    if forall|k: int| 0 <= k < idx.len() ==> (#[trigger] parse_line(lines[idx[k]], negate)) is Some {
        Some(
            Seq::new(
                idx.len(),
                |k: int| parse_line(lines[idx[idx.len() - 1 - k]], negate)->0,
            ),
        )
    } else {
        None
    }
}

proof fn lemma_kept_bounds(lines: Seq<(Seq<char>, Seq<char>, Seq<char>)>, n: int)
    ensures
        forall|k: int| 0 <= k < kept(lines, n).len() ==> 0 <= #[trigger] kept(lines, n)[k] < n,
        kept(lines, n).len() <= if n < 0 { 0 } else { n },
    decreases n,
{
    if n > 0 {
        lemma_kept_bounds(lines, n - 1);
    }
}

proof fn lemma_kept_prefix(lines: Seq<(Seq<char>, Seq<char>, Seq<char>)>, m: int, n: int)
    requires
        0 <= m <= n,
    ensures
        kept(lines, m).len() <= kept(lines, n).len(),
        kept(lines, n).take(kept(lines, m).len() as int) == kept(lines, m),
    decreases n - m,
{
    if m < n {
        lemma_kept_prefix(lines, m, n - 1);
        assert(kept(lines, n).take(kept(lines, n - 1).len() as int) == kept(lines, n - 1));
        assert(kept(lines, n).take(kept(lines, m).len() as int) =~= kept(lines, m));
    } else {
        assert(kept(lines, n).take(kept(lines, m).len() as int) =~= kept(lines, m));
    }
}

proof fn lemma_kept_members(lines: Seq<(Seq<char>, Seq<char>, Seq<char>)>, n: int, i: int)
    requires
        0 <= i < n,
    ensures
        kept(lines, n).contains(i) <==> is_first(lines, i),
    decreases n,
{
    lemma_kept_bounds(lines, n - 1);
    if i < n - 1 {
        lemma_kept_members(lines, n - 1, i);
        if is_first(lines, n - 1) {
            assert(kept(lines, n - 1).contains(i) ==> kept(lines, n).contains(i)) by {
                if kept(lines, n - 1).contains(i) {
                    let k = choose|k: int| 0 <= k < kept(lines, n - 1).len() && #[trigger] kept(lines, n - 1)[k] == i;
                    assert(kept(lines, n)[k] == i);
                }
            }
        }
    } else {
        if is_first(lines, n - 1) {
            assert(kept(lines, n).last() == i);
        }
    }
}

/// A line that shares its date with an earlier line is dropped, and the first
/// line with a date is kept.
pub proof fn lemma_first_date_wins(lines: Seq<(Seq<char>, Seq<char>, Seq<char>)>, i: int, j: int)
    requires
        0 <= i < j < lines.len(),
        line_date(lines[i]) == line_date(lines[j]),
    ensures
        !kept(lines, lines.len() as int).contains(j),
        is_first(lines, i) ==> kept(lines, lines.len() as int).contains(i),
{
    lemma_kept_members(lines, lines.len() as int, j);
    lemma_kept_members(lines, lines.len() as int, i);
}

/// With negation, each transaction of the ledger is the one without
/// negation with both amounts negated; the two fail on the same lines.
pub proof fn lemma_negate_flips(lines: Seq<(Seq<char>, Seq<char>, Seq<char>)>)
    ensures
        ledger_spec(lines, true) is Some <==> ledger_spec(lines, false) is Some,
        ledger_spec(lines, true) is Some ==> ledger_spec(lines, true)->0.len() == ledger_spec(
            lines,
            false,
        )->0.len() && forall|k: int|
            0 <= k < ledger_spec(lines, true)->0.len() ==> {
                let t = #[trigger] ledger_spec(lines, true)->0[k];
                let f = ledger_spec(lines, false)->0[k];
                t.0 == f.0 && t.1 == negated(f.1) && t.2 == negated(f.2)
            },
{
    let idx = kept(lines, lines.len() as int);
    assert forall|k: int| 0 <= k < idx.len() implies (parse_line(lines[idx[k]], true) is Some
        <==> parse_line(lines[idx[k]], false) is Some) by {}
    if ledger_spec(lines, true) is Some {
        assert(forall|k: int| 0 <= k < idx.len() ==> (#[trigger] parse_line(lines[idx[k]], false)) is Some);
    }
    if ledger_spec(lines, false) is Some {
        assert(forall|k: int| 0 <= k < idx.len() ==> (#[trigger] parse_line(lines[idx[k]], true)) is Some);
    }
}

fn parse_transaction(line: &RawLine, date: String, negate: bool) -> (r: Result<Transaction, ScrapeError>)
    requires
        date@ == line_date(line@),
    ensures
        r is Ok <==> parse_line(line@, negate) is Some,
        r is Ok ==> r->Ok_0@ == parse_line(line@, negate)->0,
        r is Err ==> r->Err_0 is BadAmount,
{
    let changed = match Amount::parse(line.change.as_str()) {
        Some(a) => a,
        None => {
            return Err(ScrapeError::BadAmount(line.change.clone()));
        },
    };
    let balance = match Amount::parse(line.balance.as_str()) {
        Some(a) => a,
        None => {
            return Err(ScrapeError::BadAmount(line.balance.clone()));
        },
    };
    if negate {
        Ok(Transaction { date, changed: changed.negate(), balance: balance.negate() })
    } else {
        Ok(Transaction { date, changed, balance })
    }
}

spec fn acc_matches(
    av: Seq<TransactionView>,
    lv: Seq<(Seq<char>, Seq<char>, Seq<char>)>,
    n: int,
    negate: bool,
) -> bool {
    &&& av.len() == kept(lv, n).len()
    &&& forall|k: int| 0 <= k < av.len() ==> parse_line(lv[kept(lv, n)[k]], negate) == Some(#[trigger] av[k])
}

fn date_seen_before(dates: &Vec<String>, i: usize) -> (r: bool)
    requires
        i < dates@.len(),
    ensures
        r <==> exists|j: int| 0 <= j < i && (#[trigger] dates@[j])@ == dates@[i as int]@,
{
    let mut k: usize = 0;
    while k < i
        invariant
            i < dates@.len(),
            k <= i,
            forall|j: int| 0 <= j < k ==> (#[trigger] dates@[j])@ != dates@[i as int]@,
        decreases i - k,
    {
        if dates[k] == dates[i] {
            return true;
        }
        k = k + 1;
    }
    false
}

/// The ledger of the given lines: each line that is the first with its
/// (trimmed) date becomes a transaction, negated when `negate` holds, and the
/// transactions come out in the reverse of the lines' order. Fails when a
/// kept line's change or balance is not a number.
pub fn ledger_from_lines(lines: &Vec<RawLine>, negate: bool) -> (r: Result<Vec<Transaction>, ScrapeError>)
    ensures
        r is Ok <==> ledger_spec(lines_view(lines@), negate) is Some,
        r is Ok ==> transactions_view(r->Ok_0@) == ledger_spec(lines_view(lines@), negate)->0,
        r is Err ==> r->Err_0 is BadAmount,
{
    let ghost lv = lines_view(lines@);
    let mut dates: Vec<String> = Vec::new();
    let mut i: usize = 0;
    while i < lines.len()
        invariant
            lv == lines_view(lines@),
            lv.len() == lines@.len(),
            i <= lines@.len(),
            dates@.len() == i,
            forall|k: int| 0 <= k < i ==> (#[trigger] dates@[k])@ == line_date(lv[k]),
        decreases lines@.len() - i,
    {
        dates.push(trim_str(lines[i].date.as_str()));
        i = i + 1;
    }
    let mut acc: Vec<Transaction> = Vec::new();
    let mut i: usize = 0;
    while i < lines.len()
        invariant
            lv == lines_view(lines@),
            lv.len() == lines@.len(),
            i <= lines@.len(),
            dates@.len() == lines@.len(),
            forall|k: int| 0 <= k < lines@.len() ==> (#[trigger] dates@[k])@ == line_date(lv[k]),
            acc_matches(transactions_view(acc@), lv, i as int, negate),
        decreases lines@.len() - i,
    {
        let seen = date_seen_before(&dates, i);
        proof {
            lemma_kept_prefix(lv, i as int, i + 1);
        }
        if !seen {
            assert(is_first(lv, i as int)) by {
                assert forall|k: int| 0 <= k < i implies line_date(#[trigger] lv[k]) != line_date(lv[i as int]) by {
                    assert(dates@[k]@ == line_date(lv[k]));
                }
            }
            assert(lv[i as int] == lines@[i as int]@);
            let t = parse_transaction(&lines[i], dates[i].clone(), negate);
            match t {
                Ok(t) => {
                    let ghost before = acc@;
                    acc.push(t);
                    proof {
                        assert(kept(lv, i + 1) == kept(lv, i as int).push(i as int));
                        assert(transactions_view(acc@) == transactions_view(before).push(acc@.last()@));
                    }
                },
                Err(e) => {
                    proof {
                        let n = lv.len() as int;
                        lemma_kept_prefix(lv, i + 1, n);
                        let pos = kept(lv, i as int).len() as int;
                        assert(kept(lv, i + 1) == kept(lv, i as int).push(i as int));
                        assert(kept(lv, i + 1)[pos] == i);
                        assert(kept(lv, n)[pos] == i);
                        assert(parse_line(lv[kept(lv, n)[pos]], negate) is None);
                    }
                    return Err(e);
                },
            }
        } else {
            assert(!is_first(lv, i as int)) by {
                let j = choose|j: int| 0 <= j < i && (#[trigger] dates@[j])@ == dates@[i as int]@;
                assert(line_date(lv[j]) == line_date(lv[i as int]));
            }
            assert(kept(lv, i + 1) == kept(lv, i as int));
        }
        i = i + 1;
    }
    let ghost idx = kept(lv, lv.len() as int);
    let ghost a0 = acc@;
    proof {
        assert(i as int == lv.len());
        assert forall|k: int| 0 <= k < idx.len() implies (#[trigger] parse_line(lv[idx[k]], negate)) is Some by {
            assert(transactions_view(a0)[k] == a0[k]@);
        }
    }
    let mut out: Vec<Transaction> = Vec::new();
    while acc.len() > 0
        invariant
            acc@.len() <= a0.len(),
            acc@ == a0.take(acc@.len() as int),
            out@.len() == a0.len() - acc@.len(),
            forall|k: int| 0 <= k < out@.len() ==> (#[trigger] out@[k]) == a0[a0.len() - 1 - k],
        decreases acc@.len(),
    {
        let ghost before = acc@;
        match acc.pop() {
            Some(t) => {
                proof {
                    assert(t == a0[before.len() - 1]);
                }
                out.push(t);
            },
            None => {},
        }
        proof {
            assert(acc@ =~= a0.take(acc@.len() as int));
        }
    }
    proof {
        assert forall|k: int| 0 <= k < out@.len() implies transactions_view(out@)[k] == ledger_spec(lv, negate)->0[k] by {
            assert(transactions_view(a0)[a0.len() - 1 - k] == a0[a0.len() - 1 - k]@);
        }
        assert(transactions_view(out@) =~= ledger_spec(lv, negate)->0);
    }
    Ok(out)
}

/// The selectors that locate the parts of a statement page: the transaction
/// lines, and inside each line its date, change and balance cells.
pub struct LedgerSelectors {
    pub lines: String,
    pub date: String,
    pub change: String,
    pub balance: String,
}

impl LedgerSelectors {
    /// The selectors of the upstream statement page. The balance is the sixth
    /// child `span` of a line: it carries no class of its own.
    pub fn standard() -> (r: LedgerSelectors)
        ensures
            r.lines@ == ".flex-table .transaction"@,
            r.date@ == ".datecell"@,
            r.change@ == ".change"@,
            r.balance@ == "span:nth-child(6)"@,
    {
        LedgerSelectors {
            lines: String::from_str(".flex-table .transaction"),
            date: String::from_str(".datecell"),
            change: String::from_str(".change"),
            balance: String::from_str("span:nth-child(6)"),
        }
    }

    pub open spec fn all_valid(&self) -> bool {
        valid_selector(self.lines@) && valid_selector(self.date@) && valid_selector(self.change@)
            && valid_selector(self.balance@)
    }
}

/// The texts one after another.
pub open spec fn concat_texts(s: Seq<Seq<char>>) -> Seq<char>
    decreases s.len(),
{
    if s.len() == 0 {
        Seq::empty()
    } else {
        concat_texts(s.drop_last()) + s.last()
    }
}

/// The transaction lines of a page: for each line, the text of each of its
/// three cells (the texts of all elements that the cell's selector matches).
pub open spec fn raw_lines_of(
    html: Seq<char>,
    lines: Seq<char>,
    date: Seq<char>,
    change: Seq<char>,
    balance: Seq<char>,
) -> Seq<(Seq<char>, Seq<char>, Seq<char>)> {
    selected_texts(html, lines, seq![date, change, balance]).map_values(
        |g: Seq<Seq<Seq<char>>>| (concat_texts(g[0]), concat_texts(g[1]), concat_texts(g[2])),
    )
}

fn concat_all(v: &Vec<String>) -> (r: String)
    ensures
        r@ == concat_texts(v.deep_view()),
{
    let mut r = String::new();
    let mut i: usize = 0;
    while i < v.len()
        invariant
            i <= v@.len(),
            r@ == concat_texts(v.deep_view().take(i as int)),
        decreases v@.len() - i,
    {
        r.append(v[i].as_str());
        i = i + 1;
        proof {
            assert(v.deep_view().take(i as int).drop_last() == v.deep_view().take(i - 1));
        }
    }
    proof {
        assert(v.deep_view().take(i as int) == v.deep_view());
    }
    r
}

/// The ledger of a statement page. Fails with `InvalidSelector` exactly when
/// a selector does not parse, else with `BadAmount` exactly when a kept
/// line's change or balance is not a number.
pub fn extract_ledger(html: &str, sel: &LedgerSelectors, negate: bool) -> (r: Result<
    Vec<Transaction>,
    ScrapeError,
>)
    ensures
        (r is Err && r->Err_0 is InvalidSelector) <==> !sel.all_valid(),
        sel.all_valid() ==> (r is Ok <==> ledger_spec(raw_lines_of(html@, sel.lines@, sel.date@, sel.change@, sel.balance@), negate) is Some),
        r is Ok ==> transactions_view(r->Ok_0@) == ledger_spec(raw_lines_of(html@, sel.lines@, sel.date@, sel.change@, sel.balance@), negate)->0,
{
    if !selector_is_valid(sel.lines.as_str()) {
        return Err(ScrapeError::InvalidSelector(sel.lines.clone()));
    }
    if !selector_is_valid(sel.date.as_str()) {
        return Err(ScrapeError::InvalidSelector(sel.date.clone()));
    }
    if !selector_is_valid(sel.change.as_str()) {
        return Err(ScrapeError::InvalidSelector(sel.change.clone()));
    }
    if !selector_is_valid(sel.balance.as_str()) {
        return Err(ScrapeError::InvalidSelector(sel.balance.clone()));
    }
    let items = vec![sel.date.clone(), sel.change.clone(), sel.balance.clone()];
    proof {
        assert(items.deep_view() =~= seq![sel.date@, sel.change@, sel.balance@]);
    }
    let groups = select_texts(html, sel.lines.as_str(), &items);
    let ghost want = raw_lines_of(html@, sel.lines@, sel.date@, sel.change@, sel.balance@);
    let mut lines: Vec<RawLine> = Vec::new();
    let mut i: usize = 0;
    while i < groups.len()
        invariant
            i <= groups@.len(),
            want.len() == groups@.len(),
            want == raw_lines_of(html@, sel.lines@, sel.date@, sel.change@, sel.balance@),
            groups.deep_view() == selected_texts(html@, sel.lines@, seq![sel.date@, sel.change@, sel.balance@]),
            forall|j: int| 0 <= j < groups@.len() ==> (#[trigger] groups@[j])@.len() == 3,
            lines@.len() == i,
            forall|j: int| 0 <= j < i ==> (#[trigger] lines@[j])@ == want[j],
        decreases groups@.len() - i,
    {
        let g = &groups[i];
        let line = RawLine { date: concat_all(&g[0]), change: concat_all(&g[1]), balance: concat_all(&g[2]) };
        proof {
            assert(groups.deep_view()[i as int] == g.deep_view());
            assert(g.deep_view()[0] == g@[0].deep_view());
            assert(g.deep_view()[1] == g@[1].deep_view());
            assert(g.deep_view()[2] == g@[2].deep_view());
        }
        lines.push(line);
        i = i + 1;
    }
    proof {
        assert(lines_view(lines@) =~= want);
    }
    ledger_from_lines(&lines, negate)
}

/// The key under which a record holds the date.
pub open spec fn date_key() -> Seq<char> {
    seq!['d', 'a', 't', 'e']
}

/// The key under which a record holds the change.
pub open spec fn changed_key() -> Seq<char> {
    seq!['c', 'h', 'a', 'n', 'g', 'e', 'd']
}

/// The key under which a record holds the balance.
pub open spec fn balance_key() -> Seq<char> {
    seq!['b', 'a', 'l', 'a', 'n', 'c', 'e']
}

impl Transaction {
    /// The transaction as a record with the fields `date`, `changed` and
    /// `balance`, the amounts as text.
    pub fn to_record(&self) -> (r: TableRecord)
        ensures
            r.wf(),
            r@ == map![
                date_key() => self.date@,
                changed_key() => render_spec(self.changed@),
                balance_key() => render_spec(self.balance@),
            ],
    {
        proof {
            reveal_strlit("date");
            reveal_strlit("changed");
            reveal_strlit("balance");
            assert("date"@ =~= date_key());
            assert("changed"@ =~= changed_key());
            assert("balance"@ =~= balance_key());
        }
        let mut r = TableRecord::new();
        r.insert(String::from_str("date"), self.date.clone());
        r.insert(String::from_str("changed"), self.changed.render());
        r.insert(String::from_str("balance"), self.balance.render());
        proof {
            assert(r@ =~= map![
                date_key() => self.date@,
                changed_key() => render_spec(self.changed@),
                balance_key() => render_spec(self.balance@),
            ]);
        }
        r
    }
}

/// The record of a transaction, the amounts as text.
pub open spec fn transaction_record(t: TransactionView) -> Map<Seq<char>, Seq<char>> {
    map![
        date_key() => t.0,
        changed_key() => render_spec(t.1),
        balance_key() => render_spec(t.2),
    ]
}

/// The record of each transaction, in order.
pub fn records_of(txns: &Vec<Transaction>) -> (r: Vec<TableRecord>)
    ensures
        r@.len() == txns@.len(),
        forall|i: int|
            0 <= i < r@.len() ==> (#[trigger] r@[i]).wf() && r@[i]@ == transaction_record(txns@[i]@),
{
    let mut r: Vec<TableRecord> = Vec::new();
    let mut i: usize = 0;
    while i < txns.len()
        invariant
            i <= txns@.len(),
            r@.len() == i,
            forall|j: int|
                0 <= j < i ==> (#[trigger] r@[j]).wf() && r@[j]@ == transaction_record(txns@[j]@),
        decreases txns@.len() - i,
    {
        r.push(txns[i].to_record());
        i = i + 1;
    }
    r
}

} // verus!
