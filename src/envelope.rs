//! The uniform success/error reply, built from the upstream's query
//! envelope or from a statement page.

use crate::ledger::{
    extract_ledger, ledger_spec, raw_lines_of, records_of, transaction_record, LedgerSelectors,
};
use crate::markup::valid_selector;
use crate::markup::ScrapeError;
use crate::table::{extract_table, table_of, table_selectors_valid, TableRecord};
use vstd::prelude::*;

verus! {

/// A failed reply: `success` is false and `error` says why.
pub struct ErrorResult {
    pub error: String,
    pub success: bool,
}

impl ErrorResult {
    pub fn new(error: String) -> (r: ErrorResult)
        ensures
            r.error == error,
            !r.success,
    {
        ErrorResult { error, success: false }
    }
}

/// A successful reply: `success` is true and `data` holds the records.
pub struct SuccessResult {
    pub success: bool,
    pub data: Vec<TableRecord>,
}

impl SuccessResult {
    pub fn new(data: Vec<TableRecord>) -> (r: SuccessResult)
        ensures
            r.success,
            r.data == data,
    {
        SuccessResult { success: true, data }
    }

    /// A successful reply with no records.
    pub fn default() -> (r: SuccessResult)
        ensures
            r.success,
            r.data@.len() == 0,
    {
        SuccessResult { success: true, data: Vec::new() }
    }
}

/// What the upstream answers to a query: whether it succeeded, its error
/// message, and the HTML of the result table.
pub struct QueryEnvelope {
    pub success: bool,
    pub error: Option<String>,
    pub table: Option<String>,
}

/// The message of a failed upstream query that gave none.
pub open spec fn fallback_message() -> Seq<char> {
    "Something went wrong"@
}

impl ScrapeError {
    /// The error as text for a reply.
    pub fn message(&self) -> (r: String)
        ensures
            r@ == match self {
                ScrapeError::InvalidSelector(s) => "invalid CSS selector: "@ + s@,
                ScrapeError::BadAmount(s) => "not a decimal amount: "@ + s@,
            },
    {
        match self {
            ScrapeError::InvalidSelector(s) => {
                let mut m = String::from_str("invalid CSS selector: ");
                m.append(s.as_str());
                m
            },
            ScrapeError::BadAmount(s) => {
                let mut m = String::from_str("not a decimal amount: ");
                m.append(s.as_str());
                m
            },
        }
    }
}

/// The reply to a query: the upstream's error (or the fallback message) when
/// it failed, no records when it succeeded without a table, else the records
/// of its table.
pub fn query_response(env: QueryEnvelope) -> (r: Result<SuccessResult, ErrorResult>)
    ensures
        !env.success ==> r is Err && !r->Err_0.success && r->Err_0.error@ == match env.error {
            Some(e) => e@,
            None => fallback_message(),
        },
        env.success && env.table is None ==> r is Ok && r->Ok_0.success && r->Ok_0.data@.len() == 0,
        env.success && env.table is Some ==> (r is Ok <==> table_selectors_valid()),
        env.success && env.table is Some && r is Ok ==> r->Ok_0.success && r->Ok_0.data@.len()
            == table_of(env.table->0@).len() && forall|i: int|
            0 <= i < r->Ok_0.data@.len() ==> (#[trigger] r->Ok_0.data@[i]).wf() && r->Ok_0.data@[i]@
                == table_of(env.table->0@)[i],
        r is Err ==> !r->Err_0.success,
{
    if env.success {
        match env.table {
            Some(t) => match extract_table(t.as_str()) {
                Ok(records) => Ok(SuccessResult::new(records)),
                Err(e) => Err(ErrorResult::new(e.message())),
            },
            None => Ok(SuccessResult::default()),
        }
    } else {
        match env.error {
            Some(e) => Err(ErrorResult::new(e)),
            None => Err(ErrorResult::new(String::from_str("Something went wrong"))),
        }
    }
}

pub open spec fn standard_selectors_valid() -> bool {
    valid_selector(".flex-table .transaction"@) && valid_selector(".datecell"@) && valid_selector(
        ".change"@,
    ) && valid_selector("span:nth-child(6)"@)
}

/// The ledger of a statement page under the standard selectors, negated
/// when `negate` is `Some(true)`.
pub open spec fn standard_ledger(html: Seq<char>, negate: Option<bool>) -> Option<
    Seq<crate::ledger::TransactionView>,
> {
    ledger_spec(
        raw_lines_of(html, ".flex-table .transaction"@, ".datecell"@, ".change"@, "span:nth-child(6)"@),
        negate == Some(true),
    )
}

/// The reply to an account query: the ledger of the statement page, negated
/// when `negate` is `Some(true)`, each transaction as a record.
pub fn account_response(html: &str, negate: Option<bool>) -> (r: Result<SuccessResult, ErrorResult>)
    ensures
        standard_selectors_valid() ==> (r is Ok <==> standard_ledger(html@, negate) is Some),
        !standard_selectors_valid() ==> r is Err,
        r is Ok ==> r->Ok_0.success && r->Ok_0.data@.len() == standard_ledger(html@, negate)->0.len()
            && forall|i: int|
            0 <= i < r->Ok_0.data@.len() ==> (#[trigger] r->Ok_0.data@[i]).wf() && r->Ok_0.data@[i]@
                == transaction_record(standard_ledger(html@, negate)->0[i]),
        r is Err ==> !r->Err_0.success,
{
    let sel = LedgerSelectors::standard();
    let flip = match negate {
        Some(b) => b,
        None => false,
    };
    match extract_ledger(html, &sel, flip) {
        Ok(txns) => Ok(SuccessResult::new(records_of(&txns))),
        Err(e) => Err(ErrorResult::new(e.message())),
    }
}

} // verus!
