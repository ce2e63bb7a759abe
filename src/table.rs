//! Records of field name to text, and the positional join of header titles
//! with the cells of data rows.

use crate::markup::{select_texts, selected_texts, selector_is_valid, valid_selector, ScrapeError};
use crate::text::{trim, trim_str};
use vstd::prelude::*;

verus! {

/// The map that a sequence of (key, value) pairs describes when each pair is
/// inserted in turn: a later pair overrides an earlier one with the same key.
pub open spec fn pairs_map(s: Seq<(Seq<char>, Seq<char>)>) -> Map<Seq<char>, Seq<char>>
    decreases s.len(),
{
    if s.len() == 0 {
        Map::empty()
    } else {
        pairs_map(s.drop_last()).insert(s.last().0, s.last().1)
    }
}

pub open spec fn pairs_view(v: Seq<(String, String)>) -> Seq<(Seq<char>, Seq<char>)> {
    v.map_values(|p: (String, String)| (p.0@, p.1@))
}

pub open spec fn keys_distinct(s: Seq<(Seq<char>, Seq<char>)>) -> bool {
    forall|i: int, j: int| 0 <= i < j < s.len() ==> s[i].0 != s[j].0
}

/// A record: a map from field name to text, held as pairs with distinct keys.
pub struct TableRecord {
    entries: Vec<(String, String)>,
}

impl View for TableRecord {
    type V = Map<Seq<char>, Seq<char>>;

    closed spec fn view(&self) -> Map<Seq<char>, Seq<char>> {
        pairs_map(pairs_view(self.entries@))
    }
}

proof fn lemma_lookup(s: Seq<(Seq<char>, Seq<char>)>, i: int)
    requires
        keys_distinct(s),
        0 <= i < s.len(),
    ensures
        pairs_map(s).contains_key(s[i].0),
        pairs_map(s)[s[i].0] == s[i].1,
    decreases s.len(),
{
    if i < s.len() - 1 {
        lemma_lookup(s.drop_last(), i);
    }
}

proof fn lemma_absent(s: Seq<(Seq<char>, Seq<char>)>, k: Seq<char>)
    requires
        forall|i: int| 0 <= i < s.len() ==> s[i].0 != k,
    ensures
        !pairs_map(s).contains_key(k),
    decreases s.len(),
{
    if s.len() > 0 {
        lemma_absent(s.drop_last(), k);
    }
}

proof fn lemma_update(s: Seq<(Seq<char>, Seq<char>)>, i: int, v: Seq<char>)
    requires
        keys_distinct(s),
        0 <= i < s.len(),
    ensures
        pairs_map(s.update(i, (s[i].0, v))) == pairs_map(s).insert(s[i].0, v),
    decreases s.len(),
{
    let t = s.update(i, (s[i].0, v));
    if i == s.len() - 1 {
        assert(t.drop_last() == s.drop_last());
        assert(pairs_map(t) =~= pairs_map(s).insert(s[i].0, v));
    } else {
        assert(t.drop_last() == s.drop_last().update(i, (s[i].0, v)));
        lemma_update(s.drop_last(), i, v);
        assert(s.last().0 != s[i].0);
        assert(pairs_map(t) =~= pairs_map(s).insert(s[i].0, v));
    }
}

impl TableRecord {
    pub closed spec fn wf(&self) -> bool {
        keys_distinct(pairs_view(self.entries@))
    }

    /// A record with no fields.
    pub fn new() -> (r: TableRecord)
        ensures
            r.wf(),
            r@ == Map::<Seq<char>, Seq<char>>::empty(),
    {
        TableRecord { entries: Vec::new() }
    }

    /// Sets `key` to `value`, replacing any earlier value of `key`.
    pub fn insert(&mut self, key: String, value: String)
        requires
            old(self).wf(),
        ensures
            final(self).wf(),
            final(self)@ == old(self)@.insert(key@, value@),
    {
        let ghost s = pairs_view(self.entries@);
        let mut i: usize = 0;
        while i < self.entries.len()
            invariant
                s == pairs_view(self.entries@),
                s == pairs_view(old(self).entries@),
                keys_distinct(s),
                i <= self.entries@.len(),
                forall|j: int| 0 <= j < i ==> s[j].0 != key@,
            decreases self.entries@.len() - i,
        {
            if self.entries[i].0 == key {
                assert(s[i as int].0 == key@);
                self.entries[i] = (key, value);
                proof {
                    assert(pairs_view(self.entries@) == s.update(i as int, (s[i as int].0, value@)));
                    lemma_update(s, i as int, value@);
                }
                return;
            }
            i = i + 1;
        }
        self.entries.push((key, value));
        proof {
            assert(pairs_view(self.entries@) == s.push((key@, value@)));
            assert(pairs_view(self.entries@).drop_last() == s);
        }
    }

    /// The value of `key`, if the record has one.
    pub fn get(&self, key: &str) -> (r: Option<String>)
        requires
            self.wf(),
        ensures
            r is Some <==> self@.contains_key(key@),
            r is Some ==> r->0@ == self@[key@],
    {
        let ghost s = pairs_view(self.entries@);
        let wanted = String::from_str(key);
        let mut i: usize = 0;
        while i < self.entries.len()
            invariant
                s == pairs_view(self.entries@),
                keys_distinct(s),
                wanted@ == key@,
                i <= self.entries@.len(),
                forall|j: int| 0 <= j < i ==> s[j].0 != key@,
            decreases self.entries@.len() - i,
        {
            if self.entries[i].0 == wanted {
                proof {
                    lemma_lookup(s, i as int);
                }
                return Some(self.entries[i].1.clone());
            }
            i = i + 1;
        }
        proof {
            lemma_absent(s, key@);
        }
        None
    }

    /// The number of fields.
    pub fn len(&self) -> (r: usize)
        requires
            self.wf(),
        ensures
            r == self@.len(),
    {
        proof {
            lemma_len(pairs_view(self.entries@));
        }
        self.entries.len()
    }

    /// The fields as (name, text) pairs, names distinct, in no promised order.
    pub fn into_pairs(self) -> (r: Vec<(String, String)>)
        requires
            self.wf(),
        ensures
            keys_distinct(pairs_view(r@)),
            pairs_map(pairs_view(r@)) == self@,
    {
        self.entries
    }
}

proof fn lemma_len(s: Seq<(Seq<char>, Seq<char>)>)
    requires
        keys_distinct(s),
    ensures
        pairs_map(s).dom().finite(),
        pairs_map(s).len() == s.len(),
    decreases s.len(),
{
    if s.len() > 0 {
        lemma_len(s.drop_last());
        lemma_absent(s.drop_last(), s.last().0);
    }
}

/// The record of one data row: the cell at position `i` is stored under the
/// title at position `i`; a cell without a title is dropped, and of two equal
/// titles the later position wins.
pub open spec fn record_of(titles: Seq<Seq<char>>, cells: Seq<Seq<char>>) -> Map<Seq<char>, Seq<char>>
    decreases cells.len(),
{
    if cells.len() == 0 {
        Map::empty()
    } else {
        let k = cells.len() - 1;
        let prev = record_of(titles, cells.drop_last());
        if k < titles.len() {
            prev.insert(titles[k], cells[k])
        } else {
            prev
        }
    }
}

pub open spec fn min(a: int, b: int) -> int {
    if a <= b {
        a
    } else {
        b
    }
}

/// Builds the record of one row from the titles and the row's cells, by
/// position.
pub fn build_record(titles: &Vec<String>, cells: &Vec<String>) -> (r: TableRecord)
    ensures
        r.wf(),
        r@ == record_of(titles.deep_view(), cells.deep_view()),
{
    let mut r = TableRecord::new();
    let mut i: usize = 0;
    while i < cells.len()
        invariant
            i <= cells@.len(),
            r.wf(),
            r@ == record_of(titles.deep_view(), cells.deep_view().take(i as int)),
        decreases cells@.len() - i,
    {
        proof {
            assert(cells.deep_view().take(i + 1).drop_last() == cells.deep_view().take(i as int));
        }
        if i < titles.len() {
            r.insert(titles[i].clone(), cells[i].clone());
        }
        i = i + 1;
    }
    proof {
        assert(cells.deep_view().take(i as int) == cells.deep_view());
    }
    r
}

/// One record per row, in row order, each joined with `titles` by position.
pub fn records_from_cells(titles: &Vec<String>, rows: &Vec<Vec<String>>) -> (r: Vec<TableRecord>)
    ensures
        r@.len() == rows@.len(),
        forall|i: int| 0 <= i < r@.len() ==> (#[trigger] r@[i]).wf(),
        forall|i: int|
            0 <= i < r@.len() ==> (#[trigger] r@[i])@ == record_of(
                titles.deep_view(),
                rows.deep_view()[i],
            ),
{
    let mut r: Vec<TableRecord> = Vec::new();
    let mut i: usize = 0;
    while i < rows.len()
        invariant
            i <= rows@.len(),
            r@.len() == i,
            forall|j: int| 0 <= j < i ==> (#[trigger] r@[j]).wf(),
            forall|j: int|
                0 <= j < i ==> (#[trigger] r@[j])@ == record_of(
                    titles.deep_view(),
                    rows.deep_view()[j],
                ),
        decreases rows@.len() - i,
    {
        let rec = build_record(titles, &rows[i]);
        r.push(rec);
        i = i + 1;
    }
    r
}

/// A row's record has exactly the titles that stand at the positions of its
/// cells: a field for each cell that has a title, and no other.
pub proof fn lemma_record_keys(titles: Seq<Seq<char>>, cells: Seq<Seq<char>>, key: Seq<char>)
    ensures
        record_of(titles, cells).contains_key(key) <==> exists|i: int|
            0 <= i < min(titles.len() as int, cells.len() as int) && titles[i] == key,
    decreases cells.len(),
{
    if cells.len() > 0 {
        let k = cells.len() - 1;
        lemma_record_keys(titles, cells.drop_last(), key);
        if record_of(titles, cells).contains_key(key) {
            if k < titles.len() && titles[k] == key {
                assert(0 <= k < min(titles.len() as int, cells.len() as int));
            } else {
                let i = choose|i: int|
                    0 <= i < min(titles.len() as int, cells.drop_last().len() as int) && titles[i]
                        == key;
                assert(0 <= i < min(titles.len() as int, cells.len() as int));
            }
        } else {
            assert forall|i: int|
                0 <= i < min(titles.len() as int, cells.len() as int) implies titles[i] != key by {
                if i < k {
                    assert(0 <= i < min(titles.len() as int, cells.drop_last().len() as int));
                }
            }
        }
    }
}

/// Of several cells under equal titles, the one at the last position is the
/// value of that title in the record.
pub proof fn lemma_last_title_wins(titles: Seq<Seq<char>>, cells: Seq<Seq<char>>, j: int)
    requires
        0 <= j < min(titles.len() as int, cells.len() as int),
        forall|k: int|
            j < k < min(titles.len() as int, cells.len() as int) ==> titles[k] != titles[j],
    ensures
        record_of(titles, cells).contains_key(titles[j]),
        record_of(titles, cells)[titles[j]] == cells[j],
    decreases cells.len(),
{
    let k = cells.len() - 1;
    if j < k {
        lemma_last_title_wins(titles, cells.drop_last(), j);
        assert(cells.drop_last()[j] == cells[j]);
        if k < titles.len() {
            assert(titles[k] != titles[j]);
        }
    }
}

/// Each text of `v`, trimmed.
pub open spec fn trim_each(v: Seq<Seq<char>>) -> Seq<Seq<char>> {
    v.map_values(|t: Seq<char>| trim(t))
}

/// The column titles: the trimmed texts of the header cells of every header
/// row, in order.
pub open spec fn header_titles(rows: Seq<Seq<Seq<Seq<char>>>>) -> Seq<Seq<char>>
    decreases rows.len(),
{
    if rows.len() == 0 {
        Seq::empty()
    } else {
        header_titles(rows.drop_last()) + trim_each(rows.last()[0])
    }
}

/// The records of an HTML table: one per data row, in row order, each the
/// positional join of the header titles with the row's trimmed cell texts.
pub open spec fn table_of(html: Seq<char>) -> Seq<Map<Seq<char>, Seq<char>>> {
    let head = selected_texts(html, "thead tr"@, seq!["th"@]);
    let body = selected_texts(html, "tbody tr"@, seq!["td"@]);
    Seq::new(body.len(), |i: int| record_of(header_titles(head), trim_each(body[i][0])))
}

pub open spec fn table_selectors_valid() -> bool {
    valid_selector("thead tr"@) && valid_selector("th"@) && valid_selector("tbody tr"@)
        && valid_selector("td"@)
}

fn trim_all(v: &Vec<String>) -> (r: Vec<String>)
    ensures
        r.deep_view() == trim_each(v.deep_view()),
{
    let mut r: Vec<String> = Vec::new();
    let mut i: usize = 0;
    while i < v.len()
        invariant
            i <= v@.len(),
            r@.len() == i,
            forall|j: int| 0 <= j < i ==> (#[trigger] r@[j])@ == trim(v@[j]@),
        decreases v@.len() - i,
    {
        r.push(trim_str(v[i].as_str()));
        i = i + 1;
    }
    proof {
        assert(r.deep_view() =~= trim_each(v.deep_view()));
    }
    r
}

fn check_selector(sel: &str) -> (r: Result<(), ScrapeError>)
    ensures
        r is Ok <==> valid_selector(sel@),
{
    if selector_is_valid(sel) {
        Ok(())
    } else {
        Err(ScrapeError::InvalidSelector(String::from_str(sel)))
    }
}

/// The records of the table in `html`: header cells are `th` elements of the
/// rows of `thead`, data cells are `td` elements of the rows of `tbody`.
pub fn extract_table(html: &str) -> (r: Result<Vec<TableRecord>, ScrapeError>)
    ensures
        r is Ok <==> table_selectors_valid(),
        r is Ok ==> r->Ok_0@.len() == table_of(html@).len(),
        r is Ok ==> forall|i: int|
            0 <= i < r->Ok_0@.len() ==> (#[trigger] r->Ok_0@[i]).wf() && r->Ok_0@[i]@
                == table_of(html@)[i],
{
    check_selector("thead tr")?;
    check_selector("th")?;
    check_selector("tbody tr")?;
    check_selector("td")?;
    let th = vec![String::from_str("th")];
    let td = vec![String::from_str("td")];
    proof {
        assert(th.deep_view() =~= seq!["th"@]);
        assert(td.deep_view() =~= seq!["td"@]);
    }
    let head = select_texts(html, "thead tr", &th);
    let body = select_texts(html, "tbody tr", &td);
    let mut titles: Vec<String> = Vec::new();
    let mut i: usize = 0;
    while i < head.len()
        invariant
            i <= head@.len(),
            forall|j: int| 0 <= j < head@.len() ==> (#[trigger] head@[j])@.len() == 1,
            titles.deep_view() == header_titles(head.deep_view().take(i as int)),
        decreases head@.len() - i,
    {
        let mut cells = trim_all(&head[i][0]);
        let ghost before = titles.deep_view();
        titles.append(&mut cells);
        i = i + 1;
        proof {
            assert(head.deep_view().take(i as int).drop_last() == head.deep_view().take(i - 1));
            assert(titles.deep_view() =~= header_titles(head.deep_view().take(i as int)));
        }
    }
    proof {
        assert(head.deep_view().take(i as int) == head.deep_view());
    }
    let mut rows: Vec<Vec<String>> = Vec::new();
    let mut k: usize = 0;
    while k < body.len()
        invariant
            k <= body@.len(),
            forall|j: int| 0 <= j < body@.len() ==> (#[trigger] body@[j])@.len() == 1,
            rows@.len() == k,
            forall|j: int|
                0 <= j < k ==> (#[trigger] rows@[j]).deep_view() == trim_each(
                    body@[j]@[0].deep_view(),
                ),
        decreases body@.len() - k,
    {
        rows.push(trim_all(&body[k][0]));
        k = k + 1;
    }
    let records = records_from_cells(&titles, &rows);
    proof {
        assert forall|j: int| 0 <= j < rows@.len() implies rows.deep_view()[j] == trim_each(
            body.deep_view()[j][0],
        ) by {
            assert(rows.deep_view()[j] == rows@[j].deep_view());
            assert(body.deep_view()[j] == body@[j].deep_view());
            assert(body@[j].deep_view()[0] == body@[j]@[0].deep_view());
        }
    }
    Ok(records)
}

} // verus!
