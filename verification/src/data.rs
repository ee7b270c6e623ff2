//! Ingestion of parsed rows and the price statistics over clean records.

use crate::model::{clean_csv, cleaned, CleanHouseRecord, DirtyHouseRecord};
use vstd::prelude::*;

verus! {

/// What parsing one data row came to.
#[derive(Debug, Clone, Copy, PartialEq, Eq)]
pub enum RowOutcome {
    /// Every required column held a value of its type.
    Parsed(DirtyHouseRecord),
    /// A required column was missing or did not parse.
    Malformed,
}

/// What opening and reading the source came to.
#[derive(Debug, PartialEq, Eq)]
pub enum FileOutcome {
    /// The source could not be opened.
    Unreadable,
    /// The data rows in the order in which they were read.
    Rows(Vec<RowOutcome>),
}

/// The records of a source and the number of rows that gave none.
#[derive(Debug, PartialEq, Eq)]
pub struct Ingestion {
    pub records: Vec<CleanHouseRecord>,
    pub skipped: usize,
}

/// Why ingestion gave no records at all.
#[derive(Debug, Clone, Copy, PartialEq, Eq)]
pub enum IngestError {
    /// The source could not be opened.
    FileAccess,
}

/// The clean record that one row contributes, if any.
pub open spec fn accepted(row: RowOutcome) -> Option<CleanHouseRecord> {
    match row {
        RowOutcome::Parsed(r) => Some(cleaned(r)),
        RowOutcome::Malformed => None,
    }
}

/// The clean records of the well-formed rows, in row order.
pub open spec fn kept_records(rows: Seq<RowOutcome>) -> Seq<CleanHouseRecord> {
    rows.filter_map(|row: RowOutcome| accepted(row))
}

/// The number of malformed rows.
pub open spec fn skipped_count(rows: Seq<RowOutcome>) -> nat {
    rows.filter(|row: RowOutcome| row is Malformed).len()
}

/// The number of well-formed rows.
pub open spec fn parsed_count(rows: Seq<RowOutcome>) -> nat {
    rows.filter(|row: RowOutcome| row is Parsed).len()
}

/// Reading one more row adds its record, or one skip, and nothing else.
proof fn lemma_next_row(rows: Seq<RowOutcome>, i: int)
    requires
        0 <= i < rows.len(),
    ensures
        rows[i] matches RowOutcome::Parsed(r) ==> {
            &&& kept_records(rows.take(i + 1)) == kept_records(rows.take(i)).push(cleaned(r))
            &&& skipped_count(rows.take(i + 1)) == skipped_count(rows.take(i))
            &&& parsed_count(rows.take(i + 1)) == parsed_count(rows.take(i)) + 1
        },
        rows[i] is Malformed ==> {
            &&& kept_records(rows.take(i + 1)) == kept_records(rows.take(i))
            &&& skipped_count(rows.take(i + 1)) == skipped_count(rows.take(i)) + 1
            &&& parsed_count(rows.take(i + 1)) == parsed_count(rows.take(i))
        },
{
    let next = rows.take(i + 1);
    assert(next.drop_last() == rows.take(i));
    assert(next.last() == rows[i]);
    reveal(Seq::filter);
}

/// Every row is counted once: as a record or as a skip.
pub proof fn lemma_rows_accounted(rows: Seq<RowOutcome>)
    ensures
        kept_records(rows).len() == parsed_count(rows),
        parsed_count(rows) + skipped_count(rows) == rows.len(),
    decreases rows.len(),
{
    if rows.len() == 0 {
        reveal(Seq::filter);
    } else {
        let i = rows.len() - 1;
        lemma_rows_accounted(rows.take(i));
        lemma_next_row(rows, i);
        assert(rows.take(i + 1) == rows);
    }
}

/// The records read so far stay where they are while later rows are read.
pub proof fn lemma_kept_prefix(rows: Seq<RowOutcome>, i: int, j: int)
    requires
        0 <= i <= j <= rows.len(),
    ensures
        kept_records(rows.take(i)).is_prefix_of(kept_records(rows.take(j))),
    decreases j - i,
{
    if i < j {
        lemma_kept_prefix(rows, i, j - 1);
        lemma_next_row(rows, j - 1);
    }
}

/// Row order is kept and skipped rows leave no gap: the record of a
/// well-formed row stands at the index that equals the number of well-formed
/// rows before it.
pub proof fn lemma_record_position(rows: Seq<RowOutcome>, i: int)
    requires
        0 <= i < rows.len(),
        rows[i] is Parsed,
    ensures
        parsed_count(rows.take(i)) < kept_records(rows).len(),
        kept_records(rows)[parsed_count(rows.take(i)) as int] == cleaned(rows[i]->Parsed_0),
{
    let k = parsed_count(rows.take(i)) as int;
    let upto = kept_records(rows.take(i + 1));
    lemma_rows_accounted(rows.take(i));
    lemma_next_row(rows, i);
    assert(upto[k] == cleaned(rows[i]->Parsed_0));
    lemma_kept_prefix(rows, i + 1, rows.len() as int);
    assert(rows.take(rows.len() as int) == rows);
    assert(kept_records(rows).subrange(0, upto.len() as int)[k] == upto[k]);
}

/// Cleans the well-formed rows in order and counts the malformed ones.
pub fn collect_records(rows: &[RowOutcome]) -> (out: Ingestion)
    ensures
        out.records@ == kept_records(rows@),
        out.skipped == skipped_count(rows@),
        out.records.len() + out.skipped == rows.len(),
{
    let mut records: Vec<CleanHouseRecord> = Vec::new();
    let mut skipped: usize = 0;
    let mut i: usize = 0;
    proof {
        reveal(Seq::filter);
    }
    while i < rows.len()
        invariant
            i <= rows.len(),
            records@ == kept_records(rows@.take(i as int)),
            skipped == skipped_count(rows@.take(i as int)),
        decreases rows.len() - i,
    {
        proof {
            lemma_next_row(rows@, i as int);
            lemma_rows_accounted(rows@.take(i as int));
        }
        match rows[i] {
            RowOutcome::Parsed(r) => {
                records.push(clean_csv(r));
            },
            RowOutcome::Malformed => {
                skipped = skipped + 1;
            },
        }
        i = i + 1;
    }
    proof {
        assert(rows@.take(i as int) == rows@);
        lemma_rows_accounted(rows@);
    }
    Ingestion { records, skipped }
}

/// Ingests a source. A source that could not be opened is an error; one that
/// could always gives its records, however many of its rows were malformed.
pub fn process_csv(file: FileOutcome) -> (out: Result<Ingestion, IngestError>)
    ensures
        file is Unreadable ==> out == Err::<Ingestion, IngestError>(IngestError::FileAccess),
        file matches FileOutcome::Rows(rows) ==> {
            &&& out matches Ok(ingestion)
            &&& ingestion.records@ == kept_records(rows@)
            &&& ingestion.skipped == skipped_count(rows@)
            &&& ingestion.records.len() + ingestion.skipped == rows.len()
        },
{
    match file {
        FileOutcome::Unreadable => Err(IngestError::FileAccess),
        FileOutcome::Rows(rows) => Ok(collect_records(rows.as_slice())),
    }
}

/// Count and price figures of a non-empty set of records.
#[derive(Debug, Clone, Copy, PartialEq, Eq)]
pub struct DataStats {
    /// How many records there are.
    pub count: usize,
    /// The sum of all prices.
    pub total_price: u128,
    /// The whole part of the average price.
    pub average_whole: u64,
    /// What the whole part leaves of the sum: the average price is
    /// `average_whole + average_rest / count`.
    pub average_rest: usize,
    /// The highest price.
    pub max_price: u64,
    /// The lowest price.
    pub min_price: u64,
}

/// The sum of the prices of `records`.
pub open spec fn price_sum(records: Seq<CleanHouseRecord>) -> nat
    decreases records.len(),
{
    if records.len() == 0 {
        0
    } else {
        price_sum(records.drop_last()) + records.last().price as nat
    }
}

/// `price` is the price of some record, and no record has a higher one.
pub open spec fn is_max_price(records: Seq<CleanHouseRecord>, price: u64) -> bool {
    &&& exists|i: int| 0 <= i < records.len() && (#[trigger] records[i]).price == price
    &&& forall|i: int| 0 <= i < records.len() ==> (#[trigger] records[i]).price <= price
}

/// `price` is the price of some record, and no record has a lower one.
pub open spec fn is_min_price(records: Seq<CleanHouseRecord>, price: u64) -> bool {
    &&& exists|i: int| 0 <= i < records.len() && (#[trigger] records[i]).price == price
    &&& forall|i: int| 0 <= i < records.len() ==> (#[trigger] records[i]).price >= price
}

/// A sum of prices none of which exceeds `bound` is at most that many times
/// `bound`.
proof fn lemma_price_sum_bound(records: Seq<CleanHouseRecord>, bound: u64)
    requires
        forall|i: int| 0 <= i < records.len() ==> (#[trigger] records[i]).price <= bound,
    ensures
        price_sum(records) <= records.len() * bound,
    decreases records.len(),
{
    if records.len() > 0 {
        let rest = records.drop_last();
        assert forall|i: int| 0 <= i < rest.len() implies (#[trigger] rest[i]).price <= bound by {
            assert(rest[i] == records[i]);
        }
        lemma_price_sum_bound(rest, bound);
        assert(price_sum(records) <= rest.len() * bound + bound);
        assert(rest.len() * bound + bound == records.len() * bound) by (nonlinear_arith)
            requires
                rest.len() + 1 == records.len(),
        ;
    }
}

impl DataStats {
    /// These are the figures of `records`, of which there is at least one.
    pub open spec fn describes(self, records: Seq<CleanHouseRecord>) -> bool {
        &&& records.len() > 0
        &&& self.count == records.len()
        &&& self.total_price == price_sum(records)
        &&& self.total_price == self.average_whole * self.count + self.average_rest
        &&& self.average_rest < self.count
        &&& is_max_price(records, self.max_price)
        &&& is_min_price(records, self.min_price)
    }
}

/// A sum of prices none of which is below `bound` is at least that many
/// times `bound`.
proof fn lemma_price_sum_floor(records: Seq<CleanHouseRecord>, bound: u64)
    requires
        forall|i: int| 0 <= i < records.len() ==> (#[trigger] records[i]).price >= bound,
    ensures
        price_sum(records) >= records.len() * bound,
    decreases records.len(),
{
    if records.len() > 0 {
        let rest = records.drop_last();
        assert forall|i: int| 0 <= i < rest.len() implies (#[trigger] rest[i]).price >= bound by {
            assert(rest[i] == records[i]);
        }
        lemma_price_sum_floor(rest, bound);
        assert(price_sum(records) >= rest.len() * bound + bound);
        assert(rest.len() * bound + bound == records.len() * bound) by (nonlinear_arith)
            requires
                rest.len() + 1 == records.len(),
        ;
    }
}

/// The figures fix the average price exactly, as whole part and rest over
/// the count, and the average lies between the lowest and the highest price:
/// it reaches the highest only with no rest.
pub proof fn lemma_average_in_range(s: DataStats, records: Seq<CleanHouseRecord>)
    requires
        s.describes(records),
    ensures
        s.average_whole == price_sum(records) / records.len(),
        s.average_rest == price_sum(records) % records.len(),
        s.min_price * s.count <= s.total_price <= s.max_price * s.count,
        s.min_price <= s.average_whole <= s.max_price,
        s.average_whole == s.max_price ==> s.average_rest == 0,
{
    let total = price_sum(records) as int;
    let n = records.len() as int;
    let whole = s.average_whole as int;
    let rest = s.average_rest as int;
    lemma_price_sum_bound(records, s.max_price);
    lemma_price_sum_floor(records, s.min_price);
    vstd::arithmetic::div_mod::lemma_fundamental_div_mod_converse(total, n, whole, rest);
    assert(s.min_price <= whole) by (nonlinear_arith)
        requires
            total == whole * n + rest,
            0 <= rest < n,
            s.min_price * n <= total,
    ;
    assert(whole <= s.max_price && (whole == s.max_price ==> rest == 0)) by (nonlinear_arith)
        requires
            total == whole * n + rest,
            0 <= rest < n,
            total <= n * s.max_price,
    ;
}

/// The figures of `records`, or `None` where there is no record to speak of.
pub fn explore_data(records: &[CleanHouseRecord]) -> (stats: Option<DataStats>)
    ensures
        records.len() == 0 <==> stats is None,
        stats matches Some(s) ==> s.describes(records@),
{
    let count = records.len();
    if count == 0 {
        return None;
    }
    let mut total_price: u128 = 0;
    let mut max_price: u64 = records[0].price;
    let mut min_price: u64 = records[0].price;
    let mut i: usize = 0;
    while i < count
        invariant
            count == records.len(),
            0 < count,
            i <= count,
            total_price == price_sum(records@.take(i as int)),
            total_price <= i * u64::MAX,
            i == 0 ==> max_price == records[0].price && min_price == records[0].price,
            i > 0 ==> is_max_price(records@.take(i as int), max_price),
            i > 0 ==> is_min_price(records@.take(i as int), min_price),
        decreases count - i,
    {
        let price = records[i].price;
        proof {
            let before = records@.take(i as int);
            let upto = records@.take(i + 1);
            assert(upto.drop_last() == before);
            assert(upto.last() == records[i as int]);
            assert((i + 1) * u64::MAX <= u64::MAX * u64::MAX) by (nonlinear_arith)
                requires
                    i + 1 <= u64::MAX,
            ;
            assert(i * u64::MAX + u64::MAX == (i + 1) * u64::MAX) by (nonlinear_arith);
            if i > 0 {
                let hi = choose|k: int| 0 <= k < before.len() && (#[trigger] before[k]).price == max_price;
                let lo = choose|k: int| 0 <= k < before.len() && (#[trigger] before[k]).price == min_price;
                assert(upto[hi] == before[hi]);
                assert(upto[lo] == before[lo]);
                assert forall|k: int| 0 <= k < i implies upto[k] == before[k] by {}
            }
        }
        total_price = total_price + price as u128;
        if price > max_price {
            max_price = price;
        }
        if price < min_price {
            min_price = price;
        }
        i = i + 1;
        proof {
            let upto = records@.take(i as int);
            assert(upto[i - 1] == records[i - 1]);
            assert(is_max_price(upto, max_price));
            assert(is_min_price(upto, min_price));
        }
    }
    proof {
        assert(records@.take(count as int) == records@);
        lemma_price_sum_bound(records@, max_price);
        assert(total_price / (count as u128) <= max_price) by (nonlinear_arith)
            requires
                total_price <= count * max_price,
                count > 0,
        ;
        vstd::arithmetic::div_mod::lemma_fundamental_div_mod(total_price as int, count as int);
        vstd::arithmetic::div_mod::lemma_mod_pos_bound(total_price as int, count as int);
        assert((total_price as int / count as int) * count == count * (total_price as int
            / count as int)) by (nonlinear_arith);
    }
    let average_whole = (total_price / (count as u128)) as u64;
    let average_rest = (total_price % (count as u128)) as usize;
    Some(DataStats { count, total_price, average_whole, average_rest, max_price, min_price })
}

} // verus!
