//! The feature matrix, the price label and the assembly of both from clean
//! records.

use crate::model::{CleanHouseRecord, Real};
use vstd::prelude::*;

verus! {

/// The number of columns of every feature matrix.
pub const FEATURE_COLUMNS: usize = 5;

/// The price above which a house is labelled 1, unless another is asked for.
pub const DEFAULT_PRICE_THRESHOLD: u64 = 500_000;

/// One cell of the feature matrix.
///
/// A cell keeps what its column was read as; whoever trains on the matrix
/// turns both kinds into the same numeric type.
#[derive(Debug, Clone, Copy, PartialEq, Eq)]
pub enum FeatureValue {
    /// A real-valued column.
    Real(Real),
    /// A column of whole numbers.
    Count(u64),
}

/// The label of a price: 1 above the threshold, 0 at or below it.
pub open spec fn label_of(price: u64, threshold: u64) -> usize {
    if price > threshold {
        1
    } else {
        0
    }
}

/// The features of one record: area, bedrooms, bathrooms, floors, year built.
pub open spec fn feature_row(r: CleanHouseRecord) -> Seq<FeatureValue> {
    seq![
        FeatureValue::Real(r.area),
        FeatureValue::Count(r.bedrooms),
        FeatureValue::Real(r.bathrooms),
        FeatureValue::Real(r.floors),
        FeatureValue::Real(r.year_built),
    ]
}

/// The feature rows of `records`, one per record and in the same order.
pub open spec fn feature_rows(records: Seq<CleanHouseRecord>) -> Seq<Seq<FeatureValue>> {
    records.map_values(|r: CleanHouseRecord| feature_row(r))
}

/// The labels of `records`, one per record and in the same order.
pub open spec fn labels_of(records: Seq<CleanHouseRecord>, threshold: u64) -> Seq<usize> {
    records.map_values(|r: CleanHouseRecord| label_of(r.price, threshold))
}

/// Row-major values cut into `rows` rows of five.
pub open spec fn rows_of(values: Seq<FeatureValue>, rows: nat) -> Seq<Seq<FeatureValue>> {
    Seq::new(rows, |i: int| Seq::new(5, |j: int| values[5 * i + j]))
}

/// Labels a price against a threshold, which itself still counts as low.
pub fn price_label(price: u64, threshold: u64) -> (label: usize)
    ensures
        label == label_of(price, threshold),
        label == 1 <==> price > threshold,
        label == 0 <==> price <= threshold,
{
    if price > threshold {
        1
    } else {
        0
    }
}

/// Under the default threshold a price of 500000 is still labelled 0, and
/// every higher price 1.
pub proof fn lemma_default_label(price: u64)
    ensures
        label_of(price, DEFAULT_PRICE_THRESHOLD) == if price > 500_000 { 1usize } else { 0usize },
        label_of(500_000, DEFAULT_PRICE_THRESHOLD) == 0,
        label_of(500_001, DEFAULT_PRICE_THRESHOLD) == 1,
{
}

/// A row count and a number of values that do not make a matrix of five
/// columns.
#[derive(Debug, Clone, Copy, PartialEq, Eq)]
pub struct ShapeError {
    /// The rows that were asked for.
    pub rows: usize,
    /// The values that were given.
    pub len: usize,
}

/// A dense matrix of five columns, stored row by row.
#[derive(Debug)]
pub struct FeatureMatrix {
    rows: usize,
    values: Vec<FeatureValue>,
}

impl View for FeatureMatrix {
    type V = Seq<Seq<FeatureValue>>;

    /// The rows of the matrix, each a sequence of five cells.
    closed spec fn view(&self) -> Seq<Seq<FeatureValue>> {
        rows_of(self.values@, self.rows as nat)
    }
}

impl FeatureMatrix {
    #[verifier::type_invariant]
    spec fn well_formed(&self) -> bool {
        self.values@.len() == self.rows * 5
    }

    /// Makes a matrix of `rows` rows out of row-major `values`, which must be
    /// five per row.
    pub fn from_shape_vec(rows: usize, values: Vec<FeatureValue>) -> (out: Result<
        FeatureMatrix,
        ShapeError,
    >)
        ensures
            values@.len() == rows * 5 ==> out is Ok,
            out matches Ok(m) ==> values@.len() == rows * 5 && m@ == rows_of(values@, rows as nat),
            out matches Err(e) ==> e.rows == rows && e.len == values@.len(),
    {
        let len = values.len();
        match rows.checked_mul(FEATURE_COLUMNS) {
            Some(cells) => {
                if cells == len {
                    Ok(FeatureMatrix { rows, values })
                } else {
                    Err(ShapeError { rows, len })
                }
            },
            None => Err(ShapeError { rows, len }),
        }
    }

    /// The number of rows.
    pub fn nrows(&self) -> (n: usize)
        ensures
            n == self@.len(),
    {
        self.rows
    }

    /// The number of columns, which is five for every matrix.
    pub fn ncols(&self) -> (n: usize)
        ensures
            n == 5,
            forall|i: int| 0 <= i < self@.len() ==> (#[trigger] self@[i]).len() == n,
    {
        proof {
            use_type_invariant(self);
        }
        FEATURE_COLUMNS
    }

    /// The cell at `row` and `col`, or `None` where the matrix has no such
    /// cell.
    pub fn get(&self, row: usize, col: usize) -> (cell: Option<FeatureValue>)
        ensures
            (row < self@.len() && col < 5) <==> cell is Some,
            cell matches Some(v) ==> v == self@[row as int][col as int],
    {
        proof {
            use_type_invariant(self);
        }
        let len = self.values.len();
        if row < self.rows && col < FEATURE_COLUMNS {
            assert(row * 5 + col < len) by (nonlinear_arith)
                requires
                    row < self.rows,
                    col < 5,
                    len == self.rows * 5,
            ;
            Some(self.values[row * FEATURE_COLUMNS + col])
        } else {
            None
        }
    }
}

/// Every matrix has five columns, whatever it holds.
pub proof fn lemma_five_columns(m: FeatureMatrix)
    ensures
        forall|i: int| 0 <= i < m@.len() ==> (#[trigger] m@[i]).len() == FEATURE_COLUMNS,
{
}

/// What a model is trained on: a feature row and a label for each record.
#[derive(Debug)]
pub struct TrainingSet {
    pub features: FeatureMatrix,
    pub labels: Vec<usize>,
}

/// The five cells of one record, in column order.
pub fn record_features(r: &CleanHouseRecord) -> (row: [FeatureValue; 5])
    ensures
        row@ == feature_row(*r),
{
    let row = [
        FeatureValue::Real(r.area),
        FeatureValue::Count(r.bedrooms),
        FeatureValue::Real(r.bathrooms),
        FeatureValue::Real(r.floors),
        FeatureValue::Real(r.year_built),
    ];
    assert(row@ =~= feature_row(*r));
    row
}

/// Assembles the feature matrix and the label vector of `records`: row `i`
/// and label `i` are those of record `i`.
pub fn build_dataset(records: &[CleanHouseRecord], threshold: u64) -> (set: TrainingSet)
    ensures
        set.features@ == feature_rows(records@),
        set.labels@ == labels_of(records@, threshold),
        set.features@.len() == records.len(),
        set.labels@.len() == records.len(),
{
    let mut values: Vec<FeatureValue> = Vec::new();
    let mut labels: Vec<usize> = Vec::new();
    let mut i: usize = 0;
    while i < records.len()
        invariant
            i <= records.len(),
            values@.len() == 5 * i,
            rows_of(values@, i as nat) == feature_rows(records@.take(i as int)),
            labels@ == labels_of(records@.take(i as int), threshold),
        decreases records.len() - i,
    {
        let ghost before = values@;
        let row = record_features(&records[i]);
        let mut col: usize = 0;
        while col < FEATURE_COLUMNS
            invariant
                col <= 5,
                values@ == before + row@.take(col as int),
            decreases 5 - col,
        {
            values.push(row[col]);
            col = col + 1;
        }
        labels.push(price_label(records[i].price, threshold));
        proof {
            assert(row@.take(5) == row@);
            let upto = records@.take(i + 1);
            assert(upto.len() == i + 1);
            assert forall|k: int| 0 <= k < i + 1 implies #[trigger] rows_of(values@, (i + 1) as nat)[k]
                == feature_rows(upto)[k] by {
                if k < i {
                    assert(rows_of(before, i as nat)[k] == feature_rows(records@.take(i as int))[k]);
                    assert(rows_of(values@, (i + 1) as nat)[k] =~= rows_of(before, i as nat)[k]);
                    assert(upto[k] == records@.take(i as int)[k]);
                } else {
                    assert(rows_of(values@, (i + 1) as nat)[k] =~= row@);
                }
            }
            assert(rows_of(values@, (i + 1) as nat) =~= feature_rows(upto));
            assert(labels@ =~= labels_of(upto, threshold));
        }
        i = i + 1;
    }
    assert(records@.take(i as int) == records@);
    let features = FeatureMatrix::from_shape_vec(i, values).unwrap();
    TrainingSet { features, labels }
}

} // verus!
