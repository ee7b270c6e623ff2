//! Predictions held against true labels: the confusion matrix of the two
//! classes and the accuracy that follows from it.

use vstd::prelude::*;

verus! {

/// The positions of two label sequences, side by side.
pub open spec fn label_pairs(labels: Seq<usize>, predictions: Seq<usize>) -> Seq<(usize, usize)> {
    Seq::new(labels.len(), |i: int| (labels[i], predictions[i]))
}

/// The number of positions whose true label is `truth` and whose prediction
/// is `guess`.
pub open spec fn pair_count(
    labels: Seq<usize>,
    predictions: Seq<usize>,
    truth: usize,
    guess: usize,
) -> nat {
    label_pairs(labels, predictions).filter(|p: (usize, usize)| p.0 == truth && p.1 == guess).len()
}

/// Predictions and labels of different lengths cannot be compared.
#[derive(Debug, Clone, Copy, PartialEq, Eq)]
pub struct LengthMismatch {
    pub predictions: usize,
    pub labels: usize,
}

/// Correct predictions out of all that were counted.
#[derive(Debug, Clone, Copy, PartialEq, Eq)]
pub struct Accuracy {
    pub correct: usize,
    pub total: usize,
}

/// Counts of the four ways in which a prediction of 0 or 1 can meet a true
/// label of 0 or 1. A position that holds any other value is in none of them.
#[derive(Debug, Clone, Copy, PartialEq, Eq)]
pub struct ConfusionMatrix {
    true_negatives: usize,
    false_positives: usize,
    false_negatives: usize,
    true_positives: usize,
}

impl ConfusionMatrix {
    #[verifier::type_invariant]
    spec fn countable(&self) -> bool {
        self.true_negatives + self.false_positives + self.false_negatives + self.true_positives
            <= usize::MAX
    }

    /// The count for true label `truth` and prediction `guess`, which is 0
    /// unless both are 0 or 1.
    pub closed spec fn cell(&self, truth: usize, guess: usize) -> nat {
        if truth == 0 && guess == 0 {
            self.true_negatives as nat
        } else if truth == 0 && guess == 1 {
            self.false_positives as nat
        } else if truth == 1 && guess == 0 {
            self.false_negatives as nat
        } else if truth == 1 && guess == 1 {
            self.true_positives as nat
        } else {
            0
        }
    }

    /// The positions that were counted.
    pub open spec fn spec_total(&self) -> nat {
        self.cell(0, 0) + self.cell(0, 1) + self.cell(1, 0) + self.cell(1, 1)
    }

    /// The positions at which prediction and true label agree.
    pub open spec fn spec_correct(&self) -> nat {
        self.cell(0, 0) + self.cell(1, 1)
    }

    /// A label or a prediction other than 0 and 1 is in no cell.
    pub proof fn lemma_outside_classes(self, truth: usize, guess: usize)
        requires
            truth > 1 || guess > 1,
        ensures
            self.cell(truth, guess) == 0,
    {
    }

    /// The count for true label `truth` and prediction `guess`, which is 0
    /// unless both are 0 or 1.
    pub fn count(&self, truth: usize, guess: usize) -> (n: usize)
        ensures
            n == self.cell(truth, guess),
            (truth > 1 || guess > 1) ==> n == 0,
    {
        if truth == 0 && guess == 0 {
            self.true_negatives
        } else if truth == 0 && guess == 1 {
            self.false_positives
        } else if truth == 1 && guess == 0 {
            self.false_negatives
        } else if truth == 1 && guess == 1 {
            self.true_positives
        } else {
            0
        }
    }

    /// Correct predictions over counted positions, or `None` where nothing
    /// was counted.
    pub fn accuracy(&self) -> (out: Option<Accuracy>)
        ensures
            self.spec_total() == 0 <==> out is None,
            out matches Some(a) ==> a.correct == self.spec_correct() && a.total
                == self.spec_total(),
    {
        proof {
            use_type_invariant(self);
        }
        let correct = self.true_negatives + self.true_positives;
        let total = correct + self.false_positives + self.false_negatives;
        if total == 0 {
            None
        } else {
            Some(Accuracy { correct, total })
        }
    }
}

/// Looking at one more position adds one to the count of its pair and
/// leaves every other count as it was.
proof fn lemma_next_pair(
    labels: Seq<usize>,
    predictions: Seq<usize>,
    i: int,
    truth: usize,
    guess: usize,
)
    requires
        0 <= i < labels.len(),
        labels.len() == predictions.len(),
    ensures
        pair_count(labels.take(i + 1), predictions.take(i + 1), truth, guess) == pair_count(
            labels.take(i),
            predictions.take(i),
            truth,
            guess,
        ) + if labels[i] == truth && predictions[i] == guess {
            1nat
        } else {
            0nat
        },
{
    let upto = label_pairs(labels.take(i + 1), predictions.take(i + 1));
    let before = label_pairs(labels.take(i), predictions.take(i));
    assert(upto.drop_last() == before);
    assert(upto.last() == (labels[i], predictions[i]));
    reveal(Seq::filter);
}

/// A pair is counted at most once for each position.
proof fn lemma_pair_count_bound(
    labels: Seq<usize>,
    predictions: Seq<usize>,
)
    requires
        labels.len() == predictions.len(),
    ensures
        pair_count(labels, predictions, 0, 0) + pair_count(labels, predictions, 0, 1) + pair_count(
            labels,
            predictions,
            1,
            0,
        ) + pair_count(labels, predictions, 1, 1) <= labels.len(),
    decreases labels.len(),
{
    if labels.len() == 0 {
        reveal(Seq::filter);
    } else {
        let i = labels.len() - 1;
        assert(labels.take(i + 1) == labels);
        assert(predictions.take(i + 1) == predictions);
        lemma_pair_count_bound(labels.take(i), predictions.take(i));
        lemma_next_pair(labels, predictions, i, 0, 0);
        lemma_next_pair(labels, predictions, i, 0, 1);
        lemma_next_pair(labels, predictions, i, 1, 0);
        lemma_next_pair(labels, predictions, i, 1, 1);
    }
}

/// Tabulates predictions against true labels, position by position.
pub fn confusion_matrix(predictions: &[usize], labels: &[usize]) -> (out: Result<
    ConfusionMatrix,
    LengthMismatch,
>)
    ensures
        predictions.len() == labels.len() <==> out is Ok,
        out matches Ok(m) ==> {
            &&& m.cell(0, 0) == pair_count(labels@, predictions@, 0, 0)
            &&& m.cell(0, 1) == pair_count(labels@, predictions@, 0, 1)
            &&& m.cell(1, 0) == pair_count(labels@, predictions@, 1, 0)
            &&& m.cell(1, 1) == pair_count(labels@, predictions@, 1, 1)
        },
        out matches Err(e) ==> e.predictions == predictions.len() && e.labels == labels.len(),
{
    let n = labels.len();
    if predictions.len() != n {
        return Err(LengthMismatch { predictions: predictions.len(), labels: n });
    }
    let mut true_negatives: usize = 0;
    let mut false_positives: usize = 0;
    let mut false_negatives: usize = 0;
    let mut true_positives: usize = 0;
    let mut i: usize = 0;
    proof {
        reveal(Seq::filter);
    }
    while i < n
        invariant
            n == labels.len(),
            n == predictions.len(),
            i <= n,
            true_negatives == pair_count(labels@.take(i as int), predictions@.take(i as int), 0, 0),
            false_positives == pair_count(
                labels@.take(i as int),
                predictions@.take(i as int),
                0,
                1,
            ),
            false_negatives == pair_count(
                labels@.take(i as int),
                predictions@.take(i as int),
                1,
                0,
            ),
            true_positives == pair_count(labels@.take(i as int), predictions@.take(i as int), 1, 1),
        decreases n - i,
    {
        proof {
            lemma_pair_count_bound(labels@.take(i as int), predictions@.take(i as int));
            lemma_next_pair(labels@, predictions@, i as int, 0, 0);
            lemma_next_pair(labels@, predictions@, i as int, 0, 1);
            lemma_next_pair(labels@, predictions@, i as int, 1, 0);
            lemma_next_pair(labels@, predictions@, i as int, 1, 1);
        }
        let truth = labels[i];
        let guess = predictions[i];
        if truth == 0 && guess == 0 {
            true_negatives = true_negatives + 1;
        } else if truth == 0 && guess == 1 {
            false_positives = false_positives + 1;
        } else if truth == 1 && guess == 0 {
            false_negatives = false_negatives + 1;
        } else if truth == 1 && guess == 1 {
            true_positives = true_positives + 1;
        }
        i = i + 1;
    }
    proof {
        assert(labels@.take(n as int) == labels@);
        assert(predictions@.take(n as int) == predictions@);
        lemma_pair_count_bound(labels@, predictions@);
    }
    Ok(ConfusionMatrix { true_negatives, false_positives, false_negatives, true_positives })
}

} // verus!
