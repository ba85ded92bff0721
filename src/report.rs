//! The counts over the reconciled packages and the summary drawn from them.
use crate::verification::Outcome;
use vstd::prelude::*;

verus! {

/// How many outcomes are not `Good`.
pub open spec fn negatives_in(outcomes: Seq<Outcome>) -> nat
    decreases outcomes.len(),
{
    if outcomes.len() == 0 {
        0
    } else {
        negatives_in(outcomes.drop_last()) + if outcomes.last() != Outcome::Good {
            1nat
        } else {
            0nat
        }
    }
}

/// The counts over the installed packages.
#[derive(Debug, Clone, Copy, PartialEq, Eq, Structural)]
pub struct SummaryStats {
    /// Packages considered.
    pub total: usize,
    /// Packages whose outcome is not `Good`.
    pub negatives: usize,
}

/// The verdict of the summary.
#[derive(Debug, Clone, Copy, PartialEq, Eq, Structural)]
pub enum Summary {
    /// No installed package was found: there is nothing to rate.
    NoPackages,
    /// Every package is reproducible.
    AllReproducible { total: usize },
    /// Exactly one package is not reproducible; `almost_there` when it is
    /// one of several.
    OneUnreproducible { total: usize, almost_there: bool },
    /// Several packages are not reproducible.
    Unreproducible { negatives: usize, total: usize },
}

/// The summary that counts call for.
pub open spec fn summary_spec(total: usize, negatives: usize) -> Summary {
    if total == 0 {
        Summary::NoPackages
    } else if negatives == 0 {
        Summary::AllReproducible { total }
    } else if negatives == 1 {
        Summary::OneUnreproducible { total, almost_there: total > 1 }
    } else {
        Summary::Unreproducible { negatives, total }
    }
}

impl SummaryStats {
    /// The well-formed counts: no more negatives than packages.
    pub open spec fn wf(&self) -> bool {
        self.negatives <= self.total
    }

    /// Packages whose outcome is `Good`.
    pub fn reproducible(&self) -> (r: usize)
        requires
            self.wf(),
        ensures
            r == self.total - self.negatives,
    {
        self.total - self.negatives
    }

    /// The summary of these counts.
    pub fn summary(&self) -> (r: Summary)
        ensures
            r == summary_spec(self.total, self.negatives),
    {
        if self.total == 0 {
            Summary::NoPackages
        } else if self.negatives == 0 {
            Summary::AllReproducible { total: self.total }
        } else if self.negatives == 1 {
            Summary::OneUnreproducible { total: self.total, almost_there: self.total > 1 }
        } else {
            Summary::Unreproducible { negatives: self.negatives, total: self.total }
        }
    }
}

proof fn lemma_negatives_bounded(outcomes: Seq<Outcome>)
    ensures
        negatives_in(outcomes) <= outcomes.len(),
    decreases outcomes.len(),
{
    if outcomes.len() > 0 {
        lemma_negatives_bounded(outcomes.drop_last());
    }
}

/// Counts the packages and those of them that are not `Good`.
pub fn summarize(outcomes: &Vec<Outcome>) -> (r: SummaryStats)
    ensures
        r.total == outcomes@.len(),
        r.negatives == negatives_in(outcomes@),
        r.wf(),
{
    let mut negatives: usize = 0;
    let mut i: usize = 0;
    while i < outcomes.len()
        invariant
            i <= outcomes@.len(),
            negatives == negatives_in(outcomes@.take(i as int)),
            negatives <= i,
        decreases outcomes@.len() - i,
    {
        proof {
            assert(outcomes@.take(i + 1).drop_last() =~= outcomes@.take(i as int));
        }
        if outcomes[i] != Outcome::Good {
            negatives = negatives + 1;
        }
        i = i + 1;
    }
    assert(outcomes@.take(i as int) =~= outcomes@);
    SummaryStats { total: outcomes.len(), negatives }
}

/// The summary of the outcomes: none at all gives `NoPackages`, never a
/// rate; no negative gives `AllReproducible`; exactly one negative is
/// "almost there" among several packages and not when it is the only one.
pub proof fn lemma_summary_boundaries(outcomes: Seq<Outcome>)
    requires
        outcomes.len() <= usize::MAX,
    ensures
        ({
            let n = outcomes.len() as usize;
            let neg = negatives_in(outcomes) as usize;
            &&& outcomes.len() == 0 ==> summary_spec(n, neg) == Summary::NoPackages
            &&& (outcomes.len() > 0 && forall|i: int| 0 <= i < outcomes.len() ==> outcomes[i] == Outcome::Good)
                ==> summary_spec(n, neg) == (Summary::AllReproducible { total: n })
            &&& (negatives_in(outcomes) == 1 && outcomes.len() > 1)
                ==> summary_spec(n, neg) == (Summary::OneUnreproducible { total: n, almost_there: true })
            &&& (negatives_in(outcomes) == 1 && outcomes.len() == 1)
                ==> summary_spec(n, neg) == (Summary::OneUnreproducible { total: n, almost_there: false })
        }),
{
    lemma_negatives_bounded(outcomes);
    if forall|i: int| 0 <= i < outcomes.len() ==> outcomes[i] == Outcome::Good {
        lemma_all_good(outcomes);
    }
}

proof fn lemma_all_good(outcomes: Seq<Outcome>)
    requires
        forall|i: int| 0 <= i < outcomes.len() ==> outcomes[i] == Outcome::Good,
    ensures
        negatives_in(outcomes) == 0,
    decreases outcomes.len(),
{
    if outcomes.len() > 0 {
        let init = outcomes.drop_last();
        assert forall|i: int| 0 <= i < init.len() implies init[i] == Outcome::Good by {
            assert(init[i] == outcomes[i]);
        }
        lemma_all_good(init);
    }
}

} // verus!
