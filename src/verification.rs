//! Remote verification records, the index that groups them by package name,
//! and the join of the local packages against it.
use crate::dpkg::{DpkgPackage, PackageView};
use crate::text::same_text;
use vstd::prelude::*;

verus! {

/// What a rebuilderd instance reports of one package release.
#[derive(Debug, Clone, Copy, PartialEq, Eq, Structural)]
pub enum Outcome {
    /// Rebuilt, and bit for bit identical.
    Good,
    /// Rebuilt, and different.
    Bad,
    /// Not rebuilt, or no record of it.
    Unknown,
}

/// The label under which rebuilderd publishes an outcome.
pub open spec fn outcome_label(o: Outcome) -> Seq<char> {
    match o {
        Outcome::Good => seq!['G', 'O', 'O', 'D'],
        Outcome::Bad => seq!['B', 'A', 'D'],
        Outcome::Unknown => seq!['U', 'N', 'K', 'W', 'N'],
    }
}

impl Outcome {
    /// The label under which rebuilderd publishes this outcome.
    pub fn label(&self) -> (r: &'static str)
        ensures
            r@ == outcome_label(*self),
    {
        match self {
            Outcome::Good => {
                proof {
                    reveal_strlit("GOOD");
                    assert("GOOD"@ =~= outcome_label(*self));
                }
                "GOOD"
            },
            Outcome::Bad => {
                proof {
                    reveal_strlit("BAD");
                    assert("BAD"@ =~= outcome_label(*self));
                }
                "BAD"
            },
            Outcome::Unknown => {
                proof {
                    reveal_strlit("UNKWN");
                    assert("UNKWN"@ =~= outcome_label(*self));
                }
                "UNKWN"
            },
        }
    }

    /// Whether a package of this outcome is shown under a display filter:
    /// with no filter every package is, with one only those whose label
    /// equals it.
    pub fn passes_filter(&self, filter: &Option<String>) -> (r: bool)
        ensures
            r == match filter {
                None => true,
                Some(f) => f@ == outcome_label(*self),
            },
    {
        match filter {
            None => true,
            Some(f) => same_text(f.as_str(), self.label()),
        }
    }
}

/// One record of a rebuilderd package list.
#[derive(Debug)]
pub struct VerificationRecord {
    pub name: String,
    pub architecture: String,
    pub version: String,
    pub status: Outcome,
}

/// The fields of a verification record, as character sequences.
pub struct RecordView {
    pub name: Seq<char>,
    pub architecture: Seq<char>,
    pub version: Seq<char>,
    pub status: Outcome,
}

impl View for VerificationRecord {
    type V = RecordView;

    open spec fn view(&self) -> RecordView {
        RecordView {
            name: self.name@,
            architecture: self.architecture@,
            version: self.version@,
            status: self.status,
        }
    }
}

/// The views of a list of records.
pub open spec fn record_views(rs: Seq<VerificationRecord>) -> Seq<RecordView> {
    rs.map_values(|r: VerificationRecord| r@)
}

/// The views of several lists of records, one after the other.
pub open spec fn batches_view(bs: Seq<Vec<VerificationRecord>>) -> Seq<RecordView> {
    bs.map_values(|b: Vec<VerificationRecord>| record_views(b@)).flatten()
}

/// The records of `rs` under the name `name`, in their order.
pub open spec fn records_named(rs: Seq<RecordView>, name: Seq<char>) -> Seq<RecordView>
    decreases rs.len(),
{
    if rs.len() == 0 {
        Seq::empty()
    } else if rs[0].name == name {
        seq![rs[0]] + records_named(rs.drop_first(), name)
    } else {
        records_named(rs.drop_first(), name)
    }
}

/// The outcome of the first record of `rs` for this architecture and
/// version; `Unknown` if there is none.
pub open spec fn first_match(rs: Seq<RecordView>, architecture: Seq<char>, version: Seq<char>) -> Outcome
    decreases rs.len(),
{
    if rs.len() == 0 {
        Outcome::Unknown
    } else if rs[0].architecture == architecture && rs[0].version == version {
        rs[0].status
    } else {
        first_match(rs.drop_first(), architecture, version)
    }
}

/// The outcome of a local package against the records of an index.
pub open spec fn resolved_outcome(index: Seq<RecordView>, p: PackageView) -> Outcome {
    first_match(records_named(index, p.name), p.architecture, p.version)
}

/// All records, in the order of the endpoints that were queried and, within
/// one endpoint, in the order of its list. The records of one name form the
/// entry of that name.
pub struct VerificationIndex {
    pub records: Vec<VerificationRecord>,
}

impl View for VerificationIndex {
    type V = Seq<RecordView>;

    open spec fn view(&self) -> Seq<RecordView> {
        record_views(self.records@)
    }
}

impl VerificationIndex {
    /// The entry of a name: its records, in the order they were added.
    pub open spec fn entry(&self, name: Seq<char>) -> Seq<RecordView> {
        records_named(self@, name)
    }

    /// An index without records.
    pub fn new() -> (r: VerificationIndex)
        ensures
            r@ == Seq::<RecordView>::empty(),
    {
        let r = VerificationIndex { records: Vec::new() };
        assert(r@ =~= Seq::<RecordView>::empty());
        r
    }

    /// Adds a list of records after those already held.
    pub fn extend(&mut self, batch: Vec<VerificationRecord>)
        ensures
            final(self)@ == old(self)@ + record_views(batch@),
    {
        let mut batch = batch;
        let ghost added = record_views(batch@);
        self.records.append(&mut batch);
        assert(self@ =~= old(self)@ + added);
    }

    /// Folds the lists of several endpoints into one index, in their order.
    pub fn from_responses(responses: Vec<Vec<VerificationRecord>>) -> (r: VerificationIndex)
        ensures
            r@ == batches_view(responses@),
    {
        let ghost all = responses@;
        let mut responses = responses;
        let mut index = VerificationIndex::new();
        while responses.len() > 0
            invariant
                index@ + batches_view(responses@) == batches_view(all),
            decreases responses@.len(),
        {
            let ghost rest = responses@;
            let batch = responses.remove(0);
            proof {
                let vs = rest.map_values(|b: Vec<VerificationRecord>| record_views(b@));
                assert(vs.drop_first() =~= responses@.map_values(
                    |b: Vec<VerificationRecord>| record_views(b@),
                ));
                assert(vs.first() == record_views(batch@));
            }
            let ghost before = index@;
            index.extend(batch);
            proof {
                assert(before + batches_view(rest) =~= index@ + batches_view(responses@));
            }
        }
        proof {
            assert(batches_view(responses@) =~= Seq::<RecordView>::empty());
            assert(index@ =~= index@ + batches_view(responses@));
        }
        index
    }

    /// The outcome of a local package: that of the first record of its
    /// entry with the same architecture and version, else `Unknown`.
    pub fn resolve(&self, pkg: &DpkgPackage) -> (r: Outcome)
        ensures
            r == resolved_outcome(self@, pkg@),
    {
        let ghost all = self@;
        let mut i: usize = 0;
        assert(all.skip(0) =~= all);
        while i < self.records.len()
            invariant
                all == self@,
                i <= all.len(),
                resolved_outcome(all, pkg@) == first_match(
                    records_named(all.skip(i as int), pkg@.name),
                    pkg@.architecture,
                    pkg@.version,
                ),
            decreases all.len() - i,
        {
            let rec = &self.records[i];
            let ghost rest = all.skip(i as int);
            proof {
                assert(rest.drop_first() =~= all.skip(i + 1));
                assert(rest[0] == rec@);
            }
            if same_text(rec.name.as_str(), pkg.name.as_str()) {
                proof {
                    let tail = records_named(all.skip(i + 1), pkg@.name);
                    assert((seq![rec@] + tail)[0] == rec@);
                    assert((seq![rec@] + tail).drop_first() =~= tail);
                }
                if same_text(rec.architecture.as_str(), pkg.architecture.as_str()) && same_text(
                    rec.version.as_str(),
                    pkg.version.as_str(),
                ) {
                    return rec.status;
                }
            }
            i = i + 1;
        }
        proof {
            assert(all.skip(i as int) =~= Seq::<RecordView>::empty());
        }
        Outcome::Unknown
    }
}

/// The outcome of each local package against the index, one for each
/// package and in the same order.
pub fn reconcile(installed: &Vec<DpkgPackage>, index: &VerificationIndex) -> (r: Vec<Outcome>)
    ensures
        r@.len() == installed@.len(),
        forall|i: int| 0 <= i < r@.len() ==> r@[i] == resolved_outcome(index@, #[trigger] installed@[i]@),
{
    let mut out: Vec<Outcome> = Vec::new();
    let mut i: usize = 0;
    while i < installed.len()
        invariant
            i <= installed@.len(),
            out@.len() == i,
            forall|j: int| 0 <= j < i ==> out@[j] == resolved_outcome(index@, #[trigger] installed@[j]@),
        decreases installed@.len() - i,
    {
        let o = index.resolve(&installed[i]);
        out.push(o);
        i = i + 1;
    }
    out
}

/// A record that speaks of this very package: same name, architecture and
/// version.
pub open spec fn describes(r: RecordView, p: PackageView) -> bool {
    r.name == p.name && r.architecture == p.architecture && r.version == p.version
}

/// `k` is the first record of `rs` for this architecture and version.
pub open spec fn is_first_match(rs: Seq<RecordView>, architecture: Seq<char>, version: Seq<char>, k: int) -> bool {
    &&& 0 <= k < rs.len()
    &&& rs[k].architecture == architecture && rs[k].version == version
    &&& forall|j: int| 0 <= j < k ==> !(rs[j].architecture == architecture && rs[j].version == version)
}

proof fn lemma_first_match(rs: Seq<RecordView>, architecture: Seq<char>, version: Seq<char>)
    ensures
        (forall|k: int| 0 <= k < rs.len() ==> !(rs[k].architecture == architecture && rs[k].version == version))
            ==> first_match(rs, architecture, version) == Outcome::Unknown,
        forall|k: int| is_first_match(rs, architecture, version, k)
            ==> first_match(rs, architecture, version) == rs[k].status,
    decreases rs.len(),
{
    if rs.len() > 0 {
        let tail = rs.drop_first();
        lemma_first_match(tail, architecture, version);
        assert forall|k: int| is_first_match(rs, architecture, version, k)
            implies first_match(rs, architecture, version) == rs[k].status by {
            if k > 0 {
                assert(is_first_match(tail, architecture, version, k - 1)) by {
                    assert forall|j: int| 0 <= j < k - 1
                        implies !(tail[j].architecture == architecture && tail[j].version == version) by {
                        assert(tail[j] == rs[j + 1]);
                    }
                }
            }
        }
        if forall|k: int| 0 <= k < rs.len() ==> !(rs[k].architecture == architecture && rs[k].version == version) {
            assert forall|k: int| 0 <= k < tail.len()
                implies !(tail[k].architecture == architecture && tail[k].version == version) by {
                assert(tail[k] == rs[k + 1]);
            }
        }
    }
}

/// The join: a package whose entry holds no record of its architecture and
/// version is `Unknown`; otherwise it takes the outcome of the first such
/// record of its entry, in index order.
pub proof fn lemma_join(index: Seq<RecordView>, p: PackageView)
    ensures
        ({
            let entry = records_named(index, p.name);
            &&& (forall|k: int| 0 <= k < entry.len()
                ==> !(entry[k].architecture == p.architecture && entry[k].version == p.version))
                ==> resolved_outcome(index, p) == Outcome::Unknown
            &&& forall|k: int| is_first_match(entry, p.architecture, p.version, k)
                ==> resolved_outcome(index, p) == entry[k].status
            &&& (forall|k: int| 0 <= k < entry.len() && entry[k].architecture == p.architecture
                && entry[k].version == p.version ==> entry[k].status != Outcome::Unknown)
                ==> (resolved_outcome(index, p) == Outcome::Unknown <==> forall|k: int| 0 <= k < entry.len()
                ==> !(entry[k].architecture == p.architecture && entry[k].version == p.version))
        }),
{
    let entry = records_named(index, p.name);
    lemma_first_match(entry, p.architecture, p.version);
    if exists|k: int| 0 <= k < entry.len() && entry[k].architecture == p.architecture
        && entry[k].version == p.version {
        lemma_first_match_exists(entry, p.architecture, p.version);
    }
}

proof fn lemma_first_match_exists(rs: Seq<RecordView>, architecture: Seq<char>, version: Seq<char>)
    requires
        exists|k: int| 0 <= k < rs.len() && rs[k].architecture == architecture && rs[k].version == version,
    ensures
        exists|k: int| is_first_match(rs, architecture, version, k),
    decreases rs.len(),
{
    if rs[0].architecture == architecture && rs[0].version == version {
        assert(is_first_match(rs, architecture, version, 0));
    } else {
        let tail = rs.drop_first();
        let k = choose|k: int| 0 <= k < rs.len() && rs[k].architecture == architecture && rs[k].version == version;
        assert(tail[k - 1] == rs[k]);
        lemma_first_match_exists(tail, architecture, version);
        let j = choose|j: int| is_first_match(tail, architecture, version, j);
        assert(is_first_match(rs, architecture, version, j + 1)) by {
            assert forall|i: int| 0 <= i < j + 1
                implies !(rs[i].architecture == architecture && rs[i].version == version) by {
                if i > 0 {
                    assert(rs[i] == tail[i - 1]);
                }
            }
        }
    }
}

/// Records that do not describe a package, put before others, change
/// nothing of its outcome.
proof fn lemma_skip_unrelated(earlier: Seq<RecordView>, rest: Seq<RecordView>, p: PackageView)
    requires
        forall|k: int| 0 <= k < earlier.len() ==> !describes(earlier[k], p),
    ensures
        resolved_outcome(earlier + rest, p) == resolved_outcome(rest, p),
    decreases earlier.len(),
{
    if earlier.len() > 0 {
        let all = earlier + rest;
        let tail = earlier.drop_first();
        assert(all.drop_first() =~= tail + rest);
        assert(all[0] == earlier[0]);
        assert(!describes(earlier[0], p));
        assert forall|k: int| 0 <= k < tail.len() implies !describes(tail[k], p) by {
            assert(tail[k] == earlier[k + 1]);
        }
        lemma_skip_unrelated(tail, rest, p);
        if all[0].name == p.name {
            let named = records_named(tail + rest, p.name);
            assert((seq![all[0]] + named)[0] == all[0]);
            assert((seq![all[0]] + named).drop_first() =~= named);
        }
    } else {
        assert(earlier + rest =~= rest);
    }
}

/// Of several records that describe a package, the one added first decides
/// its outcome, whatever follows it.
pub proof fn lemma_earliest_record_wins(
    earlier: Seq<RecordView>,
    r: RecordView,
    later: Seq<RecordView>,
    p: PackageView,
)
    requires
        forall|k: int| 0 <= k < earlier.len() ==> !describes(earlier[k], p),
        describes(r, p),
    ensures
        resolved_outcome(earlier + seq![r] + later, p) == r.status,
{
    let rest = seq![r] + later;
    assert(earlier + seq![r] + later =~= earlier + rest);
    lemma_skip_unrelated(earlier, rest, p);
    assert(rest[0] == r);
    assert(rest.drop_first() =~= later);
    let named = records_named(later, p.name);
    assert((seq![r] + named)[0] == r);
}

} // verus!
