//! Core data model: observations, per-series datasets, the aggregate that is
//! built over one run, and the error taxonomy of the two network-facing
//! components.

use vstd::prelude::*;

verus! {

/// One data point of an economic time series: a calendar date and a numeric
/// value, both kept verbatim as the upstream service formatted them.
#[derive(Debug, PartialEq, Eq)]
pub struct Observation {
    pub date: String,
    pub value: String,
}

/// Mathematical model of an [`Observation`]: the two field texts.
pub ghost struct ObsModel {
    pub date: Seq<char>,
    pub value: Seq<char>,
}

impl View for Observation {
    type V = ObsModel;

    open spec fn view(&self) -> ObsModel {
        ObsModel { date: self.date@, value: self.value@ }
    }
}

impl DeepView for Observation {
    type V = ObsModel;

    open spec fn deep_view(&self) -> ObsModel {
        self@
    }
}

impl Observation {
    pub fn new(date: String, value: String) -> (r: Observation)
        ensures
            r@ == (ObsModel { date: date@, value: value@ }),
    {
        Observation { date, value }
    }

    pub fn duplicate(&self) -> (r: Observation)
        ensures
            r@ == self@,
    {
        Observation { date: self.date.clone(), value: self.value.clone() }
    }
}

/// Why one series fetch failed. Failures are terminal for that series: the
/// run carries on with the remaining series.
#[derive(Debug, PartialEq, Eq)]
pub enum FetchError {
    /// The request never produced an HTTP response (connection refused,
    /// timeout, name resolution failure).
    Network,
    /// The service answered with a non-2xx status; the body is kept for
    /// diagnostics.
    Http(u16, String),
    /// The body of a 2xx response was not a JSON array of
    /// `{"data": ..., "valor": ...}` objects with string fields.
    Parse,
}

/// Why the one forwarding call failed. Terminal for the run, but the run
/// still ends normally.
#[derive(Debug, PartialEq, Eq)]
pub enum SendError {
    /// The request never produced an HTTP response.
    Network,
    /// The downstream service answered with a non-2xx status; the body is
    /// kept so its explanation can be reported.
    Http(u16, String),
}

/// One series of the aggregate: its identifier and the observations fetched
/// for it, in the order the upstream service returned them.
#[derive(Debug)]
pub struct SeriesEntry {
    pub series: String,
    pub observations: Vec<Observation>,
}

/// Mathematical model of a [`SeriesEntry`].
pub ghost struct EntryModel {
    pub series: Seq<char>,
    pub observations: Seq<ObsModel>,
}

impl View for SeriesEntry {
    type V = EntryModel;

    open spec fn view(&self) -> EntryModel {
        EntryModel { series: self.series@, observations: self.observations.deep_view() }
    }
}

impl DeepView for SeriesEntry {
    type V = EntryModel;

    open spec fn deep_view(&self) -> EntryModel {
        self@
    }
}

/// True when `entries` holds an entry for the series named `s`.
pub open spec fn contains_series(entries: Seq<EntryModel>, s: Seq<char>) -> bool {
    exists|i: int| 0 <= i < entries.len() && entries[i].series == s
}

/// Series identifiers are pairwise distinct.
pub open spec fn unique_series(entries: Seq<EntryModel>) -> bool {
    forall|i: int, j: int| 0 <= i < j < entries.len() ==> entries[i].series != entries[j].series
}

/// Every entry carries at least one observation.
pub open spec fn all_nonempty(entries: Seq<EntryModel>) -> bool {
    forall|i: int| 0 <= i < entries.len() ==> #[trigger] entries[i].observations.len() > 0
}

/// The mapping built over one run: series identifier to dataset. Keys are
/// unique and every dataset is non-empty; entries are kept in insertion
/// order, which also fixes the order of the serialized payload.
#[derive(Debug)]
pub struct Aggregate {
    entries: Vec<SeriesEntry>,
}

impl View for Aggregate {
    type V = Seq<EntryModel>;

    closed spec fn view(&self) -> Seq<EntryModel> {
        self.entries.deep_view()
    }
}

impl Aggregate {
    /// Well-formedness: series identifiers are pairwise distinct and no
    /// entry carries an empty dataset.
    pub open spec fn wf(&self) -> bool {
        unique_series(self@) && all_nonempty(self@)
    }

    pub fn new() -> (r: Aggregate)
        ensures
            r@ =~= Seq::<EntryModel>::empty(),
            r.wf(),
    {
        Aggregate { entries: Vec::new() }
    }

    pub fn len(&self) -> (n: usize)
        ensures
            n == self@.len(),
    {
        self.entries.len()
    }

    pub fn is_empty(&self) -> (b: bool)
        ensures
            b == (self@.len() == 0),
    {
        self.entries.len() == 0
    }

    pub fn entry_at(&self, i: usize) -> (r: &SeriesEntry)
        requires
            i < self@.len(),
        ensures
            r@ == self@[i as int],
    {
        &self.entries[i]
    }

    pub fn contains(&self, series: &str) -> (b: bool)
        ensures
            b == contains_series(self@, series@),
    {
        let mut i: usize = 0;
        while i < self.entries.len()
            invariant
                i <= self@.len(),
                forall|k: int| 0 <= k < i ==> self@[k].series != series@,
            decreases self@.len() - i,
        {
            if str_eq(self.entries[i].series.as_str(), series) {
                proof {
                    assert(self@[i as int].series == series@);
                }
                return true;
            }
            i = i + 1;
        }
        false
    }

    /// Look one series up; `Some` exactly when the aggregate holds it.
    pub fn get(&self, series: &str) -> (r: Option<&Vec<Observation>>)
        ensures
            match r {
                Some(obs) => contains_series(self@, series@) && exists|i: int|
                    0 <= i < self@.len() && self@[i].series == series@
                        && obs.deep_view() == self@[i].observations,
                None => !contains_series(self@, series@),
            },
    {
        let mut i: usize = 0;
        while i < self.entries.len()
            invariant
                i <= self@.len(),
                forall|k: int| 0 <= k < i ==> self@[k].series != series@,
            decreases self@.len() - i,
        {
            if str_eq(self.entries[i].series.as_str(), series) {
                proof {
                    assert(self@[i as int].series == series@);
                    assert(self@[i as int].observations
                        == self.entries@[i as int].observations.deep_view());
                }
                return Some(&self.entries[i].observations);
            }
            i = i + 1;
        }
        None
    }

    /// Append one series. The caller guarantees the identifier is new and
    /// the dataset non-empty, so well-formedness is preserved.
    pub fn insert(&mut self, series: String, observations: Vec<Observation>)
        requires
            old(self).wf(),
            !contains_series(old(self)@, series@),
            observations@.len() > 0,
        ensures
            final(self)@ == old(self)@.push(
                EntryModel { series: series@, observations: observations.deep_view() },
            ),
            final(self).wf(),
    {
        let ghost pre = self@;
        self.entries.push(SeriesEntry { series, observations });
        proof {
            assert(self@ =~= pre.push(self@[pre.len() as int]));
            assert forall|i: int, j: int|
                0 <= i < j < self@.len() implies self@[i].series != self@[j].series by {
                if j < pre.len() {
                    assert(pre[i].series != pre[j].series);
                } else {
                    assert(!contains_series(pre, self@[j].series));
                }
            }
        }
    }
}

/// Character-for-character string equality, proved against the views.
pub fn str_eq(a: &str, b: &str) -> (r: bool)
    ensures
        r == (a@ == b@),
{
    let alen = a.unicode_len();
    let blen = b.unicode_len();
    if alen != blen {
        assert(a@ != b@) by {
            assert(a@.len() != b@.len());
        }
        return false;
    }
    let mut i: usize = 0;
    while i < alen
        invariant
            alen == a@.len(),
            alen == b@.len(),
            i <= alen,
            forall|k: int| 0 <= k < i ==> a@[k] == b@[k],
        decreases alen - i,
    {
        if a.get_char(i) != b.get_char(i) {
            return false;
        }
        i = i + 1;
    }
    proof {
        assert(a@ =~= b@);
    }
    true
}

} // verus!
