//! The Driver: a linear state machine over one run. It decides, from the
//! state alone, what to do next — fetch the next configured series, send
//! the accumulated aggregate once, or finish — and records the outcome of
//! each step. The caller performs the network calls and feeds the results
//! back; everything the Driver decides is verified here.

use vstd::prelude::*;

use crate::collector::{build_url, url_of};
use crate::data::{contains_series, Aggregate, EntryModel, FetchError, ObsModel, Observation};
use crate::json_text::{json_aggregate, serialize_aggregate};

verus! {

/// One configured series: its identifier and the resolved date range, as
/// the texts the upstream API expects.
pub struct SeriesSpec {
    pub series_id: String,
    pub start_date: String,
    pub end_date: String,
}

/// Configured series identifiers are pairwise distinct.
pub open spec fn distinct_ids(config: Seq<SeriesSpec>) -> bool {
    forall|i: int, j: int|
        0 <= i < j < config.len() ==> config[i].series_id@ != config[j].series_id@
}

/// What the run should do next.
pub enum Action {
    /// Fetch the series at this index of the configuration, with this URL.
    Fetch { index: usize, url: String },
    /// Perform the one forwarding POST of this body to this URL.
    Send { url: String, body: String },
    /// Nothing is left to do.
    Finish,
}

/// What one fetch outcome contributes: the dataset on success, nothing on
/// failure.
pub open spec fn outcome_model(o: Result<Vec<Observation>, FetchError>) -> Option<Seq<ObsModel>> {
    match o {
        Ok(v) => Some(v.deep_view()),
        Err(e) => None,
    }
}

/// A fetch outcome that contributes an entry: a success with data.
pub open spec fn succeeded(outcome: Option<Seq<ObsModel>>) -> bool {
    outcome matches Some(obs) && obs.len() > 0
}

/// The dataset of an outcome; empty for failures.
pub open spec fn outcome_data(outcome: Option<Seq<ObsModel>>) -> Seq<ObsModel> {
    match outcome {
        Some(obs) => obs,
        None => Seq::empty(),
    }
}

/// How one series outcome extends the aggregate: an entry is appended
/// exactly when the fetch succeeded with a non-empty dataset; otherwise
/// the aggregate is unchanged.
pub open spec fn aggregate_step(
    agg: Seq<EntryModel>,
    id: Seq<char>,
    outcome: Option<Seq<ObsModel>>,
) -> Seq<EntryModel> {
    if succeeded(outcome) {
        agg.push(EntryModel { series: id, observations: outcome_data(outcome) })
    } else {
        agg
    }
}

/// The aggregate left by a whole collection pass: `ids` in order, each
/// with its outcome.
pub open spec fn aggregate_after(
    ids: Seq<Seq<char>>,
    outcomes: Seq<Option<Seq<ObsModel>>>,
) -> Seq<EntryModel>
    recommends
        ids.len() == outcomes.len(),
    decreases ids.len(),
{
    if ids.len() == 0 {
        Seq::empty()
    } else {
        aggregate_step(
            aggregate_after(ids.drop_last(), outcomes.drop_last()),
            ids.last(),
            outcomes.last(),
        )
    }
}

/// The entry that series `k` of the pass contributes when its fetch
/// succeeds with data.
pub open spec fn entry_of(
    ids: Seq<Seq<char>>,
    outcomes: Seq<Option<Seq<ObsModel>>>,
    k: int,
) -> EntryModel {
    EntryModel { series: ids[k], observations: outcome_data(outcomes[k]) }
}

/// `e` is the contribution of some series of the pass whose fetch
/// succeeded with data.
pub open spec fn entry_stems(
    ids: Seq<Seq<char>>,
    outcomes: Seq<Option<Seq<ObsModel>>>,
    e: EntryModel,
) -> bool {
    exists|k: int|
        0 <= k < ids.len() && succeeded(#[trigger] outcomes[k]) && e == entry_of(ids, outcomes, k)
}

/// `agg` holds the entry `e` somewhere.
pub open spec fn holds_entry(agg: Seq<EntryModel>, e: EntryModel) -> bool {
    exists|j: int| 0 <= j < agg.len() && (#[trigger] agg[j]) == e
}

/// One more step folds onto the end of a pass.
pub proof fn lemma_aggregate_after_push(
    ids: Seq<Seq<char>>,
    outcomes: Seq<Option<Seq<ObsModel>>>,
    id: Seq<char>,
    outcome: Option<Seq<ObsModel>>,
)
    requires
        ids.len() == outcomes.len(),
    ensures
        aggregate_after(ids.push(id), outcomes.push(outcome)) == aggregate_step(
            aggregate_after(ids, outcomes),
            id,
            outcome,
        ),
{
    assert(ids.push(id).drop_last() =~= ids);
    assert(outcomes.push(outcome).drop_last() =~= outcomes);
}

/// Law: after a whole pass, every aggregate entry stems from some series
/// whose fetch succeeded with data and carries exactly the observations
/// that fetch returned, in order; and every such series has its entry.
pub proof fn lemma_aggregate_after_characterized(
    ids: Seq<Seq<char>>,
    outcomes: Seq<Option<Seq<ObsModel>>>,
)
    requires
        ids.len() == outcomes.len(),
    ensures
        forall|j: int|
            0 <= j < aggregate_after(ids, outcomes).len() ==> entry_stems(
                ids,
                outcomes,
                #[trigger] aggregate_after(ids, outcomes)[j],
            ),
        forall|k: int|
            0 <= k < ids.len() && succeeded(#[trigger] outcomes[k]) ==> holds_entry(
                aggregate_after(ids, outcomes),
                entry_of(ids, outcomes, k),
            ),
    decreases ids.len(),
{
    if ids.len() > 0 {
        let ids0 = ids.drop_last();
        let outs0 = outcomes.drop_last();
        lemma_aggregate_after_characterized(ids0, outs0);
        let n = ids.len() - 1;
        assert(aggregate_after(ids, outcomes) == aggregate_step(
            aggregate_after(ids0, outs0),
            ids[n],
            outcomes[n],
        )) by {
            assert(ids.last() == ids[n]);
            assert(outcomes.last() == outcomes[n]);
        }
        assert forall|j: int|
            0 <= j < aggregate_after(ids, outcomes).len() implies entry_stems(
            ids,
            outcomes,
            #[trigger] aggregate_after(ids, outcomes)[j],
        ) by {
            if j < aggregate_after(ids0, outs0).len() {
                assert(entry_stems(ids0, outs0, aggregate_after(ids0, outs0)[j]));
                let k = choose|k: int|
                    0 <= k < ids0.len() && succeeded(outs0[k]) && aggregate_after(ids0, outs0)[j]
                        == entry_of(ids0, outs0, k);
                assert(ids.drop_last()[k] == ids[k]);
                assert(outcomes.drop_last()[k] == outcomes[k]);
                assert(succeeded(outcomes[k]));
                assert(entry_of(ids0, outs0, k) == entry_of(ids, outcomes, k));
                assert(aggregate_after(ids, outcomes)[j] == aggregate_after(ids0, outs0)[j]);
            } else {
                assert(succeeded(outcomes[n]));
                assert(aggregate_after(ids, outcomes)[j] == entry_of(ids, outcomes, n));
            }
        }
        assert forall|k: int|
            0 <= k < ids.len() && succeeded(#[trigger] outcomes[k]) implies holds_entry(
            aggregate_after(ids, outcomes),
            entry_of(ids, outcomes, k),
        ) by {
            if k < n {
                assert(ids.drop_last()[k] == ids[k]);
                assert(outcomes.drop_last()[k] == outcomes[k]);
                assert(succeeded(outs0[k]));
                assert(holds_entry(aggregate_after(ids0, outs0), entry_of(ids0, outs0, k)));
                let j = choose|j: int|
                    0 <= j < aggregate_after(ids0, outs0).len() && aggregate_after(ids0, outs0)[j]
                        == entry_of(ids0, outs0, k);
                assert(aggregate_after(ids, outcomes)[j] == aggregate_after(ids0, outs0)[j]);
                assert(entry_of(ids0, outs0, k) == entry_of(ids, outcomes, k));
            } else {
                let m = aggregate_after(ids, outcomes).len() - 1;
                assert(aggregate_after(ids, outcomes)[m] == entry_of(ids, outcomes, n));
            }
        }
    }
}

/// Law: a series whose fetch failed or returned an empty dataset is
/// absent from the aggregate after the pass, provided the configured
/// identifiers are pairwise distinct.
pub proof fn lemma_failed_series_absent(
    ids: Seq<Seq<char>>,
    outcomes: Seq<Option<Seq<ObsModel>>>,
    i: int,
)
    requires
        ids.len() == outcomes.len(),
        forall|k: int, l: int| 0 <= k < l < ids.len() ==> ids[k] != ids[l],
        0 <= i < ids.len(),
        !succeeded(outcomes[i]),
    ensures
        !contains_series(aggregate_after(ids, outcomes), ids[i]),
{
    lemma_aggregate_after_characterized(ids, outcomes);
    if contains_series(aggregate_after(ids, outcomes), ids[i]) {
        let j = choose|j: int|
            0 <= j < aggregate_after(ids, outcomes).len() && aggregate_after(ids, outcomes)[j].series
                == ids[i];
        assert(entry_stems(ids, outcomes, aggregate_after(ids, outcomes)[j]));
        let k = choose|k: int|
            0 <= k < ids.len() && succeeded(outcomes[k]) && aggregate_after(ids, outcomes)[j]
                == entry_of(ids, outcomes, k);
        assert(ids[k] == ids[i]);
        if k < i {
            assert(ids[k] != ids[i]);
        } else if i < k {
            assert(ids[i] != ids[k]);
        }
        assert(k == i);
        assert(succeeded(outcomes[i]));
    }
}

/// Law: when no series fetch succeeds with data, the pass leaves the
/// aggregate empty — and the driver then finishes without a send (see
/// [`Driver::next_action`]).
pub proof fn lemma_all_failed_aggregate_empty(
    ids: Seq<Seq<char>>,
    outcomes: Seq<Option<Seq<ObsModel>>>,
)
    requires
        ids.len() == outcomes.len(),
        forall|k: int| 0 <= k < outcomes.len() ==> !succeeded(#[trigger] outcomes[k]),
    ensures
        aggregate_after(ids, outcomes).len() == 0,
{
    lemma_aggregate_after_characterized(ids, outcomes);
    if aggregate_after(ids, outcomes).len() > 0 {
        assert(entry_stems(ids, outcomes, aggregate_after(ids, outcomes)[0]));
        let k = choose|k: int|
            0 <= k < ids.len() && succeeded(outcomes[k]) && aggregate_after(ids, outcomes)[0]
                == entry_of(ids, outcomes, k);
        assert(!succeeded(outcomes[k]));
    }
}

/// The run's state: which series is next, what has accumulated, and
/// whether the one send was already attempted.
pub struct Driver {
    pub config: Vec<SeriesSpec>,
    pub endpoint: String,
    pub next_index: usize,
    pub aggregate: Aggregate,
    pub send_attempted: bool,
}

impl Driver {
    /// Some configured series still waits for its fetch.
    pub open spec fn collecting(&self) -> bool {
        self.next_index < self.config@.len()
    }

    /// The state invariant of a run.
    pub open spec fn wf(&self) -> bool {
        &&& self.next_index <= self.config@.len()
        &&& distinct_ids(self.config@)
        &&& self.aggregate.wf()
        &&& self.send_attempted ==> self.next_index == self.config@.len()
        &&& forall|k: int|
            self.next_index <= k < self.config@.len() ==> !contains_series(
                self.aggregate@,
                #[trigger] self.config@[k].series_id@,
            )
    }

    /// Start a run over the given configuration.
    pub fn new(config: Vec<SeriesSpec>, endpoint: String) -> (r: Driver)
        requires
            distinct_ids(config@),
        ensures
            r.wf(),
            r.config == config,
            r.endpoint == endpoint,
            r.next_index == 0,
            r.aggregate@.len() == 0,
            !r.send_attempted,
    {
        Driver {
            config,
            endpoint,
            next_index: 0,
            aggregate: Aggregate::new(),
            send_attempted: false,
        }
    }

    /// Decide the next step from the state alone: fetch the next series
    /// while any remains; after the last, send the aggregate exactly once
    /// if and only if it is non-empty; otherwise finish.
    pub fn next_action(&self) -> (a: Action)
        requires
            self.wf(),
        ensures
            match a {
                Action::Fetch { index, url } => self.collecting() && index == self.next_index
                    && url@ == url_of(
                    self.config@[index as int].series_id@,
                    self.config@[index as int].start_date@,
                    self.config@[index as int].end_date@,
                ),
                Action::Send { url, body } => !self.collecting() && !self.send_attempted
                    && self.aggregate@.len() > 0 && url@ == self.endpoint@ && body@
                    == json_aggregate(self.aggregate@),
                Action::Finish => !self.collecting() && (self.send_attempted
                    || self.aggregate@.len() == 0),
            },
    {
        if self.next_index < self.config.len() {
            let s = &self.config[self.next_index];
            Action::Fetch {
                index: self.next_index,
                url: build_url(s.series_id.as_str(), s.start_date.as_str(), s.end_date.as_str()),
            }
        } else if !self.send_attempted && !self.aggregate.is_empty() {
            Action::Send { url: self.endpoint.clone(), body: serialize_aggregate(&self.aggregate) }
        } else {
            Action::Finish
        }
    }

    /// Record the outcome of the fetch for the current series: a success
    /// with data adds an entry under the series identifier; a failure or
    /// an empty dataset leaves the aggregate as it was. Either way the run
    /// moves on to the next series — one series never aborts the run.
    pub fn record_fetch(&mut self, outcome: Result<Vec<Observation>, FetchError>)
        requires
            old(self).wf(),
            old(self).collecting(),
        ensures
            final(self).wf(),
            final(self).next_index == old(self).next_index + 1,
            final(self).config == old(self).config,
            final(self).endpoint == old(self).endpoint,
            final(self).send_attempted == old(self).send_attempted,
            final(self).aggregate@ == aggregate_step(
                old(self).aggregate@,
                old(self).config@[old(self).next_index as int].series_id@,
                outcome_model(outcome),
            ),
    {
        let limit = self.config.len();
        match outcome {
            Ok(data) => {
                if data.len() > 0 {
                    let id = self.config[self.next_index].series_id.clone();
                    self.aggregate.insert(id, data);
                    proof {
                        assert forall|k: int|
                            self.next_index + 1 <= k < self.config@.len() implies !contains_series(
                            self.aggregate@,
                            #[trigger] self.config@[k].series_id@,
                        ) by {
                            let pre = old(self).aggregate@;
                            assert(!contains_series(pre, self.config@[k].series_id@));
                            assert(self.config@[self.next_index as int].series_id@
                                != self.config@[k].series_id@);
                        }
                    }
                }
            },
            Err(e) => {},
        }
        proof {
            assert(self.next_index < limit);
        }
        self.next_index = self.next_index + 1;
    }

    /// Record that the one forwarding call was attempted. Its outcome does
    /// not change what the run does next: success or failure, the run
    /// finishes.
    pub fn record_send(&mut self)
        requires
            old(self).wf(),
            !old(self).collecting(),
            !old(self).send_attempted,
        ensures
            final(self).wf(),
            final(self).send_attempted,
            final(self).config == old(self).config,
            final(self).endpoint == old(self).endpoint,
            final(self).next_index == old(self).next_index,
            final(self).aggregate == old(self).aggregate,
    {
        self.send_attempted = true;
    }
}

} // verus!
