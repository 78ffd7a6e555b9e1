use vstd::prelude::*;

use crate::model::{
    entry_ids_of, record_ids, Entry, ImpressionRecord, BERTV2_EMBEDDING_DIMENSION,
    MAX_TITLE_TOKENS,
};
use crate::sampling::{is_selection, sample_entry_ids, sample_size, valid_picks, SAMPLE_LIMIT};

verus! {

/// Where a run stands: what it has asked for and is waiting on.
#[derive(Clone, Copy, Debug, PartialEq, Eq, Structural)]
pub enum Phase {
    /// Nothing asked yet.
    Start,
    /// Waits for the impressions of the source.
    Listing,
    /// Waits for the sampled entry at `cursor`.
    LookingUp,
    /// Waits for the encoding of that entry's title.
    Encoding,
    /// Waits until that encoding was added to the accumulator.
    Accumulating,
    /// Waits for the source prior.
    FetchingPrior,
    /// Waits until the source prior was added to the accumulator.
    AddingPrior,
    /// Waits until the accumulator was normalized into the computed embedding.
    Normalizing,
    /// Waits for the persisted user embedding.
    FetchingExisting,
    /// Waits until the final embedding was formed.
    Merging,
    /// Waits until the final embedding was written.
    Persisting,
    /// The final embedding was written.
    Done,
    /// A fatal condition ended the run. Nothing was written, unless the
    /// condition came while the write asked for by `Persist` was pending.
    Aborted,
}

/// What became of one sampled entry.
#[derive(Clone, Debug, PartialEq)]
pub enum EntryOutcome {
    /// Its title was encoded and the encoding added to the accumulator.
    Encoded { id: String, title: String },
    /// The knowledge base has no such entry.
    MissingEntry { id: String },
    /// The entry has no title.
    MissingTitle { id: String },
    /// The encoder gave no vector for the title, or one that does not have
    /// `BERTV2_EMBEDDING_DIMENSION` components.
    EncodingFailure { id: String },
}

/// What became of the source prior.
#[derive(Clone, Copy, Debug, PartialEq, Eq, Structural)]
pub enum PriorOutcome {
    /// Not fetched yet.
    Pending,
    /// The knowledge base holds none for the source: the accumulator is left as it is.
    Missing,
    /// It was added to the accumulator.
    Added,
}

/// A condition that ends a run.
#[derive(Clone, Copy, Debug, PartialEq, Eq, Structural)]
pub enum Fatal {
    /// The impressions of the source could not be listed.
    ImpressionsUnavailable,
    /// The persisted user embedding could not be fetched.
    ExistingUnavailable,
    /// The source prior or the persisted user embedding does not have
    /// `BERTV2_EMBEDDING_DIMENSION` components.
    DimensionMismatch,
    /// An event came that the phase does not wait for.
    UnexpectedEvent,
}

/// What the caller reports back after carrying out the last action.
#[derive(Clone, Debug, PartialEq)]
pub enum Event {
    /// Starts the run.
    Begin,
    /// The impressions of the source, or `None` where listing failed.
    Impressions(Option<Vec<ImpressionRecord>>),
    /// The entry looked up, or `None` where it does not exist.
    EntryFound(Option<Entry>),
    /// The number of components of the encoding, or `None` where encoding failed.
    Encoded(Option<usize>),
    /// The number of components of the vector fetched, or `None` where there is none.
    Fetched(Option<usize>),
    /// The accumulator operation or the write that was asked for is done.
    Applied,
}

/// What the caller is to do next.
#[derive(Clone, Debug, PartialEq)]
pub enum Action {
    /// List the impressions of `source`.
    ListImpressions { source: String },
    /// Look up the entry `id`.
    LookupEntry { id: String },
    /// Encode `title` with at most `max_tokens` tokens.
    EncodeTitle { title: String, max_tokens: usize },
    /// Add the encoding just made to the accumulator.
    AddEncoding,
    /// Fetch the prior embedding of `source`, with `dim` components.
    FetchSourcePrior { source: String, dim: usize },
    /// Add the source prior just fetched to the accumulator.
    AddSourcePrior,
    /// L2-normalize the accumulator: this is the computed embedding.
    NormalizeAccumulator,
    /// Fetch the persisted user embedding, with `dim` components.
    FetchExisting { dim: usize },
    /// L2-normalize the sum of the computed and the persisted embedding: the final embedding.
    MergeExisting,
    /// Write the final embedding.
    Persist,
    /// Nothing is left to do.
    Finish,
    /// The run ended on `fatal`; write nothing more.
    Abort { fatal: Fatal },
}

/// One aggregation pass for one source.
pub struct Run {
    pub source: String,
    pub phase: Phase,
    /// The sampled entry ids, in the order they are processed.
    pub sample: Vec<String>,
    /// How many sampled entries are settled.
    pub cursor: usize,
    /// One outcome per settled entry, in sample order.
    pub outcomes: Vec<EntryOutcome>,
    /// The title being encoded while the phase is `Encoding`.
    pub pending_title: String,
    pub prior: PriorOutcome,
    pub fatal: Option<Fatal>,
}

/// A summand of the accumulator.
pub enum Term {
    /// The encoding of a title.
    Encoding(Seq<char>),
    /// The prior embedding of the source.
    SourcePrior,
}

impl EntryOutcome {
    /// The sampled entry id that the outcome is about.
    pub open spec fn entry_id(self) -> String {
        match self {
            EntryOutcome::Encoded { id, .. } => id,
            EntryOutcome::MissingEntry { id } => id,
            EntryOutcome::MissingTitle { id } => id,
            EntryOutcome::EncodingFailure { id } => id,
        }
    }
}

/// The titles whose encodings went into the accumulator, in order.
pub open spec fn encoded_titles(outcomes: Seq<EntryOutcome>) -> Seq<Seq<char>>
    decreases outcomes.len(),
{
    if outcomes.len() == 0 {
        Seq::empty()
    } else {
        let earlier = encoded_titles(outcomes.drop_last());
        match outcomes.last() {
            EntryOutcome::Encoded { title, .. } => earlier.push(title@),
            _ => earlier,
        }
    }
}

/// The summands of the accumulator of `r`: the encoded titles, then the
/// source prior where it was added. The computed embedding is the
/// L2-normalized sum of these.
pub open spec fn computed_terms(r: Run) -> Seq<Term> {
    encoded_titles(r.outcomes@).map_values(|t: Seq<char>| Term::Encoding(t)) + if r.prior
        == PriorOutcome::Added {
        seq![Term::SourcePrior]
    } else {
        Seq::empty()
    }
}

/// The phases in which every sampled entry is settled.
pub open spec fn sampling_over(p: Phase) -> bool {
    p == Phase::FetchingPrior || p == Phase::AddingPrior || p == Phase::Normalizing || p
        == Phase::FetchingExisting || p == Phase::Merging || p == Phase::Persisting || p
        == Phase::Done
}

/// The phases before the source prior is fetched.
pub open spec fn before_prior(p: Phase) -> bool {
    p == Phase::Start || p == Phase::Listing || p == Phase::LookingUp || p == Phase::Encoding || p
        == Phase::Accumulating || p == Phase::FetchingPrior
}

/// What comes once `r.cursor` sampled entries are settled: the next entry is
/// looked up, or, when none is left, the source prior is fetched.
pub open spec fn proceeds(r: Run, a: Action) -> bool {
    if r.cursor < r.sample@.len() {
        &&& r.phase == Phase::LookingUp
        &&& a == (Action::LookupEntry { id: r.sample@[r.cursor as int] })
    } else {
        &&& r.phase == Phase::FetchingPrior
        &&& a == (Action::FetchSourcePrior { source: r.source, dim: BERTV2_EMBEDDING_DIMENSION })
    }
}

/// `n` is `o` with one more sampled entry settled as `e`, in some phase.
pub open spec fn settled(o: Run, n: Run, e: EntryOutcome) -> bool {
    &&& n.source == o.source
    &&& n.sample == o.sample
    &&& n.cursor == o.cursor + 1
    &&& n.outcomes@ == o.outcomes@.push(e)
    &&& n.prior == o.prior
    &&& n.fatal == o.fatal
    &&& n.pending_title == o.pending_title
}

/// `n` is `o` ended on `f`, and `a` says so.
pub open spec fn aborted(o: Run, n: Run, f: Fatal, a: Action) -> bool {
    &&& n == (Run { phase: Phase::Aborted, fatal: Some(f), ..o })
    &&& a == (Action::Abort { fatal: f })
}

/// `n` is `o` in phase `p`, and `a` is asked for.
pub open spec fn moved(o: Run, n: Run, p: Phase, a: Action, b: Action) -> bool {
    &&& n == (Run { phase: p, ..o })
    &&& a == b
}

/// The title to encode for the sampled entry `id`, as the knowledge base
/// returned it; or, where there is none, the outcome that skips the entry.
pub fn classify_entry(id: &String, entry: Option<Entry>) -> (r: Result<String, EntryOutcome>)
    ensures
        match entry {
            None => r == Err::<String, EntryOutcome>(EntryOutcome::MissingEntry { id: *id }),
            Some(e) => match e.title {
                None => r == Err::<String, EntryOutcome>(EntryOutcome::MissingTitle { id: *id }),
                Some(t) => r == Ok::<String, EntryOutcome>(t),
            },
        },
{
    match entry {
        None => Err(EntryOutcome::MissingEntry { id: id.clone() }),
        Some(e) => match e.title {
            None => Err(EntryOutcome::MissingTitle { id: id.clone() }),
            Some(t) => Ok(t),
        },
    }
}

/// One step of a run: from `o`, on the report `e`, the run becomes `n` and
/// asks for `a`.
pub open spec fn transition(o: Run, e: Event, n: Run, a: Action) -> bool {
    match (o.phase, e) {
        (Phase::Aborted, _) => n == o && a == (Action::Abort {
            fatal: o.fatal.unwrap(),
        }),
        (Phase::Done, _) => n == o && a == Action::Finish,
        (Phase::Start, Event::Begin) => moved(
            o,
            n,
            Phase::Listing,
            a,
            Action::ListImpressions { source: o.source },
        ),
        (Phase::Listing, Event::Impressions(None)) => aborted(
            o,
            n,
            Fatal::ImpressionsUnavailable,
            a,
        ),
        (Phase::Listing, Event::Impressions(Some(records))) => {
            &&& n.source == o.source
            &&& n.cursor == 0
            &&& n.outcomes@.len() == 0
            &&& n.prior == o.prior
            &&& n.fatal == o.fatal
            &&& n.sample@.len() == sample_size(records@.len())
            &&& n.sample@.to_multiset().subset_of(record_ids(records@).to_multiset())
            &&& exists|picks: Seq<usize>|
                valid_picks(picks, records@.len()) && #[trigger] is_selection(
                    n.sample@,
                    record_ids(records@),
                    picks,
                )
            &&& proceeds(n, a)
        },
        (Phase::LookingUp, Event::EntryFound(None)) => {
            &&& settled(
                o,
                n,
                EntryOutcome::MissingEntry { id: o.sample@[o.cursor as int] },
            )
            &&& proceeds(n, a)
        },
        (Phase::LookingUp, Event::EntryFound(Some(entry))) => match entry.title {
            None => {
                &&& settled(
                    o,
                    n,
                    EntryOutcome::MissingTitle {
                        id: o.sample@[o.cursor as int],
                    },
                )
                &&& proceeds(n, a)
            },
            Some(t) => {
                &&& n == (Run {
                    phase: Phase::Encoding,
                    pending_title: t,
                    ..o
                })
                &&& a == (Action::EncodeTitle { title: t, max_tokens: MAX_TITLE_TOKENS })
            },
        },
        (Phase::Encoding, Event::Encoded(None)) => {
            &&& settled(
                o,
                n,
                EntryOutcome::EncodingFailure {
                    id: o.sample@[o.cursor as int],
                },
            )
            &&& proceeds(n, a)
        },
        (Phase::Encoding, Event::Encoded(Some(len))) => if len
            == BERTV2_EMBEDDING_DIMENSION {
            &&& settled(
                o,
                n,
                EntryOutcome::Encoded {
                    id: o.sample@[o.cursor as int],
                    title: o.pending_title,
                },
            )
            &&& n.phase == Phase::Accumulating
            &&& a == Action::AddEncoding
        } else {
            &&& settled(
                o,
                n,
                EntryOutcome::EncodingFailure {
                    id: o.sample@[o.cursor as int],
                },
            )
            &&& proceeds(n, a)
        },
        (Phase::Accumulating, Event::Applied) => {
            &&& n == (Run { phase: n.phase, ..o })
            &&& proceeds(n, a)
        },
        (Phase::FetchingPrior, Event::Fetched(None)) => {
            &&& n == (Run {
                phase: Phase::Normalizing,
                prior: PriorOutcome::Missing,
                ..o
            })
            &&& a == Action::NormalizeAccumulator
        },
        (Phase::FetchingPrior, Event::Fetched(Some(len))) => if len
            == BERTV2_EMBEDDING_DIMENSION {
            &&& n == (Run {
                phase: Phase::AddingPrior,
                prior: PriorOutcome::Added,
                ..o
            })
            &&& a == Action::AddSourcePrior
        } else {
            aborted(o, n, Fatal::DimensionMismatch, a)
        },
        (Phase::AddingPrior, Event::Applied) => moved(
            o,
            n,
            Phase::Normalizing,
            a,
            Action::NormalizeAccumulator,
        ),
        (Phase::Normalizing, Event::Applied) => moved(
            o,
            n,
            Phase::FetchingExisting,
            a,
            Action::FetchExisting { dim: BERTV2_EMBEDDING_DIMENSION },
        ),
        (Phase::FetchingExisting, Event::Fetched(None)) => aborted(
            o,
            n,
            Fatal::ExistingUnavailable,
            a,
        ),
        (Phase::FetchingExisting, Event::Fetched(Some(len))) => if len
            == BERTV2_EMBEDDING_DIMENSION {
            moved(o, n, Phase::Merging, a, Action::MergeExisting)
        } else {
            aborted(o, n, Fatal::DimensionMismatch, a)
        },
        (Phase::Merging, Event::Applied) => moved(
            o,
            n,
            Phase::Persisting,
            a,
            Action::Persist,
        ),
        (Phase::Persisting, Event::Applied) => moved(
            o,
            n,
            Phase::Done,
            a,
            Action::Finish,
        ),
        _ => aborted(o, n, Fatal::UnexpectedEvent, a),
    }
}

impl Run {
    /// The invariant of a run.
    pub open spec fn wf(self) -> bool {
        &&& self.sample@.len() <= SAMPLE_LIMIT
        &&& self.cursor <= self.sample@.len()
        &&& self.outcomes@.len() == self.cursor
        &&& forall|i: int|
            0 <= i < self.cursor ==> #[trigger] self.outcomes@[i].entry_id() == self.sample@[i]
        &&& (self.phase == Phase::LookingUp || self.phase == Phase::Encoding) ==> self.cursor
            < self.sample@.len()
        &&& sampling_over(self.phase) ==> self.cursor == self.sample@.len()
        &&& before_prior(self.phase) ==> self.prior == PriorOutcome::Pending
        &&& self.phase == Phase::AddingPrior ==> self.prior == PriorOutcome::Added
        &&& (self.phase == Phase::Aborted) == self.fatal.is_some()
    }

    /// A run for `source` that has asked for nothing yet.
    pub fn new(source: String) -> (r: Run)
        ensures
            r.wf(),
            r.source == source,
            r.phase == Phase::Start,
            r.sample@.len() == 0,
            r.prior == PriorOutcome::Pending,
            r.fatal.is_none(),
    {
        Run {
            source,
            phase: Phase::Start,
            sample: Vec::new(),
            cursor: 0,
            outcomes: Vec::new(),
            pending_title: String::new(),
            prior: PriorOutcome::Pending,
            fatal: None,
        }
    }

    fn proceed(&mut self) -> (a: Action)
        requires
            old(self).cursor <= old(self).sample@.len(),
        ensures
            *final(self) == (Run { phase: final(self).phase, ..*old(self) }),
            proceeds(*final(self), a),
    {
        if self.cursor < self.sample.len() {
            self.phase = Phase::LookingUp;
            Action::LookupEntry { id: self.sample[self.cursor].clone() }
        } else {
            self.phase = Phase::FetchingPrior;
            Action::FetchSourcePrior {
                source: self.source.clone(),
                dim: BERTV2_EMBEDDING_DIMENSION,
            }
        }
    }

    fn settle(&mut self, e: EntryOutcome)
        requires
            old(self).cursor < old(self).sample@.len() <= SAMPLE_LIMIT,
            old(self).outcomes@.len() == old(self).cursor,
        ensures
            settled(*old(self), *final(self), e),
            final(self).phase == old(self).phase,
    {
        self.outcomes.push(e);
        self.cursor = self.cursor + 1;
    }

    fn abort(&mut self, f: Fatal) -> (a: Action)
        ensures
            aborted(*old(self), *final(self), f, a),
    {
        self.phase = Phase::Aborted;
        self.fatal = Some(f);
        Action::Abort { fatal: f }
    }

    /// Takes the caller's report on the last action and says what to do next.
    pub fn step(&mut self, event: Event) -> (a: Action)
        requires
            old(self).wf(),
        ensures
            final(self).wf(),
            transition(*old(self), event, *final(self), a),
    {
        match (self.phase, event) {
            (Phase::Aborted, _) => {
                match self.fatal {
                    Some(f) => Action::Abort { fatal: f },
                    None => Action::Finish,
                }
            },
            (Phase::Done, _) => Action::Finish,
            (Phase::Start, Event::Begin) => {
                self.phase = Phase::Listing;
                Action::ListImpressions { source: self.source.clone() }
            },
            (Phase::Listing, Event::Impressions(None)) => self.abort(Fatal::ImpressionsUnavailable),
            (Phase::Listing, Event::Impressions(Some(records))) => {
                let ids = entry_ids_of(&records);
                self.sample = sample_entry_ids(&ids);
                self.cursor = 0;
                self.outcomes = Vec::new();
                self.proceed()
            },
            (Phase::LookingUp, Event::EntryFound(found)) => {
                let id = self.sample[self.cursor].clone();
                match classify_entry(&id, found) {
                    Err(skipped) => {
                        self.settle(skipped);
                        self.proceed()
                    },
                    Ok(t) => {
                        self.phase = Phase::Encoding;
                        self.pending_title = t.clone();
                        Action::EncodeTitle { title: t, max_tokens: MAX_TITLE_TOKENS }
                    },
                }
            },
            (Phase::Encoding, Event::Encoded(None)) => {
                let id = self.sample[self.cursor].clone();
                self.settle(EntryOutcome::EncodingFailure { id });
                self.proceed()
            },
            (Phase::Encoding, Event::Encoded(Some(len))) => {
                if len == BERTV2_EMBEDDING_DIMENSION {
                    let id = self.sample[self.cursor].clone();
                    let title = self.pending_title.clone();
                    self.settle(EntryOutcome::Encoded { id, title });
                    self.phase = Phase::Accumulating;
                    Action::AddEncoding
                } else {
                    let id = self.sample[self.cursor].clone();
                    self.settle(EntryOutcome::EncodingFailure { id });
                    self.proceed()
                }
            },
            (Phase::Accumulating, Event::Applied) => self.proceed(),
            (Phase::FetchingPrior, Event::Fetched(None)) => {
                self.phase = Phase::Normalizing;
                self.prior = PriorOutcome::Missing;
                Action::NormalizeAccumulator
            },
            (Phase::FetchingPrior, Event::Fetched(Some(len))) => {
                if len == BERTV2_EMBEDDING_DIMENSION {
                    self.phase = Phase::AddingPrior;
                    self.prior = PriorOutcome::Added;
                    Action::AddSourcePrior
                } else {
                    self.abort(Fatal::DimensionMismatch)
                }
            },
            (Phase::AddingPrior, Event::Applied) => {
                self.phase = Phase::Normalizing;
                Action::NormalizeAccumulator
            },
            (Phase::Normalizing, Event::Applied) => {
                self.phase = Phase::FetchingExisting;
                Action::FetchExisting { dim: BERTV2_EMBEDDING_DIMENSION }
            },
            (Phase::FetchingExisting, Event::Fetched(None)) => self.abort(
                Fatal::ExistingUnavailable,
            ),
            (Phase::FetchingExisting, Event::Fetched(Some(len))) => {
                if len == BERTV2_EMBEDDING_DIMENSION {
                    self.phase = Phase::Merging;
                    Action::MergeExisting
                } else {
                    self.abort(Fatal::DimensionMismatch)
                }
            },
            (Phase::Merging, Event::Applied) => {
                self.phase = Phase::Persisting;
                Action::Persist
            },
            (Phase::Persisting, Event::Applied) => {
                self.phase = Phase::Done;
                Action::Finish
            },
            _ => self.abort(Fatal::UnexpectedEvent),
        }
    }
}

/// Where no settled entry was encoded, no title reached the accumulator.
proof fn lemma_none_encoded(outcomes: Seq<EntryOutcome>)
    requires
        forall|i: int| 0 <= i < outcomes.len() ==> !(outcomes[i] is Encoded),
    ensures
        encoded_titles(outcomes) == Seq::<Seq<char>>::empty(),
    decreases outcomes.len(),
{
    if outcomes.len() > 0 {
        let earlier = outcomes.drop_last();
        assert(forall|i: int| 0 <= i < earlier.len() ==> earlier[i] == outcomes[i]);
        lemma_none_encoded(earlier);
    }
}

/// If every sampled entry was missing from the knowledge base or had no
/// title, no encoding was added: before the source prior is merged the
/// accumulator is still the zero vector.
pub proof fn lemma_all_skipped_leaves_zero(outcomes: Seq<EntryOutcome>)
    requires
        forall|i: int|
            0 <= i < outcomes.len() ==> (#[trigger] outcomes[i] is MissingEntry
                || outcomes[i] is MissingTitle),
    ensures
        encoded_titles(outcomes) == Seq::<Seq<char>>::empty(),
{
    lemma_none_encoded(outcomes);
}

/// If the source prior was added and no sampled entry was encoded, the
/// accumulator holds the prior alone, so the computed embedding is the
/// L2-normalized prior.
pub proof fn lemma_prior_alone(r: Run)
    requires
        r.prior == PriorOutcome::Added,
        forall|i: int| 0 <= i < r.outcomes@.len() ==> !(#[trigger] r.outcomes@[i] is Encoded),
    ensures
        computed_terms(r) == seq![Term::SourcePrior],
{
    lemma_none_encoded(r.outcomes@);
    assert(computed_terms(r) =~= seq![Term::SourcePrior]);
}

/// Each report in `events` took the run from `runs[i]` to `runs[i + 1]`,
/// which asked for `actions[i]`.
pub open spec fn is_trace(runs: Seq<Run>, events: Seq<Event>, actions: Seq<Action>) -> bool {
    &&& runs.len() == events.len() + 1
    &&& actions.len() == events.len()
    &&& forall|i: int|
        #![trigger events[i]]
        0 <= i < events.len() ==> transition(runs[i], events[i], runs[i + 1], actions[i])
}

/// A run that has aborted stays aborted whatever is reported to it, and never
/// again asks for the final embedding to be written.
pub proof fn lemma_aborted_never_persists(runs: Seq<Run>, events: Seq<Event>, actions: Seq<Action>)
    requires
        is_trace(runs, events, actions),
        runs[0].phase == Phase::Aborted,
    ensures
        forall|i: int| 0 <= i < runs.len() ==> #[trigger] runs[i].phase == Phase::Aborted,
        forall|i: int| 0 <= i < actions.len() ==> #[trigger] actions[i] != Action::Persist,
    decreases events.len(),
{
    if events.len() > 0 {
        assert(transition(runs[0], events[0], runs[1], actions[0]));
        let later = runs.drop_first();
        let later_events = events.drop_first();
        let later_actions = actions.drop_first();
        assert forall|i: int| 0 <= i < later_events.len() implies transition(
            later[i],
            #[trigger] later_events[i],
            later[i + 1],
            later_actions[i],
        ) by {
            assert(transition(runs[i + 1], events[i + 1], runs[i + 2], actions[i + 1]));
        }
        lemma_aborted_never_persists(later, later_events, later_actions);
        assert forall|i: int| 0 <= i < runs.len() implies #[trigger] runs[i].phase
            == Phase::Aborted by {
            if i > 0 {
                assert(runs[i] == later[i - 1]);
            }
        }
        assert forall|i: int| 0 <= i < actions.len() implies #[trigger] actions[i]
            != Action::Persist by {
            if i > 0 {
                assert(actions[i] == later_actions[i - 1]);
            }
        }
    }
}

/// If fetching the persisted user embedding fails, the run aborts, and no
/// later report makes it ask for the final embedding to be written.
pub proof fn lemma_failed_existing_never_persists(
    runs: Seq<Run>,
    events: Seq<Event>,
    actions: Seq<Action>,
)
    requires
        is_trace(runs, events, actions),
        events.len() > 0,
        runs[0].phase == Phase::FetchingExisting,
        events[0] == Event::Fetched(None),
    ensures
        runs.last().phase == Phase::Aborted,
        runs.last().fatal == Some(Fatal::ExistingUnavailable),
        forall|i: int| 0 <= i < actions.len() ==> #[trigger] actions[i] != Action::Persist,
{
    assert(transition(runs[0], events[0], runs[1], actions[0]));
    let later = runs.drop_first();
    let later_events = events.drop_first();
    let later_actions = actions.drop_first();
    assert forall|i: int| 0 <= i < later_events.len() implies transition(
        later[i],
        #[trigger] later_events[i],
        later[i + 1],
        later_actions[i],
    ) by {
        assert(transition(runs[i + 1], events[i + 1], runs[i + 2], actions[i + 1]));
    }
    lemma_aborted_never_persists(later, later_events, later_actions);
    lemma_aborted_keeps_fatal(later, later_events, later_actions);
    assert(runs.last() == later.last());
    assert forall|i: int| 0 <= i < actions.len() implies #[trigger] actions[i]
        != Action::Persist by {
        if i > 0 {
            assert(actions[i] == later_actions[i - 1]);
        }
    }
}

/// `e` reports an entry that is missing or has no title, or no entry at all.
pub open spec fn reports_no_title(e: Event) -> bool {
    match e {
        Event::EntryFound(Some(entry)) => entry.title is None,
        _ => true,
    }
}

/// A run that encodes nothing: no title went into the accumulator, and it is
/// not between asking for an encoding and adding it.
pub open spec fn encodes_nothing(r: Run) -> bool {
    &&& encoded_titles(r.outcomes@) == Seq::<Seq<char>>::empty()
    &&& r.phase != Phase::Encoding
    &&& r.phase != Phase::Accumulating
}

/// One step on a report that names no titled entry keeps a run that encodes
/// nothing so.
proof fn lemma_step_encodes_nothing(o: Run, e: Event, n: Run, a: Action)
    requires
        transition(o, e, n, a),
        encodes_nothing(o),
        reports_no_title(e),
    ensures
        encodes_nothing(n),
        !(a is EncodeTitle),
        a != Action::AddEncoding,
{
    if n.outcomes@.len() == 0 {
        assert(n.outcomes@ =~= Seq::<EntryOutcome>::empty());
    } else if n.outcomes@ != o.outcomes@ {
        assert(n.outcomes@.drop_last() =~= o.outcomes@);
    }
}

/// The first `k` steps of such a trace encode nothing.
proof fn lemma_encodes_nothing_upto(
    runs: Seq<Run>,
    events: Seq<Event>,
    actions: Seq<Action>,
    k: int,
)
    requires
        0 <= k <= events.len(),
        is_trace(runs, events, actions),
        encodes_nothing(runs[0]),
        forall|i: int| 0 <= i < events.len() ==> reports_no_title(#[trigger] events[i]),
    ensures
        forall|i: int| 0 <= i <= k ==> encodes_nothing(#[trigger] runs[i]),
        forall|i: int|
            0 <= i < k ==> !(#[trigger] actions[i] is EncodeTitle) && actions[i]
                != Action::AddEncoding,
    decreases k,
{
    if k > 0 {
        lemma_encodes_nothing_upto(runs, events, actions, k - 1);
        assert(transition(runs[k - 1], events[k - 1], runs[k], actions[k - 1]));
        assert(encodes_nothing(runs[k - 1]));
        lemma_step_encodes_nothing(runs[k - 1], events[k - 1], runs[k], actions[k - 1]);
    }
}

/// If every entry that the knowledge base reports during a run is missing or
/// has no title, the encoder is never asked for anything and no encoding is
/// added: the accumulator stays the zero vector until the source prior.
pub proof fn lemma_untitled_entries_encode_nothing(
    runs: Seq<Run>,
    events: Seq<Event>,
    actions: Seq<Action>,
)
    requires
        is_trace(runs, events, actions),
        runs[0].phase == Phase::Start,
        runs[0].outcomes@.len() == 0,
        forall|i: int| 0 <= i < events.len() ==> reports_no_title(#[trigger] events[i]),
    ensures
        forall|i: int|
            0 <= i < runs.len() ==> encoded_titles(#[trigger] runs[i].outcomes@) == Seq::<
                Seq<char>,
            >::empty(),
        forall|i: int|
            0 <= i < actions.len() ==> !(#[trigger] actions[i] is EncodeTitle) && actions[i]
                != Action::AddEncoding,
{
    assert(runs[0].outcomes@ =~= Seq::<EntryOutcome>::empty());
    lemma_encodes_nothing_upto(runs, events, actions, events.len() as int);
    assert forall|i: int| 0 <= i < runs.len() implies encoded_titles(
        #[trigger] runs[i].outcomes@,
    ) == Seq::<Seq<char>>::empty() by {
        assert(encodes_nothing(runs[i]));
    }
}

/// Only the draw of the sample is left to chance: in any other phase the same
/// report in the same state gives the same next state and the same action, so
/// two runs that draw the same sample and get the same reports ask for the
/// same actions.
pub proof fn lemma_step_determined(o: Run, e: Event, n1: Run, a1: Action, n2: Run, a2: Action)
    requires
        transition(o, e, n1, a1),
        transition(o, e, n2, a2),
        o.phase != Phase::Listing,
    ensures
        a1 == a2,
        n1.phase == n2.phase,
        n1.source == n2.source,
        n1.sample == n2.sample,
        n1.cursor == n2.cursor,
        n1.outcomes@ == n2.outcomes@,
        n1.pending_title == n2.pending_title,
        n1.prior == n2.prior,
        n1.fatal == n2.fatal,
{
}

/// An aborted run keeps the condition that ended it.
proof fn lemma_aborted_keeps_fatal(runs: Seq<Run>, events: Seq<Event>, actions: Seq<Action>)
    requires
        is_trace(runs, events, actions),
        runs[0].phase == Phase::Aborted,
    ensures
        runs.last() == runs[0],
    decreases events.len(),
{
    if events.len() > 0 {
        assert(transition(runs[0], events[0], runs[1], actions[0]));
        let later = runs.drop_first();
        let later_events = events.drop_first();
        let later_actions = actions.drop_first();
        assert forall|i: int| 0 <= i < later_events.len() implies transition(
            later[i],
            #[trigger] later_events[i],
            later[i + 1],
            later_actions[i],
        ) by {
            assert(transition(runs[i + 1], events[i + 1], runs[i + 2], actions[i + 1]));
        }
        lemma_aborted_keeps_fatal(later, later_events, later_actions);
        assert(runs.last() == later.last());
    }
}

} // verus!
