//! Bounded-concurrency collection of per-window fetch results.
//!
//! The collector holds the decisions of a concurrent fetch: which window to send
//! next, how many requests are out, what each window returned, and what the whole
//! collection amounts to. The caller performs the requests and reports each result.
use vstd::prelude::*;
use crate::dataset::Candle;
use crate::plan::Window;

verus! {

/// Requests allowed in flight at once when the caller sets no bound.
pub const DEFAULT_MAX_IN_FLIGHT: usize = 50;

/// How a failed request should be treated.
#[derive(Clone, Copy, PartialEq, Eq, Structural, Debug)]
pub enum FetchFailure {
    /// Rate limiting, a timeout or a dropped connection: the window may be asked again.
    Transient,
    /// A request that cannot succeed as made: nothing more is sent.
    Fatal,
}

/// Where one window stands.
#[derive(Clone, Copy, PartialEq, Eq, Structural, Debug)]
pub enum Progress {
    Waiting,
    Running,
    Fetched,
    Failed(FetchFailure),
}

/// The records fetched for one window.
pub struct WindowCandles {
    pub window: Window,
    pub candles: Vec<Candle>,
}

/// Why a collection did not produce one complete series.
pub enum CollectError {
    /// Some windows failed transiently; the others are handed back with their records.
    PartialFailure { succeeded: Vec<WindowCandles>, failed: Vec<Window> },
    /// Some window failed fatally; these are the windows that did.
    Fatal { failed: Vec<Window> },
}

/// The mathematical form of a `CollectError`.
pub enum CollectErrorView {
    PartialFailure { succeeded: Seq<(Window, Seq<Candle>)>, failed: Seq<Window> },
    Fatal { failed: Seq<Window> },
}

/// What one window returned, if it has returned.
pub type Outcome = Option<Result<Seq<Candle>, FetchFailure>>;

/// The mathematical state of a collector.
pub struct CollectorView {
    pub windows: Seq<Window>,
    pub max_in_flight: nat,
    pub next: nat,
    pub in_flight: nat,
    pub progress: Seq<Progress>,
    pub results: Seq<Seq<Candle>>,
    pub fatal: bool,
}

/// Number of windows whose request is out.
pub open spec fn running_count(p: Seq<Progress>) -> nat
    decreases p.len(),
{
    if p.len() == 0 {
        0
    } else {
        running_count(p.drop_last()) + if p.last() == Progress::Running {
            1nat
        } else {
            0nat
        }
    }
}

/// The invariant of a collector: windows are sent in order, each result is kept
/// at its window's index, and the bound on requests in flight holds.
pub open spec fn well_formed(v: CollectorView) -> bool {
    &&& v.progress.len() == v.windows.len()
    &&& v.results.len() == v.windows.len()
    &&& v.next <= v.windows.len()
    &&& v.max_in_flight >= 1
    &&& v.in_flight == running_count(v.progress)
    &&& v.in_flight <= v.max_in_flight
    &&& forall|k: int| 0 <= k < v.next ==> v.progress[k] != Progress::Waiting
    &&& forall|k: int| v.next <= k < v.windows.len() ==> v.progress[k] == Progress::Waiting
    &&& forall|k: int|
        0 <= k < v.windows.len() && v.progress[k] != Progress::Fetched ==> v.results[k].len() == 0
    &&& v.fatal == exists|k: int|
        0 <= k < v.windows.len() && v.progress[k] == Progress::Failed(FetchFailure::Fatal)
}

/// A collector over `windows` that has sent nothing yet.
pub open spec fn initial(windows: Seq<Window>, max_in_flight: nat) -> CollectorView {
    CollectorView {
        windows,
        max_in_flight,
        next: 0,
        in_flight: 0,
        progress: Seq::new(windows.len(), |k: int| Progress::Waiting),
        results: Seq::new(windows.len(), |k: int| Seq::<Candle>::empty()),
        fatal: false,
    }
}

/// Whether another window may be sent: no fatal failure so far, room under the
/// bound, and a window left.
pub open spec fn can_dispatch(v: CollectorView) -> bool {
    !v.fatal && v.in_flight < v.max_in_flight && v.next < v.windows.len()
}

/// The state after the next window in order is sent.
pub open spec fn dispatched(v: CollectorView) -> CollectorView {
    CollectorView {
        next: v.next + 1,
        in_flight: v.in_flight + 1,
        progress: v.progress.update(v.next as int, Progress::Running),
        ..v
    }
}

/// The state after window `k` returned `outcome`; only that window's entry changes.
pub open spec fn completed(
    v: CollectorView,
    k: int,
    outcome: Result<Seq<Candle>, FetchFailure>,
) -> CollectorView {
    match outcome {
        Ok(candles) => CollectorView {
            in_flight: (v.in_flight - 1) as nat,
            progress: v.progress.update(k, Progress::Fetched),
            results: v.results.update(k, candles),
            ..v
        },
        Err(f) => CollectorView {
            in_flight: (v.in_flight - 1) as nat,
            progress: v.progress.update(k, Progress::Failed(f)),
            fatal: v.fatal || f == FetchFailure::Fatal,
            ..v
        },
    }
}

/// Whether the collection is over: nothing in flight, and either every window was
/// sent or a fatal failure stopped the sending.
pub open spec fn is_done(v: CollectorView) -> bool {
    v.in_flight == 0 && (v.fatal || v.next == v.windows.len())
}

/// What window `k` returned, if it has returned.
pub open spec fn outcome_at(v: CollectorView, k: int) -> Outcome {
    match v.progress[k] {
        Progress::Fetched => Some(Ok(v.results[k])),
        Progress::Failed(f) => Some(Err(f)),
        _ => None,
    }
}

/// The outcomes of all windows, in window order.
pub open spec fn outcomes_of(v: CollectorView) -> Seq<Outcome> {
    Seq::new(v.windows.len(), |k: int| outcome_at(v, k))
}

/// The windows among the first `n` whose outcome is the failure `f`, in window order.
pub open spec fn failed_windows(
    windows: Seq<Window>,
    outcomes: Seq<Outcome>,
    f: FetchFailure,
    n: int,
) -> Seq<Window>
    decreases n,
{
    if n <= 0 {
        Seq::empty()
    } else if outcomes[n - 1] == Some(Err::<Seq<Candle>, FetchFailure>(f)) {
        failed_windows(windows, outcomes, f, n - 1).push(windows[n - 1])
    } else {
        failed_windows(windows, outcomes, f, n - 1)
    }
}

/// The windows among the first `n` that returned records, with those records.
pub open spec fn fetched_windows(windows: Seq<Window>, outcomes: Seq<Outcome>, n: int) -> Seq<
    (Window, Seq<Candle>),
>
    decreases n,
{
    if n <= 0 {
        Seq::empty()
    } else {
        match outcomes[n - 1] {
            Some(Ok(candles)) => fetched_windows(windows, outcomes, n - 1).push(
                (windows[n - 1], candles),
            ),
            _ => fetched_windows(windows, outcomes, n - 1),
        }
    }
}

/// The records of the first `n` windows, concatenated in window order.
pub open spec fn concat_fetched(outcomes: Seq<Outcome>, n: int) -> Seq<Candle>
    decreases n,
{
    if n <= 0 {
        Seq::empty()
    } else {
        match outcomes[n - 1] {
            Some(Ok(candles)) => concat_fetched(outcomes, n - 1) + candles,
            _ => concat_fetched(outcomes, n - 1),
        }
    }
}

/// The result that per-window outcomes amount to when the windows are taken in
/// order, one after another: a fatal failure if any window had one, else the
/// transient failures together with the windows that succeeded, else all the
/// records in window order.
pub open spec fn merged(windows: Seq<Window>, outcomes: Seq<Outcome>) -> Result<
    Seq<Candle>,
    CollectErrorView,
> {
    let n = windows.len() as int;
    if failed_windows(windows, outcomes, FetchFailure::Fatal, n).len() > 0 {
        Err(CollectErrorView::Fatal { failed: failed_windows(windows, outcomes, FetchFailure::Fatal, n) })
    } else if failed_windows(windows, outcomes, FetchFailure::Transient, n).len() > 0 {
        Err(
            CollectErrorView::PartialFailure {
                succeeded: fetched_windows(windows, outcomes, n),
                failed: failed_windows(windows, outcomes, FetchFailure::Transient, n),
            },
        )
    } else {
        Ok(concat_fetched(outcomes, n))
    }
}

/// The mathematical form of a list of windows with their records.
pub open spec fn succeeded_view(s: Seq<WindowCandles>) -> Seq<(Window, Seq<Candle>)> {
    s.map_values(|w: WindowCandles| (w.window, w.candles@))
}

/// The mathematical form of a collection's result.
pub open spec fn collect_view(r: Result<Vec<Candle>, CollectError>) -> Result<
    Seq<Candle>,
    CollectErrorView,
> {
    match r {
        Ok(c) => Ok(c@),
        Err(CollectError::PartialFailure { succeeded, failed }) => Err(
            CollectErrorView::PartialFailure {
                succeeded: succeeded_view(succeeded@),
                failed: failed@,
            },
        ),
        Err(CollectError::Fatal { failed }) => Err(CollectErrorView::Fatal { failed: failed@ }),
    }
}

/// The mathematical form of a reported outcome.
pub open spec fn outcome_view(o: Result<Vec<Candle>, FetchFailure>) -> Result<Seq<Candle>, FetchFailure> {
    match o {
        Ok(c) => Ok(c@),
        Err(f) => Err(f),
    }
}

/// Reports for two different windows in flight lead to the same state in either
/// order: the state records what each window returned, not when.
pub proof fn law_completions_commute(
    v: CollectorView,
    j: int,
    oj: Result<Seq<Candle>, FetchFailure>,
    k: int,
    ok: Result<Seq<Candle>, FetchFailure>,
)
    requires
        well_formed(v),
        0 <= j < v.windows.len(),
        0 <= k < v.windows.len(),
        j != k,
        v.progress[j] == Progress::Running,
        v.progress[k] == Progress::Running,
    ensures
        completed(completed(v, j, oj), k, ok) == completed(completed(v, k, ok), j, oj),
{
    let a = completed(completed(v, j, oj), k, ok);
    let b = completed(completed(v, k, ok), j, oj);
    assert(a.progress =~= b.progress);
    assert(a.results =~= b.results);
}

/// A finished collection amounts to what its windows returned taken in window
/// order, the same as running the windows one after another with those outcomes,
/// whatever order the reports came in.
pub proof fn law_result_follows_window_order(v: CollectorView, outcomes: Seq<Outcome>)
    requires
        well_formed(v),
        is_done(v),
        outcomes.len() == v.windows.len(),
        forall|k: int| 0 <= k < outcomes.len() ==> outcome_at(v, k) == #[trigger] outcomes[k],
    ensures
        merged(v.windows, outcomes_of(v)) == merged(v.windows, outcomes),
        !v.fatal ==> forall|k: int| 0 <= k < outcomes.len() ==> #[trigger] outcomes[k] is Some,
{
    assert(outcomes_of(v) =~= outcomes);
    lemma_running_count_zero(v.progress);
    if !v.fatal {
        assert forall|k: int| 0 <= k < outcomes.len() implies #[trigger] outcomes[k] is Some by {
            assert(v.progress[k] != Progress::Waiting);
            assert(v.progress[k] != Progress::Running);
            assert(outcome_at(v, k) is Some);
        }
    }
}

/// The collector over `windows` run one window at a time, each sent and answered
/// before the next goes out, window `k` answering `outcomes[k]`: the state after
/// the first `n` windows.
pub open spec fn run_one_by_one(
    windows: Seq<Window>,
    outcomes: Seq<Result<Seq<Candle>, FetchFailure>>,
    n: nat,
) -> CollectorView
    decreases n,
{
    if n == 0 {
        initial(windows, 1)
    } else {
        let before = run_one_by_one(windows, outcomes, (n - 1) as nat);
        completed(dispatched(before), n - 1, outcomes[n - 1])
    }
}

proof fn lemma_run_one_by_one(
    windows: Seq<Window>,
    outcomes: Seq<Result<Seq<Candle>, FetchFailure>>,
    n: nat,
)
    requires
        n <= windows.len(),
        outcomes.len() == windows.len(),
        forall|k: int| 0 <= k < outcomes.len() ==> #[trigger] outcomes[k] != Err::<Seq<Candle>, FetchFailure>(FetchFailure::Fatal),
    ensures
        run_one_by_one(windows, outcomes, n).windows == windows,
        run_one_by_one(windows, outcomes, n).max_in_flight == 1,
        run_one_by_one(windows, outcomes, n).next == n,
        run_one_by_one(windows, outcomes, n).in_flight == 0,
        !run_one_by_one(windows, outcomes, n).fatal,
        run_one_by_one(windows, outcomes, n).progress.len() == windows.len(),
        run_one_by_one(windows, outcomes, n).results.len() == windows.len(),
        forall|k: int| 0 <= k < n ==> outcome_at(run_one_by_one(windows, outcomes, n), k) == Some(#[trigger] outcomes[k]),
        forall|k: int| n <= k < windows.len() ==> #[trigger] run_one_by_one(windows, outcomes, n).progress[k] == Progress::Waiting,
    decreases n,
{
    if n > 0 {
        lemma_run_one_by_one(windows, outcomes, (n - 1) as nat);
        let before = run_one_by_one(windows, outcomes, (n - 1) as nat);
        let after = run_one_by_one(windows, outcomes, n);
        assert forall|k: int| 0 <= k < n implies outcome_at(after, k) == Some(#[trigger] outcomes[k]) by {
            if k < n - 1 {
                assert(outcome_at(before, k) == Some(outcomes[k]));
            }
        }
    }
}

/// A finished collection without a fatal failure gives the same result as running
/// its windows one at a time with the same answers, whatever order the answers
/// came in; and that one-at-a-time run is one the collector allows, a window
/// being sendable at each of its steps.
pub proof fn law_matches_one_by_one(v: CollectorView, outcomes: Seq<Result<Seq<Candle>, FetchFailure>>)
    requires
        well_formed(v),
        is_done(v),
        !v.fatal,
        outcomes.len() == v.windows.len(),
        forall|k: int| 0 <= k < outcomes.len() ==> outcome_at(v, k) == Some(#[trigger] outcomes[k]),
    ensures
        is_done(run_one_by_one(v.windows, outcomes, v.windows.len())),
        forall|n: nat| n < v.windows.len() ==> can_dispatch(#[trigger] run_one_by_one(v.windows, outcomes, n)),
        merged(v.windows, outcomes_of(run_one_by_one(v.windows, outcomes, v.windows.len())))
            == merged(v.windows, outcomes_of(v)),
{
    assert forall|k: int| 0 <= k < outcomes.len() implies #[trigger] outcomes[k] != Err::<Seq<Candle>, FetchFailure>(FetchFailure::Fatal) by {
        if outcomes[k] == Err::<Seq<Candle>, FetchFailure>(FetchFailure::Fatal) {
            assert(outcome_at(v, k) == Some(outcomes[k]));
            assert(v.progress[k] == Progress::Failed(FetchFailure::Fatal));
        }
    }
    let n = v.windows.len();
    lemma_run_one_by_one(v.windows, outcomes, n);
    assert forall|m: nat| m < v.windows.len() implies can_dispatch(#[trigger] run_one_by_one(v.windows, outcomes, m)) by {
        lemma_run_one_by_one(v.windows, outcomes, m);
    }
    let s = run_one_by_one(v.windows, outcomes, n);
    assert forall|k: int| 0 <= k < n implies outcomes_of(s)[k] == outcomes_of(v)[k] by {
        assert(outcome_at(s, k) == Some(outcomes[k]));
        assert(outcome_at(v, k) == Some(outcomes[k]));
    }
    assert(outcomes_of(s) =~= outcomes_of(v));
}

/// A transient failure neither marks the collection fatal nor stops the sending:
/// with windows left, the next one may go out at once.
pub proof fn law_transient_keeps_dispatching(v: CollectorView, k: int)
    requires
        well_formed(v),
        0 <= k < v.windows.len(),
        v.progress[k] == Progress::Running,
    ensures
        completed(v, k, Err(FetchFailure::Transient)).fatal == v.fatal,
        !v.fatal && v.next < v.windows.len() ==> can_dispatch(
            completed(v, k, Err(FetchFailure::Transient)),
        ),
{
    lemma_running_count_update(v.progress, k, Progress::Waiting);
}

/// After a fatal failure no window is sent again: the failure marks the collection
/// fatal, later reports keep it so, and a fatal collection sends nothing.
pub proof fn law_fatal_stops_dispatch(
    v: CollectorView,
    k: int,
    o: Result<Seq<Candle>, FetchFailure>,
)
    requires
        well_formed(v),
        0 <= k < v.windows.len(),
    ensures
        completed(v, k, Err(FetchFailure::Fatal)).fatal,
        !can_dispatch(completed(v, k, Err(FetchFailure::Fatal))),
        v.fatal ==> completed(v, k, o).fatal,
        v.fatal ==> !can_dispatch(v),
{
}

proof fn lemma_running_count_update(p: Seq<Progress>, k: int, x: Progress)
    requires
        0 <= k < p.len(),
    ensures
        running_count(p.update(k, x)) + (if p[k] == Progress::Running { 1int } else { 0int })
            == running_count(p) + (if x == Progress::Running { 1int } else { 0int }),
    decreases p.len(),
{
    if k == p.len() - 1 {
        assert(p.update(k, x).drop_last() =~= p.drop_last());
    } else {
        lemma_running_count_update(p.drop_last(), k, x);
        assert(p.update(k, x).drop_last() =~= p.drop_last().update(k, x));
    }
}

proof fn lemma_running_count_zero(p: Seq<Progress>)
    ensures
        (running_count(p) == 0) == (forall|k: int| 0 <= k < p.len() ==> p[k] != Progress::Running),
    decreases p.len(),
{
    if p.len() > 0 {
        lemma_running_count_zero(p.drop_last());
        if running_count(p) == 0 {
            assert forall|k: int| 0 <= k < p.len() implies p[k] != Progress::Running by {
                if k < p.len() - 1 {
                    assert(p[k] == p.drop_last()[k]);
                }
            }
        } else if p.last() != Progress::Running {
            let k = choose|k: int| 0 <= k < p.drop_last().len() && p.drop_last()[k] == Progress::Running;
            assert(p[k] == Progress::Running);
        }
    }
}

/// Drives the windows of a plan through requests that the caller makes, with at
/// most a fixed number in flight, and keeps each result at its window's index.
pub struct Collector {
    windows: Vec<Window>,
    max_in_flight: usize,
    next: usize,
    in_flight: usize,
    progress: Vec<Progress>,
    results: Vec<Vec<Candle>>,
    fatal: bool,
}

impl View for Collector {
    type V = CollectorView;

    closed spec fn view(&self) -> CollectorView {
        CollectorView {
            windows: self.windows@,
            max_in_flight: self.max_in_flight as nat,
            next: self.next as nat,
            in_flight: self.in_flight as nat,
            progress: self.progress@,
            results: self.results@.map_values(|v: Vec<Candle>| v@),
            fatal: self.fatal,
        }
    }
}

fn copy_candles(v: &Vec<Candle>) -> (r: Vec<Candle>)
    ensures
        r@ == v@,
{
    let mut out: Vec<Candle> = Vec::new();
    let mut i: usize = 0;
    while i < v.len()
        invariant
            i <= v@.len(),
            out@ == v@.subrange(0, i as int),
        decreases v@.len() - i,
    {
        proof {
            assert(v@.subrange(0, i + 1) =~= out@.push(v@[i as int]));
        }
        out.push(v[i]);
        i = i + 1;
    }
    proof {
        assert(v@.subrange(0, v@.len() as int) =~= v@);
    }
    out
}

impl Collector {
    /// A collector over `windows` with the default bound on requests in flight.
    pub fn new(windows: Vec<Window>) -> (r: Collector)
        ensures
            r@ == initial(windows@, DEFAULT_MAX_IN_FLIGHT as nat),
            well_formed(r@),
    {
        Collector::with_limit(windows, DEFAULT_MAX_IN_FLIGHT)
    }

    /// A collector over `windows` that keeps at most `max_in_flight` requests out.
    pub fn with_limit(windows: Vec<Window>, max_in_flight: usize) -> (r: Collector)
        requires
            max_in_flight >= 1,
        ensures
            r@ == initial(windows@, max_in_flight as nat),
            well_formed(r@),
    {
        let n = windows.len();
        let mut progress: Vec<Progress> = Vec::new();
        let mut results: Vec<Vec<Candle>> = Vec::new();
        let mut i: usize = 0;
        while i < n
            invariant
                n == windows@.len(),
                i <= n,
                progress@.len() == i,
                results@.len() == i,
                forall|k: int| 0 <= k < i ==> progress@[k] == Progress::Waiting,
                forall|k: int| 0 <= k < i ==> (#[trigger] results@[k])@.len() == 0,
            decreases n - i,
        {
            progress.push(Progress::Waiting);
            results.push(Vec::new());
            i = i + 1;
        }
        let r = Collector {
            windows,
            max_in_flight,
            next: 0,
            in_flight: 0,
            progress,
            results,
            fatal: false,
        };
        proof {
            let v = r@;
            assert(v.progress =~= initial(windows@, max_in_flight as nat).progress);
            assert forall|k: int| 0 <= k < n implies v.results[k] == Seq::<Candle>::empty() by {
                assert(v.results[k] =~= Seq::<Candle>::empty());
            }
            assert(v.results =~= initial(windows@, max_in_flight as nat).results);
            lemma_running_count_zero(v.progress);
        }
        r
    }

    /// Number of windows.
    pub fn window_count(&self) -> (r: usize)
        requires
            well_formed(self@),
        ensures
            r == self@.windows.len(),
    {
        self.windows.len()
    }

    /// The bounds of window `k`.
    pub fn window(&self, k: usize) -> (r: Window)
        requires
            well_formed(self@),
            k < self@.windows.len(),
        ensures
            r == self@.windows[k as int],
    {
        self.windows[k]
    }

    /// Sends the next window in order when that is allowed, and returns its index;
    /// returns `None`, changing nothing, after a fatal failure, when the bound on
    /// requests in flight is reached, or when every window has been sent.
    pub fn next_dispatch(&mut self) -> (r: Option<usize>)
        requires
            well_formed(old(self)@),
        ensures
            well_formed(final(self)@),
            can_dispatch(old(self)@) ==> r == Some(old(self)@.next as usize) && final(self)@ == dispatched(old(self)@),
            !can_dispatch(old(self)@) ==> r is None && final(self)@ == old(self)@,
    {
        if self.fatal || self.in_flight >= self.max_in_flight || self.next >= self.windows.len() {
            return None;
        }
        let k = self.next;
        let ghost before = self@;
        proof {
            lemma_running_count_update(before.progress, k as int, Progress::Running);
        }
        self.progress.set(k, Progress::Running);
        self.next = k + 1;
        self.in_flight = self.in_flight + 1;
        proof {
            let v = self@;
            assert(v.progress =~= dispatched(before).progress);
            assert(v.results =~= before.results);
            assert(v == dispatched(before));
            assert(v.fatal == exists|j: int| 0 <= j < v.windows.len() && v.progress[j] == Progress::Failed(FetchFailure::Fatal)) by {
                if v.fatal {
                    let j = choose|j: int| 0 <= j < before.windows.len() && before.progress[j] == Progress::Failed(FetchFailure::Fatal);
                    assert(v.progress[j] == Progress::Failed(FetchFailure::Fatal));
                }
            }
        }
        Some(k)
    }

    /// Records what window `k` returned. Only a window whose request is out is
    /// accepted, so each index is written once; for any other `k` nothing changes
    /// and the result is `false`.
    pub fn complete(&mut self, k: usize, outcome: Result<Vec<Candle>, FetchFailure>) -> (r: bool)
        requires
            well_formed(old(self)@),
        ensures
            well_formed(final(self)@),
            r == (k < old(self)@.windows.len() && old(self)@.progress[k as int] == Progress::Running),
            r ==> final(self)@ == completed(old(self)@, k as int, outcome_view(outcome)),
            !r ==> final(self)@ == old(self)@,
    {
        if k >= self.progress.len() || self.progress[k] != Progress::Running {
            return false;
        }
        let ghost before = self@;
        let ghost out_view = outcome_view(outcome);
        match outcome {
            Ok(candles) => {
                proof {
                    lemma_running_count_update(before.progress, k as int, Progress::Fetched);
                }
                self.progress.set(k, Progress::Fetched);
                self.results.set(k, candles);
                self.in_flight = self.in_flight - 1;
            },
            Err(f) => {
                proof {
                    lemma_running_count_update(before.progress, k as int, Progress::Failed(f));
                }
                self.progress.set(k, Progress::Failed(f));
                self.in_flight = self.in_flight - 1;
                if f == FetchFailure::Fatal {
                    self.fatal = true;
                }
            },
        }
        proof {
            let v = self@;
            let w = completed(before, k as int, out_view);
            assert(v.progress =~= w.progress);
            assert(v.results =~= w.results);
            assert(v.fatal == exists|j: int| 0 <= j < v.windows.len() && v.progress[j] == Progress::Failed(FetchFailure::Fatal)) by {
                if v.fatal && !(v.progress[k as int] == Progress::Failed(FetchFailure::Fatal)) {
                    let j = choose|j: int| 0 <= j < before.windows.len() && before.progress[j] == Progress::Failed(FetchFailure::Fatal);
                    assert(v.progress[j] == Progress::Failed(FetchFailure::Fatal));
                }
                if exists|j: int| 0 <= j < v.windows.len() && v.progress[j] == Progress::Failed(FetchFailure::Fatal) {
                    let j = choose|j: int| 0 <= j < v.windows.len() && v.progress[j] == Progress::Failed(FetchFailure::Fatal);
                    if j != k {
                        assert(before.progress[j] == Progress::Failed(FetchFailure::Fatal));
                    }
                }
            }
            assert(v == w);
        }
        true
    }

    /// The result of a finished collection, built in window order: `Fatal` with the
    /// windows that failed fatally, if any did; else `PartialFailure` with the
    /// windows that failed transiently and those that succeeded, if any failed;
    /// else every window's records, concatenated in window order.
    pub fn finish(self) -> (r: Result<Vec<Candle>, CollectError>)
        requires
            well_formed(self@),
            is_done(self@),
        ensures
            collect_view(r) == merged(self@.windows, outcomes_of(self@)),
    {
        let ghost v = self@;
        let ghost outs = outcomes_of(v);
        let n = self.windows.len();
        let mut all: Vec<Candle> = Vec::new();
        let mut succeeded: Vec<WindowCandles> = Vec::new();
        let mut transient: Vec<Window> = Vec::new();
        let mut fatal: Vec<Window> = Vec::new();
        let mut k: usize = 0;
        while k < n
            invariant
                v == self@,
                well_formed(v),
                outs == outcomes_of(v),
                n == v.windows.len(),
                k <= n,
                all@ == concat_fetched(outs, k as int),
                succeeded_view(succeeded@) == fetched_windows(v.windows, outs, k as int),
                transient@ == failed_windows(v.windows, outs, FetchFailure::Transient, k as int),
                fatal@ == failed_windows(v.windows, outs, FetchFailure::Fatal, k as int),
            decreases n - k,
        {
            let w = self.windows[k];
            let ghost o = outs[k as int];
            match self.progress[k] {
                Progress::Fetched => {
                    let mut c = copy_candles(&self.results[k]);
                    let kept = copy_candles(&self.results[k]);
                    proof {
                        assert(o == Some(Ok::<Seq<Candle>, FetchFailure>(c@)));
                    }
                    all.append(&mut c);
                    let ghost before = succeeded@;
                    succeeded.push(WindowCandles { window: w, candles: kept });
                    proof {
                        assert(succeeded_view(succeeded@) =~= succeeded_view(before).push((w, kept@)));
                    }
                },
                Progress::Failed(f) => {
                    proof {
                        assert(o == Some(Err::<Seq<Candle>, FetchFailure>(f)));
                    }
                    if f == FetchFailure::Fatal {
                        fatal.push(w);
                    } else {
                        transient.push(w);
                    }
                },
                _ => {
                    proof {
                        assert(o is None);
                    }
                },
            }
            k = k + 1;
        }
        if fatal.len() > 0 {
            Err(CollectError::Fatal { failed: fatal })
        } else if transient.len() > 0 {
            Err(CollectError::PartialFailure { succeeded, failed: transient })
        } else {
            Ok(all)
        }
    }

    /// Whether the collection is over.
    pub fn is_done(&self) -> (r: bool)
        requires
            well_formed(self@),
        ensures
            r == is_done(self@),
    {
        self.in_flight == 0 && (self.fatal || self.next == self.windows.len())
    }
}

} // verus!
