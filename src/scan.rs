use vstd::prelude::*;
use crate::format::table_text;
use crate::value::{samples_view, DecodedValue, Sample};

verus! {

/// The upper bound of a scan as the caller gives it: a block number or a
/// named tag. Only `Latest` and `Number` can be resolved.
#[derive(Clone, Copy, Debug, PartialEq, Eq, Structural)]
pub enum BlockRef {
    Latest,
    Finalized,
    Safe,
    Earliest,
    Pending,
    Number(u64),
}

/// Why a scan, or preparing one, failed.
#[derive(PartialEq, Eq, Structural, Clone, Copy, Debug)]
pub enum ScanError {
    UnsupportedRangeSpec,
    LatestBlockUnavailable,
    CallReverted,
    InvalidInterval,
    TransportError,
    ArtifactInvalid,
    DecodeError,
}

/// What the driver of a scan must do next.
#[derive(PartialEq, Eq, Structural, Clone, Copy, Debug)]
pub enum Action {
    /// Ask the node for its current head and hand it to `on_latest`.
    FetchLatest,
    /// Call the contract function pinned to this block and hand the outcome
    /// to `on_call`.
    Call(u64),
    /// Nothing is left to ask: take the result with `finish`.
    Finish,
}

/// The outcome of one pinned call: the decoded values, or `None` when it failed.
pub type Outcome = Option<Vec<DecodedValue>>;

pub open spec fn outcome_view(o: Outcome) -> Option<Seq<DecodedValue>> {
    match o {
        Some(v) => Some(v@),
        None => None,
    }
}

/// How many whole intervals fit between `start` and `end`; a partial last
/// interval is not counted, and a range that ends at or before its start
/// holds none.
pub open spec fn step_count(start: u64, end: u64, interval: u64) -> nat {
    if end <= start || interval == 0 {
        0
    } else {
        ((end - start) as nat / interval as nat) as nat
    }
}

/// The block of step `i`.
pub open spec fn block_at(start: u64, interval: u64, i: int) -> int {
    start + i * interval
}

/// What a scan returns after the calls of its first `outs.len()` steps came
/// back with `outs`: each success becomes a sample at its step's block; a
/// failure is skipped when `ignore_reverts` holds and ends the scan with
/// `CallReverted` otherwise.
pub open spec fn scan_result(
    start: u64,
    interval: u64,
    ignore_reverts: bool,
    outs: Seq<Option<Seq<DecodedValue>>>,
) -> Result<Seq<(u64, Seq<DecodedValue>)>, ScanError>
    decreases outs.len(),
{
    if outs.len() == 0 {
        Ok(seq![])
    } else {
        match scan_result(start, interval, ignore_reverts, outs.drop_last()) {
            Err(e) => Err(e),
            Ok(s) => match outs.last() {
                Some(v) => Ok(s.push((block_at(start, interval, outs.len() - 1) as u64, v))),
                None => if ignore_reverts {
                    Ok(s)
                } else {
                    Err(ScanError::CallReverted)
                },
            },
        }
    }
}

/// The view of what `finish` hands back.
pub open spec fn result_view(r: Result<Vec<Sample>, ScanError>) -> Result<
    Seq<(u64, Seq<DecodedValue>)>,
    ScanError,
> {
    match r {
        Ok(v) => Ok(samples_view(v@)),
        Err(e) => Err(e),
    }
}

/// Resolves the upper bound of a scan. `head` is the node's answer when it
/// was asked for its current head: `Err(())` when the request itself failed,
/// `Ok(None)` when the node had no head to give.
pub fn resolve_end(end: &BlockRef, head: Result<Option<u64>, ()>) -> (r: Result<u64, ScanError>)
    ensures
        r == (match *end {
            BlockRef::Number(n) => Ok(n),
            BlockRef::Latest => match head {
                Ok(Some(h)) => Ok(h),
                Ok(None) => Err(ScanError::LatestBlockUnavailable),
                Err(_) => Err(ScanError::TransportError),
            },
            _ => Err(ScanError::UnsupportedRangeSpec),
        }),
{
    match end {
        BlockRef::Number(n) => Ok(*n),
        BlockRef::Latest => match head {
            Ok(Some(h)) => Ok(h),
            Ok(None) => Err(ScanError::LatestBlockUnavailable),
            Err(_) => Err(ScanError::TransportError),
        },
        _ => Err(ScanError::UnsupportedRangeSpec),
    }
}

/// The number of steps of a scan from `start` to `end` at the given stride.
pub fn steps(start: u64, end: u64, interval: u64) -> (r: u64)
    requires
        interval > 0,
    ensures
        r == step_count(start, end, interval),
{
    if end <= start {
        0
    } else {
        (end - start) / interval
    }
}

proof fn lemma_block_fits(start: u64, end: u64, interval: u64, i: int)
    requires
        interval > 0,
        0 <= i < step_count(start, end, interval),
    ensures
        block_at(start, interval, i) + interval <= end,
{
    let d = (end - start) as int;
    let n = d / interval as int;
    assert(i + 1 <= n);
    assert((i + 1) * interval <= n * interval) by (nonlinear_arith)
        requires i + 1 <= n, interval > 0;
    assert(n * interval <= d) by (nonlinear_arith)
        requires n == d / interval as int, interval > 0, d >= 0;
    assert(i * interval + interval == (i + 1) * interval) by (nonlinear_arith);
}

/// The block that step `i` of a scan is pinned to.
pub fn target_block(start: u64, end: u64, interval: u64, i: u64) -> (r: u64)
    requires
        interval > 0,
        i < step_count(start, end, interval),
    ensures
        r == block_at(start, interval, i as int),
{
    proof {
        lemma_block_fits(start, end, interval, i as int);
    }
    start + i * interval
}

/// A scan in progress, driven one action at a time: it asks for the chain
/// head when the range ends at `Latest`, then for one pinned call per step,
/// and keeps the successes in block order.
pub struct Sampler {
    start: u64,
    interval: u64,
    ignore_reverts: bool,
    end: Option<u64>,
    step: u64,
    samples: Vec<Sample>,
    failure: Option<ScanError>,
    outs: Ghost<Seq<Option<Seq<DecodedValue>>>>,
}

impl Sampler {
    pub closed spec fn start(&self) -> u64 {
        self.start
    }

    pub closed spec fn interval(&self) -> u64 {
        self.interval
    }

    pub closed spec fn ignore_reverts(&self) -> bool {
        self.ignore_reverts
    }

    /// The resolved upper bound, once known.
    pub closed spec fn end(&self) -> Option<u64> {
        self.end
    }

    /// The outcomes of the calls made so far, in order.
    pub closed spec fn outcomes(&self) -> Seq<Option<Seq<DecodedValue>>> {
        self.outs@
    }

    /// The error that ended the scan, if one did.
    pub closed spec fn failure(&self) -> Option<ScanError> {
        self.failure
    }

    pub closed spec fn wf(&self) -> bool {
        &&& self.interval > 0
        &&& self.step == self.outs@.len()
        &&& self.end is None ==> self.outs@.len() == 0 && self.samples@.len() == 0
        &&& self.end matches Some(e) ==> {
            &&& self.outs@.len() <= step_count(self.start, e, self.interval)
            &&& match self.failure {
                None => scan_result(self.start, self.interval, self.ignore_reverts, self.outs@)
                    == Ok::<_, ScanError>(samples_view(self.samples@)),
                Some(f) => scan_result(self.start, self.interval, self.ignore_reverts, self.outs@)
                    == Err::<Seq<(u64, Seq<DecodedValue>)>, _>(f),
            }
        }
    }

    /// The action that the state calls for.
    pub open spec fn action(&self) -> Action {
        if self.failure() is Some {
            Action::Finish
        } else {
            match self.end() {
                None => Action::FetchLatest,
                Some(e) => if self.outcomes().len() < step_count(self.start(), e, self.interval()) {
                    Action::Call(block_at(self.start(), self.interval(), self.outcomes().len() as int) as u64)
                } else {
                    Action::Finish
                },
            }
        }
    }

    /// What the scan returns in this state.
    pub open spec fn result(&self) -> Result<Seq<(u64, Seq<DecodedValue>)>, ScanError> {
        match self.failure() {
            Some(f) => Err(f),
            None => scan_result(self.start(), self.interval(), self.ignore_reverts(), self.outcomes()),
        }
    }

    /// Starts a scan. The stride is checked first, then the form of `end`;
    /// nothing is asked of the node before both pass.
    pub fn new(start: u64, end: BlockRef, interval: u64, ignore_reverts: bool) -> (r: Result<Sampler, ScanError>)
        ensures
            interval == 0 ==> r == Err::<Sampler, _>(ScanError::InvalidInterval),
            interval > 0 && !(end is Latest || end is Number) ==> r == Err::<Sampler, _>(ScanError::UnsupportedRangeSpec),
            interval > 0 && (end is Latest || end is Number) ==> r is Ok,
            r matches Ok(s) ==> {
                &&& s.wf()
                &&& s.start() == start
                &&& s.interval() == interval
                &&& s.ignore_reverts() == ignore_reverts
                &&& s.outcomes().len() == 0
                &&& s.failure() is None
                &&& s.end() == (match end {
                    BlockRef::Number(n) => Some(n),
                    _ => None,
                })
            },
    {
        if interval == 0 {
            return Err(ScanError::InvalidInterval);
        }
        let resolved = match end {
            BlockRef::Number(n) => Some(n),
            BlockRef::Latest => None,
            _ => {
                return Err(ScanError::UnsupportedRangeSpec);
            },
        };
        let samples: Vec<Sample> = Vec::new();
        assert(samples_view(samples@) =~= seq![]);
        assert(scan_result(start, interval, ignore_reverts, Seq::empty()) == Ok::<_, ScanError>(
            Seq::<(u64, Seq<DecodedValue>)>::empty(),
        ));
        Ok(Sampler {
            start,
            interval,
            ignore_reverts,
            end: resolved,
            step: 0,
            samples,
            failure: None,
            outs: Ghost(Seq::empty()),
        })
    }

    /// The next thing to do.
    pub fn next_action(&self) -> (a: Action)
        requires
            self.wf(),
        ensures
            a == self.action(),
    {
        if self.failure.is_some() {
            return Action::Finish;
        }
        match self.end {
            None => Action::FetchLatest,
            Some(e) => {
                let n = steps(self.start, e, self.interval);
                if self.step < n {
                    Action::Call(target_block(self.start, e, self.interval, self.step))
                } else {
                    Action::Finish
                }
            },
        }
    }

    /// Takes the node's answer to `FetchLatest` (see `resolve_end`).
    pub fn on_latest(&mut self, head: Result<Option<u64>, ()>)
        requires
            old(self).wf(),
            old(self).action() == Action::FetchLatest,
        ensures
            final(self).wf(),
            final(self).start() == old(self).start(),
            final(self).interval() == old(self).interval(),
            final(self).ignore_reverts() == old(self).ignore_reverts(),
            final(self).outcomes() == old(self).outcomes(),
            match head {
                Ok(Some(h)) => final(self).end() == Some(h) && final(self).failure() is None,
                Ok(None) => final(self).failure() == Some(ScanError::LatestBlockUnavailable),
                Err(_) => final(self).failure() == Some(ScanError::TransportError),
            },
    {
        assert(samples_view(self.samples@) =~= seq![]);
        assert(scan_result(self.start, self.interval, self.ignore_reverts, self.outs@) == Ok::<_, ScanError>(
            Seq::<(u64, Seq<DecodedValue>)>::empty(),
        ));
        match resolve_end(&BlockRef::Latest, head) {
            Ok(h) => {
                self.end = Some(h);
            },
            Err(e) => {
                self.failure = Some(e);
            },
        }
    }

    /// Takes the outcome of the call that `Call` asked for.
    pub fn on_call(&mut self, outcome: Outcome)
        requires
            old(self).wf(),
            old(self).action() is Call,
        ensures
            final(self).wf(),
            final(self).start() == old(self).start(),
            final(self).interval() == old(self).interval(),
            final(self).ignore_reverts() == old(self).ignore_reverts(),
            final(self).end() == old(self).end(),
            final(self).outcomes() == old(self).outcomes().push(outcome_view(outcome)),
            final(self).failure() == (match final(self).result() {
                Ok(_) => None,
                Err(f) => Some(f),
            }),
    {
        let ghost prev = self.outs@;
        let e = self.end.unwrap();
        let block = target_block(self.start, e, self.interval, self.step);
        let ghost ov = outcome_view(outcome);
        match outcome {
            Some(v) => {
                self.samples.push((block, v));
            },
            None => {
                if !self.ignore_reverts {
                    self.failure = Some(ScanError::CallReverted);
                }
            },
        }
        self.step = self.step + 1;
        self.outs = Ghost(prev.push(ov));
        proof {
            assert(self.outs@.drop_last() =~= prev);
            if ov is Some {
                assert(samples_view(self.samples@) =~= samples_view(old(self).samples@).push((block, ov->Some_0)));
            }
        }
    }

    /// Ends the scan: the samples in block order, or the error that stopped it.
    pub fn finish(self) -> (r: Result<Vec<Sample>, ScanError>)
        requires
            self.wf(),
            self.action() == Action::Finish,
        ensures
            result_view(r) == self.result(),
            r is Ok ==> (self.end() matches Some(e)
                && self.outcomes().len() == step_count(self.start(), e, self.interval())),
    {
        match self.failure {
            Some(f) => Err(f),
            None => Ok(self.samples),
        }
    }
}

/// How many of the outcomes are failures.
pub open spec fn failures(outs: Seq<Option<Seq<DecodedValue>>>) -> nat
    decreases outs.len(),
{
    if outs.len() == 0 {
        0
    } else {
        failures(outs.drop_last()) + if outs.last() is None { 1nat } else { 0nat }
    }
}

proof fn lemma_block_order(start: u64, interval: u64, i: int, j: int)
    requires
        interval > 0,
        i < j,
    ensures
        block_at(start, interval, i) + interval <= block_at(start, interval, j),
{
    assert(i * interval + interval <= j * interval) by (nonlinear_arith)
        requires i < j, interval > 0;
}

/// The only error that the calls of a scan can end it with is `CallReverted`.
pub proof fn lemma_only_revert_errors(
    start: u64,
    interval: u64,
    ignore_reverts: bool,
    outs: Seq<Option<Seq<DecodedValue>>>,
)
    ensures
        scan_result(start, interval, ignore_reverts, outs) is Err ==> scan_result(
            start,
            interval,
            ignore_reverts,
            outs,
        ) == Err::<Seq<(u64, Seq<DecodedValue>)>, _>(ScanError::CallReverted),
    decreases outs.len(),
{
    if outs.len() > 0 {
        lemma_only_revert_errors(start, interval, ignore_reverts, outs.drop_last());
    }
}

/// Every sample lies on the schedule: its block is `start + i * interval` for
/// a step `i` that was called, and the blocks of the samples strictly increase.
pub proof fn lemma_samples_on_schedule(
    start: u64,
    end: u64,
    interval: u64,
    ignore_reverts: bool,
    outs: Seq<Option<Seq<DecodedValue>>>,
)
    requires
        interval > 0,
        outs.len() <= step_count(start, end, interval),
    ensures
        scan_result(start, interval, ignore_reverts, outs) matches Ok(s) ==> {
            &&& forall|k: int| #![trigger s[k]] 0 <= k < s.len() ==> exists|i: int|
                0 <= i < outs.len() && s[k].0 == #[trigger] block_at(start, interval, i)
            &&& forall|k: int, l: int| 0 <= k < l < s.len() ==> #[trigger] s[k].0 < #[trigger] s[l].0
        },
    decreases outs.len(),
{
    if outs.len() > 0 {
        let prev = outs.drop_last();
        let n = outs.len() - 1;
        lemma_samples_on_schedule(start, end, interval, ignore_reverts, prev);
        lemma_block_fits(start, end, interval, n);
        if let Ok(s0) = scan_result(start, interval, ignore_reverts, prev) {
            assert forall|k: int| 0 <= k < s0.len() implies s0[k].0 < block_at(start, interval, n) by {
                let i = choose|i: int| 0 <= i < prev.len() && s0[k].0 == block_at(start, interval, i);
                lemma_block_order(start, interval, i, n);
            }
            if let Some(v) = outs.last() {
                let s = s0.push((block_at(start, interval, n) as u64, v));
                assert(s[s0.len() as int].0 == block_at(start, interval, n));
                assert forall|k: int| #![trigger s[k]] 0 <= k < s.len() implies exists|i: int|
                    0 <= i < outs.len() && s[k].0 == #[trigger] block_at(start, interval, i) by {
                    if k < s0.len() {
                        assert(s[k] == s0[k]);
                        let i = choose|i: int| 0 <= i < prev.len() && s0[k].0 == block_at(start, interval, i);
                        assert(s[k].0 == block_at(start, interval, i));
                    } else {
                        assert(s[k].0 == block_at(start, interval, n));
                    }
                }
            }
        }
    }
}

/// When no whole interval fits between `start` and `end`, a scan makes no
/// call and returns no sample.
pub proof fn lemma_short_range_is_empty(start: u64, end: u64, interval: u64, ignore_reverts: bool)
    requires
        interval > 0,
        end < start + interval,
    ensures
        step_count(start, end, interval) == 0,
        scan_result(start, interval, ignore_reverts, Seq::empty()) == Ok::<_, ScanError>(
            Seq::<(u64, Seq<DecodedValue>)>::empty(),
        ),
{
    if end > start {
        assert((end - start) as nat / interval as nat == 0) by (nonlinear_arith)
            requires end - start < interval, end > start;
    }
}

/// Two scans that receive the same answers from the node return the same
/// samples, and the samples render to the same text.
pub proof fn lemma_repeat_scan_same_text(
    start: u64,
    interval: u64,
    ignore_reverts: bool,
    outs1: Seq<Option<Seq<DecodedValue>>>,
    outs2: Seq<Option<Seq<DecodedValue>>>,
    a: Seq<Sample>,
    b: Seq<Sample>,
)
    requires
        outs1 == outs2,
        scan_result(start, interval, ignore_reverts, outs1) == Ok::<_, ScanError>(samples_view(a)),
        scan_result(start, interval, ignore_reverts, outs2) == Ok::<_, ScanError>(samples_view(b)),
    ensures
        samples_view(a) == samples_view(b),
        table_text(samples_view(a)) == table_text(samples_view(b)),
{
}

/// Without `ignore_reverts`, one failed call anywhere makes the whole scan
/// fail with `CallReverted`; no partial result is returned.
pub proof fn lemma_revert_aborts(
    start: u64,
    interval: u64,
    outs: Seq<Option<Seq<DecodedValue>>>,
    k: int,
)
    requires
        0 <= k < outs.len(),
        outs[k] is None,
    ensures
        scan_result(start, interval, false, outs) == Err::<Seq<(u64, Seq<DecodedValue>)>, _>(
            ScanError::CallReverted,
        ),
    decreases outs.len(),
{
    if k == outs.len() - 1 {
        lemma_only_revert_errors(start, interval, false, outs.drop_last());
    } else {
        assert(outs.drop_last()[k] == outs[k]);
        lemma_revert_aborts(start, interval, outs.drop_last(), k);
    }
}

/// With `ignore_reverts`, a scan never fails on a call: failed steps are
/// skipped, and every successful step appears with its block and values.
pub proof fn lemma_reverts_skipped(start: u64, interval: u64, outs: Seq<Option<Seq<DecodedValue>>>)
    ensures
        scan_result(start, interval, true, outs) is Ok,
        ({
            let s = scan_result(start, interval, true, outs)->Ok_0;
            &&& s.len() + failures(outs) == outs.len()
            &&& forall|i: int| #![trigger outs[i]] 0 <= i < outs.len() && outs[i] is Some ==> exists|k: int|
                0 <= k < s.len() && #[trigger] s[k] == (block_at(start, interval, i) as u64, outs[i]->Some_0)
        }),
    decreases outs.len(),
{
    if outs.len() > 0 {
        let prev = outs.drop_last();
        lemma_reverts_skipped(start, interval, prev);
        let s0 = scan_result(start, interval, true, prev)->Ok_0;
        let s = scan_result(start, interval, true, outs)->Ok_0;
        assert forall|i: int| #![trigger outs[i]] 0 <= i < outs.len() && outs[i] is Some implies exists|k: int|
            0 <= k < s.len() && #[trigger] s[k] == (block_at(start, interval, i) as u64, outs[i]->Some_0) by {
            if i < prev.len() {
                assert(prev[i] == outs[i]);
                let k = choose|k: int| 0 <= k < s0.len() && #[trigger] s0[k] == (block_at(start, interval, i) as u64, prev[i]->Some_0);
                assert(s[k] == s0[k]);
            } else {
                assert(s[s0.len() as int] == (block_at(start, interval, i) as u64, outs[i]->Some_0));
            }
        }
    }
}

} // verus!
