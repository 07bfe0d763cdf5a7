//! Results and the bounded multi-producer single-consumer channel that
//! carries them: the tagged result variant, the channel wrappers, the
//! consumer's pull interface that surfaces only real results, the
//! per-worker state machine, and the collected-mode helpers.

use vstd::prelude::*;

use crate::content::SearchResultRust;
use crate::predicate::spec_accept;
use crate::predicate::should_include_entry;
use crate::predicate::EntryInfo;
use crate::query::CompiledQuery;

verus! {

/// Result type for path finding and content search.
#[derive(Debug)]
pub enum FindResult {
    /// A path that satisfied all predicates.
    Path(String),
    /// One matching line of one searched file.
    Search(SearchResultRust),
    /// A per-entry failure; observable but never fatal to the walk.
    Error(String),
}

#[verifier::external_type_specification]
#[verifier::external_body]
#[verifier::reject_recursive_types(T)]
pub struct ExSender<T>(crossbeam_channel::Sender<T>);

#[verifier::external_type_specification]
#[verifier::external_body]
#[verifier::reject_recursive_types(T)]
pub struct ExReceiver<T>(crossbeam_channel::Receiver<T>);

/// The capacity a sender's channel was created with: `Some` for a bounded
/// channel, `None` for an unbounded one.
pub uninterp spec fn sender_capacity(tx: crossbeam_channel::Sender<FindResult>) -> Option<usize>;

/// Relies on crossbeam_channel::bounded: a fresh channel of exactly the
/// given capacity.
#[verifier::external_body]
pub(crate) fn result_channel(capacity: usize) -> (r: (crossbeam_channel::Sender<FindResult>,
    crossbeam_channel::Receiver<FindResult>))
    ensures
        sender_capacity(r.0) == Some(capacity),
{
    crossbeam_channel::bounded(capacity)
}

/// Relies on crossbeam_channel::Sender::send: blocks while the channel is
/// full; hands the message back exactly when every receiver is gone.
#[verifier::external_body]
pub(crate) fn send_result(tx: &crossbeam_channel::Sender<FindResult>, msg: FindResult) -> (r:
    Result<(), FindResult>)
    ensures
        r matches Err(m) ==> m == msg,
{
    tx.send(msg).map_err(|e| e.0)
}

/// Relies on crossbeam_channel::Receiver::recv: blocks until a message
/// arrives; `None` means every sender is gone and the channel is drained.
#[verifier::external_body]
pub(crate) fn recv_result(rx: &crossbeam_channel::Receiver<FindResult>) -> (r: Option<FindResult>) {
    rx.recv().ok()
}

/// Relies on crossbeam_channel::Sender::clone: one more sender on the same
/// channel, so with the same capacity.
#[verifier::external_body]
pub(crate) fn clone_sender(tx: &crossbeam_channel::Sender<FindResult>) -> (r:
    crossbeam_channel::Sender<FindResult>)
    ensures
        sender_capacity(r) == sender_capacity(*tx),
{
    tx.clone()
}

/// One pull from a `ResultStream`.
#[derive(Debug)]
pub enum StreamStep {
    /// A real result: a path or a search match, never an error.
    Item(FindResult),
    /// An error record was put aside; pull again.
    Skipped,
    /// End of stream.
    End,
}

/// What one received value becomes: nothing received means end-of-stream,
/// an `Error` record is put aside, any other value is handed out
/// unchanged.
pub open spec fn spec_step_of(got: Option<FindResult>) -> StreamStep {
    match got {
        Option::None => StreamStep::End,
        Option::Some(FindResult::Error(_)) => StreamStep::Skipped,
        Option::Some(fr) => StreamStep::Item(fr),
    }
}

/// The recorded errors after one received value: a received `Error`
/// appends its message, everything else leaves them unchanged.
pub open spec fn spec_errors_after(got: Option<FindResult>, errors: Seq<Seq<char>>) -> Seq<
    Seq<char>,
> {
    match got {
        Option::Some(FindResult::Error(m)) => errors.push(m@),
        _ => errors,
    }
}

/// Classify one received value, recording a received error.
fn step_for(got: Option<FindResult>, errors: &mut Vec<String>) -> (r: StreamStep)
    ensures
        r == spec_step_of(got),
        final(errors).deep_view() == spec_errors_after(got, old(errors).deep_view()),
{
    match got {
        Option::None => StreamStep::End,
        Option::Some(FindResult::Error(msg)) => {
            let ghost before = errors.deep_view();
            errors.push(msg);
            proof {
                assert(errors.deep_view() =~= before.push(errors@[errors@.len() - 1]@));
            }
            StreamStep::Skipped
        },
        Option::Some(fr) => StreamStep::Item(fr),
    }
}

/// The consumer's pull interface over the receiving end of the channel.
/// `Error` results are kept on a side channel and never handed out;
/// end-of-stream drops the receiver, which cancels the producers.
pub struct ResultStream {
    receiver: Option<crossbeam_channel::Receiver<FindResult>>,
    errors: Vec<String>,
}

impl ResultStream {
    /// Whether the stream still holds its receiver.
    pub closed spec fn is_open(self) -> bool {
        self.receiver is Some
    }

    /// The error messages seen so far.
    pub closed spec fn spec_errors(self) -> Seq<Seq<char>> {
        self.errors.deep_view()
    }

    /// Wrap the receiving end of a result channel.
    pub fn new(rx: crossbeam_channel::Receiver<FindResult>) -> (r: Self)
        ensures
            r.is_open(),
            r.spec_errors() == Seq::<Seq<char>>::empty(),
    {
        let s = ResultStream { receiver: Option::Some(rx), errors: Vec::new() };
        proof {
            assert(s.spec_errors() =~= Seq::<Seq<char>>::empty());
        }
        s
    }

    /// Pull once from the channel. A closed stream answers `End` at once
    /// and unchanged: end-of-stream is permanent. On an open stream, one
    /// value is received and classified exactly as `spec_step_of` /
    /// `spec_errors_after` say: a received `Error` is recorded and answered
    /// with `Skipped`, a received real value is handed out unchanged as
    /// `Item`, and a disconnected, drained channel answers `End` and drops
    /// the receiver — producers observe the disconnect and stop.
    pub fn poll(&mut self) -> (r: StreamStep)
        ensures
            !old(self).is_open() ==> r is End && !final(self).is_open() && final(self).spec_errors()
                == old(self).spec_errors(),
            old(self).is_open() ==> (exists|got: Option<FindResult>|
                {
                    &&& r == #[trigger] spec_step_of(got)
                    &&& final(self).spec_errors() == spec_errors_after(
                        got,
                        old(self).spec_errors(),
                    )
                    &&& (final(self).is_open() <==> got is Some)
                }),
            r matches StreamStep::Item(fr) ==> !(fr is Error),
            r is End ==> !final(self).is_open(),
            r is Skipped ==> final(self).spec_errors().len() == old(self).spec_errors().len() + 1,
            old(self).spec_errors().is_prefix_of(final(self).spec_errors()),
    {
        if self.receiver.is_none() {
            return StreamStep::End;
        }
        let got = match &self.receiver {
            Option::Some(rx) => recv_result(rx),
            Option::None => Option::None,
        };
        let ghost g = got;
        if got.is_none() {
            self.receiver = Option::None;
        }
        let r = step_for(got, &mut self.errors);
        proof {
            assert(r == spec_step_of(g));
            assert(self.spec_errors() == spec_errors_after(g, old(self).spec_errors()));
            assert(self.is_open() <==> g is Some);
        }
        r
    }

    /// Hand out the error messages recorded so far.
    pub fn errors(&self) -> (r: &Vec<String>)
        ensures
            r.deep_view() == self.spec_errors(),
    {
        &self.errors
    }

    /// Drop the receiver without draining: producers observe the
    /// disconnect on their next send and terminate.
    pub fn cancel(&mut self)
        ensures
            !final(self).is_open(),
            final(self).spec_errors() == old(self).spec_errors(),
    {
        self.receiver = Option::None;
    }
}

/// A producer's state, as the walker drives it.
#[derive(Clone, Copy, Debug, PartialEq, Eq, Structural)]
pub enum WorkerState {
    Idle,
    Visiting,
    Filtering,
    Emitting,
    ReportingError,
    Terminating,
}

/// What a producer observes at one step.
#[derive(Clone, Copy, Debug, PartialEq, Eq, Structural)]
pub enum WorkerEvent {
    /// Work was handed out.
    GetWork,
    /// An entry was read.
    EntryOk,
    /// An entry could not be read.
    EntryErr,
    /// The predicates accepted the entry.
    Accepted,
    /// The predicates rejected the entry.
    Rejected,
    /// The result was sent.
    Emitted,
    /// The error record was sent.
    Reported,
    /// A send found every receiver gone: the consumer cancelled.
    ChannelClosed,
    /// All roots are drained.
    Drained,
}

/// The per-worker transition relation. A worker that has terminated stays
/// terminated; a closed channel or drained roots terminate it from any
/// state; an event that does not apply to the state leaves it unchanged.
pub open spec fn spec_worker_step(s: WorkerState, ev: WorkerEvent) -> WorkerState {
    if s is Terminating {
        WorkerState::Terminating
    } else {
        match ev {
            WorkerEvent::ChannelClosed => WorkerState::Terminating,
            WorkerEvent::Drained => WorkerState::Terminating,
            WorkerEvent::GetWork => if s is Idle {
                WorkerState::Visiting
            } else {
                s
            },
            WorkerEvent::EntryOk => if s is Visiting {
                WorkerState::Filtering
            } else {
                s
            },
            WorkerEvent::EntryErr => if s is Visiting {
                WorkerState::ReportingError
            } else {
                s
            },
            WorkerEvent::Accepted => if s is Filtering {
                WorkerState::Emitting
            } else {
                s
            },
            WorkerEvent::Rejected => if s is Filtering {
                WorkerState::Visiting
            } else {
                s
            },
            WorkerEvent::Emitted => if s is Emitting {
                WorkerState::Visiting
            } else {
                s
            },
            WorkerEvent::Reported => if s is ReportingError {
                WorkerState::Visiting
            } else {
                s
            },
        }
    }
}

/// Take one worker step.
pub fn worker_step(s: WorkerState, ev: WorkerEvent) -> (r: WorkerState)
    ensures
        r == spec_worker_step(s, ev),
{
    if matches!(s, WorkerState::Terminating) {
        return WorkerState::Terminating;
    }
    match ev {
        WorkerEvent::ChannelClosed => WorkerState::Terminating,
        WorkerEvent::Drained => WorkerState::Terminating,
        WorkerEvent::GetWork => if matches!(s, WorkerState::Idle) {
            WorkerState::Visiting
        } else {
            s
        },
        WorkerEvent::EntryOk => if matches!(s, WorkerState::Visiting) {
            WorkerState::Filtering
        } else {
            s
        },
        WorkerEvent::EntryErr => if matches!(s, WorkerState::Visiting) {
            WorkerState::ReportingError
        } else {
            s
        },
        WorkerEvent::Accepted => if matches!(s, WorkerState::Filtering) {
            WorkerState::Emitting
        } else {
            s
        },
        WorkerEvent::Rejected => if matches!(s, WorkerState::Filtering) {
            WorkerState::Visiting
        } else {
            s
        },
        WorkerEvent::Emitted => if matches!(s, WorkerState::Emitting) {
            WorkerState::Visiting
        } else {
            s
        },
        WorkerEvent::Reported => if matches!(s, WorkerState::ReportingError) {
            WorkerState::Visiting
        } else {
            s
        },
    }
}

/// Cancellation: a closed channel sends every worker to `Terminating`, and
/// a terminated worker never leaves that state, whatever else it observes.
pub proof fn lemma_cancellation(s: WorkerState, ev: WorkerEvent)
    ensures
        spec_worker_step(s, WorkerEvent::ChannelClosed) is Terminating,
        s is Terminating ==> spec_worker_step(s, ev) is Terminating,
{
}

/// What the walker hands a producer for one entry: the entry as plain
/// values, or the message of a per-entry failure.
pub enum WalkEvent {
    Entry(EntryInfo),
    Failure(String),
}

/// What a producer sends for one walker event in find mode: the path of an
/// accepted entry, nothing for a rejected one, and an `Error` record for a
/// failure.
pub open spec fn spec_find_result_for(q: CompiledQuery, ev: WalkEvent) -> Option<FindResult> {
    match ev {
        WalkEvent::Entry(e) => if spec_accept(q, e) {
            Some(FindResult::Path(e.path))
        } else {
            None
        },
        WalkEvent::Failure(msg) => Some(FindResult::Error(msg)),
    }
}

/// Decide what one walker event produces in find mode.
pub fn find_result_for(q: &CompiledQuery, ev: WalkEvent) -> (r: Option<FindResult>)
    ensures
        r == spec_find_result_for(*q, ev),
{
    match ev {
        WalkEvent::Entry(e) => {
            if should_include_entry(&e, q) {
                Option::Some(FindResult::Path(e.path))
            } else {
                Option::None
            }
        },
        WalkEvent::Failure(msg) => Option::Some(FindResult::Error(msg)),
    }
}

/// Decide one walker event and send what it produces. The worker goes back
/// to `Visiting`, except that a send finding the consumer gone moves it to
/// `Terminating`.
pub fn process_find_event(
    tx: &crossbeam_channel::Sender<FindResult>,
    q: &CompiledQuery,
    ev: WalkEvent,
) -> (r: WorkerState)
    ensures
        r is Visiting || r is Terminating,
        spec_find_result_for(*q, ev) is None ==> r is Visiting,
{
    match find_result_for(q, ev) {
        Option::None => WorkerState::Visiting,
        Option::Some(msg) => match send_result(tx, msg) {
            Ok(_) => WorkerState::Visiting,
            Err(_) => worker_step(WorkerState::Emitting, WorkerEvent::ChannelClosed),
        },
    }
}

/// The `Path` payloads of a result sequence, in order.
pub open spec fn spec_paths_of(s: Seq<FindResult>) -> Seq<Seq<char>>
    decreases s.len(),
{
    if s.len() == 0 {
        Seq::empty()
    } else {
        let rest = spec_paths_of(s.drop_last());
        match s.last() {
            FindResult::Path(p) => rest.push(p@),
            _ => rest,
        }
    }
}

/// Keep the `Path` results of a drained stream, in order.
pub fn collect_paths(results: Vec<FindResult>) -> (r: Vec<String>)
    ensures
        r.deep_view() == spec_paths_of(results@),
{
    let ghost all = results@;
    let mut rest = results;
    let mut out: Vec<String> = Vec::new();
    proof {
        assert(all.take(0) =~= Seq::<FindResult>::empty());
        assert(out.deep_view() =~= spec_paths_of(all.take(0)));
        assert(rest@ =~= all.skip(0));
    }
    while rest.len() > 0
        invariant
            rest@.len() <= all.len(),
            rest@ == all.skip(all.len() - rest@.len()),
            out.deep_view() == spec_paths_of(all.take(all.len() - rest@.len())),
        decreases rest@.len(),
    {
        let ghost done = all.len() - rest@.len();
        proof {
            assert(rest@[0] == all[done]);
            assert(all.take(done + 1).drop_last() =~= all.take(done));
            assert(all.take(done + 1).last() == all[done]);
        }
        let fr = rest.remove(0);
        proof {
            assert(rest@ =~= all.skip(done + 1));
        }
        let ghost old_out = out.deep_view();
        match fr {
            FindResult::Path(p) => {
                out.push(p);
                proof {
                    assert(out.deep_view() =~= old_out.push(all[done]->Path_0@));
                    assert(out.deep_view() == spec_paths_of(all.take(done + 1)));
                }
            },
            _ => {
                proof {
                    assert(out.deep_view() == spec_paths_of(all.take(done + 1)));
                }
            },
        }
    }
    proof {
        assert(all.take(all.len() as int) =~= all);
    }
    out
}

/// The `Search` payloads of a result sequence, in order.
pub open spec fn spec_search_records_of(s: Seq<FindResult>) -> Seq<SearchResultRust>
    decreases s.len(),
{
    if s.len() == 0 {
        Seq::empty()
    } else {
        let rest = spec_search_records_of(s.drop_last());
        match s.last() {
            FindResult::Search(rec) => rest.push(rec),
            _ => rest,
        }
    }
}

/// Keep the `Search` results of a drained stream, in order.
pub fn collect_search_results(results: Vec<FindResult>) -> (r: Vec<SearchResultRust>)
    ensures
        r@ == spec_search_records_of(results@),
{
    let ghost all = results@;
    let mut rest = results;
    let mut out: Vec<SearchResultRust> = Vec::new();
    proof {
        assert(all.take(0) =~= Seq::<FindResult>::empty());
        assert(out@ =~= spec_search_records_of(all.take(0)));
        assert(rest@ =~= all.skip(0));
    }
    while rest.len() > 0
        invariant
            rest@.len() <= all.len(),
            rest@ == all.skip(all.len() - rest@.len()),
            out@ == spec_search_records_of(all.take(all.len() - rest@.len())),
        decreases rest@.len(),
    {
        let ghost done = all.len() - rest@.len();
        proof {
            assert(rest@[0] == all[done]);
            assert(all.take(done + 1).drop_last() =~= all.take(done));
            assert(all.take(done + 1).last() == all[done]);
        }
        let fr = rest.remove(0);
        proof {
            assert(rest@ =~= all.skip(done + 1));
        }
        match fr {
            FindResult::Search(rec) => {
                out.push(rec);
                proof {
                    assert(out@ == spec_search_records_of(all.take(done + 1)));
                }
            },
            _ => {
                proof {
                    assert(out@ == spec_search_records_of(all.take(done + 1)));
                }
            },
        }
    }
    proof {
        assert(all.take(all.len() as int) =~= all);
    }
    out
}

} // verus!
