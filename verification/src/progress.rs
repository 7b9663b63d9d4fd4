//! Progress bookkeeping for a byte-stream copy: a fixed reporting
//! granularity, a small state machine that decides when a report is due, and
//! a verified copy loop over in-memory reads.

use vstd::prelude::*;

verus! {

/// Progress reports for large transfers are spaced at most this many bytes
/// apart, capping callback overhead at a 2 MiB cadence.
pub const GRANULARITY_CAP: u64 = 2 * 1024 * 1024;

/// Size of the intermediate transfer buffer a copy loop should use.
pub const COPY_BUFFER_SIZE: usize = 8 * 1024;

/// Minimum cumulative byte delta between consecutive progress reports:
/// one tenth of the declared total, capped at 2 MiB. A declared total of
/// zero gives granularity zero, so every non-empty chunk triggers a report.
pub open spec fn granularity_of(total_bytes: u64) -> u64 {
    if total_bytes / 10 < GRANULARITY_CAP {
        total_bytes / 10
    } else {
        GRANULARITY_CAP
    }
}

/// Capability invoked by the copy loop to report cumulative progress.
/// Implementations are called inline from the loop and must not block long.
pub trait ReportCopyProgress {
    fn report_progress(&mut self, bytes_so_far: u64, total_bytes: u64);
}

/// Reporter that discards every progress update, for silent operation.
pub struct SilentCopyProgress();

impl ReportCopyProgress for SilentCopyProgress {
    fn report_progress(&mut self, _bytes_so_far: u64, _total_bytes: u64) {
    }
}

/// Bookkeeping for one copy operation: the cumulative byte count, the count
/// at the last report, and the granularity fixed at construction.
pub struct CopyState {
    pub bytes_so_far: u64,
    pub bytes_last_reported: u64,
    pub report_granularity: u64,
    pub total_bytes: u64,
}

impl CopyState {
    /// A state never reports more bytes than it has counted, and its
    /// granularity is the fixed policy for its declared total.
    pub open spec fn wf(&self) -> bool {
        &&& self.bytes_last_reported <= self.bytes_so_far
        &&& self.report_granularity == granularity_of(self.total_bytes)
    }

    /// Whether counting `n` more bytes crosses the reporting boundary.
    pub open spec fn spec_should_report(&self, n: u64) -> bool {
        self.bytes_so_far + n - self.bytes_last_reported > self.report_granularity
    }

    pub fn new(total_bytes: u64) -> (s: Self)
        ensures
            s.wf(),
            s.bytes_so_far == 0,
            s.bytes_last_reported == 0,
            s.total_bytes == total_bytes,
    {
        let tenth: u64 = total_bytes / 10;
        CopyState {
            bytes_so_far: 0,
            bytes_last_reported: 0,
            report_granularity: if tenth < GRANULARITY_CAP {
                tenth
            } else {
                GRANULARITY_CAP
            },
            total_bytes,
        }
    }

    /// Counts `n` more transferred bytes; returns true exactly when a
    /// progress report is due, in which case the report mark advances to the
    /// new cumulative count.
    pub fn record_chunk(&mut self, n: u64) -> (report: bool)
        requires
            old(self).wf(),
            old(self).bytes_so_far + n <= u64::MAX,
        ensures
            final(self).wf(),
            final(self).bytes_so_far == old(self).bytes_so_far + n,
            final(self).total_bytes == old(self).total_bytes,
            final(self).report_granularity == old(self).report_granularity,
            report == old(self).spec_should_report(n),
            report ==> final(self).bytes_last_reported == final(self).bytes_so_far,
            !report ==> final(self).bytes_last_reported == old(self).bytes_last_reported,
    {
        self.bytes_so_far = self.bytes_so_far + n;
        if self.bytes_so_far - self.bytes_last_reported > self.report_granularity {
            self.bytes_last_reported = self.bytes_so_far;
            true
        } else {
            false
        }
    }
}

/// The bytes a copy moves to the sink, given the successive reads `chunks`
/// yields: the concatenation, in order, of every chunk before the first
/// empty one (an empty read means end of stream, so later chunks are never
/// read).
pub open spec fn copied_bytes(chunks: Seq<Seq<u8>>) -> Seq<u8>
    decreases chunks.len(),
{
    if chunks.len() == 0 || chunks[0].len() == 0 {
        Seq::empty()
    } else {
        chunks[0] + copied_bytes(chunks.skip(1))
    }
}

/// How many chunks a copy consumes: those before the first empty one.
pub open spec fn consumed_count(chunks: Seq<Seq<u8>>) -> int
    decreases chunks.len(),
{
    if chunks.len() == 0 || chunks[0].len() == 0 {
        0
    } else {
        1 + consumed_count(chunks.skip(1))
    }
}

/// The intermediate progress reports a copy emits while consuming `chunks`,
/// starting from a state that has counted `so_far` bytes and last reported
/// at `last`: after each consumed chunk, a report of the new cumulative
/// count exactly when it exceeds the last reported count by more than the
/// granularity.
pub open spec fn reports_from(chunks: Seq<Seq<u8>>, so_far: int, last: int, total_bytes: u64) -> Seq<
    (u64, u64),
>
    decreases chunks.len(),
{
    if chunks.len() == 0 || chunks[0].len() == 0 {
        Seq::empty()
    } else {
        let next = so_far + chunks[0].len();
        if next - last > granularity_of(total_bytes) {
            seq![((next as u64), total_bytes)] + reports_from(chunks.skip(1), next, next, total_bytes)
        } else {
            reports_from(chunks.skip(1), next, last, total_bytes)
        }
    }
}

/// Every report a copy of `chunks` emits, in order: the initial
/// `(0, total_bytes)`, the intermediate reports, and the final report
/// carrying the exact cumulative count.
pub open spec fn report_trace(chunks: Seq<Seq<u8>>, total_bytes: u64) -> Seq<(u64, u64)> {
    seq![(0u64, total_bytes)] + reports_from(chunks, 0, 0, total_bytes) + seq![
        ((copied_bytes(chunks).len() as u64), total_bytes),
    ]
}

/// No report is ever skipped at the very end: every copy emits at least two
/// reports, the first being the initial `(0, total_bytes)` and the last
/// carrying the exact number of bytes transferred — whatever `total_bytes`
/// was declared to be.
pub proof fn lemma_initial_and_final_reports(chunks: Seq<Seq<u8>>, total_bytes: u64)
    ensures
        report_trace(chunks, total_bytes).len() >= 2,
        report_trace(chunks, total_bytes).first() == (0u64, total_bytes),
        report_trace(chunks, total_bytes).last() == (
            (copied_bytes(chunks).len() as u64),
            total_bytes,
        ),
{
}

/// With a declared total of zero the granularity is zero, so every consumed
/// chunk — each is non-empty — triggers an intermediate report: starting
/// from any state that has not reported more than it has counted, the copy
/// emits one intermediate report per consumed chunk.
pub proof fn lemma_zero_total_reports_every_chunk(chunks: Seq<Seq<u8>>, so_far: int, last: int)
    requires
        0 <= last <= so_far,
    ensures
        granularity_of(0) == 0,
        reports_from(chunks, so_far, last, 0).len() == consumed_count(chunks),
    decreases chunks.len(),
{
    if chunks.len() == 0 || chunks[0].len() == 0 {
    } else {
        let next = so_far + chunks[0].len();
        lemma_zero_total_reports_every_chunk(chunks.skip(1), next, next);
    }
}

/// Appends all of `chunk` to `sink`.
fn append_bytes(sink: &mut Vec<u8>, chunk: &Vec<u8>)
    requires
        old(sink)@.len() + chunk@.len() <= usize::MAX,
    ensures
        final(sink)@ == old(sink)@ + chunk@,
{
    let mut i: usize = 0;
    while i < chunk.len()
        invariant
            i <= chunk@.len(),
            old(sink)@.len() + chunk@.len() <= usize::MAX,
            sink@ == old(sink)@ + chunk@.subrange(0, i as int),
        decreases chunk@.len() - i,
    {
        sink.push(chunk[i]);
        proof {
            assert(chunk@.subrange(0, i + 1) == chunk@.subrange(0, i as int).push(
                chunk@[i as int],
            ));
        }
        i = i + 1;
    }
    proof {
        assert(sink@ == old(sink)@ + chunk@.subrange(0, chunk@.len() as int));
        assert(chunk@.subrange(0, chunk@.len() as int) =~= chunk@);
    }
}

/// Moves every chunk of `chunks` before the first empty one into `sink`, in
/// order, reporting progress through `reporter` at the fixed granularity:
/// an initial `(0, total_bytes)` report, an intermediate report whenever the
/// cumulative count outruns the last reported one by more than the
/// granularity, and a final report with the exact cumulative count. Returns
/// the number of bytes copied, together with the trace of every report that
/// was passed to `reporter`, in call order.
pub fn copy_with_progress<T: ReportCopyProgress>(
    reporter: &mut T,
    chunks: &Vec<Vec<u8>>,
    sink: &mut Vec<u8>,
    total_bytes: u64,
) -> (r: (u64, Vec<(u64, u64)>))
    requires
        old(sink)@.len() + copied_bytes(chunks.deep_view()).len() <= usize::MAX,
        copied_bytes(chunks.deep_view()).len() <= u64::MAX,
    ensures
        final(sink)@ == old(sink)@ + copied_bytes(chunks.deep_view()),
        r.0 == copied_bytes(chunks.deep_view()).len(),
        r.1@ == report_trace(chunks.deep_view(), total_bytes),
        r.1@.len() >= 2,
        r.1@.first() == (0u64, total_bytes),
        r.1@.last() == (r.0, total_bytes),
{
    let ghost model = chunks.deep_view();
    let mut state = CopyState::new(total_bytes);
    let mut reports: Vec<(u64, u64)> = Vec::new();
    reporter.report_progress(0, total_bytes);
    reports.push((0, total_bytes));
    proof {
        assert(model.skip(0) =~= model);
        assert(reports@ =~= seq![(0u64, total_bytes)]);
    }

    let mut i: usize = 0;
    while i < chunks.len()
        invariant
            i <= chunks@.len(),
            model == chunks.deep_view(),
            model.len() == chunks@.len(),
            state.wf(),
            state.total_bytes == total_bytes,
            state.bytes_so_far == sink@.len() - old(sink)@.len(),
            sink@.len() >= old(sink)@.len(),
            old(sink)@.len() + copied_bytes(model).len() <= usize::MAX,
            copied_bytes(model).len() <= u64::MAX,
            sink@ + copied_bytes(model.skip(i as int)) == old(sink)@ + copied_bytes(model),
            reports@ + reports_from(
                model.skip(i as int),
                state.bytes_so_far as int,
                state.bytes_last_reported as int,
                total_bytes,
            ) == seq![(0u64, total_bytes)] + reports_from(model, 0, 0, total_bytes),
        ensures
            sink@ == old(sink)@ + copied_bytes(model),
            state.bytes_so_far == copied_bytes(model).len(),
            reports@ == seq![(0u64, total_bytes)] + reports_from(model, 0, 0, total_bytes),
            state.total_bytes == total_bytes,
        decreases chunks@.len() - i,
    {
        proof {
            assert(model[i as int] == chunks@[i as int].deep_view());
            assert(chunks@[i as int].deep_view() =~= chunks@[i as int]@);
            assert(model.skip(i as int)[0] == model[i as int]);
            assert(model.skip(i as int).skip(1) =~= model.skip(i as int + 1));
        }
        let n = chunks[i].len();
        if n == 0 {
            proof {
                assert(copied_bytes(model.skip(i as int)) =~= Seq::<u8>::empty());
                assert(sink@ + Seq::<u8>::empty() =~= sink@);
                assert(reports@ + Seq::<(u64, u64)>::empty() =~= reports@);
            }
            break;
        }
        proof {
            assert(copied_bytes(model.skip(i as int)) == model[i as int] + copied_bytes(
                model.skip(i as int + 1),
            ));
            assert(n == model[i as int].len());
            assert((sink@ + copied_bytes(model.skip(i as int))).len() == (old(sink)@
                + copied_bytes(model)).len());
            assert(sink@.len() + copied_bytes(model.skip(i as int)).len() == old(
                sink,
            )@.len() + copied_bytes(model).len());
            assert(copied_bytes(model.skip(i as int)).len() >= n);
            assert(state.bytes_so_far + n <= copied_bytes(model).len());
        }
        append_bytes(sink, &chunks[i]);
        if state.record_chunk(n as u64) {
            reporter.report_progress(state.bytes_so_far, total_bytes);
            reports.push((state.bytes_so_far, total_bytes));
        }
        i = i + 1;
    }
    reporter.report_progress(state.bytes_so_far, total_bytes);
    reports.push((state.bytes_so_far, total_bytes));
    proof {
        assert(reports@ =~= report_trace(model, total_bytes));
        lemma_initial_and_final_reports(model, total_bytes);
    }
    (state.bytes_so_far, reports)
}

} // verus!

