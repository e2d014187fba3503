use vstd::prelude::*;
use crate::engine::{Engine, clamp_i32};
use crate::event::{EventCode, RawEvent, ReadStatus, SyncState};
use crate::fixed::{ONE, HALF, nearest, lemma_nearest};

verus! {

/// The state after a sequence of reads, and every event sent on, in order.
pub open spec fn run(e: Engine, reads: Seq<(ReadStatus, RawEvent)>) -> (Engine, Seq<RawEvent>)
    decreases reads.len(),
{
    if reads.len() == 0 {
        (e, Seq::empty())
    } else {
        let (before, sent) = run(e, reads.drop_last());
        let (after, more) = before.step(reads.last().0, reads.last().1);
        (after, sent + more)
    }
}

/// Every read keeps the engine well formed: pending motion in range and each
/// carry in `(-HALF, HALF]`.
pub proof fn lemma_step_wf(e: Engine, status: ReadStatus, ev: RawEvent)
    requires
        e.wf(),
    ensures
        e.step(status, ev).0.wf(),
{
    if status == ReadStatus::Normal && ev.code == EventCode::SynReport {
        lemma_nearest(e.scaled_x(ev.time));
        lemma_nearest(e.scaled_y(ev.time));
    }
}

/// Carries stay in `(-HALF, HALF]` after any sequence of reads, starting from
/// any well-formed engine (a fresh one among them).
pub proof fn lemma_carry_bounded(e: Engine, reads: Seq<(ReadStatus, RawEvent)>)
    requires
        e.wf(),
    ensures
        run(e, reads).0.wf(),
        -HALF < run(e, reads).0.carry_x <= HALF,
        -HALF < run(e, reads).0.carry_y <= HALF,
    decreases reads.len(),
{
    if reads.len() > 0 {
        lemma_carry_bounded(e, reads.drop_last());
        lemma_step_wf(run(e, reads.drop_last()).0, reads.last().0, reads.last().1);
    }
}

/// The sync state has no say in what a read does to the frame state or
/// what it sends on.
pub proof fn lemma_step_ignores_sync(a: Engine, b: Engine, status: ReadStatus, ev: RawEvent)
    requires
        a.same_frame_state(b),
    ensures
        a.step(status, ev).0.same_frame_state(b.step(status, ev).0),
        a.step(status, ev).1 == b.step(status, ev).1,
{
    assert(a.scale_at(ev.time) == b.scale_at(ev.time));
}

/// A sync-loss read sends nothing on and leaves pending motion, carries and
/// the frame clock as they were.
pub proof fn lemma_sync_loss_keeps_state(e: Engine, ev: RawEvent)
    ensures
        e.step(ReadStatus::SyncLoss, ev).0.same_frame_state(e),
        e.step(ReadStatus::SyncLoss, ev).0.sync == SyncState::Resyncing,
        e.step(ReadStatus::SyncLoss, ev).1 == Seq::<RawEvent>::empty(),
{
}

/// Reads that follow a sync-loss read go exactly as they would without it:
/// the same events are sent on and the same frame state is reached.
pub proof fn lemma_sync_loss_dropped(e: Engine, lost: RawEvent, reads: Seq<(ReadStatus, RawEvent)>)
    ensures
        run(e, seq![(ReadStatus::SyncLoss, lost)] + reads).1 == run(e, reads).1,
        run(e, seq![(ReadStatus::SyncLoss, lost)] + reads).0.same_frame_state(run(e, reads).0),
    decreases reads.len(),
{
    let all = seq![(ReadStatus::SyncLoss, lost)] + reads;
    if reads.len() == 0 {
        assert(all.drop_last() =~= Seq::<(ReadStatus, RawEvent)>::empty());
        assert(run(e, all.drop_last()) == (e, Seq::<RawEvent>::empty()));
        assert(run(e, all).1 =~= Seq::<RawEvent>::empty());
    } else {
        assert(all.drop_last() =~= seq![(ReadStatus::SyncLoss, lost)] + reads.drop_last());
        assert(all.last() == reads.last());
        lemma_sync_loss_dropped(e, lost, reads.drop_last());
        lemma_step_ignores_sync(
            run(e, all.drop_last()).0,
            run(e, reads.drop_last()).0,
            reads.last().0,
            reads.last().1,
        );
    }
}

/// An event other than motion or a frame end is sent on as it came, and
/// leaves pending motion, carries and the frame clock as they were.
pub proof fn lemma_pass_through(e: Engine, ev: RawEvent)
    requires
        ev.code is Other,
    ensures
        e.step(ReadStatus::Normal, ev).1 == seq![ev],
        e.step(ReadStatus::Normal, ev).0.same_frame_state(e),
{
}

/// One frame of X motion `rx`, Y motion `ry` and terminator `term`: each
/// emitted count plus the new carry gives back, to the micro-unit, the scale
/// times the raw value plus the incoming carry; the output is X, Y, then the
/// terminator.
pub proof fn lemma_frame_conservation(e: Engine, rx: RawEvent, ry: RawEvent, term: RawEvent)
    requires
        e.wf(),
        rx.code == EventCode::RelX,
        ry.code == EventCode::RelY,
        term.code == EventCode::SynReport,
    ensures
        ({
            let e1 = e.step(ReadStatus::Normal, rx).0;
            let e2 = e1.step(ReadStatus::Normal, ry).0;
            let (e3, out) = e2.step(ReadStatus::Normal, term);
            let s = e2.scale_at(term.time);
            let sx = (s * (rx.value * ONE + e.carry_x)) / (ONE as int);
            let sy = (s * (ry.value * ONE + e.carry_y)) / (ONE as int);
            &&& nearest(sx) * ONE + e3.carry_x == sx
            &&& nearest(sy) * ONE + e3.carry_y == sy
            &&& -HALF < e3.carry_x <= HALF
            &&& -HALF < e3.carry_y <= HALF
            &&& out == seq![
                RawEvent { time: term.time, code: EventCode::RelX, value: clamp_i32(nearest(sx)) as i32 },
                RawEvent { time: term.time, code: EventCode::RelY, value: clamp_i32(nearest(sy)) as i32 },
                term,
            ]
        }),
{
    let e1 = e.step(ReadStatus::Normal, rx).0;
    let e2 = e1.step(ReadStatus::Normal, ry).0;
    lemma_step_wf(e, ReadStatus::Normal, rx);
    lemma_step_wf(e1, ReadStatus::Normal, ry);
    lemma_nearest(e2.scaled_x(term.time));
    lemma_nearest(e2.scaled_y(term.time));
}

impl Engine {
    /// Takes in a sequence of reads and returns every event sent on.
    pub fn process(&mut self, reads: &Vec<(ReadStatus, RawEvent)>) -> (r: Vec<RawEvent>)
        requires
            old(self).wf(),
        ensures
            final(self).wf(),
            (*final(self), r@) == run(*old(self), reads@),
    {
        let ghost start = *self;
        let mut out: Vec<RawEvent> = Vec::new();
        let mut i: usize = 0;
        while i < reads.len()
            invariant
                i <= reads.len(),
                self.wf(),
                (*self, out@) == run(start, reads@.take(i as int)),
            decreases reads.len() - i,
        {
            let (status, ev) = reads[i];
            let mut more = self.on_read(status, ev);
            assert(reads@.take(i + 1).drop_last() =~= reads@.take(i as int));
            out.append(&mut more);
            i = i + 1;
        }
        assert(reads@.take(i as int) =~= reads@);
        out
    }
}

} // verus!
