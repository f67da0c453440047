//! The streaming symmetric-difference engine. Two row sequences advance
//! independently; the engine pulls from them strictly by the parity of a
//! step counter, fingerprints each row, and keeps one pending map per
//! side. A row whose fingerprint is already pending on the other side
//! cancels that entry; otherwise it is added to its own side. The run
//! stops when both sides are exhausted or the combined pending count
//! exceeds the configured bound.
//!
//! The whole loop is pinned down by a spec-level interpreter, `run` over
//! `EngineState`: every executable entry point promises exactly what the
//! interpreter computes.

use crate::pending::{
    has_key, lemma_pending_insert, lemma_pending_remove, pending_insert, pending_remove,
    unique_keys, PendingMap,
};
use crate::row::{row_fp, row_hasher, Row};
use vstd::prelude::*;

verus! {

/// One past the largest step-counter value: the counter wraps at the
/// 32-bit boundary, as the processed-row count tolerates overflow.
pub open spec fn counter_limit() -> int {
    0x1_0000_0000
}

/// The step counter advanced by one, wrapping at the 32-bit boundary.
pub open spec fn wrap_inc(i: int) -> int {
    if i + 1 < counter_limit() {
        i + 1
    } else {
        0
    }
}

/// The complete state of one diff run, as the spec-level interpreter
/// sees it: the rows not yet pulled on each side, the done flags, the
/// two pending maps, the step counter and the bound.
#[verifier::ext_equal]
pub struct EngineState {
    /// Rows not yet pulled from the source side.
    pub src: Seq<Row>,
    /// Rows not yet pulled from the destination side.
    pub dst: Seq<Row>,
    /// Whether the source side has signalled end-of-sequence.
    pub sdone: bool,
    /// Whether the destination side has signalled end-of-sequence.
    pub ddone: bool,
    /// The source side's pending entries.
    pub sp: Seq<(u64, Row)>,
    /// The destination side's pending entries.
    pub dp: Seq<(u64, Row)>,
    /// The step counter; even picks the source, odd the destination.
    pub i: int,
    /// The bound on the combined pending count.
    pub max: int,
}

/// The state a run starts from: nothing pulled, nothing pending.
pub open spec fn init_state(src: Seq<Row>, dst: Seq<Row>, max: int) -> EngineState {
    EngineState {
        src,
        dst,
        sdone: false,
        ddone: false,
        sp: Seq::empty(),
        dp: Seq::empty(),
        i: 0,
        max,
    }
}

/// Well-formedness of an engine state: counter and bound in range, keys
/// unique, and a done flag only on an exhausted side.
pub open spec fn st_wf(st: EngineState) -> bool {
    &&& 0 <= st.i < counter_limit()
    &&& 0 <= st.max
    &&& unique_keys(st.sp)
    &&& unique_keys(st.dp)
    &&& st.sdone ==> st.src.len() == 0
    &&& st.ddone ==> st.dst.len() == 0
}

/// Whether the run is over: both sides exhausted, or the combined pending
/// count past the bound.
pub open spec fn st_done(st: EngineState) -> bool {
    (st.sdone && st.ddone) || st.sp.len() + st.dp.len() > st.max
}

/// One iteration of the loop. The counter's parity picks a side; a done
/// side is skipped by advancing the counter alone; otherwise the next row
/// is pulled: end-of-sequence sets the done flag, a fingerprint pending
/// on the other side cancels that entry without advancing the counter,
/// and anything else is added to this side's pending map, advancing the
/// counter.
pub open spec fn step(st: EngineState) -> EngineState {
    if st.i % 2 == 0 {
        if st.sdone {
            EngineState { i: wrap_inc(st.i), ..st }
        } else if st.src.len() == 0 {
            EngineState { sdone: true, ..st }
        } else {
            let r = st.src.first();
            let h = row_fp(r);
            if has_key(st.dp, h) {
                EngineState { src: st.src.drop_first(), dp: pending_remove(st.dp, h), ..st }
            } else {
                EngineState {
                    src: st.src.drop_first(),
                    sp: pending_insert(st.sp, h, r),
                    i: wrap_inc(st.i),
                    ..st
                }
            }
        }
    } else {
        if st.ddone {
            EngineState { i: wrap_inc(st.i), ..st }
        } else if st.dst.len() == 0 {
            EngineState { ddone: true, ..st }
        } else {
            let r = st.dst.first();
            let h = row_fp(r);
            if has_key(st.sp, h) {
                EngineState { dst: st.dst.drop_first(), sp: pending_remove(st.sp, h), ..st }
            } else {
                EngineState {
                    dst: st.dst.drop_first(),
                    dp: pending_insert(st.dp, h, r),
                    i: wrap_inc(st.i),
                    ..st
                }
            }
        }
    }
}

/// A termination measure for the loop: every step consumes a row, sets a
/// done flag, or turns the parity away from a done side.
pub open spec fn st_measure(st: EngineState) -> int {
    4 * (st.src.len() + st.dst.len() + (if st.sdone {
        0int
    } else {
        1int
    }) + (if st.ddone {
        0int
    } else {
        1int
    })) + (if (st.i % 2 == 0 && st.sdone) || (st.i % 2 != 0 && st.ddone) {
        1int
    } else {
        0int
    })
}

/// A step of an unfinished, well-formed state stays well formed and
/// strictly shrinks the measure.
pub proof fn lemma_step(st: EngineState)
    requires
        st_wf(st),
        !st_done(st),
    ensures
        st_wf(step(st)),
        st_measure(step(st)) < st_measure(st),
{
    if st.i % 2 == 0 {
        if st.sdone {
        } else if st.src.len() == 0 {
        } else {
            let h = row_fp(st.src.first());
            if has_key(st.dp, h) {
                lemma_pending_remove(st.dp, h);
            } else {
                lemma_pending_insert(st.sp, h, st.src.first());
            }
        }
    } else {
        if st.ddone {
        } else if st.dst.len() == 0 {
        } else {
            let h = row_fp(st.dst.first());
            if has_key(st.sp, h) {
                lemma_pending_remove(st.sp, h);
            } else {
                lemma_pending_insert(st.dp, h, st.dst.first());
            }
        }
    }
}

/// The whole run: steps from `st` until the run is over, and hands back
/// the final state. This interpreter is the reference meaning of the
/// engine; `diff` promises exactly its result.
pub open spec fn run(st: EngineState) -> EngineState
    decreases st_measure(st)
        via run_decreases
{
    if !st_wf(st) || st_done(st) {
        st
    } else {
        run(step(st))
    }
}

#[via_fn]
proof fn run_decreases(st: EngineState) {
    if st_wf(st) && !st_done(st) {
        lemma_step(st);
    }
}

/// The final outcome of one diff run: the two pending maps, the processed
/// count, and whether both sides were exhausted (as opposed to stopping
/// early at the bound, which makes the outcome partial).
pub struct DiffOutcome {
    /// Rows seen on the source side with no counterpart confirmed on the
    /// destination side.
    pub source_pending: PendingMap,
    /// Rows seen on the destination side with no counterpart confirmed on
    /// the source side.
    pub dest_pending: PendingMap,
    /// The processed-row counter: the final step counter plus one, with
    /// 32-bit wrap-around tolerated.
    pub processed: u32,
    /// Whether both sequences were exhausted. When false the outcome is
    /// partial: the bound stopped the run early and unread rows remain.
    pub complete: bool,
}

/// The engine's mutable state between pulls, for callers that drive two
/// external row sequences themselves: the parity of `i` names the side to
/// pull next, and each pull's result is handed back through `step_row` or
/// `step_end`.
pub struct DiffState {
    /// The source side's pending rows.
    pub source_pending: PendingMap,
    /// The destination side's pending rows.
    pub dest_pending: PendingMap,
    /// The step counter; even picks the source, odd the destination.
    pub i: u32,
    /// Whether the source side has signalled end-of-sequence.
    pub source_done: bool,
    /// Whether the destination side has signalled end-of-sequence.
    pub dest_done: bool,
    /// The bound on the combined pending count.
    pub max_unmatched: usize,
}

impl DiffState {
    /// Both pending maps keep their keys unique.
    pub open spec fn inv(self) -> bool {
        self.source_pending.inv() && self.dest_pending.inv()
    }

    /// Whether the run is over, as a state predicate.
    pub open spec fn spec_finished(self) -> bool {
        (self.source_done && self.dest_done) || self.source_pending.entries().len()
            + self.dest_pending.entries().len() > self.max_unmatched
    }

    /// The engine state this exec state stands for, alongside the rows
    /// not yet pulled on each side.
    pub open spec fn as_model(self, src: Seq<Row>, dst: Seq<Row>) -> EngineState {
        EngineState {
            src,
            dst,
            sdone: self.source_done,
            ddone: self.dest_done,
            sp: self.source_pending.entries(),
            dp: self.dest_pending.entries(),
            i: self.i as int,
            max: self.max_unmatched as int,
        }
    }

    /// A fresh engine: nothing pulled, nothing pending, counter at zero.
    pub fn new(max_unmatched: usize) -> (r: DiffState)
        ensures
            r.inv(),
            r.source_pending.entries() == Seq::<(u64, Row)>::empty(),
            r.dest_pending.entries() == Seq::<(u64, Row)>::empty(),
            r.i == 0u32,
            !r.source_done,
            !r.dest_done,
            r.max_unmatched == max_unmatched,
    {
        DiffState {
            source_pending: PendingMap::new(),
            dest_pending: PendingMap::new(),
            i: 0,
            source_done: false,
            dest_done: false,
            max_unmatched,
        }
    }

    /// Whether the source side is to be pulled next.
    pub fn source_turn(&self) -> (r: bool)
        ensures
            r == (self.i % 2 == 0),
    {
        self.i % 2 == 0
    }

    /// Whether the run is over.
    pub fn finished(&self) -> (r: bool)
        ensures
            r == self.spec_finished(),
    {
        if self.source_done && self.dest_done {
            true
        } else {
            let s = self.source_pending.len();
            let d = self.dest_pending.len();
            if s > self.max_unmatched {
                true
            } else {
                d > self.max_unmatched - s
            }
        }
    }

    /// Skips a side already known to be done: only the counter advances.
    pub fn step_skip(&mut self)
        ensures
            final(self).i == old(self).i.wrapping_add(1),
            final(self).source_pending == old(self).source_pending,
            final(self).dest_pending == old(self).dest_pending,
            final(self).source_done == old(self).source_done,
            final(self).dest_done == old(self).dest_done,
            final(self).max_unmatched == old(self).max_unmatched,
    {
        self.i = self.i.wrapping_add(1);
    }

    /// Records end-of-sequence on the side the counter picks; the counter
    /// does not advance.
    pub fn step_end(&mut self)
        ensures
            final(self).source_done == (old(self).source_done || old(self).i % 2 == 0),
            final(self).dest_done == (old(self).dest_done || old(self).i % 2 != 0),
            final(self).i == old(self).i,
            final(self).source_pending == old(self).source_pending,
            final(self).dest_pending == old(self).dest_pending,
            final(self).max_unmatched == old(self).max_unmatched,
    {
        if self.i % 2 == 0 {
            self.source_done = true;
        } else {
            self.dest_done = true;
        }
    }

    /// Takes one pulled row on the side the counter picks. A fingerprint
    /// pending on the other side cancels that entry and keeps the counter;
    /// otherwise the row joins this side's pending map and the counter
    /// advances.
    pub fn step_row(&mut self, row: Row)
        requires
            old(self).inv(),
            row.wf(),
        ensures
            final(self).inv(),
            final(self).source_done == old(self).source_done,
            final(self).dest_done == old(self).dest_done,
            final(self).max_unmatched == old(self).max_unmatched,
            ({
                let h = row_fp(row);
                if old(self).i % 2 == 0 {
                    if has_key(old(self).dest_pending.entries(), h) {
                        &&& final(self).dest_pending.entries() == pending_remove(
                            old(self).dest_pending.entries(),
                            h,
                        )
                        &&& final(self).source_pending == old(self).source_pending
                        &&& final(self).i == old(self).i
                    } else {
                        &&& final(self).source_pending.entries() == pending_insert(
                            old(self).source_pending.entries(),
                            h,
                            row,
                        )
                        &&& final(self).dest_pending == old(self).dest_pending
                        &&& final(self).i == old(self).i.wrapping_add(1)
                    }
                } else {
                    if has_key(old(self).source_pending.entries(), h) {
                        &&& final(self).source_pending.entries() == pending_remove(
                            old(self).source_pending.entries(),
                            h,
                        )
                        &&& final(self).dest_pending == old(self).dest_pending
                        &&& final(self).i == old(self).i
                    } else {
                        &&& final(self).dest_pending.entries() == pending_insert(
                            old(self).dest_pending.entries(),
                            h,
                            row,
                        )
                        &&& final(self).source_pending == old(self).source_pending
                        &&& final(self).i == old(self).i.wrapping_add(1)
                    }
                }
            }),
    {
        let h = row_hasher(&row);
        if self.i % 2 == 0 {
            if self.dest_pending.contains_key(h) {
                self.dest_pending.remove(h);
            } else {
                self.source_pending.insert(h, row);
                self.i = self.i.wrapping_add(1);
            }
        } else {
            if self.source_pending.contains_key(h) {
                self.source_pending.remove(h);
            } else {
                self.dest_pending.insert(h, row);
                self.i = self.i.wrapping_add(1);
            }
        }
    }
}

/// Diffs two fully given row sequences: drives the engine over them until
/// both are exhausted or the bound is passed, and returns exactly what the
/// spec-level interpreter computes from the same inputs.
pub fn diff(source: Vec<Row>, dest: Vec<Row>, max_unmatched: usize) -> (out: DiffOutcome)
    requires
        forall|k: int| 0 <= k < source@.len() ==> (#[trigger] source@[k]).wf(),
        forall|k: int| 0 <= k < dest@.len() ==> (#[trigger] dest@[k]).wf(),
    ensures
        ({
            let fin = run(init_state(source@, dest@, max_unmatched as int));
            &&& out.source_pending.entries() == fin.sp
            &&& out.dest_pending.entries() == fin.dp
            &&& out.source_pending.inv()
            &&& out.dest_pending.inv()
            &&& out.processed as int == wrap_inc(fin.i)
            &&& out.complete == (fin.sdone && fin.ddone)
        }),
{
    let ghost init = init_state(source@, dest@, max_unmatched as int);
    let mut source = source;
    let mut dest = dest;
    let mut st = DiffState::new(max_unmatched);
    proof {
        assert(st.as_model(source@, dest@) =~= init);
    }
    while !st.finished()
        invariant
            st.inv(),
            forall|k: int| 0 <= k < source@.len() ==> (#[trigger] source@[k]).wf(),
            forall|k: int| 0 <= k < dest@.len() ==> (#[trigger] dest@[k]).wf(),
            st_wf(st.as_model(source@, dest@)),
            run(st.as_model(source@, dest@)) == run(init),
        decreases st_measure(st.as_model(source@, dest@)),
    {
        let ghost pre = st.as_model(source@, dest@);
        proof {
            assert(!st_done(pre));
            lemma_step(pre);
        }
        if st.source_turn() {
            if st.source_done {
                st.step_skip();
            } else if source.len() == 0 {
                st.step_end();
            } else {
                let r = source.remove(0);
                proof {
                    assert(source@ =~= pre.src.drop_first());
                    assert(r == pre.src.first());
                }
                st.step_row(r);
            }
        } else {
            if st.dest_done {
                st.step_skip();
            } else if dest.len() == 0 {
                st.step_end();
            } else {
                let r = dest.remove(0);
                proof {
                    assert(dest@ =~= pre.dst.drop_first());
                    assert(r == pre.dst.first());
                }
                st.step_row(r);
            }
        }
        proof {
            assert(st.as_model(source@, dest@) =~= step(pre));
        }
    }
    proof {
        assert(st_done(st.as_model(source@, dest@)));
        assert(run(st.as_model(source@, dest@)) == st.as_model(source@, dest@));
    }
    let processed = st.i.wrapping_add(1);
    let complete = st.source_done && st.dest_done;
    DiffOutcome { source_pending: st.source_pending, dest_pending: st.dest_pending, processed, complete }
}

} // verus!
