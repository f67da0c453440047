//! Laws of the symmetric-difference engine, proved against the spec-level
//! interpreter `run`: the run always ends, the pending bound is enforced
//! exactly, identical sides cancel completely, and on duplicate-free
//! sides the final pending maps are precisely the fingerprint-wise
//! symmetric difference.

use crate::engine::{
    init_state, lemma_step, run, st_done, st_measure, st_wf, step, EngineState,
};
use crate::pending::{
    find_key, has_key, lemma_find_key, lemma_pending_insert, pending_insert, pending_remove,
};
use crate::row::{row_fp, Row};
use vstd::prelude::*;

verus! {

/// A run from a well-formed state ends well formed and finished.
pub proof fn lemma_run_ends(st: EngineState)
    requires
        st_wf(st),
    ensures
        st_wf(run(st)),
        st_done(run(st)),
        run(st).max == st.max,
    decreases st_measure(st),
{
    if st_done(st) {
    } else {
        lemma_step(st);
        lemma_run_ends(step(st));
    }
}

/// Bound enforcement along a run: the combined pending count never moves
/// more than one past the bound, and a run that exhausted both sides
/// never left the bound behind at all.
proof fn lemma_run_bound_inv(st: EngineState)
    requires
        st_wf(st),
        st.sp.len() + st.dp.len() <= st.max + 1,
        (st.sdone && st.ddone) ==> st.sp.len() + st.dp.len() <= st.max,
    ensures
        run(st).sp.len() + run(st).dp.len() <= st.max + 1,
        (run(st).sdone && run(st).ddone) ==> run(st).sp.len() + run(st).dp.len() <= st.max,
    decreases st_measure(st),
{
    if st_done(st) {
    } else {
        lemma_step(st);
        let n = step(st);
        if st.i % 2 == 0 && !st.sdone && st.src.len() > 0 {
            let h = row_fp(st.src.first());
            lemma_find_key(st.dp, h);
            lemma_find_key(st.sp, h);
        }
        if st.i % 2 != 0 && !st.ddone && st.dst.len() > 0 {
            let h = row_fp(st.dst.first());
            lemma_find_key(st.sp, h);
            lemma_find_key(st.dp, h);
        }
        lemma_run_bound_inv(n);
    }
}

/// Bound enforcement: for a bound `k`, a finished run holds at most
/// `k + 1` pending rows in all; one that exhausted both sides holds at
/// most `k`; and one that did not stopped at the first insertion past the
/// bound, with exactly `k + 1`.
pub proof fn lemma_diff_bound(src: Seq<Row>, dst: Seq<Row>, max: int)
    requires
        0 <= max,
    ensures
        ({
            let fin = run(init_state(src, dst, max));
            &&& fin.sp.len() + fin.dp.len() <= max + 1
            &&& (fin.sdone && fin.ddone) ==> fin.sp.len() + fin.dp.len() <= max
            &&& !(fin.sdone && fin.ddone) ==> fin.sp.len() + fin.dp.len() == max + 1
        }),
{
    let st = init_state(src, dst, max);
    lemma_run_ends(st);
    lemma_run_bound_inv(st);
}

/// The engine cancels identical sides completely: whenever the two sides
/// carry the same row sequence, a run that starts fresh (with any bound
/// that admits one pending row) exhausts both sides with nothing left
/// pending.
pub proof fn lemma_diff_identical(rows: Seq<Row>, max: int)
    requires
        0 <= max,
        max >= 1 || rows.len() == 0,
    ensures
        ({
            let fin = run(init_state(rows, rows, max));
            &&& fin.sdone && fin.ddone
            &&& fin.sp == Seq::<(u64, Row)>::empty()
            &&& fin.dp == Seq::<(u64, Row)>::empty()
        }),
{
    lemma_run_identical(init_state(rows, rows, max));
}

/// The states a run over identical sides passes through: either the two
/// remaining sequences are equal with nothing pending, or one side leads
/// by exactly the one row that sits alone in its pending map, with the
/// counter's parity about to pull the other side.
spec fn identical_shape(st: EngineState) -> bool {
    ||| (st.src == st.dst && st.sp == Seq::<(u64, Row)>::empty() && st.dp == Seq::<(
        u64,
        Row,
    )>::empty())
    ||| (!st.sdone && !st.ddone && st.dst.len() > 0 && st.dst.drop_first() == st.src && st.sp
        == seq![(row_fp(st.dst.first()), st.dst.first())] && st.dp == Seq::<(u64, Row)>::empty()
        && st.i % 2 == 1)
    ||| (!st.sdone && !st.ddone && st.src.len() > 0 && st.src.drop_first() == st.dst && st.dp
        == seq![(row_fp(st.src.first()), st.src.first())] && st.sp == Seq::<(u64, Row)>::empty()
        && st.i % 2 == 0)
}

proof fn lemma_run_identical(st: EngineState)
    requires
        st_wf(st),
        identical_shape(st),
        st.max >= 1 || (st.src.len() == 0 && st.dst.len() == 0),
    ensures
        run(st).sdone && run(st).ddone,
        run(st).sp == Seq::<(u64, Row)>::empty(),
        run(st).dp == Seq::<(u64, Row)>::empty(),
    decreases st_measure(st),
{
    if st_done(st) {
    } else {
        lemma_step(st);
        let n = step(st);
        if st.i % 2 == 0 {
            if st.sdone {
            } else if st.src.len() == 0 {
            } else {
                let r = st.src.first();
                let h = row_fp(r);
                if st.dp == Seq::<(u64, Row)>::empty() {
                    // the even parity rules out the source-leads shape, so
                    // the sides are equal here and the row starts a lead
                    assert(!has_key(st.dp, h));
                    assert(pending_insert(st.sp, h, r) =~= seq![(h, r)]);
                    assert(n.dst =~= seq![n.dst.first()] + n.dst.drop_first());
                    assert(n.dst.drop_first() =~= n.src);
                } else {
                    // the destination leads: this source row is its match
                    assert(st.dp == seq![(row_fp(st.src.first()), st.src.first())]);
                    assert(has_key(st.dp, h)) by {
                        assert(st.dp[0].0 == h);
                    }
                    lemma_find_key(st.dp, h);
                    assert(find_key(st.dp, h) == 0);
                    assert(pending_remove(st.dp, h) =~= Seq::<(u64, Row)>::empty());
                    assert(n.src == n.dst);
                }
            }
        } else {
            if st.ddone {
            } else if st.dst.len() == 0 {
            } else {
                let r = st.dst.first();
                let h = row_fp(r);
                if st.sp == Seq::<(u64, Row)>::empty() {
                    assert(!has_key(st.sp, h));
                    assert(pending_insert(st.dp, h, r) =~= seq![(h, r)]);
                    assert(n.src =~= seq![n.src.first()] + n.src.drop_first());
                    assert(n.src.drop_first() =~= n.dst);
                } else {
                    assert(st.sp == seq![(row_fp(st.dst.first()), st.dst.first())]);
                    assert(has_key(st.sp, h)) by {
                        assert(st.sp[0].0 == h);
                    }
                    lemma_find_key(st.sp, h);
                    assert(find_key(st.sp, h) == 0);
                    assert(pending_remove(st.sp, h) =~= Seq::<(u64, Row)>::empty());
                    assert(n.src == n.dst);
                }
            }
        }
        lemma_run_identical(n);
    }
}

/// Whether some row of the sequence has the fingerprint.
pub open spec fn has_fp(rows: Seq<Row>, h: u64) -> bool {
    exists|k: int| 0 <= k < rows.len() && row_fp(#[trigger] rows[k]) == h
}

/// Whether no two rows of the sequence share a fingerprint.
pub open spec fn no_dup_fps(rows: Seq<Row>) -> bool {
    forall|a: int, b: int|
        0 <= a < b < rows.len() ==> row_fp(#[trigger] rows[a]) != row_fp(#[trigger] rows[b])
}

/// The rows of `mine` whose fingerprint appears nowhere in `other`, in
/// order, each under its fingerprint: the fingerprint-wise difference
/// one side's pending map should hold after a complete run.
pub open spec fn side_pending(mine: Seq<Row>, other: Seq<Row>) -> Seq<(u64, Row)>
    decreases mine.len(),
{
    if mine.len() == 0 {
        Seq::empty()
    } else {
        let rest = side_pending(mine.drop_last(), other);
        let r = mine.last();
        if has_fp(other, row_fp(r)) {
            rest
        } else {
            rest.push((row_fp(r), r))
        }
    }
}

/// What the difference holds: entries pairing a `mine` row with its own
/// fingerprint, none matched in `other`; and it holds a fingerprint
/// exactly when `mine` has it and `other` does not.
pub proof fn lemma_side_pending_entries(mine: Seq<Row>, other: Seq<Row>)
    ensures
        side_pending(mine, other).len() <= mine.len(),
        forall|j: int|
            0 <= j < side_pending(mine, other).len() ==> {
                let e = #[trigger] side_pending(mine, other)[j];
                &&& e.0 == row_fp(e.1)
                &&& !has_fp(other, e.0)
                &&& exists|idx: int| 0 <= idx < mine.len() && mine[idx] == e.1
            },
        forall|h: u64|
            #[trigger] has_key(side_pending(mine, other), h) <==> (has_fp(mine, h) && !has_fp(
                other,
                h,
            )),
    decreases mine.len(),
{
    if mine.len() == 0 {
    } else {
        let m0 = mine.drop_last();
        lemma_side_pending_entries(m0, other);
        let r = mine.last();
        let h0 = row_fp(r);
        let rest = side_pending(m0, other);
        let sp = side_pending(mine, other);
        assert(forall|idx: int| 0 <= idx < m0.len() ==> m0[idx] == mine[idx]);
        assert forall|j: int| 0 <= j < sp.len() implies {
            let e = #[trigger] sp[j];
            &&& e.0 == row_fp(e.1)
            &&& !has_fp(other, e.0)
            &&& exists|idx: int| 0 <= idx < mine.len() && mine[idx] == e.1
        } by {
            if j < rest.len() {
                let e = rest[j];
                let idx = choose|idx: int| 0 <= idx < m0.len() && m0[idx] == e.1;
                assert(mine[idx] == e.1);
            } else {
                assert(sp[j] == (h0, r));
                assert(mine[mine.len() - 1] == r);
            }
        }
        assert forall|h: u64| #[trigger] has_key(sp, h) <==> (has_fp(mine, h) && !has_fp(
            other,
            h,
        )) by {
            if has_key(sp, h) {
                let k = choose|k: int| 0 <= k < sp.len() && (#[trigger] sp[k]).0 == h;
                if k < rest.len() {
                    assert(has_key(rest, h)) by {
                        assert(rest[k].0 == h);
                    }
                    let idx = choose|idx: int| 0 <= idx < m0.len() && row_fp(
                        #[trigger] m0[idx],
                    ) == h;
                    assert(row_fp(mine[idx]) == h);
                } else {
                    assert(sp[k] == (h0, r));
                    assert(row_fp(mine[mine.len() - 1]) == h);
                }
            }
            if has_fp(mine, h) && !has_fp(other, h) {
                let idx = choose|idx: int| 0 <= idx < mine.len() && row_fp(
                    #[trigger] mine[idx],
                ) == h;
                if idx < m0.len() {
                    assert(row_fp(m0[idx]) == h);
                    assert(has_key(rest, h));
                    let k = choose|k: int| 0 <= k < rest.len() && (#[trigger] rest[k]).0 == h;
                    assert(sp[k].0 == h);
                } else {
                    assert(h == h0);
                    assert(sp[sp.len() - 1].0 == h);
                }
            }
        }
    }
}

/// Where a key lands in a sequence extended by one entry.
proof fn lemma_find_key_push(es: Seq<(u64, Row)>, e: (u64, Row), h: u64)
    ensures
        find_key(es.push(e), h) == if has_key(es, h) {
            find_key(es, h)
        } else if e.0 == h {
            es.len() as int
        } else {
            -1
        },
    decreases es.len(),
{
    let t = es.push(e);
    if es.len() == 0 {
        assert(t[0] == e);
        assert(t.drop_first() =~= Seq::<(u64, Row)>::empty());
        assert(find_key(Seq::<(u64, Row)>::empty(), h) == -1);
        assert(find_key(es, h) == -1);
    } else {
        assert(t[0] == es[0]);
        if es[0].0 == h {
            assert(has_key(es, h)) by {
                assert(es[0].0 == h);
            }
        } else {
            assert(t.drop_first() =~= es.drop_first().push(e));
            lemma_find_key_push(es.drop_first(), e, h);
            lemma_find_key(es, h);
            lemma_find_key(es.drop_first(), h);
            assert(find_key(t, h) == (if find_key(t.drop_first(), h) < 0 {
                -1int
            } else {
                find_key(t.drop_first(), h) + 1
            }));
            assert(find_key(es, h) == (if find_key(es.drop_first(), h) < 0 {
                -1int
            } else {
                find_key(es.drop_first(), h) + 1
            }));
            assert(has_key(es, h) <==> has_key(es.drop_first(), h)) by {
                if has_key(es, h) {
                    let w = choose|k: int| 0 <= k < es.len() && (#[trigger] es[k]).0 == h;
                    assert(es.drop_first()[w - 1].0 == h);
                }
                if has_key(es.drop_first(), h) {
                    let w = choose|k: int|
                        0 <= k < es.drop_first().len() && (#[trigger] es.drop_first()[k]).0 == h;
                    assert(es[w + 1].0 == h);
                }
            }
        }
    }
}

/// Removing one key passes over an appended entry with a different key.
proof fn lemma_pending_remove_push(es: Seq<(u64, Row)>, e: (u64, Row), h: u64)
    requires
        e.0 != h,
    ensures
        pending_remove(es.push(e), h) == pending_remove(es, h).push(e),
{
    lemma_find_key_push(es, e, h);
    lemma_find_key(es, h);
    if has_key(es, h) {
        let i = find_key(es, h);
        assert(es.push(e).remove(i) =~= es.remove(i).push(e));
    }
}

/// Removing the key of a just-appended entry, absent before, undoes the
/// append.
proof fn lemma_pending_remove_at_end(es: Seq<(u64, Row)>, e: (u64, Row), h: u64)
    requires
        e.0 == h,
        !has_key(es, h),
    ensures
        pending_remove(es.push(e), h) == es,
{
    lemma_find_key_push(es, e, h);
    assert(es.push(e).remove(es.len() as int) =~= es);
}

/// Confirming one more row on the other side removes exactly its
/// fingerprint from this side's difference.
proof fn lemma_side_pending_grow_other(mine: Seq<Row>, other: Seq<Row>, r: Row)
    requires
        no_dup_fps(mine),
    ensures
        side_pending(mine, other.push(r)) == pending_remove(side_pending(mine, other), row_fp(r)),
    decreases mine.len(),
{
    let h = row_fp(r);
    if mine.len() == 0 {
    } else {
        let m0 = mine.drop_last();
        let x = mine.last();
        let hx = row_fp(x);
        assert(forall|idx: int| 0 <= idx < m0.len() ==> m0[idx] == mine[idx]);
        lemma_side_pending_grow_other(m0, other, r);
        let rest = side_pending(m0, other);
        lemma_side_pending_entries(m0, other);
        assert(has_fp(other.push(r), hx) <==> (has_fp(other, hx) || hx == h)) by {
            if has_fp(other.push(r), hx) {
                let k = choose|k: int|
                    0 <= k < other.push(r).len() && row_fp(#[trigger] other.push(r)[k]) == hx;
                if k < other.len() {
                    assert(row_fp(other[k]) == hx);
                }
            }
            if has_fp(other, hx) {
                let k = choose|k: int| 0 <= k < other.len() && row_fp(#[trigger] other[k]) == hx;
                assert(row_fp(other.push(r)[k]) == hx);
            }
            if hx == h {
                assert(row_fp(other.push(r)[other.len() as int]) == hx);
            }
        }
        if has_fp(other, hx) {
        } else if hx != h {
            lemma_pending_remove_push(rest, (hx, x), h);
        } else {
            assert(!has_fp(m0, h)) by {
                if has_fp(m0, h) {
                    let idx = choose|idx: int|
                        0 <= idx < m0.len() && row_fp(#[trigger] m0[idx]) == h;
                    assert(row_fp(mine[idx]) == row_fp(mine[mine.len() - 1]));
                }
            }
            assert(!has_key(rest, h));
            lemma_pending_remove_at_end(rest, (h, x), h);
            lemma_find_key(rest, h);
        }
    }
}

/// The invariant of a duplicate-free run, over the rows already consumed
/// on each side (`pa`, `pb`): each pending map holds exactly its side's
/// consumed rows not yet matched by the other side's consumed rows, and a
/// bound that admits every row keeps the run from stopping early.
proof fn lemma_run_sym(st: EngineState, pa: Seq<Row>, pb: Seq<Row>)
    requires
        st_wf(st),
        no_dup_fps(pa + st.src),
        no_dup_fps(pb + st.dst),
        pa.len() + st.src.len() + pb.len() + st.dst.len() <= st.max,
        st.sp == side_pending(pa, pb),
        st.dp == side_pending(pb, pa),
    ensures
        run(st).sdone && run(st).ddone,
        run(st).sp == side_pending(pa + st.src, pb + st.dst),
        run(st).dp == side_pending(pb + st.dst, pa + st.src),
    decreases st_measure(st),
{
    lemma_side_pending_entries(pa, pb);
    lemma_side_pending_entries(pb, pa);
    let a = pa + st.src;
    let b = pb + st.dst;
    assert(forall|idx: int| 0 <= idx < pa.len() ==> pa[idx] == a[idx]);
    assert(forall|idx: int| 0 <= idx < pb.len() ==> pb[idx] == b[idx]);
    if st_done(st) {
        assert(st.sdone && st.ddone);
        assert(pa + st.src =~= pa);
        assert(pb + st.dst =~= pb);
    } else {
        lemma_step(st);
        let n = step(st);
        if st.i % 2 == 0 {
            if st.sdone || st.src.len() == 0 {
                lemma_run_sym(n, pa, pb);
            } else {
                let r = st.src.first();
                let h = row_fp(r);
                let pa2 = pa.push(r);
                assert(a[pa.len() as int] == r);
                assert(!has_fp(pa, h)) by {
                    if has_fp(pa, h) {
                        let idx = choose|idx: int|
                            0 <= idx < pa.len() && row_fp(#[trigger] pa[idx]) == h;
                        assert(row_fp(a[idx]) == row_fp(a[pa.len() as int]));
                    }
                }
                assert(pa2 + n.src =~= a);
                assert(pb + n.dst =~= b);
                assert(no_dup_fps(pb)) by {
                    assert(forall|x: int, y: int|
                        0 <= x < y < pb.len() ==> row_fp(#[trigger] pb[x]) != row_fp(
                            #[trigger] pb[y],
                        ));
                }
                if has_key(st.dp, h) {
                    assert(has_fp(pb, h));
                    assert(side_pending(pa2, pb) == st.sp) by {
                        assert(pa2.drop_last() =~= pa);
                        assert(pa2.last() == r);
                    }
                    lemma_side_pending_grow_other(pb, pa, r);
                    lemma_run_sym(n, pa2, pb);
                } else {
                    assert(!has_fp(pb, h)) by {
                        if has_fp(pb, h) {
                            assert(has_key(st.dp, h));
                        }
                    }
                    assert(!has_key(st.sp, h));
                    lemma_pending_insert(st.sp, h, r);
                    assert(side_pending(pa2, pb) == st.sp.push((h, r))) by {
                        assert(pa2.drop_last() =~= pa);
                        assert(pa2.last() == r);
                    }
                    lemma_side_pending_grow_other(pb, pa, r);
                    lemma_find_key(st.dp, h);
                    assert(side_pending(pb, pa2) == st.dp);
                    lemma_run_sym(n, pa2, pb);
                }
            }
        } else {
            if st.ddone || st.dst.len() == 0 {
                lemma_run_sym(n, pa, pb);
            } else {
                let r = st.dst.first();
                let h = row_fp(r);
                let pb2 = pb.push(r);
                assert(b[pb.len() as int] == r);
                assert(!has_fp(pb, h)) by {
                    if has_fp(pb, h) {
                        let idx = choose|idx: int|
                            0 <= idx < pb.len() && row_fp(#[trigger] pb[idx]) == h;
                        assert(row_fp(b[idx]) == row_fp(b[pb.len() as int]));
                    }
                }
                assert(pb2 + n.dst =~= b);
                assert(pa + n.src =~= a);
                assert(no_dup_fps(pa)) by {
                    assert(forall|x: int, y: int|
                        0 <= x < y < pa.len() ==> row_fp(#[trigger] pa[x]) != row_fp(
                            #[trigger] pa[y],
                        ));
                }
                if has_key(st.sp, h) {
                    assert(has_fp(pa, h));
                    assert(side_pending(pb2, pa) == st.dp) by {
                        assert(pb2.drop_last() =~= pb);
                        assert(pb2.last() == r);
                    }
                    lemma_side_pending_grow_other(pa, pb, r);
                    lemma_run_sym(n, pa, pb2);
                } else {
                    assert(!has_fp(pa, h)) by {
                        if has_fp(pa, h) {
                            assert(has_key(st.sp, h));
                        }
                    }
                    assert(!has_key(st.dp, h));
                    lemma_pending_insert(st.dp, h, r);
                    assert(side_pending(pb2, pa) == st.dp.push((h, r))) by {
                        assert(pb2.drop_last() =~= pb);
                        assert(pb2.last() == r);
                    }
                    lemma_side_pending_grow_other(pa, pb, r);
                    lemma_find_key(st.sp, h);
                    assert(side_pending(pa, pb2) == st.sp);
                    lemma_run_sym(n, pa, pb2);
                }
            }
        }
    }
}

/// Symmetric-difference correctness: over two duplicate-free sides whose
/// combined length fits the bound, a run from a fresh state exhausts both
/// sides, and each pending map holds exactly the rows whose fingerprint
/// never appears on the other side, in arrival order, each under its own
/// fingerprint.
pub proof fn lemma_diff_symmetric_difference(a: Seq<Row>, b: Seq<Row>, max: int)
    requires
        no_dup_fps(a),
        no_dup_fps(b),
        a.len() + b.len() <= max,
    ensures
        ({
            let fin = run(init_state(a, b, max));
            &&& fin.sdone && fin.ddone
            &&& fin.sp == side_pending(a, b)
            &&& fin.dp == side_pending(b, a)
        }),
{
    let st = init_state(a, b, max);
    assert(Seq::<Row>::empty() + a =~= a);
    assert(Seq::<Row>::empty() + b =~= b);
    lemma_run_sym(st, Seq::<Row>::empty(), Seq::<Row>::empty());
}

} // verus!
