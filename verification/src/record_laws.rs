//! What holds of the record store over every sequence of operations.
//!
//! The laws are stated over `RecordStoreView`, the state that the contracts of
//! `RecordStore` speak of, so they hold of every store that the executable
//! code can reach.

use vstd::prelude::*;
use crate::field::Field;
use crate::record_store::{
    has_commitment, has_serial, Entry, RecordStoreView, RecordView, StoreError,
};

verus! {

/// One operation on the store.
pub enum StoreOp {
    /// Stage a record under a commitment.
    Add(Field, RecordView),
    /// Stage the spend of a serial number.
    Spend(Field),
    /// Promote what is staged.
    Commit,
}

/// Whether the store accepts `op`.
pub open spec fn accepts(s: RecordStoreView, op: StoreOp) -> bool {
    match op {
        StoreOp::Add(c, r) => s.add(c, r) is Ok,
        StoreOp::Spend(sn) => s.spend(sn) is Ok,
        StoreOp::Commit => true,
    }
}

/// The store after `op`: an operation that is refused changes nothing.
pub open spec fn step(s: RecordStoreView, op: StoreOp) -> RecordStoreView {
    match op {
        StoreOp::Add(c, r) => match s.add(c, r) {
            Ok(after) => after,
            Err(_) => s,
        },
        StoreOp::Spend(sn) => match s.spend(sn) {
            Ok(after) => after,
            Err(_) => s,
        },
        StoreOp::Commit => s.commit(),
    }
}

/// The store after the operations `ops`, first to last.
pub open spec fn run(s: RecordStoreView, ops: Seq<StoreOp>) -> RecordStoreView
    decreases ops.len(),
{
    if ops.len() == 0 {
        s
    } else {
        step(run(s, ops.drop_last()), ops.last())
    }
}

/// Whether one of `ops`, run from `s`, is an accepted `Add` of a record with
/// the serial number `sn`.
pub open spec fn added_in(s: RecordStoreView, ops: Seq<StoreOp>, sn: Field) -> bool {
    exists|i: int|
        0 <= i < ops.len() && adds_at(s, ops, sn, i)
}

/// Whether the operation at `i` is an accepted `Add` of a record with the
/// serial number `sn`.
pub open spec fn adds_at(s: RecordStoreView, ops: Seq<StoreOp>, sn: Field, i: int) -> bool {
    &&& ops[i] matches StoreOp::Add(c, r)
    &&& r.serial_number == sn
    &&& accepts(run(s, ops.take(i)), ops[i])
}

/// Whether one of `ops`, run from `s`, is an accepted `Spend` of `sn`.
pub open spec fn spent_in(s: RecordStoreView, ops: Seq<StoreOp>, sn: Field) -> bool {
    exists|i: int|
        0 <= i < ops.len() && spends_at(s, ops, sn, i)
}

/// Whether the operation at `i` is an accepted `Spend` of `sn`.
pub open spec fn spends_at(s: RecordStoreView, ops: Seq<StoreOp>, sn: Field, i: int) -> bool {
    &&& ops[i] == StoreOp::Spend(sn)
    &&& accepts(run(s, ops.take(i)), ops[i])
}

proof fn lemma_push_has_serial(entries: Seq<Entry>, e: Entry, sn: Field)
    ensures
        has_serial(entries.push(e), sn) <==> has_serial(entries, sn) || e.1.serial_number == sn,
{
    let pushed = entries.push(e);
    if has_serial(entries, sn) {
        let i = choose|i: int| 0 <= i < entries.len() && (#[trigger] entries[i]).1.serial_number == sn;
        assert(pushed[i].1.serial_number == sn);
    }
    if e.1.serial_number == sn {
        assert(pushed[entries.len() as int].1.serial_number == sn);
    }
    if has_serial(pushed, sn) {
        let i = choose|i: int| 0 <= i < pushed.len() && (#[trigger] pushed[i]).1.serial_number == sn;
        if i < entries.len() {
            assert(entries[i].1.serial_number == sn);
        }
    }
}

proof fn lemma_concat_has_serial(a: Seq<Entry>, b: Seq<Entry>, sn: Field)
    ensures
        has_serial(a + b, sn) <==> has_serial(a, sn) || has_serial(b, sn),
{
    let ab = a + b;
    if has_serial(a, sn) {
        let i = choose|i: int| 0 <= i < a.len() && (#[trigger] a[i]).1.serial_number == sn;
        assert(ab[i].1.serial_number == sn);
    }
    if has_serial(b, sn) {
        let i = choose|i: int| 0 <= i < b.len() && (#[trigger] b[i]).1.serial_number == sn;
        assert(ab[a.len() + i].1.serial_number == sn);
    }
    if has_serial(ab, sn) {
        let i = choose|i: int| 0 <= i < ab.len() && (#[trigger] ab[i]).1.serial_number == sn;
        if i < a.len() {
            assert(a[i].1.serial_number == sn);
        } else {
            assert(b[i - a.len()].1.serial_number == sn);
        }
    }
}

/// An operation changes which serial numbers the store knows only by an
/// accepted `Add`, which makes the record's serial number known.
pub proof fn lemma_step_knows(s: RecordStoreView, op: StoreOp, sn: Field)
    ensures
        step(s, op).knows(sn) <==> s.knows(sn) || (op matches StoreOp::Add(c, r) && accepts(s, op)
            && r.serial_number == sn),
{
    match op {
        StoreOp::Add(c, r) => {
            if accepts(s, op) {
                lemma_push_has_serial(s.pending_add, (c, r), sn);
            }
        },
        StoreOp::Spend(_) => {},
        StoreOp::Commit => {
            lemma_concat_has_serial(s.committed, s.pending_add, sn);
            assert(!has_serial(Seq::<Entry>::empty(), sn));
        },
    }
}

/// An operation changes which serial numbers are spent only by an accepted
/// `Spend`, which spends its serial number.
pub proof fn lemma_step_is_spent(s: RecordStoreView, op: StoreOp, sn: Field)
    ensures
        step(s, op).is_spent(sn) <==> s.is_spent(sn) || (op == StoreOp::Spend(sn) && accepts(s, op)),
{
    match op {
        StoreOp::Add(_, _) => {},
        StoreOp::Spend(x) => {
            if accepts(s, op) {
                let pushed = s.pending_spend.push(x);
                assert(pushed[s.pending_spend.len() as int] == x);
                if s.pending_spend.contains(sn) {
                    let i = choose|i: int| 0 <= i < s.pending_spend.len() && s.pending_spend[i] == sn;
                    assert(pushed[i] == sn);
                }
            }
        },
        StoreOp::Commit => {
            let both = s.spent + s.pending_spend;
            if s.spent.contains(sn) {
                let i = choose|i: int| 0 <= i < s.spent.len() && s.spent[i] == sn;
                assert(both[i] == sn);
            }
            if s.pending_spend.contains(sn) {
                let i = choose|i: int| 0 <= i < s.pending_spend.len() && s.pending_spend[i] == sn;
                assert(both[s.spent.len() + i] == sn);
            }
        },
    }
}

/// Every operation keeps the store well formed.
pub proof fn lemma_step_keeps_wf(s: RecordStoreView, op: StoreOp)
    requires
        s.wf(),
    ensures
        step(s, op).wf(),
{
    let t = step(s, op);
    let all = s.committed + s.pending_add;
    let spends = s.spent + s.pending_spend;
    let all_t = t.committed + t.pending_add;
    let spends_t = t.spent + t.pending_spend;
    match op {
        StoreOp::Add(c, r) => {
            if accepts(s, op) {
                assert(all_t =~= all.push((c, r)));
                assert(spends_t =~= spends);
                assert forall|i: int, j: int| 0 <= i < j < all_t.len() implies (#[trigger] all_t[i]).0
                    != (#[trigger] all_t[j]).0 by {
                    if j == all.len() {
                        if i < s.committed.len() {
                            assert(s.committed[i].0 != c);
                        } else {
                            assert(s.pending_add[i - s.committed.len()].0 != c);
                        }
                    } else {
                        assert(all[i].0 != all[j].0);
                    }
                }
                assert forall|k: int| 0 <= k < spends_t.len() implies t.knows(
                    #[trigger] spends_t[k],
                ) by {
                    assert(s.knows(spends[k]));
                    lemma_step_knows(s, op, spends[k]);
                }
            }
        },
        StoreOp::Spend(sn) => {
            if accepts(s, op) {
                assert(all_t =~= all);
                assert(spends_t =~= spends.push(sn));
                assert forall|i: int, j: int| 0 <= i < j < all_t.len() implies (#[trigger] all_t[i]).0
                    != (#[trigger] all_t[j]).0 by {
                    assert(all[i].0 != all[j].0);
                }
                assert forall|i: int, j: int|
                    0 <= i < spends_t.len() && 0 <= j < spends_t.len() && i != j implies spends_t[i]
                    != spends_t[j] by {
                    if i < spends.len() && j < spends.len() {
                    } else {
                        let k = if i < spends.len() { i } else { j };
                        if k < s.spent.len() {
                            assert(s.spent[k] == spends[k]);
                        } else {
                            assert(s.pending_spend[k - s.spent.len()] == spends[k]);
                        }
                    }
                }
                assert forall|k: int| 0 <= k < spends_t.len() implies t.knows(
                    #[trigger] spends_t[k],
                ) by {
                    if k < spends.len() {
                        assert(s.knows(spends[k]));
                    }
                }
            }
        },
        StoreOp::Commit => {
            assert(all_t =~= all);
            assert(spends_t =~= spends);
            assert forall|i: int, j: int| 0 <= i < j < all_t.len() implies (#[trigger] all_t[i]).0
                != (#[trigger] all_t[j]).0 by {
                assert(all[i].0 != all[j].0);
            }
            assert forall|k: int| 0 <= k < spends_t.len() implies t.knows(#[trigger] spends_t[k]) by {
                assert(s.knows(spends[k]));
                lemma_step_knows(s, op, spends[k]);
            }
        },
    }
}

/// The empty store is well formed.
pub proof fn lemma_empty_is_wf()
    ensures
        RecordStoreView::empty().wf(),
{
}

/// Every sequence of operations keeps the store well formed: whatever is
/// added, spent and committed, no commitment is stored twice and no serial
/// number is spent twice.
pub proof fn lemma_run_keeps_wf(s: RecordStoreView, ops: Seq<StoreOp>)
    requires
        s.wf(),
    ensures
        run(s, ops).wf(),
    decreases ops.len(),
{
    if ops.len() > 0 {
        lemma_run_keeps_wf(s, ops.drop_last());
        lemma_step_keeps_wf(run(s, ops.drop_last()), ops.last());
    }
}

proof fn lemma_added_in_unfold(s: RecordStoreView, ops: Seq<StoreOp>, sn: Field)
    requires
        ops.len() > 0,
    ensures
        added_in(s, ops, sn) <==> added_in(s, ops.drop_last(), sn) || adds_at(
            s,
            ops,
            sn,
            ops.len() - 1,
        ),
{
    let front = ops.drop_last();
    assert forall|i: int| 0 <= i < front.len() implies adds_at(s, ops, sn, i) == adds_at(
        s,
        front,
        sn,
        i,
    ) by {
        assert(front.take(i) =~= ops.take(i));
    }
    if added_in(s, ops, sn) {
        let i = choose|i: int| 0 <= i < ops.len() && adds_at(s, ops, sn, i);
        if i < front.len() {
            assert(adds_at(s, front, sn, i));
        }
    }
    if added_in(s, front, sn) {
        let i = choose|i: int| 0 <= i < front.len() && adds_at(s, front, sn, i);
        assert(adds_at(s, ops, sn, i));
    }
}

proof fn lemma_spent_in_unfold(s: RecordStoreView, ops: Seq<StoreOp>, sn: Field)
    requires
        ops.len() > 0,
    ensures
        spent_in(s, ops, sn) <==> spent_in(s, ops.drop_last(), sn) || spends_at(
            s,
            ops,
            sn,
            ops.len() - 1,
        ),
{
    let front = ops.drop_last();
    assert forall|i: int| 0 <= i < front.len() implies spends_at(s, ops, sn, i) == spends_at(
        s,
        front,
        sn,
        i,
    ) by {
        assert(front.take(i) =~= ops.take(i));
    }
    if spent_in(s, ops, sn) {
        let i = choose|i: int| 0 <= i < ops.len() && spends_at(s, ops, sn, i);
        if i < front.len() {
            assert(spends_at(s, front, sn, i));
        }
    }
    if spent_in(s, front, sn) {
        let i = choose|i: int| 0 <= i < front.len() && spends_at(s, front, sn, i);
        assert(spends_at(s, ops, sn, i));
    }
}

/// After any operations, the store knows a serial number exactly if it knew
/// it before or an accepted `Add` brought a record with it; and the serial
/// number is spent exactly if it was before or an accepted `Spend` spent it.
pub proof fn lemma_run_history(s: RecordStoreView, ops: Seq<StoreOp>, sn: Field)
    ensures
        run(s, ops).knows(sn) <==> s.knows(sn) || added_in(s, ops, sn),
        run(s, ops).is_spent(sn) <==> s.is_spent(sn) || spent_in(s, ops, sn),
    decreases ops.len(),
{
    if ops.len() > 0 {
        let front = ops.drop_last();
        lemma_run_history(s, front, sn);
        lemma_step_knows(run(s, front), ops.last(), sn);
        lemma_step_is_spent(run(s, front), ops.last(), sn);
        lemma_added_in_unfold(s, ops, sn);
        lemma_spent_in_unfold(s, ops, sn);
        assert(ops.take(ops.len() - 1) =~= front);
    }
}

/// No phantom records: in a store that began empty, a serial number is
/// unspent exactly if an accepted `Add` brought a record with it and no
/// accepted `Spend` has spent it since.
pub proof fn lemma_unspent_iff_added_and_not_spent(ops: Seq<StoreOp>, sn: Field)
    ensures
        run(RecordStoreView::empty(), ops).is_unspent(sn) <==> added_in(
            RecordStoreView::empty(),
            ops,
            sn,
        ) && !spent_in(RecordStoreView::empty(), ops, sn),
{
    lemma_run_history(RecordStoreView::empty(), ops, sn);
}

/// Once spent, always spent: no operation brings a serial number back.
pub proof fn lemma_spent_stays_spent(s: RecordStoreView, ops: Seq<StoreOp>, sn: Field)
    requires
        s.is_spent(sn),
    ensures
        run(s, ops).is_spent(sn),
{
    lemma_run_history(s, ops, sn);
}

/// No double spend: after the store has accepted the spend of a serial
/// number, it refuses to spend it again, whatever happened in between, in the
/// same block or in a later one.
pub proof fn lemma_no_double_spend(s: RecordStoreView, sn: Field, ops: Seq<StoreOp>)
    requires
        s.spend(sn) is Ok,
    ensures
        run(s.spend(sn)->Ok_0, ops).spend(sn) is Err,
        !run(s.spend(sn)->Ok_0, ops).is_unspent(sn),
{
    let after = s.spend(sn)->Ok_0;
    lemma_step_is_spent(s, StoreOp::Spend(sn), sn);
    lemma_spent_stays_spent(after, ops, sn);
}

/// At most one accepted spend: two different operations of one history
/// cannot both be accepted spends of the same serial number.
pub proof fn lemma_spent_at_most_once(
    s: RecordStoreView,
    ops: Seq<StoreOp>,
    sn: Field,
    i: int,
    j: int,
)
    requires
        0 <= i < j < ops.len(),
        spends_at(s, ops, sn, i),
    ensures
        !spends_at(s, ops, sn, j),
{
    let upto_j = ops.take(j);
    assert(upto_j.take(i) =~= ops.take(i));
    assert(upto_j[i] == ops[i]);
    assert(spends_at(s, upto_j, sn, i));
    lemma_run_history(s, upto_j, sn);
}

/// After a commit nothing is staged.
pub proof fn lemma_commit_empties_staging(s: RecordStoreView)
    ensures
        s.commit().staging_is_empty(),
{
}

/// A commit promotes what is staged and changes no answer. A serial number
/// is known, spent and unspent after the commit exactly if it was before. So
/// a staged record is unspent after the commit exactly if its serial number
/// was not spent or staged to be; every serial number that was staged as
/// spent is among the spent ones afterwards and is not unspent; and what was
/// spent stays spent.
pub proof fn lemma_commit_keeps_answers(s: RecordStoreView, sn: Field)
    ensures
        s.commit().knows(sn) <==> s.knows(sn),
        s.commit().is_spent(sn) <==> s.is_spent(sn),
        s.commit().is_unspent(sn) <==> s.is_unspent(sn),
        has_serial(s.commit().committed, sn) <==> s.knows(sn),
        s.commit().spent.contains(sn) <==> s.is_spent(sn),
        has_serial(s.pending_add, sn) ==> (s.commit().is_unspent(sn) <==> !s.is_spent(sn)),
        s.pending_spend.contains(sn) ==> s.commit().spent.contains(sn) && !s.commit().is_unspent(sn),
        s.spent.contains(sn) ==> s.commit().spent.contains(sn) && !s.commit().is_unspent(sn),
{
    let after = s.commit();
    lemma_concat_has_serial(s.committed, s.pending_add, sn);
    assert(!has_serial(after.pending_add, sn));
    assert(!after.pending_spend.contains(sn));
    let spends = s.spent + s.pending_spend;
    if s.spent.contains(sn) {
        let i = choose|i: int| 0 <= i < s.spent.len() && s.spent[i] == sn;
        assert(spends[i] == sn);
    }
    if s.pending_spend.contains(sn) {
        let i = choose|i: int| 0 <= i < s.pending_spend.len() && s.pending_spend[i] == sn;
        assert(spends[s.spent.len() + i] == sn);
    }
    if spends.contains(sn) {
        let i = choose|i: int| 0 <= i < spends.len() && spends[i] == sn;
        if i < s.spent.len() {
            assert(s.spent[i] == sn);
        } else {
            assert(s.pending_spend[i - s.spent.len()] == sn);
        }
    }
}

/// Records under commitments of which none comes twice are staged as they
/// come.
proof fn lemma_add_entries_all(entries: Seq<Entry>, i: int)
    requires
        0 <= i <= entries.len(),
        forall|a: int, b: int|
            0 <= a < b < entries.len() ==> (#[trigger] entries[a]).0 != (#[trigger] entries[b]).0,
    ensures
        RecordStoreView::empty().add_entries(entries.take(i)) == Ok::<RecordStoreView, StoreError>(
            RecordStoreView { pending_add: entries.take(i), ..RecordStoreView::empty() },
        ),
    decreases i,
{
    if i == 0 {
        assert(entries.take(0) =~= Seq::empty());
    } else {
        lemma_add_entries_all(entries, i - 1);
        let upto = entries.take(i);
        assert(upto.drop_last() =~= entries.take(i - 1));
        let before = RecordStoreView {
            pending_add: entries.take(i - 1),
            ..RecordStoreView::empty()
        };
        let c = upto.last().0;
        assert(upto.last() == entries[i - 1]);
        if has_commitment(before.pending_add, c) {
            let k = choose|k: int|
                0 <= k < before.pending_add.len() && (#[trigger] before.pending_add[k]).0 == c;
            assert(before.pending_add[k] == entries[k]);
        }
        assert(before.pending_add.push(upto.last()) =~= upto);
    }
}

/// Serial numbers of known records of which none comes twice are staged as
/// spent as they come.
proof fn lemma_spend_serials_all(s: RecordStoreView, serials: Seq<Field>, i: int)
    requires
        0 <= i <= serials.len(),
        s.spent.len() == 0,
        s.pending_spend.len() == 0,
        serials.no_duplicates(),
        forall|k: int| 0 <= k < serials.len() ==> s.knows(#[trigger] serials[k]),
    ensures
        s.spend_serials(serials.take(i)) == Ok::<RecordStoreView, StoreError>(
            RecordStoreView { pending_spend: serials.take(i), ..s },
        ),
    decreases i,
{
    if i == 0 {
        assert(serials.take(0) =~= Seq::empty());
        assert(s.pending_spend =~= serials.take(0));
    } else {
        lemma_spend_serials_all(s, serials, i - 1);
        let upto = serials.take(i);
        assert(upto.drop_last() =~= serials.take(i - 1));
        let before = RecordStoreView { pending_spend: serials.take(i - 1), ..s };
        let sn = upto.last();
        assert(sn == serials[i - 1]);
        assert(s.knows(sn));
        if before.pending_spend.contains(sn) {
            let k = choose|k: int| 0 <= k < before.pending_spend.len() && before.pending_spend[k] == sn;
            assert(serials[k] == sn);
        }
        assert(before.pending_spend.push(sn) =~= upto);
    }
}

/// A store is restored from what it holds: building a store from the
/// records and the spent serial numbers of a store that arose from the empty
/// one, and in which nothing is staged, gives that store.
pub proof fn lemma_store_is_restored(s: RecordStoreView)
    requires
        s.wf(),
        s.staging_is_empty(),
    ensures
        RecordStoreView::restored(s.committed, s.spent) == Ok::<RecordStoreView, StoreError>(s),
{
    assert(s.pending_add =~= Seq::empty());
    assert(s.pending_spend =~= Seq::empty());
    assert(s.committed + s.pending_add =~= s.committed);
    assert(s.spent + s.pending_spend =~= s.spent);
    lemma_add_entries_all(s.committed, s.committed.len() as int);
    assert(s.committed.take(s.committed.len() as int) =~= s.committed);
    let added = RecordStoreView { pending_add: s.committed, ..RecordStoreView::empty() };
    let kept = added.commit();
    assert(kept.committed =~= s.committed);
    assert forall|k: int| 0 <= k < s.spent.len() implies kept.knows(#[trigger] s.spent[k]) by {
        assert(s.knows((s.spent + s.pending_spend)[k]));
        lemma_concat_has_serial(s.committed, s.pending_add, s.spent[k]);
    }
    lemma_spend_serials_all(kept, s.spent, s.spent.len() as int);
    assert(s.spent.take(s.spent.len() as int) =~= s.spent);
    let marked = RecordStoreView { pending_spend: s.spent, ..kept };
    assert(marked.commit().spent =~= s.spent);
    assert(marked.commit() == s);
}

} // verus!
