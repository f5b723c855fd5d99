//! What holds of records and of startup scanning across calls.

use vstd::prelude::*;

use crate::protocol::ids::{EffectId, TurnEpoch};
use crate::record::scan::{
    find_txn, goods, lifecycle_step, open_entries, record_step, repair_record, repairs_for,
    scan_from, scan_head, scan_spec, DecodeOutcome, ScanError, TailFault, TxnEntry,
};
use crate::record::{checksum_of, payload_kind, record_valid, Checksum, Record, RecordKind};

verus! {

/// Every record decoded as `Good`, in order.
pub open spec fn all_good(rs: Seq<Record>) -> Seq<DecodeOutcome> {
    Seq::new(rs.len(), |k: int| DecodeOutcome::Good(rs[k]))
}

/// The checksum covers every field but the checksum itself: two records
/// that differ only there call for the same checksum.
pub proof fn lemma_checksum_ignores_checksum_field(r: Record, c: Checksum)
    ensures
        checksum_of(Record { checksum: c, ..r }) == checksum_of(r),
{
}

/// Every repair terminal a successful scan prepares is a valid,
/// checksummed repair record for a transaction left open by the log.
pub proof fn lemma_repairs_are_valid(outs: Seq<DecodeOutcome>, supported: u32)
    requires
        scan_spec(outs, supported) is Ok,
    ensures
        forall|k: int|
            0 <= k < scan_spec(outs, supported)->Ok_0.1.len() ==> {
                let rec = #[trigger] scan_spec(outs, supported)->Ok_0.1[k];
                &&& record_valid(rec)
                &&& rec.kind == RecordKind::RepairTerminal
            },
{
}

/// No two entries of the table name the same transaction.
pub open spec fn distinct_txns(s: Seq<TxnEntry>) -> bool {
    forall|i: int, j: int| 0 <= i < j < s.len() ==> s[i].txn != s[j].txn
}

proof fn lemma_find_txn_absent(s: Seq<TxnEntry>, t: u64)
    requires
        find_txn(s, t) < 0,
    ensures
        forall|i: int| 0 <= i < s.len() ==> s[i].txn != t,
    decreases s.len(),
{
    if s.len() > 0 {
        lemma_find_txn_absent(s.drop_last(), t);
        assert forall|i: int| 0 <= i < s.len() implies s[i].txn != t by {
            if i < s.len() - 1 {
                assert(s.drop_last()[i] == s[i]);
            }
        }
    }
}

proof fn lemma_find_txn_at(s: Seq<TxnEntry>, j: int)
    requires
        distinct_txns(s),
        0 <= j < s.len(),
    ensures
        find_txn(s, s[j].txn) == j,
    decreases s.len(),
{
    if j < s.len() - 1 {
        assert(s.last().txn != s[j].txn);
        assert(s.drop_last()[j] == s[j]);
        lemma_find_txn_at(s.drop_last(), j);
    }
}

proof fn lemma_find_txn_range(s: Seq<TxnEntry>, t: u64)
    ensures
        -1 <= find_txn(s, t) < s.len(),
        find_txn(s, t) >= 0 ==> s[find_txn(s, t)].txn == t,
    decreases s.len(),
{
    if s.len() > 0 {
        lemma_find_txn_range(s.drop_last(), t);
    }
}

proof fn lemma_lifecycle_keeps_distinct(s: Seq<TxnEntry>, r: Record)
    requires
        distinct_txns(s),
        lifecycle_step(s, r) is Ok,
    ensures
        distinct_txns(lifecycle_step(s, r)->Ok_0),
{
    match r.txn {
        Some(t) => {
            lemma_find_txn_range(s, t.0);
            if r.kind == RecordKind::StreamStarted {
                lemma_find_txn_absent(s, t.0);
            }
        },
        None => {},
    }
}

/// Scanning from `i` on, where it succeeds, can be replayed on any other
/// outcome sequence that agrees on the accepted stretch: it reaches the
/// same state at the same index. Tables stay free of duplicate ids.
proof fn lemma_scan_segment(
    outs: Seq<DecodeOutcome>,
    other: Seq<DecodeOutcome>,
    i: int,
    last: u64,
    s: Seq<TxnEntry>,
)
    requires
        0 <= i,
        distinct_txns(s),
        scan_from(outs, i, last, s) is Ok,
        ({
            let end = scan_from(outs, i, last, s)->Ok_0.2;
            &&& end <= other.len()
            &&& forall|k: int| i <= k < end ==> #[trigger] other[k] == outs[k]
        }),
    ensures
        ({
            let (l2, s2, end, _t) = scan_from(outs, i, last, s)->Ok_0;
            &&& i <= end
            &&& distinct_txns(s2)
            &&& scan_from(other, i, last, s) == scan_from(other, end, l2, s2)
        }),
    decreases outs.len() - i,
{
    if i >= outs.len() {
    } else {
        match outs[i] {
            DecodeOutcome::Tail(_) => {},
            DecodeOutcome::Good(r) => {
                let s2 = record_step(last, s, r)->Ok_0;
                if r.seq > last && r.kind != RecordKind::Header && r.checksum.0 == checksum_of(r)
                    && r.kind == payload_kind(r.payload) {
                    lemma_lifecycle_keeps_distinct(s, r);
                }
                lemma_scan_segment(outs, other, i + 1, r.seq, s2);
                assert(other[i] == outs[i]);
            },
        }
    }
}

/// The table with every entry before index `j` closed.
pub open spec fn closed_upto(s: Seq<TxnEntry>, j: int) -> Seq<TxnEntry> {
    Seq::new(s.len(), |i: int| if i < j { TxnEntry { open: false, ..s[i] } } else { s[i] })
}

proof fn lemma_open_entries_take_push(s: Seq<TxnEntry>, j: int)
    requires
        0 <= j < s.len(),
    ensures
        open_entries(s.take(j + 1)) == if s[j].open {
            open_entries(s.take(j)).push(s[j])
        } else {
            open_entries(s.take(j))
        },
{
    assert(s.take(j + 1).drop_last() =~= s.take(j));
}

proof fn lemma_open_entries_prefix_of(s: Seq<TxnEntry>, j: int)
    requires
        0 <= j <= s.len(),
    ensures
        open_entries(s.take(j)).len() <= open_entries(s).len(),
        forall|k: int|
            0 <= k < open_entries(s.take(j)).len() ==> #[trigger] open_entries(s.take(j))[k]
                == open_entries(s)[k],
    decreases s.len() - j,
{
    if j < s.len() {
        lemma_open_entries_take_push(s, j);
        lemma_open_entries_prefix_of(s, j + 1);
        assert forall|k: int| 0 <= k < open_entries(s.take(j)).len() implies #[trigger] open_entries(
            s.take(j),
        )[k] == open_entries(s)[k] by {
            assert(open_entries(s.take(j + 1))[k] == open_entries(s.take(j))[k]);
        }
    } else {
        assert(s.take(j) =~= s);
    }
}

proof fn lemma_open_entries_all_closed(s: Seq<TxnEntry>)
    requires
        forall|i: int| 0 <= i < s.len() ==> !(#[trigger] s[i]).open,
    ensures
        open_entries(s).len() == 0,
    decreases s.len(),
{
    if s.len() > 0 {
        lemma_open_entries_all_closed(s.drop_last());
    }
}

/// Scanning the repair records closes, one entry at a time in table order,
/// every transaction that was still open.
proof fn lemma_scan_repairs(other: Seq<DecodeOutcome>, end: int, last: u64, s: Seq<TxnEntry>, j: int)
    requires
        0 <= end,
        0 <= j <= s.len(),
        distinct_txns(s),
        last + open_entries(s).len() <= u64::MAX,
        other.len() == end + open_entries(s).len(),
        forall|k: int|
            0 <= k < open_entries(s).len() ==> #[trigger] other[end + k] == DecodeOutcome::Good(
                repairs_for(last, s)[k],
            ),
    ensures
        ({
            let c = open_entries(s.take(j)).len() as int;
            scan_from(other, end + c, (last + c) as u64, closed_upto(s, j)) == scan_from(
                other,
                end + open_entries(s).len(),
                (last + open_entries(s).len()) as u64,
                closed_upto(s, s.len() as int),
            )
        }),
    decreases s.len() - j,
{
    if j < s.len() {
        let c = open_entries(s.take(j)).len() as int;
        lemma_open_entries_take_push(s, j);
        lemma_open_entries_prefix_of(s, j + 1);
        lemma_scan_repairs(other, end, last, s, j + 1);
        if s[j].open {
            let cur = closed_upto(s, j);
            let rec = repairs_for(last, s)[c];
            assert(open_entries(s.take(j + 1))[c] == s[j]);
            assert(open_entries(s)[c] == s[j]);
            assert(rec == repair_record((last + c + 1) as u64, s[j]));
            assert(other[end + c] == DecodeOutcome::Good(rec));
            assert(distinct_txns(cur)) by {
                assert forall|a: int, b: int| 0 <= a < b < cur.len() implies cur[a].txn
                    != cur[b].txn by {
                    assert(s[a].txn != s[b].txn);
                }
            }
            assert(cur[j] == s[j]);
            lemma_find_txn_at(cur, j);
            assert(checksum_of(rec) == checksum_of(
                Record { checksum: Checksum(0), ..rec },
            ));
            assert(record_step((last + c) as u64, cur, rec) == Ok::<Seq<TxnEntry>, ScanError>(
                cur.update(j, TxnEntry { open: false, ..cur[j] }),
            ));
            assert(cur.update(j, TxnEntry { open: false, ..cur[j] }) =~= closed_upto(s, j + 1));
        } else {
            assert(closed_upto(s, j) =~= closed_upto(s, j + 1));
        }
    } else {
        assert(s.take(j) =~= s);
    }
}

/// Persisting the repairs closes the log: a later scan of everything the
/// first scan made replayable succeeds again, needs no further repairs, and
/// yields the same replayable sequence.
pub proof fn lemma_rescan_after_repair(outs: Seq<DecodeOutcome>, supported: u32)
    requires
        scan_spec(outs, supported) is Ok,
    ensures
        ({
            let (replayable, _repairs, _tail) = scan_spec(outs, supported)->Ok_0;
            scan_spec(all_good(replayable), supported) == Ok::<
                (Seq<Record>, Seq<Record>, Option<TailFault>),
                ScanError,
            >((replayable, Seq::empty(), None))
        }),
{
    let head = scan_head(outs, supported)->Ok_0;
    let (last, s, end, tail) = scan_from(outs, 1, head.seq, Seq::empty())->Ok_0;
    let repairs = repairs_for(last, s);
    let replayable = seq![head] + goods(outs, 1, end) + repairs;
    let other = all_good(replayable);
    let n = open_entries(s).len() as int;
    lemma_scan_end(outs, 1, head.seq, Seq::empty());
    assert(replayable.len() == end + n);
    assert forall|k: int| 1 <= k < end implies #[trigger] other[k] == outs[k] by {
        assert(replayable[k] == goods(outs, 1, end)[k - 1]);
        lemma_scan_goods_at(outs, 1, head.seq, Seq::empty(), k);
    }
    lemma_scan_segment(outs, other, 1, head.seq, Seq::empty());
    assert(other[0] == DecodeOutcome::Good(head));
    assert(scan_head(other, supported) == scan_head(outs, supported));
    assert forall|k: int| 0 <= k < n implies #[trigger] other[end + k] == DecodeOutcome::Good(
        repairs_for(last, s)[k],
    ) by {
        assert(replayable[end + k] == repairs[k]);
    }
    lemma_scan_repairs(other, end, last, s, 0);
    assert(s.take(0) =~= Seq::<TxnEntry>::empty());
    assert(closed_upto(s, 0) =~= s);
    let fin = closed_upto(s, s.len() as int);
    lemma_open_entries_all_closed(fin);
    assert(repairs_for((last + n) as u64, fin) =~= Seq::<Record>::empty());
    assert(goods(other, 1, end + n) =~= goods(outs, 1, end) + repairs);
    assert(seq![head] + goods(other, 1, end + n) + Seq::<Record>::empty() =~= replayable);
}

proof fn lemma_scan_end(outs: Seq<DecodeOutcome>, i: int, last: u64, s: Seq<TxnEntry>)
    requires
        0 <= i <= outs.len(),
        scan_from(outs, i, last, s) is Ok,
    ensures
        i <= scan_from(outs, i, last, s)->Ok_0.2 <= outs.len(),
    decreases outs.len() - i,
{
    if i < outs.len() {
        match outs[i] {
            DecodeOutcome::Tail(_) => {},
            DecodeOutcome::Good(r) => {
                lemma_scan_end(outs, i + 1, r.seq, record_step(last, s, r)->Ok_0);
            },
        }
    }
}

/// Where the scan from `i` succeeds, the outcome at every index before its
/// end is a `Good` record.
proof fn lemma_scan_goods_at(outs: Seq<DecodeOutcome>, i: int, last: u64, s: Seq<TxnEntry>, k: int)
    requires
        0 <= i <= k,
        scan_from(outs, i, last, s) is Ok,
        k < scan_from(outs, i, last, s)->Ok_0.2,
    ensures
        outs[k] is Good,
    decreases outs.len() - i,
{
    if i < outs.len() {
        match outs[i] {
            DecodeOutcome::Tail(_) => {},
            DecodeOutcome::Good(r) => {
                if k > i {
                    lemma_scan_goods_at(outs, i + 1, r.seq, record_step(last, s, r)->Ok_0, k);
                }
            },
        }
    }
}

} // verus!
