//! Plain records of system metrics shared with the dashboard.
use vstd::prelude::*;

verus! {

/// One mounted disk: its name, file system, total and available bytes, and mount point.
#[derive(Clone, Debug)]
pub struct DiskInfo {
    pub name: String,
    pub file_system: String,
    pub total: u64,
    pub available: u64,
    pub mount_point: String,
}

} // verus!

verus! {

/// A byte count in whole mebibytes.
pub fn bytes_to_mib(bytes: u64) -> (mib: u64)
    ensures
        mib == bytes / 1_048_576u64,
{
    bytes / (1024 * 1024)
}

/// The sum of the received (`.0`) or sent (`.1`) byte counts of `deltas`.
pub open spec fn traffic_sum(deltas: Seq<(u64, u64)>, sent: bool) -> int
    decreases deltas.len(),
{
    if deltas.len() == 0 {
        0
    } else {
        traffic_sum(deltas.drop_last(), sent) + if sent {
            deltas.last().1 as int
        } else {
            deltas.last().0 as int
        }
    }
}

proof fn lemma_traffic_sum_prefix(deltas: Seq<(u64, u64)>, sent: bool, k: int)
    requires
        0 <= k <= deltas.len(),
    ensures
        0 <= traffic_sum(deltas.take(k), sent) <= traffic_sum(deltas, sent),
    decreases deltas.len() - k,
{
    if k < deltas.len() {
        assert(deltas.take(k + 1).drop_last() =~= deltas.take(k));
        lemma_traffic_sum_prefix(deltas, sent, k + 1);
    } else {
        assert(deltas.take(k) =~= deltas);
    }
    lemma_traffic_sum_nonneg(deltas.take(k), sent);
}

proof fn lemma_traffic_sum_nonneg(deltas: Seq<(u64, u64)>, sent: bool)
    ensures
        traffic_sum(deltas, sent) >= 0,
    decreases deltas.len(),
{
    if deltas.len() > 0 {
        lemma_traffic_sum_nonneg(deltas.drop_last(), sent);
    }
}

/// The bytes received and sent over all network interfaces, from each interface's
/// (received, sent) counts since the last refresh.
pub fn network_totals(deltas: &Vec<(u64, u64)>) -> (r: (u64, u64))
    requires
        traffic_sum(deltas@, false) <= u64::MAX,
        traffic_sum(deltas@, true) <= u64::MAX,
    ensures
        r.0 == traffic_sum(deltas@, false),
        r.1 == traffic_sum(deltas@, true),
{
    let mut rx: u64 = 0;
    let mut tx: u64 = 0;
    let n = deltas.len();
    let mut i: usize = 0;
    while i < n
        invariant
            n == deltas.len(),
            i <= n,
            rx == traffic_sum(deltas@.take(i as int), false),
            tx == traffic_sum(deltas@.take(i as int), true),
            traffic_sum(deltas@, false) <= u64::MAX,
            traffic_sum(deltas@, true) <= u64::MAX,
        decreases n - i,
    {
        proof {
            assert(deltas@.take(i + 1).drop_last() =~= deltas@.take(i as int));
            lemma_traffic_sum_prefix(deltas@, false, i + 1);
            lemma_traffic_sum_prefix(deltas@, true, i + 1);
        }
        rx = rx + deltas[i].0;
        tx = tx + deltas[i].1;
        i = i + 1;
    }
    assert(deltas@.take(n as int) =~= deltas@);
    (rx, tx)
}

} // verus!
