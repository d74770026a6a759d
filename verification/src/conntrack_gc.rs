//! Conntrack aging: entries idle longer than their timeout are evicted. Times are kernel-monotonic
//! nanoseconds.

use vstd::prelude::*;

use crate::table;
use crate::tables::{Tables, TablesView};
use crate::types::{CtEntry, CtKey, TCP_ESTABLISHED};

verus! {

/// Timeout of every entry but those of established TCP flows: 30 seconds.
pub const DEFAULT_TIMEOUT_NS: u64 = 30_000_000_000;

/// Timeout of established TCP flows: one day.
pub const TCP_ESTABLISHED_TIMEOUT_NS: u64 = 86_400_000_000_000;

/// How long an entry may be idle.
pub open spec fn timeout(e: CtEntry) -> u64 {
    if e.tcp_state == TCP_ESTABLISHED {
        TCP_ESTABLISHED_TIMEOUT_NS
    } else {
        DEFAULT_TIMEOUT_NS
    }
}

/// How long an entry may be idle, in nanoseconds.
pub fn timeout_ns(e: &CtEntry) -> (r: u64)
    ensures
        r == timeout(*e),
{
    if e.tcp_state == TCP_ESTABLISHED {
        TCP_ESTABLISHED_TIMEOUT_NS
    } else {
        DEFAULT_TIMEOUT_NS
    }
}

/// Whether an entry's idle time at `now` exceeds its timeout. An entry seen after `now` is not idle.
pub open spec fn expired(e: CtEntry, now: u64) -> bool {
    now - e.last_seen > timeout(e)
}

/// Whether an entry's idle time at `now` exceeds its timeout.
pub fn is_expired(e: &CtEntry, now: u64) -> (r: bool)
    ensures
        r == expired(*e, now),
{
    let idle: u64 = if now > e.last_seen {
        now - e.last_seen
    } else {
        0
    };
    idle > timeout_ns(e)
}

/// The keys of the expired ones of a list of entries, in order.
pub open spec fn expired_keys(entries: Seq<(CtKey, CtEntry)>, now: u64) -> Seq<CtKey>
    decreases entries.len(),
{
    if entries.len() == 0 {
        seq![]
    } else {
        let rest = expired_keys(entries.drop_last(), now);
        if expired(entries.last().1, now) {
            rest.push(entries.last().0)
        } else {
            rest
        }
    }
}

/// Select the entries to evict.
pub fn stale(entries: &Vec<(CtKey, CtEntry)>, now: u64) -> (r: Vec<CtKey>)
    ensures
        r@ == expired_keys(entries@, now),
{
    let mut r: Vec<CtKey> = Vec::new();
    let mut i: usize = 0;
    while i < entries.len()
        invariant
            i <= entries.len(),
            r@ == expired_keys(entries@.take(i as int), now),
        decreases entries.len() - i,
    {
        if is_expired(&entries[i].1, now) {
            r.push(entries[i].0);
        }
        i = i + 1;
        assert(entries@.take(i as int).drop_last() =~= entries@.take(i - 1));
    }
    assert(entries@.take(i as int) =~= entries@);
    r
}

/// Whether a key is that of an expired entry of a list.
pub open spec fn is_among(entries: Seq<(CtKey, CtEntry)>, now: u64, k: CtKey) -> bool {
    exists|i: int|
        0 <= i < entries.len() && (#[trigger] entries[i]).0 == k && expired(entries[i].1, now)
}

proof fn lemma_expired_keys(entries: Seq<(CtKey, CtEntry)>, now: u64, k: CtKey)
    ensures
        expired_keys(entries, now).contains(k) == is_among(entries, now, k),
    decreases entries.len(),
{
    if entries.len() > 0 {
        let p = entries.drop_last();
        let rest = expired_keys(p, now);
        lemma_expired_keys(p, now, k);
        let all = expired_keys(entries, now);
        if is_among(p, now, k) {
            let i = choose|i: int|
                0 <= i < p.len() && (#[trigger] p[i]).0 == k && expired(p[i].1, now);
            assert(entries[i].0 == k);
            let j = choose|j: int| 0 <= j < rest.len() && rest[j] == k;
            assert(all[j] == k);
        }
        if entries.last().0 == k && expired(entries.last().1, now) {
            assert(entries[entries.len() - 1].0 == k);
            assert(all[all.len() - 1] == k);
        }
        if is_among(entries, now, k) {
            let i = choose|i: int|
                0 <= i < entries.len() && (#[trigger] entries[i]).0 == k && expired(
                    entries[i].1,
                    now,
                );
            if i < p.len() {
                assert(p[i].0 == k);
            }
        }
        if all.contains(k) && !rest.contains(k) {
            let j = choose|j: int| 0 <= j < all.len() && all[j] == k;
            if j < rest.len() {
                assert(rest[j] == k);
            }
        }
    }
}

/// The entries that survive a sweep: exactly those that have not expired.
pub open spec fn swept(ct: Map<CtKey, CtEntry>, now: u64) -> Map<CtKey, CtEntry> {
    ct.restrict(Set::new(|k: CtKey| ct.contains_key(k) && !expired(ct[k], now)))
}

/// Evict every expired entry.
pub fn sweep(tables: &mut Tables, now: u64)
    ensures
        final(tables)@ == (TablesView {
            conntrack: swept(old(tables)@.conntrack, now),
            ..old(tables)@
        }),
{
    let entries = tables.conntrack.entries();
    let keys = stale(&entries, now);
    let ghost ct = tables.conntrack@;
    let mut i: usize = 0;
    while i < keys.len()
        invariant
            i <= keys.len(),
            ct == old(tables)@.conntrack,
            tables@ == (TablesView { conntrack: tables@.conntrack, ..old(tables)@ }),
            forall|k: CtKey|
                #![trigger tables@.conntrack.contains_key(k)]
                tables@.conntrack.contains_key(k) == (ct.contains_key(k) && !keys@.take(
                    i as int,
                ).contains(k)) && (tables@.conntrack.contains_key(k) ==> tables@.conntrack[k]
                    == ct[k]),
        decreases keys.len() - i,
    {
        let ghost done = keys@.take(i as int);
        let ghost before = tables@.conntrack;
        tables.conntrack.remove(&keys[i]);
        i = i + 1;
        let ghost more = keys@.take(i as int);
        assert(more =~= done.push(keys@[i - 1]));
        assert forall|k: CtKey|
            #![trigger tables@.conntrack.contains_key(k)]
            tables@.conntrack.contains_key(k) == (ct.contains_key(k) && !more.contains(k)) && (
            tables@.conntrack.contains_key(k) ==> tables@.conntrack[k] == ct[k]) by {
            assert(before.contains_key(k) == (ct.contains_key(k) && !done.contains(k)));
            if done.contains(k) {
                let j = choose|j: int| 0 <= j < done.len() && done[j] == k;
                assert(more[j] == k);
            }
            if k == keys@[i - 1] {
                assert(more[i - 1] == k);
            }
            if more.contains(k) && !done.contains(k) {
                let j = choose|j: int| 0 <= j < more.len() && more[j] == k;
                if j < done.len() {
                    assert(done[j] == k);
                }
            }
        }
    }
    assert(keys@.take(i as int) =~= keys@);
    proof {
        assert forall|k: CtKey| #[trigger] tables@.conntrack.contains_key(k) == swept(
            ct,
            now,
        ).contains_key(k) by {
            lemma_expired_keys(entries@, now, k);
            if ct.contains_key(k) {
                assert(table::has_key(entries@, k));
                let p = table::position(entries@, k);
                assert(entries@[p].0 == k && entries@[p].1 == ct[k]);
                if is_among(entries@, now, k) {
                    let q = choose|q: int|
                        0 <= q < entries@.len() && (#[trigger] entries@[q]).0 == k && expired(
                            entries@[q].1,
                            now,
                        );
                    assert(entries@[q].0@ == entries@[p].0@);
                    assert(q == p);
                }
            }
        }
        assert(tables@.conntrack =~= swept(ct, now));
    }
}

/// A flow that is seen often enough is never evicted: an entry touched at `seen` survives every
/// sweep up to its timeout later, and none after.
pub proof fn law_entries_live_for_their_timeout(
    ct: Map<CtKey, CtEntry>,
    k: CtKey,
    now: u64,
)
    requires
        ct.contains_key(k),
    ensures
        swept(ct, now).contains_key(k) <==> now <= ct[k].last_seen + timeout(ct[k]),
        swept(ct, now).contains_key(k) ==> swept(ct, now)[k] == ct[k],
{
}

/// Idle flows age: an entry of an established TCP flow survives a sweep up to one day (86400 seconds)
/// after it was last seen, every other entry up to 30 seconds; later both are gone. Times are in
/// nanoseconds.
pub proof fn law_flows_age_in_seconds(ct: Map<CtKey, CtEntry>, k: CtKey, seconds: u64, now: u64)
    requires
        ct.contains_key(k),
        ct[k].last_seen + seconds * 1_000_000_000 == now,
    ensures
        ct[k].tcp_state == TCP_ESTABLISHED && seconds <= 86400 ==> swept(ct, now).contains_pair(
            k,
            ct[k],
        ),
        ct[k].tcp_state == TCP_ESTABLISHED && seconds > 86400 ==> !swept(ct, now).contains_key(k),
        ct[k].tcp_state != TCP_ESTABLISHED && seconds <= 30 ==> swept(ct, now).contains_pair(
            k,
            ct[k],
        ),
        ct[k].tcp_state != TCP_ESTABLISHED && seconds > 30 ==> !swept(ct, now).contains_key(k),
{
    law_entries_live_for_their_timeout(ct, k, now);
}

/// A sweep only evicts: what it leaves was there before, and unchanged.
pub proof fn law_sweep_only_evicts(ct: Map<CtKey, CtEntry>, k: CtKey, now: u64)
    ensures
        swept(ct, now).contains_key(k) ==> ct.contains_pair(k, swept(ct, now)[k]),
        ct.contains_key(k) && ct[k].last_seen >= now ==> swept(ct, now).contains_pair(k, ct[k]),
{
}

} // verus!
