//! Maglev consistent hashing: spreads the slots of a lookup table evenly over a list of backends.
//!
//! Every backend has its own order of preference over the slots. The backends take turns, each
//! taking the first slot of its order that is still free, until the table is full.

use vstd::prelude::*;

use crate::parse;
use crate::parse::hash_bytes;

verus! {

/// Slots of a lookup table. A power of two: every odd step visits all of them.
pub const TABLE_SIZE: u32 = 1024;

/// A slot that is not taken yet.
pub const FREE: u32 = 4294967295;

/// The slot that a backend prefers to all others.
pub open spec fn offset(hash: u32) -> int {
    (hash % TABLE_SIZE) as int
}

/// The step from one slot of a backend's order of preference to the next.
pub open spec fn skip(hash: u32) -> int {
    (hash / TABLE_SIZE % 512) * 2 + 1
}

/// The `j`-th slot of a backend's order of preference.
pub open spec fn preference(hash: u32, j: int) -> int {
    (offset(hash) + j * skip(hash)) % (TABLE_SIZE as int)
}

/// The first free slot of a backend's order of preference, from its `j`-th on.
pub open spec fn pick(table: Seq<u32>, hash: u32, j: nat) -> int
    decreases TABLE_SIZE - j,
{
    if j >= TABLE_SIZE {
        0
    } else if table[preference(hash, j as int)] == FREE {
        preference(hash, j as int)
    } else {
        pick(table, hash, j + 1)
    }
}

/// The table after `k` turns: in each turn the next backend in line takes a slot.
pub open spec fn after_turns(hashes: Seq<u32>, k: nat) -> Seq<u32>
    decreases k,
{
    if k == 0 {
        Seq::new(TABLE_SIZE as nat, |i: int| FREE)
    } else {
        let t = after_turns(hashes, (k - 1) as nat);
        let b = (k - 1) % (hashes.len() as int);
        t.update(pick(t, hashes[b], 0), b as u32)
    }
}

/// The full table: which backend each slot goes to.
pub open spec fn table_of(hashes: Seq<u32>) -> Seq<u32> {
    after_turns(hashes, TABLE_SIZE as nat)
}

/// How many slots a backend has.
pub open spec fn share(table: Seq<u32>, b: u32) -> nat
    decreases table.len(),
{
    if table.len() == 0 {
        0
    } else {
        share(table.drop_last(), b) + if table.last() == b {
            1nat
        } else {
            0
        }
    }
}

/// One Newton step toward the inverse of an odd number modulo the table size.
spec fn newton(s: u32, x: u32) -> u32 {
    ((x * ((1026u32 - (((s * x) as u32) & 1023u32)) as u32 & 1023u32)) as u32) & 1023u32
}

/// The inverse of an odd number modulo the table size.
spec fn inverse(s: u32) -> u32 {
    newton(s, newton(s, s))
}

proof fn lemma_inverse(s: u32)
    requires
        s < 1024,
        s % 2 == 1,
    ensures
        inverse(s) < 1024,
        (s * inverse(s)) % 1024 == 1,
{
    let x = newton(s, s);
    let y = newton(s, x);
    assert(s % 2 == 1 ==> s & 1 == 1) by (bit_vector);
    assert(((s * y) as u32) & 1023u32 == 1u32 && y < 1024) by (bit_vector)
        requires
            s < 1024,
            s & 1 == 1,
            x == newton(s, s),
            y == newton(s, x),
    ;
    assert(s * y < 1024 * 1024) by (nonlinear_arith)
        requires
            s < 1024,
            y < 1024,
    ;
    assert(0 <= s * y) by (nonlinear_arith);
    let m: u32 = (s * y) as u32;
    assert(m & 1023u32 == m % 1024) by (bit_vector);
}

/// A backend's order of preference reaches every slot.
proof fn lemma_every_slot_is_preferred(hash: u32, slot: int) -> (j: int)
    requires
        0 <= slot < TABLE_SIZE,
    ensures
        0 <= j < TABLE_SIZE,
        preference(hash, j) == slot,
{
    let s = skip(hash);
    let o = offset(hash);
    let inv = inverse(s as u32) as int;
    lemma_inverse(s as u32);
    let d = slot - o + 1024;
    let j = (d * inv) % 1024;
    let q = (d * inv) / 1024;
    let p = (s * inv) / 1024;
    assert(d * inv == 1024 * q + j);
    assert(s * inv == 1024 * p + 1);
    assert(o + j * s == slot + 1024 * (d * p + 1 - q * s)) by (nonlinear_arith)
        requires
            d * inv == 1024 * q + j,
            s * inv == 1024 * p + 1,
            d == slot - o + 1024,
    ;
    let k = d * p + 1 - q * s;
    assert((slot + 1024 * k) % 1024 == slot);
    j
}

/// While a slot is free, what a backend picks is free.
proof fn lemma_pick_is_free(table: Seq<u32>, hash: u32, j: nat, at: int)
    requires
        table.len() == TABLE_SIZE,
        j <= at < TABLE_SIZE,
        table[preference(hash, at)] == FREE,
    ensures
        0 <= pick(table, hash, j) < TABLE_SIZE,
        table[pick(table, hash, j)] == FREE,
    decreases at - j,
{
    if table[preference(hash, j as int)] != FREE {
        lemma_pick_is_free(table, hash, j + 1, at);
    }
}

/// Taking a free slot moves it from the free ones to the taker's.
proof fn lemma_share_update(table: Seq<u32>, slot: int, b: u32, c: u32)
    requires
        0 <= slot < table.len(),
        table[slot] == FREE,
        b != FREE,
    ensures
        share(table.update(slot, b), c) == share(table, c) + if c == b {
            1int
        } else if c == FREE {
            -1int
        } else {
            0
        },
    decreases table.len(),
{
    let u = table.update(slot, b);
    if slot == table.len() - 1 {
        assert(u.drop_last() =~= table.drop_last());
    } else {
        assert(u.drop_last() =~= table.drop_last().update(slot, b));
        lemma_share_update(table.drop_last(), slot, b, c);
    }
}

/// A table with free slots has one at some index.
proof fn lemma_find_free(table: Seq<u32>) -> (slot: int)
    requires
        share(table, FREE) > 0,
    ensures
        0 <= slot < table.len(),
        table[slot] == FREE,
    decreases table.len(),
{
    if table.last() == FREE {
        table.len() - 1
    } else {
        lemma_find_free(table.drop_last())
    }
}

proof fn lemma_share_none(table: Seq<u32>, b: u32)
    requires
        forall|i: int| 0 <= i < table.len() ==> table[i] != b,
    ensures
        share(table, b) == 0,
    decreases table.len(),
{
    if table.len() > 0 {
        lemma_share_none(table.drop_last(), b);
    }
}

proof fn lemma_share_all(n: nat)
    ensures
        share(Seq::new(n, |i: int| FREE), FREE) == n,
    decreases n,
{
    let t = Seq::new(n, |i: int| FREE);
    if n > 0 {
        assert(t.drop_last() =~= Seq::new((n - 1) as nat, |i: int| FREE));
        lemma_share_all((n - 1) as nat);
    }
}

/// How many of the first `k` turns are backend `b`'s, of `n`.
pub open spec fn turns_of(k: int, n: int, b: int) -> int {
    if k <= b {
        0
    } else {
        (k - b - 1) / n + 1
    }
}

/// The state of the table after `k` turns.
proof fn lemma_after_turns(hashes: Seq<u32>, k: nat)
    requires
        hashes.len() > 0,
        k <= TABLE_SIZE,
    ensures
        after_turns(hashes, k).len() == TABLE_SIZE,
        share(after_turns(hashes, k), FREE) == TABLE_SIZE - k,
        forall|i: int|
            0 <= i < TABLE_SIZE ==> (#[trigger] after_turns(hashes, k)[i] == FREE
                || after_turns(hashes, k)[i] < hashes.len()),
        forall|b: u32|
            b < hashes.len() && b != FREE ==> #[trigger] share(after_turns(hashes, k), b)
                == turns_of(k as int, hashes.len() as int, b as int),
    decreases k,
{
    let n = hashes.len() as int;
    let t = after_turns(hashes, k);
    if k == 0 {
        lemma_share_all(TABLE_SIZE as nat);
        assert forall|b: u32| b < hashes.len() && b != FREE implies #[trigger] share(t, b)
            == turns_of(0, n, b as int) by {
            lemma_share_none(t, b);
        }
    } else {
        let p = after_turns(hashes, (k - 1) as nat);
        lemma_after_turns(hashes, (k - 1) as nat);
        let b = (k - 1) % n;
        assert(0 <= b < n && b <= k - 1) by (nonlinear_arith)
            requires
                b == (k - 1) % n,
                n > 0,
                k >= 1,
        ;
        let slot = lemma_find_free(p);
        let j = lemma_every_slot_is_preferred(hashes[b], slot);
        lemma_pick_is_free(p, hashes[b], 0, j);
        let at = pick(p, hashes[b], 0);
        lemma_share_update(p, at, b as u32, FREE);
        assert forall|c: u32| c < hashes.len() && c != FREE implies #[trigger] share(t, c)
            == turns_of(k as int, n, c as int) by {
            lemma_share_update(p, at, b as u32, c);
            assert(share(p, c) == turns_of(k - 1, n, c as int));
            lemma_turn(k as int, n, c as int);
        }
    }
}

/// The `k`-th turn is that of backend `(k - 1) % n`.
proof fn lemma_turn(k: int, n: int, c: int)
    requires
        k >= 1,
        0 <= c < n,
    ensures
        turns_of(k, n, c) == turns_of(k - 1, n, c) + if (k - 1) % n == c {
            1int
        } else {
            0
        },
{
    let x = k - 1 - c;
    if x < 0 {
        assert((k - 1) % n == k - 1) by (nonlinear_arith)
            requires
                0 <= k - 1 < n,
        ;
    } else if x == 0 {
        assert((k - 1) % n == c) by (nonlinear_arith)
            requires
                k - 1 == c,
                0 <= c < n,
        ;
        assert(0int / n == 0) by (nonlinear_arith)
            requires
                n > 0,
        ;
    } else {
        lemma_quotient_step(x, n);
        assert(((k - 1) % n == c) <==> (x % n == 0)) by (nonlinear_arith)
            requires
                x == k - 1 - c,
                0 <= c < n,
                x > 0,
        ;
    }
}

proof fn lemma_quotient_step(x: int, n: int)
    requires
        x > 0,
        n > 0,
    ensures
        x / n == (x - 1) / n + if x % n == 0 {
            1int
        } else {
            0
        },
{
    let q = (x - 1) / n;
    let r = (x - 1) % n;
    vstd::arithmetic::div_mod::lemma_fundamental_div_mod(x - 1, n);
    if r == n - 1 {
        assert(x == n * (q + 1)) by (nonlinear_arith)
            requires
                x - 1 == n * q + r,
                r == n - 1,
        ;
        vstd::arithmetic::div_mod::lemma_fundamental_div_mod_converse(x, n, q + 1, 0);
    } else {
        vstd::arithmetic::div_mod::lemma_fundamental_div_mod_converse(x, n, q, r + 1);
    }
}

/// Every slot of a table goes to one of the backends.
pub proof fn law_every_slot_has_a_backend(hashes: Seq<u32>)
    requires
        hashes.len() > 0,
    ensures
        table_of(hashes).len() == TABLE_SIZE,
        forall|i: int| 0 <= i < TABLE_SIZE ==> #[trigger] table_of(hashes)[i] < hashes.len(),
{
    lemma_after_turns(hashes, TABLE_SIZE as nat);
    let t = table_of(hashes);
    assert forall|i: int| 0 <= i < TABLE_SIZE implies #[trigger] t[i] < hashes.len() by {
        if t[i] == FREE {
            lemma_share_some(t, FREE, i);
        }
    }
}

proof fn lemma_share_some(table: Seq<u32>, b: u32, i: int)
    requires
        0 <= i < table.len(),
        table[i] == b,
    ensures
        share(table, b) > 0,
    decreases table.len(),
{
    if i < table.len() - 1 {
        lemma_share_some(table.drop_last(), b, i);
    }
}

/// The load is even: no backend has more than one slot more than another.
pub proof fn law_backends_share_evenly(hashes: Seq<u32>, a: u32, b: u32)
    requires
        a < hashes.len() && a != FREE,
        b < hashes.len() && b != FREE,
    ensures
        share(table_of(hashes), a) <= share(table_of(hashes), b) + 1,
{
    let n = hashes.len() as int;
    lemma_after_turns(hashes, TABLE_SIZE as nat);
    assert(share(table_of(hashes), a) == turns_of(TABLE_SIZE as int, n, a as int));
    assert(share(table_of(hashes), b) == turns_of(TABLE_SIZE as int, n, b as int));
    let x = TABLE_SIZE - a - 1;
    let y = TABLE_SIZE - b - 1;
    if x >= 0 && y >= 0 {
        assert(x / n <= y / n + 1) by (nonlinear_arith)
            requires
                x < y + n,
                n > 0,
                y >= 0,
                x >= 0,
        ;
    } else if x >= 0 {
        assert(x / n == 0) by (nonlinear_arith)
            requires
                0 <= x < n,
        ;
    }
}

/// The slot a backend picks.
fn pick_slot(table: &Vec<u32>, hash: u32) -> (slot: usize)
    requires
        table.len() == TABLE_SIZE,
        share(table@, FREE) > 0,
    ensures
        slot == pick(table@, hash, 0),
        slot < TABLE_SIZE,
{
    let offset: u32 = hash % TABLE_SIZE;
    let skip: u32 = (hash / TABLE_SIZE % 512) * 2 + 1;
    proof {
        let free = lemma_find_free(table@);
        let at = lemma_every_slot_is_preferred(hash, free);
        lemma_pick_is_free(table@, hash, 0, at);
    }
    let mut j: u32 = 0;
    while j < TABLE_SIZE
        invariant
            j <= TABLE_SIZE,
            table.len() == TABLE_SIZE,
            offset == self::offset(hash),
            skip == self::skip(hash),
            pick(table@, hash, 0) == pick(table@, hash, j as nat),
        decreases TABLE_SIZE - j,
    {
        assert(j * skip <= 1024 * 1023) by (nonlinear_arith)
            requires
                j <= 1024,
                skip <= 1023,
        ;
        let slot: usize = ((offset + j * skip) % TABLE_SIZE) as usize;
        if table[slot] == FREE {
            return slot;
        }
        j = j + 1;
    }
    0
}

/// Fill a lookup table for backends with the given hashes.
fn fill_table(hashes: &Vec<u32>) -> (table: Vec<u32>)
    requires
        hashes.len() > 0,
    ensures
        table@ == table_of(hashes@),
{
    let mut table: Vec<u32> = Vec::new();
    let mut i: u32 = 0;
    while i < TABLE_SIZE
        invariant
            i <= TABLE_SIZE,
            table@ == Seq::new(i as nat, |j: int| FREE),
        decreases TABLE_SIZE - i,
    {
        table.push(FREE);
        i = i + 1;
    }
    let n: usize = hashes.len();
    let mut k: u32 = 0;
    while k < TABLE_SIZE
        invariant
            k <= TABLE_SIZE,
            n == hashes.len(),
            n > 0,
            table@ == after_turns(hashes@, k as nat),
        decreases TABLE_SIZE - k,
    {
        proof {
            lemma_after_turns(hashes@, k as nat);
        }
        let b: usize = (k as usize) % n;
        let slot: usize = pick_slot(&table, hashes[b]);
        assert(b <= k) by (nonlinear_arith)
            requires
                b as int == (k as int) % (n as int),
                n > 0,
        ;
        table.set(slot, b as u32);
        k = k + 1;
    }
    table
}

/// The hashes of a list of underlay addresses.
pub open spec fn hashes16(backends: Seq<[u8; 16]>) -> Seq<u32> {
    Seq::new(backends.len(), |i: int| parse::fnv1a(backends[i]@))
}

/// The hashes of a list of overlay addresses.
pub open spec fn hashes4(backends: Seq<[u8; 4]>) -> Seq<u32> {
    Seq::new(backends.len(), |i: int| parse::fnv1a(backends[i]@))
}

/// Build the lookup table of a list of backend underlay addresses.
pub fn build(backends: &Vec<[u8; 16]>) -> (table: Vec<u32>)
    requires
        backends.len() > 0,
    ensures
        table@ == table_of(hashes16(backends@)),
{
    let mut hashes: Vec<u32> = Vec::new();
    let mut i: usize = 0;
    while i < backends.len()
        invariant
            i <= backends.len(),
            hashes@ == hashes16(backends@).take(i as int),
        decreases backends.len() - i,
    {
        let b: [u8; 16] = backends[i];
        hashes.push(hash_bytes(&b));
        i = i + 1;
        assert(hashes@ =~= hashes16(backends@).take(i as int));
    }
    assert(hashes16(backends@).take(i as int) =~= hashes16(backends@));
    fill_table(&hashes)
}

/// Build the lookup table of a list of backend overlay addresses.
pub fn build_overlay(backends: &Vec<[u8; 4]>) -> (table: Vec<u32>)
    requires
        backends.len() > 0,
    ensures
        table@ == table_of(hashes4(backends@)),
{
    let mut hashes: Vec<u32> = Vec::new();
    let mut i: usize = 0;
    while i < backends.len()
        invariant
            i <= backends.len(),
            hashes@ == hashes4(backends@).take(i as int),
        decreases backends.len() - i,
    {
        let b: [u8; 4] = backends[i];
        hashes.push(hash_bytes(&b));
        i = i + 1;
        assert(hashes@ =~= hashes4(backends@).take(i as int));
    }
    assert(hashes4(backends@).take(i as int) =~= hashes4(backends@));
    fill_table(&hashes)
}

/// What `pick` finds is the first free slot of the order of preference.
proof fn lemma_pick_is_first(table: Seq<u32>, hash: u32, from: nat, free: int) -> (j: int)
    requires
        from <= free < TABLE_SIZE,
        table[preference(hash, free)] == FREE,
    ensures
        from <= j <= free,
        pick(table, hash, from) == preference(hash, j),
        table[preference(hash, j)] == FREE,
        forall|i: int| from <= i < j ==> table[#[trigger] preference(hash, i)] != FREE,
    decreases TABLE_SIZE - from,
{
    if table[preference(hash, from as int)] == FREE {
        from as int
    } else {
        lemma_pick_is_first(table, hash, from + 1, free)
    }
}

/// The backends take turns, in the order of their list, and each turn takes one slot: of the slots that
/// are free, the one that comes first in the backend's own order, which starts at its hash modulo 1024
/// and goes on in steps of twice the next nine bits of the hash, plus one, modulo 1024. Every other slot
/// stays.
pub proof fn law_turn_takes_the_first_free_slot(hashes: Seq<u32>, k: nat)
    requires
        hashes.len() > 0,
        k < 1024,
    ensures
        ({
            let before = after_turns(hashes, k);
            let after = after_turns(hashes, k + 1);
            let b = k as int % hashes.len() as int;
            let h = hashes[b] as int;
            let slot = |j: int| (h % 1024 + j * (h / 1024 % 512 * 2 + 1)) % 1024;
            exists|j: int|
                0 <= j < 1024 && before[#[trigger] slot(j)] == FREE && (forall|i: int|
                    0 <= i < j ==> before[#[trigger] slot(i)] != FREE) && after == before.update(
                    slot(j),
                    b as u32,
                )
        }),
{
    let before = after_turns(hashes, k);
    let n = hashes.len() as int;
    let b = k as int % n;
    assert(0 <= b < n) by (nonlinear_arith)
        requires
            b == k as int % n,
            n > 0,
    ;
    let hash = hashes[b];
    let h = hash as int;
    let slot = |j: int| (h % 1024 + j * (h / 1024 % 512 * 2 + 1)) % 1024;
    lemma_after_turns(hashes, k);
    let s = lemma_find_free(before);
    let f = lemma_every_slot_is_preferred(hash, s);
    let j = lemma_pick_is_first(before, hash, 0, f);
    assert forall|i: int| #[trigger] slot(i) == preference(hash, i) by {}
    assert(after_turns(hashes, k + 1) == before.update(slot(j), b as u32));
    assert forall|i: int| 0 <= i < j implies before[#[trigger] slot(i)] != FREE by {
        assert(before[preference(hash, i)] != FREE);
    }
    assert(before[slot(j)] == FREE);
}

/// A table starts free, is full after 1024 turns, and backends are known by the FNV-1a hash of their
/// address.
pub proof fn law_tables_are_filled_by_hash(
    hashes: Seq<u32>,
    far: Seq<[u8; 16]>,
    near: Seq<[u8; 4]>,
    i: int,
)
    ensures
        after_turns(hashes, 0).len() == 1024,
        0 <= i < 1024 ==> after_turns(hashes, 0)[i] == FREE,
        table_of(hashes) == after_turns(hashes, 1024),
        hashes16(far).len() == far.len(),
        hashes4(near).len() == near.len(),
        0 <= i < far.len() ==> hashes16(far)[i] == parse::fnv1a(far[i]@),
        0 <= i < near.len() ==> hashes4(near)[i] == parse::fnv1a(near[i]@),
{
}

} // verus!
