//! A lookup table: the in-memory form of the maps the datapath reads and writes.

use vstd::prelude::*;

use crate::bytes::{copy_bytes, eq16, eq4, eq_bytes};
use crate::types::{
    CtKey, FwRuleKey, IfaceKey, LbKey, MaglevKey, NatFlow, NatKey, RouteKey, RouteKey6, VipKey,
};

verus! {

/// A type whose values can be compared and copied, and so can key a `Table`.
pub trait Key: View + Sized {
    fn same(&self, other: &Self) -> (r: bool)
        ensures
            r == (self@ == other@),
    ;

    fn dup(&self) -> (r: Self)
        ensures
            r@ == self@,
    ;
}

/// Where `k` stands among `keys`, if it does.
pub open spec fn has_key<K: Key, V>(s: Seq<(K, V)>, k: K::V) -> bool {
    exists|i: int| 0 <= i < s.len() && (#[trigger] s[i]).0@ == k
}

/// The position of key `k`.
pub open spec fn position<K: Key, V>(s: Seq<(K, V)>, k: K::V) -> int {
    choose|i: int| 0 <= i < s.len() && (#[trigger] s[i]).0@ == k
}

/// No key occurs twice.
pub open spec fn keys_distinct<K: Key, V>(s: Seq<(K, V)>) -> bool {
    forall|i: int, j: int|
        0 <= i < s.len() && 0 <= j < s.len() && i != j ==> (#[trigger] s[i]).0@ != (
        #[trigger] s[j]).0@
}

/// The table that a list of entries stands for.
pub open spec fn entries_map<K: Key, V>(s: Seq<(K, V)>) -> Map<K::V, V> {
    Map::new(|k: K::V| has_key(s, k), |k: K::V| s[position(s, k)].1)
}

/// Every entry of a list without double keys is in the table that the list stands for.
pub proof fn lemma_entry<K: Key, V>(s: Seq<(K, V)>, i: int)
    requires
        keys_distinct(s),
        0 <= i < s.len(),
    ensures
        entries_map(s).contains_key(s[i].0@),
        entries_map(s)[s[i].0@] == s[i].1,
{
    assert(has_key(s, s[i].0@));
    let p = position(s, s[i].0@);
    assert(s[p].0@ == s[i].0@);
}

/// Whether a list holds exactly the keys of a table, each once.
pub open spec fn lists_keys<K: Key, V>(s: Seq<K>, m: Map<K::V, V>) -> bool {
    &&& forall|i: int, j: int|
        0 <= i < s.len() && 0 <= j < s.len() && i != j ==> (#[trigger] s[i])@ != (
        #[trigger] s[j])@
    &&& forall|i: int| 0 <= i < s.len() ==> m.contains_key((#[trigger] s[i])@)
    &&& forall|k: K::V| #[trigger]
        m.contains_key(k) ==> exists|i: int| 0 <= i < s.len() && (#[trigger] s[i])@ == k
}

/// A finite map from keys to values.
pub struct Table<K: Key, V> {
    entries: Vec<(K, V)>,
}

impl<K: Key, V> View for Table<K, V> {
    type V = Map<K::V, V>;

    closed spec fn view(&self) -> Map<K::V, V> {
        entries_map(self.entries@)
    }
}

impl<K: Key, V> Table<K, V> {
    #[verifier::type_invariant]
    spec fn inv(self) -> bool {
        keys_distinct(self.entries@)
    }

    pub fn new() -> (r: Self)
        ensures
            r@ == Map::<K::V, V>::empty(),
    {
        let r = Table { entries: Vec::new() };
        assert(entries_map(r.entries@) =~= Map::<K::V, V>::empty());
        r
    }

    fn find(&self, k: &K) -> (r: Option<usize>)
        ensures
            match r {
                Some(i) => i < self.entries.len() && self.entries@[i as int].0@ == k@ && has_key(
                    self.entries@,
                    k@,
                ) && position(self.entries@, k@) == i,
                None => !has_key(self.entries@, k@),
            },
    {
        proof {
            use_type_invariant(&*self);
        }
        let n: usize = self.entries.len();
        let mut i: usize = 0;
        while i < n
            invariant
                i <= n,
                n == self.entries.len(),
                keys_distinct(self.entries@),
                forall|j: int| 0 <= j < i ==> (#[trigger] self.entries@[j]).0@ != k@,
            decreases n - i,
        {
            if self.entries[i].0.same(k) {
                assert(has_key(self.entries@, k@));
                return Some(i);
            }
            i = i + 1;
        }
        None
    }

    pub fn contains(&self, k: &K) -> (r: bool)
        ensures
            r == self@.contains_key(k@),
    {
        match self.find(k) {
            Some(_) => true,
            None => false,
        }
    }

    pub fn get_ref(&self, k: &K) -> (r: Option<&V>)
        ensures
            match r {
                Some(v) => self@.contains_key(k@) && *v == self@[k@],
                None => !self@.contains_key(k@),
            },
    {
        match self.find(k) {
            Some(i) => Some(&self.entries[i].1),
            None => None,
        }
    }

    pub fn get(&self, k: &K) -> (r: Option<V>) where V: Copy
        ensures
            r == self@.get(k@),
    {
        match self.find(k) {
            Some(i) => Some(self.entries[i].1),
            None => None,
        }
    }

    /// Bind `k` to `v`, replacing what it was bound to.
    pub fn insert(&mut self, k: K, v: V)
        ensures
            final(self)@ == old(self)@.insert(k@, v),
    {
        let found = self.find(&k);
        proof {
            use_type_invariant(&*self);
        }
        let mut entries: Vec<(K, V)> = Vec::new();
        std::mem::swap(&mut entries, &mut self.entries);
        let ghost before = entries@;
        match found {
            Some(i) => {
                entries.set(i, (k, v));
                assert forall|q: K::V| has_key(entries@, q) == has_key(before, q) by {
                    if has_key(before, q) {
                        let j = position(before, q);
                        assert(entries@[j].0@ == q);
                    }
                    if has_key(entries@, q) {
                        let j = position(entries@, q);
                        assert(before[j].0@ == q);
                    }
                }
                assert forall|q: K::V| #[trigger] has_key(before, q) implies position(entries@, q)
                    == position(before, q) by {
                    let j = position(before, q);
                    assert(entries@[j].0@ == q);
                }
                assert(entries_map(entries@) =~= entries_map(before).insert(k@, v));
            },
            None => {
                entries.push((k, v));
                assert forall|q: K::V| has_key(entries@, q) == (has_key(before, q) || q == k@) by {
                    if has_key(before, q) {
                        let j = position(before, q);
                        assert(entries@[j].0@ == q);
                    }
                    if q == k@ {
                        assert(entries@[before.len() as int].0@ == q);
                    }
                    if has_key(entries@, q) && q != k@ {
                        let j = position(entries@, q);
                        assert(before[j].0@ == q);
                    }
                }
                assert forall|q: K::V| #[trigger] has_key(before, q) implies position(entries@, q)
                    == position(before, q) by {
                    let j = position(before, q);
                    assert(entries@[j].0@ == q);
                }
                assert(position(entries@, k@) == before.len()) by {
                    assert(entries@[before.len() as int].0@ == k@);
                }
                assert(entries_map(entries@) =~= entries_map(before).insert(k@, v));
            },
        }
        self.entries = entries;
    }

    /// Forget `k`; gives back what it was bound to.
    pub fn remove(&mut self, k: &K) -> (r: Option<V>)
        ensures
            final(self)@ == old(self)@.remove(k@),
            r == old(self)@.get(k@),
    {
        let found = self.find(k);
        proof {
            use_type_invariant(&*self);
        }
        let mut entries: Vec<(K, V)> = Vec::new();
        std::mem::swap(&mut entries, &mut self.entries);
        let ghost before = entries@;
        let out = match found {
            Some(i) => {
                let e = entries.swap_remove(i);
                assert forall|q: K::V| has_key(entries@, q) == (has_key(before, q) && q != k@) by {
                    if has_key(before, q) && q != k@ {
                        let j = position(before, q);
                        if j == before.len() - 1 {
                            assert(entries@[i as int].0@ == q);
                        } else {
                            assert(entries@[j].0@ == q);
                        }
                    }
                    if has_key(entries@, q) {
                        let j = position(entries@, q);
                        if j == i {
                            assert(before[before.len() - 1].0@ == q);
                        } else {
                            assert(before[j].0@ == q);
                        }
                    }
                }
                assert forall|q: K::V| #[trigger] has_key(before, q) && q != k@ implies entries@[position(
                    entries@,
                    q,
                )].1 == before[position(before, q)].1 by {
                    let j = position(before, q);
                    if j == before.len() - 1 {
                        assert(entries@[i as int].0@ == q);
                    } else {
                        assert(entries@[j].0@ == q);
                    }
                    let m = position(entries@, q);
                    if m == i {
                        assert(before[before.len() - 1].0@ == q);
                    } else {
                        assert(before[m].0@ == q);
                    }
                }
                assert(entries_map(entries@) =~= entries_map(before).remove(k@));
                Some(e.1)
            },
            None => {
                assert(entries_map(entries@) =~= entries_map(before).remove(k@));
                None
            },
        };
        self.entries = entries;
        out
    }

    /// The keys, each once, in no particular order.
    pub fn keys(&self) -> (r: Vec<K>)
        ensures
            lists_keys(r@, self@),
    {
        proof {
            use_type_invariant(&*self);
        }
        let n: usize = self.entries.len();
        let mut r: Vec<K> = Vec::new();
        let mut i: usize = 0;
        while i < n
            invariant
                i <= n,
                n == self.entries.len(),
                r.len() == i,
                forall|j: int| 0 <= j < i ==> (#[trigger] r@[j])@ == self.entries@[j].0@,
            decreases n - i,
        {
            r.push(self.entries[i].0.dup());
            i = i + 1;
        }
        assert forall|a: int, b: int| 0 <= a < r.len() && 0 <= b < r.len() && a != b implies (
        #[trigger] r@[a])@ != (#[trigger] r@[b])@ by {
            assert(self.entries@[a].0@ != self.entries@[b].0@);
        }
        assert forall|j: int| 0 <= j < r.len() implies self@.contains_key((#[trigger] r@[j])@) by {
            lemma_entry(self.entries@, j);
        }
        assert forall|k: K::V| #[trigger] self@.contains_key(k) implies exists|j: int|
            0 <= j < r.len() && (#[trigger] r@[j])@ == k by {
            let p = position(self.entries@, k);
            assert(self.entries@[p].0@ == k);
            assert(r@[p]@ == k);
        }
        r
    }

    /// The entries, each key once, in no particular order.
    pub fn entries(&self) -> (r: Vec<(K, V)>) where V: Copy
        ensures
            keys_distinct(r@),
            entries_map(r@) == self@,
    {
        proof {
            use_type_invariant(&*self);
        }
        let n: usize = self.entries.len();
        let mut r: Vec<(K, V)> = Vec::new();
        let mut i: usize = 0;
        while i < n
            invariant
                i <= n,
                n == self.entries.len(),
                r.len() == i,
                forall|j: int|
                    0 <= j < i ==> (#[trigger] r@[j]).0@ == self.entries@[j].0@ && r@[j].1
                        == self.entries@[j].1,
            decreases n - i,
        {
            r.push((self.entries[i].0.dup(), self.entries[i].1));
            i = i + 1;
        }
        assert forall|q: K::V| has_key(r@, q) == has_key(self.entries@, q) by {
            if has_key(r@, q) {
                let j = position(r@, q);
                assert(self.entries@[j].0@ == q);
            }
            if has_key(self.entries@, q) {
                let j = position(self.entries@, q);
                assert(r@[j].0@ == q);
            }
        }
        assert forall|q: K::V| #[trigger] has_key(r@, q) implies position(r@, q) == position(
            self.entries@,
            q,
        ) by {
            let j = position(self.entries@, q);
            assert(has_key(self.entries@, q));
            assert(r@[j].0@ == q);
            let m = position(r@, q);
            assert(self.entries@[m].0@ == q);
        }
        assert(keys_distinct(r@)) by {
            assert forall|a: int, b: int| 0 <= a < r.len() && 0 <= b < r.len() && a != b implies (
            #[trigger] r@[a]).0@ != (#[trigger] r@[b]).0@ by {
                assert(self.entries@[a].0@ != self.entries@[b].0@);
            }
        }
        assert(entries_map(r@) =~= entries_map(self.entries@));
        r
    }
}

impl Key for u32 {
    fn same(&self, other: &Self) -> (r: bool) {
        *self == *other
    }

    fn dup(&self) -> (r: Self) {
        *self
    }
}

/// An IPv6 address as a table key.
#[derive(Copy, Clone, Eq, PartialEq, Hash, Debug)]
pub struct Addr6(pub [u8; 16]);

impl View for Addr6 {
    type V = [u8; 16];

    open spec fn view(&self) -> [u8; 16] {
        self.0
    }
}

impl Key for Addr6 {
    fn same(&self, other: &Self) -> (r: bool) {
        eq16(&self.0, &other.0)
    }

    fn dup(&self) -> (r: Self) {
        *self
    }
}

/// An identifier (a byte string chosen by the client) as a table key.
#[derive(Debug)]
pub struct Id(pub Vec<u8>);

impl View for Id {
    type V = Seq<u8>;

    open spec fn view(&self) -> Seq<u8> {
        self.0@
    }
}

impl Key for Id {
    fn same(&self, other: &Self) -> (r: bool) {
        eq_bytes(self.0.as_slice(), other.0.as_slice())
    }

    fn dup(&self) -> (r: Self) {
        Id(copy_bytes(self.0.as_slice()))
    }
}

impl View for IfaceKey {
    type V = Self;

    open spec fn view(&self) -> Self {
        *self
    }
}

impl Key for IfaceKey {
    fn same(&self, other: &Self) -> (r: bool) {
        self.vni == other.vni && eq4(&self.ipv4, &other.ipv4)
    }

    fn dup(&self) -> (r: Self) {
        *self
    }
}

impl View for VipKey {
    type V = Self;

    open spec fn view(&self) -> Self {
        *self
    }
}

impl Key for VipKey {
    fn same(&self, other: &Self) -> (r: bool) {
        self.vni == other.vni && eq4(&self.ipv4, &other.ipv4)
    }

    fn dup(&self) -> (r: Self) {
        *self
    }
}

impl View for NatKey {
    type V = Self;

    open spec fn view(&self) -> Self {
        *self
    }
}

impl Key for NatKey {
    fn same(&self, other: &Self) -> (r: bool) {
        self.vni == other.vni && eq4(&self.ipv4, &other.ipv4)
    }

    fn dup(&self) -> (r: Self) {
        *self
    }
}

impl View for RouteKey {
    type V = Self;

    open spec fn view(&self) -> Self {
        *self
    }
}

impl Key for RouteKey {
    fn same(&self, other: &Self) -> (r: bool) {
        self.vni == other.vni && self.prefix_len == other.prefix_len && eq4(
            &self.ipv4,
            &other.ipv4,
        )
    }

    fn dup(&self) -> (r: Self) {
        *self
    }
}

impl View for RouteKey6 {
    type V = Self;

    open spec fn view(&self) -> Self {
        *self
    }
}

impl Key for RouteKey6 {
    fn same(&self, other: &Self) -> (r: bool) {
        self.vni == other.vni && self.prefix_len == other.prefix_len && eq16(
            &self.ipv6,
            &other.ipv6,
        )
    }

    fn dup(&self) -> (r: Self) {
        *self
    }
}

impl View for LbKey {
    type V = Self;

    open spec fn view(&self) -> Self {
        *self
    }
}

impl Key for LbKey {
    fn same(&self, other: &Self) -> (r: bool) {
        self.vni == other.vni && self.port == other.port && self.proto == other.proto && eq4(
            &self.ipv4,
            &other.ipv4,
        )
    }

    fn dup(&self) -> (r: Self) {
        *self
    }
}

impl View for MaglevKey {
    type V = Self;

    open spec fn view(&self) -> Self {
        *self
    }
}

impl Key for MaglevKey {
    fn same(&self, other: &Self) -> (r: bool) {
        self.table_id == other.table_id && self.slot == other.slot
    }

    fn dup(&self) -> (r: Self) {
        *self
    }
}

impl View for CtKey {
    type V = Self;

    open spec fn view(&self) -> Self {
        *self
    }
}

impl Key for CtKey {
    fn same(&self, other: &Self) -> (r: bool) {
        self.vni == other.vni && self.src_port == other.src_port && self.dst_port == other.dst_port
            && self.proto == other.proto && eq4(&self.src_ip, &other.src_ip) && eq4(
            &self.dst_ip,
            &other.dst_ip,
        )
    }

    fn dup(&self) -> (r: Self) {
        *self
    }
}

impl View for NatFlow {
    type V = Self;

    open spec fn view(&self) -> Self {
        *self
    }
}

impl Key for NatFlow {
    fn same(&self, other: &Self) -> (r: bool) {
        self.src_port == other.src_port && self.dst_port == other.dst_port && self.proto
            == other.proto && eq4(&self.src_ip, &other.src_ip) && eq4(&self.dst_ip, &other.dst_ip)
    }

    fn dup(&self) -> (r: Self) {
        *self
    }
}

impl View for FwRuleKey {
    type V = Self;

    open spec fn view(&self) -> Self {
        *self
    }
}

impl Key for FwRuleKey {
    fn same(&self, other: &Self) -> (r: bool) {
        self.ifindex == other.ifindex && self.idx == other.idx
    }

    fn dup(&self) -> (r: Self) {
        *self
    }
}

} // verus!
