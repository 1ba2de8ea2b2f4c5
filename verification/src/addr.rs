//! What a resolver answers: socket addresses in levels of priority, each
//! address with a weight.
//!
//! Level 0 holds the addresses to try first. Within a level an address is
//! picked at random, in proportion to its weight; where all weights of the
//! level are zero every address has the same chance.
use vstd::prelude::*;
use std::sync::Arc;
use crate::net::{AddrParseError, IpAddr, SocketAddr};
use crate::net::parse_socket_addr;
use crate::random;
use crate::text::share;

verus! {

/// The share of an address in the picks from its level.
pub type Weight = u64;

/// One level as a sequence: the entries in the order in which they were
/// given.
pub type Entries = Seq<(Weight, SocketAddr)>;

/// The addresses of the entries, weights left out.
pub open spec fn addresses_of(s: Entries) -> Seq<SocketAddr> {
    Seq::new(s.len(), |i: int| s[i].1)
}

/// All weights of the level added up.
pub open spec fn total_weight(s: Entries) -> nat
    decreases s.len(),
{
    if s.len() == 0 {
        0
    } else {
        total_weight(s.drop_last()) + s.last().0 as nat
    }
}

/// The address on which the number `n` falls when the entries are laid end
/// to end, each as long as its weight: the entries are walked in order, the
/// weight of each one passed is taken off `n`, and the first entry whose
/// weight is above what is left is the one. Nothing where `n` is not below
/// the total weight.
pub open spec fn weighted_pick(s: Entries, n: nat) -> Option<SocketAddr>
    decreases s.len(),
{
    if s.len() == 0 {
        None
    } else if n < s[0].0 {
        Some(s[0].1)
    } else {
        weighted_pick(s.drop_first(), (n - s[0].0) as nat)
    }
}

/// The addresses of `s` that do not occur in `o`, each once, in the order in
/// which `s` first holds them.
pub open spec fn missing_from(s: Seq<SocketAddr>, o: Seq<SocketAddr>) -> Seq<SocketAddr>
    decreases s.len(),
{
    if s.len() == 0 {
        Seq::empty()
    } else {
        let before = missing_from(s.drop_last(), o);
        if o.contains(s.last()) || before.contains(s.last()) {
            before
        } else {
            before.push(s.last())
        }
    }
}

/// `acc` followed by the addresses of `s` that `acc` does not hold, each
/// once, in the order in which `s` first holds them.
pub open spec fn extended(acc: Seq<SocketAddr>, s: Seq<SocketAddr>) -> Seq<SocketAddr>
    decreases s.len(),
{
    if s.len() == 0 {
        acc
    } else {
        let before = extended(acc, s.drop_last());
        if before.contains(s.last()) {
            before
        } else {
            before.push(s.last())
        }
    }
}

/// The addresses of `s`, each once, in the order in which `s` first holds
/// them.
pub open spec fn distinct(s: Seq<SocketAddr>) -> Seq<SocketAddr> {
    extended(Seq::empty(), s)
}

/// The first levels of `addrs`, as addresses: what a union is made of.
pub open spec fn first_levels(addrs: Seq<Seq<Entries>>) -> Seq<Seq<SocketAddr>> {
    Seq::new(addrs.len(), |i: int| addresses_of(level_at(addrs[i], 0)))
}

/// The union of `addrs`: one level that holds, with weight 0, each address
/// of their first levels once, in the order in which they first hold it.
pub open spec fn union_of(addrs: Seq<Seq<Entries>>) -> Seq<Entries> {
    seq![unweighted(distinct(chained(first_levels(addrs))))]
}

/// The sequences of `ls` one after the other.
pub open spec fn chained(ls: Seq<Seq<SocketAddr>>) -> Seq<SocketAddr>
    decreases ls.len(),
{
    if ls.len() == 0 {
        Seq::empty()
    } else {
        chained(ls.drop_last()) + ls.last()
    }
}

/// The level that holds each of `addrs` with weight 0.
pub open spec fn unweighted(addrs: Seq<SocketAddr>) -> Entries {
    Seq::new(addrs.len(), |i: int| (0u64, addrs[i]))
}

/// The levels of `ls` that hold something, in their order.
pub open spec fn nonempty_levels(ls: Seq<Entries>) -> Seq<Entries>
    decreases ls.len(),
{
    if ls.len() == 0 {
        Seq::empty()
    } else if ls.last().len() == 0 {
        nonempty_levels(ls.drop_last())
    } else {
        nonempty_levels(ls.drop_last()).push(ls.last())
    }
}

/// Level `priority` of `ls`; an empty level where there is none.
pub open spec fn level_at(ls: Seq<Entries>, priority: int) -> Entries {
    if 0 <= priority < ls.len() {
        ls[priority]
    } else {
        Seq::empty()
    }
}

/// Whether two levels hold the same entries, each as often in the one as in
/// the other, in whatever order.
pub open spec fn same_entries(a: Entries, b: Entries) -> bool {
    a.to_multiset() =~= b.to_multiset()
}

/// Whether two addresses have as many levels, and level by level the same
/// entries.
pub open spec fn same_levels(a: Seq<Entries>, b: Seq<Entries>) -> bool {
    &&& a.len() == b.len()
    &&& forall|i: int| 0 <= i < a.len() ==> same_entries(#[trigger] a[i], b[i])
}

/// The levels held by nested vectors.
pub open spec fn levels_of(v: Seq<Vec<(Weight, SocketAddr)>>) -> Seq<Entries> {
    Seq::new(v.len(), |i: int| v[i]@)
}

/// The addresses that a name resolved to.
///
/// It is made by a [`Builder`] or from plain addresses, and never changes
/// afterwards. A clone shares the levels with the address it came from.
#[derive(Debug)]
pub struct Address {
    levels: Arc<Vec<Vec<(Weight, SocketAddr)>>>,
}

impl View for Address {
    type V = Seq<Entries>;

    closed spec fn view(&self) -> Seq<Entries> {
        levels_of((*self.levels)@)
    }
}

/// Collects the levels of an [`Address`], highest priority first.
#[derive(Debug)]
pub struct Builder {
    addresses: Vec<Vec<(Weight, SocketAddr)>>,
}

impl View for Builder {
    type V = Seq<Entries>;

    closed spec fn view(&self) -> Seq<Entries> {
        levels_of(self.addresses@)
    }
}

/// The addresses of one level of priority.
#[derive(Debug, Clone, Copy)]
pub struct WeightedSet<'a> {
    addresses: &'a [(Weight, SocketAddr)],
}

impl<'a> View for WeightedSet<'a> {
    type V = Entries;

    closed spec fn view(&self) -> Entries {
        self.addresses@
    }
}

impl Builder {
    /// A builder that holds no level yet.
    pub fn new() -> (r: Builder)
        ensures
            r@ == Seq::<Entries>::empty(),
    {
        let r = Builder { addresses: Vec::new() };
        proof {
            assert(r@ =~= Seq::<Entries>::empty());
        }
        r
    }

    /// Adds the addresses of one priority, all of them in one call: the next
    /// call adds the level below.
    pub fn add_addresses(&mut self, items: &[(Weight, SocketAddr)]) -> (r: &mut Builder)
        ensures
            r@ == old(self)@.push(items@),
            *final(self) == *final(r),
    {
        let level = vstd::slice::slice_to_vec(items);
        self.addresses.push(level);
        proof {
            assert(self@ =~= old(self)@.push(items@));
        }
        self
    }

    /// The address made of the levels that hold something; empty levels are
    /// left out, and the levels below them move up.
    pub fn into_address(self) -> (r: Address)
        ensures
            r@ == nonempty_levels(self@),
    {
        let mut kept: Vec<Vec<(Weight, SocketAddr)>> = Vec::new();
        let mut i: usize = 0;
        let ghost all = self@;
        while i < self.addresses.len()
            invariant
                i <= self.addresses.len(),
                all == levels_of(self.addresses@),
                levels_of(kept@) == nonempty_levels(all.take(i as int)),
            decreases self.addresses.len() - i,
        {
            proof {
                assert(all.take(i + 1).drop_last() =~= all.take(i as int));
                assert(all.take(i + 1).last() == self.addresses@[i as int]@);
            }
            if self.addresses[i].len() > 0 {
                let level = vstd::slice::slice_to_vec(self.addresses[i].as_slice());
                proof {
                    assert(level@ =~= self.addresses@[i as int]@);
                    assert(levels_of(kept@.push(level)) =~= levels_of(kept@).push(level@));
                }
                kept.push(level);
            }
            i += 1;
        }
        proof {
            assert(all.take(i as int) =~= all);
        }
        Address { levels: Arc::new(kept) }
    }
}

/// The weights up to an entry add up to no more than all weights.
proof fn lemma_total_weight_take(s: Entries, i: int)
    requires
        0 <= i <= s.len(),
    ensures
        total_weight(s.take(i)) <= total_weight(s),
        i < s.len() ==> total_weight(s.take(i + 1)) == total_weight(s.take(i)) + s[i].0,
    decreases s.len() - i,
{
    if i == s.len() {
        assert(s.take(i) =~= s);
    } else {
        lemma_total_weight_take(s, i + 1);
        assert(s.take(i + 1).drop_last() =~= s.take(i));
        assert(s.take(i + 1).last() == s[i]);
    }
}

/// The total weight, counted from the first entry on.
proof fn lemma_total_weight_first(s: Entries)
    requires
        s.len() > 0,
    ensures
        total_weight(s) == s[0].0 + total_weight(s.drop_first()),
    decreases s.len(),
{
    if s.len() == 1 {
        assert(s.drop_last() =~= Seq::<(Weight, SocketAddr)>::empty());
        assert(s.drop_first() =~= Seq::<(Weight, SocketAddr)>::empty());
        assert(total_weight(s.drop_last()) == 0);
    } else {
        lemma_total_weight_first(s.drop_last());
        assert(s.drop_last().drop_first() =~= s.drop_first().drop_last());
        assert(s.drop_first().last() == s.last());
        assert(s.drop_last()[0] == s[0]);
    }
}

/// A weighted pick never falls through: every number below the total weight
/// falls on an entry, and no other number does. The entry on which `n` falls
/// is the one whose stretch holds `n`: the weights before it add up to at
/// most `n`, and with its own weight to more.
pub proof fn lemma_weighted_pick(s: Entries, n: nat)
    ensures
        weighted_pick(s, n) is Some <==> n < total_weight(s),
        n < total_weight(s) ==> exists|i: int|
            0 <= i < s.len() && total_weight(s.take(i)) <= n < total_weight(s.take(i + 1))
                && weighted_pick(s, n) == Some(#[trigger] s[i].1),
    decreases s.len(),
{
    if s.len() == 0 {
    } else {
        lemma_total_weight_first(s);
        let t = s.drop_first();
        if n < s[0].0 {
            assert(s.take(0) =~= Seq::<(Weight, SocketAddr)>::empty());
            lemma_total_weight_take(s, 0);
            assert(total_weight(s.take(0)) <= n < total_weight(s.take(1)));
        } else {
            let m = (n - s[0].0) as nat;
            lemma_weighted_pick(t, m);
            if n < total_weight(s) {
                let j = choose|j: int|
                    0 <= j < t.len() && total_weight(t.take(j)) <= m < total_weight(t.take(j + 1))
                        && weighted_pick(t, m) == Some(#[trigger] t[j].1);
                assert(s.take(j + 1).drop_first() =~= t.take(j));
                assert(s.take(j + 2).drop_first() =~= t.take(j + 1));
                lemma_total_weight_first(s.take(j + 1));
                lemma_total_weight_first(s.take(j + 2));
                assert(s[j + 1] == t[j]);
                assert(total_weight(s.take(j + 1)) <= n < total_weight(s.take(j + 1 + 1)));
            }
        }
    }
}

/// The stretch of an entry decides: a number that falls into the stretch of
/// entry `i` picks the address of entry `i`. The stretch is as long as the
/// weight, so an entry is picked by as many numbers as its weight says.
pub proof fn lemma_pick_by_stretch(s: Entries, i: int, n: nat)
    requires
        0 <= i < s.len(),
        total_weight(s.take(i)) <= n < total_weight(s.take(i + 1)),
    ensures
        weighted_pick(s, n) == Some(s[i].1),
        total_weight(s.take(i + 1)) - total_weight(s.take(i)) == s[i].0,
    decreases s.len(),
{
    lemma_total_weight_take(s, i);
    let t = s.drop_first();
    if i == 0 {
        assert(s.take(0) =~= Seq::<(Weight, SocketAddr)>::empty());
    } else {
        assert(s.take(i).drop_first() =~= t.take(i - 1));
        assert(s.take(i + 1).drop_first() =~= t.take(i));
        lemma_total_weight_first(s.take(i));
        lemma_total_weight_first(s.take(i + 1));
        assert(s.take(i)[0] == s[0]);
        assert(s.take(i + 1)[0] == s[0]);
        lemma_pick_by_stretch(t, i - 1, (n - s[0].0) as nat);
    }
}

/// What `missing_from` holds: no address twice, and exactly the addresses of
/// `s` that `o` does not hold.
pub proof fn lemma_missing_from(s: Seq<SocketAddr>, o: Seq<SocketAddr>)
    ensures
        missing_from(s, o).no_duplicates(),
        forall|a: SocketAddr| #[trigger]
            missing_from(s, o).contains(a) <==> s.contains(a) && !o.contains(a),
    decreases s.len(),
{
    if s.len() > 0 {
        let t = s.drop_last();
        let before = missing_from(t, o);
        lemma_missing_from(t, o);
        assert forall|a: SocketAddr| #[trigger]
            missing_from(s, o).contains(a) <==> s.contains(a) && !o.contains(a) by {
            if s.contains(a) {
                let k = choose|k: int| 0 <= k < s.len() && s[k] == a;
                if k < s.len() - 1 {
                    assert(t[k] == a);
                }
            }
            if t.contains(a) {
                let k = choose|k: int| 0 <= k < t.len() && t[k] == a;
                assert(s[k] == a);
            }
            assert(s[s.len() - 1] == s.last());
            if before.contains(a) {
                let k = choose|k: int| 0 <= k < before.len() && before[k] == a;
                if !(o.contains(s.last()) || before.contains(s.last())) {
                    assert(before.push(s.last())[k] == a);
                }
            }
            if !(o.contains(s.last()) || before.contains(s.last())) {
                let m = before.push(s.last());
                assert(m[before.len() as int] == s.last());
                if m.contains(a) {
                    let k = choose|k: int| 0 <= k < m.len() && m[k] == a;
                    if k < before.len() {
                        assert(before[k] == a);
                    }
                }
            }
        }
    }
}

/// What `extended` holds: `acc` at its start, and after it, each once,
/// exactly the addresses of `s` that `acc` does not hold.
pub proof fn lemma_extended(acc: Seq<SocketAddr>, s: Seq<SocketAddr>)
    ensures
        extended(acc, s).len() >= acc.len(),
        extended(acc, s).take(acc.len() as int) == acc,
        acc.no_duplicates() ==> extended(acc, s).no_duplicates(),
        forall|a: SocketAddr| #[trigger]
            extended(acc, s).contains(a) <==> acc.contains(a) || s.contains(a),
    decreases s.len(),
{
    if s.len() == 0 {
        assert(acc.take(acc.len() as int) =~= acc);
    } else {
        let t = s.drop_last();
        let before = extended(acc, t);
        lemma_extended(acc, t);
        let e = extended(acc, s);
        assert(e.take(acc.len() as int) =~= before.take(acc.len() as int));
        assert forall|a: SocketAddr| #[trigger]
            e.contains(a) <==> acc.contains(a) || s.contains(a) by {
            if s.contains(a) {
                let k = choose|k: int| 0 <= k < s.len() && s[k] == a;
                if k < s.len() - 1 {
                    assert(t[k] == a);
                }
            }
            if t.contains(a) {
                let k = choose|k: int| 0 <= k < t.len() && t[k] == a;
                assert(s[k] == a);
            }
            assert(s[s.len() - 1] == s.last());
            if before.contains(a) {
                let k = choose|k: int| 0 <= k < before.len() && before[k] == a;
                assert(e[k] == a);
            }
            if !before.contains(s.last()) {
                assert(e[before.len() as int] == s.last());
                if e.contains(a) {
                    let k = choose|k: int| 0 <= k < e.len() && e[k] == a;
                    if k < before.len() {
                        assert(before[k] == a);
                    }
                }
            }
        }
    }
}

/// Extending by two sequences one after the other is extending by the two
/// in a row.
proof fn lemma_extended_chain(acc: Seq<SocketAddr>, a: Seq<SocketAddr>, b: Seq<SocketAddr>)
    ensures
        extended(acc, a + b) == extended(extended(acc, a), b),
    decreases b.len(),
{
    if b.len() == 0 {
        assert(a + b =~= a);
    } else {
        lemma_extended_chain(acc, a, b.drop_last());
        assert((a + b).drop_last() =~= a + b.drop_last());
        assert((a + b).last() == b.last());
    }
}

/// What a chain holds: the addresses of its parts.
pub proof fn lemma_chained(ls: Seq<Seq<SocketAddr>>)
    ensures
        forall|a: SocketAddr| #[trigger]
            chained(ls).contains(a) <==> exists|i: int|
                0 <= i < ls.len() && (#[trigger] ls[i]).contains(a),
    decreases ls.len(),
{
    if ls.len() > 0 {
        let t = ls.drop_last();
        lemma_chained(t);
        let c = chained(ls);
        assert forall|a: SocketAddr| #[trigger]
            c.contains(a) <==> exists|i: int| 0 <= i < ls.len() && (#[trigger] ls[i]).contains(a) by {
            if c.contains(a) {
                let k = choose|k: int| 0 <= k < c.len() && c[k] == a;
                if k < chained(t).len() {
                    assert(chained(t)[k] == a);
                    assert(chained(t).contains(a));
                    let i = choose|i: int| 0 <= i < t.len() && (#[trigger] t[i]).contains(a);
                    assert(ls[i] == t[i]);
                } else {
                    assert(ls.last()[k - chained(t).len()] == a);
                    assert(ls[ls.len() - 1].contains(a));
                }
            }
            if exists|i: int| 0 <= i < ls.len() && (#[trigger] ls[i]).contains(a) {
                let i = choose|i: int| 0 <= i < ls.len() && (#[trigger] ls[i]).contains(a);
                if i < t.len() {
                    assert(t[i] == ls[i]);
                    assert(chained(t).contains(a));
                    let k = choose|k: int| 0 <= k < chained(t).len() && chained(t)[k] == a;
                    assert(c[k] == a);
                } else {
                    let k = choose|k: int| 0 <= k < ls.last().len() && ls.last()[k] == a;
                    assert(c[chained(t).len() + k] == a);
                }
            }
        }
    }
}

/// A union holds one level, in it no address twice, every entry with weight
/// 0, and exactly the addresses that the first level of some input holds.
pub proof fn lemma_union_of(addrs: Seq<Seq<Entries>>)
    ensures
        union_of(addrs).len() == 1,
        addresses_of(union_of(addrs)[0]).no_duplicates(),
        forall|k: int| 0 <= k < union_of(addrs)[0].len() ==> (#[trigger] union_of(addrs)[0][k]).0 == 0,
        forall|a: SocketAddr| #[trigger]
            addresses_of(union_of(addrs)[0]).contains(a) <==> exists|i: int|
                0 <= i < addrs.len() && addresses_of(level_at(#[trigger] addrs[i], 0)).contains(a),
{
    let firsts = first_levels(addrs);
    let all = chained(firsts);
    let d = distinct(all);
    lemma_extended(Seq::empty(), all);
    lemma_chained(firsts);
    assert(addresses_of(unweighted(d)) =~= d);
    assert forall|a: SocketAddr| #[trigger]
        d.contains(a) <==> exists|i: int|
            0 <= i < addrs.len() && addresses_of(level_at(#[trigger] addrs[i], 0)).contains(a) by {
        if d.contains(a) {
            assert(all.contains(a));
            let i = choose|i: int| 0 <= i < firsts.len() && (#[trigger] firsts[i]).contains(a);
            assert(addresses_of(level_at(addrs[i], 0)).contains(a));
        }
        if exists|i: int|
            0 <= i < addrs.len() && addresses_of(level_at(#[trigger] addrs[i], 0)).contains(a) {
            let i = choose|i: int|
                0 <= i < addrs.len() && addresses_of(level_at(#[trigger] addrs[i], 0)).contains(a);
            assert(firsts[i].contains(a));
        }
    }
}

/// Whether one of `entries` has the address `a`.
fn has_address(entries: &[(Weight, SocketAddr)], a: SocketAddr) -> (r: bool)
    ensures
        r == addresses_of(entries@).contains(a),
{
    let mut i: usize = 0;
    while i < entries.len()
        invariant
            i <= entries.len(),
            forall|k: int| 0 <= k < i ==> addresses_of(entries@)[k] != a,
        decreases entries.len() - i,
    {
        if entries[i].1 == a {
            proof {
                assert(addresses_of(entries@)[i as int] == a);
            }
            return true;
        }
        i += 1;
    }
    false
}

/// Whether `addrs` holds `a`.
fn holds(addrs: &Vec<SocketAddr>, a: SocketAddr) -> (r: bool)
    ensures
        r == addrs@.contains(a),
{
    let mut i: usize = 0;
    while i < addrs.len()
        invariant
            i <= addrs.len(),
            forall|k: int| 0 <= k < i ==> addrs@[k] != a,
        decreases addrs.len() - i,
    {
        if addrs[i] == a {
            return true;
        }
        i += 1;
    }
    false
}

/// The addresses of `s` that `o` lacks.
fn missing(s: &[(Weight, SocketAddr)], o: &[(Weight, SocketAddr)]) -> (r: Vec<SocketAddr>)
    ensures
        r@ == missing_from(addresses_of(s@), addresses_of(o@)),
{
    let ghost sa = addresses_of(s@);
    let ghost oa = addresses_of(o@);
    let mut r: Vec<SocketAddr> = Vec::new();
    let mut i: usize = 0;
    proof {
        assert(sa.take(0) =~= Seq::<SocketAddr>::empty());
    }
    while i < s.len()
        invariant
            i <= s.len(),
            sa == addresses_of(s@),
            oa == addresses_of(o@),
            r@ == missing_from(sa.take(i as int), oa),
        decreases s.len() - i,
    {
        let a = s[i].1;
        proof {
            assert(sa.take(i + 1).drop_last() =~= sa.take(i as int));
            assert(sa.take(i + 1).last() == a);
        }
        if !has_address(o, a) && !holds(&r, a) {
            r.push(a);
        }
        i += 1;
    }
    proof {
        assert(sa.take(i as int) =~= sa);
    }
    r
}

/// How often `entries` holds the entry `x`.
fn count(entries: &[(Weight, SocketAddr)], x: (Weight, SocketAddr)) -> (r: usize)
    ensures
        r == entries@.to_multiset().count(x),
{
    let mut r: usize = 0;
    let mut i: usize = 0;
    proof {
        assert(entries@.take(0) =~= Seq::<(Weight, SocketAddr)>::empty());
        entries@.take(0).to_multiset_ensures();
        assert(entries@.take(0).to_multiset().len() == 0);
    }
    while i < entries.len()
        invariant
            i <= entries.len(),
            r <= i,
            r == entries@.take(i as int).to_multiset().count(x),
        decreases entries.len() - i,
    {
        proof {
            assert(entries@.take(i + 1) =~= entries@.take(i as int).push(entries@[i as int]));
            entries@.take(i as int).to_multiset_ensures();
        }
        if entries[i].0 == x.0 && entries[i].1 == x.1 {
            r += 1;
        }
        i += 1;
    }
    proof {
        assert(entries@.take(i as int) =~= entries@);
    }
    r
}

/// Whether `b` holds each entry of `a` as often as `a` does.
fn counts_agree(a: &[(Weight, SocketAddr)], b: &[(Weight, SocketAddr)]) -> (r: bool)
    ensures
        r == forall|k: int|
            0 <= k < a@.len() ==> a@.to_multiset().count(#[trigger] a@[k]) == b@.to_multiset().count(
                a@[k],
            ),
{
    let mut i: usize = 0;
    while i < a.len()
        invariant
            i <= a.len(),
            forall|k: int|
                0 <= k < i ==> a@.to_multiset().count(#[trigger] a@[k]) == b@.to_multiset().count(
                    a@[k],
                ),
        decreases a.len() - i,
    {
        if count(a, a[i]) != count(b, a[i]) {
            return false;
        }
        i += 1;
    }
    true
}

impl<'a> WeightedSet<'a> {
    /// All weights of the level added up, where the sum fits in 64 bits.
    pub fn total_weight(&self) -> (r: Option<u64>)
        ensures
            match r {
                Some(sum) => sum == total_weight(self@),
                None => total_weight(self@) > u64::MAX,
            },
    {
        let mut sum: u64 = 0;
        let mut i: usize = 0;
        proof {
            assert(self@.take(0) =~= Seq::<(Weight, SocketAddr)>::empty());
        }
        while i < self.addresses.len()
            invariant
                i <= self.addresses.len(),
                sum == total_weight(self@.take(i as int)),
            decreases self.addresses.len() - i,
        {
            proof {
                lemma_total_weight_take(self@, i as int);
                lemma_total_weight_take(self@, i + 1);
            }
            match sum.checked_add(self.addresses[i].0) {
                Some(next) => {
                    sum = next;
                },
                None => {
                    return None;
                },
            }
            i += 1;
        }
        proof {
            assert(self@.take(i as int) =~= self@);
        }
        Some(sum)
    }

    /// How many entries the level holds.
    pub fn len(&self) -> (r: usize)
        ensures
            r == self@.len(),
    {
        self.addresses.len()
    }

    /// The address on which the number `n` falls: the pick that a draw of
    /// `n` makes. Nothing where `n` is not below the total weight.
    pub fn pick_at(&self, n: u64) -> (r: Option<SocketAddr>)
        ensures
            r == weighted_pick(self@, n as nat),
    {
        let mut left: u64 = n;
        let mut i: usize = 0;
        proof {
            assert(self@.skip(0) =~= self@);
        }
        while i < self.addresses.len()
            invariant
                i <= self.addresses.len(),
                weighted_pick(self@, n as nat) == weighted_pick(self@.skip(i as int), left as nat),
            decreases self.addresses.len() - i,
        {
            let (w, a) = self.addresses[i];
            proof {
                assert(self@.skip(i as int)[0] == self@[i as int]);
                assert(self@.skip(i as int).drop_first() =~= self@.skip(i + 1));
            }
            if left < w {
                return Some(a);
            }
            left = left - w;
            i += 1;
        }
        None
    }

    /// Picks one address at random, in proportion to the weights; with equal
    /// chance where all weights are zero. Nothing where the level is empty.
    ///
    /// The total weight must fit in 64 bits.
    pub fn pick_one(&self) -> (r: Option<SocketAddr>)
        requires
            total_weight(self@) <= u64::MAX,
        ensures
            self@.len() == 0 ==> r is None,
            self@.len() > 0 ==> r is Some && addresses_of(self@).contains(r->0),
            self@.len() == 1 ==> r == Some(self@[0].1),
            total_weight(self@) > 0 ==> exists|n: nat|
                n < total_weight(self@) && r == #[trigger] weighted_pick(self@, n),
    {
        if self.addresses.len() == 0 {
            return None;
        }
        let total = match self.total_weight() {
            Some(sum) => sum,
            None => 0,
        };
        if total == 0 {
            let one = random::one_of(self.addresses);
            proof {
                let k = choose|k: int| 0 <= k < self@.len() && self@[k] == one->0;
                assert(addresses_of(self@)[k] == (one->0).1);
            }
            return Some(one.unwrap().1);
        }
        let n = random::below(total);
        let r = self.pick_at(n);
        proof {
            lemma_weighted_pick(self@, n as nat);
            let i = choose|i: int|
                0 <= i < self@.len() && total_weight(self@.take(i)) <= n < total_weight(
                    self@.take(i + 1),
                ) && weighted_pick(self@, n as nat) == Some(#[trigger] self@[i].1);
            assert(addresses_of(self@)[i] == self@[i].1);
        }
        r
    }

    /// The walk over the addresses of the level, weights left out.
    pub fn addresses(&self) -> (r: AddressIter<'a>)
        ensures
            r@ == addresses_of(self@),
    {
        let r = AddressIter { entries: self.addresses, next: 0 };
        proof {
            assert(r@ =~= addresses_of(self@));
        }
        r
    }

    /// The addresses that left and the addresses that came, from this level
    /// to `other`: first those that only this level holds, then those that
    /// only `other` holds. Weights play no part, and no address is named
    /// twice.
    pub fn compare_addresses(&self, other: &WeightedSet) -> (r: (Vec<SocketAddr>, Vec<SocketAddr>))
        ensures
            r.0@ == missing_from(addresses_of(self@), addresses_of(other@)),
            r.1@ == missing_from(addresses_of(other@), addresses_of(self@)),
    {
        let old = missing(self.addresses, other.addresses);
        let new = missing(other.addresses, self.addresses);
        (old, new)
    }

    /// Whether the two levels hold the same entries, address and weight,
    /// each as often in the one as in the other; the order plays no part.
    pub fn same_as(&self, other: &WeightedSet) -> (r: bool)
        ensures
            r == same_entries(self@, other@),
    {
        let r = counts_agree(self.addresses, other.addresses) && counts_agree(
            other.addresses,
            self.addresses,
        );
        proof {
            let a = self@;
            let b = other@;
            a.to_multiset_ensures();
            b.to_multiset_ensures();
            if r {
                assert forall|x: (Weight, SocketAddr)|
                    a.to_multiset().count(x) == b.to_multiset().count(x) by {
                    if a.contains(x) {
                        let k = choose|k: int| 0 <= k < a.len() && a[k] == x;
                        assert(a.to_multiset().count(a[k]) == b.to_multiset().count(a[k]));
                    } else if b.contains(x) {
                        let k = choose|k: int| 0 <= k < b.len() && b[k] == x;
                        assert(b.to_multiset().count(b[k]) == a.to_multiset().count(b[k]));
                    }
                }
                assert(a.to_multiset() =~= b.to_multiset());
            }
        }
        r
    }
}

/// A walk over the addresses of one level.
#[derive(Debug)]
pub struct AddressIter<'a> {
    entries: &'a [(Weight, SocketAddr)],
    next: usize,
}

impl<'a> View for AddressIter<'a> {
    type V = Seq<SocketAddr>;

    /// The addresses still to come.
    closed spec fn view(&self) -> Seq<SocketAddr> {
        if self.next <= self.entries@.len() {
            addresses_of(self.entries@).skip(self.next as int)
        } else {
            Seq::empty()
        }
    }
}

impl<'a> AddressIter<'a> {
    /// The next address, if one is left.
    pub fn next(&mut self) -> (r: Option<SocketAddr>)
        ensures
            old(self)@.len() == 0 ==> r is None && final(self)@ == old(self)@,
            old(self)@.len() > 0 ==> r == Some(old(self)@[0]) && final(self)@ == old(self)@.drop_first(),
    {
        if self.next < self.entries.len() {
            let a = self.entries[self.next].1;
            proof {
                assert(addresses_of(self.entries@).skip(self.next as int).drop_first()
                    =~= addresses_of(self.entries@).skip(self.next + 1));
            }
            self.next = self.next + 1;
            Some(a)
        } else {
            None
        }
    }

    /// All addresses still to come, in their order.
    pub fn collect(self) -> (r: Vec<SocketAddr>)
        ensures
            r@ == self@,
    {
        let mut r: Vec<SocketAddr> = Vec::new();
        if self.next >= self.entries.len() {
            proof {
                assert(r@ =~= self@);
            }
            return r;
        }
        let mut i: usize = self.next;
        proof {
            assert(r@ =~= addresses_of(self.entries@).subrange(self.next as int, i as int));
        }
        while i < self.entries.len()
            invariant
                self.next <= i <= self.entries.len(),
                r@ == addresses_of(self.entries@).subrange(self.next as int, i as int),
            decreases self.entries.len() - i,
        {
            r.push(self.entries[i].1);
            proof {
                assert(r@ =~= addresses_of(self.entries@).subrange(self.next as int, i + 1));
            }
            i += 1;
        }
        proof {
            assert(r@ =~= self@);
        }
        r
    }
}

/// What a list of texts says where each is the address of a port; nothing
/// where one of them is not.
pub open spec fn parse_all(items: Seq<&str>) -> Option<Seq<SocketAddr>> {
    if forall|i: int| 0 <= i < items.len() ==> parse_socket_addr((#[trigger] items[i])@) is Some {
        Some(Seq::new(items.len(), |i: int| parse_socket_addr(items[i]@)->0))
    } else {
        None
    }
}

/// The level that holds each of `addrs` with weight 0.
fn unweighted_level(addrs: &[SocketAddr]) -> (r: Vec<(Weight, SocketAddr)>)
    ensures
        r@ == unweighted(addrs@),
{
    let mut r: Vec<(Weight, SocketAddr)> = Vec::new();
    let mut i: usize = 0;
    while i < addrs.len()
        invariant
            i <= addrs.len(),
            r@ == unweighted(addrs@.take(i as int)),
        decreases addrs.len() - i,
    {
        r.push((0, addrs[i]));
        proof {
            assert(r@ =~= unweighted(addrs@.take(i + 1)));
        }
        i += 1;
    }
    proof {
        assert(addrs@.take(i as int) =~= addrs@);
    }
    r
}

/// The address of one level.
fn single_level(level: Vec<(Weight, SocketAddr)>) -> (r: Address)
    ensures
        r@ == seq![level@],
{
    let mut levels: Vec<Vec<(Weight, SocketAddr)>> = Vec::new();
    levels.push(level);
    let r = Address { levels: Arc::new(levels) };
    proof {
        assert(r@ =~= seq![level@]);
    }
    r
}

impl Address {
    /// The address that holds `addrs` in one level, each with weight 0.
    pub fn from_addresses(addrs: &[SocketAddr]) -> (r: Address)
        ensures
            r@ == seq![unweighted(addrs@)],
    {
        single_level(unweighted_level(addrs))
    }

    /// How many levels of priority the address has.
    pub fn len(&self) -> (r: usize)
        ensures
            r == self@.len(),
    {
        self.levels.len()
    }

    /// Picks one address at random from level 0, in proportion to the
    /// weights. The lower levels play no part, whatever becomes of the
    /// addresses of level 0. Nothing where the address is empty.
    ///
    /// The total weight of level 0 must fit in 64 bits.
    pub fn pick_one(&self) -> (r: Option<SocketAddr>)
        requires
            total_weight(level_at(self@, 0)) <= u64::MAX,
        ensures
            level_at(self@, 0).len() == 0 ==> r is None,
            level_at(self@, 0).len() > 0 ==> r is Some && addresses_of(level_at(self@, 0)).contains(
                r->0,
            ),
            level_at(self@, 0).len() == 1 ==> r == Some(level_at(self@, 0)[0].1),
            total_weight(level_at(self@, 0)) > 0 ==> exists|n: nat|
                n < total_weight(level_at(self@, 0)) && r == #[trigger] weighted_pick(
                    level_at(self@, 0),
                    n,
                ),
    {
        self.at(0).pick_one()
    }

    /// The walk over the addresses of level `priority`, which may outlive
    /// the borrow of the address.
    pub fn addresses_at(&self, priority: usize) -> (r: OwnedAddressIter)
        ensures
            r@ == addresses_of(level_at(self@, priority as int)),
    {
        let r = OwnedAddressIter { address: self.clone(), priority, next: 0 };
        proof {
            assert(r@ =~= addresses_of(level_at(self@, priority as int)));
        }
        r
    }

    /// The addresses of level `priority`, 0 being the highest. Where the
    /// address has no such level, an empty set.
    pub fn at(&self, priority: usize) -> (r: WeightedSet<'_>)
        ensures
            r@ == level_at(self@, priority as int),
    {
        if priority < self.levels.len() {
            WeightedSet { addresses: self.levels[priority].as_slice() }
        } else {
            WeightedSet { addresses: &[] }
        }
    }

    /// The walk over the levels, highest priority first.
    pub fn iter(&self) -> (r: PriorityIter<'_>)
        ensures
            r@ == self@,
    {
        let r = PriorityIter { levels: self.levels.as_slice(), next: 0 };
        proof {
            assert(r@ =~= self@);
        }
        r
    }

    /// Reads each of `items` as the address of a port and puts them into one
    /// level, each with weight 0. Fails where one of them is no address.
    pub fn parse_list(items: &[&str]) -> (r: Result<Address, AddrParseError>)
        ensures
            match parse_all(items@) {
                Some(addrs) => r is Ok && r->Ok_0@ == seq![unweighted(addrs)],
                None => r is Err,
            },
    {
        let mut addrs: Vec<SocketAddr> = Vec::new();
        let mut i: usize = 0;
        while i < items.len()
            invariant
                i <= items.len(),
                addrs@.len() == i,
                forall|k: int|
                    0 <= k < i ==> parse_socket_addr((#[trigger] items@[k])@) == Some(addrs@[k]),
            decreases items.len() - i,
        {
            match SocketAddr::parse(items[i]) {
                Ok(a) => {
                    addrs.push(a);
                },
                Err(e) => {
                    return Err(e);
                },
            }
            i += 1;
        }
        proof {
            assert(addrs@ =~= parse_all(items@)->0);
        }
        Ok(Address::from_addresses(addrs.as_slice()))
    }

    /// Whether the two addresses have as many levels and, level by level,
    /// the same entries, in whatever order within a level.
    pub fn same_as(&self, other: &Address) -> (r: bool)
        ensures
            r == same_levels(self@, other@),
    {
        if self.levels.len() != other.levels.len() {
            return false;
        }
        let mut i: usize = 0;
        while i < self.levels.len()
            invariant
                i <= self.levels.len(),
                self.levels.len() == other.levels.len(),
                forall|k: int| 0 <= k < i ==> same_entries(#[trigger] self@[k], other@[k]),
            decreases self.levels.len() - i,
        {
            if !self.at(i).same_as(&other.at(i)) {
                return false;
            }
            i += 1;
        }
        true
    }
}

impl Clone for Address {
    /// One more owner of the same levels.
    fn clone(&self) -> (r: Address)
        ensures
            r@ == self@,
    {
        Address { levels: share(&self.levels) }
    }
}

/// A walk over the levels of an address, highest priority first.
#[derive(Debug)]
pub struct PriorityIter<'a> {
    levels: &'a [Vec<(Weight, SocketAddr)>],
    next: usize,
}

impl<'a> View for PriorityIter<'a> {
    type V = Seq<Entries>;

    /// The levels still to come.
    closed spec fn view(&self) -> Seq<Entries> {
        if self.next <= self.levels@.len() {
            levels_of(self.levels@).skip(self.next as int)
        } else {
            Seq::empty()
        }
    }
}

impl<'a> PriorityIter<'a> {
    /// The next level, if one is left.
    pub fn next(&mut self) -> (r: Option<WeightedSet<'a>>)
        ensures
            old(self)@.len() == 0 ==> r is None && final(self)@ == old(self)@,
            old(self)@.len() > 0 ==> r is Some && r->0@ == old(self)@[0] && final(self)@ == old(
                self,
            )@.drop_first(),
    {
        if self.next < self.levels.len() {
            let set = WeightedSet { addresses: self.levels[self.next].as_slice() };
            proof {
                assert(levels_of(self.levels@).skip(self.next as int).drop_first() =~= levels_of(
                    self.levels@,
                ).skip(self.next + 1));
            }
            self.next = self.next + 1;
            Some(set)
        } else {
            None
        }
    }
}

/// A walk over the addresses of one level that holds on to the address it
/// walks over.
#[derive(Debug)]
pub struct OwnedAddressIter {
    address: Address,
    priority: usize,
    next: usize,
}

impl View for OwnedAddressIter {
    type V = Seq<SocketAddr>;

    /// The addresses still to come.
    closed spec fn view(&self) -> Seq<SocketAddr> {
        let all = addresses_of(level_at(self.address@, self.priority as int));
        if self.next <= all.len() {
            all.skip(self.next as int)
        } else {
            Seq::empty()
        }
    }
}

impl OwnedAddressIter {
    /// The next address, if one is left.
    pub fn next(&mut self) -> (r: Option<SocketAddr>)
        ensures
            old(self)@.len() == 0 ==> r is None && final(self)@ == old(self)@,
            old(self)@.len() > 0 ==> r == Some(old(self)@[0]) && final(self)@ == old(self)@.drop_first(),
    {
        let level = self.address.at(self.priority);
        if self.next < level.len() {
            let a = level.addresses[self.next].1;
            proof {
                let all = addresses_of(level_at(self.address@, self.priority as int));
                assert(all.skip(self.next as int).drop_first() =~= all.skip(self.next + 1));
            }
            self.next = self.next + 1;
            Some(a)
        } else {
            None
        }
    }
}

/// The union of `addresses`: one level that holds every address of their
/// first levels once, in the order in which they first hold it, each with
/// weight 0, which says that all have the same chance. What the lower levels
/// hold is left out.
pub fn union(addresses: &[Address]) -> (r: Address)
    ensures
        r@ == union_of(Seq::new(addresses@.len(), |i: int| addresses@[i]@)),
{
    let ghost addrs = Seq::new(addresses@.len(), |i: int| addresses@[i]@);
    let ghost firsts = first_levels(addrs);
    let mut acc: Vec<SocketAddr> = Vec::new();
    let mut i: usize = 0;
    proof {
        assert(firsts.take(0) =~= Seq::<Seq<SocketAddr>>::empty());
    }
    while i < addresses.len()
        invariant
            i <= addresses.len(),
            addrs == Seq::new(addresses@.len(), |i: int| addresses@[i]@),
            firsts == first_levels(addrs),
            acc@ == distinct(chained(firsts.take(i as int))),
        decreases addresses.len() - i,
    {
        let level = addresses[i].at(0);
        let ghost before = chained(firsts.take(i as int));
        let ghost la = addresses_of(level@);
        proof {
            assert(firsts[i as int] == la);
            assert(firsts.take(i + 1).drop_last() =~= firsts.take(i as int));
            assert(firsts.take(i + 1).last() == la);
            assert(chained(firsts.take(i + 1)) == before + la);
            lemma_extended_chain(Seq::empty(), before, la);
            assert(la.take(0) =~= Seq::<SocketAddr>::empty());
        }
        let mut j: usize = 0;
        while j < level.len()
            invariant
                j <= level@.len(),
                la == addresses_of(level@),
                acc@ == extended(distinct(before), la.take(j as int)),
            decreases level@.len() - j,
        {
            let a = level.addresses[j].1;
            proof {
                assert(la.take(j + 1).drop_last() =~= la.take(j as int));
                assert(la.take(j + 1).last() == a);
            }
            if !holds(&acc, a) {
                acc.push(a);
            }
            j += 1;
        }
        proof {
            assert(la.take(j as int) =~= la);
        }
        i += 1;
    }
    proof {
        assert(firsts.take(i as int) =~= firsts);
    }
    Address::from_addresses(acc.as_slice())
}

impl<'a> PartialEq for WeightedSet<'a> {
    /// Whether the two levels hold the same entries, in whatever order.
    fn eq(&self, other: &WeightedSet<'a>) -> (r: bool)
        ensures
            r == same_entries(self@, other@),
    {
        self.same_as(other)
    }
}

impl<'a> vstd::std_specs::cmp::PartialEqSpecImpl for WeightedSet<'a> {
    open spec fn obeys_eq_spec() -> bool {
        true
    }

    open spec fn eq_spec(&self, other: &WeightedSet<'a>) -> bool {
        same_entries(self@, other@)
    }
}

impl PartialEq for Address {
    /// Whether the two addresses have as many levels and, level by level,
    /// the same entries.
    fn eq(&self, other: &Address) -> (r: bool)
        ensures
            r == same_levels(self@, other@),
    {
        self.same_as(other)
    }
}

impl Eq for Address {

}

impl vstd::std_specs::cmp::PartialEqSpecImpl for Address {
    open spec fn obeys_eq_spec() -> bool {
        true
    }

    open spec fn eq_spec(&self, other: &Address) -> bool {
        same_levels(self@, other@)
    }
}

impl From<SocketAddr> for Address {
    /// The address that holds `addr` alone, with weight 0.
    fn from(addr: SocketAddr) -> (r: Address)
        ensures
            r@ == seq![seq![(0u64, addr)]],
    {
        let mut level: Vec<(Weight, SocketAddr)> = Vec::new();
        level.push((0, addr));
        proof {
            assert(level@ =~= seq![(0u64, addr)]);
        }
        single_level(level)
    }
}

impl vstd::std_specs::convert::FromSpecImpl<SocketAddr> for Address {
    /// No spec function builds the value: what `from` returns is said by
    /// its own `ensures`.
    open spec fn obeys_from_spec() -> bool {
        false
    }

    open spec fn from_spec(addr: SocketAddr) -> Address {
        arbitrary()
    }
}

impl From<(IpAddr, u16)> for Address {
    /// The address that holds the port `pair.1` on the host `pair.0` alone,
    /// with weight 0.
    fn from(pair: (IpAddr, u16)) -> (r: Address)
        ensures
            r@ == seq![seq![(0u64, SocketAddr { ip: pair.0, port: pair.1 })]],
    {
        let mut level: Vec<(Weight, SocketAddr)> = Vec::new();
        level.push((0, SocketAddr::new(pair.0, pair.1)));
        proof {
            assert(level@ =~= seq![(0u64, SocketAddr { ip: pair.0, port: pair.1 })]);
        }
        single_level(level)
    }
}

impl vstd::std_specs::convert::FromSpecImpl<(IpAddr, u16)> for Address {
    /// No spec function builds the value: what `from` returns is said by
    /// its own `ensures`.
    open spec fn obeys_from_spec() -> bool {
        false
    }

    open spec fn from_spec(pair: (IpAddr, u16)) -> Address {
        arbitrary()
    }
}

impl<'a> From<&'a [SocketAddr]> for Address {
    /// The address that holds `addrs` in one level, each with weight 0.
    fn from(addrs: &'a [SocketAddr]) -> (r: Address)
        ensures
            r@ == seq![unweighted(addrs@)],
    {
        Address::from_addresses(addrs)
    }
}

impl<'a> vstd::std_specs::convert::FromSpecImpl<&'a [SocketAddr]> for Address {
    /// No spec function builds the value: what `from` returns is said by
    /// its own `ensures`.
    open spec fn obeys_from_spec() -> bool {
        false
    }

    open spec fn from_spec(addrs: &'a [SocketAddr]) -> Address {
        arbitrary()
    }
}

} // verus!
