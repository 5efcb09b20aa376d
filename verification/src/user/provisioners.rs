//! The set of staked validators, kept in the canonical order of their keys.

use vstd::prelude::*;
use crate::bls::PublicKey;
use crate::num::{be_value, lemma_be_value_injective};

verus! {

/// What a validator has at stake, and from which round on it counts.
#[derive(Clone, Copy, Debug, PartialEq, Eq, Structural)]
pub struct Stake {
    pub value: u64,
    pub eligibility: u64,
}

impl Stake {
    pub fn new(value: u64, eligibility: u64) -> (s: Stake)
        ensures
            s.value == value,
            s.eligibility == eligibility,
    {
        Stake { value, eligibility }
    }

    /// A stake takes part in the sortition of a round from its eligibility
    /// height on.
    pub open spec fn spec_is_eligible(self, round: u64) -> bool {
        self.eligibility <= round
    }

    pub fn is_eligible(&self, round: u64) -> (e: bool)
        ensures
            e == self.spec_is_eligible(round),
    {
        self.eligibility <= round
    }
}

/// The validator set as contracts see it: key bytes and stakes in order.
pub type Members = Seq<(Seq<u8>, Stake)>;

/// Strictly increasing by the value of the key bytes: canonical order, and
/// no key twice.
pub open spec fn sorted(v: Members) -> bool {
    forall|i: int, j: int| 0 <= i < j < v.len() ==> be_value(v[i].0) < be_value(v[j].0)
}

/// Every key has the length of a public key.
pub open spec fn keys_sized(v: Members) -> bool {
    forall|i: int| 0 <= i < v.len() ==> (#[trigger] v[i]).0.len() == 96
}

/// Whether `key` is a member.
pub open spec fn contains_key(v: Members, key: Seq<u8>) -> bool {
    exists|i: int| 0 <= i < v.len() && (#[trigger] v[i]).0 == key
}

/// Where `key` stands in `v`; meaningful when it is a member.
pub open spec fn index_of(v: Members, key: Seq<u8>) -> int {
    choose|i: int| 0 <= i < v.len() && (#[trigger] v[i]).0 == key
}

/// Where `key` would be inserted: the number of members that come before it.
pub open spec fn rank_in(v: Members, key: Seq<u8>) -> int
    decreases v.len(),
{
    if v.len() == 0 {
        0
    } else if be_value(v.last().0) < be_value(key) {
        v.len() as int
    } else {
        rank_in(v.drop_last(), key)
    }
}

/// In a sorted set a key occurs at one place only.
pub proof fn lemma_index_unique(v: Members, key: Seq<u8>, i: int)
    requires
        sorted(v),
        0 <= i < v.len(),
        v[i].0 == key,
    ensures
        contains_key(v, key),
        index_of(v, key) == i,
{
    let j = index_of(v, key);
    if j < i {
        assert(be_value(v[j].0) < be_value(v[i].0));
    } else if i < j {
        assert(be_value(v[i].0) < be_value(v[j].0));
    }
}

/// In a sorted set, the members before the place `i` are those that come
/// before `key` if the member at `i` does not.
pub proof fn lemma_rank_in(v: Members, key: Seq<u8>, i: int)
    requires
        sorted(v),
        0 <= i <= v.len(),
        forall|j: int| 0 <= j < i ==> be_value(v[j].0) < be_value(key),
        i < v.len() ==> be_value(v[i].0) >= be_value(key),
    ensures
        rank_in(v, key) == i,
    decreases v.len(),
{
    if v.len() > 0 {
        if i == v.len() {
        } else {
            let l = v.len() - 1;
            assert(be_value(v[l].0) >= be_value(v[i].0)) by {
                if i < l {
                }
            }
            let front = v.drop_last();
            assert(sorted(front)) by {
                assert forall|a: int, b: int| 0 <= a < b < front.len() implies be_value(
                    front[a].0,
                ) < be_value(front[b].0) by {
                    assert(front[a] == v[a] && front[b] == v[b]);
                }
            }
            lemma_rank_in(front, key, i);
        }
    }
}

/// Whether the two sets hold the same validators with the same stakes.
pub open spec fn same_members(a: Members, b: Members) -> bool {
    forall|m: (Seq<u8>, Stake)| #[trigger] a.contains(m) <==> b.contains(m)
}

proof fn lemma_first_is_least(a: Members, b: Members)
    requires
        sorted(a),
        sorted(b),
        same_members(a, b),
        a.len() > 0,
    ensures
        b.len() > 0,
        be_value(b[0].0) <= be_value(a[0].0),
{
    assert(a.contains(a[0]));
    assert(b.contains(a[0]));
    let j = choose|j: int| 0 <= j < b.len() && b[j] == a[0];
    if j > 0 {
        assert(be_value(b[0].0) < be_value(b[j].0));
    }
}

/// A validator set is fixed by who is in it and with what stake: the order
/// in which the validators came does not show.
pub proof fn law_canonical_order(a: Members, b: Members)
    requires
        sorted(a),
        sorted(b),
        keys_sized(a),
        keys_sized(b),
        same_members(a, b),
    ensures
        a == b,
    decreases a.len(),
{
    if a.len() == 0 {
        if b.len() > 0 {
            assert(b.contains(b[0]));
            assert(a.contains(b[0]));
        }
        assert(a =~= b);
    } else {
        lemma_first_is_least(a, b);
        lemma_first_is_least(b, a);
        // the two first members have the same key, so they are one member
        lemma_be_value_injective(a[0].0, b[0].0);
        assert(a.contains(a[0]));
        assert(b.contains(a[0]));
        let j = choose|j: int| 0 <= j < b.len() && b[j] == a[0];
        if j > 0 {
            assert(be_value(b[0].0) < be_value(b[j].0));
        }
        assert(a[0] == b[0]);
        let ta = a.skip(1);
        let tb = b.skip(1);
        assert(sorted(ta)) by {
            assert forall|i: int, k: int| 0 <= i < k < ta.len() implies be_value(ta[i].0)
                < be_value(ta[k].0) by {
                assert(ta[i] == a[i + 1] && ta[k] == a[k + 1]);
            }
        }
        assert(sorted(tb)) by {
            assert forall|i: int, k: int| 0 <= i < k < tb.len() implies be_value(tb[i].0)
                < be_value(tb[k].0) by {
                assert(tb[i] == b[i + 1] && tb[k] == b[k + 1]);
            }
        }
        assert(keys_sized(ta)) by {
            assert forall|i: int| 0 <= i < ta.len() implies (#[trigger] ta[i]).0.len() == 96 by {
                assert(ta[i] == a[i + 1]);
            }
        }
        assert(keys_sized(tb)) by {
            assert forall|i: int| 0 <= i < tb.len() implies (#[trigger] tb[i]).0.len() == 96 by {
                assert(tb[i] == b[i + 1]);
            }
        }
        assert(same_members(ta, tb)) by {
            assert forall|m: (Seq<u8>, Stake)| #[trigger] ta.contains(m) <==> tb.contains(m) by {
                if ta.contains(m) {
                    let i = choose|i: int| 0 <= i < ta.len() && ta[i] == m;
                    assert(a[i + 1] == m);
                    assert(a.contains(m));
                    assert(b.contains(m));
                    let k = choose|k: int| 0 <= k < b.len() && b[k] == m;
                    assert(be_value(a[0].0) < be_value(a[i + 1].0));
                    assert(k != 0);
                    assert(tb[k - 1] == m);
                }
                if tb.contains(m) {
                    let i = choose|i: int| 0 <= i < tb.len() && tb[i] == m;
                    assert(b[i + 1] == m);
                    assert(b.contains(m));
                    assert(a.contains(m));
                    let k = choose|k: int| 0 <= k < a.len() && a[k] == m;
                    assert(be_value(b[0].0) < be_value(b[i + 1].0));
                    assert(k != 0);
                    assert(ta[k - 1] == m);
                }
            }
        }
        law_canonical_order(ta, tb);
        assert(a =~= seq![a[0]] + ta);
        assert(b =~= seq![b[0]] + tb);
    }
}

/// The validator set.
#[derive(Debug, PartialEq, Eq)]
pub struct Provisioners {
    members: Vec<(PublicKey, Stake)>,
}

pub open spec fn members_view(l: Seq<(PublicKey, Stake)>) -> Members {
    Seq::new(l.len(), |i: int| (l[i].0@, l[i].1))
}

impl View for Provisioners {
    type V = Members;

    closed spec fn view(&self) -> Members {
        members_view(self.members@)
    }
}

impl Clone for Provisioners {
    fn clone(&self) -> (out: Self)
        ensures
            out@ == self@,
    {
        proof {
            use_type_invariant(self);
        }
        let mut members: Vec<(PublicKey, Stake)> = Vec::new();
        let mut i: usize = 0;
        while i < self.members.len()
            invariant
                i <= self.members@.len(),
                members@ == self.members@.take(i as int),
            decreases self.members@.len() - i,
        {
            members.push(self.members[i]);
            assert(members@ =~= self.members@.take(i + 1));
            i = i + 1;
        }
        assert(members@ =~= self.members@);
        Provisioners { members }
    }
}

impl Provisioners {
    /// What holds of every validator set that code can hold: canonical
    /// order, and so no key twice.
    pub open spec fn wf(&self) -> bool {
        sorted(self@)
    }

    #[verifier::type_invariant]
    spec fn inv(&self) -> bool {
        self.wf()
    }

    /// Every key of a validator set has 96 bytes.
    pub proof fn lemma_keys_sized(&self)
        ensures
            keys_sized(self@),
    {
        assert forall|i: int| 0 <= i < self@.len() implies (#[trigger] self@[i]).0.len() == 96 by {
            self.members@[i].0.lemma_len();
        }
    }

    /// The empty set.
    pub fn empty() -> (p: Provisioners)
        ensures
            p@ == Seq::<(Seq<u8>, Stake)>::empty(),
    {
        let p = Provisioners { members: Vec::new() };
        assert(p@ =~= Seq::<(Seq<u8>, Stake)>::empty());
        p
    }

    pub fn len(&self) -> (n: usize)
        ensures
            n == self@.len(),
    {
        self.members.len()
    }

    /// The key and the stake at place `i` of the canonical order.
    pub fn member_at(&self, i: usize) -> (m: (PublicKey, Stake))
        requires
            i < self@.len(),
        ensures
            m.0@ == self@[i as int].0,
            m.1 == self@[i as int].1,
    {
        self.members[i]
    }

    /// The place of the first member that does not come before `key`.
    fn lower_bound(&self, key: &PublicKey) -> (i: usize)
        ensures
            i <= self@.len(),
            i == rank_in(self@, key@),
            forall|j: int| 0 <= j < i ==> be_value(#[trigger] self@[j].0) < be_value(key@),
            i < self@.len() ==> be_value(self@[i as int].0) >= be_value(key@),
            i < self@.len() && self@[i as int].0 == key@ <==> contains_key(self@, key@),
            contains_key(self@, key@) ==> index_of(self@, key@) == i,
    {
        proof {
            use_type_invariant(self);
            self.lemma_keys_sized();
        }
        let mut i: usize = 0;
        while i < self.members.len() && self.members[i].0.before(key)
            invariant
                i <= self.members@.len(),
                forall|j: int| 0 <= j < i ==> be_value(self@[j].0) < be_value(key@),
            decreases self.members@.len() - i,
        {
            i = i + 1;
        }
        proof {
            let v = self@;
            lemma_rank_in(v, key@, i as int);
            if i < v.len() && v[i as int].0 == key@ {
                lemma_index_unique(v, key@, i as int);
            }
            if contains_key(v, key@) {
                let j = index_of(v, key@);
                if j < i {
                    assert(be_value(v[j].0) < be_value(key@));
                } else if j > i {
                    assert(be_value(v[i as int].0) < be_value(v[j].0));
                }
            }
        }
        i
    }

    /// The stake of `key`, if it is a member.
    pub fn get_stake(&self, key: &PublicKey) -> (s: Option<Stake>)
        ensures
            s is Some <==> contains_key(self@, key@),
            s matches Some(st) ==> st == self@[index_of(self@, key@)].1,
    {
        let i = self.lower_bound(key);
        if i < self.members.len() && self.members[i].0.same(key) {
            Some(self.members[i].1)
        } else {
            None
        }
    }

    /// Gives `key` the stake `stake`, whether it was a member or not, and
    /// hands back the stake it had.
    pub fn replace_stake(&mut self, key: PublicKey, stake: Stake) -> (old_stake: Option<Stake>)
        ensures
            old_stake is Some <==> contains_key(old(self)@, key@),
            old_stake matches Some(st) ==> st == old(self)@[index_of(old(self)@, key@)].1
                && final(self)@ == old(self)@.update(index_of(old(self)@, key@), (key@, stake)),
            old_stake is None ==> final(self)@ == old(self)@.insert(
                rank_in(old(self)@, key@),
                (key@, stake),
            ),
    {
        proof {
            use_type_invariant(&*self);
            self.lemma_keys_sized();
            key.lemma_len();
        }
        let i = self.lower_bound(&key);
        let ghost before = self@;
        if i < self.members.len() && self.members[i].0.same(&key) {
            let old_stake = self.members[i].1;
            let mut members: Vec<(PublicKey, Stake)> = Vec::new();
            std::mem::swap(&mut members, &mut self.members);
            members.set(i, (key, stake));
            proof {
                assert(members_view(members@) =~= before.update(i as int, (key@, stake)));
                let after = members_view(members@);
                assert forall|a: int, b: int| 0 <= a < b < after.len() implies be_value(
                    after[a].0,
                ) < be_value(after[b].0) by {
                    assert(after[a].0 == before[a].0);
                    assert(after[b].0 == before[b].0);
                }
            }
            self.members = members;
            Some(old_stake)
        } else {
            let mut members: Vec<(PublicKey, Stake)> = Vec::new();
            std::mem::swap(&mut members, &mut self.members);
            members.insert(i, (key, stake));
            proof {
                let after = members_view(members@);
                assert(after =~= before.insert(i as int, (key@, stake)));
                if i < before.len() {
                    if be_value(before[i as int].0) == be_value(key@) {
                        lemma_be_value_injective(before[i as int].0, key@);
                    }
                }
                assert forall|a: int, b: int| 0 <= a < b < after.len() implies be_value(
                    after[a].0,
                ) < be_value(after[b].0) by {
                    if a < i && b > i {
                        assert(after[a] == before[a] && after[b] == before[b - 1]);
                        assert(be_value(before[a].0) < be_value(before[b - 1].0));
                    } else if a < i && b < i {
                        assert(after[a] == before[a] && after[b] == before[b]);
                    } else if a > i {
                        assert(after[a] == before[a - 1] && after[b] == before[b - 1]);
                    } else if a == i {
                        assert(after[b] == before[b - 1]);
                        if (i as int) < b - 1 {
                            assert(be_value(before[i as int].0) < be_value(before[b - 1].0));
                        }
                    } else {
                        assert(after[a] == before[a]);
                        assert(be_value(before[a].0) < be_value(key@));
                    }
                }
            }
            self.members = members;
            None
        }
    }

    /// Takes `key` out of the set and hands back the stake it had.
    pub fn remove_stake(&mut self, key: &PublicKey) -> (old_stake: Option<Stake>)
        ensures
            old_stake is Some <==> contains_key(old(self)@, key@),
            old_stake matches Some(st) ==> st == old(self)@[index_of(old(self)@, key@)].1
                && final(self)@ == old(self)@.remove(index_of(old(self)@, key@)),
            old_stake is None ==> final(self)@ == old(self)@,
    {
        proof {
            use_type_invariant(&*self);
        }
        let i = self.lower_bound(key);
        let ghost before = self@;
        if i < self.members.len() && self.members[i].0.same(key) {
            let mut members: Vec<(PublicKey, Stake)> = Vec::new();
            std::mem::swap(&mut members, &mut self.members);
            let removed = members.remove(i);
            proof {
                let after = members_view(members@);
                assert(after =~= before.remove(i as int));
                assert forall|a: int, b: int| 0 <= a < b < after.len() implies be_value(
                    after[a].0,
                ) < be_value(after[b].0) by {
                    let a0 = if a < i { a } else { a + 1 };
                    let b0 = if b < i { b } else { b + 1 };
                    assert(after[a] == before[a0] && after[b] == before[b0]);
                }
            }
            self.members = members;
            Some(removed.1)
        } else {
            None
        }
    }
}

/// What a change does to a validator set: a key with a stake is given that
/// stake, a key without one leaves the set.
pub open spec fn spec_apply_change(m: Members, key: Seq<u8>, stake: Option<Stake>) -> Members {
    match stake {
        Some(st) => if contains_key(m, key) {
            m.update(index_of(m, key), (key, st))
        } else {
            m.insert(rank_in(m, key), (key, st))
        },
        None => if contains_key(m, key) {
            m.remove(index_of(m, key))
        } else {
            m
        },
    }
}

/// The changes as contracts see them.
pub open spec fn changes_view(l: Seq<(PublicKey, Option<Stake>)>) -> Seq<(Seq<u8>, Option<Stake>)> {
    Seq::new(l.len(), |i: int| (l[i].0@, l[i].1))
}

/// The validator set after the first `k` changes, applied in order.
pub open spec fn spec_apply_changes(m: Members, changes: Seq<(Seq<u8>, Option<Stake>)>, k: int)
    -> Members
    decreases k,
{
    if k <= 0 {
        m
    } else {
        spec_apply_change(
            spec_apply_changes(m, changes, k - 1),
            changes[k - 1].0,
            changes[k - 1].1,
        )
    }
}

/// The validator set of the round that is running and, where it differs,
/// the one of the round before.
#[derive(Debug)]
pub struct ContextProvisioners {
    current: Provisioners,
    prev: Option<Provisioners>,
}

impl Clone for ContextProvisioners {
    fn clone(&self) -> (out: Self)
        ensures
            out.spec_current() == self.spec_current(),
            out.spec_kept_prev() == self.spec_kept_prev(),
    {
        ContextProvisioners {
            current: self.current.clone(),
            prev: match &self.prev {
                Some(p) => Some(p.clone()),
                None => None,
            },
        }
    }
}

impl ContextProvisioners {
    pub closed spec fn spec_current(&self) -> Members {
        self.current@
    }

    /// The set of the round before, where it is kept apart.
    pub closed spec fn spec_kept_prev(&self) -> Option<Members> {
        match self.prev {
            Some(p) => Some(p@),
            None => None,
        }
    }

    /// The set of the round before: the one kept apart, else the current.
    pub open spec fn spec_prev(&self) -> Members {
        match self.spec_kept_prev() {
            Some(p) => p,
            None => self.spec_current(),
        }
    }

    pub fn new(current: Provisioners) -> (c: ContextProvisioners)
        ensures
            c.spec_current() == current@,
            c.spec_kept_prev().is_none(),
    {
        ContextProvisioners { current, prev: None }
    }

    pub fn current(&self) -> (p: &Provisioners)
        ensures
            p@ == self.spec_current(),
    {
        &self.current
    }

    pub fn prev(&self) -> (p: &Provisioners)
        ensures
            p@ == self.spec_prev(),
    {
        match &self.prev {
            Some(p) => p,
            None => &self.current,
        }
    }

    /// Forgets the set of the round before: it is the current one.
    pub fn remove_previous(&mut self)
        ensures
            final(self).spec_current() == old(self).spec_current(),
            final(self).spec_kept_prev().is_none(),
    {
        self.prev = None;
    }

    /// Replaces the current set and keeps nothing of the old one.
    pub fn update(&mut self, current: Provisioners)
        ensures
            final(self).spec_current() == current@,
            final(self).spec_kept_prev() == old(self).spec_kept_prev(),
    {
        self.current = current;
    }

    /// Makes `new` the current set and the set that was current the one of
    /// the round before.
    pub fn update_and_swap(&mut self, new: Provisioners)
        ensures
            final(self).spec_current() == new@,
            final(self).spec_kept_prev() == Some(old(self).spec_current()),
    {
        let mut new = new;
        std::mem::swap(&mut self.current, &mut new);
        self.prev = Some(new);
    }

    /// Derives the set of the round before from the current one: each change
    /// says what a key had before. Without changes the two are the same.
    pub fn apply_changes(&mut self, changes: Vec<(PublicKey, Option<Stake>)>)
        ensures
            final(self).spec_current() == old(self).spec_current(),
            final(self).spec_kept_prev() == (if changes@.len() == 0 {
                None
            } else {
                Some(
                    spec_apply_changes(
                        old(self).spec_current(),
                        changes_view(changes@),
                        changes@.len() as int,
                    ),
                )
            }),
    {
        if changes.len() == 0 {
            self.prev = None;
            return ;
        }
        let mut prev = self.current.clone();
        let ghost m0 = self.current@;
        let ghost cv = changes_view(changes@);
        let mut i: usize = 0;
        while i < changes.len()
            invariant
                i <= changes@.len(),
                cv == changes_view(changes@),
                prev@ == spec_apply_changes(m0, cv, i as int),
            decreases changes@.len() - i,
        {
            let (key, stake) = changes[i];
            match stake {
                None => {
                    let _ = prev.remove_stake(&key);
                },
                Some(st) => {
                    let _ = prev.replace_stake(key, st);
                },
            }
            i = i + 1;
        }
        self.prev = Some(prev);
    }
}

} // verus!
