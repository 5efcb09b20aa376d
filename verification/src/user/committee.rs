//! Committees: who sits, with how many seats, and what counts as a quorum.

use vstd::prelude::*;
use crate::bls::PublicKey;
use crate::codec::bytes_eq;
use crate::ledger::{PublicKeyBytes, Seed};
use crate::message::StepName;
use crate::user::provisioners::{Members, Provisioners};
use crate::user::sortition::{
    draw, draw_seats, seats_view, Config, ConfigView, PROPOSAL_COMMITTEE_CREDITS,
};

verus! {

/// Members and their seats, in the canonical order of the keys.
pub type Seats = Seq<(Seq<u8>, nat)>;

/// The members among the first `k` that hold at least one seat, each with
/// its seats, in order.
pub open spec fn seated(members: Members, seats: Seq<nat>, k: int) -> Seats
    decreases k,
{
    if k <= 0 {
        Seq::empty()
    } else {
        let rest = seated(members, seats, k - 1);
        if seats[k - 1] > 0 {
            rest.push((members[k - 1].0, seats[k - 1]))
        } else {
            rest
        }
    }
}

/// The sum of the seats.
pub open spec fn seats_total(s: Seats) -> nat
    decreases s.len(),
{
    if s.len() == 0 {
        0
    } else {
        seats_total(s.drop_last()) + s.last().1
    }
}

/// Two thirds of the seats, rounded up, and one more.
pub open spec fn spec_super_majority(credits: nat) -> nat {
    (2 * credits + 2) / 3 + 1
}

/// Half of the seats, rounded down, and one more.
pub open spec fn spec_majority(credits: nat) -> nat {
    credits / 2 + 1
}

pub struct CommitteeView {
    pub members: Seats,
    pub credits: nat,
}

/// The committee that `cfg` draws from the validator set `members`.
pub open spec fn spec_committee(members: Members, cfg: ConfigView) -> CommitteeView {
    CommitteeView {
        members: seated(members, draw(members, cfg), members.len() as int),
        credits: cfg.committee_credits,
    }
}

/// Whether bit `pos` of `bitset` is set. Only the first 64 members of a
/// committee can be named by a bitset.
pub open spec fn bit(bitset: u64, pos: int) -> bool {
    0 <= pos < 64 && (bitset >> (pos as u64)) & 1 == 1
}

/// The members among the first `k` whose bit is set, in order.
pub open spec fn selected(s: Seats, bitset: u64, k: int) -> Seats
    decreases k,
{
    if k <= 0 {
        Seq::empty()
    } else {
        let rest = selected(s, bitset, k - 1);
        if bit(bitset, k - 1) {
            rest.push(s[k - 1])
        } else {
            rest
        }
    }
}

pub proof fn lemma_selected_total(s: Seats, bitset: u64, k: int)
    requires
        0 <= k <= s.len(),
    ensures
        seats_total(selected(s, bitset, k)) <= seats_total(s.take(k)),
    decreases k,
{
    if k > 0 {
        lemma_selected_total(s, bitset, k - 1);
        assert(s.take(k).drop_last() =~= s.take(k - 1));
        let rest = selected(s, bitset, k - 1);
        if bit(bitset, k - 1) {
            assert(rest.push(s[k - 1]).drop_last() =~= rest);
        }
    } else {
        assert(s.take(k) =~= Seq::empty());
    }
}

pub proof fn lemma_selected_none(s: Seats, k: int)
    requires
        0 <= k <= s.len(),
    ensures
        selected(s, 0, k) == Seq::<(Seq<u8>, nat)>::empty(),
    decreases k,
{
    if k > 0 {
        lemma_selected_none(s, k - 1);
        assert forall|pos: int| !bit(0u64, pos) by {
            if 0 <= pos < 64 {
                let p = pos as u64;
                assert((0u64 >> p) & 1 == 0) by (bit_vector);
            }
        }
    }
}

/// Whether `key` holds a seat.
pub open spec fn is_seated(s: Seats, key: Seq<u8>) -> bool {
    exists|i: int| 0 <= i < s.len() && (#[trigger] s[i]).0 == key
}

/// Whether the first member with the key `key` holds `seats` seats.
pub open spec fn first_seat(s: Seats, key: Seq<u8>, seats: nat) -> bool {
    exists|i: int|
        0 <= i < s.len() && (#[trigger] s[i]) == (key, seats) && forall|j: int|
            0 <= j < i ==> (#[trigger] s[j]).0 != key
}

/// The seats that `key` holds: those of the first member with that key, and
/// none if there is no such member.
pub open spec fn spec_seats(s: Seats, key: Seq<u8>) -> nat {
    if is_seated(s, key) {
        s[choose|i: int|
            0 <= i < s.len() && (#[trigger] s[i]).0 == key && forall|j: int|
                0 <= j < i ==> (#[trigger] s[j]).0 != key].1
    } else {
        0
    }
}

pub proof fn lemma_spec_seats(s: Seats, key: Seq<u8>, seats: nat)
    requires
        first_seat(s, key, seats),
    ensures
        is_seated(s, key),
        spec_seats(s, key) == seats,
{
    let i = choose|i: int|
        0 <= i < s.len() && (#[trigger] s[i]) == (key, seats) && forall|j: int|
            0 <= j < i ==> (#[trigger] s[j]).0 != key;
    assert(s[i].0 == key);
    let k = choose|k: int|
        0 <= k < s.len() && (#[trigger] s[k]).0 == key && forall|j: int|
            0 <= j < k ==> (#[trigger] s[j]).0 != key;
    if k < i {
        assert(s[k].0 != key);
    } else if i < k {
        assert(s[i].0 != key);
    }
}

/// A part of a committee: the members that took part in a vote, with their
/// seats, in the canonical order.
#[derive(Debug)]
pub struct Cluster {
    members: Vec<(PublicKey, usize)>,
}

pub open spec fn seats_of(l: Seq<(PublicKey, usize)>) -> Seats {
    Seq::new(l.len(), |i: int| (l[i].0@, l[i].1 as nat))
}

impl View for Cluster {
    type V = Seats;

    closed spec fn view(&self) -> Seats {
        seats_of(self.members@)
    }
}

impl Cluster {
    #[verifier::type_invariant]
    spec fn inv(&self) -> bool {
        seats_total(seats_of(self.members@)) <= u32::MAX
    }

    /// A cluster without members.
    pub fn new() -> (c: Cluster)
        ensures
            c@ == Seq::<(Seq<u8>, nat)>::empty(),
    {
        let c = Cluster { members: Vec::new() };
        assert(seats_of(c.members@) =~= Seq::<(Seq<u8>, nat)>::empty());
        c
    }

    pub fn len(&self) -> (n: usize)
        ensures
            n == self@.len(),
    {
        self.members.len()
    }

    /// The sum of the members' seats.
    pub fn total_occurrences(&self) -> (t: usize)
        ensures
            t == seats_total(self@),
    {
        proof {
            use_type_invariant(self);
        }
        let ghost s = self@;
        let mut t: usize = 0;
        let mut i: usize = 0;
        assert(s.take(0) =~= Seq::empty());
        while i < self.members.len()
            invariant
                i <= self.members@.len(),
                s == seats_of(self.members@),
                seats_total(s) <= u32::MAX,
                t == seats_total(s.take(i as int)),
            decreases self.members@.len() - i,
        {
            proof {
                assert(s.take(i + 1).drop_last() =~= s.take(i as int));
                lemma_total_take_monotone(s, i + 1, s.len() as int);
                assert(s.take(s.len() as int) =~= s);
            }
            t = t + self.members[i].1;
            i = i + 1;
        }
        assert(s.take(i as int) =~= s);
        t
    }

    /// The key bytes of the members, in order.
    pub fn keys(&self) -> (keys: Vec<PublicKeyBytes>)
        ensures
            keys@.len() == self@.len(),
            forall|i: int| 0 <= i < keys@.len() ==> (#[trigger] keys@[i])@ == self@[i].0,
    {
        let mut keys: Vec<PublicKeyBytes> = Vec::new();
        let mut i: usize = 0;
        while i < self.members.len()
            invariant
                i <= self.members@.len(),
                keys@.len() == i,
                forall|j: int|
                    0 <= j < i ==> (#[trigger] keys@[j])@ == seats_of(self.members@)[j].0,
            decreases self.members@.len() - i,
        {
            keys.push(*self.members[i].0.bytes());
            i = i + 1;
        }
        keys
    }
}

pub proof fn lemma_total_take_monotone(s: Seats, a: int, b: int)
    requires
        0 <= a <= b <= s.len(),
    ensures
        seats_total(s.take(a)) <= seats_total(s.take(b)),
    decreases b - a,
{
    if a < b {
        lemma_total_take_monotone(s, a, b - 1);
        assert(s.take(b).drop_last() =~= s.take(b - 1));
    }
}

/// A committee: the members that won seats in a draw, with their seats.
#[derive(Debug)]
pub struct Committee {
    members: Vec<(PublicKey, usize)>,
    credits: u32,
}

impl View for Committee {
    type V = CommitteeView;

    closed spec fn view(&self) -> CommitteeView {
        CommitteeView { members: seats_of(self.members@), credits: self.credits as nat }
    }
}

impl Clone for Committee {
    fn clone(&self) -> (out: Self)
        ensures
            out@ == self@,
    {
        proof {
            use_type_invariant(self);
        }
        let mut members: Vec<(PublicKey, usize)> = Vec::new();
        let mut i: usize = 0;
        while i < self.members.len()
            invariant
                i <= self.members@.len(),
                members@ == self.members@.take(i as int),
            decreases self.members@.len() - i,
        {
            members.push(self.members[i]);
            assert(members@ =~= self.members@.take(i + 1));
            i = i + 1;
        }
        assert(members@ =~= self.members@);
        Committee { members, credits: self.credits }
    }
}

impl Committee {
    /// What holds of every committee that code can hold: it has no more
    /// seats than it was drawn for, and that number fits 32 bits.
    pub open spec fn wf(&self) -> bool {
        seats_total(self@.members) <= self@.credits <= u32::MAX
    }

    #[verifier::type_invariant]
    spec fn inv(&self) -> bool {
        self.wf()
    }

    /// Draws the committee that `cfg` describes from the validator set.
    pub fn new(provisioners: &Provisioners, cfg: &Config) -> (c: Committee)
        ensures
            c@ == spec_committee(provisioners@, cfg@),
            c.wf(),
    {
        let seats = draw_seats(provisioners, cfg);
        let n = provisioners.len();
        let ghost m = provisioners@;
        let ghost sv = seats_view(seats@);
        let mut members: Vec<(PublicKey, usize)> = Vec::new();
        let mut i: usize = 0;
        assert(seats_of(members@) =~= seated(m, sv, 0));
        while i < n
            invariant
                i <= n,
                n == m.len(),
                m == provisioners@,
                seats@.len() == n,
                sv == seats_view(seats@),
                seats_of(members@) == seated(m, sv, i as int),
            decreases n - i,
        {
            let ghost before = members@;
            if seats[i] > 0 {
                let member = provisioners.member_at(i);
                members.push((member.0, seats[i]));
                assert(seats_of(members@) =~= seats_of(before).push((m[i as int].0, sv[i as int])));
            }
            i = i + 1;
        }
        proof {
            crate::user::sortition::lemma_draw_total(m, cfg@);
            lemma_seated_total(m, sv, n as int);
            assert(sv.take(n as int) =~= sv);
            assert(seats_total(seats_of(members@)) <= cfg@.committee_credits);
        }
        Committee { members, credits: cfg.credits() }
    }

    /// The number of members.
    pub fn size(&self) -> (n: usize)
        ensures
            n == self@.members.len(),
    {
        self.members.len()
    }

    /// The key and the seats of the member at place `i` of the canonical
    /// order: the member that bit `i` of a bitset stands for.
    pub fn member_at(&self, i: usize) -> (m: (PublicKeyBytes, usize))
        requires
            i < self@.members.len(),
        ensures
            m.0@ == self@.members[i as int].0,
            m.1 == self@.members[i as int].1,
    {
        (*self.members[i].0.bytes(), self.members[i].1)
    }

    /// The number of seats that the committee was drawn for.
    pub fn credits(&self) -> (c: usize)
        ensures
            c == self@.credits,
    {
        self.credits as usize
    }

    /// The seats of `key`: those of the first member with that key, none if
    /// there is no such member.
    pub fn votes_for(&self, key: &PublicKeyBytes) -> (seats: Option<usize>)
        ensures
            seats is Some <==> is_seated(self@.members, key@),
            seats matches Some(s) ==> first_seat(self@.members, key@, s as nat),
    {
        let ghost sv = self@.members;
        let mut i: usize = 0;
        while i < self.members.len()
            invariant
                i <= self.members@.len(),
                sv == seats_of(self.members@),
                forall|j: int| 0 <= j < i ==> (#[trigger] sv[j]).0 != key@,
            decreases self.members@.len() - i,
        {
            if bytes_eq(self.members[i].0.bytes().0.as_slice(), key.0.as_slice()) {
                assert(sv[i as int].0 == key@);
                assert(sv[i as int].1 == self.members@[i as int].1 as nat);
                return Some(self.members[i].1);
            }
            i = i + 1;
        }
        None
    }

    /// Whether `key` holds a seat.
    pub fn is_member(&self, key: &PublicKeyBytes) -> (m: bool)
        ensures
            m == is_seated(self@.members, key@),
    {
        self.votes_for(key).is_some()
    }

    /// The votes a valid block needs: two thirds of the seats, rounded up,
    /// and one more.
    pub fn super_majority_quorum(&self) -> (q: usize)
        ensures
            q == spec_super_majority(self@.credits),
    {
        let c = self.credits as u64;
        ((2 * c + 2) / 3 + 1) as usize
    }

    /// The votes any other outcome needs: more than half of the seats.
    pub fn majority_quorum(&self) -> (q: usize)
        ensures
            q == spec_majority(self@.credits),
    {
        let c = self.credits as u64;
        (c / 2 + 1) as usize
    }

    /// The members whose bit is set in `bitset`, bit `i` standing for the
    /// member at place `i` of the canonical order.
    pub fn intersect(&self, bitset: u64) -> (c: Cluster)
        ensures
            c@ == selected(self@.members, bitset, self@.members.len() as int),
    {
        proof {
            use_type_invariant(self);
        }
        let ghost s = self@.members;
        let mut members: Vec<(PublicKey, usize)> = Vec::new();
        let mut i: usize = 0;
        assert(seats_of(members@) =~= selected(s, bitset, 0));
        while i < self.members.len()
            invariant
                i <= self.members@.len(),
                s == seats_of(self.members@),
                seats_of(members@) == selected(s, bitset, i as int),
            decreases self.members@.len() - i,
        {
            let ghost before = members@;
            if i < 64 && (bitset >> (i as u64)) & 1 == 1 {
                members.push(self.members[i]);
                assert(seats_of(members@) =~= seats_of(before).push(s[i as int]));
            }
            i = i + 1;
        }
        proof {
            lemma_selected_total(s, bitset, s.len() as int);
            assert(s.take(s.len() as int) =~= s);
        }
        Cluster { members }
    }

    /// The seats that the voters hold.
    pub fn total_occurrences(&self, voters: &Cluster) -> (t: usize)
        ensures
            t == seats_total(voters@),
    {
        voters.total_occurrences()
    }
}

pub proof fn lemma_seated_total(members: Members, seats: Seq<nat>, k: int)
    requires
        0 <= k <= seats.len(),
    ensures
        seats_total(seated(members, seats, k)) == crate::user::sortition::sum_seats(seats.take(k)),
    decreases k,
{
    if k > 0 {
        lemma_seated_total(members, seats, k - 1);
        assert(seats.take(k).drop_last() =~= seats.take(k - 1));
        let rest = seated(members, seats, k - 1);
        if seats[k - 1] > 0 {
            assert(rest.push((members[k - 1].0, seats[k - 1])).drop_last() =~= rest);
        }
    } else {
        assert(seats.take(k) =~= Seq::empty());
    }
}

/// A committee never holds more seats than it was drawn for, and holds
/// exactly that many where the stake in play covers one unit for every
/// seat.
pub proof fn law_committee_seats(members: Members, cfg: ConfigView)
    ensures
        seats_total(spec_committee(members, cfg).members) <= cfg.committee_credits,
        cfg.committee_credits <= u32::MAX && crate::user::sortition::total(
            crate::user::sortition::initial_weights(members, cfg),
        ) >= cfg.committee_credits * crate::user::sortition::DUSK ==> seats_total(
            spec_committee(members, cfg).members,
        ) == cfg.committee_credits,
{
    let seats = draw(members, cfg);
    crate::user::sortition::lemma_draw_total(members, cfg);
    lemma_seated_total(members, seats, members.len() as int);
    assert(seats.take(members.len() as int) =~= seats);
    if cfg.committee_credits <= u32::MAX && crate::user::sortition::total(
        crate::user::sortition::initial_weights(members, cfg),
    ) >= cfg.committee_credits * crate::user::sortition::DUSK {
        crate::user::sortition::law_draw_is_full(members, cfg);
    }
}

/// The parameters of the draw for the generator of an iteration: the
/// proposal step, one seat, nobody excluded.
pub open spec fn generator_config(seed: Seq<u8>, round: u64, iteration: u8) -> ConfigView {
    ConfigView {
        seed,
        round,
        iteration,
        step: StepName::Proposal,
        committee_credits: PROPOSAL_COMMITTEE_CREDITS as nat,
        exclusion: Seq::empty(),
    }
}

/// The generator of an iteration: the member that wins the single seat of
/// the proposal committee. There is none when no stake is eligible.
pub open spec fn spec_generator(members: Members, seed: Seq<u8>, round: u64, iteration: u8)
    -> Option<Seq<u8>> {
    let c = spec_committee(members, generator_config(seed, round, iteration));
    if c.members.len() > 0 {
        Some(c.members[0].0)
    } else {
        None
    }
}

impl Provisioners {
    /// Computes the generator of an iteration.
    pub fn get_generator(&self, iteration: u8, seed: Seed, round: u64) -> (g: Option<
        PublicKeyBytes,
    >)
        ensures
            match g {
                Some(k) => spec_generator(self@, seed@, round, iteration) == Some(k@),
                None => spec_generator(self@, seed@, round, iteration).is_none(),
            },
    {
        let exclusion: Vec<PublicKeyBytes> = Vec::new();
        assert(crate::user::sortition::keys_view(exclusion@) =~= Seq::<Seq<u8>>::empty());
        let cfg = Config::new(seed, round, iteration, StepName::Proposal, exclusion);
        let committee = Committee::new(self, &cfg);
        if committee.members.len() > 0 {
            Some(*committee.members[0].0.bytes())
        } else {
            None
        }
    }
}

/// The committees drawn so far from one validator set, kept so that none is
/// drawn twice.
pub struct CommitteeSet<'p> {
    committees: Vec<(Config, Committee)>,
    provisioners: &'p Provisioners,
}

impl<'p> CommitteeSet<'p> {
    #[verifier::type_invariant]
    spec fn inv(&self) -> bool {
        forall|i: int|
            0 <= i < self.committees@.len() ==> {
                &&& (#[trigger] self.committees@[i]).1@ == spec_committee(
                    self.provisioners@,
                    self.committees@[i].0@,
                )
                &&& self.committees@[i].1.wf()
            }
    }

    /// The validator set that the committees are drawn from.
    pub closed spec fn members(&self) -> Members {
        self.provisioners@
    }

    pub fn new(provisioners: &'p Provisioners) -> (set: Self)
        ensures
            set.members() == provisioners@,
    {
        CommitteeSet { committees: Vec::new(), provisioners }
    }

    pub fn provisioners(&self) -> (p: &'p Provisioners)
        ensures
            p@ == self.members(),
    {
        self.provisioners
    }

    /// The place of `cfg` among the committees kept: the first place whose
    /// configuration is `cfg`, or none if no committee was drawn for it yet.
    fn find(&self, cfg: &Config) -> (at: Option<usize>)
        ensures
            match at {
                Some(i) => {
                    &&& i < self.committees@.len()
                    &&& self.committees@[i as int].0@ == cfg@
                    &&& forall|j: int| 0 <= j < i ==> (#[trigger] self.committees@[j]).0@ != cfg@
                },
                None => forall|j: int|
                    0 <= j < self.committees@.len() ==> (#[trigger] self.committees@[j]).0@
                        != cfg@,
            },
    {
        let mut i: usize = 0;
        while i < self.committees.len()
            invariant
                i <= self.committees@.len(),
                forall|j: int| 0 <= j < i ==> (#[trigger] self.committees@[j]).0@ != cfg@,
            decreases self.committees@.len() - i,
        {
            if self.committees[i].0.same(cfg) {
                return Some(i);
            }
            i = i + 1;
        }
        None
    }

    /// The committee of `cfg`: the one kept, or a new draw that is kept from
    /// now on. Either way it is the committee that `cfg` draws.
    pub fn get_or_create(&mut self, cfg: &Config) -> (c: Committee)
        ensures
            c@ == spec_committee(old(self).members(), cfg@),
            c.wf(),
            final(self).members() == old(self).members(),
    {
        proof {
            use_type_invariant(&*self);
        }
        match self.find(cfg) {
            Some(i) => self.committees[i].1.clone(),
            None => {
                let committee = Committee::new(self.provisioners, cfg);
                let out = committee.clone();
                let mut committees: Vec<(Config, Committee)> = Vec::new();
                std::mem::swap(&mut committees, &mut self.committees);
                committees.push((cfg.clone_config(), committee));
                self.committees = committees;
                out
            },
        }
    }

    /// The seats that `key` holds in the committee of `cfg`; none for a key
    /// that is not a member.
    pub fn votes_for(&mut self, key: &PublicKeyBytes, cfg: &Config) -> (seats: usize)
        ensures
            final(self).members() == old(self).members(),
            seats == spec_seats(spec_committee(old(self).members(), cfg@).members, key@),
    {
        let committee = self.get_or_create(cfg);
        match committee.votes_for(key) {
            Some(s) => {
                proof {
                    lemma_spec_seats(committee@.members, key@, s as nat);
                }
                s
            },
            None => 0,
        }
    }

    /// The seats a vote for a valid block needs in the committee of `cfg`.
    pub fn quorum(&self, cfg: &Config) -> (q: usize)
        ensures
            q == spec_super_majority(cfg@.committee_credits),
    {
        let c = cfg.credits() as u64;
        ((2 * c + 2) / 3 + 1) as usize
    }
}

} // verus!
