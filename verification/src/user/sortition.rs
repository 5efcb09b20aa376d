//! Deterministic, stake-weighted drawing of committee seats.
//!
//! Every seat is drawn by hashing the sortition parameters together with the
//! seat's number, reducing the digest to a point below the stake that is
//! still in play, and giving the seat to the member whose share of that
//! stake covers the point. The winner's weight then drops by one unit.

use vstd::prelude::*;
use vstd::bytes::*;
use crate::codec::{bytes_eq, write_bytes, write_u32_le, write_u64_le, write_u8};
use crate::crypto::{sha3_256, sha3_256_digest};
use crate::ledger::{PublicKeyBytes, Seed};
use crate::message::StepName;
use crate::num::be_value;
use crate::user::provisioners::{Members, Provisioners};

verus! {

/// One unit of stake: what a seat costs its winner in weight.
pub const DUSK: u64 = 1_000_000_000;

/// Seats of the committee that proposes: the generator alone.
pub const PROPOSAL_COMMITTEE_CREDITS: u32 = 1;

/// Seats of the committee of the validation step.
pub const VALIDATION_COMMITTEE_CREDITS: u32 = 64;

/// Seats of the committee of the ratification step.
pub const RATIFICATION_COMMITTEE_CREDITS: u32 = 64;

/// What a committee is drawn from, besides the validator set.
#[derive(Clone, Debug, PartialEq, Eq)]
pub struct Config {
    seed: Seed,
    round: u64,
    iteration: u8,
    step: StepName,
    committee_credits: u32,
    exclusion: Vec<PublicKeyBytes>,
}

pub struct ConfigView {
    pub seed: Seq<u8>,
    pub round: u64,
    pub iteration: u8,
    pub step: StepName,
    pub committee_credits: nat,
    pub exclusion: Seq<Seq<u8>>,
}

pub open spec fn keys_view(l: Seq<PublicKeyBytes>) -> Seq<Seq<u8>> {
    Seq::new(l.len(), |i: int| l[i]@)
}

impl View for Config {
    type V = ConfigView;

    closed spec fn view(&self) -> ConfigView {
        ConfigView {
            seed: self.seed@,
            round: self.round,
            iteration: self.iteration,
            step: self.step,
            committee_credits: self.committee_credits as nat,
            exclusion: keys_view(self.exclusion@),
        }
    }
}

/// The seats that the committee of a step has.
pub open spec fn credits_of(step: StepName) -> u32 {
    match step {
        StepName::Proposal => PROPOSAL_COMMITTEE_CREDITS,
        StepName::Validation => VALIDATION_COMMITTEE_CREDITS,
        StepName::Ratification => RATIFICATION_COMMITTEE_CREDITS,
    }
}

impl Config {
    /// The parameters of the committee of `step`, with the seats that the
    /// step has.
    pub fn new(
        seed: Seed,
        round: u64,
        iteration: u8,
        step: StepName,
        exclusion: Vec<PublicKeyBytes>,
    ) -> (cfg: Config)
        ensures
            cfg@ == (ConfigView {
                seed: seed@,
                round,
                iteration,
                step,
                committee_credits: credits_of(step) as nat,
                exclusion: keys_view(exclusion@),
            }),
    {
        let committee_credits = match step {
            StepName::Proposal => PROPOSAL_COMMITTEE_CREDITS,
            StepName::Validation => VALIDATION_COMMITTEE_CREDITS,
            StepName::Ratification => RATIFICATION_COMMITTEE_CREDITS,
        };
        Config { seed, round, iteration, step, committee_credits, exclusion }
    }

    /// The same with a number of seats of the caller's choice.
    pub fn with_credits(
        seed: Seed,
        round: u64,
        iteration: u8,
        step: StepName,
        exclusion: Vec<PublicKeyBytes>,
        committee_credits: u32,
    ) -> (cfg: Config)
        ensures
            cfg@ == (ConfigView {
                seed: seed@,
                round,
                iteration,
                step,
                committee_credits: committee_credits as nat,
                exclusion: keys_view(exclusion@),
            }),
    {
        Config { seed, round, iteration, step, committee_credits, exclusion }
    }

    /// A copy of the configuration.
    pub fn clone_config(&self) -> (c: Config)
        ensures
            c@ == self@,
    {
        let mut exclusion: Vec<PublicKeyBytes> = Vec::new();
        let mut i: usize = 0;
        while i < self.exclusion.len()
            invariant
                i <= self.exclusion@.len(),
                exclusion@ == self.exclusion@.take(i as int),
            decreases self.exclusion@.len() - i,
        {
            exclusion.push(self.exclusion[i]);
            assert(exclusion@ =~= self.exclusion@.take(i + 1));
            i = i + 1;
        }
        assert(exclusion@ =~= self.exclusion@);
        Config {
            seed: self.seed,
            round: self.round,
            iteration: self.iteration,
            step: self.step,
            committee_credits: self.committee_credits,
            exclusion,
        }
    }

    pub fn round(&self) -> (r: u64)
        ensures
            r == self@.round,
    {
        self.round
    }

    pub fn iteration(&self) -> (i: u8)
        ensures
            i == self@.iteration,
    {
        self.iteration
    }

    pub fn step(&self) -> (s: StepName)
        ensures
            s == self@.step,
    {
        self.step
    }

    /// The number of seats, in the width in which it is kept.
    pub fn credits(&self) -> (c: u32)
        ensures
            c == self@.committee_credits,
    {
        self.committee_credits
    }

    pub fn committee_credits(&self) -> (c: usize)
        ensures
            c == self@.committee_credits,
    {
        self.committee_credits as usize
    }

    /// Whether `key` may not sit in the committee.
    pub fn is_excluded(&self, key: &PublicKeyBytes) -> (ex: bool)
        ensures
            ex == self@.exclusion.contains(key@),
    {
        let mut i: usize = 0;
        while i < self.exclusion.len()
            invariant
                i <= self.exclusion@.len(),
                forall|j: int| 0 <= j < i ==> keys_view(self.exclusion@)[j] != key@,
            decreases self.exclusion@.len() - i,
        {
            if bytes_eq(self.exclusion[i].0.as_slice(), key.0.as_slice()) {
                assert(keys_view(self.exclusion@)[i as int] == key@);
                return true;
            }
            i = i + 1;
        }
        false
    }

    /// Whether the two configurations are the same.
    pub fn same(&self, other: &Config) -> (eq: bool)
        ensures
            eq == (self@ == other@),
    {
        if self.round != other.round || self.iteration != other.iteration
            || self.committee_credits != other.committee_credits {
            return false;
        }
        let same_step = match (self.step, other.step) {
            (StepName::Proposal, StepName::Proposal) => true,
            (StepName::Validation, StepName::Validation) => true,
            (StepName::Ratification, StepName::Ratification) => true,
            _ => false,
        };
        if !same_step {
            return false;
        }
        if !bytes_eq(self.seed.0.as_slice(), other.seed.0.as_slice()) {
            return false;
        }
        let n = self.exclusion.len();
        if n != other.exclusion.len() {
            assert(self@.exclusion.len() != other@.exclusion.len());
            return false;
        }
        let mut i: usize = 0;
        while i < n
            invariant
                i <= n,
                n == self.exclusion@.len(),
                n == other.exclusion@.len(),
                forall|j: int|
                    0 <= j < i ==> keys_view(self.exclusion@)[j] == keys_view(other.exclusion@)[j],
            decreases n - i,
        {
            if !bytes_eq(self.exclusion[i].0.as_slice(), other.exclusion[i].0.as_slice()) {
                assert(keys_view(self.exclusion@)[i as int] != keys_view(other.exclusion@)[i as int]);
                return false;
            }
            i = i + 1;
        }
        assert(keys_view(self.exclusion@) =~= keys_view(other.exclusion@));
        true
    }
}

/// What is hashed for seat number `counter`: the seed, the round as a
/// little-endian `u64`, the iteration, the step, and the seat number as a
/// little-endian `u32`.
pub open spec fn sortition_input(cfg: ConfigView, counter: u32) -> Seq<u8> {
    cfg.seed + spec_u64_to_le_bytes(cfg.round) + seq![cfg.iteration] + seq![
        cfg.step.index() as u8,
    ] + spec_u32_to_le_bytes(counter)
}

/// The digest that decides seat number `counter`.
pub open spec fn sortition_hash(cfg: ConfigView, counter: u32) -> Seq<u8> {
    sha3_256(sortition_input(cfg, counter))
}

/// Computes the digest that decides seat number `counter`.
pub fn create_sortition_hash(cfg: &Config, counter: u32) -> (hash: [u8; 32])
    ensures
        hash@ == sortition_hash(cfg@, counter),
{
    let mut input: Vec<u8> = Vec::new();
    write_bytes(&mut input, cfg.seed.0.as_slice());
    write_u64_le(&mut input, cfg.round);
    write_u8(&mut input, cfg.iteration);
    let step: u8 = match cfg.step {
        StepName::Proposal => 0,
        StepName::Validation => 1,
        StepName::Ratification => 2,
    };
    write_u8(&mut input, step);
    write_u32_le(&mut input, counter);
    assert(input@ =~= sortition_input(cfg@, counter));
    sha3_256_digest(input.as_slice())
}

/// The sum of the weights.
pub open spec fn total(w: Seq<u64>) -> nat
    decreases w.len(),
{
    if w.len() == 0 {
        0
    } else {
        total(w.drop_last()) + w.last() as nat
    }
}

pub proof fn lemma_total_bound(w: Seq<u64>)
    ensures
        total(w) <= w.len() * u64::MAX,
    decreases w.len(),
{
    if w.len() > 0 {
        lemma_total_bound(w.drop_last());
        assert(total(w) <= w.len() * u64::MAX) by (nonlinear_arith)
            requires
                total(w) <= (w.len() - 1) * u64::MAX + u64::MAX,
        ;
    }
}

pub proof fn lemma_total_take_monotone(w: Seq<u64>, a: int, b: int)
    requires
        0 <= a <= b <= w.len(),
    ensures
        total(w.take(a)) <= total(w.take(b)),
    decreases b - a,
{
    if a < b {
        lemma_total_take_monotone(w, a, b - 1);
        assert(w.take(b).drop_last() =~= w.take(b - 1));
    }
}

pub proof fn lemma_total_update(w: Seq<u64>, i: int, v: u64)
    requires
        0 <= i < w.len(),
    ensures
        total(w.update(i, v)) == total(w) - w[i] as nat + v as nat,
    decreases w.len(),
{
    let u = w.update(i, v);
    if i == w.len() - 1 {
        assert(u.drop_last() =~= w.drop_last());
    } else {
        assert(u.drop_last() =~= w.drop_last().update(i, v));
        lemma_total_update(w.drop_last(), i, v);
    }
}

/// Whether the share of member `i` covers `point`: the weights before it sum
/// to at most `point`, and with its own to more.
pub open spec fn covers(w: Seq<u64>, i: int, point: nat) -> bool {
    &&& 0 <= i < w.len()
    &&& total(w.take(i)) <= point
    &&& point < total(w.take(i + 1))
}

/// The member whose share covers `point`.
pub open spec fn pick(w: Seq<u64>, point: nat) -> int {
    choose|i: int| covers(w, i, point)
}

pub proof fn lemma_pick_unique(w: Seq<u64>, point: nat, i: int)
    requires
        covers(w, i, point),
    ensures
        pick(w, point) == i,
{
    let j = pick(w, point);
    if j < i {
        lemma_total_take_monotone(w, j + 1, i);
    } else if i < j {
        lemma_total_take_monotone(w, i + 1, j);
    }
}

/// What one seat costs a member of weight `weight`.
pub open spec fn unit_of(weight: u64) -> u64 {
    if weight <= DUSK {
        weight
    } else {
        DUSK
    }
}

/// The weights after member `i` won a seat.
pub open spec fn deduct(w: Seq<u64>, i: int) -> Seq<u64> {
    w.update(i, (w[i] - unit_of(w[i])) as u64)
}

/// The weight with which each member enters the draw: its stake if it is
/// eligible at the round and not excluded, else nothing.
pub open spec fn initial_weights(members: Members, cfg: ConfigView) -> Seq<u64> {
    Seq::new(
        members.len(),
        |i: int|
            if members[i].1.spec_is_eligible(cfg.round) && !cfg.exclusion.contains(members[i].0) {
                members[i].1.value
            } else {
                0
            },
    )
}

/// The seats of each member once all seats from number `counter` on are
/// drawn, starting from the weights `w` and the seats `seats`. Drawing ends
/// early when no weight is left.
pub open spec fn draw_from(cfg: ConfigView, w: Seq<u64>, seats: Seq<nat>, counter: nat) -> Seq<nat>
    decreases cfg.committee_credits - counter,
{
    if counter >= cfg.committee_credits || counter > u32::MAX || total(w) == 0 {
        seats
    } else {
        let point = be_value(sortition_hash(cfg, counter as u32)) % total(w);
        let i = pick(w, point);
        draw_from(cfg, deduct(w, i), seats.update(i, seats[i] + 1), counter + 1)
    }
}

/// The seats of each member of the validator set, in its order.
pub open spec fn draw(members: Members, cfg: ConfigView) -> Seq<nat> {
    draw_from(cfg, initial_weights(members, cfg), Seq::new(members.len(), |i: int| 0nat), 0)
}

/// `value` reduced modulo `m`, for a digest read as a big-endian number and
/// a modulus of up to 128 bits.
pub fn be_mod_wide(bytes: &[u8], m: u128) -> (r: u128)
    requires
        m > 0,
    ensures
        r == be_value(bytes@) % (m as nat),
{
    let n = bytes.len();
    let mut acc: u128 = 0;
    let mut i: usize = 0;
    assert(bytes@.take(0) =~= Seq::<u8>::empty());
    assert(0nat % (m as nat) == 0) by (nonlinear_arith)
        requires
            m > 0,
    ;
    while i < n
        invariant
            i <= n,
            n == bytes@.len(),
            m > 0,
            acc < m,
            acc == be_value(bytes@.take(i as int)) % (m as nat),
        decreases n - i,
    {
        let ghost prev = be_value(bytes@.take(i as int));
        let mut k: u8 = 0;
        let mut scaled: u128 = acc;
        let ghost mut factor: nat = 1;
        assert(scaled == (prev * factor) % (m as nat));
        while k < 8
            invariant
                k <= 8,
                m > 0,
                scaled < m,
                factor >= 1,
                k == 8 ==> factor == 256,
                k == 7 ==> factor == 128,
                k == 6 ==> factor == 64,
                k == 5 ==> factor == 32,
                k == 4 ==> factor == 16,
                k == 3 ==> factor == 8,
                k == 2 ==> factor == 4,
                k == 1 ==> factor == 2,
                k == 0 ==> factor == 1,
                scaled == (prev * factor) % (m as nat),
            decreases 8 - k,
        {
            proof {
                lemma_double_mod(prev * factor, m as nat);
                assert(2 * (prev * factor) == prev * (2 * factor)) by (nonlinear_arith);
            }
            scaled = if scaled >= m - scaled {
                scaled - (m - scaled)
            } else {
                scaled + scaled
            };
            proof {
                factor = 2 * factor;
            }
            k = k + 1;
        }
        let b: u128 = (bytes[i] as u128) % m;
        proof {
            let d = bytes@[i as int] as nat;
            assert(bytes@.take(i + 1) =~= bytes@.take(i as int).push(bytes@[i as int]));
            crate::num::lemma_be_value_push(bytes@.take(i as int), bytes@[i as int]);
            lemma_add_mod(prev * 256, d, m as nat);
        }
        acc = if scaled >= m - b {
            scaled - (m - b)
        } else {
            scaled + b
        };
        i = i + 1;
    }
    proof {
        assert(bytes@.take(n as int) =~= bytes@);
    }
    acc
}

/// Doubling under a modulus, from the reduced value.
pub proof fn lemma_double_mod(x: nat, m: nat)
    requires
        m > 0,
    ensures
        (2 * x) % m == (if 2 * (x % m) >= m {
            2 * (x % m) - m
        } else {
            (2 * (x % m)) as int
        }),
{
    let q = x / m;
    let r = x % m;
    vstd::arithmetic::div_mod::lemma_fundamental_div_mod(x as int, m as int);
    assert(2 * x == (2 * q) * m + 2 * r) by (nonlinear_arith)
        requires
            x == m * q + r,
    ;
    if 2 * r >= m {
        assert(2 * x == (2 * q + 1) * m + (2 * r - m)) by (nonlinear_arith)
            requires
                2 * x == (2 * q) * m + 2 * r,
        ;
        vstd::arithmetic::div_mod::lemma_fundamental_div_mod_converse(
            (2 * x) as int,
            m as int,
            (2 * q + 1) as int,
            (2 * r - m) as int,
        );
    } else {
        vstd::arithmetic::div_mod::lemma_fundamental_div_mod_converse(
            (2 * x) as int,
            m as int,
            (2 * q) as int,
            (2 * r) as int,
        );
    }
}

/// Adding under a modulus, from the reduced values.
pub proof fn lemma_add_mod(x: nat, d: nat, m: nat)
    requires
        m > 0,
    ensures
        (x + d) % m == (if (x % m) + (d % m) >= m {
            (x % m) + (d % m) - m
        } else {
            ((x % m) + (d % m)) as int
        }),
{
    let q1 = x / m;
    let r1 = x % m;
    let q2 = d / m;
    let r2 = d % m;
    vstd::arithmetic::div_mod::lemma_fundamental_div_mod(x as int, m as int);
    vstd::arithmetic::div_mod::lemma_fundamental_div_mod(d as int, m as int);
    assert(x + d == (q1 + q2) * m + (r1 + r2)) by (nonlinear_arith)
        requires
            x == m * q1 + r1,
            d == m * q2 + r2,
    ;
    if r1 + r2 >= m {
        assert(x + d == (q1 + q2 + 1) * m + (r1 + r2 - m)) by (nonlinear_arith)
            requires
                x + d == (q1 + q2) * m + (r1 + r2),
        ;
        vstd::arithmetic::div_mod::lemma_fundamental_div_mod_converse(
            (x + d) as int,
            m as int,
            (q1 + q2 + 1) as int,
            (r1 + r2 - m) as int,
        );
    } else {
        vstd::arithmetic::div_mod::lemma_fundamental_div_mod_converse(
            (x + d) as int,
            m as int,
            (q1 + q2) as int,
            (r1 + r2) as int,
        );
    }
}

/// The seats as contracts see them.
pub open spec fn seats_view(seats: Seq<usize>) -> Seq<nat> {
    Seq::new(seats.len(), |i: int| seats[i] as nat)
}

/// Draws the seats of the committee that `cfg` describes: for each member of
/// the validator set, in its order, the number of seats it won.
pub fn draw_seats(provisioners: &Provisioners, cfg: &Config) -> (seats: Vec<usize>)
    ensures
        seats_view(seats@) == draw(provisioners@, cfg@),
        seats@.len() == provisioners@.len(),
{
    let n = provisioners.len();
    let ghost members = provisioners@;
    let ghost w0 = initial_weights(members, cfg@);
    let mut weights: Vec<u64> = Vec::new();
    let mut seats: Vec<usize> = Vec::new();
    let mut sum: u128 = 0;
    let mut k: usize = 0;
    while k < n
        invariant
            k <= n,
            n == members.len(),
            members == provisioners@,
            w0 == initial_weights(members, cfg@),
            weights@ == w0.take(k as int),
            seats@.len() == k,
            forall|j: int| 0 <= j < k ==> seats@[j] == 0,
            sum == total(weights@),
        decreases n - k,
    {
        let m = provisioners.member_at(k);
        let weight = if m.1.is_eligible(cfg.round) && !cfg.is_excluded(m.0.bytes()) {
            m.1.value
        } else {
            0
        };
        proof {
            assert(w0.take(k + 1) =~= w0.take(k as int).push(weight));
            assert(w0.take(k + 1).drop_last() =~= w0.take(k as int));
            lemma_total_bound(w0.take(k + 1));
            assert(w0.take(k + 1).len() * u64::MAX <= usize::MAX * u64::MAX) by (nonlinear_arith)
                requires
                    w0.take(k + 1).len() <= usize::MAX,
            ;
            assert(usize::MAX * u64::MAX < u128::MAX) by (nonlinear_arith)
                requires
                    usize::MAX <= u64::MAX,
            ;
        }
        weights.push(weight);
        seats.push(0);
        sum = sum + weight as u128;
        k = k + 1;
    }
    proof {
        assert(w0.take(n as int) =~= w0);
        assert(seats_view(seats@) =~= Seq::new(members.len(), |i: int| 0nat));
    }
    let mut counter: u32 = 0;
    while counter < cfg.committee_credits && sum > 0
        invariant
            counter <= cfg.committee_credits,
            cfg@.committee_credits == cfg.committee_credits,
            weights@.len() == n,
            seats@.len() == n,
            sum == total(weights@),
            forall|j: int| 0 <= j < n ==> seats@[j] <= counter,
            draw(members, cfg@) == draw_from(
                cfg@,
                weights@,
                seats_view(seats@),
                counter as nat,
            ),
        decreases cfg.committee_credits - counter,
    {
        let hash = create_sortition_hash(cfg, counter);
        let point = be_mod_wide(hash.as_slice(), sum);
        let ghost w = weights@;
        assert(point < total(w)) by {
            vstd::arithmetic::div_mod::lemma_mod_bound(
                be_value(hash@) as int,
                total(w) as int,
            );
        }
        let mut i: usize = 0;
        let mut cum: u128 = 0;
        assert(w.take(0) =~= Seq::<u64>::empty());
        loop
            invariant_except_break
                i < n,
                cum == total(w.take(i as int)),
                cum <= point,
            invariant
                w == weights@,
                w.len() == n,
                point < total(w),
                total(w) == sum,
            ensures
                i < n,
                covers(w, i as int, point as nat),
            decreases n - i,
        {
            proof {
                assert(w.take(i + 1).drop_last() =~= w.take(i as int));
                lemma_total_take_monotone(w, i + 1, n as int);
                assert(w.take(n as int) =~= w);
            }
            if point < cum + weights[i] as u128 {
                break;
            }
            cum = cum + weights[i] as u128;
            proof {
                if i + 1 == n {
                    assert(w.take(n as int) =~= w);
                }
            }
            i = i + 1;
        }
        proof {
            lemma_pick_unique(w, point as nat, i as int);
            lemma_total_update(w, i as int, (w[i as int] - unit_of(w[i as int])) as u64);
        }
        let weight = weights[i];
        let unit = if weight <= DUSK {
            weight
        } else {
            DUSK
        };
        let ghost seats_before = seats_view(seats@);
        weights.set(i, weight - unit);
        let won = seats[i];
        seats.set(i, won + 1);
        sum = sum - unit as u128;
        proof {
            assert(weights@ =~= deduct(w, i as int));
            assert(seats_view(seats@) =~= seats_before.update(
                i as int,
                seats_before[i as int] + 1,
            ));
        }
        counter = counter + 1;
    }
    seats
}

/// The number of seats given out.
pub open spec fn sum_seats(seats: Seq<nat>) -> nat
    decreases seats.len(),
{
    if seats.len() == 0 {
        0
    } else {
        sum_seats(seats.drop_last()) + seats.last()
    }
}

pub proof fn lemma_sum_seats_update(seats: Seq<nat>, i: int, v: nat)
    requires
        0 <= i < seats.len(),
    ensures
        sum_seats(seats.update(i, v)) == sum_seats(seats) - seats[i] + v,
    decreases seats.len(),
{
    let u = seats.update(i, v);
    if i == seats.len() - 1 {
        assert(u.drop_last() =~= seats.drop_last());
    } else {
        assert(u.drop_last() =~= seats.drop_last().update(i, v));
        lemma_sum_seats_update(seats.drop_last(), i, v);
    }
}

pub proof fn lemma_sum_seats_zero(n: nat)
    ensures
        sum_seats(Seq::new(n, |i: int| 0nat)) == 0,
    decreases n,
{
    if n > 0 {
        assert(Seq::new(n, |i: int| 0nat).drop_last() =~= Seq::new((n - 1) as nat, |i: int| 0nat));
        lemma_sum_seats_zero((n - 1) as nat);
    }
}

pub proof fn lemma_pick_in_range(w: Seq<u64>, point: nat)
    requires
        point < total(w),
    ensures
        covers(w, pick(w, point), point),
    decreases w.len(),
{
    // the last place whose prefix sum does not exceed the point covers it
    let n = w.len() as int;
    assert(w.take(n) =~= w);
    assert(w.take(0) =~= Seq::<u64>::empty());
    lemma_exists_cover(w, point, n);
}

proof fn lemma_exists_cover(w: Seq<u64>, point: nat, k: int)
    requires
        0 <= k <= w.len(),
        point < total(w.take(k)),
    ensures
        exists|i: int| covers(w, i, point),
    decreases k,
{
    if k > 0 {
        assert(w.take(k).drop_last() =~= w.take(k - 1));
        if point < total(w.take(k - 1)) {
            lemma_exists_cover(w, point, k - 1);
        } else {
            assert(covers(w, k - 1, point));
        }
    } else {
        assert(w.take(0) =~= Seq::<u64>::empty());
    }
}

/// From seat number `counter` on, at most the seats that are left are given
/// out.
pub proof fn lemma_draw_from_total(cfg: ConfigView, w: Seq<u64>, seats: Seq<nat>, counter: nat)
    requires
        w.len() == seats.len(),
        counter <= cfg.committee_credits,
    ensures
        draw_from(cfg, w, seats, counter).len() == seats.len(),
        sum_seats(draw_from(cfg, w, seats, counter)) <= sum_seats(seats) + (cfg.committee_credits
            - counter),
    decreases cfg.committee_credits - counter,
{
    if counter >= cfg.committee_credits || counter > u32::MAX || total(w) == 0 {
    } else {
        let point = be_value(sortition_hash(cfg, counter as u32)) % total(w);
        vstd::arithmetic::div_mod::lemma_mod_bound(
            be_value(sortition_hash(cfg, counter as u32)) as int,
            total(w) as int,
        );
        lemma_pick_in_range(w, point);
        let i = pick(w, point);
        lemma_sum_seats_update(seats, i, seats[i] + 1);
        lemma_draw_from_total(cfg, deduct(w, i), seats.update(i, seats[i] + 1), counter + 1);
    }
}

/// A draw gives out at most as many seats as the committee has.
pub proof fn lemma_draw_total(members: Members, cfg: ConfigView)
    ensures
        draw(members, cfg).len() == members.len(),
        sum_seats(draw(members, cfg)) <= cfg.committee_credits,
{
    lemma_sum_seats_zero(members.len());
    lemma_draw_from_total(
        cfg,
        initial_weights(members, cfg),
        Seq::new(members.len(), |i: int| 0nat),
        0,
    );
}

proof fn lemma_draw_from_full(cfg: ConfigView, w: Seq<u64>, seats: Seq<nat>, counter: nat)
    requires
        w.len() == seats.len(),
        counter <= cfg.committee_credits <= u32::MAX,
        total(w) >= (cfg.committee_credits - counter) * DUSK,
    ensures
        sum_seats(draw_from(cfg, w, seats, counter)) == sum_seats(seats) + (cfg.committee_credits
            - counter),
    decreases cfg.committee_credits - counter,
{
    if counter < cfg.committee_credits {
        let left = cfg.committee_credits - counter;
        assert(left * DUSK >= DUSK) by (nonlinear_arith)
            requires
                left >= 1,
        ;
        let point = be_value(sortition_hash(cfg, counter as u32)) % total(w);
        vstd::arithmetic::div_mod::lemma_mod_bound(
            be_value(sortition_hash(cfg, counter as u32)) as int,
            total(w) as int,
        );
        lemma_pick_in_range(w, point);
        let i = pick(w, point);
        lemma_total_update(w, i, (w[i] - unit_of(w[i])) as u64);
        lemma_sum_seats_update(seats, i, seats[i] + 1);
        assert((left - 1) * DUSK == left * DUSK - DUSK) by (nonlinear_arith);
        lemma_draw_from_full(cfg, deduct(w, i), seats.update(i, seats[i] + 1), counter + 1);
    }
}

/// Where the stake in play covers one unit for every seat, every seat is
/// given out.
pub proof fn law_draw_is_full(members: Members, cfg: ConfigView)
    requires
        cfg.committee_credits <= u32::MAX,
        total(initial_weights(members, cfg)) >= cfg.committee_credits * DUSK,
    ensures
        sum_seats(draw(members, cfg)) == cfg.committee_credits,
{
    lemma_sum_seats_zero(members.len());
    lemma_draw_from_full(
        cfg,
        initial_weights(members, cfg),
        Seq::new(members.len(), |i: int| 0nat),
        0,
    );
}

/// Nodes that hold the same validators with the same stakes, and draw with
/// the same parameters, draw the same seats: neither the order in which a
/// node learnt of the validators nor anything else of the node shows in the
/// draw.
pub proof fn law_draw_is_deterministic(
    members_a: Members,
    cfg_a: ConfigView,
    members_b: Members,
    cfg_b: ConfigView,
)
    requires
        crate::user::provisioners::sorted(members_a),
        crate::user::provisioners::sorted(members_b),
        crate::user::provisioners::keys_sized(members_a),
        crate::user::provisioners::keys_sized(members_b),
        crate::user::provisioners::same_members(members_a, members_b),
        cfg_a == cfg_b,
    ensures
        members_a == members_b,
        draw(members_a, cfg_a) == draw(members_b, cfg_b),
{
    crate::user::provisioners::law_canonical_order(members_a, members_b);
}

} // verus!
