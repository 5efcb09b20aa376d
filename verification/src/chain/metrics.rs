//! The rolling average of the time that the steps took, from which the base
//! timeouts of the next round are set.

use vstd::prelude::*;
use vstd::bytes::*;
use crate::codec::{
    lemma_parse_u32_le, lemma_parse_u64_le, parse_u32_le, parse_u64_le, write_u32_le,
    write_u64_le, DecodeError, Parsed, Reader,
};
use crate::commons::TimeoutSet;
use crate::config::{MAX_STEP_TIMEOUT, MIN_STEP_TIMEOUT};

verus! {

/// How many elapsed times the average is taken over.
pub const AVERAGE_WINDOW: usize = 5;

/// The last elapsed times of a step, in milliseconds, oldest first.
#[derive(Debug, PartialEq, Eq)]
pub struct AverageElapsedTime {
    values: Vec<u64>,
}

impl View for AverageElapsedTime {
    type V = Seq<u64>;

    closed spec fn view(&self) -> Seq<u64> {
        self.values@
    }
}

/// The sum of the values.
pub open spec fn sum_of(v: Seq<u64>) -> nat
    decreases v.len(),
{
    if v.len() == 0 {
        0
    } else {
        sum_of(v.drop_last()) + v.last() as nat
    }
}

pub proof fn lemma_sum_bound(v: Seq<u64>)
    ensures
        sum_of(v) <= v.len() * u64::MAX,
    decreases v.len(),
{
    if v.len() > 0 {
        lemma_sum_bound(v.drop_last());
        assert(sum_of(v) <= v.len() * u64::MAX) by (nonlinear_arith)
            requires
                sum_of(v) <= (v.len() - 1) * u64::MAX + u64::MAX,
        ;
    }
}

/// The average of the values, rounded down; none without values.
pub open spec fn spec_average(v: Seq<u64>) -> Option<u64> {
    if v.len() == 0 {
        None
    } else {
        Some((sum_of(v) / v.len()) as u64)
    }
}

/// The values after one more was observed: the oldest leaves when the
/// window is full.
pub open spec fn spec_push_back(v: Seq<u64>, value: u64) -> Seq<u64> {
    if v.len() >= AVERAGE_WINDOW {
        v.skip(v.len() - AVERAGE_WINDOW + 1).push(value)
    } else {
        v.push(value)
    }
}

/// The values one after another as little-endian `u64`.
pub open spec fn encode_values(v: Seq<u64>) -> Seq<u8>
    decreases v.len(),
{
    if v.len() == 0 {
        Seq::empty()
    } else {
        encode_values(v.drop_last()) + spec_u64_to_le_bytes(v.last())
    }
}

/// The first `n` values of `s`, or the error met on the way.
pub open spec fn parse_values(s: Seq<u8>, n: nat) -> Parsed<Seq<u64>>
    decreases n,
{
    if n == 0 {
        Ok((Seq::empty(), s))
    } else {
        match parse_values(s, (n - 1) as nat) {
            Err(e) => Err(e),
            Ok((l, rest)) => match parse_u64_le(rest) {
                Err(e) => Err(e),
                Ok((x, rest2)) => Ok((l.push(x), rest2)),
            },
        }
    }
}

pub proof fn lemma_parse_values_fails(s: Seq<u8>, i: nat, n: nat)
    requires
        i <= n,
        parse_values(s, i) is Err,
    ensures
        parse_values(s, n) == parse_values(s, i),
    decreases n,
{
    if i < n {
        lemma_parse_values_fails(s, i, (n - 1) as nat);
    }
}

/// The number of values as a little-endian `u32`, then the values in
/// milliseconds as little-endian `u64`.
pub open spec fn encode_average(v: Seq<u64>) -> Seq<u8> {
    spec_u32_to_le_bytes(v.len() as u32) + encode_values(v)
}

/// More values than the window holds are malformed.
pub open spec fn parse_average(s: Seq<u8>) -> Parsed<Seq<u64>> {
    match parse_u32_le(s) {
        Err(e) => Err(e),
        Ok((n, rest)) => if n > AVERAGE_WINDOW {
            Err(DecodeError::InvalidData)
        } else {
            parse_values(rest, n as nat)
        },
    }
}

pub proof fn lemma_values_round_trip(v: Seq<u64>, tail: Seq<u8>)
    ensures
        parse_values(encode_values(v) + tail, v.len()) == Ok::<(Seq<u64>, Seq<u8>), DecodeError>(
            (v, tail),
        ),
    decreases v.len(),
{
    if v.len() == 0 {
        assert(encode_values(v) + tail =~= tail);
        assert(v =~= Seq::empty());
    } else {
        let front = v.drop_last();
        let t1 = spec_u64_to_le_bytes(v.last()) + tail;
        assert(encode_values(v) + tail =~= encode_values(front) + t1);
        lemma_values_round_trip(front, t1);
        lemma_parse_u64_le(v.last(), tail);
        assert(front.push(v.last()) =~= v);
    }
}

/// Reading back what was written gives the same elapsed times.
pub proof fn law_average_round_trip(v: Seq<u64>, tail: Seq<u8>)
    requires
        v.len() <= AVERAGE_WINDOW,
    ensures
        parse_average(encode_average(v) + tail) == Ok::<(Seq<u64>, Seq<u8>), DecodeError>(
            (v, tail),
        ),
{
    let n = v.len() as u32;
    assert(encode_average(v) + tail =~= spec_u32_to_le_bytes(n) + (encode_values(v) + tail));
    lemma_parse_u32_le(n, encode_values(v) + tail);
    lemma_values_round_trip(v, tail);
}

impl AverageElapsedTime {
    #[verifier::type_invariant]
    spec fn inv(&self) -> bool {
        self.values@.len() <= AVERAGE_WINDOW
    }

    /// No elapsed time yet.
    pub fn new() -> (a: AverageElapsedTime)
        ensures
            a@ == Seq::<u64>::empty(),
    {
        AverageElapsedTime { values: Vec::new() }
    }

    /// Takes in one more elapsed time.
    pub fn push_back(&mut self, value: u64)
        ensures
            final(self)@ == spec_push_back(old(self)@, value),
    {
        proof {
            use_type_invariant(&*self);
        }
        let mut values: Vec<u64> = Vec::new();
        std::mem::swap(&mut values, &mut self.values);
        if values.len() >= AVERAGE_WINDOW {
            let ghost before = values@;
            let _ = values.remove(0);
            assert(values@ =~= before.skip(before.len() - AVERAGE_WINDOW + 1));
        }
        values.push(value);
        self.values = values;
    }

    /// The average of the elapsed times.
    pub fn average(&self) -> (avg: Option<u64>)
        ensures
            avg == spec_average(self@),
    {
        proof {
            use_type_invariant(self);
        }
        let n = self.values.len();
        if n == 0 {
            return None;
        }
        let ghost v = self.values@;
        let mut sum: u128 = 0;
        let mut i: usize = 0;
        assert(v.take(0) =~= Seq::<u64>::empty());
        while i < n
            invariant
                i <= n,
                n == v.len(),
                n <= AVERAGE_WINDOW,
                v == self.values@,
                sum == sum_of(v.take(i as int)),
            decreases n - i,
        {
            proof {
                assert(v.take(i + 1).drop_last() =~= v.take(i as int));
                lemma_sum_bound(v.take(i + 1));
                assert(v.take(i + 1).len() * u64::MAX <= 5 * u64::MAX) by (nonlinear_arith)
                    requires
                        v.take(i + 1).len() <= 5,
                ;
            }
            sum = sum + self.values[i] as u128;
            i = i + 1;
        }
        proof {
            assert(v.take(n as int) =~= v);
            lemma_sum_bound(v);
            assert(sum_of(v) / v.len() <= u64::MAX) by (nonlinear_arith)
                requires
                    sum_of(v) <= v.len() * u64::MAX,
                    v.len() > 0,
            ;
        }
        Some((sum / (n as u128)) as u64)
    }

    pub fn write(&self, w: &mut Vec<u8>)
        ensures
            final(w)@ == old(w)@ + encode_average(self@),
    {
        proof {
            use_type_invariant(self);
        }
        let n = self.values.len();
        write_u32_le(w, n as u32);
        let ghost v = self.values@;
        let ghost prefix = w@;
        let mut i: usize = 0;
        assert(encode_values(v.take(0)) =~= Seq::<u8>::empty());
        while i < n
            invariant
                i <= n,
                n == v.len(),
                v == self.values@,
                w@ == prefix + encode_values(v.take(i as int)),
            decreases n - i,
        {
            write_u64_le(w, self.values[i]);
            proof {
                assert(v.take(i + 1).drop_last() =~= v.take(i as int));
            }
            i = i + 1;
        }
        proof {
            assert(v.take(n as int) =~= v);
        }
    }

    pub fn read(r: &mut Reader) -> (res: Result<AverageElapsedTime, DecodeError>)
        ensures
            match res {
                Ok(v) => parse_average(old(r).remaining()) == Ok::<
                    (Seq<u64>, Seq<u8>),
                    DecodeError,
                >((v@, final(r).remaining())),
                Err(e) => parse_average(old(r).remaining()) == Err::<
                    (Seq<u64>, Seq<u8>),
                    DecodeError,
                >(e),
            },
    {
        let n = match r.read_u32_le() {
            Ok(n) => n,
            Err(e) => return Err(e),
        };
        if n as usize > AVERAGE_WINDOW {
            return Err(DecodeError::InvalidData);
        }
        let ghost body = r.remaining();
        let mut values: Vec<u64> = Vec::new();
        let mut i: u32 = 0;
        while i < n
            invariant
                i <= n,
                n <= AVERAGE_WINDOW,
                parse_u32_le(old(r).remaining()) == Ok::<(u32, Seq<u8>), DecodeError>((n, body)),
                values@.len() == i,
                parse_values(body, i as nat) == Ok::<(Seq<u64>, Seq<u8>), DecodeError>(
                    (values@, r.remaining()),
                ),
            decreases n - i,
        {
            let value = match r.read_u64_le() {
                Ok(v) => v,
                Err(e) => {
                    proof {
                        lemma_parse_values_fails(body, (i + 1) as nat, n as nat);
                    }
                    return Err(e);
                },
            };
            values.push(value);
            i = i + 1;
        }
        Ok(AverageElapsedTime { values })
    }
}

/// What the ledger holds under the key of a step's average.
#[derive(Clone, Debug, PartialEq, Eq)]
pub enum StoredAverage {
    /// The ledger could not be read.
    Unreadable,
    /// There is nothing under the key.
    Missing,
    /// The bytes under the key.
    Bytes(Vec<u8>),
}

/// `value` held between the shortest and the longest base timeout.
pub open spec fn spec_clamp(value: u64) -> u64 {
    if value < MIN_STEP_TIMEOUT {
        MIN_STEP_TIMEOUT
    } else if value > MAX_STEP_TIMEOUT {
        MAX_STEP_TIMEOUT
    } else {
        value
    }
}

/// The base timeout of a step, from what the ledger holds of its elapsed
/// times: their average, held between the shortest and the longest timeout.
/// Without an entry the longest timeout is taken. Where the ledger cannot be
/// read, or the entry is malformed or empty, the shortest.
pub open spec fn spec_read_avg_timeout(stored: StoredAverage) -> u64 {
    match stored {
        StoredAverage::Unreadable => MIN_STEP_TIMEOUT,
        StoredAverage::Missing => MAX_STEP_TIMEOUT,
        StoredAverage::Bytes(bytes) => match parse_average(bytes@) {
            Err(_) => MIN_STEP_TIMEOUT,
            Ok((values, _)) => match spec_average(values) {
                None => MIN_STEP_TIMEOUT,
                Some(avg) => spec_clamp(avg),
            },
        },
    }
}

/// Computes the base timeout of a step.
pub fn read_avg_timeout(stored: &StoredAverage) -> (timeout: u64)
    ensures
        timeout == spec_read_avg_timeout(*stored),
        MIN_STEP_TIMEOUT <= timeout <= MAX_STEP_TIMEOUT,
{
    let metric = match stored {
        StoredAverage::Unreadable => AverageElapsedTime::new(),
        StoredAverage::Missing => {
            let mut metric = AverageElapsedTime::new();
            metric.push_back(MAX_STEP_TIMEOUT);
            assert(metric@ =~= seq![MAX_STEP_TIMEOUT]);
            assert(sum_of(metric@) == MAX_STEP_TIMEOUT) by {
                let one = seq![MAX_STEP_TIMEOUT];
                assert(one.drop_last() =~= Seq::<u64>::empty());
                assert(sum_of(one.drop_last()) == 0);
                assert(one.last() == MAX_STEP_TIMEOUT);
                assert(sum_of(one) == sum_of(one.drop_last()) + one.last() as nat);
            }
            metric
        },
        StoredAverage::Bytes(bytes) => {
            let mut r = Reader::new(bytes.as_slice());
            match AverageElapsedTime::read(&mut r) {
                Ok(m) => m,
                Err(_) => AverageElapsedTime::new(),
            }
        },
    };
    let avg = match metric.average() {
        Some(a) => a,
        None => MIN_STEP_TIMEOUT,
    };
    if avg < MIN_STEP_TIMEOUT {
        MIN_STEP_TIMEOUT
    } else if avg > MAX_STEP_TIMEOUT {
        MAX_STEP_TIMEOUT
    } else {
        avg
    }
}

/// The base timeouts of the three steps of the next round.
pub fn adjust_round_base_timeouts(
    proposal: &StoredAverage,
    validation: &StoredAverage,
    ratification: &StoredAverage,
) -> (set: TimeoutSet)
    ensures
        set.proposal == spec_read_avg_timeout(*proposal),
        set.validation == spec_read_avg_timeout(*validation),
        set.ratification == spec_read_avg_timeout(*ratification),
{
    TimeoutSet {
        proposal: read_avg_timeout(proposal),
        validation: read_avg_timeout(validation),
        ratification: read_avg_timeout(ratification),
    }
}

/// The timeout of a step after it timed out: twice as long, but no longer
/// than the longest timeout.
pub fn increase_timeout(timeout: u64) -> (next: u64)
    ensures
        next == (if 2 * timeout > MAX_STEP_TIMEOUT {
            MAX_STEP_TIMEOUT as int
        } else {
            2 * timeout
        }),
{
    if timeout > MAX_STEP_TIMEOUT / 2 {
        MAX_STEP_TIMEOUT
    } else {
        2 * timeout
    }
}

} // verus!
