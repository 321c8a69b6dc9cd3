//! Pauses between attempts.
use vstd::arithmetic::power2::{lemma2_to64, lemma_pow2_strictly_increases, lemma_pow2_unfold, pow2};
use vstd::prelude::*;

verus! {

/// The largest number of doublings of a pause.
pub const MAX_DOUBLINGS: u64 = 10;

/// A pause of a first attempt, in milliseconds, and the bound of what chance adds to a pause.
pub const BACKOFF_UNIT_MS: u64 = 25;

/// A random number below the bound, from `rand`'s `thread_rng` and `gen_range`. The contract claims
/// no more than the bound.
#[verifier::external_body]
fn random_below(bound: u64) -> (number: u64)
    requires
        bound > 0,
    ensures
        number < bound,
{
    rand::Rng::gen_range(&mut rand::thread_rng(), 0..bound)
}

/// The pause before the given retry, in milliseconds: it doubles with each retry up to a limit, is
/// lengthened by the jitter, and does not exceed the cap.
pub open spec fn spec_backoff(retries: u64, cap: u64, jitter: u64) -> int {
    let doublings = if retries < MAX_DOUBLINGS {
        retries as nat
    } else {
        MAX_DOUBLINGS as nat
    };
    let pause = BACKOFF_UNIT_MS * pow2(doublings) + jitter;
    if pause < cap {
        pause
    } else {
        cap as int
    }
}

/// The pause before the given retry, in milliseconds.
pub fn backoff_delay(retries: u64, cap: u64, jitter: u64) -> (delay: u64)
    ensures
        delay == spec_backoff(retries, cap, jitter),
{
    let shift: u64 = if retries < MAX_DOUBLINGS {
        retries
    } else {
        MAX_DOUBLINGS
    };
    proof {
        lemma2_to64();
        if shift < 10 {
            lemma_pow2_strictly_increases(shift as nat, 10);
        }
        vstd::bits::lemma_u64_shl_is_mul(1, shift);
    }
    let base: u64 = BACKOFF_UNIT_MS * (1u64 << shift);
    let pause: u64 = if jitter <= u64::MAX - base {
        base + jitter
    } else {
        u64::MAX
    };
    if pause < cap {
        pause
    } else {
        cap
    }
}

/// A jitter drawn by chance.
pub fn draw_jitter() -> (jitter: u64)
    ensures
        jitter < BACKOFF_UNIT_MS,
{
    random_below(BACKOFF_UNIT_MS)
}

/// The pause before the given retry, in milliseconds, with a jitter drawn by chance.
pub fn retry_backoff(retries: u64, cap: u64) -> (delay: u64)
    ensures
        exists|jitter: u64|
            jitter < BACKOFF_UNIT_MS && delay == #[trigger] spec_backoff(retries, cap, jitter),
{
    let jitter = draw_jitter();
    backoff_delay(retries, cap, jitter)
}

/// The longest pause between two attempts, in milliseconds.
pub const RETRY_CAP_MS: u64 = 1000;

/// Attempts at an operation: how many retries there are, and how many have been used.
#[derive(Clone, Copy, Debug, PartialEq, Eq, Structural)]
pub struct RetryOp {
    pub retries: u64,
    pub current_retries: u64,
}

impl RetryOp {
    /// The first attempt.
    pub fn new(retries: u64) -> (op: RetryOp)
        ensures
            op.retries == retries,
            op.current_retries == 0,
    {
        RetryOp { retries, current_retries: 0 }
    }

    /// What follows a failed attempt: the next one, if a retry is left.
    pub open spec fn spec_failed(self) -> Option<RetryOp> {
        if self.current_retries < self.retries {
            Some(
                RetryOp {
                    retries: self.retries,
                    current_retries: (self.current_retries + 1) as u64,
                },
            )
        } else {
            None
        }
    }

    /// The attempt that follows a failed one, and the pause before it in milliseconds, if a retry is
    /// left.
    pub fn failed(&self, jitter: u64) -> (next: Option<(RetryOp, u64)>)
        ensures
            match self.spec_failed() {
                Some(op) => next == Some(
                    (op, spec_backoff(op.current_retries, RETRY_CAP_MS, jitter) as u64),
                ),
                None => next is None,
            },
    {
        if self.current_retries < self.retries {
            let op = RetryOp {
                retries: self.retries,
                current_retries: self.current_retries + 1,
            };
            Some((op, backoff_delay(op.current_retries, RETRY_CAP_MS, jitter)))
        } else {
            None
        }
    }
}

/// What follows an attempt.
pub enum RetryStep<T, E> {
    /// Nothing: the result stands.
    Done(Result<T, E>),
    /// After a pause, in milliseconds, another attempt.
    Sleep(u64, RetryOp),
}

/// Takes the result of an attempt: a success stands, and so does a failure if no retry is left;
/// otherwise another attempt follows.
pub fn retry_op<T, E>(op: RetryOp, result: Result<T, E>, jitter: u64) -> (step: RetryStep<T, E>)
    ensures
        match (result, op.spec_failed()) {
            (Err(_), Some(next)) => step == RetryStep::<T, E>::Sleep(
                spec_backoff(next.current_retries, RETRY_CAP_MS, jitter) as u64,
                next,
            ),
            _ => step == RetryStep::Done(result),
        },
{
    match result {
        Ok(t) => RetryStep::Done(Ok(t)),
        Err(err) => match op.failed(jitter) {
            Some((next, pause)) => RetryStep::Sleep(pause, next),
            None => RetryStep::Done(Err(err)),
        },
    }
}

/// The attempt that follows the given number of failures, if the retries allow it.
pub open spec fn after_failures(op: RetryOp, failures: nat) -> Option<RetryOp>
    decreases failures,
{
    if failures == 0 {
        Some(op)
    } else {
        match after_failures(op, (failures - 1) as nat) {
            Some(last) => last.spec_failed(),
            None => None,
        }
    }
}

/// An operation is tried once more than there are retries, and not oftener.
pub proof fn lemma_attempts(retries: u64, failures: nat)
    ensures
        after_failures(RetryOp { retries, current_retries: 0 }, failures) == (if failures <= retries {
            Some(RetryOp { retries, current_retries: failures as u64 })
        } else {
            None
        }),
    decreases failures,
{
    if failures > 0 {
        lemma_attempts(retries, (failures - 1) as nat);
    }
}

/// A pause grows with the number of retries, and is never longer than the cap.
pub proof fn lemma_backoff_grows(retries: u64, later: u64, cap: u64, jitter: u64)
    requires
        retries <= later,
    ensures
        spec_backoff(retries, cap, jitter) <= spec_backoff(later, cap, jitter) <= cap,
{
    let few = if retries < MAX_DOUBLINGS {
        retries as nat
    } else {
        MAX_DOUBLINGS as nat
    };
    let many = if later < MAX_DOUBLINGS {
        later as nat
    } else {
        MAX_DOUBLINGS as nat
    };
    if few < many {
        lemma_pow2_strictly_increases(few, many);
    }
}

/// Without a cap in its way, a pause is the unit of 25 milliseconds, doubled by each of the first ten
/// retries and by none after that, and lengthened by the jitter.
pub proof fn lemma_backoff_doubles(retries: u64, cap: u64, jitter: u64)
    ensures
        spec_backoff(0, cap, jitter) == (if 25 + jitter < cap {
            25 + jitter
        } else {
            cap as int
        }),
        0 < retries <= 10 ==> spec_backoff(retries, cap, jitter) == ({
            let doubled = 2 * (25 * pow2((retries - 1) as nat)) + jitter;
            if doubled < cap {
                doubled
            } else {
                cap as int
            }
        }),
        retries >= 10 ==> spec_backoff(retries, cap, jitter) == spec_backoff(10, cap, jitter),
{
    lemma2_to64();
    if 0 < retries <= 10 {
        lemma_pow2_unfold(retries as nat);
    }
}

/// An attempt follows a failed one exactly as long as retries are left; each uses up one.
pub proof fn lemma_retry_left(op: RetryOp)
    ensures
        op.spec_failed() is Some <==> op.current_retries < op.retries,
        op.spec_failed() matches Some(next) ==> next.retries == op.retries && next.current_retries
            == op.current_retries + 1,
{
}

} // verus!
