//! Per-engine admission control: one token bucket for each known engine.
//! Time is handed in by the caller, in milliseconds of a monotonic clock.

use vstd::prelude::*;
use crate::text::chars_of;

verus! {

/// Thousandths of a token in one token.
pub const MILLI: u64 = 1000;

/// A token bucket. Tokens are counted in thousandths, so that a refill over a
/// few milliseconds is not lost.
#[derive(Clone, Copy, Debug)]
pub struct TokenBucket {
    pub capacity: u32,
    pub refill_per_second: u32,
    pub available_milli: u64,
    pub last_refill_ms: u64,
}

/// The tokens, in thousandths, that `b` holds at `now`: what it held, plus
/// what the elapsed time refilled, up to its capacity. A clock that went back
/// refills nothing.
pub open spec fn refilled(b: TokenBucket, now: u64) -> nat {
    let elapsed: nat = if now > b.last_refill_ms {
        (now - b.last_refill_ms) as nat
    } else {
        0
    };
    let full = b.capacity * MILLI;
    let t = b.available_milli + elapsed * b.refill_per_second;
    if t >= full {
        full as nat
    } else {
        t as nat
    }
}

/// One admission attempt on `b` at `now`: the bucket afterwards, and whether a
/// whole token was there to take.
pub open spec fn acquire(b: TokenBucket, now: u64) -> (TokenBucket, bool) {
    let t = refilled(b, now);
    let ok = t >= MILLI;
    let b2 = TokenBucket {
        capacity: b.capacity,
        refill_per_second: b.refill_per_second,
        available_milli: if ok {
            (t - MILLI) as u64
        } else {
            t as u64
        },
        last_refill_ms: if now > b.last_refill_ms {
            now
        } else {
            b.last_refill_ms
        },
    };
    (b2, ok)
}

impl TokenBucket {
    /// The bucket holds no more than its capacity.
    pub open spec fn wf(&self) -> bool {
        self.available_milli <= self.capacity * MILLI
    }

    /// A full bucket, last refilled at `now_ms`.
    pub fn new(capacity: u32, refill_per_second: u32, now_ms: u64) -> (r: TokenBucket)
        ensures
            r.capacity == capacity,
            r.refill_per_second == refill_per_second,
            r.available_milli == capacity * MILLI,
            r.last_refill_ms == now_ms,
            r.wf(),
    {
        TokenBucket {
            capacity,
            refill_per_second,
            available_milli: capacity as u64 * MILLI,
            last_refill_ms: now_ms,
        }
    }

    /// Refills the bucket up to `now_ms`, then takes one token if there is
    /// one. Never waits: `false` means no token was there.
    pub fn try_acquire(&mut self, now_ms: u64) -> (r: bool)
        requires
            old(self).wf(),
        ensures
            (*final(self), r) == acquire(*old(self), now_ms),
            final(self).wf(),
    {
        let elapsed: u64 = if now_ms > self.last_refill_ms {
            now_ms - self.last_refill_ms
        } else {
            0
        };
        let full: u64 = self.capacity as u64 * MILLI;
        let rate: u128 = self.refill_per_second as u128;
        assert(elapsed as int * rate as int <= 0xffff_ffff_ffff_ffffint * 0xffff_ffffint) by (nonlinear_arith)
            requires elapsed <= 0xffff_ffff_ffff_ffffu64, rate <= 0xffff_ffffu128, rate >= 0, elapsed >= 0;
        let gained: u128 = elapsed as u128 * rate;
        let t: u128 = self.available_milli as u128 + gained;
        let now_tokens: u64 = if t >= full as u128 { full } else { t as u64 };
        let ok = now_tokens >= MILLI;
        self.available_milli = if ok { now_tokens - MILLI } else { now_tokens };
        if now_ms > self.last_refill_ms {
            self.last_refill_ms = now_ms;
        }
        ok
    }
}

/// Five rapid attempts on a fresh bucket of five tokens refilled at five per
/// second all succeed when they fall within one millisecond, a sixth right
/// after fails, and one more a second later succeeds again.
pub proof fn burst_then_refill(
    b: TokenBucket,
    t1: u64,
    t2: u64,
    t3: u64,
    t4: u64,
    t5: u64,
    t6: u64,
    t7: u64,
)
    requires
        b.capacity == 5,
        b.refill_per_second == 5,
        b.available_milli == 5 * MILLI,
        b.last_refill_ms <= t1 <= t2 <= t3 <= t4 <= t5 <= t6,
        t6 <= t1 + 1,
        t7 >= t6 + 1000,
    ensures
        ({
            let (b1, r1) = acquire(b, t1);
            let (b2, r2) = acquire(b1, t2);
            let (b3, r3) = acquire(b2, t3);
            let (b4, r4) = acquire(b3, t4);
            let (b5, r5) = acquire(b4, t5);
            let (b6, r6) = acquire(b5, t6);
            let (b7, r7) = acquire(b6, t7);
            r1 && r2 && r3 && r4 && r5 && !r6 && r7
        }),
{
    let (b1, r1) = acquire(b, t1);
    let (b2, r2) = acquire(b1, t2);
    let (b3, r3) = acquire(b2, t3);
    let (b4, r4) = acquire(b3, t4);
    let (b5, r5) = acquire(b4, t5);
    let (b6, r6) = acquire(b5, t6);
    let (b7, r7) = acquire(b6, t7);
    assert(r1 && b1.available_milli == 4000 && b1.last_refill_ms == t1);
    assert(b2.available_milli <= 3000 + 5 * (t2 - t1) && b2.last_refill_ms == t2 && r2);
    assert(b3.available_milli <= 2000 + 5 * (t3 - t1) && b3.last_refill_ms == t3 && r3);
    assert(b4.available_milli <= 1000 + 5 * (t4 - t1) && b4.last_refill_ms == t4 && r4);
    assert(b5.available_milli <= 5 * (t5 - t1) && b5.last_refill_ms == t5 && r5);
    assert(!r6 && b6.last_refill_ms == t6);
    assert(r7);
}

/// Admission control over named engines. An engine without a bucket is always
/// admitted.
#[derive(Clone, Debug)]
pub struct RateLimiter {
    pub names: Vec<String>,
    pub buckets: Vec<TokenBucket>,
}

/// The position of the first name of `names` equal to `name`, if any.
pub open spec fn position_of(names: Seq<String>, name: Seq<char>) -> Option<int>
    decreases names.len(),
{
    if names.len() == 0 {
        None
    } else {
        match position_of(names.drop_last(), name) {
            Some(i) => Some(i),
            None => if names.last()@ == name {
                Some(names.len() - 1)
            } else {
                None
            },
        }
    }
}

proof fn lemma_position_of(names: Seq<String>, name: Seq<char>, i: int)
    requires
        0 <= i <= names.len(),
        forall|k: int| 0 <= k < i ==> #[trigger] names[k]@ != name,
    ensures
        i < names.len() && names[i]@ == name ==> position_of(names, name) == Some(i),
        i == names.len() ==> position_of(names, name) is None,
    decreases names.len(),
{
    if names.len() > 0 {
        if i < names.len() {
            if names[i]@ == name && i < names.len() - 1 {
                lemma_position_of(names.drop_last(), name, i);
            } else if i == names.len() - 1 {
                lemma_position_of(names.drop_last(), name, i);
            }
        } else {
            lemma_position_of(names.drop_last(), name, i - 1);
        }
    }
}

/// One admission attempt for `name` at `now` on a limiter with `names` and
/// `buckets`: the buckets afterwards, and whether the engine is admitted.
pub open spec fn check(names: Seq<String>, buckets: Seq<TokenBucket>, name: Seq<char>, now: u64) -> (
    Seq<TokenBucket>,
    bool,
) {
    match position_of(names, name) {
        Some(i) => {
            let (b, ok) = acquire(buckets[i], now);
            (buckets.update(i, b), ok)
        },
        None => (buckets, true),
    }
}

/// The position of the first of `names` equal to `name`.
pub fn find_name(names: &Vec<String>, name: &str) -> (r: Option<usize>)
    ensures
        match r {
            Some(i) => i < names@.len() && position_of(names@, name@) == Some(i as int),
            None => position_of(names@, name@) is None,
        },
{
    let target = chars_of(name);
    let mut i: usize = 0;
    while i < names.len()
        invariant
            i <= names@.len(),
            target@ == name@,
            forall|k: int| 0 <= k < i ==> #[trigger] names@[k]@ != name@,
        decreases names@.len() - i,
    {
        let candidate = chars_of(names[i].as_str());
        if crate::text::chars_equal(&candidate, &target) {
            proof {
                lemma_position_of(names@, name@, i as int);
            }
            return Some(i);
        }
        i = i + 1;
    }
    proof {
        lemma_position_of(names@, name@, i as int);
    }
    None
}

impl RateLimiter {
    /// One bucket for each name, and every bucket within its capacity.
    pub open spec fn wf(&self) -> bool {
        &&& self.names@.len() == self.buckets@.len()
        &&& forall|i: int| 0 <= i < self.buckets@.len() ==> #[trigger] self.buckets@[i].wf()
    }

    /// A limiter with no engines: every engine is admitted.
    pub fn empty() -> (r: RateLimiter)
        ensures
            r.wf(),
            r.names@.len() == 0,
    {
        RateLimiter { names: Vec::new(), buckets: Vec::new() }
    }

    /// Gives `engine` a full bucket of `capacity` tokens refilled at
    /// `refill_per_second`, replacing any bucket it had.
    pub fn add_engine(&mut self, engine: &str, capacity: u32, refill_per_second: u32, now_ms: u64)
        requires
            old(self).wf(),
        ensures
            final(self).wf(),
            ({
                let p = position_of(old(self).names@, engine@);
                let b = TokenBucket {
                    capacity,
                    refill_per_second,
                    available_milli: (capacity * MILLI) as u64,
                    last_refill_ms: now_ms,
                };
                match p {
                    Some(i) => final(self).names@ == old(self).names@ && final(self).buckets@
                        == old(self).buckets@.update(i, b),
                    None => final(self).names@.len() == old(self).names@.len() + 1
                        && final(self).names@.drop_last() == old(self).names@
                        && final(self).names@.last()@ == engine@ && final(self).buckets@
                        == old(self).buckets@.push(b),
                }
            }),
    {
        let b = TokenBucket::new(capacity, refill_per_second, now_ms);
        match self.find(engine) {
            Some(i) => {
                self.buckets.set(i, b);
            },
            None => {
                self.names.push(String::from_str(engine));
                self.buckets.push(b);
                proof {
                    assert(self.names@.drop_last() =~= old(self).names@);
                }
            },
        }
    }

    /// The reference configuration: Google and DuckDuckGo, each with five
    /// tokens refilled at five per second, full at `now_ms`.
    pub fn new(now_ms: u64) -> (r: RateLimiter)
        ensures
            r.wf(),
            r.names@.len() == 2,
            r.names@[0]@ == "Google"@,
            r.names@[1]@ == "DuckDuckGo"@,
            forall|i: int|
                0 <= i < 2 ==> #[trigger] r.buckets@[i] == TokenBucket::new_spec(5, 5, now_ms),
    {
        let mut r = RateLimiter::empty();
        proof {
            reveal_strlit("Google");
            reveal_strlit("DuckDuckGo");
        }
        r.add_engine("Google", 5, 5, now_ms);
        assert(r.names@.len() == 1);
        assert("Google"@ != "DuckDuckGo"@) by {
            assert("Google"@.len() != "DuckDuckGo"@.len());
        }
        assert(position_of(r.names@, "DuckDuckGo"@) is None) by {
            assert(r.names@.drop_last().len() == 0);
            assert(r.names@.last()@ == "Google"@);
            assert(position_of(r.names@.drop_last(), "DuckDuckGo"@) is None);
        }
        r.add_engine("DuckDuckGo", 5, 5, now_ms);
        assert(r.names@[0] == r.names@.drop_last()[0]);
        r
    }

    /// The position of `engine` among the names.
    fn find(&self, engine: &str) -> (r: Option<usize>)
        ensures
            match r {
                Some(i) => i < self.names@.len() && position_of(self.names@, engine@) == Some(i as int),
                None => position_of(self.names@, engine@) is None,
            },
    {
        find_name(&self.names, engine)
    }

    /// Whether `engine` may be queried now, taking a token from its bucket
    /// if it has one. Never waits. An engine without a bucket is admitted.
    pub fn check_rate_limit(&mut self, engine: &str, now_ms: u64) -> (r: bool)
        requires
            old(self).wf(),
        ensures
            final(self).wf(),
            final(self).names@ == old(self).names@,
            (final(self).buckets@, r) == check(old(self).names@, old(self).buckets@, engine@, now_ms),
    {
        match self.find(engine) {
            Some(i) => {
                let mut b = self.buckets[i];
                let ok = b.try_acquire(now_ms);
                self.buckets.set(i, b);
                ok
            },
            None => true,
        }
    }
}

impl TokenBucket {
    /// A full bucket, as `new` makes it.
    pub open spec fn new_spec(capacity: u32, refill_per_second: u32, now_ms: u64) -> TokenBucket {
        TokenBucket {
            capacity,
            refill_per_second,
            available_milli: (capacity * MILLI) as u64,
            last_refill_ms: now_ms,
        }
    }
}

} // verus!
