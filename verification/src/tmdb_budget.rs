//! The budget of TMDB requests: a token bucket that refills with time and
//! freezes while TMDB asks for a pause.
//!
//! Times are nanoseconds of a clock that does not go back. Rates and capacities
//! are given in billionths of a token, so that the bucket counts exactly: one
//! nanosecond at a rate of one billionth of a token per second is one part in
//! [`TOKEN`] of a token.

use vstd::prelude::*;

verus! {

/// One token, in the parts that the bucket counts.
pub const TOKEN: u128 = 1_000_000_000_000_000_000;

/// Parts of a token in one billionth of a token.
pub const PARTS_PER_NANOTOKEN: u128 = 1_000_000_000;

/// The usual refill rate: three requests a second, in billionths of a token.
pub const DEFAULT_TMDB_REFILL_PER_SEC: u64 = 3_000_000_000;

/// The usual burst: six requests, in billionths of a token.
pub const DEFAULT_TMDB_BURST: u64 = 6_000_000_000;

/// The end of a wait for a token.
#[derive(Clone, Copy, Debug, PartialEq, Eq, Structural)]
pub enum Lease {
    /// One request may be made.
    Granted,
    /// No token came in time.
    DeadlineExceeded,
}

/// The state of a wait for a token.
#[derive(Clone, Copy, Debug, PartialEq, Eq, Structural)]
pub enum Acquire {
    /// The wait is over.
    Done(Lease),
    /// Look again after this many nanoseconds, or when the budget changed.
    Wait(u128),
}

/// A token bucket.
#[derive(Debug)]
pub struct TmdbBudget {
    tokens: u128,
    capacity: u128,
    rate: u64,
    last_refill: u128,
    paused_until: Option<u128>,
}

/// What a [`TmdbBudget`] holds: tokens and capacity in parts of a token, the
/// rate in parts per nanosecond.
#[verifier::ext_equal]
pub struct BudgetView {
    pub tokens: nat,
    pub capacity: nat,
    pub rate: nat,
    pub last_refill: nat,
    pub paused_until: Option<nat>,
}

impl View for TmdbBudget {
    type V = BudgetView;

    closed spec fn view(&self) -> BudgetView {
        BudgetView {
            tokens: self.tokens as nat,
            capacity: self.capacity as nat,
            rate: self.rate as nat,
            last_refill: self.last_refill as nat,
            paused_until: match self.paused_until {
                Some(t) => Some(t as nat),
                None => None,
            },
        }
    }
}

/// The bucket holds no more than it can.
pub open spec fn is_sound(b: BudgetView) -> bool {
    b.tokens <= b.capacity
}

/// The lesser of two numbers.
pub open spec fn least(a: nat, b: nat) -> nat {
    if a <= b {
        a
    } else {
        b
    }
}

/// The bucket refilled for the time since its last refill.
pub open spec fn refilled(b: BudgetView, now: nat) -> BudgetView {
    if now > b.last_refill {
        BudgetView {
            tokens: least(b.tokens + ((now - b.last_refill) as nat) * b.rate, b.capacity),
            last_refill: now,
            ..b
        }
    } else {
        b
    }
}

/// Grants are frozen at `now`.
pub open spec fn is_paused(b: BudgetView, now: nat) -> bool {
    b.paused_until matches Some(until) && now < until
}

/// The bucket with a pause that is over taken away.
pub open spec fn thawed(b: BudgetView, now: nat) -> BudgetView {
    if is_paused(b, now) {
        b
    } else {
        BudgetView { paused_until: None, ..b }
    }
}

/// The bucket as it is judged at `now`: refilled unless it is frozen.
pub open spec fn judged(b: BudgetView, now: nat) -> BudgetView {
    if is_paused(b, now) {
        b
    } else {
        refilled(thawed(b, now), now)
    }
}

/// A token can be had at `now`.
pub open spec fn can_grant(b: BudgetView, now: nat) -> bool {
    !is_paused(b, now) && judged(b, now).tokens >= TOKEN
}

/// Nanoseconds until the bucket might grant: the rest of the pause, or the time
/// in which the missing part of a token comes in; without a refill, for ever.
pub open spec fn wait_time(b: BudgetView, now: nat) -> Option<nat> {
    match b.paused_until {
        Some(until) => Some((until - now) as nat),
        None => if b.rate > 0 {
            Some(((TOKEN - b.tokens + b.rate - 1) / (b.rate as int)) as nat)
        } else {
            None
        },
    }
}

/// The state of a wait that gives up at `give_up_at`, at `now`. After a pause
/// in the wait (`woken`), a deadline that has passed ends it first of all.
pub open spec fn acquire_state(
    b: BudgetView,
    now: nat,
    give_up_at: nat,
    woken: bool,
) -> Acquire {
    if woken && now >= give_up_at {
        Acquire::Done(Lease::DeadlineExceeded)
    } else if can_grant(b, now) {
        Acquire::Done(Lease::Granted)
    } else if now >= give_up_at {
        Acquire::Done(Lease::DeadlineExceeded)
    } else {
        let left = (give_up_at - now) as nat;
        Acquire::Wait(
            match wait_time(judged(b, now), now) {
                Some(w) => least(w, left) as u128,
                None => left as u128,
            },
        )
    }
}

/// The bucket after that: a grant takes one token out.
pub open spec fn acquired(b: BudgetView, now: nat, give_up_at: nat, woken: bool) -> BudgetView {
    if woken && now >= give_up_at {
        b
    } else if can_grant(b, now) {
        let j = judged(b, now);
        BudgetView { tokens: (j.tokens - TOKEN) as nat, ..j }
    } else {
        judged(b, now)
    }
}

/// The bucket after TMDB asked at `now` for a pause of `retry_after`
/// nanoseconds. A pause is extended but never shortened.
pub open spec fn paused(b: BudgetView, now: nat, retry_after: nat) -> BudgetView {
    let until = now + retry_after;
    BudgetView {
        paused_until: match b.paused_until {
            Some(t) => if t > until {
                Some(t)
            } else {
                Some(until)
            },
            None => Some(until),
        },
        ..b
    }
}

proof fn lemma_refill_small(elapsed: nat, rate: nat, room: nat)
    requires
        rate > 0,
        elapsed <= room / rate,
    ensures
        elapsed * rate <= room,
{
    assert(elapsed * rate <= (room / rate) * rate) by (nonlinear_arith)
        requires
            elapsed <= room / rate,
    ;
    assert((room / rate) * rate <= room) by (nonlinear_arith)
        requires
            rate > 0,
    ;
}

proof fn lemma_refill_large(elapsed: nat, rate: nat, room: nat)
    requires
        rate > 0,
        elapsed > room / rate,
    ensures
        elapsed * rate > room,
{
    assert(elapsed * rate >= (room / rate + 1) * rate) by (nonlinear_arith)
        requires
            elapsed >= room / rate + 1,
    ;
    assert((room / rate + 1) * rate > room) by (nonlinear_arith)
        requires
            rate > 0,
    ;
}

impl TmdbBudget {
    #[verifier::type_invariant]
    spec fn sound(self) -> bool {
        self.tokens <= self.capacity && self.capacity <= u64::MAX * PARTS_PER_NANOTOKEN
    }

    /// A full bucket that refills at `refill_per_sec` and holds `capacity`, both
    /// in billionths of a token.
    pub fn new(refill_per_sec: u64, capacity: u64, now: u64) -> (r: Self)
        ensures
            r@ == (BudgetView {
                tokens: (capacity * PARTS_PER_NANOTOKEN) as nat,
                capacity: (capacity * PARTS_PER_NANOTOKEN) as nat,
                rate: refill_per_sec as nat,
                last_refill: now as nat,
                paused_until: None,
            }),
            is_sound(r@),
    {
        let parts: u128 = capacity as u128 * PARTS_PER_NANOTOKEN;
        TmdbBudget {
            tokens: parts,
            capacity: parts,
            rate: refill_per_sec,
            last_refill: now as u128,
            paused_until: None,
        }
    }

    /// Refills the bucket for the time since its last refill.
    fn refill(&mut self, now: u128)
        ensures
            final(self)@ == refilled(old(self)@, now as nat),
    {
        proof {
            use_type_invariant(&*self);
        }
        if now > self.last_refill {
            let elapsed: u128 = now - self.last_refill;
            let room: u128 = self.capacity - self.tokens;
            let rate: u128 = self.rate as u128;
            if rate == 0 {
                assert(elapsed * rate == 0) by (nonlinear_arith)
                    requires
                        rate == 0,
                ;
            } else if elapsed > room / rate {
                proof {
                    lemma_refill_large(elapsed as nat, rate as nat, room as nat);
                }
                self.tokens = self.capacity;
            } else {
                proof {
                    lemma_refill_small(elapsed as nat, rate as nat, room as nat);
                }
                self.tokens = self.tokens + elapsed * rate;
            }
            self.last_refill = now;
        }
    }

    /// Looks whether a wait for one token is over at `clock`. The wait gives
    /// up at `give_up_at`; `woken` tells that it has been going on already.
    pub fn acquire(&mut self, clock: u64, give_up_at: u128, woken: bool) -> (r: Acquire)
        ensures
            r == acquire_state(old(self)@, clock as nat, give_up_at as nat, woken),
            final(self)@ == acquired(old(self)@, clock as nat, give_up_at as nat, woken),
            is_sound(final(self)@),
    {
        proof {
            use_type_invariant(&*self);
        }
        let now: u128 = clock as u128;
        if woken && now >= give_up_at {
            return Acquire::Done(Lease::DeadlineExceeded);
        }
        if let Some(until) = self.paused_until {
            if now >= until {
                self.paused_until = None;
            }
        }
        if self.paused_until.is_none() {
            self.refill(now);
            proof {
                use_type_invariant(&*self);
            }
            if self.tokens >= TOKEN {
                self.tokens = self.tokens - TOKEN;
                return Acquire::Done(Lease::Granted);
            }
        }
        if now >= give_up_at {
            return Acquire::Done(Lease::DeadlineExceeded);
        }
        let left: u128 = give_up_at - now;
        let wait: u128 = match self.paused_until {
            Some(until) => until - now,
            None => if self.rate > 0 {
                (TOKEN - self.tokens + (self.rate as u128 - 1)) / self.rate as u128
            } else {
                left
            },
        };
        if wait <= left {
            Acquire::Wait(wait)
        } else {
            Acquire::Wait(left)
        }
    }

    /// Freezes all grants for `retry_after` nanoseconds from `now`.
    pub fn note_429(&mut self, now: u64, retry_after: u128)
        requires
            now + retry_after <= u128::MAX,
        ensures
            final(self)@ == paused(old(self)@, now as nat, retry_after as nat),
    {
        proof {
            use_type_invariant(&*self);
        }
        let until: u128 = now as u128 + retry_after;
        match self.paused_until {
            Some(t) => {
                if t <= until {
                    self.paused_until = Some(until);
                }
            },
            None => {
                self.paused_until = Some(until);
            },
        }
    }
}

/// A pause lasts at least as long as was asked, is never shortened, and takes
/// no token.
pub proof fn pause_is_never_shortened(b: BudgetView, now: nat, retry_after: nat)
    ensures
        paused(b, now, retry_after).paused_until matches Some(until) && {
            &&& until >= now + retry_after
            &&& b.paused_until matches Some(t) ==> until >= t
        },
        paused(b, now, retry_after).tokens == b.tokens,
{
}

/// While a pause lasts nothing is granted, however many tokens there are.
pub proof fn pause_freezes_grants(
    b: BudgetView,
    asked: nat,
    retry_after: nat,
    now: nat,
    give_up_at: nat,
    woken: bool,
)
    requires
        now < asked + retry_after,
    ensures
        acquire_state(paused(b, asked, retry_after), now, give_up_at, woken) != Acquire::Done(
            Lease::Granted,
        ),
{
}

/// A wait that was not granted takes no token out.
pub proof fn refusal_spends_nothing(b: BudgetView, now: nat, give_up_at: nat, woken: bool)
    requires
        is_sound(b),
        acquire_state(b, now, give_up_at, woken) != Acquire::Done(Lease::Granted),
    ensures
        acquired(b, now, give_up_at, woken).tokens >= b.tokens,
{
    assert(((now - b.last_refill) as nat) * b.rate >= 0) by (nonlinear_arith);
}

/// A bucket with a whole token that is not frozen grants at once, unless a wait
/// is past its deadline.
pub proof fn tokens_are_granted_at_once(b: BudgetView, now: nat, give_up_at: nat)
    requires
        is_sound(b),
        b.tokens >= TOKEN,
        !is_paused(b, now),
    ensures
        acquire_state(b, now, give_up_at, false) == Acquire::Done(Lease::Granted),
        acquired(b, now, give_up_at, false).tokens >= b.tokens - TOKEN,
{
    assert(((now - b.last_refill) as nat) * b.rate >= 0) by (nonlinear_arith);
}

/// Waiting as long as was said is enough: where the budget is not frozen,
/// nothing else happened and the deadline has not passed, the wait ends with a
/// grant.
pub proof fn waiting_as_told_is_enough(b: BudgetView, now: nat, give_up_at: nat, wait: nat)
    requires
        is_sound(b),
        b.capacity >= TOKEN,
        b.last_refill <= now,
        !is_paused(b, now),
        b.rate > 0,
        give_up_at <= u128::MAX,
        acquire_state(b, now, give_up_at, false) == Acquire::Wait(wait as u128),
        wait <= u128::MAX,
        now + wait < give_up_at,
    ensures
        acquire_state(
            acquired(b, now, give_up_at, false),
            now + wait,
            give_up_at,
            true,
        ) == Acquire::Done(Lease::Granted),
{
    let j = judged(b, now);
    let missing = (TOKEN - j.tokens) as nat;
    let need = ((missing + b.rate - 1) / (b.rate as int)) as nat;
    assert(wait == need);
    assert(need * b.rate >= missing) by (nonlinear_arith)
        requires
            need == (missing + b.rate - 1) / (b.rate as int),
            b.rate > 0,
    ;
    let after = acquired(b, now, give_up_at, false);
    assert(after == j);
    assert(need > 0) by (nonlinear_arith)
        requires
            need * b.rate >= missing,
            missing > 0,
    ;
    assert(after.last_refill == now);
    let later = judged(after, now + wait);
    assert(((now + wait - after.last_refill) as nat) * after.rate == need * b.rate);
    assert(later.tokens >= TOKEN);
}

/// Something that happens to a budget.
pub enum Happening {
    /// A wait for a token is looked at.
    Acquire { now: nat, give_up_at: nat, woken: bool },
    /// TMDB asks for a pause.
    Pause { now: nat, retry_after: nat },
}

/// The budget after one happening.
pub open spec fn after_one(b: BudgetView, h: Happening) -> BudgetView {
    match h {
        Happening::Acquire { now, give_up_at, woken } => acquired(b, now, give_up_at, woken),
        Happening::Pause { now, retry_after } => paused(b, now, retry_after),
    }
}

/// The happening ends with a grant.
pub open spec fn is_grant(b: BudgetView, h: Happening) -> bool {
    match h {
        Happening::Acquire { now, give_up_at, woken } => acquire_state(b, now, give_up_at, woken)
            == Acquire::Done(Lease::Granted),
        Happening::Pause { .. } => false,
    }
}

/// The budget after a list of happenings.
pub open spec fn after_all(b: BudgetView, hs: Seq<Happening>) -> BudgetView
    decreases hs.len(),
{
    if hs.len() == 0 {
        b
    } else {
        after_one(after_all(b, hs.drop_last()), hs.last())
    }
}

/// Number of grants among a list of happenings.
pub open spec fn grants(b: BudgetView, hs: Seq<Happening>) -> nat
    decreases hs.len(),
{
    if hs.len() == 0 {
        0
    } else {
        grants(b, hs.drop_last()) + (if is_grant(after_all(b, hs.drop_last()), hs.last()) {
            1nat
        } else {
            0nat
        })
    }
}

proof fn lemma_judged(b: BudgetView, now: nat)
    requires
        is_sound(b),
    ensures
        is_sound(judged(b, now)),
        judged(b, now).capacity == b.capacity,
        judged(b, now).rate == b.rate,
        judged(b, now).last_refill >= b.last_refill,
        judged(b, now).tokens >= b.tokens,
        judged(b, now).tokens <= b.tokens + ((judged(b, now).last_refill - b.last_refill) as nat)
            * b.rate,
{
    assert(((now - b.last_refill) as nat) * b.rate >= 0) by (nonlinear_arith);
    assert(0nat * b.rate == 0) by (nonlinear_arith);
}

/// Whatever happens, the budget holds no more than its capacity, and it grants
/// no more requests than one capacity and the refill of the time that passed
/// pay for.
pub proof fn throttle_holds(b: BudgetView, hs: Seq<Happening>)
    requires
        is_sound(b),
    ensures
        is_sound(after_all(b, hs)),
        after_all(b, hs).capacity == b.capacity,
        after_all(b, hs).rate == b.rate,
        after_all(b, hs).last_refill >= b.last_refill,
        grants(b, hs) * TOKEN + after_all(b, hs).tokens <= b.tokens + ((after_all(
            b,
            hs,
        ).last_refill - b.last_refill) as nat) * b.rate,
    decreases hs.len(),
{
    if hs.len() == 0 {
        assert(0nat * b.rate == 0) by (nonlinear_arith);
    } else {
        let init = hs.drop_last();
        throttle_holds(b, init);
        let m = after_all(b, init);
        let f = after_all(b, hs);
        match hs.last() {
            Happening::Acquire { now, give_up_at, woken } => {
                lemma_judged(m, now);
                let before = (m.last_refill - b.last_refill) as nat;
                let step = (judged(m, now).last_refill - m.last_refill) as nat;
                assert((before + step) * b.rate == before * b.rate + step * b.rate)
                    by (nonlinear_arith);
                assert(0nat * b.rate == 0) by (nonlinear_arith);
                if woken && now >= give_up_at {
                    assert(f == m);
                } else {
                    assert(f.last_refill - b.last_refill == before + step);
                }
            },
            Happening::Pause { .. } => {},
        }
    }
}

/// Time brings in tokens at the rate of the bucket until it is full; a frozen
/// bucket gets none, and so does one whose clock stood still.
pub proof fn time_brings_tokens(b: BudgetView, now: nat)
    requires
        is_sound(b),
        now >= b.last_refill,
    ensures
        ({
            let earned = (now - b.last_refill) * b.rate;
            let j = judged(b, now);
            &&& j.capacity == b.capacity && j.rate == b.rate
            &&& !is_paused(b, now) && b.tokens + earned <= b.capacity ==> j.tokens == b.tokens
                + earned
            &&& !is_paused(b, now) && b.tokens + earned > b.capacity ==> j.tokens == b.capacity
            &&& !is_paused(b, now) ==> j.last_refill == now && j.paused_until is None
            &&& is_paused(b, now) ==> j == b
        }),
{
    assert(0nat * b.rate == 0) by (nonlinear_arith);
}

/// A wait ends with a grant exactly if there is a whole token and no pause and the
/// wait was not cut off before; a grant takes one token. It ends without one
/// exactly if it is at its deadline. Otherwise it goes on, no longer than to the
/// deadline, and in a pause no longer than that.
pub proof fn waits_end_at_grant_or_deadline(
    b: BudgetView,
    now: nat,
    give_up_at: nat,
    woken: bool,
)
    requires
        is_sound(b),
        give_up_at <= u128::MAX,
    ensures
        ({
            let state = acquire_state(b, now, give_up_at, woken);
            let ready = !is_paused(b, now) && judged(b, now).tokens >= 1_000_000_000_000_000_000;
            &&& state == Acquire::Done(Lease::Granted) <==> ready && !(woken && now >= give_up_at)
            &&& state == Acquire::Done(Lease::Granted) ==> acquired(
                b,
                now,
                give_up_at,
                woken,
            ).tokens + 1_000_000_000_000_000_000 == judged(b, now).tokens
            &&& state == Acquire::Done(Lease::DeadlineExceeded) <==> now >= give_up_at && (woken
                || !ready)
            &&& state matches Acquire::Wait(w) ==> 0 <= w <= give_up_at - now
            &&& state matches Acquire::Wait(w) ==> is_paused(b, now) ==> w == least(
                (b.paused_until->0 - now) as nat,
                (give_up_at - now) as nat,
            )
            &&& state matches Acquire::Wait(w) ==> !is_paused(b, now) && b.rate == 0 ==> w
                == give_up_at - now
        }),
{
}

/// No less than what was said is enough: before that time the token is not there.
pub proof fn waiting_less_is_not_enough(
    b: BudgetView,
    now: nat,
    give_up_at: nat,
    wait: nat,
    less: nat,
)
    requires
        is_sound(b),
        b.last_refill <= now,
        !is_paused(b, now),
        b.rate > 0,
        give_up_at <= u128::MAX,
        acquire_state(b, now, give_up_at, false) == Acquire::Wait(wait as u128),
        wait <= u128::MAX,
        less < wait,
    ensures
        !can_grant(acquired(b, now, give_up_at, false), now + less),
{
    let j = judged(b, now);
    let missing = (TOKEN - j.tokens) as nat;
    let need = ((missing + b.rate - 1) / (b.rate as int)) as nat;
    assert(wait <= need);
    assert(less * b.rate < missing) by (nonlinear_arith)
        requires
            need == (missing + b.rate - 1) / (b.rate as int),
            b.rate > 0,
            less < need,
            missing > 0,
    ;
    let after = acquired(b, now, give_up_at, false);
    assert(after == j);
    time_brings_tokens(b, now);
    assert(after.last_refill == now);
    assert(((now + less - after.last_refill) as nat) * after.rate == less * b.rate);
}

/// A pause ends when the time that was asked for is over, or a longer one that was
/// asked for before; then tokens are granted again.
pub proof fn pause_ends_in_time(
    b: BudgetView,
    asked: nat,
    retry_after: nat,
    now: nat,
    give_up_at: nat,
)
    requires
        is_sound(b),
        b.tokens >= TOKEN,
        now >= asked + retry_after,
        b.paused_until matches Some(t) ==> now >= t,
    ensures
        acquire_state(paused(b, asked, retry_after), now, give_up_at, false) == Acquire::Done(
            Lease::Granted,
        ),
{
    tokens_are_granted_at_once(paused(b, asked, retry_after), now, give_up_at);
}

/// A new bucket is full, refills at the rate that it was given, and is not frozen.
pub proof fn new_bucket_is_full(
    refill_per_sec: u64,
    capacity: u64,
    now: u64,
    r: TmdbBudget,
)
    requires
        call_ensures(TmdbBudget::new, (refill_per_sec, capacity, now), r),
    ensures
        r@.tokens == capacity * 1_000_000_000,
        r@.capacity == r@.tokens,
        r@.rate == refill_per_sec,
        r@.last_refill == now,
        r@.paused_until is None,
        TOKEN == 1_000_000_000 * 1_000_000_000,
        DEFAULT_TMDB_REFILL_PER_SEC == 3 * 1_000_000_000,
        DEFAULT_TMDB_BURST == 6 * 1_000_000_000,
{
}

/// A wait is looked at, and a pause is noted, at the times that were given.
pub proof fn budgets_go_by_the_clock(
    a: &mut TmdbBudget,
    clock: u64,
    give_up_at: u128,
    woken: bool,
    r: Acquire,
    b: &mut TmdbBudget,
    retry_after: u128,
)
    requires
        call_ensures(TmdbBudget::acquire, (a, clock, give_up_at, woken), r),
        clock + retry_after <= u128::MAX,
        call_ensures(TmdbBudget::note_429, (b, clock, retry_after), ()),
    ensures
        r == acquire_state(old(a)@, clock as nat, give_up_at as nat, woken),
        final(a)@ == acquired(old(a)@, clock as nat, give_up_at as nat, woken),
        final(b)@.paused_until matches Some(until) && until >= clock + retry_after,
        final(b)@.tokens == old(b)@.tokens,
        old(b)@.paused_until is None ==> final(b)@.paused_until == Some(
            (clock + retry_after) as nat,
        ),
{
    pause_is_never_shortened(old(b)@, clock as nat, retry_after as nat);
}

} // verus!
