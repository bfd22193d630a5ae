//! The limit on how often replies are sent.

use vstd::prelude::*;

verus! {

/// The number of seconds that pass at least between two replies.
pub const RATE_LIMIT_PERIOD_SECS: u64 = 1;

/// `SystemTime::elapsed`, from the Unix epoch: the seconds, and the nanoseconds beyond them,
/// that the system clock shows; `None` where it stands before the epoch. What the clock shows
/// is left open.
#[verifier::external_body]
pub(crate) fn since_epoch() -> (r: Option<(u64, u32)>)
    ensures
        r matches Some((_, nanos)) ==> nanos < 1_000_000_000,
{
    match std::time::SystemTime::UNIX_EPOCH.elapsed() {
        Ok(time) => Some((time.as_secs(), time.subsec_nanos())),
        Err(_) => None,
    }
}

/// Lets one reply through in each period.
pub struct RateLimiter {
    last_reply: Option<u64>,
}

impl View for RateLimiter {
    type V = Option<u64>;

    /// The second, since the Unix epoch, of the last reply that was let through and timed.
    closed spec fn view(&self) -> Option<u64> {
        self.last_reply
    }
}

/// Whether a reply is let through at `now` (seconds since the Unix epoch; `None` where the
/// clock cannot be read), the last one having gone out at `last`, if there was one.
pub open spec fn lets_through(last: Option<u64>, now: Option<u64>) -> bool {
    match (last, now) {
        (Some(last), Some(t)) => t - last >= RATE_LIMIT_PERIOD_SECS,
        _ => true,
    }
}

/// The time of the last reply, once a reply has been asked for at `now`.
pub open spec fn last_after(last: Option<u64>, now: Option<u64>) -> Option<u64> {
    if now is Some && lets_through(last, now) {
        now
    } else {
        last
    }
}

impl Default for RateLimiter {
    fn default() -> (r: Self)
        ensures
            r@ is None,
    {
        RateLimiter { last_reply: None }
    }
}

/// `reading` is what the system clock showed when it was asked: the seconds and nanoseconds
/// since the Unix epoch, or `None` where it could not be read.
pub closed spec fn clock_shows(reading: Option<(u64, u32)>) -> bool {
    call_ensures(since_epoch, (), reading)
}

/// The whole seconds of a reading.
pub open spec fn secs_of(reading: Option<(u64, u32)>) -> Option<u64> {
    match reading {
        Some((secs, _)) => Some(secs),
        None => None,
    }
}

/// Asks `clock`.
fn read_clock<C: Fn() -> Option<(u64, u32)>>(clock: C) -> (r: Option<(u64, u32)>)
    requires
        call_requires(clock, ()),
    ensures
        call_ensures(clock, (), r),
{
    clock()
}

/// The system clock in whole seconds since the Unix epoch, where it can be read: any number,
/// or none.
pub(crate) fn now_secs() -> (r: Option<u64>)
    ensures
        exists|reading: Option<(u64, u32)>| #[trigger]
            clock_shows(reading) && r == secs_of(reading),
{
    let reading = read_clock(since_epoch);
    assert(clock_shows(reading));
    whole_secs(reading)
}

/// The whole seconds of a reading of the clock, in seconds and nanoseconds since the epoch.
pub fn whole_secs(reading: Option<(u64, u32)>) -> (r: Option<u64>)
    ensures
        reading matches Some((secs, _)) ==> r == Some(secs),
        reading is None ==> r is None,
{
    match reading {
        Some((secs, _)) => Some(secs),
        None => None,
    }
}

impl RateLimiter {
    /// Asks for a reply at the time that the system clock shows. The first request is let
    /// through, whatever it shows.
    pub fn check(&mut self) -> (r: Option<()>)
        ensures
            old(self)@ is None ==> r is Some,
            exists|reading: Option<(u64, u32)>|
                {
                    &&& #[trigger] clock_shows(reading)
                    &&& r is Some <==> lets_through(old(self)@, secs_of(reading))
                    &&& final(self)@ == last_after(old(self)@, secs_of(reading))
                },
            exists|reading: Option<(u64, u32)>|
                {
                    &&& #[trigger] clock_shows(reading)
                    &&& match (old(self)@, reading) {
                        (Some(last), Some((secs, _))) => r is Some <==> secs >= last
                            + RATE_LIMIT_PERIOD_SECS,
                        _ => r is Some,
                    }
                    &&& match reading {
                        Some((secs, _)) if r is Some => final(self)@ == Some(secs),
                        _ => final(self)@ == old(self)@,
                    }
                },
    {
        let now = now_secs();
        self.check_at(now)
    }

    /// Asks for a reply at `now`, in seconds since the Unix epoch. Without a clock nothing is
    /// held back.
    pub fn check_at(&mut self, now: Option<u64>) -> (r: Option<()>)
        ensures
            r is Some <==> lets_through(old(self)@, now),
            final(self)@ == last_after(old(self)@, now),
            match (old(self)@, now) {
                (Some(last), Some(t)) => r is Some <==> t >= last + RATE_LIMIT_PERIOD_SECS,
                _ => r is Some,
            },
            now is Some && r is Some ==> final(self)@ == now,
            now is None || r is None ==> final(self)@ == old(self)@,
    {
        let t = match now {
            Some(t) => t,
            None => {
                return Some(());
            },
        };
        let held_back = match self.last_reply {
            Some(last) => t.saturating_sub(last) < RATE_LIMIT_PERIOD_SECS,
            None => false,
        };
        if held_back {
            None
        } else {
            self.last_reply = Some(t);
            Some(())
        }
    }
}

/// The first request is let through on every clock.
pub proof fn law_first_request_passes(now: Option<u64>)
    ensures
        lets_through(None, now),
{
}

/// What the clock shows is what its reading gave, second by second.
pub(crate) proof fn law_clock_shows_its_reading(reading: Option<(u64, u32)>)
    ensures
        clock_shows(reading) <==> call_ensures(since_epoch, (), reading),
        reading matches Some((secs, _)) ==> secs_of(reading) == Some(secs),
        reading is None ==> secs_of(reading) is None,
{
}

/// A request is decided by the whole seconds that the clock shows: with a last reply at `last`
/// it is let through exactly where the clock shows a second of at least a period later, and then
/// that second is kept; the nanoseconds do not matter.
pub proof fn law_requests_go_by_the_clock(last: u64, secs: u64, nanos: u32)
    requires
        clock_shows(Some((secs, nanos))),
    ensures
        lets_through(Some(last), secs_of(Some((secs, nanos)))) <==> secs >= last
            + RATE_LIMIT_PERIOD_SECS,
        secs >= last + RATE_LIMIT_PERIOD_SECS ==> last_after(
            Some(last),
            secs_of(Some((secs, nanos))),
        ) == Some(secs),
        secs < last + RATE_LIMIT_PERIOD_SECS ==> last_after(
            Some(last),
            secs_of(Some((secs, nanos))),
        ) == Some(last),
{
}

/// With a last reply at `last`, a request at `t` is let through if and only if a whole second
/// lies between them; then `t` is the time of the last reply, and otherwise `last` stays.
pub proof fn law_one_second_lies_between_replies(last: u64, t: u64)
    ensures
        lets_through(Some(last), Some(t)) <==> t > last,
        t > last ==> last_after(Some(last), Some(t)) == Some(t),
        t <= last ==> last_after(Some(last), Some(t)) == Some(last),
{
}

/// The time of the first reply is kept. Without a clock every request is let through and
/// nothing is kept.
pub proof fn law_first_reply_is_timed(last: Option<u64>, t: u64)
    ensures
        last_after(None, Some(t)) == Some(t),
        lets_through(last, None),
        last_after(last, None) == last,
{
}

/// After a reply at `now` a second request in the same second is held back, and so is every
/// request made until the clock has moved past it by the period.
pub proof fn law_rapid_request_held_back(last: Option<u64>, now: u64, later: u64)
    requires
        lets_through(last, Some(now)),
        later < now + RATE_LIMIT_PERIOD_SECS,
    ensures
        !lets_through(last_after(last, Some(now)), Some(later)),
{
}

/// Two replies that were let through one after the other lie at least a period apart.
pub proof fn law_replies_lie_apart(last: Option<u64>, first: u64, second: u64)
    requires
        lets_through(last, Some(first)),
        lets_through(last_after(last, Some(first)), Some(second)),
    ensures
        second >= first + RATE_LIMIT_PERIOD_SECS,
{
}

/// A request that is held back, or one made without a clock, leaves the limiter as it was.
pub proof fn law_other_requests_leave_no_trace(last: Option<u64>, now: Option<u64>)
    requires
        now is None || !lets_through(last, now),
    ensures
        last_after(last, now) == last,
{
}

/// The time of the last reply never moves back.
pub proof fn law_last_reply_grows(last: u64, now: Option<u64>)
    ensures
        last_after(Some(last), now) matches Some(after) && after >= last,
{
}

} // verus!
