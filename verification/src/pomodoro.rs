//! Lightweight pomodoro/focus timer.
//!
//! The timer tracks a start instant, a duration, and which task it's bound
//! to. The UI shows remaining time in the bottom bar. When the timer elapses
//! it just stays in a "done" state until the user dismisses it.
use vstd::prelude::*;

use crate::text::push_char;
use std::time::Instant;

verus! {

#[verifier::external_type_specification]
#[verifier::external_body]
pub struct ExInstant(Instant);

/// Wraps `Instant::now()`. It depends on the clock; nothing is stated of it.
#[verifier::external_body]
fn instant_now() -> Instant {
    Instant::now()
}

/// Wraps `Instant::elapsed()` read as whole nanoseconds
/// (`Duration::as_nanos`). It depends on the clock; nothing is stated of it.
#[verifier::external_body]
fn elapsed_nanos(start: &Instant) -> u128 {
    start.elapsed().as_nanos()
}

/// Nanoseconds per second.
pub const NANOS_PER_SEC: u128 = 1000000000u128;

#[derive(Debug)]
pub struct Pomodoro {
    /// Task this timer is bound to.
    pub task_id: i64,
    pub started_at: Instant,
    /// Length of the timer, in seconds.
    pub duration_secs: u64,
}

impl Clone for Pomodoro {
    fn clone(&self) -> (res: Self)
        ensures
            res == *self,
    {
        Pomodoro { task_id: self.task_id, started_at: self.started_at, duration_secs: self.duration_secs }
    }
}

/// What is left of `duration_secs` seconds after `elapsed` nanoseconds, in
/// nanoseconds; zero once the time is up.
pub open spec fn remaining_of(duration_secs: int, elapsed: int) -> int {
    if duration_secs * 1000000000 > elapsed {
        duration_secs * 1000000000 - elapsed
    } else {
        0
    }
}

/// The decimal digits of `n`.
pub open spec fn decimal(n: nat) -> Seq<char>
    decreases n,
{
    if n < 10 {
        seq![(n + 48) as char]
    } else {
        decimal(n / 10) + seq![((n % 10) + 48) as char]
    }
}

/// `n` with at least two digits, padded with a leading zero (`{:02}`).
pub open spec fn two_digits(n: nat) -> Seq<char> {
    if n < 10 {
        seq!['0'] + decimal(n)
    } else {
        decimal(n)
    }
}

/// "MM:SS" for a number of whole seconds.
pub open spec fn clock_text(secs: nat) -> Seq<char> {
    two_digits(secs / 60) + seq![':'] + two_digits(secs % 60)
}

fn digit_char(d: u64) -> (c: char)
    requires
        d < 10,
    ensures
        c == ((d + 48) as char),
{
    let b: u8 = d as u8 + 48;
    b as char
}

/// Appends the decimal digits of `n`.
pub(crate) fn push_decimal(out: &mut String, n: u64)
    ensures
        final(out)@ == old(out)@ + decimal(n as nat),
    decreases n,
{
    if n < 10 {
        push_char(out, digit_char(n));
    } else {
        push_decimal(out, n / 10);
        push_char(out, digit_char(n % 10));
        proof {
            assert(decimal(n as nat) == decimal((n / 10) as nat) + seq![((n % 10) + 48) as char]);
        }
    }
}

/// Appends `n` with at least two digits.
fn push_two_digits(out: &mut String, n: u64)
    ensures
        final(out)@ == old(out)@ + two_digits(n as nat),
{
    if n < 10 {
        push_char(out, '0');
    }
    push_decimal(out, n);
}

/// "MM:SS" for `secs` seconds.
pub fn clock_string(secs: u64) -> (res: String)
    ensures
        res@ == clock_text(secs as nat),
{
    let mut out = String::new();
    push_two_digits(&mut out, secs / 60);
    push_char(&mut out, ':');
    push_two_digits(&mut out, secs % 60);
    proof {
        assert(out@ =~= clock_text(secs as nat));
    }
    out
}

/// What is left of the timer after `elapsed` nanoseconds.
pub fn remaining_after(duration_secs: u64, elapsed: u128) -> (res: u128)
    ensures
        res == remaining_of(duration_secs as int, elapsed as int),
{
    let total: u128 = duration_secs as u128 * NANOS_PER_SEC;
    if total > elapsed {
        total - elapsed
    } else {
        0
    }
}

/// The timer counts down with the time that passed: what is left never
/// grows as more time passes, drops by exactly the time passed while some
/// is left, is the whole length at the start and is zero exactly once the
/// whole length has passed.
pub proof fn law_timer_counts_down(duration_secs: nat, e1: nat, e2: nat)
    requires
        e1 <= e2,
    ensures
        remaining_of(duration_secs as int, e2 as int) <= remaining_of(duration_secs as int, e1 as int),
        e2 <= duration_secs * 1000000000 ==> remaining_of(duration_secs as int, e1 as int)
            - remaining_of(duration_secs as int, e2 as int) == e2 - e1,
        remaining_of(duration_secs as int, 0) == duration_secs * 1000000000,
        (remaining_of(duration_secs as int, e1 as int) == 0) == (e1 >= duration_secs * 1000000000),
{
}

impl Pomodoro {
    /// A timer of `minutes` minutes on `task_id`, started now.
    pub fn new(task_id: i64, minutes: u64) -> (res: Self)
        requires
            minutes * 60 <= u64::MAX,
        ensures
            res.task_id == task_id,
            res.duration_secs == minutes * 60,
    {
        Pomodoro { task_id, started_at: instant_now(), duration_secs: minutes * 60 }
    }

    /// Nanoseconds left. It depends on the clock: whatever time has passed,
    /// it is at most the timer's length.
    pub fn remaining(&self) -> (res: u128)
        ensures
            exists|e: u128| res == remaining_of(self.duration_secs as int, e as int),
            res <= self.duration_secs * 1000000000,
    {
        let e = elapsed_nanos(&self.started_at);
        remaining_after(self.duration_secs, e)
    }

    /// Whether the time is up, given the nanoseconds left.
    pub fn done_with(remaining: u128) -> (res: bool)
        ensures
            res == (remaining == 0),
    {
        remaining == 0
    }

    /// Whether the time is up.
    pub fn is_done(&self) -> (res: bool)
        ensures
            exists|e: u128| res == (remaining_of(self.duration_secs as int, e as int) == 0),
    {
        Pomodoro::done_with(self.remaining())
    }

    /// "MM:SS" of the whole seconds in `remaining` nanoseconds.
    pub fn text_of(remaining: u128) -> (res: String)
        requires
            remaining / 1000000000 <= u64::MAX,
        ensures
            res@ == clock_text((remaining / 1000000000) as nat),
    {
        clock_string((remaining / NANOS_PER_SEC) as u64)
    }

    /// "MM:SS" of the time left.
    pub fn remaining_str(&self) -> (res: String)
        ensures
            exists|e: u128| res@ == clock_text(
                (remaining_of(self.duration_secs as int, e as int) / 1000000000) as nat,
            ),
    {
        let r = self.remaining();
        proof {
            assert(r <= self.duration_secs * 1000000000);
            assert(r / 1000000000 <= self.duration_secs) by (nonlinear_arith)
                requires
                    r <= self.duration_secs * 1000000000,
            ;
        }
        Pomodoro::text_of(r)
    }
}

} // verus!
