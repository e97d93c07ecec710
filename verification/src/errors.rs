use vstd::prelude::*;

use crate::color::Color;

verus! {

/// A moment of the clock that only counts up (`std::time::Instant`).
#[verifier::external_type_specification]
#[verifier::external_body]
pub struct ExInstant(std::time::Instant);

/// The current moment (`std::time::Instant::now`). Nothing is stated of it: it is the time.
#[verifier::external_body]
fn now() -> (r: std::time::Instant) {
    std::time::Instant::now()
}

/// The time gone by since `since` (`std::time::Instant::elapsed`). Nothing is stated of
/// it: it depends on the time.
#[verifier::external_body]
fn elapsed(since: &std::time::Instant) -> (r: std::time::Duration) {
    since.elapsed()
}

/// A span of time in whole milliseconds (`std::time::Duration::as_millis`). Nothing is
/// stated of it here: the spans it is given come from the clock.
#[verifier::external_body]
fn as_millis(d: &std::time::Duration) -> (r: u128) {
    d.as_millis()
}

/// How long a minute error stays on screen, in milliseconds.
pub const MINUTE_MS: u64 = 60000;

/// An error shown in the banner for a while.
#[derive(Debug)]
pub struct DisplayError {
    pub message: String,
    pub color: Color,
    pub created_at: std::time::Instant,
    /// How long it stays on screen, in milliseconds.
    pub duration_ms: u64,
}

/// Whether an error that lasts `duration_ms` is still shown `elapsed_ms` after it came.
pub open spec fn still_active(elapsed_ms: u128, duration_ms: u64) -> bool {
    elapsed_ms < duration_ms
}

/// Whether an error that lasts `duration_ms` is still shown `elapsed_ms` after it came.
pub fn active_after(elapsed_ms: u128, duration_ms: u64) -> (r: bool)
    ensures
        r == still_active(elapsed_ms, duration_ms),
{
    elapsed_ms < duration_ms as u128
}

impl DisplayError {
    /// An error with `message`, in red, that stays `duration_ms` milliseconds from now.
    pub fn new(message: String, duration_ms: u64) -> (r: DisplayError)
        ensures
            r.message == message,
            r.color == (Color { r: 180, g: 20, b: 20, a: 255 }),
            r.duration_ms == duration_ms,
    {
        DisplayError { message, color: Color::from_rgb(180, 20, 20), created_at: now(), duration_ms }
    }

    /// Whether the error is still shown. How long ago it came is read from the clock, so
    /// all that is stated is that an error lasting no time is never shown.
    pub fn is_active(&self) -> (r: bool)
        ensures
            self.duration_ms == 0 ==> !r,
    {
        active_after(as_millis(&elapsed(&self.created_at)), self.duration_ms)
    }
}

/// The errors of `s` still shown, `elapsed[i]` milliseconds after error `i` came, in
/// their order.
pub open spec fn kept_active(s: Seq<DisplayError>, elapsed: Seq<u128>) -> Seq<DisplayError>
    decreases s.len(),
{
    if s.len() == 0 {
        s
    } else {
        let rest = kept_active(s.drop_last(), elapsed);
        if still_active(elapsed[s.len() - 1], s.last().duration_ms) {
            rest.push(s.last())
        } else {
            rest
        }
    }
}

/// Keeps the errors still shown, `elapsed[i]` milliseconds after error `i` came.
pub fn retain_active(errors: &mut Vec<DisplayError>, elapsed: &Vec<u128>)
    requires
        elapsed@.len() == old(errors)@.len(),
    ensures
        final(errors)@ == kept_active(old(errors)@, elapsed@),
{
    let mut old_errors: Vec<DisplayError> = Vec::new();
    std::mem::swap(errors, &mut old_errors);
    let ghost s = old_errors@;
    let mut kept: Vec<DisplayError> = Vec::new();
    let n = old_errors.len();
    let mut i: usize = 0;
    for e in it: old_errors.into_iter()
        invariant
            it.seq() == s,
            n == s.len(),
            i == it.index(),
            it.index() <= n,
            elapsed@.len() == s.len(),
            kept@ == kept_active(s.take(it.index()), elapsed@),
    {
        let ghost k = it.index();
        assert(s.take(k + 1).drop_last() =~= s.take(k));
        assert(s.take(k + 1).last() == e);
        if active_after(elapsed[i], e.duration_ms) {
            kept.push(e);
        }
        i = i + 1;
    }
    assert(s.take(s.len() as int) =~= s);
    *errors = kept;
}

/// Adds an error that stays `duration_ms` milliseconds.
pub fn push_error(errors: &mut Vec<DisplayError>, message: String, duration_ms: u64)
    ensures
        final(errors)@.len() == old(errors)@.len() + 1,
        final(errors)@.drop_last() == old(errors)@,
        final(errors)@.last().message == message,
        final(errors)@.last().color == (Color { r: 180, g: 20, b: 20, a: 255 }),
        final(errors)@.last().duration_ms == duration_ms,
{
    errors.push(DisplayError::new(message, duration_ms));
}

/// Adds an error that is gone at the next clean-up.
pub fn push_instant_error(errors: &mut Vec<DisplayError>, message: String)
    ensures
        final(errors)@.len() == old(errors)@.len() + 1,
        final(errors)@.drop_last() == old(errors)@,
        final(errors)@.last().message == message,
        final(errors)@.last().color == (Color { r: 180, g: 20, b: 20, a: 255 }),
        final(errors)@.last().duration_ms == 0,
{
    push_error(errors, message, 0);
}

/// Adds an error that stays a minute.
pub fn push_minute_error(errors: &mut Vec<DisplayError>, message: String)
    ensures
        final(errors)@.len() == old(errors)@.len() + 1,
        final(errors)@.drop_last() == old(errors)@,
        final(errors)@.last().message == message,
        final(errors)@.last().color == (Color { r: 180, g: 20, b: 20, a: 255 }),
        final(errors)@.last().duration_ms == MINUTE_MS,
{
    push_error(errors, message, MINUTE_MS);
}

/// Removes the errors no longer shown. How long ago each came is read from the clock;
/// what is stated is that the errors kept are those shown at some such times.
pub fn cleanup_errors(errors: &mut Vec<DisplayError>)
    ensures
        exists|elapsed: Seq<u128>|
            elapsed.len() == old(errors)@.len() && final(errors)@ == kept_active(
                old(errors)@,
                elapsed,
            ),
{
    let mut times: Vec<u128> = Vec::new();
    let mut i: usize = 0;
    while i < errors.len()
        invariant
            0 <= i <= errors@.len(),
            times@.len() == i,
        decreases errors@.len() - i,
    {
        times.push(as_millis(&elapsed(&errors[i].created_at)));
        i = i + 1;
    }
    let ghost before = errors@;
    retain_active(errors, &times);
    assert(times@.len() == before.len() && errors@ == kept_active(before, times@));
}

/// Whatever the times, the errors kept are among those there before, in their order, and
/// none that lasts no time is kept.
pub proof fn law_cleanup_keeps_a_subsequence(s: Seq<DisplayError>, elapsed: Seq<u128>)
    requires
        elapsed.len() == s.len(),
    ensures
        kept_active(s, elapsed).len() <= s.len(),
        forall|k: int|
            0 <= k < kept_active(s, elapsed).len() ==> #[trigger] kept_active(s, elapsed)[k].duration_ms > 0,
        forall|k: int|
            0 <= k < kept_active(s, elapsed).len() ==> s.contains(#[trigger] kept_active(s, elapsed)[k]),
    decreases s.len(),
{
    if s.len() > 0 {
        let t = s.drop_last();
        law_cleanup_keeps_a_subsequence(t, elapsed.drop_last());
        lemma_kept_prefix(t, elapsed);
        let kt = kept_active(t, elapsed);
        let ks = kept_active(s, elapsed);
        assert forall|k: int| 0 <= k < ks.len() implies s.contains(#[trigger] ks[k]) by {
            if k < kt.len() {
                assert(ks[k] == kt[k]);
                let j = choose|j: int| 0 <= j < t.len() && t[j] == kt[k];
                assert(s[j] == t[j]);
            } else {
                assert(ks[k] == s[s.len() - 1]);
            }
        }
        assert forall|k: int| 0 <= k < ks.len() implies #[trigger] ks[k].duration_ms > 0 by {
            if k < kt.len() {
                assert(ks[k] == kt[k]);
            }
        }
    }
}

/// Only the first `s.len()` times count.
proof fn lemma_kept_prefix(s: Seq<DisplayError>, elapsed: Seq<u128>)
    requires
        s.len() <= elapsed.len(),
    ensures
        kept_active(s, elapsed) == kept_active(s, elapsed.take(s.len() as int)),
    decreases s.len(),
{
    if s.len() > 0 {
        lemma_kept_prefix(s.drop_last(), elapsed);
        lemma_kept_prefix(s.drop_last(), elapsed.take(s.len() as int));
        assert(elapsed.take(s.len() as int).take(s.len() - 1) =~= elapsed.take(s.len() - 1));
    }
}

/// Error `x` is one of `s` that was still shown at its time in `elapsed`.
pub open spec fn shown_among(s: Seq<DisplayError>, elapsed: Seq<u128>, x: DisplayError) -> bool {
    exists|j: int| 0 <= j < s.len() && s[j] == x && #[trigger] still_active(elapsed[j], s[j].duration_ms)
}

/// Every error a clean-up keeps was still shown at the time it was judged.
pub proof fn law_kept_errors_were_active(s: Seq<DisplayError>, elapsed: Seq<u128>)
    requires
        elapsed.len() == s.len(),
    ensures
        forall|k: int|
            0 <= k < kept_active(s, elapsed).len() ==> shown_among(
                s,
                elapsed,
                #[trigger] kept_active(s, elapsed)[k],
            ),
    decreases s.len(),
{
    if s.len() > 0 {
        let t = s.drop_last();
        let et = elapsed.drop_last();
        law_kept_errors_were_active(t, et);
        lemma_kept_prefix(t, elapsed);
        lemma_kept_prefix(t, et);
        assert(et.take(t.len() as int) =~= elapsed.take(t.len() as int));
        let kt = kept_active(t, elapsed);
        let ks = kept_active(s, elapsed);
        assert(kt == kept_active(t, et));
        assert forall|k: int| 0 <= k < ks.len() implies shown_among(s, elapsed, #[trigger] ks[k]) by {
            if k < kt.len() {
                assert(ks[k] == kt[k]);
                assert(shown_among(t, et, kt[k]));
                let j = choose|j: int|
                    0 <= j < t.len() && t[j] == kt[k] && #[trigger] still_active(et[j], t[j].duration_ms);
                assert(s[j] == t[j]);
                assert(et[j] == elapsed[j]);
                assert(still_active(elapsed[j], s[j].duration_ms));
            } else {
                let j = s.len() - 1;
                assert(ks[k] == s[j]);
                assert(still_active(elapsed[j], s[j].duration_ms));
            }
        }
    }
}

} // verus!
