//! Points in time as plain values, and how far apart two of them are.
use vstd::prelude::*;

verus! {

/// A point in time: whole seconds since the Unix epoch and the nanoseconds
/// past that second.
#[derive(Clone, Copy, Debug, PartialEq, Eq, Structural)]
pub struct Timestamp {
    pub secs: i64,
    pub nanos: u32,
}

/// The largest number of seconds, either way, that the humanised rendering
/// takes (chrono's bound on a span built from seconds).
pub const HUMAN_SECS_MAX: i64 = 9_223_372_036_854_775;

/// The span from `b` to `a` in nanoseconds.
pub open spec fn nanos_between(a: Timestamp, b: Timestamp) -> int {
    (a.secs - b.secs) * 1_000_000_000 + (a.nanos - b.nanos)
}

/// The whole seconds in the span from `b` to `a`, rounded toward zero.
pub open spec fn whole_secs_between(a: Timestamp, b: Timestamp) -> int {
    let n = nanos_between(a, b);
    if n >= 0 {
        n / 1_000_000_000
    } else {
        -((-n) / 1_000_000_000)
    }
}

/// `x` held within `HUMAN_SECS_MAX` either way.
pub open spec fn clamp_human(x: int) -> int {
    if x > HUMAN_SECS_MAX {
        HUMAN_SECS_MAX as int
    } else if x < -HUMAN_SECS_MAX {
        -HUMAN_SECS_MAX
    } else {
        x
    }
}

/// The English phrase for a span of `secs` seconds ("in 2 hours", "3 days ago",
/// "now"), as chrono-humanize renders it roughly.
pub uninterp spec fn human_time_of(secs: int) -> Seq<char>;

/// Relies on chrono-humanize's rough `Display` of `HumanTime`, which reads only
/// the whole seconds of the span, and on chrono's `TimeDelta::seconds`, which
/// panics beyond `HUMAN_SECS_MAX` either way.
#[verifier::external_body]
fn human_time(secs: i64) -> (r: String)
    requires
        -HUMAN_SECS_MAX <= secs <= HUMAN_SECS_MAX,
    ensures
        r@ == human_time_of(secs as int),
{
    chrono_humanize::HumanTime::from(chrono::TimeDelta::seconds(secs)).to_string()
}

/// The whole seconds from `b` to `a`, rounded toward zero.
pub fn secs_between(a: Timestamp, b: Timestamp) -> (r: i128)
    ensures
        r == whole_secs_between(a, b),
{
    let n: i128 = (a.secs as i128 - b.secs as i128) * 1_000_000_000 + (a.nanos as i128
        - b.nanos as i128);
    if n >= 0 {
        n / 1_000_000_000
    } else {
        -((-n) / 1_000_000_000)
    }
}

/// How long ago (or how far ahead) `at` is, seen from `now`, in words.
pub fn humanize_since(at: Timestamp, now: Timestamp) -> (r: String)
    ensures
        r@ == human_time_of(clamp_human(whole_secs_between(at, now))),
{
    let d = secs_between(at, now);
    let c: i64 = if d > HUMAN_SECS_MAX as i128 {
        HUMAN_SECS_MAX
    } else if d < -(HUMAN_SECS_MAX as i128) {
        -HUMAN_SECS_MAX
    } else {
        d as i64
    };
    human_time(c)
}

} // verus!
