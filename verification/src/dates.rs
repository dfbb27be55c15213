//! Calendar stamps for the review index.
//!
//! A `Stamp` holds what the scheduling logic reads of a date-time: the Unix
//! timestamp in whole seconds, the nanoseconds past that second, and the
//! local UTC offset the stamp was written with. Parsing a stamp from its
//! RFC 3339 text and rendering it back are done by chrono behind trusted
//! wrappers; everything that compares or schedules stamps is verified here.
use vstd::prelude::*;

use crate::bytes::is_ws;

verus! {

/// A date-time as the scheduler sees it: seconds since the Unix epoch,
/// nanoseconds past that second (up to two billion, for leap seconds),
/// and the UTC offset in seconds that its textual form carries.
#[derive(Clone, Copy, PartialEq, Eq, Structural, Debug)]
pub struct Stamp {
    pub secs: i64,
    pub nanos: u32,
    pub offset_secs: i32,
}

impl Stamp {
    /// Bounds that every stamp parsed from RFC 3339 text satisfies, and
    /// that rendering requires: the instant lies within the years 0000 to
    /// 9999 of some legal offset, the offset is a whole number of minutes
    /// no larger than 23:59, the nanoseconds are below two billion, and a
    /// leap second (nanoseconds of one billion or more) sits only on the
    /// last second of its minute.
    pub open spec fn wf(self) -> bool {
        &&& -62167305540 <= self.secs <= 253402387139
        &&& self.nanos < 2000000000
        &&& (self.nanos >= 1000000000 ==> self.secs as int % 60 == 59)
        &&& -86340 <= self.offset_secs <= 86340
        &&& self.offset_secs as int % 60 == 0
    }

    /// When rendering reparses exactly: the local calendar year has four
    /// digits and the stamp does not sit inside a leap second.
    pub open spec fn rt_ok(self) -> bool {
        &&& self.nanos < 1000000000
        &&& -62167219200 <= self.secs + self.offset_secs <= 253402300799
    }

    /// Checks the rendering bounds at run time.
    pub fn check_wf(&self) -> (b: bool)
        ensures
            b == self.wf(),
    {
        if !(-62167305540 <= self.secs && self.secs <= 253402387139) {
            return false;
        }
        if !(self.nanos < 2000000000) {
            return false;
        }
        if !(-86340 <= self.offset_secs && self.offset_secs <= 86340) {
            return false;
        }
        if self.nanos >= 1000000000 {
            let shifted_secs: u64 = (self.secs + 62167305600) as u64;
            proof {
                vstd::arithmetic::div_mod::lemma_mod_multiples_vanish(
                    1036121760,
                    self.secs as int,
                    60,
                );
            }
            if shifted_secs % 60 != 59 {
                return false;
            }
        }
        let shifted: i32 = self.offset_secs + 86340;
        proof {
            vstd::arithmetic::div_mod::lemma_mod_multiples_vanish(
                1439,
                self.offset_secs as int,
                60,
            );
        }
        shifted % 60 == 0
    }

}

/// What chrono's `DateTime::parse_from_rfc3339` yields on these bytes, as
/// the triple (timestamp seconds, subsecond nanoseconds, offset seconds);
/// `None` where the bytes are not a valid RFC 3339 date-time.
pub uninterp spec fn rfc3339_parse(s: Seq<u8>) -> Option<(int, int, int)>;

/// What chrono's `DateTime::to_rfc3339` renders for the date-time with this
/// timestamp, subsecond, and offset.
pub uninterp spec fn rfc3339_render(secs: int, nanos: int, offset_secs: int) -> Seq<u8>;

/// Relies on chrono's `DateTime::parse_from_rfc3339` (with `timestamp`,
/// `timestamp_subsec_nanos` and `FixedOffset::local_minus_utc` reading the
/// result out): it accepts only four-digit years and whole-minute offsets
/// up to 23:59, and it stores a parsed `:60` leap second as second 59 of
/// its minute with a billion extra nanoseconds — since the offset is a
/// whole number of minutes, such a timestamp lands on second 59 of its
/// own minute. So every parsed stamp lies within the rendering bounds.
#[verifier::external_body]
pub(crate) fn parse_rfc3339(s: &[u8]) -> (r: Option<Stamp>)
    ensures
        r is Some <==> rfc3339_parse(s@) is Some,
        r matches Some(st) ==> rfc3339_parse(s@) == Some(
            (st.secs as int, st.nanos as int, st.offset_secs as int),
        ),
        r matches Some(st) ==> st.wf(),
        r matches Some(st) ==> (st.nanos < 1000000000 ==> st.rt_ok()),
{
    let txt = match std::str::from_utf8(s) {
        Ok(t) => t,
        Err(_) => return None,
    };
    match chrono::DateTime::parse_from_rfc3339(txt) {
        Ok(dt) => Some(
            Stamp {
                secs: dt.timestamp(),
                nanos: dt.timestamp_subsec_nanos(),
                offset_secs: dt.offset().local_minus_utc(),
            },
        ),
        Err(_) => None,
    }
}

/// Relies on chrono's `DateTime::to_rfc3339` (over `DateTime::from_timestamp`
/// and `FixedOffset::east_opt`, which return a value for every stamp within
/// the `wf` bounds — in particular, a leap-second nanosecond count is
/// accepted exactly on the last second of a minute, which `wf` demands):
/// the rendering holds only digits and the signs `+ - T : .`, and within
/// the `rt_ok` bounds `parse_from_rfc3339` reads the very stamp back.
#[verifier::external_body]
pub(crate) fn render_rfc3339(st: &Stamp) -> (r: Vec<u8>)
    requires
        st.wf(),
    ensures
        r@ == rfc3339_render(st.secs as int, st.nanos as int, st.offset_secs as int),
        r@.len() > 0,
        forall|i: int| 0 <= i < r@.len() ==> r@[i] < 128 && r@[i] != 64 && !is_ws(#[trigger] r@[i]),
        st.rt_ok() ==> rfc3339_parse(r@) == Some(
            (st.secs as int, st.nanos as int, st.offset_secs as int),
        ),
{
    let utc = chrono::DateTime::from_timestamp(st.secs, st.nanos).unwrap();
    let off = chrono::FixedOffset::east_opt(st.offset_secs).unwrap();
    utc.with_timezone(&off).to_rfc3339().into_bytes()
}

/// The due rule: an entry is due when `now` has reached `last` plus the
/// interval in days, instants compared exactly.
pub open spec fn spec_due(now: Stamp, last: Stamp, interval_days: int) -> bool {
    let due_secs = last.secs + interval_days * 86400;
    now.secs > due_secs || (now.secs == due_secs && now.nanos >= last.nanos)
}

/// Decides whether an entry last reviewed at `last` with the given interval
/// is due at `now`.
pub fn is_due(now: &Stamp, last: &Stamp, interval_days: i64) -> (r: bool)
    ensures
        r == spec_due(*now, *last, interval_days as int),
{
    let due_secs: i128 = last.secs as i128 + interval_days as i128 * 86400;
    let now_secs: i128 = now.secs as i128;
    now_secs > due_secs || (now_secs == due_secs && now.nanos >= last.nanos)
}

/// Due boundary law: a stamp last reviewed exactly `interval_days` days
/// before `now` is due, and one reviewed a day later than that is not.
pub proof fn lemma_due_boundary(now: Stamp, exact: Stamp, later: Stamp, interval_days: int)
    requires
        exact.secs == now.secs - interval_days * 86400,
        exact.nanos == now.nanos,
        later.secs == now.secs - interval_days * 86400 + 86400,
        later.nanos == now.nanos,
    ensures
        spec_due(now, exact, interval_days),
        !spec_due(now, later, interval_days),
{
}

} // verus!
