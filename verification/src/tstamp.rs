//! A calendar instant as plain field values, and the two timestamp-codec
//! calls that the `Expires` attribute needs.

use vstd::prelude::*;

verus! {

/// A broken-down calendar instant, mirroring the classic `tm` layout:
/// month, weekday and yearday are zero-based, `year` counts from 1900,
/// `utcoff` is seconds east of UTC.
#[derive(Clone, Copy, PartialEq, Eq, Structural, Debug)]
pub struct Timestamp {
    pub sec: i32,
    pub min: i32,
    pub hour: i32,
    pub mday: i32,
    pub mon: i32,
    pub year: i32,
    pub wday: i32,
    pub yday: i32,
    pub isdst: i32,
    pub utcoff: i32,
    pub nsec: i32,
}

impl Timestamp {
    /// The documented ranges of broken-down calendar time, plus a generous
    /// year window that keeps the calendar arithmetic of the codec in range.
    pub open spec fn wf(self) -> bool {
        &&& 0 <= self.sec <= 60
        &&& 0 <= self.min <= 59
        &&& 0 <= self.hour <= 23
        &&& 1 <= self.mday <= 31
        &&& 0 <= self.mon <= 11
        &&& 0 <= self.wday <= 6
        &&& 0 <= self.yday <= 365
        &&& -1900 <= self.year <= 300000
        &&& -86400 <= self.utcoff <= 86400
        &&& 0 <= self.nsec <= 999_999_999
    }

    /// A UTC instant whose weekday and month the wire formatter can render.
    pub open spec fn fmt_ready(self) -> bool {
        &&& self.utcoff == 0
        &&& 0 <= self.wday <= 6
        &&& 0 <= self.mon <= 11
        &&& -2000 <= self.year <= 400000
    }

    /// The earliest representable instant: 1900-01-01T00:00:00 UTC.
    pub open spec fn spec_earliest() -> Timestamp {
        Timestamp {
            sec: 0,
            min: 0,
            hour: 0,
            mday: 1,
            mon: 0,
            year: 0,
            wday: 0,
            yday: 0,
            isdst: 0,
            utcoff: 0,
            nsec: 0,
        }
    }

    /// The earliest representable instant: 1900-01-01T00:00:00 UTC.
    pub fn earliest() -> (r: Timestamp)
        ensures
            r == Timestamp::spec_earliest(),
    {
        Timestamp {
            sec: 0,
            min: 0,
            hour: 0,
            mday: 1,
            mon: 0,
            year: 0,
            wday: 0,
            yday: 0,
            isdst: 0,
            utcoff: 0,
            nsec: 0,
        }
    }
}

/// The RFC 822 rendering, `Thu, 22 Mar 2012 14:53:18 GMT`, of a UTC
/// instant; it depends on the fields alone.
pub uninterp spec fn rfc822_gmt_of(t: Timestamp) -> Seq<char>;

/// Relies on `time::Tm::to_utc` (time 0.1): with `tm_utcoff == 0` it hands
/// its argument back unchanged; otherwise it rebuilds the broken-down
/// fields through the calendar (`mktime`, then `gmtime_r`), which yields
/// `tm_utcoff == 0`, weekday and month inside their documented ranges, and
/// a year still inside the generous window, since the field ranges asked
/// of the argument bound the rebuilt instant.  For an offset other than
/// zero the rebuilt fields also depend on the machine's time zone, so no
/// more than this is claimed of them.
#[verifier::external_body]
pub(crate) fn to_utc_norm(t: &Timestamp) -> (r: Timestamp)
    requires
        t.wf(),
    ensures
        r.fmt_ready(),
        t.utcoff == 0 ==> r == *t,
{
    let tm = time::Tm {
        tm_sec: t.sec, tm_min: t.min, tm_hour: t.hour, tm_mday: t.mday,
        tm_mon: t.mon, tm_year: t.year, tm_wday: t.wday, tm_yday: t.yday,
        tm_isdst: t.isdst, tm_utcoff: t.utcoff, tm_nsec: t.nsec,
    };
    let u = tm.to_utc();
    Timestamp {
        sec: u.tm_sec, min: u.tm_min, hour: u.tm_hour, mday: u.tm_mday,
        mon: u.tm_mon, year: u.tm_year, wday: u.tm_wday, yday: u.tm_yday,
        isdst: u.tm_isdst, utcoff: u.tm_utcoff, nsec: u.tm_nsec,
    }
}

/// Relies on `time::Tm::rfc822` (time 0.1): with `tm_utcoff == 0` its
/// display renders `"%a, %d %b %Y %T GMT"`, a pure function of the fields
/// with fixed English names.  The weekday, month and year ranges asked of
/// the argument are the ones its formatter accepts.
#[verifier::external_body]
pub(crate) fn rfc822_gmt(t: &Timestamp) -> (r: String)
    requires
        t.fmt_ready(),
    ensures
        r@ == rfc822_gmt_of(*t),
{
    let tm = time::Tm {
        tm_sec: t.sec, tm_min: t.min, tm_hour: t.hour, tm_mday: t.mday,
        tm_mon: t.mon, tm_year: t.year, tm_wday: t.wday, tm_yday: t.yday,
        tm_isdst: t.isdst, tm_utcoff: t.utcoff, tm_nsec: t.nsec,
    };
    format!("{}", tm.rfc822())
}

} // verus!
