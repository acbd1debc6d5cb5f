use vstd::prelude::*;

verus! {

/// Milliseconds in one day.
pub const DAY_MILLIS: u64 = 86_400_000;

/// A length of time as written in the configuration.
#[derive(Clone, Copy, Debug)]
pub struct Duration {
    pub days: u64,
    pub hours: u64,
    pub mins: u64,
    pub seconds: u64,
}

/// Saturates at `u64::MAX`.
pub open spec fn clamp_u64(x: int) -> u64 {
    if x > u64::MAX as int {
        u64::MAX
    } else if x < 0 {
        0
    } else {
        x as u64
    }
}

impl Duration {
    /// The whole length in seconds.
    pub open spec fn total_secs(self) -> int {
        ((self.days as int * 24 + self.hours as int) * 60 + self.mins as int) * 60 + self.seconds as int
    }

    /// The whole length in milliseconds, saturated at `u64::MAX`.
    pub open spec fn spec_millis(self) -> u64 {
        clamp_u64(self.total_secs() * 1000)
    }

    pub fn from_secs(secs: u64) -> (r: Duration)
        ensures
            r.total_secs() == secs,
    {
        Duration { days: 0, hours: 0, mins: 0, seconds: secs }
    }

    pub fn millis(&self) -> (r: u64)
        ensures
            r == self.spec_millis(),
    {
        let total: u128 = (((self.days as u128 * 24 + self.hours as u128) * 60 + self.mins as u128) * 60
            + self.seconds as u128) * 1000;
        if total > u64::MAX as u128 {
            u64::MAX
        } else {
            total as u64
        }
    }
}

/// A time of day, as written in the configuration.
#[derive(Clone, Copy, Debug, PartialEq, Eq, Structural)]
pub struct NaiveTime {
    pub hour: u32,
    pub min: u32,
}

impl NaiveTime {
    /// Milliseconds since local midnight.
    pub open spec fn spec_millis(self) -> int {
        (self.hour as int * 60 + self.min as int) * 60_000
    }

    pub fn millis(&self) -> (r: u64)
        ensures
            r == self.spec_millis(),
    {
        (self.hour as u64 * 60 + self.min as u64) * 60_000
    }
}

/// An instant: milliseconds since the Unix epoch, with the offset of local
/// time from UTC (in seconds) that held at that instant.
#[derive(Clone, Copy, Debug, PartialEq, Eq, Structural)]
pub struct Moment {
    pub millis: u64,
    pub offset_secs: i32,
}

impl Moment {
    /// Milliseconds since local midnight.
    pub open spec fn spec_time_of_day(self) -> int {
        (self.millis as int + self.offset_secs as int * 1000) % (DAY_MILLIS as int)
    }

    pub fn time_of_day(&self) -> (r: u64)
        ensures
            r == self.spec_time_of_day(),
            r < DAY_MILLIS,
    {
        let local: i128 = self.millis as i128 + self.offset_secs as i128 * 1000;
        let day: i128 = DAY_MILLIS as i128;
        if local >= 0 {
            (local % day) as u64
        } else {
            let back: i128 = (-local - 1) % day;
            proof {
                let l = local as int;
                let d = day as int;
                assert(back as int == (-l - 1) % d);
                assert((d - 1 - back as int) == l % d) by (nonlinear_arith)
                    requires
                        back as int == (-l - 1) % d,
                        d > 0,
                        l < 0,
                {
                    let q = (-l - 1) / d;
                    assert(-l - 1 == q * d + back);
                    assert(l == (-q - 1) * d + (d - 1 - back));
                    assert(0 <= d - 1 - back < d);
                    vstd::arithmetic::div_mod::lemma_fundamental_div_mod_converse(l, d, -q - 1, d - 1 - back);
                }
            }
            (day - 1 - back) as u64
        }
    }
}

/// A daily window `[since, until)` of local time; it wraps midnight when
/// `since` is later than `until`, and is empty when they are equal.
#[derive(Clone, Copy, Debug, PartialEq, Eq, Structural)]
pub struct TimeRange {
    pub since: NaiveTime,
    pub until: NaiveTime,
}

/// Whether the time of day `t` falls in the window from `since` to `until`.
pub open spec fn window_contains(since: int, until: int, t: int) -> bool {
    if since <= until {
        since <= t && t < until
    } else {
        t >= since || t < until
    }
}

/// Milliseconds from `now` to the next instant strictly after it whose time of
/// day is `t`, taking local time to keep the offset of `now`.
pub open spec fn until_next(now: Moment, t: int) -> int {
    let delta = (t - now.spec_time_of_day()) % (DAY_MILLIS as int);
    if delta == 0 {
        DAY_MILLIS as int
    } else {
        delta
    }
}

/// The next instant strictly after `now` with time of day `t`.
pub open spec fn next_at(now: Moment, t: int) -> u64 {
    clamp_u64(now.millis + until_next(now, t))
}

impl TimeRange {
    pub open spec fn spec_contains(self, now: Moment) -> bool {
        window_contains(self.since.spec_millis(), self.until.spec_millis(), now.spec_time_of_day())
    }

    pub fn contains(&self, now: &Moment) -> (r: bool)
        ensures
            r == self.spec_contains(*now),
    {
        let since = self.since.millis();
        let until = self.until.millis();
        let time = now.time_of_day();
        if since <= until {
            time >= since && time < until
        } else {
            time >= since || time < until
        }
    }
}

/// The next instant strictly after `greater_than` whose local time of day is
/// `set_time`.
pub fn upper_bound_with_time(greater_than: &Moment, set_time: &NaiveTime) -> (r: u64)
    ensures
        r == next_at(*greater_than, set_time.spec_millis()),
        r > greater_than.millis || greater_than.millis == u64::MAX,
{
    let tod = greater_than.time_of_day();
    let t = set_time.millis();
    let day = DAY_MILLIS;
    let tm = t % day;
    let delta = if tm >= tod {
        tm - tod
    } else {
        tm + day - tod
    };
    let delta = if delta == 0 {
        day
    } else {
        delta
    };
    proof {
        let ti = t as int;
        let di = day as int;
        let od = tod as int;
        let q = ti / di;
        vstd::arithmetic::div_mod::lemma_fundamental_div_mod(ti, di);
        assert(ti == di * q + tm);
        if tm >= tod {
            assert(ti - od == q * di + (tm - od)) by (nonlinear_arith)
                requires
                    ti == di * q + tm,
            ;
            vstd::arithmetic::div_mod::lemma_fundamental_div_mod_converse(ti - od, di, q, tm - od);
        } else {
            assert(ti - od == (q - 1) * di + (tm + di - od)) by (nonlinear_arith)
                requires
                    ti == di * q + tm,
            ;
            vstd::arithmetic::div_mod::lemma_fundamental_div_mod_converse(ti - od, di, q - 1, tm + di - od);
        }
    }
    greater_than.millis.saturating_add(delta)
}

} // verus!
