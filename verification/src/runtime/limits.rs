//! How often a source may probe this device.
//!
//! Times are nanoseconds of a clock that does not go back.
use vstd::prelude::*;
use vstd::string::*;

use crate::address::IpAddress;
use crate::error::{busy, plain_result, NetworkError, NetworkErrorView};
use crate::table::Table;

verus! {

/// The length of a window: 10 seconds.
pub const PROBE_WINDOW_NS: u64 = 10_000_000_000;

/// How many probes a source has in one window.
pub const MAX_PROBES: u8 = 4;

/// How many sources are remembered before old ones are dropped.
pub const MAX_SOURCES: usize = 512;

/// How long a source is remembered at least: 60 seconds.
pub const SOURCE_AGE_NS: u64 = 60_000_000_000;

/// The probes of a source in its current window.
#[derive(Debug, Clone, Copy, PartialEq, Eq, Structural)]
pub struct ProbeRate {
    pub window_started: u64,
    pub attempts: u8,
}

/// The time that passed since `then`.
pub open spec fn elapsed(then: u64, now: u64) -> int {
    if now >= then {
        now - then
    } else {
        0
    }
}

/// The window that a probe at `now` falls in.
pub open spec fn window_at(rate: Option<ProbeRate>, now: u64) -> ProbeRate {
    match rate {
        Some(rate) => if elapsed(rate.window_started, now) >= PROBE_WINDOW_NS {
            ProbeRate { window_started: now, attempts: 0 }
        } else {
            rate
        },
        None => ProbeRate { window_started: now, attempts: 0 },
    }
}

/// Whether a probe at `now` is let in.
pub open spec fn lets_in(rate: Option<ProbeRate>, now: u64) -> bool {
    window_at(rate, now).attempts < MAX_PROBES
}

/// What is remembered of a source after a probe at `now`.
pub open spec fn rate_after(rate: Option<ProbeRate>, now: u64) -> ProbeRate {
    let window = window_at(rate, now);
    if lets_in(rate, now) {
        ProbeRate { attempts: (window.attempts + 1) as u8, ..window }
    } else {
        window
    }
}

/// Forgetting a source that was not heard of for so long changes nothing: its
/// next probe starts a new window in any case.
pub proof fn law_forgetting_is_invisible(rate: ProbeRate, now: u64)
    requires
        elapsed(rate.window_started, now) >= SOURCE_AGE_NS,
    ensures
        lets_in(Some(rate), now) == lets_in(None, now),
        rate_after(Some(rate), now) == rate_after(None, now),
{
}

/// What is remembered of a source after probes at these times.
pub open spec fn rate_over(times: Seq<u64>) -> Option<ProbeRate>
    decreases times.len(),
{
    if times.len() == 0 {
        None
    } else {
        Some(rate_after(rate_over(times.drop_last()), times.last()))
    }
}

/// How many of the probes at these times are let in.
pub open spec fn let_in(times: Seq<u64>) -> nat
    decreases times.len(),
{
    if times.len() == 0 {
        0
    } else {
        let_in(times.drop_last()) + if lets_in(rate_over(times.drop_last()), times.last()) {
            1nat
        } else {
            0nat
        }
    }
}

/// Of the probes of a source within one window at most four are let in, and the
/// first four are. A probe at the end of the window or later is let in again, and
/// starts a new one.
pub proof fn law_four_probes_a_window(times: Seq<u64>, later: u64)
    requires
        forall|i: int|
            0 <= i < times.len() ==> times[0] <= #[trigger] times[i] < times[0]
                + 10_000_000_000,
    ensures
        let_in(times) == if times.len() <= 4 {
            times.len()
        } else {
            4
        },
        times.len() > 0 ==> rate_over(times) == Some(
            ProbeRate { window_started: times[0], attempts: let_in(times) as u8 },
        ),
        times.len() > 0 && later >= times[0] + 10_000_000_000 ==> lets_in(rate_over(times), later)
            && rate_after(rate_over(times), later) == (ProbeRate {
            window_started: later,
            attempts: 1,
        }),
    decreases times.len(),
{
    reveal_with_fuel(let_in, 2);
    reveal_with_fuel(rate_over, 2);
    if times.len() > 0 {
        let before = times.drop_last();
        assert forall|i: int| 0 <= i < before.len() implies before[0] <= #[trigger] before[i]
            < before[0] + PROBE_WINDOW_NS by {
            assert(before[i] == times[i]);
        }
        law_four_probes_a_window(before, later);
        assert(times[0] <= times[times.len() - 1] < times[0] + PROBE_WINDOW_NS);
    }
}

/// The sources that probed this device, and how often.
pub struct ProbeLimiter {
    rates: Table<IpAddress, ProbeRate>,
}

/// The sources that are remembered when another one probes: where there are
/// many, those that were heard of lately.
pub open spec fn remembered_sources(rates: Map<IpAddress, ProbeRate>, now: u64) -> Map<
    IpAddress,
    ProbeRate,
> {
    if rates.dom().len() > MAX_SOURCES {
        rates.restrict(
            Set::new(
                |source: IpAddress|
                    elapsed(rates[source].window_started, now) < SOURCE_AGE_NS,
            ),
        )
    } else {
        rates
    }
}

/// Sources are forgotten only where there are more than 512, and of those only the
/// ones that were not heard of for a minute. What is remembered stays as it is.
pub proof fn law_recent_sources_are_remembered(
    rates: Map<IpAddress, ProbeRate>,
    now: u64,
    source: IpAddress,
)
    ensures
        ({
            let kept = remembered_sources(rates, now);
            &&& kept.contains_key(source) ==> rates.contains_key(source) && kept[source]
                == rates[source]
            &&& rates.contains_key(source) && (rates.dom().len() <= 512 || now
                - rates[source].window_started < 60_000_000_000) ==> kept.contains_key(source)
            &&& rates.dom().len() > 512 && now - rates[source].window_started >= 60_000_000_000
                ==> !kept.contains_key(source)
        }),
{
}

/// What is remembered of a source.
pub open spec fn rate_of(rates: Map<IpAddress, ProbeRate>, source: IpAddress) -> Option<ProbeRate> {
    if rates.contains_key(source) {
        Some(rates[source])
    } else {
        None
    }
}

impl View for ProbeLimiter {
    type V = Map<IpAddress, ProbeRate>;

    closed spec fn view(&self) -> Map<IpAddress, ProbeRate> {
        self.rates@
    }
}

fn passed(then: u64, now: u64) -> (time: u64)
    ensures
        time == elapsed(then, now),
{
    if now >= then {
        now - then
    } else {
        0
    }
}

impl ProbeLimiter {
    /// A limiter that remembers no source.
    pub fn new() -> (limiter: Self)
        ensures
            limiter@ == Map::<IpAddress, ProbeRate>::empty(),
    {
        ProbeLimiter { rates: Table::new() }
    }

    /// Drops old sources where there are many.
    fn forget_old(&mut self, now: u64)
        ensures
            final(self)@ == remembered_sources(old(self)@, now),
    {
        let count: usize = self.rates.len();
        if count <= MAX_SOURCES {
            return;
        }
        let ghost start = self.rates@;
        let ghost listed = self.rates.listed();
        let mut kept: Table<IpAddress, ProbeRate> = Table::new();
        let mut i: usize = 0;
        while i < count
            invariant
                i <= count,
                count == self.rates.listed().len(),
                listed == self.rates.listed(),
                start == self.rates@,
                forall|k: int|
                    0 <= k < listed.len() ==> start.contains_key((#[trigger] listed[k]).0)
                        && start[listed[k].0] == listed[k].1,
                forall|source: IpAddress| #[trigger]
                    kept@.contains_key(source) ==> start.contains_key(source) && kept@[source]
                        == start[source] && elapsed(start[source].window_started, now)
                        < SOURCE_AGE_NS,
                forall|k: int|
                    0 <= k < i && elapsed((#[trigger] listed[k]).1.window_started, now)
                        < SOURCE_AGE_NS ==> kept@.contains_key(listed[k].0),
            decreases count - i,
        {
            let (source, rate) = self.rates.at(i);
            assert(listed[i as int].0 == source@);
            if passed(rate.window_started, now) < SOURCE_AGE_NS {
                kept.insert(*source, *rate);
            }
            i += 1;
        }
        proof {
            let target = remembered_sources(start, now);
            assert forall|source: IpAddress| #[trigger]
                kept@.contains_key(source) == target.contains_key(source) by {
                if target.contains_key(source) {
                    assert(start.contains_key(source));
                    assert(listed.contains((source, start[source])));
                    let k = choose|k: int|
                        0 <= k < listed.len() && listed[k] == (source, start[source]);
                    assert(kept@.contains_key(listed[k].0));
                }
            }
            assert(kept@ =~= target);
        }
        self.rates = kept;
    }

    /// Takes a probe from `source` at `now`, and says whether it is let in.
    pub fn admit_discovery_probe(&mut self, source: IpAddress, now: u64) -> (outcome: Result<
        (),
        NetworkError,
    >)
        ensures
            ({
                let known = remembered_sources(old(self)@, now);
                let rate = rate_of(known, source);
                &&& final(self)@ == known.insert(source, rate_after(rate, now))
                &&& plain_result(outcome) == if lets_in(rate, now) {
                    Ok(())
                } else {
                    Err(NetworkErrorView::Busy("discovery probe source is rate limited"@))
                }
            }),
    {
        self.forget_old(now);
        let mut rate = match self.rates.get(&source) {
            Some(rate) => *rate,
            None => ProbeRate { window_started: now, attempts: 0 },
        };
        if passed(rate.window_started, now) >= PROBE_WINDOW_NS {
            rate = ProbeRate { window_started: now, attempts: 0 };
        }
        if rate.attempts >= MAX_PROBES {
            self.rates.insert(source, rate);
            return Err(busy("discovery probe source is rate limited"));
        }
        let next = ProbeRate {
            window_started: rate.window_started,
            attempts: rate.attempts + 1,
        };
        self.rates.insert(source, next);
        Ok(())
    }
}

} // verus!
