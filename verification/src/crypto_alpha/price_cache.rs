//! When remembered prices are fetched anew.
use crate::crypto_alpha::assets::CryptoAsset;
use crate::crypto_alpha::strategy::CryptoAlphaStrategy;
use vstd::prelude::*;

verus! {

/// Nanoseconds in a second.
pub const SECOND: i128 = 1_000_000_000;

/// What is remembered of an asset's prices, and since when, in nanoseconds since 1970.
#[derive(Clone, Copy, Debug, PartialEq, Eq, Structural)]
pub struct PriceTimes {
    pub has_spot: bool,
    pub spot_at: Option<i128>,
    pub has_history: bool,
    pub history_at: Option<i128>,
    pub has_iv: bool,
    pub iv_at: Option<i128>,
}

/// What has to be fetched.
#[derive(Clone, Copy, Debug, PartialEq, Eq, Structural)]
pub struct Refresh {
    pub spot: bool,
    pub history: bool,
    pub iv: bool,
}

/// A duration in whole seconds, its fraction cut off.
pub open spec fn whole_seconds(nanos: int) -> int {
    if nanos >= 0 {
        nanos / SECOND as int
    } else {
        -((-nanos) / SECOND as int)
    }
}

/// What was fetched then is still good now.
pub open spec fn fresh(fetched_at: Option<i128>, now: i128, ttl_secs: i64) -> bool {
    match fetched_at {
        Some(t) => whole_seconds(now - t) < ttl_secs,
        None => false,
    }
}

fn is_fresh(fetched_at: Option<i128>, now: i128, ttl_secs: i64) -> (r: bool)
    requires
        fetched_at matches Some(t) ==> i128::MIN < now - t <= i128::MAX,
    ensures
        r == fresh(fetched_at, now, ttl_secs),
{
    match fetched_at {
        Some(t) => {
            let nanos: i128 = now - t;
            let secs: i128 = if nanos >= 0 {
                nanos / SECOND
            } else {
                -((-nanos) / SECOND)
            };
            secs < ttl_secs as i128
        },
        None => false,
    }
}

/// The distance between two moments can be reckoned.
pub open spec fn comparable(fetched_at: Option<i128>, now: i128) -> bool {
    fetched_at matches Some(t) ==> i128::MIN < now - t <= i128::MAX
}

/// What is remembered once it was fetched. The implied volatility may turn out not to be known.
pub open spec fn refetched(times: PriceTimes, refresh: Refresh, now: i128, iv_known: bool) -> PriceTimes {
    PriceTimes {
        has_spot: times.has_spot || refresh.spot,
        spot_at: if refresh.spot {
            Some(now)
        } else {
            times.spot_at
        },
        has_history: times.has_history || refresh.history,
        history_at: if refresh.history {
            Some(now)
        } else {
            times.history_at
        },
        has_iv: if refresh.iv {
            iv_known
        } else {
            times.has_iv
        },
        iv_at: if refresh.iv {
            Some(now)
        } else {
            times.iv_at
        },
    }
}

impl PriceTimes {
    pub fn none() -> (r: PriceTimes)
        ensures
            r == (PriceTimes {
                has_spot: false,
                spot_at: None,
                has_history: false,
                history_at: None,
                has_iv: false,
                iv_at: None,
            }),
    {
        PriceTimes {
            has_spot: false,
            spot_at: None,
            has_history: false,
            history_at: None,
            has_iv: false,
            iv_at: None,
        }
    }

    /// What is remembered once it was fetched.
    pub fn after(self, refresh: Refresh, now: i128, iv_known: bool) -> (r: PriceTimes)
        ensures
            r == refetched(self, refresh, now, iv_known),
    {
        PriceTimes {
            has_spot: self.has_spot || refresh.spot,
            spot_at: if refresh.spot {
                Some(now)
            } else {
                self.spot_at
            },
            has_history: self.has_history || refresh.history,
            history_at: if refresh.history {
                Some(now)
            } else {
                self.history_at
            },
            has_iv: if refresh.iv {
                iv_known
            } else {
                self.has_iv
            },
            iv_at: if refresh.iv {
                Some(now)
            } else {
                self.iv_at
            },
        }
    }
}

impl CryptoAlphaStrategy {
    pub open spec fn interval(&self, granular: u64) -> u64 {
        if granular > 0 {
            granular
        } else {
            self.config.refresh_interval_secs
        }
    }

    /// An interval of its own, or the common one where there is none.
    pub fn refresh_interval_or_legacy(&self, granular: u64) -> (r: u64)
        ensures
            r == self.interval(granular),
    {
        if granular > 0 {
            granular
        } else {
            self.config.refresh_interval_secs
        }
    }

    pub fn spot_refresh_interval_secs(&self) -> (r: u64)
        ensures
            r == self.interval(self.config.spot_refresh_interval_secs),
    {
        self.refresh_interval_or_legacy(self.config.spot_refresh_interval_secs)
    }

    pub fn history_refresh_interval_secs(&self) -> (r: u64)
        ensures
            r == self.interval(self.config.history_refresh_interval_secs),
    {
        self.refresh_interval_or_legacy(self.config.history_refresh_interval_secs)
    }

    pub fn iv_refresh_interval_secs(&self) -> (r: u64)
        ensures
            r == self.interval(self.config.iv_refresh_interval_secs),
    {
        self.refresh_interval_or_legacy(self.config.iv_refresh_interval_secs)
    }

    /// What has to be fetched: what is not known, and what is no longer fresh. Only assets with an
    /// index of it have an implied volatility.
    pub open spec fn needed(&self, times: PriceTimes, has_index: bool, now: i128, spot_ttl: i64) -> Refresh {
        Refresh {
            spot: !times.has_spot || !fresh(times.spot_at, now, spot_ttl),
            history: !times.has_history || !fresh(
                times.history_at,
                now,
                self.interval(self.config.history_refresh_interval_secs) as i64,
            ),
            iv: has_index && (!times.has_iv || !fresh(
                times.iv_at,
                now,
                self.interval(self.config.iv_refresh_interval_secs) as i64,
            )),
        }
    }

    /// What has to be fetched for an asset. How long a price stays fresh is reckoned from how much
    /// it has moved.
    pub fn plan_refresh(&self, asset: &CryptoAsset, times: PriceTimes, now: i128, spot_ttl: i64) -> (r:
        Refresh)
        requires
            comparable(times.spot_at, now),
            comparable(times.history_at, now),
            comparable(times.iv_at, now),
        ensures
            r == self.needed(times, asset.deribit_currency is Some, now, spot_ttl),
    {
        Refresh {
            spot: !times.has_spot || !is_fresh(times.spot_at, now, spot_ttl),
            history: !times.has_history || !is_fresh(
                times.history_at,
                now,
                self.history_refresh_interval_secs() as i64,
            ),
            iv: asset.deribit_currency.is_some() && (!times.has_iv || !is_fresh(
                times.iv_at,
                now,
                self.iv_refresh_interval_secs() as i64,
            )),
        }
    }
}

/// What was just fetched is not fetched again at the same moment: only an implied volatility that is
/// not known is asked for again, and what stays fresh for no time at all.
pub proof fn law_fetched_prices_are_fresh(
    strategy: CryptoAlphaStrategy,
    times: PriceTimes,
    has_index: bool,
    now: i128,
    spot_ttl: i64,
    iv_known: bool,
)
    requires
        spot_ttl > 0,
        strategy.interval(strategy.config.history_refresh_interval_secs) as i64 > 0,
        strategy.interval(strategy.config.iv_refresh_interval_secs) as i64 > 0,
    ensures
        ({
            let first = strategy.needed(times, has_index, now, spot_ttl);
            let again = strategy.needed(
                refetched(times, first, now, iv_known),
                has_index,
                now,
                spot_ttl,
            );
            &&& !again.spot
            &&& !again.history
            &&& again.iv ==> has_index && first.iv && !iv_known
        }),
{
}

/// What was fetched is good for exactly so many seconds.
pub proof fn law_prices_age(fetched_at: i128, now: i128, ttl_secs: i64)
    requires
        fetched_at <= now,
    ensures
        fresh(Some(fetched_at), now, ttl_secs) <==> now - fetched_at < ttl_secs * 1_000_000_000,
        !fresh(None, now, ttl_secs),
{
    let age = now - fetched_at;
    let t = ttl_secs as int;
    assert(age / 1_000_000_000 < t <==> age < t * 1_000_000_000) by (nonlinear_arith)
        requires
            age >= 0,
    ;
}

/// A spot price, a history or an implied volatility is fetched exactly where it is not known or older
/// than its seconds, and an implied volatility only for assets with an index of it. Those seconds are the
/// general ones where none are set for the kind.
pub proof fn law_old_prices_are_fetched(
    strategy: CryptoAlphaStrategy,
    times: PriceTimes,
    has_index: bool,
    now: i128,
    spot_ttl: i64,
)
    requires
        times.spot_at matches Some(t) ==> t <= now,
        times.history_at matches Some(t) ==> t <= now,
        times.iv_at matches Some(t) ==> t <= now,
        strategy.config.refresh_interval_secs <= i64::MAX,
        strategy.config.history_refresh_interval_secs <= i64::MAX,
        strategy.config.iv_refresh_interval_secs <= i64::MAX,
    ensures
        ({
            let c = strategy.config;
            let found = strategy.needed(times, has_index, now, spot_ttl);
            let history_secs = if c.history_refresh_interval_secs > 0 {
                c.history_refresh_interval_secs as int
            } else {
                c.refresh_interval_secs as int
            };
            let iv_secs = if c.iv_refresh_interval_secs > 0 {
                c.iv_refresh_interval_secs as int
            } else {
                c.refresh_interval_secs as int
            };
            &&& found.spot <==> !times.has_spot || times.spot_at is None || now - times.spot_at->0
                >= spot_ttl * 1_000_000_000
            &&& found.history <==> !times.has_history || times.history_at is None || now
                - times.history_at->0 >= history_secs * 1_000_000_000
            &&& found.iv <==> has_index && (!times.has_iv || times.iv_at is None || now
                - times.iv_at->0 >= iv_secs * 1_000_000_000)
        }),
{
    let c = strategy.config;
    if times.spot_at is Some {
        law_prices_age(times.spot_at->0, now, spot_ttl);
    }
    if times.history_at is Some {
        law_prices_age(
            times.history_at->0,
            now,
            strategy.interval(c.history_refresh_interval_secs) as i64,
        );
    }
    if times.iv_at is Some {
        law_prices_age(times.iv_at->0, now, strategy.interval(c.iv_refresh_interval_secs) as i64);
    }
}

} // verus!
