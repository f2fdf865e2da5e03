//! The moving average of the stream-open rate, and the stream budgets derived from it.

use crate::peer::PeerClass;
use crate::stats::{bump, bumped, StreamStats};
use vstd::arithmetic::div_mod::{lemma_div_is_ordered, lemma_div_multiples_vanish, lemma_div_pos_is_pos};
use vstd::arithmetic::mul::{lemma_mul_inequality, lemma_mul_is_commutative, lemma_mul_nonnegative};
use vstd::prelude::*;

verus! {

/// Default length of one sampling interval, in milliseconds.
pub const SAMPLING_INTERVAL_MS: u64 = 10;

/// Default smoothing factor of the moving average, as a fraction: one quarter.
pub const SMOOTHING_NUM: u64 = 1;

/// Denominator of the default smoothing factor.
pub const SMOOTHING_DEN: u64 = 4;

/// Default number of streams per millisecond that no budget goes below.
pub const BUDGET_FLOOR_PER_MS: u64 = 1;

/// Default share of the capacity that unstaked connections divide among themselves, in percent.
pub const UNSTAKED_POOL_PERCENT: u64 = 20;

/// How load is measured and shared out.
#[derive(Clone, Copy, Debug, PartialEq, Eq, Structural)]
pub struct LoadConfig {
    /// Stream opens per millisecond that the server as a whole is meant to take.
    pub max_streams_per_ms: u64,
    /// Length of one sampling interval, which is also one throttling window.
    pub sampling_interval_ms: u64,
    /// The smoothing factor is `smoothing_num / smoothing_den`.
    pub smoothing_num: u64,
    pub smoothing_den: u64,
    /// Streams per millisecond that every connection is granted whatever the load.
    pub budget_floor_per_ms: u64,
    /// Percentage of the capacity set aside for unstaked connections.
    pub unstaked_pool_percent: u64,
}

/// `a * b / c`, rounded down.
pub open spec fn scaled(a: int, b: int, c: int) -> int {
    a * b / c
}

/// The product of two 64-bit numbers, or the largest 64-bit number where it does not fit.
pub open spec fn saturating_product(a: u64, b: u64) -> u64 {
    if a * b <= u64::MAX {
        (a * b) as u64
    } else {
        u64::MAX
    }
}

/// A part `b` of `c` of a quantity is no more than the quantity.
pub proof fn lemma_scaled_bounds(a: int, b: int, c: int)
    requires
        0 <= a,
        0 <= b <= c,
        0 < c,
    ensures
        0 <= scaled(a, b, c) <= a,
{
    lemma_mul_nonnegative(a, b);
    lemma_div_pos_is_pos(a * b, c);
    lemma_mul_inequality(b, c, a);
    lemma_mul_is_commutative(a, b);
    lemma_mul_is_commutative(a, c);
    lemma_div_is_ordered(a * b, a * c, c);
    lemma_div_multiples_vanish(a, c);
    lemma_mul_is_commutative(c, a);
}

/// Computes `a * b / c` without overflow, for a part `b` of `c`.
fn scale(a: u64, b: u64, c: u64) -> (r: u64)
    requires
        b <= c,
        0 < c,
    ensures
        r == scaled(a as int, b as int, c as int),
{
    proof {
        lemma_scaled_bounds(a as int, b as int, c as int);
        assert(0 <= a * b <= 0xffff_ffff_ffff_ffff * 0xffff_ffff_ffff_ffff) by (nonlinear_arith)
            requires
                0 <= a <= 0xffff_ffff_ffff_ffff,
                0 <= b <= 0xffff_ffff_ffff_ffff,
        ;
    }
    let wide: u128 = (a as u128) * (b as u128) / (c as u128);
    wide as u64
}

impl LoadConfig {
    /// The smoothing factor lies between zero and one, and the unstaked share is a percentage.
    pub open spec fn wf(self) -> bool {
        &&& 0 < self.smoothing_den
        &&& self.smoothing_num <= self.smoothing_den
        &&& self.unstaked_pool_percent <= 100
    }

    /// The configuration for a server that is meant to take `max_streams_per_ms`:
    /// intervals of ten milliseconds, a smoothing factor of one quarter, a floor
    /// of one stream per millisecond, a fifth of the capacity for unstaked peers.
    pub fn new(max_streams_per_ms: u64) -> (c: LoadConfig)
        ensures
            c == (LoadConfig {
                max_streams_per_ms,
                sampling_interval_ms: SAMPLING_INTERVAL_MS,
                smoothing_num: SMOOTHING_NUM,
                smoothing_den: SMOOTHING_DEN,
                budget_floor_per_ms: BUDGET_FLOOR_PER_MS,
                unstaked_pool_percent: UNSTAKED_POOL_PERCENT,
            }),
            c.wf(),
    {
        LoadConfig {
            max_streams_per_ms,
            sampling_interval_ms: SAMPLING_INTERVAL_MS,
            smoothing_num: SMOOTHING_NUM,
            smoothing_den: SMOOTHING_DEN,
            budget_floor_per_ms: BUDGET_FLOOR_PER_MS,
            unstaked_pool_percent: UNSTAKED_POOL_PERCENT,
        }
    }

    /// Whether the smoothing factor lies between zero and one and the
    /// unstaked share is a percentage.
    pub fn is_valid(&self) -> (b: bool)
        ensures
            b == self.wf(),
    {
        0 < self.smoothing_den && self.smoothing_num <= self.smoothing_den
            && self.unstaked_pool_percent <= 100
    }

    /// Stream opens that the whole server is meant to take in one interval.
    pub open spec fn capacity(self) -> u64 {
        saturating_product(self.max_streams_per_ms, self.sampling_interval_ms)
    }

    /// Stream opens per interval that every connection is granted whatever the load.
    pub open spec fn budget_floor(self) -> u64 {
        saturating_product(self.budget_floor_per_ms, self.sampling_interval_ms)
    }

    /// The part of the capacity that unstaked connections divide among themselves.
    pub open spec fn unstaked_pool(self) -> int {
        scaled(self.capacity() as int, self.unstaked_pool_percent as int, 100)
    }

    /// The part of the capacity that staked connections divide by stake.
    pub open spec fn staked_pool(self) -> int {
        self.capacity() - self.unstaked_pool()
    }

    /// What a connection of class `class` may open per interval while the
    /// server is not loaded beyond its capacity: a staked one its stake's
    /// part of the staked pool, an unstaked one an equal part of the unstaked
    /// pool, which `unstaked_connections` connections share.
    pub open spec fn base_quota(self, class: PeerClass, unstaked_connections: usize) -> int {
        match class {
            PeerClass::Staked { stake, total_stake } => {
                if total_stake == 0 {
                    0
                } else if stake >= total_stake {
                    self.staked_pool()
                } else {
                    scaled(self.staked_pool(), stake as int, total_stake as int)
                }
            },
            PeerClass::Unstaked => {
                if unstaked_connections <= 1 {
                    self.unstaked_pool()
                } else {
                    self.unstaked_pool() / (unstaked_connections as int)
                }
            },
        }
    }

    /// A quota under load `ema`: unchanged while the load is within the
    /// capacity, and reduced in the proportion of capacity to load beyond it.
    pub open spec fn contracted(self, quota: int, ema: u64) -> int {
        let load: int = if ema >= 1 { ema as int } else { 1 };
        if load <= self.capacity() {
            quota
        } else {
            scaled(quota, self.capacity() as int, load)
        }
    }

    /// The streams per interval assigned to a connection of class `class`
    /// under load `ema`: its contracted quota, but never less than the floor.
    pub open spec fn budget(self, class: PeerClass, unstaked_connections: usize, ema: u64) -> int {
        let q = self.contracted(self.base_quota(class, unstaked_connections), ema);
        if q >= self.budget_floor() {
            q
        } else {
            self.budget_floor() as int
        }
    }

    /// The moving average after an interval in which `sample` streams were opened.
    pub open spec fn next_ema(self, ema: u64, sample: u64) -> int {
        (self.smoothing_num * sample + (self.smoothing_den - self.smoothing_num) * ema)
            / (self.smoothing_den as int)
    }
}

/// The moving average stays between the old average and the sample.
pub proof fn lemma_next_ema_bounds(c: LoadConfig, ema: u64, sample: u64)
    requires
        c.wf(),
    ensures
        0 <= c.next_ema(ema, sample),
        ema <= sample ==> ema <= c.next_ema(ema, sample) <= sample,
        sample <= ema ==> sample <= c.next_ema(ema, sample) <= ema,
        0 <= c.smoothing_num * sample + (c.smoothing_den - c.smoothing_num) * ema
            <= c.smoothing_den * 0xffff_ffff_ffff_ffff,
{
    let n = c.smoothing_num as int;
    let d = c.smoothing_den as int;
    let e = ema as int;
    let s = sample as int;
    let lo = if e <= s { e } else { s };
    let hi = if e <= s { s } else { e };
    let total = n * s + (d - n) * e;
    assert(d * lo <= total <= d * hi && 0 <= total && d * hi <= d * 0xffff_ffff_ffff_ffff)
        by (nonlinear_arith)
        requires
            0 <= n <= d,
            0 <= lo <= e <= hi,
            0 <= lo <= s <= hi,
            hi <= 0xffff_ffff_ffff_ffff,
            total == n * s + (d - n) * e,
    ;
    lemma_div_is_ordered(d * lo, total, d);
    lemma_div_is_ordered(total, d * hi, d);
    lemma_div_multiples_vanish(lo, d);
    lemma_div_multiples_vanish(hi, d);
}

/// The moving average of the stream-open rate over sampling intervals.
pub struct StreamLoadEma {
    config: LoadConfig,
    capacity: u64,
    floor: u64,
    ema: u64,
    opens_in_interval: u64,
}

/// What a `StreamLoadEma` stands for.
pub struct LoadView {
    pub config: LoadConfig,
    /// The moving average of stream opens per interval.
    pub ema: u64,
    /// Stream opens counted since the last sample was taken.
    pub opens_in_interval: u64,
}

impl View for StreamLoadEma {
    type V = LoadView;

    closed spec fn view(&self) -> LoadView {
        LoadView { config: self.config, ema: self.ema, opens_in_interval: self.opens_in_interval }
    }
}

/// A 64-bit number as a gauge: itself, or the largest gauge value where it is larger.
pub open spec fn as_gauge(n: u64) -> usize {
    if n <= usize::MAX {
        n as usize
    } else {
        usize::MAX
    }
}

impl StreamLoadEma {
    /// The capacity and the floor held are those of the configuration, which
    /// is valid.
    pub closed spec fn wf(&self) -> bool {
        &&& self.config.wf()
        &&& self.capacity == self.config.capacity()
        &&& self.floor == self.config.budget_floor()
    }

    /// An average of zero for `config`, or nothing where `config` is not valid.
    /// A capacity beyond 64 bits is kept at the largest 64-bit number, and
    /// counted in `stream_load_capacity_overflow`.
    pub fn new(config: LoadConfig, stats: &mut StreamStats) -> (res: Option<StreamLoadEma>)
        ensures
            res is Some <==> config.wf(),
            res matches Some(l) ==> l.wf() && l@ == (LoadView { config, ema: 0, opens_in_interval: 0 }),
            *final(stats) == (StreamStats {
                stream_load_capacity_overflow: if config.wf() && config.max_streams_per_ms
                    * config.sampling_interval_ms > u64::MAX {
                    bumped(old(stats).stream_load_capacity_overflow)
                } else {
                    old(stats).stream_load_capacity_overflow
                },
                ..*old(stats)
            }),
    {
        if !config.is_valid() {
            return None;
        }
        let capacity = match config.max_streams_per_ms.checked_mul(config.sampling_interval_ms) {
            Some(c) => c,
            None => {
                stats.stream_load_capacity_overflow = bump(stats.stream_load_capacity_overflow);
                u64::MAX
            },
        };
        let floor = match config.budget_floor_per_ms.checked_mul(config.sampling_interval_ms) {
            Some(f) => f,
            None => u64::MAX,
        };
        Some(StreamLoadEma { config, capacity, floor, ema: 0, opens_in_interval: 0 })
    }

    /// Counts one stream open in the running interval. A count that is
    /// already at the largest 64-bit number stays there, and the miss is
    /// counted in `stream_load_ema_overflow`.
    pub fn record_stream_open(&mut self, stats: &mut StreamStats)
        requires
            old(self).wf(),
        ensures
            final(self).wf(),
            final(self)@ == (LoadView {
                opens_in_interval: if old(self)@.opens_in_interval < u64::MAX {
                    (old(self)@.opens_in_interval + 1) as u64
                } else {
                    u64::MAX
                },
                ..old(self)@
            }),
            *final(stats) == (StreamStats {
                stream_load_ema_overflow: if old(self)@.opens_in_interval < u64::MAX {
                    old(stats).stream_load_ema_overflow
                } else {
                    bumped(old(stats).stream_load_ema_overflow)
                },
                ..*old(stats)
            }),
    {
        if self.opens_in_interval < u64::MAX {
            self.opens_in_interval = self.opens_in_interval + 1;
        } else {
            stats.stream_load_ema_overflow = bump(stats.stream_load_ema_overflow);
        }
    }

    /// Closes the running interval: the average moves towards the number of
    /// stream opens counted in it by the smoothing factor, the count starts
    /// again from zero, and the gauge `stream_load_ema` shows the new average.
    pub fn sample(&mut self, stats: &mut StreamStats)
        requires
            old(self).wf(),
        ensures
            final(self).wf(),
            final(self)@ == (LoadView {
                ema: old(self)@.config.next_ema(old(self)@.ema, old(self)@.opens_in_interval) as u64,
                opens_in_interval: 0,
                ..old(self)@
            }),
            final(self)@.ema == old(self)@.config.next_ema(old(self)@.ema, old(self)@.opens_in_interval),
            *final(stats) == (StreamStats { stream_load_ema: as_gauge(final(self)@.ema), ..*old(stats) }),
    {
        proof {
            lemma_next_ema_bounds(self.config, self.ema, self.opens_in_interval);
            assert(0 <= self.config.smoothing_num * self.opens_in_interval
                <= 0xffff_ffff_ffff_ffff * 0xffff_ffff_ffff_ffff) by (nonlinear_arith)
                requires
                    0 <= self.config.smoothing_num <= 0xffff_ffff_ffff_ffff,
                    0 <= self.opens_in_interval <= 0xffff_ffff_ffff_ffff,
            ;
            assert(0 <= (self.config.smoothing_den - self.config.smoothing_num) * self.ema
                <= 0xffff_ffff_ffff_ffff * 0xffff_ffff_ffff_ffff) by (nonlinear_arith)
                requires
                    0 <= self.config.smoothing_den - self.config.smoothing_num <= 0xffff_ffff_ffff_ffff,
                    0 <= self.ema <= 0xffff_ffff_ffff_ffff,
            ;
            assert(self.config.smoothing_den * 0xffff_ffff_ffff_ffff <= 0xffff_ffff_ffff_ffff
                * 0xffff_ffff_ffff_ffff) by (nonlinear_arith)
                requires
                    0 <= self.config.smoothing_den <= 0xffff_ffff_ffff_ffff,
            ;
        }
        let num = self.config.smoothing_num as u128;
        let den = self.config.smoothing_den as u128;
        let towards = num * (self.opens_in_interval as u128);
        let kept = (den - num) * (self.ema as u128);
        let next = (towards + kept) / den;
        self.ema = next as u64;
        self.opens_in_interval = 0;
        stats.stream_load_ema = if self.ema > usize::MAX as u64 {
            usize::MAX
        } else {
            self.ema as usize
        };
    }

    /// The moving average of stream opens per interval.
    pub fn current_load(&self) -> (ema: u64)
        ensures
            ema == self@.ema,
    {
        self.ema
    }

    /// Stream opens that the whole server is meant to take in one interval.
    pub fn capacity(&self) -> (c: u64)
        requires
            self.wf(),
        ensures
            c == self@.config.capacity(),
    {
        self.capacity
    }

    /// Length of one sampling interval, in milliseconds.
    pub fn interval_ms(&self) -> (ms: u64)
        ensures
            ms == self@.config.sampling_interval_ms,
    {
        self.config.sampling_interval_ms
    }

    /// The streams per interval assigned, under the current load, to a
    /// connection of class `class` while `unstaked_connections` unstaked
    /// connections are admitted.
    pub fn assigned_budget(&self, class: PeerClass, unstaked_connections: usize) -> (b: u64)
        requires
            self.wf(),
        ensures
            b == self@.config.budget(class, unstaked_connections, self@.ema),
            b >= self@.config.budget_floor(),
    {
        proof {
            lemma_scaled_bounds(self.capacity as int, self.config.unstaked_pool_percent as int, 100);
        }
        let unstaked_pool = scale(self.capacity, self.config.unstaked_pool_percent, 100);
        let staked_pool = self.capacity - unstaked_pool;
        let quota: u64 = match class {
            PeerClass::Staked { stake, total_stake } => {
                if total_stake == 0 {
                    0
                } else if stake >= total_stake {
                    staked_pool
                } else {
                    proof {
                        lemma_scaled_bounds(staked_pool as int, stake as int, total_stake as int);
                    }
                    scale(staked_pool, stake, total_stake)
                }
            },
            PeerClass::Unstaked => {
                if unstaked_connections <= 1 {
                    unstaked_pool
                } else {
                    unstaked_pool / (unstaked_connections as u64)
                }
            },
        };
        let load: u64 = if self.ema >= 1 { self.ema } else { 1 };
        let contracted: u64 = if load <= self.capacity {
            quota
        } else {
            proof {
                lemma_scaled_bounds(quota as int, self.capacity as int, load as int);
            }
            scale(quota, self.capacity, load)
        };
        if contracted >= self.floor {
            contracted
        } else {
            self.floor
        }
    }
}

} // verus!
