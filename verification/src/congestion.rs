//! Congestion control: how much may be in flight.
//!
//! Times are nanoseconds on a monotonic clock. The CUBIC growth curve is
//! evaluated outside, in floating point; the controllers take its value as an
//! argument and decide what to do with it.

use vstd::prelude::*;

verus! {

/// Supported congestion control algorithms.
#[derive(Debug, Clone, Copy, PartialEq, Eq, Structural)]
pub enum CongestionControlAlgorithm {
    /// CUBIC congestion control (RFC 8312). Scales the congestion window as a cubic
    /// function of the time elapsed since the last congestion event, which makes
    /// window growth independent of the round-trip time.
    Cubic,
    /// TCP Reno congestion control: additive increase, multiplicative decrease.
    /// Grows by about one segment per round trip in congestion avoidance and halves
    /// the window upon loss.
    Reno,
}

/// `a + b`, or the largest number if that does not fit.
pub open spec fn sat_add(a: usize, b: usize) -> usize {
    if a + b > usize::MAX {
        usize::MAX
    } else {
        (a + b) as usize
    }
}

/// `a - b`, or zero if that is negative.
pub open spec fn sat_sub(a: usize, b: usize) -> usize {
    if a < b {
        0
    } else {
        (a - b) as usize
    }
}

/// The larger of two sizes.
pub open spec fn larger(a: usize, b: usize) -> usize {
    if a > b {
        a
    } else {
        b
    }
}

/// The smaller of two sizes.
pub open spec fn smaller(a: usize, b: usize) -> usize {
    if a < b {
        a
    } else {
        b
    }
}

/// The time from `since` to `now`, zero if the clock reads earlier.
pub open spec fn elapsed(now: u64, since: u64) -> u64 {
    if now < since {
        0
    } else {
        (now - since) as u64
    }
}

/// Two segments, the smallest window that a loss leaves.
pub open spec fn floor_window(mtu: usize) -> usize {
    sat_add(mtu, mtu)
}

/// The additive increase for `bytes_acked` acknowledged bytes: one segment per
/// window's worth.
pub open spec fn additive_increase(mtu: usize, bytes_acked: usize, cwnd: usize) -> usize {
    ((mtu as int * bytes_acked as int) / (larger(cwnd, mtu) as int)) as usize
}

/// Whether a loss at `now` is counted: at most one reduction per round trip.
pub open spec fn loss_counts(last: Option<u64>, now: u64, rtt: u64) -> bool {
    match last {
        Some(t) => elapsed(now, t) >= rtt,
        None => true,
    }
}

pub proof fn lemma_additive_increase(mtu: usize, bytes_acked: usize, cwnd: usize)
    requires
        cwnd > 0 || mtu > 0,
    ensures
        0 <= (mtu as int * bytes_acked as int) / (larger(cwnd, mtu) as int) <= bytes_acked,
        mtu as int * bytes_acked as int <= u128::MAX,
{
    let d = larger(cwnd, mtu) as int;
    assert(0 <= mtu as int * bytes_acked as int <= d * bytes_acked as int) by (nonlinear_arith)
        requires
            0 <= mtu as int <= d,
            0 <= bytes_acked,
    ;
    assert((mtu as int * bytes_acked as int) <= u128::MAX) by (nonlinear_arith)
        requires
            mtu <= u64::MAX,
            bytes_acked <= u64::MAX,
    ;
    assert((d * bytes_acked as int) / d == bytes_acked) by (nonlinear_arith)
        requires
            d > 0,
    ;
    vstd::arithmetic::div_mod::lemma_div_is_ordered(
        mtu as int * bytes_acked as int,
        d * bytes_acked as int,
        d,
    );
    vstd::arithmetic::div_mod::lemma_div_pos_is_pos(mtu as int * bytes_acked as int, d);
}

/// The additive increase for `bytes_acked` acknowledged bytes.
pub(crate) fn increase(mtu: usize, bytes_acked: usize, cwnd: usize) -> (r: usize)
    requires
        cwnd > 0 || mtu > 0,
    ensures
        r == additive_increase(mtu, bytes_acked, cwnd),
        r <= bytes_acked,
{
    let base: usize = if cwnd > mtu {
        cwnd
    } else {
        mtu
    };
    proof {
        lemma_additive_increase(mtu, bytes_acked, cwnd);
        assert((mtu as u128) * (bytes_acked as u128) == mtu as int * bytes_acked as int);
    }
    let wide: u128 = (mtu as u128) * (bytes_acked as u128);
    (wide / (base as u128)) as usize
}

/// The state of classic TCP Reno (additive increase, multiplicative decrease).
#[derive(Debug, Clone, Copy)]
pub struct RenoController {
    /// Current congestion window size in bytes.
    pub cwnd: usize,
    /// Slow start threshold in bytes.
    pub ssthresh: usize,
    /// Segment size in bytes.
    pub mtu: usize,
    /// When the window was last reduced.
    pub last_congestion_time: Option<u64>,
}

impl RenoController {
    /// A controller with the given window and segment size, in slow start.
    pub fn new(initial_cwnd: usize, mtu: usize) -> (r: Self)
        ensures
            r == (RenoController {
                cwnd: initial_cwnd,
                ssthresh: usize::MAX,
                mtu,
                last_congestion_time: None,
            }),
    {
        RenoController { cwnd: initial_cwnd, ssthresh: usize::MAX, mtu, last_congestion_time: None }
    }

    /// The window after `bytes_acked` bytes were acknowledged.
    pub open spec fn grown(&self, bytes_acked: usize) -> usize {
        if self.cwnd < self.ssthresh {
            sat_add(self.cwnd, bytes_acked)
        } else {
            sat_add(self.cwnd, larger(additive_increase(self.mtu, bytes_acked, self.cwnd), 1))
        }
    }

    /// The window after a loss.
    pub open spec fn halved(&self) -> usize {
        larger(self.cwnd / 2, floor_window(self.mtu))
    }

    /// Grows the window for `bytes_acked` acknowledged bytes.
    pub fn on_packet_acked(&mut self, bytes_acked: usize)
        requires
            old(self).cwnd >= old(self).ssthresh ==> old(self).cwnd > 0 || old(self).mtu > 0,
        ensures
            *final(self) == (RenoController {
                cwnd: old(self).grown(bytes_acked),
                ..*old(self)
            }),
    {
        if self.cwnd < self.ssthresh {
            self.cwnd = self.cwnd.saturating_add(bytes_acked);
        } else {
            let increment: usize = increase(self.mtu, bytes_acked, self.cwnd);
            let step: usize = if increment > 1 {
                increment
            } else {
                1
            };
            self.cwnd = self.cwnd.saturating_add(step);
        }
    }

    /// Halves the window upon loss, at most once per round trip. Returns
    /// whether it was reduced.
    pub fn on_congestion_event(&mut self, rtt: u64, now: u64) -> (r: bool)
        ensures
            r == loss_counts(old(self).last_congestion_time, now, rtt),
            !r ==> *final(self) == *old(self),
            r ==> *final(self) == (RenoController {
                cwnd: old(self).halved(),
                ssthresh: old(self).halved(),
                last_congestion_time: Some(now),
                ..*old(self)
            }),
    {
        if let Some(last_loss) = self.last_congestion_time {
            if now.saturating_sub(last_loss) < rtt {
                return false;
            }
        }
        self.last_congestion_time = Some(now);
        let half: usize = self.cwnd / 2;
        let floor: usize = self.mtu.saturating_add(self.mtu);
        self.ssthresh = if half > floor {
            half
        } else {
            floor
        };
        self.cwnd = self.ssthresh;
        true
    }
}

/// The state of CUBIC (RFC 8312), without the curve's coefficients.
#[derive(Debug, Clone, Copy)]
pub struct CubicController {
    /// Current congestion window size in bytes.
    pub cwnd: usize,
    /// Slow start threshold in bytes.
    pub ssthresh: usize,
    /// Segment size in bytes.
    pub mtu: usize,
    /// When the window was last reduced.
    pub last_congestion_time: Option<u64>,
    /// When the target window was last taken from the curve.
    pub last_cubic_update: Option<u64>,
    /// When the current epoch began.
    pub cubic_epoch_start: Option<u64>,
    /// The window that the curve asks for.
    pub target_cwnd: usize,
}

impl CubicController {
    /// A controller with the given window and segment size, in slow start.
    pub fn new(initial_cwnd: usize, mtu: usize) -> (r: Self)
        ensures
            r == (CubicController {
                cwnd: initial_cwnd,
                ssthresh: usize::MAX,
                mtu,
                last_congestion_time: None,
                last_cubic_update: None,
                cubic_epoch_start: None,
                target_cwnd: initial_cwnd,
            }),
    {
        CubicController {
            cwnd: initial_cwnd,
            ssthresh: usize::MAX,
            mtu,
            last_congestion_time: None,
            last_cubic_update: None,
            cubic_epoch_start: None,
            target_cwnd: initial_cwnd,
        }
    }

    /// How long the current epoch has lasted; a new one starts at `now`.
    pub open spec fn epoch_age(&self, now: u64) -> u64 {
        match self.cubic_epoch_start {
            Some(start) => elapsed(now, start),
            None => 0,
        }
    }

    /// Whether the target is due to be taken from the curve anew.
    pub open spec fn target_due(&self, now: u64, rtt: u64) -> bool {
        match self.last_cubic_update {
            Some(last) => elapsed(now, last) >= rtt,
            None => true,
        }
    }

    /// The state after `bytes_acked` bytes were acknowledged, where the curve
    /// stands at `curve_target`.
    pub open spec fn grown(
        &self,
        bytes_acked: usize,
        rtt: u64,
        now: u64,
        curve_target: usize,
    ) -> CubicController {
        if self.cwnd < self.ssthresh {
            CubicController { cwnd: sat_add(self.cwnd, bytes_acked), ..*self }
        } else {
            let due = self.target_due(now, rtt);
            let target = if due {
                curve_target
            } else {
                self.target_cwnd
            };
            CubicController {
                cubic_epoch_start: match self.cubic_epoch_start {
                    Some(start) => Some(start),
                    None => Some(now),
                },
                last_cubic_update: if due {
                    Some(now)
                } else {
                    self.last_cubic_update
                },
                target_cwnd: target,
                cwnd: if target > self.cwnd {
                    sat_add(self.cwnd, smaller((target - self.cwnd) as usize, bytes_acked))
                } else {
                    sat_add(self.cwnd, additive_increase(self.mtu, bytes_acked, self.cwnd))
                },
                ..*self
            }
        }
    }

    /// How long the current epoch has lasted; zero if none has begun.
    pub fn age_of_epoch(&self, now: u64) -> (r: u64)
        ensures
            r == self.epoch_age(now),
    {
        match self.cubic_epoch_start {
            Some(start) => now.saturating_sub(start),
            None => 0,
        }
    }

    /// Grows the window for `bytes_acked` acknowledged bytes. `curve_target` is
    /// the curve's value, in bytes, at the epoch's age.
    pub fn on_packet_acked(&mut self, bytes_acked: usize, rtt: u64, now: u64, curve_target: usize)
        requires
            old(self).cwnd >= old(self).ssthresh ==> old(self).cwnd > 0 || old(self).mtu > 0,
        ensures
            *final(self) == old(self).grown(bytes_acked, rtt, now, curve_target),
            old(self).cwnd >= old(self).ssthresh && final(self).target_cwnd > old(self).cwnd
                ==> final(self).cwnd <= final(self).target_cwnd && (final(self).target_cwnd
                - old(self).cwnd <= bytes_acked ==> final(self).cwnd == final(self).target_cwnd),
            old(self).cwnd >= old(self).ssthresh && final(self).target_cwnd <= old(self).cwnd
                && bytes_acked <= old(self).cwnd ==> final(self).cwnd <= old(self).cwnd + old(
                self,
            ).mtu,
    {
        proof {
            if self.cwnd >= self.ssthresh {
                law_cubic_follows_its_curve(*self, bytes_acked, rtt, now, curve_target);
            }
        }
        if self.cwnd < self.ssthresh {
            self.cwnd = self.cwnd.saturating_add(bytes_acked);
        } else {
            if self.cubic_epoch_start.is_none() {
                self.cubic_epoch_start = Some(now);
            }
            let should_update = match self.last_cubic_update {
                Some(last) => now.saturating_sub(last) >= rtt,
                None => true,
            };
            if should_update {
                self.last_cubic_update = Some(now);
                self.target_cwnd = curve_target;
            }
            let target: usize = self.target_cwnd;
            let reno_inc: usize = increase(self.mtu, bytes_acked, self.cwnd);
            if target > self.cwnd {
                let cubic_inc: usize = target - self.cwnd;
                let step: usize = if cubic_inc < bytes_acked {
                    cubic_inc
                } else {
                    bytes_acked
                };
                self.cwnd = self.cwnd.saturating_add(step);
            } else {
                self.cwnd = self.cwnd.saturating_add(reno_inc);
            }
        }
    }

    /// Reduces the window upon loss, at most once per round trip. `scaled_cwnd`
    /// is the multiplicative decrease of the present window. Returns whether
    /// the window was reduced; the caller then computes the curve anew.
    pub fn on_congestion_event(&mut self, rtt: u64, now: u64, scaled_cwnd: usize) -> (r: bool)
        ensures
            r == loss_counts(old(self).last_congestion_time, now, rtt),
            !r ==> *final(self) == *old(self),
            r ==> *final(self) == (CubicController {
                cwnd: larger(scaled_cwnd, floor_window(old(self).mtu)),
                ssthresh: larger(scaled_cwnd, floor_window(old(self).mtu)),
                last_congestion_time: Some(now),
                cubic_epoch_start: None,
                last_cubic_update: None,
                ..*old(self)
            }),
    {
        if let Some(last_loss) = self.last_congestion_time {
            if now.saturating_sub(last_loss) < rtt {
                return false;
            }
        }
        self.last_congestion_time = Some(now);
        let floor: usize = self.mtu.saturating_add(self.mtu);
        self.ssthresh = if scaled_cwnd > floor {
            scaled_cwnd
        } else {
            floor
        };
        self.cwnd = self.ssthresh;
        self.cubic_epoch_start = None;
        self.last_cubic_update = None;
        true
    }
}

/// The congestion controller of a connection.
#[derive(Debug, Clone, Copy)]
pub enum CongestionController {
    Cubic(CubicController),
    Reno(RenoController),
}

impl CongestionController {
    /// The congestion window in bytes.
    pub open spec fn window(&self) -> usize {
        match self {
            CongestionController::Cubic(c) => c.cwnd,
            CongestionController::Reno(c) => c.cwnd,
        }
    }

    /// The slow start threshold in bytes.
    pub open spec fn threshold(&self) -> usize {
        match self {
            CongestionController::Cubic(c) => c.ssthresh,
            CongestionController::Reno(c) => c.ssthresh,
        }
    }

    /// The segment size in bytes.
    pub open spec fn segment(&self) -> usize {
        match self {
            CongestionController::Cubic(c) => c.mtu,
            CongestionController::Reno(c) => c.mtu,
        }
    }

    /// When the window was last reduced.
    pub open spec fn last_loss(&self) -> Option<u64> {
        match self {
            CongestionController::Cubic(c) => c.last_congestion_time,
            CongestionController::Reno(c) => c.last_congestion_time,
        }
    }

    /// The window can be divided into segments.
    pub open spec fn wf(&self) -> bool {
        self.window() > 0 || self.segment() > 0
    }

    /// The controller with another window.
    pub open spec fn with_window(&self, cwnd: usize) -> CongestionController {
        match self {
            CongestionController::Cubic(c) => CongestionController::Cubic(
                CubicController { cwnd, ..*c },
            ),
            CongestionController::Reno(c) => CongestionController::Reno(
                RenoController { cwnd, ..*c },
            ),
        }
    }

    /// The controller with another threshold.
    pub open spec fn with_threshold(&self, ssthresh: usize) -> CongestionController {
        match self {
            CongestionController::Cubic(c) => CongestionController::Cubic(
                CubicController { ssthresh, ..*c },
            ),
            CongestionController::Reno(c) => CongestionController::Reno(
                RenoController { ssthresh, ..*c },
            ),
        }
    }

    /// The controller with another segment size.
    pub open spec fn with_segment(&self, mtu: usize) -> CongestionController {
        match self {
            CongestionController::Cubic(c) => CongestionController::Cubic(
                CubicController { mtu, ..*c },
            ),
            CongestionController::Reno(c) => CongestionController::Reno(
                RenoController { mtu, ..*c },
            ),
        }
    }

    /// The controller after `bytes_acked` bytes were acknowledged.
    pub open spec fn acked(
        &self,
        bytes_acked: usize,
        rtt: u64,
        now: u64,
        curve_target: usize,
    ) -> CongestionController {
        match self {
            CongestionController::Cubic(c) => CongestionController::Cubic(
                c.grown(bytes_acked, rtt, now, curve_target),
            ),
            CongestionController::Reno(c) => CongestionController::Reno(
                RenoController { cwnd: c.grown(bytes_acked), ..*c },
            ),
        }
    }

    /// The controller after a loss.
    pub open spec fn after_loss(&self, rtt: u64, now: u64, scaled_cwnd: usize) -> CongestionController {
        if !loss_counts(self.last_loss(), now, rtt) {
            *self
        } else {
            match self {
                CongestionController::Cubic(c) => {
                    let reduced = larger(scaled_cwnd, floor_window(c.mtu));
                    CongestionController::Cubic(
                        CubicController {
                            cwnd: reduced,
                            ssthresh: reduced,
                            last_congestion_time: Some(now),
                            cubic_epoch_start: None,
                            last_cubic_update: None,
                            ..*c
                        },
                    )
                },
                CongestionController::Reno(c) => CongestionController::Reno(
                    RenoController {
                        cwnd: c.halved(),
                        ssthresh: c.halved(),
                        last_congestion_time: Some(now),
                        ..*c
                    },
                ),
            }
        }
    }

    /// The controller of a new connection: in slow start, with nothing lost.
    pub open spec fn fresh(
        algorithm: CongestionControlAlgorithm,
        initial_cwnd: usize,
        mtu: usize,
    ) -> CongestionController {
        match algorithm {
            CongestionControlAlgorithm::Cubic => CongestionController::Cubic(
                CubicController {
                    cwnd: initial_cwnd,
                    ssthresh: usize::MAX,
                    mtu,
                    last_congestion_time: None,
                    last_cubic_update: None,
                    cubic_epoch_start: None,
                    target_cwnd: initial_cwnd,
                },
            ),
            CongestionControlAlgorithm::Reno => CongestionController::Reno(
                RenoController {
                    cwnd: initial_cwnd,
                    ssthresh: usize::MAX,
                    mtu,
                    last_congestion_time: None,
                },
            ),
        }
    }

    /// The controller of a new connection.
    pub fn new(algorithm: CongestionControlAlgorithm, initial_cwnd: usize, mtu: usize) -> (r: Self)
        ensures
            r == CongestionController::fresh(algorithm, initial_cwnd, mtu),
    {
        match algorithm {
            CongestionControlAlgorithm::Cubic => CongestionController::Cubic(
                CubicController::new(initial_cwnd, mtu),
            ),
            CongestionControlAlgorithm::Reno => CongestionController::Reno(
                RenoController::new(initial_cwnd, mtu),
            ),
        }
    }

    /// Grows the window for `bytes_acked` acknowledged bytes.
    pub fn on_packet_acked(&mut self, bytes_acked: usize, rtt: u64, now: u64, curve_target: usize)
        requires
            old(self).wf(),
        ensures
            *final(self) == old(self).acked(bytes_acked, rtt, now, curve_target),
            final(self).wf(),
    {
        match self {
            CongestionController::Cubic(c) => c.on_packet_acked(bytes_acked, rtt, now, curve_target),
            CongestionController::Reno(c) => c.on_packet_acked(bytes_acked),
        }
    }

    /// Reduces the window upon loss, at most once per round trip. Returns
    /// whether it was reduced.
    pub fn on_congestion_event(&mut self, rtt: u64, now: u64, scaled_cwnd: usize) -> (r: bool)
        ensures
            r == loss_counts(old(self).last_loss(), now, rtt),
            *final(self) == old(self).after_loss(rtt, now, scaled_cwnd),
            final(self).segment() == old(self).segment(),
    {
        match self {
            CongestionController::Cubic(c) => c.on_congestion_event(rtt, now, scaled_cwnd),
            CongestionController::Reno(c) => c.on_congestion_event(rtt, now),
        }
    }

    /// Which algorithm the controller follows.
    pub fn algorithm(&self) -> (r: CongestionControlAlgorithm)
        ensures
            r == if self is Cubic {
                CongestionControlAlgorithm::Cubic
            } else {
                CongestionControlAlgorithm::Reno
            },
    {
        match self {
            CongestionController::Cubic(_) => CongestionControlAlgorithm::Cubic,
            CongestionController::Reno(_) => CongestionControlAlgorithm::Reno,
        }
    }

    /// The congestion window in bytes.
    pub fn cwnd(&self) -> (r: usize)
        ensures
            r == self.window(),
    {
        match self {
            CongestionController::Cubic(c) => c.cwnd,
            CongestionController::Reno(c) => c.cwnd,
        }
    }

    /// The slow start threshold in bytes.
    pub fn ssthresh(&self) -> (r: usize)
        ensures
            r == self.threshold(),
    {
        match self {
            CongestionController::Cubic(c) => c.ssthresh,
            CongestionController::Reno(c) => c.ssthresh,
        }
    }

    /// Sets the congestion window.
    pub fn set_cwnd(&mut self, cwnd: usize)
        ensures
            *final(self) == old(self).with_window(cwnd),
    {
        match self {
            CongestionController::Cubic(c) => c.cwnd = cwnd,
            CongestionController::Reno(c) => c.cwnd = cwnd,
        }
    }

    /// Sets the slow start threshold.
    pub fn set_ssthresh(&mut self, ssthresh: usize)
        ensures
            *final(self) == old(self).with_threshold(ssthresh),
    {
        match self {
            CongestionController::Cubic(c) => c.ssthresh = ssthresh,
            CongestionController::Reno(c) => c.ssthresh = ssthresh,
        }
    }

    /// Sets the segment size.
    pub fn set_mtu(&mut self, mtu: usize)
        ensures
            *final(self) == old(self).with_segment(mtu),
    {
        match self {
            CongestionController::Cubic(c) => c.mtu = mtu,
            CongestionController::Reno(c) => c.mtu = mtu,
        }
    }
}

/// A second loss within a round trip of a counted one changes nothing.
pub proof fn law_one_reduction_per_round_trip(
    c: CongestionController,
    rtt: u64,
    first: u64,
    second: u64,
    scaled1: usize,
    scaled2: usize,
)
    requires
        loss_counts(c.last_loss(), first, rtt),
        first <= second < first + rtt,
    ensures
        c.after_loss(rtt, first, scaled1).after_loss(rtt, second, scaled2) == c.after_loss(
            rtt,
            first,
            scaled1,
        ),
{
}

/// A counted loss ends slow start, with a window of at least two segments.
pub proof fn law_loss_enters_congestion_avoidance(
    c: CongestionController,
    rtt: u64,
    now: u64,
    scaled: usize,
)
    requires
        loss_counts(c.last_loss(), now, rtt),
    ensures
        c.after_loss(rtt, now, scaled).window() == c.after_loss(rtt, now, scaled).threshold(),
        c.after_loss(rtt, now, scaled).window() >= floor_window(c.segment()),
{
}

/// An acknowledgement never shrinks the window, and grows it by no more than the
/// acknowledged bytes (by one byte at least, under Reno).
pub proof fn law_growth_is_bounded_by_acked_bytes(
    c: CongestionController,
    bytes_acked: usize,
    rtt: u64,
    now: u64,
    curve_target: usize,
)
    requires
        c.wf(),
    ensures
        c.window() <= c.acked(bytes_acked, rtt, now, curve_target).window() <= c.window() + larger(
            bytes_acked,
            1,
        ),
{
    lemma_additive_increase(c.segment(), bytes_acked, c.window());
}

/// In congestion avoidance, CUBIC follows its curve. The target is the curve's
/// value, taken anew once per round trip. Below the target, the window grows by
/// the acknowledged bytes, but never beyond the target, and reaches the target if
/// that is no further away. At or above the target, it grows by the acknowledged
/// share of one segment per window: by one segment at most for a whole window.
pub proof fn law_cubic_follows_its_curve(
    c: CubicController,
    bytes_acked: usize,
    rtt: u64,
    now: u64,
    curve_target: usize,
)
    requires
        c.cwnd >= c.ssthresh,
        c.cwnd > 0 || c.mtu > 0,
    ensures
        ({
            let after = c.grown(bytes_acked, rtt, now, curve_target);
            let target = after.target_cwnd;
            let due = c.last_cubic_update matches Some(last) ==> last + rtt <= now || rtt == 0;
            let base: int = if c.cwnd > c.mtu {
                c.cwnd as int
            } else {
                c.mtu as int
            };
            let share = (c.mtu as int * bytes_acked as int) / base;
            &&& due ==> target == curve_target && after.last_cubic_update == Some(now)
            &&& !due ==> target == c.target_cwnd && after.last_cubic_update == c.last_cubic_update
            &&& target > c.cwnd ==> after.cwnd <= target && after.cwnd <= c.cwnd + bytes_acked
            &&& target > c.cwnd && target - c.cwnd <= bytes_acked ==> after.cwnd == target
            &&& target > c.cwnd && target - c.cwnd > bytes_acked ==> after.cwnd == c.cwnd
                + bytes_acked
            &&& target <= c.cwnd && c.cwnd + share <= usize::MAX ==> after.cwnd == c.cwnd + share
            &&& target <= c.cwnd && c.cwnd + share > usize::MAX ==> after.cwnd == usize::MAX
            &&& target <= c.cwnd && bytes_acked <= c.cwnd ==> c.cwnd <= after.cwnd <= c.cwnd + c.mtu
            &&& after.ssthresh == c.ssthresh && after.mtu == c.mtu && after.last_congestion_time
                == c.last_congestion_time
            &&& c.cubic_epoch_start is Some ==> after.cubic_epoch_start == c.cubic_epoch_start
            &&& c.cubic_epoch_start is None ==> after.cubic_epoch_start == Some(now)
        }),
{
    lemma_additive_increase(c.mtu, bytes_acked, c.cwnd);
    if bytes_acked <= c.cwnd {
        lemma_one_segment_per_window(c.mtu, bytes_acked, c.cwnd);
    }
}

/// In congestion avoidance, Reno grows by the acknowledged share of one segment
/// per window, and by one byte at least.
pub proof fn law_reno_grows_by_a_segment_per_window(c: RenoController, bytes_acked: usize)
    requires
        c.cwnd >= c.ssthresh,
        c.cwnd > 0 || c.mtu > 0,
    ensures
        ({
            let base: int = if c.cwnd > c.mtu {
                c.cwnd as int
            } else {
                c.mtu as int
            };
            let share = (c.mtu as int * bytes_acked as int) / base;
            let after = c.grown(bytes_acked);
            &&& share >= 1 && c.cwnd + share <= usize::MAX ==> after == c.cwnd + share
            &&& share < 1 && c.cwnd < usize::MAX ==> after == c.cwnd + 1
            &&& c.cwnd + share > usize::MAX || c.cwnd == usize::MAX ==> after == usize::MAX
            &&& bytes_acked <= c.cwnd && c.mtu > 0 ==> c.cwnd <= after <= c.cwnd + c.mtu
        }),
{
    lemma_additive_increase(c.mtu, bytes_acked, c.cwnd);
    if bytes_acked <= c.cwnd {
        lemma_one_segment_per_window(c.mtu, bytes_acked, c.cwnd);
    }
}

/// In slow start, every acknowledged byte adds a byte to the window, whatever the
/// algorithm, and nothing else changes.
pub proof fn law_slow_start_adds_what_was_acknowledged(
    c: CongestionController,
    bytes_acked: usize,
    rtt: u64,
    now: u64,
    curve_target: usize,
)
    ensures
        c matches CongestionController::Cubic(x) ==> (x.cwnd < x.ssthresh && x.cwnd + bytes_acked
            <= usize::MAX ==> c.acked(bytes_acked, rtt, now, curve_target)
            == CongestionController::Cubic(
            CubicController { cwnd: (x.cwnd + bytes_acked) as usize, ..x },
        )),
        c matches CongestionController::Reno(x) ==> (x.cwnd < x.ssthresh && x.cwnd + bytes_acked
            <= usize::MAX ==> c.acked(bytes_acked, rtt, now, curve_target)
            == CongestionController::Reno(
            RenoController { cwnd: (x.cwnd + bytes_acked) as usize, ..x },
        )),
        c.acked(bytes_acked, rtt, now, curve_target) is Cubic <==> c is Cubic,
        c matches CongestionController::Cubic(x) ==> c.acked(bytes_acked, rtt, now, curve_target)
            == CongestionController::Cubic(x.grown(bytes_acked, rtt, now, curve_target)),
        c matches CongestionController::Reno(x) ==> c.acked(bytes_acked, rtt, now, curve_target)
            == CongestionController::Reno(RenoController { cwnd: x.grown(bytes_acked), ..x }),
{
}

/// What a loss does. One within a round trip of the last reduction changes
/// nothing. Any other makes window and threshold the same: half the window under
/// Reno, the scaled window under CUBIC, but two segments at least. The time is
/// kept, and CUBIC starts a new epoch.
pub proof fn law_loss_reduces_the_window(
    c: CongestionController,
    rtt: u64,
    now: u64,
    scaled: usize,
)
    ensures
        ({
            let after = c.after_loss(rtt, now, scaled);
            match c {
                CongestionController::Cubic(x) => {
                    let counted = x.last_congestion_time matches Some(last) ==> last + rtt <= now
                        || rtt == 0;
                    if !counted {
                        after == c
                    } else {
                        &&& after matches CongestionController::Cubic(y)
                        &&& y.cwnd == y.ssthresh
                        &&& y.cwnd >= scaled
                        &&& y.cwnd >= 2 * x.mtu || y.cwnd == usize::MAX
                        &&& y.cwnd == scaled || y.cwnd <= 2 * x.mtu
                        &&& y.last_congestion_time == Some(now)
                        &&& y.cubic_epoch_start is None && y.last_cubic_update is None
                        &&& y.mtu == x.mtu && y.target_cwnd == x.target_cwnd
                    }
                },
                CongestionController::Reno(x) => {
                    let counted = x.last_congestion_time matches Some(last) ==> last + rtt <= now
                        || rtt == 0;
                    if !counted {
                        after == c
                    } else {
                        &&& after matches CongestionController::Reno(y)
                        &&& y.cwnd == y.ssthresh
                        &&& 2 * y.cwnd + 1 >= x.cwnd
                        &&& y.cwnd >= 2 * x.mtu || y.cwnd == usize::MAX
                        &&& 2 * y.cwnd <= x.cwnd || y.cwnd <= 2 * x.mtu
                        &&& y.last_congestion_time == Some(now)
                        &&& y.mtu == x.mtu
                    }
                },
            }
        }),
{
}

/// A loss is counted if and only if none was yet, or the last one that was lies
/// a round trip or more back.
pub proof fn law_losses_are_counted_once_per_round_trip(last: Option<u64>, now: u64, rtt: u64)
    ensures
        last is None ==> loss_counts(last, now, rtt),
        last matches Some(t) ==> (loss_counts(last, now, rtt) <==> t + rtt <= now || rtt == 0),
{
}

/// What the helpers for sizes and times promise.
pub proof fn law_sizes_saturate(a: usize, b: usize)
    ensures
        a + b <= usize::MAX ==> sat_add(a, b) == a + b,
        a + b > usize::MAX ==> sat_add(a, b) == usize::MAX,
        b <= a ==> sat_sub(a, b) + b == a,
        b > a ==> sat_sub(a, b) == 0,
        larger(a, b) >= a && larger(a, b) >= b && (larger(a, b) == a || larger(a, b) == b),
        smaller(a, b) <= a && smaller(a, b) <= b && (smaller(a, b) == a || smaller(a, b) == b),
        2 * a <= usize::MAX ==> floor_window(a) == 2 * a,
        2 * a > usize::MAX ==> floor_window(a) == usize::MAX,
{
}

/// Time that passed is the difference of two readings, and never negative. An
/// epoch's age is the time since its start.
pub proof fn law_time_passes_forward(now: u64, since: u64, c: CubicController)
    ensures
        now >= since ==> since + elapsed(now, since) == now,
        now <= since ==> elapsed(now, since) == 0,
        c.cubic_epoch_start is None ==> c.epoch_age(now) == 0,
        c.cubic_epoch_start matches Some(start) ==> (start <= now ==> start + c.epoch_age(now)
            == now),
        c.cubic_epoch_start matches Some(start) ==> (start > now ==> c.epoch_age(now) == 0),
{
}

/// A setter changes the one thing that it names, and what is read back is what
/// was set.
pub proof fn law_settings_read_back(c: CongestionController, n: usize)
    ensures
        c.with_window(n).window() == n,
        c.with_window(n).threshold() == c.threshold(),
        c.with_window(n).segment() == c.segment(),
        c.with_window(n).with_window(c.window()) == c,
        c.with_threshold(n).threshold() == n,
        c.with_threshold(n).window() == c.window(),
        c.with_threshold(n).segment() == c.segment(),
        c.with_threshold(n).with_threshold(c.threshold()) == c,
        c.with_segment(n).segment() == n,
        c.with_segment(n).window() == c.window(),
        c.with_segment(n).threshold() == c.threshold(),
        c.with_segment(n).with_segment(c.segment()) == c,
        c matches CongestionController::Cubic(x) ==> c.window() == x.cwnd && c.threshold()
            == x.ssthresh && c.segment() == x.mtu && c.last_loss() == x.last_congestion_time,
        c matches CongestionController::Reno(x) ==> c.window() == x.cwnd && c.threshold()
            == x.ssthresh && c.segment() == x.mtu && c.last_loss() == x.last_congestion_time,
{
}

/// A new controller is in slow start whatever it has sent: no window reaches its
/// threshold, and no loss is on record.
pub proof fn law_new_controllers_start_slowly(
    algorithm: CongestionControlAlgorithm,
    initial_cwnd: usize,
    mtu: usize,
)
    ensures
        ({
            let c = CongestionController::fresh(algorithm, initial_cwnd, mtu);
            &&& c is Cubic <==> algorithm == CongestionControlAlgorithm::Cubic
            &&& c matches CongestionController::Cubic(x) ==> x.cwnd == initial_cwnd && x.ssthresh
                == usize::MAX && x.mtu == mtu && x.last_congestion_time is None
                && x.cubic_epoch_start is None && x.last_cubic_update is None
            &&& c matches CongestionController::Reno(x) ==> x.cwnd == initial_cwnd && x.ssthresh
                == usize::MAX && x.mtu == mtu && x.last_congestion_time is None
        }),
{
}

proof fn lemma_one_segment_per_window(mtu: usize, bytes_acked: usize, cwnd: usize)
    requires
        cwnd > 0 || mtu > 0,
        bytes_acked <= cwnd,
    ensures
        (mtu as int * bytes_acked as int) / (larger(cwnd, mtu) as int) <= mtu,
{
    let d = larger(cwnd, mtu) as int;
    assert(mtu as int * bytes_acked as int <= mtu as int * d) by (nonlinear_arith)
        requires
            0 <= bytes_acked as int <= d,
            0 <= mtu as int,
    ;
    assert((mtu as int * d) / d == mtu) by (nonlinear_arith)
        requires
            d > 0,
    ;
    vstd::arithmetic::div_mod::lemma_div_is_ordered(mtu as int * bytes_acked as int, mtu as int * d, d);
}

} // verus!
