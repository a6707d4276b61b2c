//! A software phase-locked loop that turns line samples, taken several times
//! per bit, into bits, nudging its bit clock towards the signal's edges.
use vstd::prelude::*;

verus! {

/// How much to increment `ramp` when
/// signal is clocked correctly
pub const RAMP_STEP: u16 = 20;

/// How much to speed up or slow down the ramp
pub const RAMP_ADJUST: u16 = 9;

#[derive(Debug)]
pub struct Pll<const TICKS_PER_BIT: u8> {
    /// Number of samples taken of the current bit
    pub samples: u8,
    /// Number of high samples of the current bit
    pub intergrator: u8,
    /// Indicator for when bit is ready
    pub ramp: u16,
    /// Last tick's state
    pub last_state: bool,
}

impl<const TICKS_PER_BIT: u8> Pll<TICKS_PER_BIT> {
    /// When bit is ready
    pub open spec fn ramp_length_spec() -> int {
        TICKS_PER_BIT as int * RAMP_STEP as int
    }

    /// Ramp midpoint
    pub open spec fn ramp_transition_spec() -> int {
        Self::ramp_length_spec() / 2
    }

    /// The bit lengths for which the loop runs for ever without overflow:
    /// the ramp must be longer than the largest step, and no bit may take
    /// more than 255 samples (on a line that changes level on every sample
    /// in the first half of a bit and never in the second, a bit takes
    /// `ceil(10 * TICKS_PER_BIT / 11) + ceil(TICKS_PER_BIT / 2)` samples,
    /// 256 for 181 ticks per bit).
    pub open spec fn ticks_supported() -> bool {
        2 <= TICKS_PER_BIT <= 180
    }

    /// The most samples that the loop can still take before its ramp
    /// completes the bit, from ramp value `ramp`: while the ramp is in the
    /// first half of the bit a sample moves it on by at least
    /// `RAMP_STEP - RAMP_ADJUST`, in the second half by at least `RAMP_STEP`.
    pub open spec fn bit_budget(ramp: int) -> int {
        let h = Self::ramp_transition_spec();
        let l = Self::ramp_length_spec();
        if ramp < h {
            (h - ramp + 10) / 11 + (l - h + 19) / 20
        } else {
            (l - ramp + 19) / 20
        }
    }

    /// The ramp is inside a bit, no more samples were high than were taken,
    /// and the samples of the current bit can still all be counted.
    pub open spec fn wf(&self) -> bool {
        &&& (self.ramp as int) < Self::ramp_length_spec()
        &&& self.intergrator <= self.samples
        &&& self.samples as int + Self::bit_budget(self.ramp as int) <= 255
    }

    /// How far one sample moves the ramp: a level change right at the start
    /// of a bit (ramp at 0) is on time and moves the ramp by the normal step,
    /// so that a loop in phase ends a bit that starts with a level change on
    /// the bit's own last sample rather than on the first sample of the next
    /// bit; a change later in the first half means the loop runs early and
    /// the ramp is delayed, one in the second half means the loop runs late
    /// and the ramp is advanced.
    pub open spec fn ramp_increment(&self, state: bool) -> int {
        if state != self.last_state {
            if self.ramp == 0 {
                RAMP_STEP as int
            } else if (self.ramp as int) < Self::ramp_transition_spec() {
                (RAMP_STEP - RAMP_ADJUST) as int
            } else {
                (RAMP_STEP + RAMP_ADJUST) as int
            }
        } else {
            RAMP_STEP as int
        }
    }

    /// Whether the sample `state` completes a bit.
    pub open spec fn bit_ends(&self, state: bool) -> bool {
        self.ramp as int + self.ramp_increment(state) >= Self::ramp_length_spec()
    }

    /// The bit that the sample `state` completes, if any: 1 when more than
    /// half of the bit's samples were high.
    pub open spec fn tick_output(&self, state: bool) -> Option<u8> {
        let high = self.intergrator as int + if state {
            1int
        } else {
            0int
        };
        let taken = self.samples as int + 1;
        if self.bit_ends(state) {
            Some(
                if high > taken / 2 {
                    1u8
                } else {
                    0u8
                },
            )
        } else {
            None
        }
    }

    /// The loop after taking the sample `state`.
    pub open spec fn ticked(&self, state: bool) -> Self {
        let high = self.intergrator as int + if state {
            1int
        } else {
            0int
        };
        let ramp = self.ramp as int + self.ramp_increment(state);
        if self.bit_ends(state) {
            Pll {
                samples: 0,
                intergrator: 0,
                ramp: (ramp - Self::ramp_length_spec()) as u16,
                last_state: state,
            }
        } else {
            Pll {
                samples: (self.samples + 1) as u8,
                intergrator: high as u8,
                ramp: ramp as u16,
                last_state: state,
            }
        }
    }

    /// The cleared loop.
    pub open spec fn cleared() -> Self {
        Pll { samples: 0, intergrator: 0, ramp: 0, last_state: false }
    }

    /// The loop after `k` samples of the same level.
    pub open spec fn fed(self, level: bool, k: nat) -> Self
        decreases k,
    {
        if k == 0 {
            self
        } else {
            self.fed(level, (k - 1) as nat).ticked(level)
        }
    }

    /// A loop that starts a bit at its boundary, fed `k < TICKS_PER_BIT`
    /// samples of one level, has counted them and kept to the bit clock.
    proof fn lemma_fed_in_phase(self, level: bool, k: nat)
        requires
            TICKS_PER_BIT >= 2,
            self.ramp == 0,
            self.samples == 0,
            self.intergrator == 0,
            k < TICKS_PER_BIT,
        ensures
            self.fed(level, k) == (Pll::<TICKS_PER_BIT> {
                samples: k as u8,
                intergrator: if level {
                    k as u8
                } else {
                    0u8
                },
                ramp: (k * RAMP_STEP) as u16,
                last_state: if k == 0 {
                    self.last_state
                } else {
                    level
                },
            }),
            forall|j: nat| j < k ==> (#[trigger] self.fed(level, j)).tick_output(level) is None,
        decreases k,
    {
        if k > 0 {
            self.lemma_fed_in_phase(level, (k - 1) as nat);
            let prev = self.fed(level, (k - 1) as nat);
            assert(prev.ramp_increment(level) == RAMP_STEP);
            assert forall|j: nat| j < k implies (#[trigger] self.fed(level, j)).tick_output(
                level,
            ) is None by {
                if j == k - 1 {
                    assert(prev.ramp + RAMP_STEP < Self::ramp_length_spec());
                }
            }
        }
    }

    /// A loop in phase with a clean signal, one that holds each bit for
    /// `TICKS_PER_BIT` samples, turns the samples of a bit into that bit on
    /// the bit's last sample and none before, and is in phase again for the next bit.
    pub proof fn lemma_locked_bit(self, level: bool)
        requires
            TICKS_PER_BIT >= 2,
            self.ramp == 0,
            self.samples == 0,
            self.intergrator == 0,
        ensures
            forall|j: nat|
                j < TICKS_PER_BIT - 1 ==> (#[trigger] self.fed(level, j)).tick_output(level) is None,
            self.fed(level, (TICKS_PER_BIT - 1) as nat).tick_output(level) == Some(
                if level {
                    1u8
                } else {
                    0u8
                },
            ),
            self.fed(level, TICKS_PER_BIT as nat) == (Pll::<TICKS_PER_BIT> {
                samples: 0,
                intergrator: 0,
                ramp: 0,
                last_state: level,
            }),
    {
        let last = (TICKS_PER_BIT - 1) as nat;
        self.lemma_fed_in_phase(level, last);
        let prev = self.fed(level, last);
        assert(prev.ramp_increment(level) == RAMP_STEP);
        assert(self.fed(level, TICKS_PER_BIT as nat) == prev.ticked(level));
    }

    /// One sample keeps the ramp inside a bit and no more samples high than
    /// taken, and a completed bit is 0 or 1.
    pub proof fn lemma_tick_keeps_range(self, state: bool)
        requires
            TICKS_PER_BIT >= 2,
            (self.ramp as int) < Self::ramp_length_spec(),
            self.intergrator <= self.samples,
            self.samples < 255,
        ensures
            (self.ticked(state).ramp as int) < Self::ramp_length_spec(),
            self.ticked(state).intergrator <= self.ticked(state).samples,
            self.tick_output(state) is None || self.tick_output(state) == Some(0u8)
                || self.tick_output(state) == Some(1u8),
    {
    }

    /// A valid loop stays valid: with up to 180 ticks per bit its counters
    /// never overflow, whatever the line does.
    pub proof fn lemma_tick_keeps_wf(self, state: bool)
        requires
            Self::ticks_supported(),
            self.wf(),
        ensures
            self.ticked(state).wf(),
    {
        let l = Self::ramp_length_spec();
        let h = Self::ramp_transition_spec();
        let r = self.ramp as int;
        let inc = self.ramp_increment(state);
        let c = (l - h + 19) / 20;
        assert(l == 20 * TICKS_PER_BIT && h == 10 * TICKS_PER_BIT);
        assert(Self::bit_budget(r) >= 1);
        if r + inc >= l {
            let r2 = r + inc - l;
            assert(0 <= r2 < 29);
            assert(Self::bit_budget(r2) <= (h + 10) / 11 + c);
            assert((h + 10) / 11 + c <= 255) by (nonlinear_arith)
                requires
                    h == 10 * TICKS_PER_BIT,
                    c == (l - h + 19) / 20,
                    l == 20 * TICKS_PER_BIT,
                    TICKS_PER_BIT <= 180,
            ;
        } else {
            let r2 = r + inc;
            assert(inc >= 11);
            assert(r < h ==> inc == 11 || inc == 20);
            assert(r >= h ==> inc >= 20);
            assert(Self::bit_budget(r2) <= Self::bit_budget(r) - 1);
        }
    }

    /// The loop after taking the samples `states` in turn.
    pub open spec fn run(self, states: Seq<bool>) -> Self
        decreases states.len(),
    {
        if states.len() == 0 {
            self
        } else {
            self.run(states.drop_last()).ticked(states.last())
        }
    }

    /// The number of high samples among `states`.
    pub open spec fn count_high(states: Seq<bool>) -> int
        decreases states.len(),
    {
        if states.len() == 0 {
            0
        } else {
            Self::count_high(states.drop_last()) + if states.last() {
                1int
            } else {
                0int
            }
        }
    }

    /// A bit that a sample completes is 1 exactly when more than half of the
    /// bit's samples, this one included, were high, and 0 otherwise.
    pub proof fn lemma_bit_is_majority(self, state: bool)
        ensures
            self.tick_output(state) matches Some(b) ==> (b == 0u8 || b == 1u8) && ((b == 1u8)
                <==> (self.intergrator as int + if state {
                1int
            } else {
                0int
            }) > (self.samples as int + 1) / 2),
    {
    }

    /// From the start of a bit, while no bit completes, the loop counts the
    /// samples taken and the high ones among them.
    proof fn lemma_window_counts(self, states: Seq<bool>, k: int)
        requires
            self.samples == 0,
            self.intergrator == 0,
            0 <= k < states.len() <= 255,
            forall|i: int|
                0 <= i < k ==> (#[trigger] self.run(states.take(i))).tick_output(states[i])
                    is None,
        ensures
            self.run(states.take(k)).samples == k,
            self.run(states.take(k)).intergrator == Self::count_high(states.take(k)),
        decreases k,
    {
        if k == 0 {
            assert(states.take(0) =~= Seq::<bool>::empty());
        } else {
            self.lemma_window_counts(states, k - 1);
            assert(states.take(k).drop_last() =~= states.take(k - 1));
            assert(states.take(k).last() == states[k - 1]);
            let prev = self.run(states.take(k - 1));
            assert(prev.tick_output(states[k - 1]) is None);
            assert(Self::count_high(states.take(k - 1)) <= k - 1) by {
                Self::lemma_count_high_bound(states.take(k - 1));
            }
        }
    }

    proof fn lemma_count_high_bound(states: Seq<bool>)
        ensures
            0 <= Self::count_high(states) <= states.len(),
        decreases states.len(),
    {
        if states.len() > 0 {
            Self::lemma_count_high_bound(states.drop_last());
        }
    }

    /// When a run of samples from the start of a bit completes the bit on its
    /// last sample, the bit is 1 exactly when more than half of those
    /// samples were high: a bit is decided by a majority vote over all of
    /// its samples, not by any one of them.
    pub proof fn lemma_window_majority(self, states: Seq<bool>)
        requires
            self.samples == 0,
            self.intergrator == 0,
            1 <= states.len() <= 255,
            forall|i: int|
                0 <= i < states.len() - 1 ==> (#[trigger] self.run(states.take(i))).tick_output(
                    states[i],
                ) is None,
        ensures
            self.run(states.drop_last()).tick_output(states.last()) matches Some(b) ==> ((b
                == 1u8) <==> Self::count_high(states) > states.len() / 2),
    {
        let k = states.len() - 1;
        self.lemma_window_counts(states, k);
        assert(states.take(k) =~= states.drop_last());
    }

    /// While no bit ends, every sample moves the ramp on by at least
    /// `RAMP_STEP - RAMP_ADJUST`.
    proof fn lemma_ramp_rises(self, states: Seq<bool>, k: int)
        requires
            (self.ramp as int) < Self::ramp_length_spec(),
            0 <= k <= states.len(),
            forall|i: int|
                0 <= i < k ==> (#[trigger] self.run(states.take(i))).tick_output(states[i])
                    is None,
        ensures
            (self.run(states.take(k)).ramp as int) < Self::ramp_length_spec(),
            self.run(states.take(k)).ramp >= self.ramp + k * (RAMP_STEP - RAMP_ADJUST),
        decreases k,
    {
        if k == 0 {
            assert(states.take(0) =~= Seq::<bool>::empty());
        } else {
            self.lemma_ramp_rises(states, k - 1);
            let prev = self.run(states.take(k - 1));
            assert(states.take(k).drop_last() =~= states.take(k - 1));
            assert(states.take(k).last() == states[k - 1]);
            assert(prev.tick_output(states[k - 1]) is None);
        }
    }

    /// Whatever the line does, the loop completes a bit at least once in
    /// any `2 * TICKS_PER_BIT` samples.
    pub proof fn lemma_bit_within_two_periods(self, states: Seq<bool>)
        requires
            TICKS_PER_BIT >= 2,
            (self.ramp as int) < Self::ramp_length_spec(),
            states.len() >= 2 * TICKS_PER_BIT,
        ensures
            exists|i: int|
                0 <= i < 2 * TICKS_PER_BIT && (#[trigger] self.run(states.take(i))).tick_output(
                    states[i],
                ) is Some,
    {
        let t = 2 * TICKS_PER_BIT as int;
        if forall|i: int|
            0 <= i < t ==> (#[trigger] self.run(states.take(i))).tick_output(states[i]) is None {
            self.lemma_ramp_rises(states, t - 1);
            let last = self.run(states.take(t - 1));
            assert(last.tick_output(states[t - 1]) is None);
            assert((t - 1) * 11 + 11 >= 20 * TICKS_PER_BIT as int) by (nonlinear_arith)
                requires
                    t == 2 * TICKS_PER_BIT as int,
                    TICKS_PER_BIT >= 2,
            ;
        }
    }

    /// `a` samples of one level then `b` more are `a + b` samples.
    proof fn lemma_fed_add(self, level: bool, a: nat, b: nat)
        ensures
            self.fed(level, a + b) == self.fed(level, a).fed(level, b),
        decreases b,
    {
        if b > 0 {
            self.lemma_fed_add(level, a, (b - 1) as nat);
            assert(a + b - 1 == a + (b - 1));
        }
    }

    /// From the start of a bit, `k < TICKS_PER_BIT` samples of one level move
    /// the ramp on by `RAMP_STEP` each and complete no bit, whatever the
    /// counters held.
    proof fn lemma_fed_ramp(self, level: bool, k: nat)
        requires
            TICKS_PER_BIT >= 2,
            self.ramp == 0,
            k < TICKS_PER_BIT,
        ensures
            self.fed(level, k).ramp == k * RAMP_STEP,
            k >= 1 ==> self.fed(level, k).last_state == level,
            forall|j: nat| j < k ==> (#[trigger] self.fed(level, j)).tick_output(level) is None,
        decreases k,
    {
        if k > 0 {
            self.lemma_fed_ramp(level, (k - 1) as nat);
            let prev = self.fed(level, (k - 1) as nat);
            assert(prev.ramp_increment(level) == RAMP_STEP);
            assert forall|j: nat| j < k implies (#[trigger] self.fed(level, j)).tick_output(
                level,
            ) is None by {
                if j == k - 1 {
                    assert(prev.ramp + RAMP_STEP < Self::ramp_length_spec());
                }
            }
        }
    }

    /// On a constant line, a loop at the start of a bit completes a bit on
    /// every `TICKS_PER_BIT`-th sample and on no other; each bit after the
    /// first is the level, and so is the first when the counters start at 0.
    pub proof fn lemma_locked_constant_line(self, level: bool, k: nat)
        requires
            TICKS_PER_BIT >= 2,
            self.ramp == 0,
        ensures
            (self.fed(level, k).tick_output(level) is Some) == ((k + 1) % (TICKS_PER_BIT as nat)
                == 0),
            (k + 1) % (TICKS_PER_BIT as nat) == 0 && (k >= TICKS_PER_BIT || (self.samples == 0
                && self.intergrator == 0)) ==> self.fed(level, k).tick_output(level) == Some(
                if level {
                    1u8
                } else {
                    0u8
                },
            ),
        decreases k,
    {
        let t = TICKS_PER_BIT as nat;
        let last = (t - 1) as nat;
        self.lemma_fed_ramp(level, last);
        let prev = self.fed(level, last);
        assert(prev.ramp_increment(level) == RAMP_STEP);
        assert(prev.tick_output(level) is Some);
        assert(self.fed(level, t) == prev.ticked(level));
        let next = self.fed(level, t);
        assert(next == (Pll::<TICKS_PER_BIT> { samples: 0, intergrator: 0, ramp: 0, last_state: level }));
        if self.samples == 0 && self.intergrator == 0 {
            self.lemma_locked_bit(level);
        }
        if k < t {
            if k + 1 < t {
                self.lemma_fed_ramp(level, k + 1);
                vstd::arithmetic::div_mod::lemma_small_mod((k + 1) as nat, t);
            } else {
                vstd::arithmetic::div_mod::lemma_mod_self_0(t as int);
            }
        } else {
            let rest = (k - t) as nat;
            self.lemma_fed_add(level, t, rest);
            assert(t + rest == k);
            next.lemma_locked_constant_line(level, rest);
            assert((k + 1) % t == (rest + 1) % t) by {
                vstd::arithmetic::div_mod::lemma_mod_add_multiples_vanish((rest + 1) as int, t as int);
            }
        }
    }

    fn ramp_length() -> (r: u16)
        ensures
            r == Self::ramp_length_spec(),
        no_unwind
    {
        TICKS_PER_BIT as u16 * RAMP_STEP
    }

    pub fn new() -> (res: Self)
        ensures
            res == Self::cleared(),
    {
        Self { samples: 0, intergrator: 0, ramp: 0, last_state: false }
    }

    /// Clears state
    pub fn clear(&mut self)
        ensures
            *final(self) == Self::cleared(),
        no_unwind
    {
        self.samples = 0;
        self.intergrator = 0;
        self.last_state = false;
        self.ramp = 0;
    }

    /// Takes one sample of the line; returns the bit when the sample ends one.
    /// The sample counter, the count of high samples and the ramp must have
    /// room for the sample.
    pub fn tick(&mut self, state: bool) -> (res: Option<u8>)
        requires
            old(self).samples < 255,
            state ==> old(self).intergrator < 255,
            old(self).ramp as int + old(self).ramp_increment(state) <= u16::MAX,
        ensures
            res == old(self).tick_output(state),
            res matches Some(b) ==> (b == 0u8 || b == 1u8) && ((b == 1u8) <==> (old(
                self,
            ).intergrator as int + if state {
                1int
            } else {
                0int
            }) > (old(self).samples as int + 1) / 2),
            *final(self) == old(self).ticked(state),
            Self::ticks_supported() && old(self).wf() ==> final(self).wf(),
        no_unwind
    {
        proof {
            if Self::ticks_supported() && self.wf() {
                self.lemma_tick_keeps_wf(state);
            }
        }
        let ramp_length = Self::ramp_length();
        let ramp_transition = ramp_length / 2;
        if state {
            self.intergrator += 1;
        }
        self.samples += 1;

        // Possible bit boundary when samples are different
        if state != self.last_state {
            self.last_state = state;

            // A change on the bit boundary is on time; one in the first half
            // of the bit delays the ramp, one in the second half advances it
            if self.ramp == 0 {
                self.ramp += RAMP_STEP;
            } else if self.ramp < ramp_transition {
                self.ramp += RAMP_STEP - RAMP_ADJUST;
            } else {
                self.ramp += RAMP_STEP + RAMP_ADJUST;
            }
        } else {
            // Increment ramp by standard step
            self.ramp += RAMP_STEP;
        }

        // Ramp indicates bit ended
        if self.ramp >= ramp_length {
            let bit = if self.intergrator > self.samples / 2 {
                1u8
            } else {
                0u8
            };

            self.intergrator = 0;
            self.samples = 0;
            // Propagate ramp offset
            self.ramp -= ramp_length;

            Some(bit)
        } else {
            None
        }
    }
}

} // verus!
