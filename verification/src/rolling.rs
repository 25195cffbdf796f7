//! The mathematical model of a rolling window.
//!
//! A window is described by plain numbers and sequences. The executable
//! buffer is specified against this model, and the laws of the window are
//! stated and proved over it.

use vstd::prelude::*;

verus! {

/// The statistics published at the end of an epoch.
#[verifier::ext_equal]
pub struct Summary {
    pub min: int,
    pub max: int,
    pub avg: int,
}

/// A rolling window as a mathematical value.
#[verifier::ext_equal]
pub struct Rolling {
    /// The samples held, oldest first.
    pub window: Seq<int>,
    /// The largest number of samples the window holds.
    pub capacity: nat,
    /// The largest number a sample can stand for.
    pub ceiling: int,
    /// Whether the live extrema start afresh after each commit.
    pub resets: bool,
    /// The smallest sample seen since the live extrema were last set back.
    pub live_min: int,
    /// The largest sample seen since the live extrema were last set back.
    pub live_max: int,
    /// The number of pushes since the last commit.
    pub ticks: nat,
    /// The statistics of the last commit, if there was one.
    pub committed: Option<Summary>,
}

/// The sum of the samples of `s`.
pub open spec fn total(s: Seq<int>) -> int
    decreases s.len(),
{
    if s.len() == 0 {
        0
    } else {
        total(s.drop_last()) + s.last()
    }
}

/// The arithmetic mean of the samples of `s`, rounded down.
pub open spec fn mean(s: Seq<int>) -> int
    recommends
        s.len() > 0,
{
    total(s) / (s.len() as int)
}

/// The last `n` samples of `s`, or all of `s` where it holds fewer.
pub open spec fn newest(s: Seq<int>, n: nat) -> Seq<int> {
    if s.len() > n {
        s.skip(s.len() - n)
    } else {
        s
    }
}

/// `m` occurs in `s` and no sample of `s` is smaller.
pub open spec fn is_minimum(m: int, s: Seq<int>) -> bool {
    &&& exists|i: int| 0 <= i < s.len() && s[i] == m
    &&& forall|i: int| 0 <= i < s.len() ==> m <= s[i]
}

/// `m` occurs in `s` and no sample of `s` is larger.
pub open spec fn is_maximum(m: int, s: Seq<int>) -> bool {
    &&& exists|i: int| 0 <= i < s.len() && s[i] == m
    &&& forall|i: int| 0 <= i < s.len() ==> s[i] <= m
}

/// Every sample of `s` lies between zero and `ceiling`.
pub open spec fn within(s: Seq<int>, ceiling: int) -> bool {
    forall|i: int| 0 <= i < s.len() ==> 0 <= #[trigger] s[i] <= ceiling
}

impl Rolling {
    /// The window before its first push.
    pub open spec fn empty(capacity: nat, resets: bool, ceiling: int) -> Rolling {
        Rolling {
            window: Seq::empty(),
            capacity,
            ceiling,
            resets,
            live_min: ceiling,
            live_max: 0,
            ticks: 0,
            committed: None,
        }
    }

    /// The most recent sample held, if any.
    pub open spec fn last(self) -> Option<int> {
        if self.window.len() > 0 {
            Some(self.window.last())
        } else {
            None
        }
    }

    /// The window after a commit: the live extrema and the mean of the window
    /// are published, the live extrema go back to their starting values where
    /// the window resets, and a new epoch begins. An empty window publishes
    /// nothing.
    pub open spec fn commit(self) -> Rolling {
        if self.window.len() > 0 {
            Rolling {
                committed: Some(
                    Summary { min: self.live_min, max: self.live_max, avg: mean(self.window) },
                ),
                live_min: if self.resets {
                    self.ceiling
                } else {
                    self.live_min
                },
                live_max: if self.resets {
                    0
                } else {
                    self.live_max
                },
                ticks: 0,
                ..self
            }
        } else {
            Rolling { ticks: 0, ..self }
        }
    }

    /// The window after `value` is pushed: the newest `capacity` samples
    /// stay, the live extrema take `value` in, and the push that completes
    /// an epoch commits.
    pub open spec fn push(self, value: int) -> Rolling {
        let pushed = Rolling {
            window: newest(self.window.push(value), self.capacity),
            live_min: if value < self.live_min {
                value
            } else {
                self.live_min
            },
            live_max: if value > self.live_max {
                value
            } else {
                self.live_max
            },
            ticks: self.ticks + 1,
            ..self
        };
        if pushed.ticks >= pushed.capacity {
            pushed.commit()
        } else {
            pushed
        }
    }

    /// The window after its oldest sample is taken out.
    pub open spec fn pop(self) -> Rolling {
        if self.window.len() > 0 {
            Rolling { window: self.window.drop_first(), ..self }
        } else {
            self
        }
    }

    /// The window after the samples of `values` are pushed in order.
    pub open spec fn push_all(self, values: Seq<int>) -> Rolling
        decreases values.len(),
    {
        if values.len() == 0 {
            self
        } else {
            self.push_all(values.drop_last()).push(values.last())
        }
    }

    /// The live extrema bound the samples of the current epoch that the
    /// window still holds.
    pub open spec fn epoch_covered(self) -> bool {
        forall|i: int|
            0 <= i < self.window.len() && self.window.len() - self.ticks <= i ==> self.live_min
                <= #[trigger] self.window[i] <= self.live_max
    }

    /// What holds of every window that pushes, pops and commits can reach.
    pub open spec fn wf(self) -> bool {
        &&& self.window.len() <= self.capacity
        &&& self.ticks <= self.capacity
        &&& self.capacity > 0 ==> self.ticks < self.capacity
        &&& within(self.window, self.ceiling)
        &&& 0 <= self.live_min <= self.ceiling
        &&& 0 <= self.live_max <= self.ceiling
        &&& self.epoch_covered()
        &&& self.committed matches Some(c) ==> 0 <= c.min <= self.ceiling && 0 <= c.max
            <= self.ceiling && 0 <= c.avg <= self.ceiling
    }
}

/// The sum of samples between zero and `ceiling` lies between zero and
/// `ceiling` times their number.
pub proof fn lemma_total_bounds(s: Seq<int>, ceiling: int)
    requires
        within(s, ceiling),
    ensures
        0 <= total(s) <= s.len() * ceiling,
    decreases s.len(),
{
    let n = s.len() as int;
    if n > 0 {
        lemma_total_bounds(s.drop_last(), ceiling);
        assert(0 <= s[n - 1] <= ceiling);
        assert(s.drop_last().len() == n - 1);
        assert((n - 1) * ceiling + ceiling == n * ceiling) by (nonlinear_arith);
    } else {
        assert(n * ceiling == 0) by (nonlinear_arith)
            requires
                n == 0,
        ;
    }
}

/// The mean of samples between zero and `ceiling` lies there too.
pub proof fn lemma_mean_bounds(s: Seq<int>, ceiling: int)
    requires
        s.len() > 0,
        within(s, ceiling),
    ensures
        0 <= mean(s) <= ceiling,
{
    lemma_total_bounds(s, ceiling);
    let n = s.len() as int;
    let t = total(s);
    assert(0 <= t / n <= ceiling) by (nonlinear_arith)
        requires
            n > 0,
            0 <= t <= n * ceiling,
    ;
}

/// A well-formed window stays well-formed when it commits.
pub proof fn lemma_commit_wf(m: Rolling)
    requires
        m.wf(),
    ensures
        m.commit().wf(),
{
    if m.window.len() > 0 {
        lemma_mean_bounds(m.window, m.ceiling);
    }
}

/// A well-formed window stays well-formed when a sample is pushed.
pub proof fn lemma_push_wf(m: Rolling, value: int)
    requires
        m.wf(),
        0 <= value <= m.ceiling,
    ensures
        m.push(value).wf(),
{
    let appended = m.window.push(value);
    let pushed = Rolling {
        window: newest(appended, m.capacity),
        live_min: if value < m.live_min {
            value
        } else {
            m.live_min
        },
        live_max: if value > m.live_max {
            value
        } else {
            m.live_max
        },
        ticks: m.ticks + 1,
        ..m
    };
    assert(within(pushed.window, m.ceiling));
    assert(pushed.epoch_covered()) by {
        assert forall|i: int|
            0 <= i < pushed.window.len() && pushed.window.len() - pushed.ticks
                <= i implies pushed.live_min <= #[trigger] pushed.window[i] <= pushed.live_max by {
            if appended.len() > m.capacity {
                let shift = appended.len() - m.capacity;
                assert(pushed.window[i] == appended[i + shift]);
                if i + shift < m.window.len() {
                    assert(appended[i + shift] == m.window[i + shift]);
                }
            } else {
                if i < m.window.len() {
                    assert(appended[i] == m.window[i]);
                }
            }
        }
    }
    if pushed.ticks >= pushed.capacity {
        if pushed.window.len() > 0 {
            lemma_mean_bounds(pushed.window, pushed.ceiling);
        }
    }
}

/// A well-formed window stays well-formed when its oldest sample leaves.
pub proof fn lemma_pop_wf(m: Rolling)
    requires
        m.wf(),
    ensures
        m.pop().wf(),
{
    if m.window.len() > 0 {
        let popped = m.pop();
        assert forall|i: int|
            0 <= i < popped.window.len() && popped.window.len() - popped.ticks
                <= i implies popped.live_min <= #[trigger] popped.window[i] <= popped.live_max by {
            assert(popped.window[i] == m.window[i + 1]);
        }
        assert(within(popped.window, m.ceiling)) by {
            assert forall|i: int| 0 <= i < popped.window.len() implies 0
                <= #[trigger] popped.window[i] <= m.ceiling by {
                assert(popped.window[i] == m.window[i + 1]);
            }
        }
    }
}

} // verus!
