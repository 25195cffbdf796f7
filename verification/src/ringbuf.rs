//! The rolling window: a bounded buffer of samples with live and committed
//! statistics.

use crate::rolling::{
    lemma_commit_wf, lemma_mean_bounds, lemma_pop_wf, lemma_push_wf, mean, newest, total, within,
    Rolling, Summary,
};
use crate::sample::Sample;
use std::collections::vec_deque::Iter;
use std::collections::VecDeque;
use vstd::prelude::*;
use vstd::std_specs::iter::IteratorSpec;

verus! {

/// The statistics of the last commit.
#[derive(Clone, Copy, Debug)]
pub struct WindowStats<T> {
    pub min: T,
    pub max: T,
    pub avg: T,
}

/// The extrema that follow every push.
#[derive(Clone, Copy, Debug)]
pub struct Extrema<T> {
    pub min: T,
    pub max: T,
}

/// The numbers that the samples of `s` stand for.
pub open spec fn values<T: Sample>(s: Seq<T>) -> Seq<int> {
    s.map_values(|x: T| x.value())
}

/// The fields of a window, with nothing yet said of how they hang together.
struct Window<T: Sample> {
    buff: VecDeque<T>,
    cap: usize,
    cur_max: T,
    cur_min: T,
    max: T,
    min: T,
    avg: T,
    published: bool,
    ite: usize,
    rst: bool,
}

/// A fixed-capacity window over the most recent samples of a metric.
///
/// Every push updates the live extrema. Once per epoch, that is once every
/// `capacity` pushes, the live extrema and the mean of the window are
/// committed; readers see the committed values until the next commit.
pub struct RingStatsBuffer<T: Sample> {
    state: Window<T>,
}

impl<T: Sample> View for RingStatsBuffer<T> {
    type V = Rolling;

    closed spec fn view(&self) -> Rolling {
        self.state.model()
    }
}

/// `VecDeque::as_slices` of std: the two slices hold, one after the other and
/// in order, what the deque holds.
#[verifier::external_body]
pub(crate) fn deque_as_slices<T>(deque: &VecDeque<T>) -> (slices: (&[T], &[T]))
    ensures
        slices.0@ + slices.1@ == deque@,
{
    deque.as_slices()
}

/// The mean of a non-empty run of samples.
pub(crate) fn mean_of<T: Sample>(buff: &VecDeque<T>) -> (avg: T)
    requires
        buff@.len() > 0,
    ensures
        avg.value() == mean(values(buff@)),
{
    let ghost window = values(buff@);
    let len: usize = buff.len();
    let mut sum: u128 = 0;
    let mut i: usize = 0;
    proof {
        assert(window.take(0) =~= Seq::<int>::empty());
    }
    while i < len
        invariant
            i <= len,
            len == buff@.len(),
            window == values(buff@),
            sum == total(window.take(i as int)),
            sum <= i * u64::MAX,
        decreases len - i,
    {
        let wide: u64 = buff[i].widen();
        proof {
            assert(window.take(i + 1).drop_last() =~= window.take(i as int));
            assert(window.take(i + 1).last() == wide);
            assert(i * u64::MAX + u64::MAX == (i + 1) * u64::MAX) by (nonlinear_arith);
            assert((i + 1) * u64::MAX <= usize::MAX * u64::MAX) by (nonlinear_arith)
                requires
                    i + 1 <= usize::MAX,
            ;
        }
        sum = sum + wide as u128;
        i = i + 1;
    }
    proof {
        assert(window.take(len as int) =~= window);
        assert(within(window, T::ceiling())) by {
            assert forall|k: int| 0 <= k < window.len() implies 0 <= #[trigger] window[k]
                <= T::ceiling() by {
                buff@[k].lemma_in_range();
            }
        }
        lemma_mean_bounds(window, T::ceiling());
        buff@[0].lemma_in_range();
    }
    let avg: u128 = sum / (len as u128);
    T::narrow(avg as u64)
}

impl<T: Sample> Window<T> {
    spec fn model(&self) -> Rolling {
        Rolling {
            window: values(self.buff@),
            capacity: self.cap as nat,
            ceiling: T::ceiling(),
            resets: self.rst,
            live_min: self.cur_min.value(),
            live_max: self.cur_max.value(),
            ticks: self.ite as nat,
            committed: if self.published {
                Some(
                    Summary {
                        min: self.min.value(),
                        max: self.max.value(),
                        avg: self.avg.value(),
                    },
                )
            } else {
                None
            },
        }
    }

    /// The model is well-formed, and the committed fields are zero until
    /// the first commit.
    spec fn inv(&self) -> bool {
        &&& self.model().wf()
        &&& !self.published ==> self.min.value() == 0 && self.max.value() == 0 && self.avg.value()
            == 0
    }

    fn new(capacity: usize, rst: bool) -> (window: Self)
        ensures
            window.inv(),
            window.model() == Rolling::empty(capacity as nat, rst, T::ceiling()),
    {
        let top = T::highest();
        proof {
            top.lemma_in_range();
        }
        let zero = T::narrow(0);
        let window = Window {
            buff: VecDeque::new(),
            cap: capacity,
            cur_max: zero,
            cur_min: top,
            max: zero,
            min: zero,
            avg: zero,
            published: false,
            ite: 0,
            rst,
        };
        assert(window.model().window =~= Seq::<int>::empty());
        window
    }

    fn push_back(&mut self, item: T)
        requires
            old(self).inv(),
        ensures
            final(self).inv(),
            final(self).model() == old(self).model().push(item.value()),
    {
        let ghost before = self.model();
        proof {
            item.lemma_in_range();
            lemma_push_wf(before, item.value());
        }
        if self.cap > 0 {
            if self.buff.len() >= self.cap {
                let _ = self.buff.pop_front();
            }
            self.buff.push_back(item);
        }
        assert(values(self.buff@) =~= newest(before.window.push(item.value()), self.cap as nat));
        if item.widen() > self.cur_max.widen() {
            self.cur_max = item;
        }
        if item.widen() < self.cur_min.widen() {
            self.cur_min = item;
        }
        self.ite = self.ite + 1;
        if self.ite >= self.cap {
            self.calc_stats();
        }
        assert(self.model() =~= before.push(item.value()));
    }

    fn pop_front(&mut self) -> (oldest: Option<T>)
        requires
            old(self).inv(),
        ensures
            final(self).inv(),
            final(self).model() == old(self).model().pop(),
            match oldest {
                Some(sample) => old(self).model().window.len() > 0 && sample.value() == old(
                    self,
                ).model().window.first(),
                None => old(self).model().window.len() == 0,
            },
    {
        let ghost before = self.model();
        proof {
            lemma_pop_wf(before);
        }
        let oldest = self.buff.pop_front();
        assert(values(self.buff@) =~= before.pop().window);
        assert(self.model() =~= before.pop());
        oldest
    }

    fn calc_stats(&mut self)
        requires
            old(self).model().commit().wf(),
            !old(self).published ==> old(self).min.value() == 0 && old(self).max.value() == 0
                && old(self).avg.value() == 0,
        ensures
            final(self).inv(),
            final(self).model() == old(self).model().commit(),
    {
        let ghost before = self.model();
        if self.buff.len() > 0 {
            self.avg = mean_of(&self.buff);
            self.max = self.cur_max;
            self.min = self.cur_min;
            self.published = true;
            if self.rst {
                self.reset_stats();
            }
        }
        self.ite = 0;
        assert(self.model() =~= before.commit());
    }

    fn reset_stats(&mut self)
        ensures
            final(self).cur_min.value() == T::ceiling(),
            final(self).cur_max.value() == 0,
            final(self).buff == old(self).buff,
            final(self).cap == old(self).cap,
            final(self).max == old(self).max,
            final(self).min == old(self).min,
            final(self).avg == old(self).avg,
            final(self).published == old(self).published,
            final(self).ite == old(self).ite,
            final(self).rst == old(self).rst,
    {
        self.cur_min = T::highest();
        proof {
            self.cur_min.lemma_in_range();
        }
        self.cur_max = T::narrow(0);
    }
}

impl<T: Sample> RingStatsBuffer<T> {
    #[verifier::type_invariant]
    spec fn inv(&self) -> bool {
        self.state.inv()
    }

    /// The samples held, oldest first.
    pub closed spec fn samples(&self) -> Seq<T> {
        self.state.buff@
    }

    /// The window of the model holds the numbers of the samples held.
    pub proof fn lemma_samples(&self)
        ensures
            self@.window == values(self.samples()),
    {
    }

    /// An empty window for `capacity` samples; `rst` says whether the live
    /// extrema start afresh after each commit.
    pub fn new(capacity: usize, rst: bool) -> (buffer: Self)
        ensures
            buffer@ == Rolling::empty(capacity as nat, rst, T::ceiling()),
            buffer@.wf(),
    {
        RingStatsBuffer { state: Window::new(capacity, rst) }
    }

    /// The number of samples held; never more than the capacity.
    pub fn len(&self) -> (len: usize)
        ensures
            len == self@.window.len(),
            len <= self@.capacity,
            self@.wf(),
    {
        proof {
            use_type_invariant(self);
        }
        self.state.buff.len()
    }

    /// The largest number of samples the window holds.
    pub fn capacity(&self) -> (capacity: usize)
        ensures
            capacity == self@.capacity,
    {
        self.state.cap
    }

    /// Whether the live extrema start afresh after each commit.
    pub fn has_reset_flag(&self) -> (resets: bool)
        ensures
            resets == self@.resets,
    {
        self.state.rst
    }

    /// The iterator that `iter` returns.
    pub closed spec fn spec_iter(&self) -> Iter<'_, T> {
        vstd::std_specs::vecdeque::spec_iter(&self.state.buff)
    }

    /// An iterator over the samples held, oldest first.
    #[verifier::when_used_as_spec(spec_iter)]
    pub fn iter(&self) -> (iter: Iter<'_, T>)
        ensures
            iter == self.spec_iter(),
            iter.remaining() == self.samples().as_ref(),
            iter.decrease() is Some,
            iter.initial_value_relation(&iter),
    {
        broadcast use vstd::std_specs::vecdeque::axiom_spec_iter;

        self.state.buff.iter()
    }

    /// The samples held, oldest first, as the two runs in which they lie in
    /// memory.
    pub fn as_slices(&self) -> (slices: (&[T], &[T]))
        ensures
            slices.0@ + slices.1@ == self.samples(),
    {
        deque_as_slices(&self.state.buff)
    }

    /// Pushes `item`: the oldest sample leaves a full window, the live
    /// extrema take `item` in, and the push that completes an epoch commits.
    pub fn push_back(&mut self, item: T)
        ensures
            final(self)@ == old(self)@.push(item.value()),
            final(self)@.wf(),
            old(self)@.capacity > 0 ==> final(self)@.last() == Some(item.value()),
    {
        proof {
            use_type_invariant(&*self);
        }
        let mut state = Window::new(0, false);
        std::mem::swap(&mut state, &mut self.state);
        state.push_back(item);
        self.state = state;
    }

    /// Takes the oldest sample out of the window.
    pub fn pop_front(&mut self) -> (oldest: Option<T>)
        ensures
            final(self)@ == old(self)@.pop(),
            final(self)@.wf(),
            match oldest {
                Some(sample) => old(self)@.window.len() > 0 && sample.value() == old(
                    self,
                )@.window.first(),
                None => old(self)@.window.len() == 0,
            },
    {
        proof {
            use_type_invariant(&*self);
        }
        let mut state = Window::new(0, false);
        std::mem::swap(&mut state, &mut self.state);
        let oldest = state.pop_front();
        self.state = state;
        oldest
    }

    /// The most recent sample held, if any.
    pub fn get_last(&self) -> (last: Option<T>)
        ensures
            match last {
                Some(sample) => self@.last() == Some(sample.value()),
                None => self@.last().is_none(),
            },
    {
        if self.state.buff.len() == 0 {
            return None;
        }
        Some(self.state.buff[self.state.buff.len() - 1])
    }

    /// The live minimum.
    pub fn get_min(&self) -> (min: T)
        ensures
            min.value() == self@.live_min,
    {
        self.state.cur_min
    }

    /// The live maximum.
    pub fn get_max(&self) -> (max: T)
        ensures
            max.value() == self@.live_max,
    {
        self.state.cur_max
    }

    /// The committed minimum; zero before the first commit.
    pub fn get_last_min(&self) -> (min: T)
        ensures
            min.value() == match self@.committed {
                Some(c) => c.min,
                None => 0,
            },
    {
        proof {
            use_type_invariant(self);
        }
        self.state.min
    }

    /// The committed maximum; zero before the first commit.
    pub fn get_last_max(&self) -> (max: T)
        ensures
            max.value() == match self@.committed {
                Some(c) => c.max,
                None => 0,
            },
    {
        proof {
            use_type_invariant(self);
        }
        self.state.max
    }

    /// The committed mean; zero before the first commit.
    pub fn get_avg(&self) -> (avg: T)
        ensures
            avg.value() == match self@.committed {
                Some(c) => c.avg,
                None => 0,
            },
    {
        proof {
            use_type_invariant(self);
        }
        self.state.avg
    }

    /// The live extrema.
    pub fn live_extrema(&self) -> (live: Extrema<T>)
        ensures
            live.min.value() == self@.live_min,
            live.max.value() == self@.live_max,
    {
        Extrema { min: self.state.cur_min, max: self.state.cur_max }
    }

    /// The statistics of the last commit, or `None` before the first one.
    pub fn committed(&self) -> (stats: Option<WindowStats<T>>)
        ensures
            match stats {
                Some(s) => self@.committed == Some(
                    Summary { min: s.min.value(), max: s.max.value(), avg: s.avg.value() },
                ),
                None => self@.committed.is_none(),
            },
    {
        if self.state.published {
            Some(
                WindowStats { min: self.state.min, max: self.state.max, avg: self.state.avg },
            )
        } else {
            None
        }
    }

    /// Commits now: publishes the live extrema and the mean of the window
    /// and begins a new epoch. An empty window publishes nothing.
    pub fn calc_stats(&mut self)
        ensures
            final(self)@ == old(self)@.commit(),
            final(self)@.wf(),
    {
        proof {
            use_type_invariant(&*self);
            lemma_commit_wf(self@);
        }
        let mut state = Window::new(0, false);
        std::mem::swap(&mut state, &mut self.state);
        state.calc_stats();
        self.state = state;
    }
}

} // verus!
