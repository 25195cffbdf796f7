//! Helpers for the text that the kernel publishes about the host.

use crate::ringbuf::{deque_as_slices, mean_of, values};
use crate::rolling::{mean, newest};
use crate::sample::Sample;
use crate::text::{
    chars_of, find_in, first_occurrence, trim_in, trimmed, unsigned_in, unsigned_of,
};
use std::collections::vec_deque::Iter;
use std::collections::VecDeque;
use vstd::prelude::*;
use vstd::std_specs::iter::IteratorSpec;

verus! {

/// The text between the first `key` of `text` and the first `end` after it,
/// without the characters of `trim` at either end.
pub open spec fn key_value(
    text: Seq<char>,
    key: Seq<char>,
    end: Seq<char>,
    trim: Option<Seq<char>>,
) -> Option<Seq<char>> {
    match first_occurrence(text, key) {
        Some(b) => {
            let content = text.skip(b + key.len());
            match first_occurrence(content, end) {
                Some(e) => Some(
                    match trim {
                        Some(set) => trimmed(content.take(e), set),
                        None => content.take(e),
                    },
                ),
                None => None,
            }
        },
        None => None,
    }
}

/// The numbers from `first` to `last`, both included.
pub open spec fn span(first: u32, last: u32) -> Seq<u32> {
    if first <= last {
        Seq::new((last - first + 1) as nat, |i: int| (first + i) as u32)
    } else {
        Seq::empty()
    }
}

/// The processors that one entry of a list names: a single number, or two
/// numbers with `-` between them for all from the first to the second. An
/// entry that is neither names none.
pub open spec fn cpu_range(entry: Seq<char>) -> Seq<u32> {
    match first_occurrence(entry, seq!['-']) {
        Some(i) => match (
            unsigned_of(entry.take(i), u32::MAX as nat),
            unsigned_of(entry.skip(i + 1), u32::MAX as nat),
        ) {
            (Some(first), Some(last)) => span(first as u32, last as u32),
            _ => Seq::empty(),
        },
        None => match unsigned_of(entry, u32::MAX as nat) {
            Some(n) => seq![n as u32],
            None => Seq::empty(),
        },
    }
}

/// The processors that a list of entries names, the entries parted by `,`.
pub open spec fn online_cpus(list: Seq<char>) -> Seq<u32>
    decreases list.len(),
{
    match first_occurrence(list, seq![',']) {
        Some(i) => if 0 <= i < list.len() {
            cpu_range(list.take(i)) + online_cpus(list.skip(i + 1))
        } else {
            cpu_range(list)
        },
        None => cpu_range(list),
    }
}

/// Reads the value that follows `k` in `s` and runs up to `endstr`,
/// trimmed of the characters of `trim`. `None` where `k` does not occur,
/// or `endstr` does not occur after it.
pub fn parse_key_from_text(s: &str, k: &str, endstr: &str, trim: Option<&[char]>) -> (value:
    Option<String>)
    ensures
        match value {
            Some(v) => key_value(
                s@,
                k@,
                endstr@,
                match trim {
                    Some(set) => Some(set@),
                    None => None,
                },
            ) == Some(v@),
            None => key_value(
                s@,
                k@,
                endstr@,
                match trim {
                    Some(set) => Some(set@),
                    None => None,
                },
            ) is None,
        },
{
    let hay = chars_of(s);
    let key = chars_of(k);
    let end = chars_of(endstr);
    let len: usize = hay.len();
    assert(hay@.subrange(0, len as int) =~= s@);
    match find_in(hay.as_slice(), 0, len, key.as_slice()) {
        Some(b) => {
            let from: usize = b + key.len();
            assert(hay@.subrange(from as int, len as int) =~= s@.skip(from as int));
            match find_in(hay.as_slice(), from, len, end.as_slice()) {
                Some(e) => {
                    assert(hay@.subrange(from as int, e as int) =~= s@.skip(from as int).take(
                        e - from,
                    ));
                    let bounds: (usize, usize) = match trim {
                        Some(set) => trim_in(hay.as_slice(), from, e, set),
                        None => (from, e),
                    };
                    let part = s.substring_char(bounds.0, bounds.1);
                    assert(part@ =~= hay@.subrange(bounds.0 as int, bounds.1 as int));
                    Some(part.to_owned())
                },
                None => None,
            }
        },
        None => None,
    }
}

/// The one-character text `c`.
fn single(c: char) -> (text: Vec<char>)
    ensures
        text@ == seq![c],
{
    let mut text: Vec<char> = Vec::new();
    text.push(c);
    assert(text@ =~= seq![c]);
    text
}

/// Appends the processors that the entry from `from` up to `to` names.
fn push_cpu_range(cpus: &mut Vec<u32>, hay: &[char], from: usize, to: usize)
    requires
        from <= to <= hay@.len(),
    ensures
        final(cpus)@ == old(cpus)@ + cpu_range(hay@.subrange(from as int, to as int)),
{
    let ghost entry = hay@.subrange(from as int, to as int);
    let ghost before = cpus@;
    let dash = single('-');
    match find_in(hay, from, to, dash.as_slice()) {
        Some(i) => {
            assert(hay@.subrange(from as int, i as int) =~= entry.take(i - from));
            assert(hay@.subrange(i + 1, to as int) =~= entry.skip(i - from + 1));
            let first = unsigned_in(hay, from, i, u32::MAX as u64);
            let last = unsigned_in(hay, i + 1, to, u32::MAX as u64);
            match (first, last) {
                (Some(l), Some(r)) => {
                    let l: u32 = l as u32;
                    let r: u32 = r as u32;
                    if l <= r {
                        let mut n: u32 = l;
                        loop
                            invariant_except_break
                                cpus@ == before + span(l, r).take(n - l),
                            invariant
                                l <= n <= r,
                            ensures
                                cpus@ == before + span(l, r),
                            decreases r - n,
                        {
                            cpus.push(n);
                            assert(span(l, r).take(n - l + 1) =~= span(l, r).take(n - l).push(n));
                            if n == r {
                                assert(span(l, r).take(n - l + 1) =~= span(l, r));
                                break ;
                            }
                            n = n + 1;
                        }
                    } else {
                        assert(cpus@ =~= before + span(l, r));
                    }
                },
                _ => {
                    assert(cpus@ =~= before + Seq::<u32>::empty());
                },
            }
        },
        None => {
            match unsigned_in(hay, from, to, u32::MAX as u64) {
                Some(n) => {
                    cpus.push(n as u32);
                    assert(cpus@ =~= before + seq![n as u32]);
                },
                None => {
                    assert(cpus@ =~= before + Seq::<u32>::empty());
                },
            }
        },
    }
}

/// Reads a list of online processors such as `0-4,6-7`: entries parted by
/// `,`, each a processor number or a range of them. Entries that are
/// neither are passed over.
pub fn parse_online_cpus(s: &str) -> (cpus: Vec<u32>)
    ensures
        cpus@ == online_cpus(s@),
{
    let hay = chars_of(s);
    let comma = single(',');
    let len: usize = hay.len();
    let mut cpus: Vec<u32> = Vec::new();
    let mut from: usize = 0;
    assert(hay@.subrange(0, len as int) =~= s@);
    loop
        invariant_except_break
            online_cpus(s@) == cpus@ + online_cpus(hay@.subrange(from as int, len as int)),
        invariant
            from <= len == hay@.len(),
            hay@ == s@,
            comma@ == seq![','],
        ensures
            cpus@ == online_cpus(s@),
        decreases len - from,
    {
        let ghost rest = hay@.subrange(from as int, len as int);
        let ghost before = cpus@;
        match find_in(hay.as_slice(), from, len, comma.as_slice()) {
            Some(i) => {
                assert(hay@.subrange(from as int, i as int) =~= rest.take(i - from));
                assert(hay@.subrange(i + 1, len as int) =~= rest.skip(i - from + 1));
                push_cpu_range(&mut cpus, hay.as_slice(), from, i);
                assert(cpus@ + online_cpus(rest.skip(i - from + 1)) =~= before + online_cpus(rest));
                from = i + 1;
            },
            None => {
                push_cpu_range(&mut cpus, hay.as_slice(), from, len);
                break ;
            },
        }
    }
    cpus
}

/// A fixed-capacity window that keeps its mean up to date with every
/// push, and the extrema of all samples ever pushed.
pub struct RingStatsBuffer<T: Sample> {
    buff: VecDeque<T>,
    cap: usize,
    /// The largest sample ever pushed; zero before the first push.
    pub max: T,
    /// The smallest sample ever pushed; the largest value of the type
    /// before the first push.
    pub min: T,
    avg: T,
}

impl<T: Sample> RingStatsBuffer<T> {
    /// The samples held, oldest first.
    pub closed spec fn samples(&self) -> Seq<T> {
        self.buff@
    }

    /// The largest number of samples that a push leaves in the window.
    pub closed spec fn capacity(&self) -> nat {
        self.cap as nat
    }

    /// The mean of the window as of the last push; zero before the first.
    pub closed spec fn average(&self) -> int {
        self.avg.value()
    }

    /// The number that the field `max` stands for.
    pub closed spec fn maximum(&self) -> int {
        self.max.value()
    }

    /// The number that the field `min` stands for.
    pub closed spec fn minimum(&self) -> int {
        self.min.value()
    }

    /// The iterator that `iter` returns.
    pub closed spec fn spec_iter(&self) -> Iter<'_, T> {
        vstd::std_specs::vecdeque::spec_iter(&self.buff)
    }

    /// An empty window for `capacity` samples.
    pub fn new(capacity: usize) -> (buffer: Self)
        ensures
            buffer.samples().len() == 0,
            buffer.capacity() == capacity,
            buffer.maximum() == 0,
            buffer.minimum() == T::ceiling(),
            buffer.average() == 0,
    {
        let top = T::highest();
        proof {
            top.lemma_in_range();
        }
        let zero = T::narrow(0);
        RingStatsBuffer {
            buff: VecDeque::new(),
            cap: capacity,
            max: zero,
            min: top,
            avg: zero,
        }
    }

    /// The number of samples held.
    pub fn len(&self) -> (len: usize)
        ensures
            len == self.samples().len(),
    {
        self.buff.len()
    }

    /// An iterator over the samples held, oldest first.
    #[verifier::when_used_as_spec(spec_iter)]
    pub fn iter(&self) -> (iter: Iter<'_, T>)
        ensures
            iter == self.spec_iter(),
            iter.remaining() == self.samples().as_ref(),
            iter.decrease() is Some,
            iter.initial_value_relation(&iter),
    {
        broadcast use vstd::std_specs::vecdeque::axiom_spec_iter;

        self.buff.iter()
    }

    /// Pushes `item`: the newest `capacity` samples stay, the extrema take
    /// `item` in, and the mean is that of the window as it then is.
    pub fn push_back(&mut self, item: T)
        ensures
            values(final(self).samples()) == newest(
                values(old(self).samples()).push(item.value()),
                old(self).capacity(),
            ),
            final(self).capacity() == old(self).capacity(),
            final(self).maximum() == if item.value() > old(self).maximum() {
                item.value()
            } else {
                old(self).maximum()
            },
            final(self).minimum() == if item.value() < old(self).minimum() {
                item.value()
            } else {
                old(self).minimum()
            },
            final(self).average() == if final(self).samples().len() > 0 {
                mean(values(final(self).samples()))
            } else {
                old(self).average()
            },
    {
        let ghost held = values(self.buff@);
        let ghost pushed = held.push(item.value());
        if self.cap > 0 {
            while self.buff.len() >= self.cap
                invariant
                    self.cap == old(self).cap > 0,
                    self.max == old(self).max,
                    self.min == old(self).min,
                    self.avg == old(self).avg,
                    held == values(old(self).buff@),
                    self.buff@.len() <= held.len(),
                    self.buff@.len() == held.len() || self.buff@.len() >= self.cap - 1,
                    values(self.buff@) == held.skip(held.len() - self.buff@.len()),
                decreases self.buff@.len(),
            {
                let ghost before = self.buff@;
                let _ = self.buff.pop_front();
                proof {
                    let shift = held.len() - before.len();
                    assert(self.buff@ =~= before.subrange(1, before.len() as int));
                    assert forall|i: int| 0 <= i < self.buff@.len() implies values(self.buff@)[i]
                        == held.skip(shift + 1)[i] by {
                        assert(values(self.buff@)[i] == self.buff@[i].value());
                        assert(self.buff@[i] == before[i + 1]);
                        assert(values(before)[i + 1] == before[i + 1].value());
                        assert(held.skip(shift)[i + 1] == held[shift + i + 1]);
                    }
                    assert(values(self.buff@) =~= held.skip(shift + 1));
                }
            }
            let ghost kept = self.buff@;
            self.buff.push_back(item);
            proof {
                assert(values(self.buff@) =~= values(kept).push(item.value()));
            }
        } else {
            while self.buff.len() > 0
                invariant
                    self.cap == old(self).cap == 0,
                    self.max == old(self).max,
                    self.min == old(self).min,
                    self.avg == old(self).avg,
                decreases self.buff@.len(),
            {
                let _ = self.buff.pop_front();
            }
        }
        assert(values(self.buff@) =~= newest(pushed, self.cap as nat));
        if item.widen() > self.max.widen() {
            self.max = item;
        }
        if item.widen() < self.min.widen() {
            self.min = item;
        }
        self.calc_avg();
    }

    /// Takes the oldest sample out of the window.
    pub fn pop_front(&mut self) -> (oldest: Option<T>)
        ensures
            match oldest {
                Some(sample) => old(self).samples().len() > 0 && sample == old(
                    self,
                ).samples().first() && final(self).samples() == old(self).samples().drop_first(),
                None => old(self).samples().len() == 0 && final(self).samples() == old(
                    self,
                ).samples(),
            },
            final(self).capacity() == old(self).capacity(),
            final(self).maximum() == old(self).maximum(),
            final(self).minimum() == old(self).minimum(),
            final(self).average() == old(self).average(),
    {
        let oldest = self.buff.pop_front();
        assert(oldest is Some ==> self.buff@ =~= old(self).buff@.drop_first());
        oldest
    }

    /// The most recent sample held, if any.
    pub fn get_last(&self) -> (last: Option<T>)
        ensures
            last == if self.samples().len() > 0 {
                Some(self.samples().last())
            } else {
                None
            },
    {
        if self.buff.len() == 0 {
            return None;
        }
        Some(self.buff[self.buff.len() - 1])
    }

    /// The samples held, oldest first, as the two runs in which they lie in
    /// memory.
    pub fn as_slices(&self) -> (slices: (&[T], &[T]))
        ensures
            slices.0@ + slices.1@ == self.samples(),
    {
        deque_as_slices(&self.buff)
    }

    /// The largest sample ever pushed; zero before the first push.
    pub fn get_max(&self) -> (max: T)
        ensures
            max.value() == self.maximum(),
    {
        self.max
    }

    /// The smallest sample ever pushed; the largest value of the type
    /// before the first push.
    pub fn get_min(&self) -> (min: T)
        ensures
            min.value() == self.minimum(),
    {
        self.min
    }

    /// The mean kept by the window.
    pub fn get_avg(&self) -> (avg: T)
        ensures
            avg.value() == self.average(),
    {
        self.avg
    }

    /// Brings the mean up to date with the window. An empty window keeps
    /// the mean it had.
    pub fn calc_avg(&mut self)
        ensures
            final(self).samples() == old(self).samples(),
            final(self).capacity() == old(self).capacity(),
            final(self).maximum() == old(self).maximum(),
            final(self).minimum() == old(self).minimum(),
            final(self).average() == if old(self).samples().len() > 0 {
                mean(values(old(self).samples()))
            } else {
                old(self).average()
            },
    {
        if self.buff.len() > 0 {
            self.avg = mean_of(&self.buff);
        }
    }
}

} // verus!
