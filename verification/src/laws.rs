//! Laws of the rolling window, proved over its model.

use crate::rolling::{is_maximum, is_minimum, mean, newest, within, Rolling};
use vstd::prelude::*;

verus! {

/// The smaller of `start` and the smallest sample of `s`.
pub open spec fn lowest(start: int, s: Seq<int>) -> int
    decreases s.len(),
{
    if s.len() == 0 {
        start
    } else {
        let before = lowest(start, s.drop_last());
        if s.last() < before {
            s.last()
        } else {
            before
        }
    }
}

/// The larger of `start` and the largest sample of `s`.
pub open spec fn highest(start: int, s: Seq<int>) -> int
    decreases s.len(),
{
    if s.len() == 0 {
        start
    } else {
        let before = highest(start, s.drop_last());
        if s.last() > before {
            s.last()
        } else {
            before
        }
    }
}

/// `lowest` is below `start` and below every sample, and it is `start` or
/// one of the samples.
pub proof fn lemma_lowest(start: int, s: Seq<int>)
    ensures
        lowest(start, s) <= start,
        forall|i: int| 0 <= i < s.len() ==> lowest(start, s) <= s[i],
        lowest(start, s) == start || exists|i: int| 0 <= i < s.len() && s[i] == lowest(start, s),
    decreases s.len(),
{
    if s.len() > 0 {
        let head = s.drop_last();
        lemma_lowest(start, head);
        assert forall|i: int| 0 <= i < s.len() implies lowest(start, s) <= s[i] by {
            if i < head.len() {
                assert(head[i] == s[i]);
            }
        }
        if lowest(start, s) != start {
            if s.last() < lowest(start, head) {
                assert(s[s.len() - 1] == lowest(start, s));
            } else {
                let i = choose|i: int| 0 <= i < head.len() && head[i] == lowest(start, head);
                assert(s[i] == lowest(start, s));
            }
        }
    }
}

/// `highest` is above `start` and above every sample, and it is `start` or
/// one of the samples.
pub proof fn lemma_highest(start: int, s: Seq<int>)
    ensures
        highest(start, s) >= start,
        forall|i: int| 0 <= i < s.len() ==> highest(start, s) >= s[i],
        highest(start, s) == start || exists|i: int|
            0 <= i < s.len() && s[i] == highest(start, s),
    decreases s.len(),
{
    if s.len() > 0 {
        let head = s.drop_last();
        lemma_highest(start, head);
        assert forall|i: int| 0 <= i < s.len() implies highest(start, s) >= s[i] by {
            if i < head.len() {
                assert(head[i] == s[i]);
            }
        }
        if highest(start, s) != start {
            if s.last() > highest(start, head) {
                assert(s[s.len() - 1] == highest(start, s));
            } else {
                let i = choose|i: int| 0 <= i < head.len() && head[i] == highest(start, head);
                assert(s[i] == highest(start, s));
            }
        }
    }
}

/// Started at the ceiling, `lowest` is the minimum of a non-empty run of
/// samples; started at zero, `highest` is its maximum.
pub proof fn lemma_extrema_from_start(ceiling: int, s: Seq<int>)
    requires
        s.len() > 0,
        within(s, ceiling),
    ensures
        is_minimum(lowest(ceiling, s), s),
        is_maximum(highest(0, s), s),
{
    lemma_lowest(ceiling, s);
    lemma_highest(0, s);
    assert(0 <= s[0] <= ceiling);
    if lowest(ceiling, s) == ceiling {
        assert(s[0] == lowest(ceiling, s));
    }
    if highest(0, s) == 0 {
        assert(s[0] == highest(0, s));
    }
}

/// Pushes change neither the capacity nor the ceiling nor the reset mode.
pub proof fn lemma_pushes_keep_settings(m: Rolling, values: Seq<int>)
    ensures
        m.push_all(values).capacity == m.capacity,
        m.push_all(values).ceiling == m.ceiling,
        m.push_all(values).resets == m.resets,
    decreases values.len(),
{
    if values.len() > 0 {
        lemma_pushes_keep_settings(m, values.drop_last());
    }
}

/// After any run of pushes the window holds the newest `capacity` samples
/// of what it held and what was pushed. So it never holds more than
/// `capacity` samples, and it is full once `capacity` samples were pushed.
pub proof fn lemma_window_after_pushes(m: Rolling, values: Seq<int>)
    requires
        m.window.len() <= m.capacity,
    ensures
        m.push_all(values).window == newest(m.window + values, m.capacity),
        m.push_all(values).window.len() <= m.capacity,
        values.len() >= m.capacity ==> m.push_all(values).window.len() == m.capacity,
    decreases values.len(),
{
    lemma_pushes_keep_settings(m, values.drop_last());
    if values.len() == 0 {
        assert(m.window + values =~= m.window);
    } else {
        let head = values.drop_last();
        let x = values.last();
        lemma_window_after_pushes(m, head);
        let a = m.window + head;
        assert(a.push(x) =~= m.window + values);
        assert(newest(newest(a, m.capacity).push(x), m.capacity) =~= newest(
            a.push(x),
            m.capacity,
        ));
    }
}

/// The most recent sample of a window that can hold one is the sample
/// pushed last.
pub proof fn lemma_last_is_newest(m: Rolling, value: int)
    requires
        m.capacity > 0,
    ensures
        m.push(value).last() == Some(value),
{
}

/// Pushes that do not complete the epoch count up the ticks, fold the
/// samples into the live extrema and leave the committed statistics alone.
pub proof fn lemma_pushes_within_epoch(m: Rolling, values: Seq<int>)
    requires
        m.ticks + values.len() < m.capacity,
    ensures
        m.push_all(values).ticks == m.ticks + values.len(),
        m.push_all(values).live_min == lowest(m.live_min, values),
        m.push_all(values).live_max == highest(m.live_max, values),
        m.push_all(values).committed == m.committed,
    decreases values.len(),
{
    if values.len() > 0 {
        lemma_pushes_within_epoch(m, values.drop_last());
        lemma_pushes_keep_settings(m, values.drop_last());
    }
}

/// An epoch that starts with the live extrema at their starting values
/// commits, with its last push, the minimum, the maximum and the mean of the
/// `capacity` samples pushed in it. Where the window resets, the live
/// extrema are then back at their starting values.
pub proof fn lemma_epoch_commit(m: Rolling, values: Seq<int>)
    requires
        m.window.len() <= m.capacity,
        m.ticks == 0,
        m.live_min == m.ceiling,
        m.live_max == 0,
        m.capacity > 0,
        values.len() == m.capacity,
        within(values, m.ceiling),
    ensures
        m.push_all(values).window == values,
        m.push_all(values).ticks == 0,
        m.push_all(values).committed matches Some(c) && is_minimum(c.min, values) && is_maximum(
            c.max,
            values,
        ) && c.avg == mean(values),
        m.resets ==> m.push_all(values).live_min == m.ceiling && m.push_all(values).live_max == 0,
{
    let head = values.drop_last();
    lemma_pushes_within_epoch(m, head);
    lemma_pushes_keep_settings(m, head);
    lemma_window_after_pushes(m, head);
    lemma_window_after_pushes(m, values);
    assert(newest(m.window + values, m.capacity) =~= values);
    lemma_extrema_from_start(m.ceiling, values);
}

/// After exactly `capacity` pushes into a new window, the committed
/// statistics are the minimum, the maximum and the mean of the samples
/// pushed.
pub proof fn lemma_first_epoch(capacity: nat, resets: bool, ceiling: int, values: Seq<int>)
    requires
        capacity > 0,
        values.len() == capacity,
        within(values, ceiling),
    ensures
        Rolling::empty(capacity, resets, ceiling).push_all(values).committed matches Some(c)
            && is_minimum(c.min, values) && is_maximum(c.max, values) && c.avg == mean(values),
{
    lemma_epoch_commit(Rolling::empty(capacity, resets, ceiling), values);
}

/// `push_all` of a run is `push_all` of its first part, then of the rest.
pub proof fn lemma_push_all_split(m: Rolling, first: Seq<int>, second: Seq<int>)
    ensures
        m.push_all(first + second) == m.push_all(first).push_all(second),
    decreases second.len(),
{
    if second.len() == 0 {
        assert(first + second =~= first);
    } else {
        lemma_push_all_split(m, first, second.drop_last());
        assert((first + second).drop_last() =~= first + second.drop_last());
        assert((first + second).last() == second.last());
    }
}

/// In a window that resets, the statistics committed at the end of the
/// second epoch are those of the second epoch's samples alone, and while
/// the second epoch runs the live extrema are those of its samples so far.
pub proof fn lemma_second_epoch_alone(
    capacity: nat,
    ceiling: int,
    first: Seq<int>,
    second: Seq<int>,
)
    requires
        capacity > 0,
        first.len() == capacity,
        0 < second.len() <= capacity,
        within(first, ceiling),
        within(second, ceiling),
    ensures
        ({
            let after = Rolling::empty(capacity, true, ceiling).push_all(first + second);
            if second.len() == capacity {
                after.committed matches Some(c) && is_minimum(c.min, second) && is_maximum(
                    c.max,
                    second,
                ) && c.avg == mean(second)
            } else {
                is_minimum(after.live_min, second) && is_maximum(after.live_max, second)
            }
        }),
{
    let start = Rolling::empty(capacity, true, ceiling);
    lemma_push_all_split(start, first, second);
    lemma_epoch_commit(start, first);
    lemma_pushes_keep_settings(start, first);
    let mid = start.push_all(first);
    if second.len() == capacity {
        lemma_epoch_commit(mid, second);
    } else {
        lemma_pushes_within_epoch(mid, second);
        lemma_extrema_from_start(ceiling, second);
    }
}

/// In a window that does not reset, the live extrema fold in every sample
/// ever pushed.
pub proof fn lemma_pushes_without_reset(m: Rolling, values: Seq<int>)
    requires
        !m.resets,
    ensures
        m.push_all(values).live_min == lowest(m.live_min, values),
        m.push_all(values).live_max == highest(m.live_max, values),
        !m.push_all(values).resets,
    decreases values.len(),
{
    lemma_pushes_keep_settings(m, values);
    if values.len() > 0 {
        lemma_pushes_without_reset(m, values.drop_last());
    }
}

/// In a new window that does not reset, the live extrema are the minimum
/// and the maximum of all samples pushed, however many epochs they span.
pub proof fn lemma_all_time_extrema(capacity: nat, ceiling: int, values: Seq<int>)
    requires
        values.len() > 0,
        within(values, ceiling),
    ensures
        is_minimum(Rolling::empty(capacity, false, ceiling).push_all(values).live_min, values),
        is_maximum(Rolling::empty(capacity, false, ceiling).push_all(values).live_max, values),
{
    lemma_pushes_without_reset(Rolling::empty(capacity, false, ceiling), values);
    lemma_extrema_from_start(ceiling, values);
}

/// When a push commits, the committed extrema bound every sample the
/// window holds at that moment, and the committed mean is the mean of those
/// samples.
pub proof fn lemma_commit_bounds_window(m: Rolling, value: int)
    requires
        m.wf(),
        0 <= value <= m.ceiling,
        m.ticks + 1 >= m.capacity,
        m.capacity > 0,
    ensures
        m.push(value).committed matches Some(c) && c.avg == mean(m.push(value).window) && forall|
            i: int,
        |
            0 <= i < m.push(value).window.len() ==> c.min <= #[trigger] m.push(value).window[i]
                <= c.max,
{
    let appended = m.window.push(value);
    let window = newest(appended, m.capacity);
    let low = if value < m.live_min {
        value
    } else {
        m.live_min
    };
    let high = if value > m.live_max {
        value
    } else {
        m.live_max
    };
    assert forall|i: int| 0 <= i < window.len() implies low <= #[trigger] window[i] <= high by {
        if appended.len() > m.capacity {
            let shift = appended.len() - m.capacity;
            assert(window[i] == appended[i + shift]);
            if i + shift < m.window.len() {
                assert(appended[i + shift] == m.window[i + shift]);
            }
        } else {
            if i < m.window.len() {
                assert(appended[i] == m.window[i]);
            }
        }
    }
}

/// When a commit is forced, the committed extrema bound the samples of
/// the epoch so far that the window holds, and the committed mean is the
/// mean of the whole window.
pub proof fn lemma_forced_commit_bounds(m: Rolling)
    requires
        m.wf(),
        m.window.len() > 0,
    ensures
        m.commit().committed matches Some(c) && c.avg == mean(m.window) && forall|i: int|
            0 <= i < m.window.len() && m.window.len() - m.ticks <= i ==> c.min
                <= #[trigger] m.window[i] <= c.max,
{
}

} // verus!
