use vstd::prelude::*;

verus! {

/// Number of color-stop slots that a parameter set carries.
pub const STOP_SLOTS: usize = 8;

/// The stop held in slot `i`; a slot past the last reads as `blank`.
pub open spec fn slot_value<T>(slots: Seq<T>, blank: T, i: int) -> T {
    if i < slots.len() {
        slots[i]
    } else {
        blank
    }
}

/// The stops that make up a ramp of `count` stops: the first `count` slots,
/// or the first slot alone when `count` is zero.
pub open spec fn ramp_stops<T>(slots: Seq<T>, blank: T, count: nat) -> Seq<T> {
    if count == 0 {
        seq![slots[0]]
    } else {
        Seq::new(count, |i: int| slot_value(slots, blank, i))
    }
}

/// Index of the lower stop of ramp segment `segment` in a ramp of `n` stops.
pub open spec fn lower_stop(segment: int, n: int) -> int {
    if segment < n - 1 {
        segment
    } else {
        n - 1
    }
}

/// Index of the upper stop of ramp segment `segment` in a ramp of `n` stops.
pub open spec fn upper_stop(segment: int, n: int) -> int {
    if segment + 1 < n - 1 {
        segment + 1
    } else {
        n - 1
    }
}

/// The stop held in slot `index`, or `blank` past the last slot.
pub fn stop_at<T: Copy>(slots: &[T; 8], index: usize, blank: T) -> (r: T)
    ensures
        r == slot_value(slots@, blank, index as int),
{
    if index < STOP_SLOTS {
        slots[index]
    } else {
        blank
    }
}

/// Collects the stops of a ramp of `count` stops from the slots. A count of
/// zero gives a ramp of the first slot alone, so a ramp is never empty.
pub fn select_stops<T: Copy>(slots: &[T; 8], count: usize, blank: T) -> (r: Vec<T>)
    ensures
        r@ == ramp_stops(slots@, blank, count as nat),
        r@.len() >= 1,
{
    let mut stops: Vec<T> = Vec::new();
    if count == 0 {
        stops.push(slots[0]);
        assert(stops@ =~= ramp_stops(slots@, blank, 0));
        return stops;
    }
    let mut i: usize = 0;
    while i < count
        invariant
            i <= count,
            stops@.len() == i,
            forall|k: int| 0 <= k < i ==> stops@[k] == slot_value(slots@, blank, k),
        decreases count - i,
    {
        let stop = stop_at(slots, i, blank);
        stops.push(stop);
        i = i + 1;
    }
    assert(stops@ =~= ramp_stops(slots@, blank, count as nat));
    stops
}

/// Indices of the two stops that bound ramp segment `segment` in a ramp of
/// `n` stops, each held to the last stop.
pub fn segment_indices(segment: usize, n: usize) -> (r: (usize, usize))
    requires
        n >= 1,
    ensures
        r.0 == lower_stop(segment as int, n as int),
        r.1 == upper_stop(segment as int, n as int),
        r.0 < n,
        r.1 < n,
{
    let last = n - 1;
    if segment >= last {
        (last, last)
    } else if segment + 1 >= last {
        (segment, last)
    } else {
        (segment, segment + 1)
    }
}

/// The two stops that bound ramp segment `segment`: the stops that a
/// position in that segment blends between.
pub fn bounding_stops<T: Copy>(stops: &Vec<T>, segment: usize) -> (r: (T, T))
    requires
        stops@.len() >= 1,
    ensures
        r.0 == stops@[lower_stop(segment as int, stops@.len() as int)],
        r.1 == stops@[upper_stop(segment as int, stops@.len() as int)],
{
    let (lo, hi) = segment_indices(segment, stops.len());
    (stops[lo], stops[hi])
}

/// A ramp of a single stop shows that stop on both sides of every segment, so
/// every position maps to it.
pub proof fn lemma_single_stop_everywhere<T>(stops: Seq<T>, segment: int)
    requires
        stops.len() == 1,
        segment >= 0,
    ensures
        stops[lower_stop(segment, 1)] == stops[0],
        stops[upper_stop(segment, 1)] == stops[0],
{
}

} // verus!
