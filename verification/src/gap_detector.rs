//! Sequence-number gap detection.
//!
//! The detector watches a monotone stream of 32-bit sequence numbers and
//! records every missed closed interval, together with a running count of
//! missing numbers. Arithmetic wraps modulo 2^32, matching the wire type.

use vstd::prelude::*;

verus! {

/// `x + 1` modulo 2^32.
pub open spec fn spec_wrap_inc(x: u32) -> u32 {
    if x == u32::MAX {
        0
    } else {
        (x + 1) as u32
    }
}

/// `x - y` modulo 2^32.
pub open spec fn spec_wrap_sub(x: u32, y: u32) -> u32 {
    if x >= y {
        (x - y) as u32
    } else {
        (x + 0x1_0000_0000 - y) as u32
    }
}

/// Number of sequence numbers in the closed interval `[g.0, g.1]`,
/// modulo 2^32.
pub open spec fn spec_gap_width(g: (u32, u32)) -> u32 {
    spec_wrap_inc(spec_wrap_sub(g.1, g.0))
}

/// Sum modulo 2^32 of the widths of all recorded gap intervals.
pub open spec fn spec_gap_total(gaps: Seq<(u32, u32)>) -> u32
    decreases gaps.len(),
{
    if gaps.len() == 0 {
        0
    } else {
        ((spec_gap_total(gaps.drop_last()) + spec_gap_width(gaps.last())) % 0x1_0000_0000) as u32
    }
}

/// True iff `s` lies in one of the recorded closed intervals.
pub open spec fn spec_in_gap(gaps: Seq<(u32, u32)>, s: u32) -> bool {
    exists|i: int| 0 <= i < gaps.len() && (#[trigger] gaps[i]).0 <= s <= gaps[i].1
}

/// Abstract state of a gap detector: the last sequence number seen, if
/// any, and the missed intervals in the order they were recorded.
pub struct GapDetectorView {
    pub last: Option<u32>,
    pub gaps: Seq<(u32, u32)>,
}

/// Watches sequence numbers and records the intervals that never arrived.
#[derive(Debug, Clone)]
pub struct GapDetector {
    last_sequence: Option<u32>,
    gaps: Vec<(u32, u32)>,
    total_gap_count: u32,
}

impl View for GapDetector {
    type V = GapDetectorView;

    closed spec fn view(&self) -> GapDetectorView {
        GapDetectorView { last: self.last_sequence, gaps: self.gaps@ }
    }
}

impl GapDetector {
    /// The running missing-number counter always equals the summed widths
    /// of the recorded intervals.
    pub closed spec fn wf(&self) -> bool {
        self.total_gap_count == spec_gap_total(self.gaps@)
    }

    /// A fresh detector: nothing seen, nothing missed.
    pub fn new() -> (r: Self)
        ensures
            r.wf(),
            r@.last is None,
            r@.gaps == Seq::<(u32, u32)>::empty(),
    {
        GapDetector { last_sequence: None, gaps: Vec::new(), total_gap_count: 0 }
    }

    /// Observe the next sequence number.
    ///
    /// The first number only sets the baseline. Afterwards, a number other
    /// than `last + 1` (mod 2^32) records the missed closed interval
    /// `[last + 1, seq_num - 1]` (wrapping arithmetic on both ends).
    pub fn process(&mut self, seq_num: u32)
        requires
            old(self).wf(),
        ensures
            final(self).wf(),
            final(self)@.last == Some(seq_num),
            final(self)@.gaps == (match old(self)@.last {
                None => old(self)@.gaps,
                Some(l) => if seq_num == spec_wrap_inc(l) {
                    old(self)@.gaps
                } else {
                    old(self)@.gaps.push((spec_wrap_inc(l), spec_wrap_sub(seq_num, 1)))
                },
            }),
    {
        match self.last_sequence {
            None => {
                self.last_sequence = Some(seq_num);
            },
            Some(last) => {
                let expected_next = last.wrapping_add(1);
                if seq_num != expected_next {
                    let gap_size = seq_num.wrapping_sub(expected_next);
                    let gap_end = seq_num.wrapping_sub(1);
                    proof {
                        assert(expected_next == spec_wrap_inc(last)) by (bit_vector)
                            requires
                                expected_next == last.wrapping_add(1),
                        ;
                        assert(gap_end == spec_wrap_sub(seq_num, 1)) by (bit_vector)
                            requires
                                gap_end == seq_num.wrapping_sub(1),
                        ;
                        assert(gap_size == spec_gap_width((expected_next, gap_end)))
                            by (bit_vector)
                            requires
                                gap_size == seq_num.wrapping_sub(expected_next),
                                gap_end == seq_num.wrapping_sub(1),
                                seq_num != expected_next,
                        ;
                        assert(self.gaps@.push((expected_next, gap_end)).drop_last()
                            == self.gaps@);
                    }
                    self.gaps.push((expected_next, gap_end));
                    self.total_gap_count = self.total_gap_count.wrapping_add(gap_size);
                }
                self.last_sequence = Some(seq_num);
            },
        }
    }

    /// All missed intervals, oldest first, as inclusive `(start, end)` pairs.
    pub fn gaps(&self) -> (r: &[(u32, u32)])
        ensures
            r@ == self@.gaps,
    {
        self.gaps.as_slice()
    }

    /// Total count of missing sequence numbers, modulo 2^32: always the sum
    /// of `end - start + 1` over the recorded intervals.
    pub fn total_gaps(&self) -> (r: u32)
        requires
            self.wf(),
        ensures
            r == spec_gap_total(self@.gaps),
    {
        self.total_gap_count
    }

    /// Number of recorded gap intervals.
    pub fn gap_count(&self) -> (r: usize)
        ensures
            r == self@.gaps.len(),
    {
        self.gaps.len()
    }

    /// Forget everything seen so far.
    pub fn reset(&mut self)
        ensures
            final(self).wf(),
            final(self)@.last is None,
            final(self)@.gaps == Seq::<(u32, u32)>::empty(),
    {
        self.last_sequence = None;
        self.gaps.clear();
        self.total_gap_count = 0;
    }

    /// True iff `seq_num` falls inside one of the recorded intervals.
    pub fn is_in_gap(&self, seq_num: u32) -> (r: bool)
        ensures
            r == spec_in_gap(self@.gaps, seq_num),
    {
        let n = self.gaps.len();
        let mut i: usize = 0;
        while i < n
            invariant
                0 <= i <= n,
                n == self.gaps@.len(),
                forall|j: int|
                    0 <= j < i ==> !((#[trigger] self.gaps@[j]).0 <= seq_num
                        <= self.gaps@[j].1),
            decreases n - i,
        {
            let (start, end) = self.gaps[i];
            if seq_num >= start && seq_num <= end {
                return true;
            }
            i = i + 1;
        }
        false
    }
}

impl Default for GapDetector {
    /// Same as `new`: nothing seen, nothing missed.
    fn default() -> (r: Self)
        ensures
            r.wf(),
            r@.last is None,
            r@.gaps == Seq::<(u32, u32)>::empty(),
    {
        Self::new()
    }
}

} // verus!
