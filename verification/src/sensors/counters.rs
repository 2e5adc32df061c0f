//! Wraparound-safe counter deltas and the bounded record buffer.
//!
//! Hardware energy counters are fixed-width monotonic registers that wrap to
//! zero after a hardware-specific maximum.  `delta` reconstructs the energy
//! spent between two readings under the single-wrap assumption; the buffer
//! retains a bounded history of records for smoothing, evicting oldest
//! first.
use vstd::prelude::*;

use crate::sensors::Record;
use crate::sensors::SensorError;

verus! {

/// The energy spent between two readings of a counter that wraps at
/// `max`: a plain difference when the counter did not wrap, otherwise the
/// single-wrap reconstruction.
pub open spec fn spec_wrap_delta(previous: int, current: int, max: int) -> int {
    if current >= previous {
        current - previous
    } else {
        (max - previous) + current
    }
}

/// A reconstructed delta is representable when it lies within one counter
/// range; anything else means the counter wrapped more than once (a tick
/// was missed for too long) or a reading exceeded the counter's range.
pub open spec fn delta_representable(previous: int, current: int, max: int) -> bool {
    0 <= spec_wrap_delta(previous, current, max) <= max
}

/// Wraparound-safe subtraction between successive raw counter readings.
///
/// Returns `current_raw - previous_raw` when the counter did not wrap, and
/// `(max_value - previous_raw) + current_raw` after a single wrap.  When
/// that reconstruction does not fit one counter range the delta is not
/// representable and `CounterOverflowUnrepresentable` is returned instead.
pub fn delta(previous_raw: u64, current_raw: u64, max_value: u64) -> (r: Result<u64, SensorError>)
    ensures
        delta_representable(previous_raw as int, current_raw as int, max_value as int) ==> (
        r matches Ok(d) && d == spec_wrap_delta(
            previous_raw as int,
            current_raw as int,
            max_value as int,
        )),
        !delta_representable(previous_raw as int, current_raw as int, max_value as int) ==> (
        r matches Err(e) && e matches SensorError::CounterOverflowUnrepresentable {
            previous_raw: p,
            current_raw: c,
            max_value: m,
            entity_id: eid,
            source: esrc,
        } && p == previous_raw && c == current_raw && m == max_value && eid is None
            && esrc is None),
{
    if current_raw >= previous_raw {
        let d = current_raw - previous_raw;
        if d <= max_value {
            Ok(d)
        } else {
            Err(
                SensorError::CounterOverflowUnrepresentable {
                    previous_raw,
                    current_raw,
                    max_value,
                    entity_id: None,
                    source: None,
                },
            )
        }
    } else if previous_raw <= max_value {
        Ok((max_value - previous_raw) + current_raw)
    } else {
        let deficit = previous_raw - max_value;
        if current_raw >= deficit {
            Ok(current_raw - deficit)
        } else {
            Err(
                SensorError::CounterOverflowUnrepresentable {
                    previous_raw,
                    current_raw,
                    max_value,
                    entity_id: None,
                    source: None,
                },
            )
        }
    }
}

/// A bounded ring of recent records.  The buffer never grows past the
/// capacity it was configured with; once full, the oldest record is evicted
/// to make room for the newest.
pub struct RecordBuffer {
    records: Vec<Record>,
    capacity: usize,
}

impl View for RecordBuffer {
    type V = Seq<Record>;

    closed spec fn view(&self) -> Seq<Record> {
        self.records@
    }
}

impl RecordBuffer {
    /// The configured record budget.
    pub closed spec fn cap(&self) -> nat {
        self.capacity as nat
    }

    /// The buffer holds at most its configured capacity.
    pub open spec fn wf(&self) -> bool {
        self@.len() <= self.cap() && self.cap() >= 1
    }

    /// A fresh buffer with room for `capacity` records.
    pub fn new(capacity: usize) -> (r: RecordBuffer)
        requires
            capacity >= 1,
        ensures
            r@ == Seq::<Record>::empty(),
            r.cap() == capacity,
            r.wf(),
    {
        RecordBuffer { records: Vec::new(), capacity }
    }

    /// Stores one record, evicting the oldest when the buffer is full.
    pub fn push(&mut self, rec: Record)
        requires
            old(self).wf(),
        ensures
            final(self).wf(),
            final(self).cap() == old(self).cap(),
            old(self)@.len() < old(self).cap() ==> final(self)@ == old(self)@.push(rec),
            old(self)@.len() == old(self).cap() ==> final(self)@ == old(self)@.drop_first().push(
                rec,
            ),
    {
        if self.records.len() == self.capacity {
            self.records.remove(0);
            proof {
                assert(old(self)@.remove(0) =~= old(self)@.drop_first());
            }
        }
        self.records.push(rec);
    }

    /// How many records are held.
    pub fn len(&self) -> (n: usize)
        ensures
            n == self@.len(),
    {
        self.records.len()
    }

    /// The record at a position, oldest first.
    pub fn get(&self, i: usize) -> (r: &Record)
        requires
            i < self@.len(),
        ensures
            *r == self@[i as int],
    {
        &self.records[i]
    }
}

} // verus!
