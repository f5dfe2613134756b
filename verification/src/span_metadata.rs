//! What is stored for a live span: when it was entered, how deep it sits, and
//! the fields recorded against it.

use vstd::prelude::*;
use crate::fields::{record_from, Entry, FieldMap, FieldValue};

verus! {

/// The nanoseconds from `start` to `now`: none where the span was never
/// entered, and none where the clock reads earlier than at the start.
pub open spec fn elapsed(start: Option<u64>, now: u64) -> nat {
    match start {
        Some(s) => if now >= s {
            (now - s) as nat
        } else {
            0
        },
        None => 0,
    }
}

/// The depth of a span whose parent sits at `parent_depth`: one more, as far
/// as the counter reaches. A span without a stored parent has a parent depth
/// of zero.
pub open spec fn depth_below(parent_depth: u64) -> u64 {
    if parent_depth < u64::MAX {
        (parent_depth + 1) as u64
    } else {
        u64::MAX
    }
}

fn elapsed_since(start: Option<u64>, now: u64) -> (r: u64)
    ensures
        r == elapsed(start, now),
{
    match start {
        Some(s) => if now >= s {
            now - s
        } else {
            0
        },
        None => 0,
    }
}

/// What the tree layer stores for a live span. Times are nanoseconds on the
/// caller's monotonic clock.
#[derive(Debug)]
pub struct GraphMetadata {
    pub start_time: Option<u64>,
    pub fields: FieldMap,
}

impl GraphMetadata {
    /// The storage of a span that was just created: not entered, no fields.
    pub fn new() -> (r: Self)
        ensures
            r.start_time is None,
            r.fields@ == Seq::<Entry>::empty(),
            r.fields.wf(),
    {
        GraphMetadata { start_time: None, fields: FieldMap::new() }
    }

    /// Merges the recorded values into the fields, a later value overwriting
    /// an earlier one of the same name.
    pub fn record(&mut self, events: &Vec<(String, FieldValue)>)
        ensures
            final(self).fields@ == record_from(old(self).fields@, events@, 0),
            final(self).start_time == old(self).start_time,
            old(self).fields.wf() ==> final(self).fields.wf(),
    {
        self.fields.record(events);
    }

    /// Starts the timer at `now`; a timer that was running starts anew.
    pub fn enter(&mut self, now: u64)
        ensures
            final(self).start_time == Some(now),
            final(self).fields == old(self).fields,
    {
        self.start_time = Some(now);
    }

    /// The time since the span was entered, and its fields, which the storage
    /// no longer holds afterwards. The storage itself stays.
    pub fn exit(&mut self, now: u64) -> (r: (u64, FieldMap))
        ensures
            r.0 == elapsed(old(self).start_time, now),
            r.1@ == old(self).fields@,
            final(self).fields@ == Seq::<Entry>::empty(),
            final(self).fields.wf(),
            final(self).start_time == old(self).start_time,
    {
        let duration = elapsed_since(self.start_time, now);
        let fields = self.fields.take();
        (duration, fields)
    }
}

/// What the row layer stores for a live span. Times are nanoseconds since the
/// layer was made.
#[derive(Debug)]
pub struct CsvMetadata {
    pub start_time: Option<u64>,
    pub call_depth: u64,
    pub fields: FieldMap,
}

impl CsvMetadata {
    /// The storage of a span that was just created below a parent at
    /// `parent_depth`: not entered, no fields, one level deeper.
    pub fn new(parent_depth: u64) -> (r: Self)
        ensures
            r.start_time is None,
            r.call_depth == depth_below(parent_depth),
            r.fields@ == Seq::<Entry>::empty(),
            r.fields.wf(),
    {
        let call_depth = if parent_depth < u64::MAX {
            parent_depth + 1
        } else {
            u64::MAX
        };
        CsvMetadata { start_time: None, call_depth, fields: FieldMap::new() }
    }

    /// Merges the recorded values into the fields, a later value overwriting
    /// an earlier one of the same name.
    pub fn record(&mut self, events: &Vec<(String, FieldValue)>)
        ensures
            final(self).fields@ == record_from(old(self).fields@, events@, 0),
            final(self).start_time == old(self).start_time,
            final(self).call_depth == old(self).call_depth,
            old(self).fields.wf() ==> final(self).fields.wf(),
    {
        self.fields.record(events);
    }

    /// Starts the timer at `now`; a timer that was running starts anew.
    pub fn enter(&mut self, now: u64)
        ensures
            final(self).start_time == Some(now),
            final(self).call_depth == old(self).call_depth,
            final(self).fields == old(self).fields,
    {
        self.start_time = Some(now);
    }

    /// The time since the span was entered, its depth, and its fields, which
    /// the storage no longer holds afterwards. The storage itself stays.
    pub fn exit(&mut self, now: u64) -> (r: (u64, u64, FieldMap))
        ensures
            r.0 == elapsed(old(self).start_time, now),
            r.1 == old(self).call_depth,
            r.2@ == old(self).fields@,
            final(self).fields@ == Seq::<Entry>::empty(),
            final(self).fields.wf(),
            final(self).start_time == old(self).start_time,
            final(self).call_depth == old(self).call_depth,
    {
        let duration = elapsed_since(self.start_time, now);
        let fields = self.fields.take();
        (duration, self.call_depth, fields)
    }
}

} // verus!
