//! Performance counter readings per span: what is added up between entering
//! and leaving, and the table that shows it.

use vstd::prelude::*;
use crate::text::{decimal_text, push_decimal};

verus! {

/// One reading of a group of counters, a value per counter.
#[derive(Debug)]
pub struct PerfCountersValues(pub Vec<u64>);

/// The smaller of two lengths.
pub open spec fn shorter(a: nat, b: nat) -> nat {
    if a <= b {
        a
    } else {
        b
    }
}

/// How far a counter went from `from` to `to`; nothing where it went back.
pub open spec fn progress(to: u64, from: u64) -> u64 {
    if to >= from {
        (to - from) as u64
    } else {
        0
    }
}

/// A running sum with `more` added, as far as the counter reaches.
pub open spec fn raised(sum: u64, more: u64) -> u64 {
    if sum + more <= u64::MAX {
        (sum + more) as u64
    } else {
        u64::MAX
    }
}

/// Counter by counter, how far the reading `to` is beyond the reading
/// `from`, for as many counters as both hold.
pub open spec fn difference(to: Seq<u64>, from: Seq<u64>) -> Seq<u64> {
    Seq::new(shorter(to.len(), from.len()), |i: int| progress(to[i], from[i]))
}

/// Counter by counter, `sums` with `more` added; a sum that `more` has no
/// value for stays as it is.
pub open spec fn accumulated(sums: Seq<u64>, more: Seq<u64>) -> Seq<u64> {
    Seq::new(
        sums.len(),
        |i: int|
            if i < more.len() {
                raised(sums[i], more[i])
            } else {
                sums[i]
            },
    )
}

/// The lines of the table from row `from` on: four blanks, the name, a colon
/// and the value, for as many rows as there are both names and values.
pub open spec fn table_text(names: Seq<String>, values: Seq<u64>, from: int) -> Seq<char>
    decreases shorter(names.len(), values.len()) - from,
{
    if from < 0 || from >= shorter(names.len(), values.len()) {
        Seq::empty()
    } else {
        "    "@ + names[from]@ + ": "@ + decimal_text(values[from] as nat) + "\n"@ + table_text(
            names,
            values,
            from + 1,
        )
    }
}

impl PerfCountersValues {
    /// A reading of `size` counters that all stand at zero.
    pub fn zeros(size: usize) -> (r: Self)
        ensures
            r.0@ == Seq::new(size as nat, |i: int| 0u64),
    {
        let mut values: Vec<u64> = Vec::new();
        let mut i: usize = 0;
        while i < size
            invariant
                i <= size,
                values@ == Seq::new(i as nat, |k: int| 0u64),
            decreases size - i,
        {
            values.push(0);
            assert(values@ =~= Seq::new((i + 1) as nat, |k: int| 0u64));
            i = i + 1;
        }
        PerfCountersValues(values)
    }

    /// How far this reading is beyond `rhs`, counter by counter.
    pub fn sub(&self, rhs: &PerfCountersValues) -> (r: PerfCountersValues)
        ensures
            r.0@ == difference(self.0@, rhs.0@),
    {
        let n = if self.0.len() <= rhs.0.len() {
            self.0.len()
        } else {
            rhs.0.len()
        };
        let mut values: Vec<u64> = Vec::new();
        let mut i: usize = 0;
        while i < n
            invariant
                n == shorter(self.0@.len(), rhs.0@.len()),
                i <= n,
                values@.len() == i,
                forall|k: int| 0 <= k < i ==> values@[k] == progress(self.0@[k], rhs.0@[k]),
            decreases n - i,
        {
            values.push(self.0[i].saturating_sub(rhs.0[i]));
            i = i + 1;
        }
        assert(values@ =~= difference(self.0@, rhs.0@));
        PerfCountersValues(values)
    }

    /// Adds `rhs` to this reading, counter by counter.
    pub fn add_assign(&mut self, rhs: &PerfCountersValues)
        ensures
            final(self).0@ == accumulated(old(self).0@, rhs.0@),
    {
        let n = if self.0.len() <= rhs.0.len() {
            self.0.len()
        } else {
            rhs.0.len()
        };
        let mut i: usize = 0;
        while i < n
            invariant
                n == shorter(old(self).0@.len(), rhs.0@.len()),
                i <= n,
                self.0@.len() == old(self).0@.len(),
                forall|k: int| 0 <= k < i ==> self.0@[k] == raised(old(self).0@[k], rhs.0@[k]),
                forall|k: int| i <= k < self.0@.len() ==> self.0@[k] == old(self).0@[k],
            decreases n - i,
        {
            let sum = self.0[i].saturating_add(rhs.0[i]);
            self.0.set(i, sum);
            i = i + 1;
        }
        assert(self.0@ =~= accumulated(old(self).0@, rhs.0@));
    }
}

/// What is stored for a span: the counters added up over the times it was
/// entered and left, and the reading at the last entering.
#[derive(Debug)]
pub struct SpanData {
    pub aggregate: PerfCountersValues,
    pub last_enter: PerfCountersValues,
}

impl SpanData {
    /// The storage of a new span with `size` counters: nothing added up yet.
    pub fn new(size: usize) -> (r: Self)
        ensures
            r.aggregate.0@ == Seq::new(size as nat, |i: int| 0u64),
            r.last_enter.0@ == Seq::new(size as nat, |i: int| 0u64),
    {
        SpanData {
            aggregate: PerfCountersValues::zeros(size),
            last_enter: PerfCountersValues::zeros(size),
        }
    }

    /// Keeps the reading taken when the span is entered.
    pub fn on_enter(&mut self, counters: PerfCountersValues)
        ensures
            final(self).last_enter == counters,
            final(self).aggregate == old(self).aggregate,
    {
        self.last_enter = counters;
    }

    /// Adds what the counters gained since the span was entered.
    pub fn on_exit(&mut self, counters: PerfCountersValues)
        ensures
            final(self).aggregate.0@ == accumulated(
                old(self).aggregate.0@,
                difference(counters.0@, old(self).last_enter.0@),
            ),
            final(self).last_enter == old(self).last_enter,
    {
        let gained = counters.sub(&self.last_enter);
        self.aggregate.add_assign(&gained);
    }

    /// Appends to `out` one line for each counter: its name and what was
    /// added up for it.
    pub fn print_table(&self, field_names: &[String], out: &mut String)
        ensures
            final(out)@ == old(out)@ + table_text(field_names@, self.aggregate.0@, 0),
    {
        let n = if field_names.len() <= self.aggregate.0.len() {
            field_names.len()
        } else {
            self.aggregate.0.len()
        };
        let mut i: usize = 0;
        while i < n
            invariant
                n == shorter(field_names@.len(), self.aggregate.0@.len()),
                i <= n,
                out@ + table_text(field_names@, self.aggregate.0@, i as int) == old(out)@
                    + table_text(field_names@, self.aggregate.0@, 0),
            decreases n - i,
        {
            let ghost before = out@;
            out.append("    ");
            out.append(field_names[i].as_str());
            out.append(": ");
            push_decimal(out, self.aggregate.0[i] as u128);
            out.append("\n");
            assert(out@ + table_text(field_names@, self.aggregate.0@, i + 1) =~= before
                + table_text(field_names@, self.aggregate.0@, i as int));
            i = i + 1;
        }
        assert(out@ =~= old(out)@ + table_text(field_names@, self.aggregate.0@, 0));
    }
}

} // verus!
