//! One row of text per completed span, for analysis in a table.

use vstd::prelude::*;
use crate::error::TraceError;
use crate::fields::{record_from, Entry, FieldMap, FieldValue};
use crate::span_metadata::{depth_below, elapsed, CsvMetadata};
use crate::storage_utils::{insert_to_span_storage, with_span_storage_mut, SpanStorage};
use crate::text::{decimal_text, push_decimal};

verus! {

/// What one completed span has to say.
#[derive(Debug)]
pub struct LogRow {
    pub id: u64,
    /// The id of the parent; zero for a root.
    pub parent_id: u64,
    pub elapsed_ns: u64,
    pub span_name: String,
    pub file_name: String,
    pub call_depth: u64,
    pub fields: FieldMap,
}

/// A row as mathematics.
pub struct RowView {
    pub id: u64,
    pub parent_id: u64,
    pub elapsed_ns: u64,
    pub span_name: Seq<char>,
    pub file_name: Seq<char>,
    pub call_depth: u64,
    pub fields: Seq<Entry>,
}

impl View for LogRow {
    type V = RowView;

    open spec fn view(&self) -> RowView {
        RowView {
            id: self.id,
            parent_id: self.parent_id,
            elapsed_ns: self.elapsed_ns,
            span_name: self.span_name@,
            file_name: self.file_name@,
            call_depth: self.call_depth,
            fields: self.fields@,
        }
    }
}

/// The entries from `from` on as `"name":"value"`, with a semicolon and a
/// blank between two of them; no comma, so that the column stays one column.
pub open spec fn pairs_text(s: Seq<Entry>, from: int) -> Seq<char>
    decreases s.len() - from,
{
    if from < 0 || from >= s.len() {
        Seq::empty()
    } else {
        (if from > 0 {
            "; "@
        } else {
            Seq::empty()
        }) + "\""@ + s[from].0 + "\":\""@ + s[from].1 + "\""@ + pairs_text(s, from + 1)
    }
}

/// The columns of a row, separated by commas: id, parent id, elapsed
/// nanoseconds, span name, file name, call depth, and the fields in braces.
pub open spec fn row_text(row: RowView) -> Seq<char> {
    decimal_text(row.id as nat) + ","@ + decimal_text(row.parent_id as nat) + ","@ + decimal_text(
        row.elapsed_ns as nat,
    ) + ","@ + row.span_name + ","@ + row.file_name + ","@ + decimal_text(row.call_depth as nat)
        + ",{"@ + pairs_text(row.fields, 0) + "}"@
}

impl LogRow {
    /// The first line of the output: the names of the columns.
    pub fn header() -> (text: &'static str)
        ensures
            text@ == "id,parent_id,elapsed_ns,span_name,file_name,call_depth,metadata\n"@,
    {
        "id,parent_id,elapsed_ns,span_name,file_name,call_depth,metadata\n"
    }

    /// The row as text, without a newline.
    pub fn format(&self) -> (text: String)
        ensures
            text@ == row_text(self@),
    {
        let mut text = String::new();
        push_decimal(&mut text, self.id as u128);
        text.append(",");
        push_decimal(&mut text, self.parent_id as u128);
        text.append(",");
        push_decimal(&mut text, self.elapsed_ns as u128);
        text.append(",");
        text.append(self.span_name.as_str());
        text.append(",");
        text.append(self.file_name.as_str());
        text.append(",");
        push_decimal(&mut text, self.call_depth as u128);
        text.append(",{");
        let ghost opened = text@;
        assert(opened =~= decimal_text(self.id as nat) + ","@ + decimal_text(self.parent_id as nat)
            + ","@ + decimal_text(self.elapsed_ns as nat) + ","@ + self.span_name@ + ","@
            + self.file_name@ + ","@ + decimal_text(self.call_depth as nat) + ",{"@);
        let n = self.fields.len();
        let mut i: usize = 0;
        while i < n
            invariant
                n == self.fields@.len(),
                i <= n,
                text@ + pairs_text(self.fields@, i as int) == opened + pairs_text(self.fields@, 0),
            decreases n - i,
        {
            let ghost before = text@;
            if i > 0 {
                text.append("; ");
            }
            text.append("\"");
            text.append(self.fields.key_at(i).as_str());
            text.append("\":\"");
            text.append(self.fields.value_at(i).as_str());
            text.append("\"");
            assert(text@ + pairs_text(self.fields@, i + 1) =~= before + pairs_text(
                self.fields@,
                i as int,
            ));
            i = i + 1;
        }
        assert(text@ =~= opened + pairs_text(self.fields@, 0));
        text.append("}");
        assert(text@ =~= row_text(self@));
        text
    }
}

/// What the row layer stores for a live span.
#[derive(Debug)]
pub struct CsvSpan {
    pub name: String,
    pub file_name: String,
    /// The id of the span's parent; zero for a root.
    pub parent_id: u64,
    pub storage: CsvMetadata,
}

/// The storage of a live span as mathematics.
pub struct SpanView {
    pub name: Seq<char>,
    pub file_name: Seq<char>,
    pub parent_id: u64,
    pub start_time: Option<u64>,
    pub call_depth: u64,
    pub fields: Seq<Entry>,
}

impl View for CsvSpan {
    type V = SpanView;

    open spec fn view(&self) -> SpanView {
        SpanView {
            name: self.name@,
            file_name: self.file_name@,
            parent_id: self.parent_id,
            start_time: self.storage.start_time,
            call_depth: self.storage.call_depth,
            fields: self.storage.fields@,
        }
    }
}

/// The storage of each live span.
pub type Spans = Map<u64, SpanView>;

/// The depth stored for the parent of a new span: that of the parent's
/// storage, and zero where the span has no parent or the parent no storage.
pub open spec fn parent_depth(spans: Spans, parent: Option<u64>) -> u64 {
    match parent {
        Some(p) => if spans.dom().contains(p) {
            spans[p].call_depth
        } else {
            0
        },
        None => 0,
    }
}

/// The id written for a parent: its own, and zero for none.
pub open spec fn parent_or_zero(parent: Option<u64>) -> u64 {
    match parent {
        Some(p) => p,
        None => 0,
    }
}

/// The storage after the span `id` was created: not entered, one level below
/// its parent, with the fields it was created with.
pub open spec fn after_create(
    spans: Spans,
    id: u64,
    parent: Option<u64>,
    name: Seq<char>,
    file_name: Seq<char>,
    fields: Seq<(String, FieldValue)>,
) -> Spans {
    spans.insert(
        id,
        SpanView {
            name,
            file_name,
            parent_id: parent_or_zero(parent),
            start_time: None,
            call_depth: depth_below(parent_depth(spans, parent)),
            fields: record_from(Seq::empty(), fields, 0),
        },
    )
}

/// The storage after values were recorded against the span `id`; unchanged
/// where nothing is stored for `id`.
pub open spec fn after_record(spans: Spans, id: u64, fields: Seq<(String, FieldValue)>) -> Spans {
    if spans.dom().contains(id) {
        spans.insert(id, SpanView { fields: record_from(spans[id].fields, fields, 0), ..spans[id] })
    } else {
        spans
    }
}

/// The storage after the span `id` was entered at `now`; unchanged where
/// nothing is stored for `id`.
pub open spec fn after_enter(spans: Spans, id: u64, now: u64) -> Spans {
    if spans.dom().contains(id) {
        spans.insert(id, SpanView { start_time: Some(now), ..spans[id] })
    } else {
        spans
    }
}

/// The storage after the span `id` was left: its fields have gone into its
/// row; unchanged where nothing is stored for `id`.
pub open spec fn after_exit(spans: Spans, id: u64) -> Spans {
    if spans.dom().contains(id) {
        spans.insert(id, SpanView { fields: Seq::empty(), ..spans[id] })
    } else {
        spans
    }
}

/// The row of the span `id` with storage `span`, left at `now`.
pub open spec fn exit_row(span: SpanView, id: u64, now: u64) -> RowView {
    RowView {
        id,
        parent_id: span.parent_id,
        elapsed_ns: elapsed(span.start_time, now) as u64,
        span_name: span.name,
        file_name: span.file_name,
        call_depth: span.call_depth,
        fields: span.fields,
    }
}

/// The layer that writes one row per completed span. It keeps storage for
/// each live span; the caller writes the rows out.
pub struct Layer {
    spans: SpanStorage<CsvSpan>,
}

impl View for Layer {
    type V = Spans;

    closed spec fn view(&self) -> Spans {
        self.spans@.map_values(|span: CsvSpan| span@)
    }
}

impl Layer {
    /// A layer with no live span.
    pub fn new() -> (r: Self)
        ensures
            r@ == Map::<u64, SpanView>::empty(),
    {
        let r = Layer { spans: SpanStorage::new() };
        assert(r@ =~= Map::<u64, SpanView>::empty());
        r
    }

    /// Gives the new span `id` its storage: one level below its parent, with
    /// the fields it was created with.
    pub fn on_new_span(
        &mut self,
        id: u64,
        parent: Option<u64>,
        name: String,
        file_name: String,
        fields: &Vec<(String, FieldValue)>,
    )
        ensures
            final(self)@ == after_create(old(self)@, id, parent, name@, file_name@, fields@),
    {
        let above: u64 = match parent {
            Some(p) => match self.spans.get(p) {
                Some(span) => span.storage.call_depth,
                None => 0,
            },
            None => 0,
        };
        assert(above == parent_depth(old(self)@, parent));
        let parent_id: u64 = match parent {
            Some(p) => p,
            None => 0,
        };
        let mut storage = CsvMetadata::new(above);
        storage.record(fields);
        let span = CsvSpan { name, file_name, parent_id, storage };
        insert_to_span_storage(&mut self.spans, id, span);
        assert(self@ =~= old(self)@.insert(id, span@));
    }

    /// Merges recorded values into the fields of the span `id`. Where nothing
    /// is stored for `id`, nothing changes and the error says so.
    pub fn on_record(&mut self, id: u64, fields: &Vec<(String, FieldValue)>) -> (r: Result<
        (),
        TraceError,
    >)
        ensures
            final(self)@ == after_record(old(self)@, id, fields@),
            match r {
                Ok(_) => old(self)@.dom().contains(id),
                Err(e) => e == TraceError::SpanNotFound && !old(self)@.dom().contains(id),
            },
    {
        let change = |span: CsvSpan| -> (out: CsvSpan)
            ensures
                out@ == (SpanView { fields: record_from(span@.fields, fields@, 0), ..span@ }),
            {
                let mut out = span;
                out.storage.record(fields);
                out
            };
        let r = with_span_storage_mut(&mut self.spans, id, change);
        proof {
            if r is Ok {
                assert(self@ =~= old(self)@.insert(id, self.spans@[id]@));
            } else {
                assert(self@ =~= old(self)@);
            }
        }
        r
    }

    /// Starts the timer of the span `id` at `now`. Where nothing is stored for
    /// `id`, nothing changes and the error says so.
    pub fn on_enter(&mut self, id: u64, now: u64) -> (r: Result<(), TraceError>)
        ensures
            final(self)@ == after_enter(old(self)@, id, now),
            match r {
                Ok(_) => old(self)@.dom().contains(id),
                Err(e) => e == TraceError::SpanNotFound && !old(self)@.dom().contains(id),
            },
    {
        let change = |span: CsvSpan| -> (out: CsvSpan)
            ensures
                out@ == (SpanView { start_time: Some(now), ..span@ }),
            {
                let mut out = span;
                out.storage.enter(now);
                out
            };
        let r = with_span_storage_mut(&mut self.spans, id, change);
        proof {
            if r is Ok {
                assert(self@ =~= old(self)@.insert(id, self.spans@[id]@));
            } else {
                assert(self@ =~= old(self)@);
            }
        }
        r
    }

    /// The row of the span `id`, left at `now`. The span's fields go into the
    /// row and out of its storage. Where nothing is stored for `id`, nothing
    /// changes and the error says so.
    pub fn on_exit(&mut self, id: u64, now: u64) -> (r: Result<LogRow, TraceError>)
        ensures
            final(self)@ == after_exit(old(self)@, id),
            match r {
                Ok(row) => old(self)@.dom().contains(id) && row@ == exit_row(
                    old(self)@[id],
                    id,
                    now,
                ),
                Err(e) => e == TraceError::SpanNotFound && !old(self)@.dom().contains(id),
            },
    {
        let mut span = match self.spans.remove(id) {
            Some(span) => span,
            None => {
                assert(self@ =~= old(self)@);
                return Err(TraceError::SpanNotFound);
            },
        };
        let ghost before = span@;
        assert(before == old(self)@[id]);
        let (elapsed_ns, call_depth, fields) = span.storage.exit(now);
        let row = LogRow {
            id,
            parent_id: span.parent_id,
            elapsed_ns,
            span_name: span.name.clone(),
            file_name: span.file_name.clone(),
            call_depth,
            fields,
        };
        insert_to_span_storage(&mut self.spans, id, span);
        assert(self@ =~= old(self)@.insert(id, SpanView { fields: Seq::empty(), ..before }));
        Ok(row)
    }

    /// Drops the storage of the span `id`.
    pub fn on_close(&mut self, id: u64)
        ensures
            final(self)@ == old(self)@.remove(id),
    {
        let _ = self.spans.remove(id);
        assert(self@ =~= old(self)@.remove(id));
    }
}

} // verus!
