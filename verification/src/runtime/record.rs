//! Records that are read from topics.
use crate::time::Timestamp;
use crate::types::{text_view, Row, RowMetadata, RowMetadataView, RowView};
use crate::value::{views, Value, ValueView};
use vstd::prelude::*;

verus! {

/// A record of a topic.
#[derive(Debug)]
pub struct Record {
    pub key: Option<String>,
    pub value: String,
    pub topic: String,
    pub partition: u32,
    pub offset: u64,
    pub timestamp: Timestamp,
}

/// What a `Record` holds.
pub struct RecordView {
    pub key: Option<Seq<char>>,
    pub value: Seq<char>,
    pub topic: Seq<char>,
    pub partition: u32,
    pub offset: u64,
    pub timestamp: Timestamp,
}

impl View for Record {
    type V = RecordView;

    open spec fn view(&self) -> RecordView {
        RecordView {
            key: text_view(self.key),
            value: self.value@,
            topic: self.topic@,
            partition: self.partition,
            offset: self.offset,
            timestamp: self.timestamp,
        }
    }
}

/// The row that a record is taken in as: its text as the only value, and where it
/// comes from.
pub open spec fn record_row(r: RecordView) -> RowView {
    RowView {
        values: seq![ValueView::String(r.value)],
        metadata: RowMetadataView {
            topic: Some(r.topic),
            partition: Some(r.partition),
            offset: Some(r.offset),
            timestamp: Some(r.timestamp),
            key: r.key,
            window_start: None,
            window_end: None,
        },
    }
}

/// The rows that records are taken in as.
pub open spec fn record_rows(records: Seq<RecordView>) -> Seq<RowView> {
    records.map_values(|r: RecordView| record_row(r))
}

impl Record {
    /// The row that the record is taken in as.
    pub fn into_row(self) -> (r: Row)
        ensures
            r@ == record_row(self@),
    {
        let mut values: Vec<Value> = Vec::new();
        let ghost text = self.value@;
        values.push(Value::String(self.value));
        proof {
            assert(views(values@) =~= seq![ValueView::String(text)]);
        }
        Row::with_metadata(
            values,
            RowMetadata {
                topic: Some(self.topic),
                partition: Some(self.partition),
                offset: Some(self.offset),
                timestamp: Some(self.timestamp),
                key: self.key,
                window_start: None,
                window_end: None,
            },
        )
    }
}

/// The rows that records are taken in as, in their order.
pub fn into_rows(records: Vec<Record>) -> (r: Vec<Row>)
    ensures
        views(r@) == record_rows(views(records@)),
{
    let ghost all = views(records@);
    let mut rows: Vec<Row> = Vec::new();
    for record in it: records
        invariant
            all == views(it.seq()),
            views(rows@) == record_rows(all.take(it.index() as int)),
    {
        let ghost k = it.index() as int;
        let ghost before = views(rows@);
        assert(record@ == all[k]);
        let row = record.into_row();
        let ghost held = row@;
        rows.push(row);
        proof {
            assert(views(rows@) =~= before.push(held));
            assert(all.take(k + 1) =~= all.take(k).push(all[k]));
            assert(record_rows(all.take(k + 1)) =~= before.push(held));
        }
    }
    proof {
        assert(all.take(all.len() as int) =~= all);
    }
    rows
}

} // verus!
