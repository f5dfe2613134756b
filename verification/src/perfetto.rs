//! The one kind of log event that is turned into a counter of a system-wide
//! trace: the throughput of an accelerator card.

use vstd::prelude::*;
use crate::fields::FieldValue;
use crate::text::str_eq;

verus! {

/// What a throughput event carries: the card it speaks of and its bits per
/// second.
#[derive(Debug)]
pub struct FpgaThroughputEvent {
    pub card: Option<String>,
    pub bps: u64,
}

/// What is to be done about a log event.
#[derive(Debug)]
pub enum Throughput {
    /// The event is of another kind.
    Ignored,
    /// The event is a throughput event that names no card.
    Invalid,
    /// The counter of `card` is to be set to `bps`.
    Sample { card: String, bps: u64 },
}

/// What has been gathered from an event, as mathematics.
pub struct Gathered {
    pub card: Option<Seq<char>>,
    pub bps: u64,
}

/// What is gathered after one more field: an unsigned `bps` sets the rate, a
/// string `card` names the card, and anything else is passed over.
pub open spec fn gather_one(g: Gathered, name: Seq<char>, value: FieldValue) -> Gathered {
    match value {
        FieldValue::U64(n) => if name == "bps"@ {
            Gathered { bps: n, ..g }
        } else {
            g
        },
        FieldValue::Str(s) => if name == "card"@ {
            Gathered { card: Some(s@), ..g }
        } else {
            g
        },
        _ => g,
    }
}

/// What is gathered after the fields `fields[from..]`, in order.
pub open spec fn gather_from(g: Gathered, fields: Seq<(String, FieldValue)>, from: int) -> Gathered
    decreases fields.len() - from,
{
    if from < 0 || from >= fields.len() {
        g
    } else {
        gather_from(gather_one(g, fields[from].0@, fields[from].1), fields, from + 1)
    }
}

impl View for FpgaThroughputEvent {
    type V = Gathered;

    open spec fn view(&self) -> Gathered {
        Gathered {
            card: match self.card {
                Some(c) => Some(c@),
                None => None,
            },
            bps: self.bps,
        }
    }
}

impl FpgaThroughputEvent {
    /// Nothing gathered yet: no card, and a rate of zero.
    pub fn new() -> (r: Self)
        ensures
            r@ == (Gathered { card: None, bps: 0 }),
    {
        FpgaThroughputEvent { card: None, bps: 0 }
    }

    /// Takes the rate from an unsigned field named `bps`.
    pub fn record_u64(&mut self, name: &str, value: u64)
        ensures
            final(self)@ == gather_one(old(self)@, name@, FieldValue::U64(value)),
    {
        if str_eq(name, "bps") {
            self.bps = value;
        }
    }

    /// Takes the card from a string field named `card`.
    pub fn record_str(&mut self, name: &str, value: &str)
        ensures
            final(self)@.bps == old(self)@.bps,
            final(self)@.card == (if name@ == "card"@ {
                Some(value@)
            } else {
                old(self)@.card
            }),
    {
        if str_eq(name, "card") {
            self.card = Some(String::from_str(value));
        }
    }
}

/// What is to be done about the log event named `event_name` with the given
/// fields: only an event named `fpga_throughput` counts, and it needs a card.
pub open spec fn throughput_of(event_name: Seq<char>, fields: Seq<(String, FieldValue)>) -> (
    bool,
    Gathered,
) {
    (event_name == "fpga_throughput"@, gather_from(Gathered { card: None, bps: 0 }, fields, 0))
}

/// Decides what is to be done about a log event.
pub fn on_event(event_name: &str, fields: &Vec<(String, FieldValue)>) -> (r: Throughput)
    ensures
        match r {
            Throughput::Ignored => !throughput_of(event_name@, fields@).0,
            Throughput::Invalid => throughput_of(event_name@, fields@).0 && throughput_of(
                event_name@,
                fields@,
            ).1.card is None,
            Throughput::Sample { card, bps } => throughput_of(event_name@, fields@).0
                && throughput_of(event_name@, fields@).1 == (Gathered { card: Some(card@), bps }),
        },
{
    if !str_eq(event_name, "fpga_throughput") {
        return Throughput::Ignored;
    }
    let mut data = FpgaThroughputEvent::new();
    let mut i: usize = 0;
    while i < fields.len()
        invariant
            i <= fields@.len(),
            gather_from(data@, fields@, i as int) == gather_from(
                Gathered { card: None, bps: 0 },
                fields@,
                0,
            ),
        decreases fields@.len() - i,
    {
        match &fields[i].1 {
            FieldValue::U64(n) => data.record_u64(fields[i].0.as_str(), *n),
            FieldValue::Str(s) => data.record_str(fields[i].0.as_str(), s.as_str()),
            _ => {},
        }
        i = i + 1;
    }
    match data.card {
        Some(card) => Throughput::Sample { card, bps: data.bps },
        None => Throughput::Invalid,
    }
}

} // verus!
