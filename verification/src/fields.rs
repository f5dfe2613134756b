//! The metadata of a span: field names mapped to the text of their values,
//! kept in ascending order of the names.

use vstd::prelude::*;
use crate::text::{decimal_text, lex_lt, push_decimal, push_signed, signed_text, str_eq, str_lt};

verus! {

/// One entry of a field map as mathematics: the name and the value's text.
pub type Entry = (Seq<char>, Seq<char>);

/// The names of `s` ascend strictly, so no name occurs twice.
pub open spec fn keys_ascend(s: Seq<Entry>) -> bool {
    forall|i: int, j: int| 0 <= i < j < s.len() ==> lex_lt(#[trigger] s[i].0, #[trigger] s[j].0)
}

/// `s` with `key` bound to `value`: the entry of that name is replaced where
/// there is one, and otherwise the new entry goes before the first greater name.
pub open spec fn upsert(s: Seq<Entry>, key: Seq<char>, value: Seq<char>) -> Seq<Entry>
    decreases s.len(),
{
    if s.len() == 0 {
        seq![(key, value)]
    } else if s[0].0 == key {
        seq![(key, value)] + s.drop_first()
    } else if lex_lt(key, s[0].0) {
        seq![(key, value)] + s
    } else {
        seq![s[0]] + upsert(s.drop_first(), key, value)
    }
}

/// What `s` binds `key` to, if anything: the first entry of that name.
pub open spec fn lookup(s: Seq<Entry>, key: Seq<char>) -> Option<Seq<char>>
    decreases s.len(),
{
    if s.len() == 0 {
        None
    } else if s[0].0 == key {
        Some(s[0].1)
    } else {
        lookup(s.drop_first(), key)
    }
}

/// A value recorded against a span, as the instrumented program typed it.
#[derive(Debug)]
pub enum FieldValue {
    /// A string, taken as it is.
    Str(String),
    /// An unsigned integer, written in base ten.
    U64(u64),
    /// A signed integer, written in base ten.
    I64(i64),
    /// A boolean, written `true` or `false`.
    Bool(bool),
    /// Any other value, already rendered by its debug formatter.
    Debug(String),
}

/// The text under which a value is stored.
pub open spec fn value_text(v: FieldValue) -> Seq<char> {
    match v {
        FieldValue::Str(s) => s@,
        FieldValue::U64(n) => decimal_text(n as nat),
        FieldValue::I64(i) => signed_text(i as int),
        FieldValue::Bool(b) => if b {
            "true"@
        } else {
            "false"@
        },
        FieldValue::Debug(s) => s@,
    }
}

/// `s` after recording `events[from..]` in order; a later event of the same
/// name overwrites an earlier one.
pub open spec fn record_from(s: Seq<Entry>, events: Seq<(String, FieldValue)>, from: int) -> Seq<Entry>
    decreases events.len() - from,
{
    if from < 0 || from >= events.len() {
        s
    } else {
        record_from(upsert(s, events[from].0@, value_text(events[from].1)), events, from + 1)
    }
}

/// An ordered mapping from field names to value texts.
#[derive(Debug)]
pub struct FieldMap {
    entries: Vec<(String, String)>,
}

impl View for FieldMap {
    type V = Seq<Entry>;

    closed spec fn view(&self) -> Seq<Entry> {
        Seq::new(self.entries@.len(), |i: int| (self.entries@[i].0@, self.entries@[i].1@))
    }
}

impl FieldMap {
    /// The names ascend strictly. `new` establishes this and every method keeps it.
    pub open spec fn wf(&self) -> bool {
        keys_ascend(self@)
    }

    /// The empty map.
    pub fn new() -> (r: Self)
        ensures
            r@ == Seq::<Entry>::empty(),
            r.wf(),
    {
        let r = FieldMap { entries: Vec::new() };
        assert(r@ =~= Seq::<Entry>::empty());
        r
    }

    /// The number of names bound.
    pub fn len(&self) -> (n: usize)
        ensures
            n == self@.len(),
    {
        self.entries.len()
    }

    /// Whether no name is bound.
    pub fn is_empty(&self) -> (b: bool)
        ensures
            b == (self@.len() == 0),
    {
        self.entries.len() == 0
    }

    /// The name of the `i`-th entry in ascending order.
    pub fn key_at(&self, i: usize) -> (k: &String)
        requires
            i < self@.len(),
        ensures
            k@ == self@[i as int].0,
    {
        &self.entries[i].0
    }

    /// The value text of the `i`-th entry in ascending order of the names.
    pub fn value_at(&self, i: usize) -> (v: &String)
        requires
            i < self@.len(),
        ensures
            v@ == self@[i as int].1,
    {
        &self.entries[i].1
    }

    /// The value text bound to `key`, if any.
    pub fn get(&self, key: &str) -> (r: Option<&String>)
        ensures
            match r {
                Some(v) => lookup(self@, key@) == Some(v@),
                None => lookup(self@, key@) is None,
            },
    {
        let mut i: usize = 0;
        assert(self@.skip(0) =~= self@);
        while i < self.entries.len()
            invariant
                i <= self.entries@.len(),
                lookup(self@, key@) == lookup(self@.skip(i as int), key@),
            decreases self.entries@.len() - i,
        {
            assert(self@.skip(i as int).drop_first() =~= self@.skip(i + 1));
            if str_eq(self.entries[i].0.as_str(), key) {
                return Some(&self.entries[i].1);
            }
            i = i + 1;
        }
        None
    }

    /// Binds `key` to `value`, replacing what `key` was bound to before.
    pub fn insert(&mut self, key: String, value: String)
        ensures
            final(self)@ == upsert(old(self)@, key@, value@),
            old(self).wf() ==> final(self).wf(),
    {
        let mut i: usize = 0;
        let ghost before = self@;
        while i < self.entries.len() && str_lt(self.entries[i].0.as_str(), key.as_str())
            invariant
                self@ == before,
                i <= self.entries@.len(),
                forall|j: int| 0 <= j < i ==> lex_lt(#[trigger] before[j].0, key@),
            decreases self.entries@.len() - i,
        {
            i = i + 1;
        }
        let ghost k = key@;
        let ghost v = value@;
        if i < self.entries.len() && self.entries[i].0 == key {
            self.entries.set(i, (key, value));
            proof {
                lemma_upsert_at(before, k, v, i as int);
                assert(self@ =~= before.update(i as int, (k, v)));
            }
        } else {
            self.entries.insert(i, (key, value));
            proof {
                lemma_upsert_at(before, k, v, i as int);
                assert(self@ =~= before.insert(i as int, (k, v)));
            }
        }
        proof {
            if keys_ascend(before) {
                lemma_upsert_keeps_order(before, k, v);
            }
        }
    }

    /// Records one string value.
    pub fn record_str(&mut self, name: &str, value: &str)
        ensures
            final(self)@ == upsert(old(self)@, name@, value@),
            old(self).wf() ==> final(self).wf(),
    {
        self.insert(String::from_str(name), String::from_str(value));
    }

    /// Records one unsigned integer in base ten.
    pub fn record_u64(&mut self, name: &str, value: u64)
        ensures
            final(self)@ == upsert(old(self)@, name@, decimal_text(value as nat)),
            old(self).wf() ==> final(self).wf(),
    {
        let mut text = String::new();
        push_decimal(&mut text, value as u128);
        assert(text@ =~= decimal_text(value as nat));
        self.insert(String::from_str(name), text);
    }

    /// Records one signed integer in base ten.
    pub fn record_i64(&mut self, name: &str, value: i64)
        ensures
            final(self)@ == upsert(old(self)@, name@, signed_text(value as int)),
            old(self).wf() ==> final(self).wf(),
    {
        let mut text = String::new();
        push_signed(&mut text, value);
        assert(text@ =~= signed_text(value as int));
        self.insert(String::from_str(name), text);
    }

    /// Records one boolean as `true` or `false`.
    pub fn record_bool(&mut self, name: &str, value: bool)
        ensures
            final(self)@ == upsert(old(self)@, name@, value_text(FieldValue::Bool(value))),
            old(self).wf() ==> final(self).wf(),
    {
        let text = if value {
            String::from_str("true")
        } else {
            String::from_str("false")
        };
        self.insert(String::from_str(name), text);
    }

    /// Records one value whose debug rendering is `rendered`.
    pub fn record_debug(&mut self, name: &str, rendered: &str)
        ensures
            final(self)@ == upsert(old(self)@, name@, rendered@),
            old(self).wf() ==> final(self).wf(),
    {
        self.insert(String::from_str(name), String::from_str(rendered));
    }

    /// Records one typed value under `name`.
    pub fn record_value(&mut self, name: &str, value: &FieldValue)
        ensures
            final(self)@ == upsert(old(self)@, name@, value_text(*value)),
            old(self).wf() ==> final(self).wf(),
    {
        match value {
            FieldValue::Str(s) => self.record_str(name, s.as_str()),
            FieldValue::U64(n) => self.record_u64(name, *n),
            FieldValue::I64(i) => self.record_i64(name, *i),
            FieldValue::Bool(b) => self.record_bool(name, *b),
            FieldValue::Debug(s) => self.record_debug(name, s.as_str()),
        }
    }

    /// Records a pass of typed values in their order; within the pass and
    /// against what was there before, the last value of a name wins.
    pub fn record(&mut self, events: &Vec<(String, FieldValue)>)
        ensures
            final(self)@ == record_from(old(self)@, events@, 0),
            old(self).wf() ==> final(self).wf(),
    {
        let mut i: usize = 0;
        while i < events.len()
            invariant
                i <= events@.len(),
                record_from(self@, events@, i as int) == record_from(old(self)@, events@, 0),
                old(self).wf() ==> self.wf(),
            decreases events@.len() - i,
        {
            self.record_value(events[i].0.as_str(), &events[i].1);
            i = i + 1;
        }
    }

    /// Hands the entries over and leaves the map empty.
    pub fn take(&mut self) -> (r: Self)
        ensures
            r@ == old(self)@,
            final(self)@ == Seq::<Entry>::empty(),
            final(self).wf(),
    {
        let mut taken = FieldMap::new();
        std::mem::swap(self, &mut taken);
        taken
    }
}

impl Clone for FieldMap {
    fn clone(&self) -> (r: Self)
        ensures
            r@ == self@,
    {
        let mut entries: Vec<(String, String)> = Vec::new();
        let mut i: usize = 0;
        while i < self.entries.len()
            invariant
                i <= self.entries@.len(),
                entries@.len() == i,
                forall|j: int| 0 <= j < i ==> entries@[j].0@ == self.entries@[j].0@ && entries@[j].1@ == self.entries@[j].1@,
            decreases self.entries@.len() - i,
        {
            entries.push((self.entries[i].0.clone(), self.entries[i].1.clone()));
            i = i + 1;
        }
        let r = FieldMap { entries };
        assert(r@ =~= self@);
        r
    }
}

/// Where every name before position `i` is less than `key`, the upsert acts at `i`:
/// it replaces the entry there if that one has the name, and otherwise inserts
/// before it.
pub proof fn lemma_upsert_at(s: Seq<Entry>, key: Seq<char>, value: Seq<char>, i: int)
    requires
        0 <= i <= s.len(),
        forall|j: int| 0 <= j < i ==> lex_lt(#[trigger] s[j].0, key),
        i < s.len() ==> !lex_lt(s[i].0, key),
    ensures
        upsert(s, key, value) == if i < s.len() && s[i].0 == key {
            s.update(i, (key, value))
        } else {
            s.insert(i, (key, value))
        },
    decreases i,
{
    if i == 0 {
        if s.len() == 0 {
            assert(upsert(s, key, value) =~= s.insert(0, (key, value)));
        } else if s[0].0 == key {
            assert(upsert(s, key, value) =~= s.update(0, (key, value)));
        } else {
            crate::text::lemma_lex_lt_total(key, s[0].0);
            assert(upsert(s, key, value) =~= s.insert(0, (key, value)));
        }
    } else {
        let rest = s.drop_first();
        assert(lex_lt(s[0].0, key));
        crate::text::lemma_lex_lt_irreflexive(key);
        if lex_lt(key, s[0].0) {
            crate::text::lemma_lex_lt_transitive(key, s[0].0, key);
        }
        assert forall|j: int| 0 <= j < i - 1 implies lex_lt(#[trigger] rest[j].0, key) by {
            assert(rest[j] == s[j + 1]);
        }
        lemma_upsert_at(rest, key, value, i - 1);
        if i < s.len() && s[i].0 == key {
            assert(seq![s[0]] + rest.update(i - 1, (key, value)) =~= s.update(i, (key, value)));
        } else {
            assert(seq![s[0]] + rest.insert(i - 1, (key, value)) =~= s.insert(i, (key, value)));
        }
    }
}

/// An upsert into ascending names leaves them ascending.
pub proof fn lemma_upsert_keeps_order(s: Seq<Entry>, key: Seq<char>, value: Seq<char>)
    requires
        keys_ascend(s),
    ensures
        keys_ascend(upsert(s, key, value)),
    decreases s.len(),
{
    let r = upsert(s, key, value);
    if s.len() == 0 {
    } else if s[0].0 == key {
        assert forall|i: int, j: int| 0 <= i < j < r.len() implies lex_lt(
            #[trigger] r[i].0,
            #[trigger] r[j].0,
        ) by {
            assert(r[j] == s[j]);
            assert(r[i].0 == s[i].0);
        }
    } else if lex_lt(key, s[0].0) {
        assert forall|i: int, j: int| 0 <= i < j < r.len() implies lex_lt(
            #[trigger] r[i].0,
            #[trigger] r[j].0,
        ) by {
            assert(r[j] == s[j - 1]);
            if i == 0 {
                if j > 1 {
                    crate::text::lemma_lex_lt_transitive(key, s[0].0, s[j - 1].0);
                }
            } else {
                assert(r[i] == s[i - 1]);
            }
        }
    } else {
        let rest = s.drop_first();
        assert forall|i: int, j: int| 0 <= i < j < rest.len() implies lex_lt(
            #[trigger] rest[i].0,
            #[trigger] rest[j].0,
        ) by {
            assert(rest[i] == s[i + 1] && rest[j] == s[j + 1]);
        }
        lemma_upsert_keeps_order(rest, key, value);
        let tail = upsert(rest, key, value);
        lemma_upsert_members(rest, key, value);
        crate::text::lemma_lex_lt_total(key, s[0].0);
        assert forall|i: int, j: int| 0 <= i < j < r.len() implies lex_lt(
            #[trigger] r[i].0,
            #[trigger] r[j].0,
        ) by {
            assert(r[j] == tail[j - 1]);
            if i == 0 {
                let name = tail[j - 1].0;
                if name != key {
                    let m = choose|m: int| 0 <= m < rest.len() && rest[m].0 == name;
                    assert(rest[m] == s[m + 1]);
                }
            } else {
                assert(r[i] == tail[i - 1]);
            }
        }
    }
}

/// Every name of an upsert's result is the new name or one that was there.
pub proof fn lemma_upsert_members(s: Seq<Entry>, key: Seq<char>, value: Seq<char>)
    ensures
        forall|j: int|
            0 <= j < upsert(s, key, value).len() ==> (#[trigger] upsert(s, key, value)[j]).0 == key
                || exists|m: int| 0 <= m < s.len() && s[m].0 == upsert(s, key, value)[j].0,
    decreases s.len(),
{
    let r = upsert(s, key, value);
    if s.len() == 0 {
    } else if s[0].0 == key {
        assert forall|j: int| 0 <= j < r.len() implies (#[trigger] r[j]).0 == key || exists|m: int|
            0 <= m < s.len() && s[m].0 == r[j].0 by {
            if j > 0 {
                assert(r[j] == s[j]);
            }
        }
    } else if lex_lt(key, s[0].0) {
        assert forall|j: int| 0 <= j < r.len() implies (#[trigger] r[j]).0 == key || exists|m: int|
            0 <= m < s.len() && s[m].0 == r[j].0 by {
            if j > 0 {
                assert(r[j] == s[j - 1]);
            }
        }
    } else {
        let rest = s.drop_first();
        lemma_upsert_members(rest, key, value);
        let tail = upsert(rest, key, value);
        assert forall|j: int| 0 <= j < r.len() implies (#[trigger] r[j]).0 == key || exists|m: int|
            0 <= m < s.len() && s[m].0 == r[j].0 by {
            if j == 0 {
                assert(r[0] == s[0]);
            } else {
                assert(r[j] == tail[j - 1]);
                if tail[j - 1].0 != key {
                    let m = choose|m: int| 0 <= m < rest.len() && rest[m].0 == tail[j - 1].0;
                    assert(rest[m] == s[m + 1]);
                }
            }
        }
    }
}

/// After an upsert the name is bound to the new value, and every other name
/// is bound as before.
pub proof fn lemma_upsert_lookup(s: Seq<Entry>, key: Seq<char>, value: Seq<char>, other: Seq<char>)
    ensures
        lookup(upsert(s, key, value), key) == Some(value),
        other != key ==> lookup(upsert(s, key, value), other) == lookup(s, other),
    decreases s.len(),
{
    let r = upsert(s, key, value);
    if s.len() == 0 {
        assert(r.drop_first() =~= s);
    } else if s[0].0 == key {
        assert(r.drop_first() =~= s.drop_first());
    } else if lex_lt(key, s[0].0) {
        assert(r.drop_first() =~= s);
    } else {
        lemma_upsert_lookup(s.drop_first(), key, value, other);
        assert(r.drop_first() =~= upsert(s.drop_first(), key, value));
    }
}

} // verus!
