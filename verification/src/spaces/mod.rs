//! The space-system values the SDK's logic reads: metadata maps, the env
//! contract, and the space and value shapes it carries.
//!
//! Floating-point payloads (box bounds, float metadata) are carried as their
//! IEEE-754 bit patterns, so every value here is a plain integer, string or
//! collection.

use vstd::prelude::*;

use crate::text::{lemma_text_lt_total, lemma_text_lt_transitive, same_text, text_less, text_lt};

pub mod request;

verus! {

/// One metadata value.
#[derive(Debug, PartialEq)]
pub enum MetaValue {
    /// No value.
    Null,
    /// A boolean.
    Bool(bool),
    /// A signed integer.
    Int(i64),
    /// A float, as its IEEE-754 bit pattern.
    Float(u64),
    /// A string.
    String(String),
    /// An ordered list of values.
    List(Vec<MetaValue>),
    /// A nested map.
    Dict(MetaMap),
}

/// A string-keyed metadata map.
#[derive(Debug, PartialEq)]
pub struct MetaMap {
    /// The entries; [`MetaMap::insert`] keeps their keys distinct and in
    /// ascending order (see [`MetaMap::wf`]).
    pub entries: Vec<(String, MetaValue)>,
}

/// The mathematical value of a [`MetaValue`].
pub enum MetaView {
    /// No value.
    Null,
    /// A boolean.
    Bool(bool),
    /// A signed integer.
    Int(i64),
    /// A float, as its bit pattern.
    Float(u64),
    /// A string.
    Text(Seq<char>),
    /// An ordered list.
    List(Seq<MetaView>),
    /// A nested map's entries, in order.
    Dict(Seq<(Seq<char>, MetaView)>),
}

impl MetaValue {
    /// The mathematical value of this metadata value.
    pub open spec fn deep(self) -> MetaView
        decreases self,
    {
        match self {
            MetaValue::Null => MetaView::Null,
            MetaValue::Bool(b) => MetaView::Bool(b),
            MetaValue::Int(n) => MetaView::Int(n),
            MetaValue::Float(bits) => MetaView::Float(bits),
            MetaValue::String(s) => MetaView::Text(s@),
            MetaValue::List(items) => MetaView::List(
                Seq::new(
                    items@.len(),
                    |i: int|
                        if 0 <= i < items@.len() {
                            proof {
                                vstd::std_specs::vec::axiom_vec_index_decreases(items, i);
                            }
                            items@[i].deep()
                        } else {
                            MetaView::Null
                        },
                ),
            ),
            MetaValue::Dict(map) => MetaView::Dict(map.deep_entries()),
        }
    }
}

impl MetaMap {
    /// The mathematical entries of this map, in order.
    pub open spec fn deep_entries(self) -> Seq<(Seq<char>, MetaView)>
        decreases self,
    {
        Seq::new(
            self.entries@.len(),
            |i: int|
                if 0 <= i < self.entries@.len() {
                    proof {
                        vstd::std_specs::vec::axiom_vec_index_decreases(self.entries, i);
                    }
                    (self.entries@[i].0@, self.entries@[i].1.deep())
                } else {
                    (Seq::empty(), MetaView::Null)
                },
        )
    }
}

/// The value `entries` holds for `key`, if any (the last entry with that key).
pub open spec fn entry_value(entries: Seq<(Seq<char>, MetaView)>, key: Seq<char>) -> Option<MetaView>
    decreases entries.len(),
{
    if entries.len() == 0 {
        None
    } else if entries.last().0 == key {
        Some(entries.last().1)
    } else {
        entry_value(entries.drop_last(), key)
    }
}

impl MetaMap {
    /// The value the map holds for `key`, if any.
    pub open spec fn lookup(self, key: Seq<char>) -> Option<MetaView> {
        entry_value(self.deep_entries(), key)
    }

    /// An empty map.
    pub fn new() -> (map: Self)
        ensures
            map.deep_entries().len() == 0,
            map.wf(),
            forall|key: Seq<char>| map.lookup(key) is None,
    {
        let map = MetaMap { entries: Vec::new() };
        assert(map.deep_entries() =~= Seq::<(Seq<char>, MetaView)>::empty());
        map
    }

    /// The value the map holds for `key`, if any.
    pub fn get(&self, key: &str) -> (value: Option<&MetaValue>)
        ensures
            match value {
                Some(v) => self.lookup(key@) == Some(v.deep()),
                None => self.lookup(key@) is None,
            },
    {
        let ghost entries = self.deep_entries();
        let mut i = self.entries.len();
        assert(entries.take(i as int) =~= entries);
        while i > 0
            invariant
                i <= self.entries@.len(),
                entries == self.deep_entries(),
                entries.len() == self.entries@.len(),
                entry_value(entries, key@) == entry_value(entries.take(i as int), key@),
            decreases i,
        {
            assert(entries.take(i as int).drop_last() =~= entries.take(i - 1));
            assert(entries.take(i as int).last() == entries[i - 1]);
            assert(entries[i - 1] == (self.entries@[i - 1].0@, self.entries@[i - 1].1.deep()));
            if same_text(self.entries[i - 1].0.as_str(), key) {
                return Some(&self.entries[i - 1].1);
            }
            i = i - 1;
        }
        assert(entries.take(0) =~= Seq::<(Seq<char>, MetaView)>::empty());
        None
    }

    /// Set `key` to `value`: the key's entry is replaced in place, or a new
    /// entry is added before the first entry whose key sorts after `key`, so a
    /// well-formed map stays well-formed.
    pub fn insert(&mut self, key: String, value: MetaValue)
        ensures
            final(self).lookup(key@) == Some(value.deep()),
            forall|other: Seq<char>| other != key@ ==> final(self).lookup(other) == old(self).lookup(other),
            old(self).wf() ==> final(self).wf(),
    {
        let ghost entries = self.deep_entries();
        let mut i = self.entries.len();
        while i > 0
            invariant
                i <= self.entries@.len(),
                self.entries@ == old(self).entries@,
                entries == old(self).deep_entries(),
                forall|j: int| i <= j < self.entries@.len() ==> (#[trigger] self.entries@[j]).0@ != key@,
            decreases i,
        {
            if same_text(self.entries[i - 1].0.as_str(), key.as_str()) {
                let index = i - 1;
                let ghost entry = (key@, value.deep());
                self.entries.remove(index);
                self.entries.insert(index, (key, value));
                proof {
                    assert(self.deep_entries() =~= entries.update(index as int, entry));
                    assert forall|j: int| index < j < entries.len() implies (#[trigger] entries[j]).0 != entry.0 by {
                        assert(entries[j].0 == old(self).entries@[j].0@);
                    }
                    lemma_entry_value_update(entries, index as int, entry);
                    let updated = entries.update(index as int, entry);
                    assert(entries[index as int].0 == key@);
                    assert forall|a: int, b: int| 0 <= a < b < updated.len() && old(self).wf() implies text_lt(
                        (#[trigger] updated[a]).0,
                        (#[trigger] updated[b]).0,
                    ) by {
                        assert(updated[a].0 == entries[a].0);
                        assert(updated[b].0 == entries[b].0);
                    }
                }
                return;
            }
            i = i - 1;
        }
        proof {
            assert forall|j: int| 0 <= j < entries.len() implies (#[trigger] entries[j]).0 != key@ by {
                assert(entries[j].0 == old(self).entries@[j].0@);
            }
        }
        let mut pos: usize = 0;
        while pos < self.entries.len() && text_less(self.entries[pos].0.as_str(), key.as_str())
            invariant
                pos <= self.entries@.len(),
                self.entries@ == old(self).entries@,
                entries == old(self).deep_entries(),
                forall|j: int| 0 <= j < pos ==> text_lt((#[trigger] entries[j]).0, key@),
            decreases self.entries@.len() - pos,
        {
            pos = pos + 1;
        }
        let ghost entry = (key@, value.deep());
        self.entries.insert(pos, (key, value));
        proof {
            assert(self.deep_entries() =~= entries.insert(pos as int, entry));
            lemma_entry_value_insert(entries, pos as int, entry);
            if old(self).wf() {
                let inserted = entries.insert(pos as int, entry);
                if pos < entries.len() {
                    lemma_text_lt_total(entries[pos as int].0, key@);
                }
                assert forall|a: int, b: int| 0 <= a < b < inserted.len() implies text_lt(
                    (#[trigger] inserted[a]).0,
                    (#[trigger] inserted[b]).0,
                ) by {
                    if b < pos {
                    } else if b == pos {
                        assert(inserted[a] == entries[a]);
                    } else if a == pos {
                        assert(inserted[b] == entries[b - 1]);
                        if b - 1 > pos {
                            lemma_text_lt_transitive(key@, entries[pos as int].0, entries[b - 1].0);
                        }
                    } else if a < pos {
                        assert(inserted[a] == entries[a]);
                        assert(inserted[b] == entries[b - 1]);
                    } else {
                        assert(inserted[a] == entries[a - 1]);
                        assert(inserted[b] == entries[b - 1]);
                    }
                }
            }
        }
    }

    /// Whether the map's keys are distinct and in ascending order, as every
    /// map built by [`MetaMap::new`] and [`MetaMap::insert`] is.
    pub open spec fn wf(self) -> bool {
        keys_ascending(self.deep_entries())
    }

    /// The number of entries.
    pub fn len(&self) -> (count: usize)
        ensures
            count == self.deep_entries().len(),
    {
        self.entries.len()
    }
}

/// Whether the keys of `entries` strictly ascend.
pub open spec fn keys_ascending(entries: Seq<(Seq<char>, MetaView)>) -> bool {
    forall|a: int, b: int| 0 <= a < b < entries.len() ==> text_lt((#[trigger] entries[a]).0, (#[trigger] entries[b]).0)
}

proof fn lemma_entry_value_insert(entries: Seq<(Seq<char>, MetaView)>, pos: int, entry: (Seq<char>, MetaView))
    requires
        0 <= pos <= entries.len(),
        forall|j: int| 0 <= j < entries.len() ==> (#[trigger] entries[j]).0 != entry.0,
    ensures
        entry_value(entries.insert(pos, entry), entry.0) == Some(entry.1),
        forall|other: Seq<char>|
            other != entry.0 ==> #[trigger] entry_value(entries.insert(pos, entry), other) == entry_value(entries, other),
    decreases entries.len(),
{
    let inserted = entries.insert(pos, entry);
    if pos == entries.len() {
        assert(inserted.drop_last() =~= entries);
    } else {
        assert(inserted.last() == entries.last());
        assert(inserted.drop_last() =~= entries.drop_last().insert(pos, entry));
        lemma_entry_value_insert(entries.drop_last(), pos, entry);
        assert(entry_value(inserted, entry.0) == entry_value(inserted.drop_last(), entry.0));
        assert forall|other: Seq<char>| other != entry.0 implies #[trigger] entry_value(inserted, other) == entry_value(
            entries,
            other,
        ) by {
            if inserted.last().0 != other {
                assert(entry_value(inserted.drop_last(), other) == entry_value(entries.drop_last(), other));
            }
        }
    }
}

proof fn lemma_entry_value_found(entries: Seq<(Seq<char>, MetaView)>, key: Seq<char>)
    ensures
        entry_value(entries, key) is Some ==> exists|i: int| 0 <= i < entries.len() && (#[trigger] entries[i]).0 == key,
        (forall|i: int| 0 <= i < entries.len() ==> (#[trigger] entries[i]).0 != key) ==> entry_value(entries, key) is None,
    decreases entries.len(),
{
    if entries.len() > 0 {
        lemma_entry_value_found(entries.drop_last(), key);
        if entry_value(entries, key) is Some && entries.last().0 != key {
            let i = choose|i: int| 0 <= i < entries.drop_last().len() && (#[trigger] entries.drop_last()[i]).0 == key;
            assert(entries[i] == entries.drop_last()[i]);
        }
        if forall|i: int| 0 <= i < entries.len() ==> (#[trigger] entries[i]).0 != key {
            assert forall|i: int| 0 <= i < entries.drop_last().len() implies (#[trigger] entries.drop_last()[i]).0
                != key by {
                assert(entries.drop_last()[i] == entries[i]);
            }
            assert(entries.last() == entries[entries.len() - 1]);
        }
    }
}

proof fn lemma_agreeing_sorted_entries_are_equal(a: Seq<(Seq<char>, MetaView)>, b: Seq<(Seq<char>, MetaView)>)
    requires
        keys_ascending(a),
        keys_ascending(b),
        forall|key: Seq<char>| #[trigger] entry_value(a, key) == entry_value(b, key),
    ensures
        a == b,
    decreases a.len() + b.len(),
{
    if a.len() == 0 || b.len() == 0 {
        if a.len() > 0 {
            assert(entry_value(a, a.last().0) is Some);
            lemma_entry_value_found(b, a.last().0);
        }
        if b.len() > 0 {
            assert(entry_value(b, b.last().0) is Some);
            lemma_entry_value_found(a, b.last().0);
        }
        assert(a =~= b);
    } else {
        let ka = a.last().0;
        let kb = b.last().0;
        assert(entry_value(a, ka) == Some(a.last().1));
        assert(entry_value(b, kb) == Some(b.last().1));
        lemma_entry_value_found(b, ka);
        lemma_entry_value_found(a, kb);
        let j = choose|j: int| 0 <= j < b.len() && (#[trigger] b[j]).0 == ka;
        let i = choose|i: int| 0 <= i < a.len() && (#[trigger] a[i]).0 == kb;
        assert(b.last() == b[b.len() - 1]);
        assert(a.last() == a[a.len() - 1]);
        lemma_text_lt_total(ka, kb);
        if ka != kb {
            assert(j < b.len() - 1);
            assert(text_lt(ka, kb));
            assert(i < a.len() - 1);
            assert(text_lt(kb, ka));
        }
        assert(a.last() == b.last());
        let ra = a.drop_last();
        let rb = b.drop_last();
        assert forall|x: int, y: int| 0 <= x < y < ra.len() implies text_lt((#[trigger] ra[x]).0, (#[trigger] ra[y]).0) by {
            assert(ra[x] == a[x] && ra[y] == a[y]);
        }
        assert forall|x: int, y: int| 0 <= x < y < rb.len() implies text_lt((#[trigger] rb[x]).0, (#[trigger] rb[y]).0) by {
            assert(rb[x] == b[x] && rb[y] == b[y]);
        }
        assert forall|key: Seq<char>| #[trigger] entry_value(ra, key) == entry_value(rb, key) by {
            if key == ka {
                assert forall|x: int| 0 <= x < ra.len() implies (#[trigger] ra[x]).0 != key by {
                    assert(ra[x] == a[x]);
                    assert(text_lt(a[x].0, a[a.len() - 1].0));
                    lemma_text_lt_total(key, key);
                }
                assert forall|x: int| 0 <= x < rb.len() implies (#[trigger] rb[x]).0 != key by {
                    assert(rb[x] == b[x]);
                    assert(text_lt(b[x].0, b[b.len() - 1].0));
                    lemma_text_lt_total(key, key);
                }
                lemma_entry_value_found(ra, key);
                lemma_entry_value_found(rb, key);
            } else {
                assert(entry_value(a, key) == entry_value(ra, key));
                assert(entry_value(b, key) == entry_value(rb, key));
            }
        }
        lemma_agreeing_sorted_entries_are_equal(ra, rb);
        assert(a =~= ra.push(a.last()));
        assert(b =~= rb.push(b.last()));
    }
}

/// Two well-formed maps have the same entries exactly when they hold the same
/// value for every key: comparing their entries in order is comparing them
/// as maps.
pub proof fn well_formed_maps_are_equal_when_they_agree_on_every_key(a: MetaMap, b: MetaMap)
    requires
        a.wf(),
        b.wf(),
    ensures
        a.deep_entries() == b.deep_entries() <==> forall|key: Seq<char>| #[trigger] a.lookup(key) == b.lookup(key),
{
    if forall|key: Seq<char>| #[trigger] a.lookup(key) == b.lookup(key) {
        assert forall|key: Seq<char>| #[trigger] entry_value(a.deep_entries(), key) == entry_value(
            b.deep_entries(),
            key,
        ) by {
            assert(a.lookup(key) == b.lookup(key));
        }
        lemma_agreeing_sorted_entries_are_equal(a.deep_entries(), b.deep_entries());
    }
}

proof fn lemma_entry_value_update(entries: Seq<(Seq<char>, MetaView)>, i: int, entry: (Seq<char>, MetaView))
    requires
        0 <= i < entries.len(),
        entry.0 == entries[i].0,
        forall|j: int| i < j < entries.len() ==> (#[trigger] entries[j]).0 != entry.0,
    ensures
        entry_value(entries.update(i, entry), entry.0) == Some(entry.1),
        forall|other: Seq<char>|
            other != entry.0 ==> #[trigger] entry_value(entries.update(i, entry), other) == entry_value(entries, other),
    decreases entries.len(),
{
    let updated = entries.update(i, entry);
    if i < entries.len() - 1 {
        assert(updated.drop_last() =~= entries.drop_last().update(i, entry));
        assert forall|j: int| i < j < entries.drop_last().len() implies (#[trigger] entries.drop_last()[j]).0 != entry.0 by {
            assert(entries.drop_last()[j] == entries[j]);
        }
        lemma_entry_value_update(entries.drop_last(), i, entry);
        assert forall|other: Seq<char>| other != entry.0 implies #[trigger] entry_value(updated, other) == entry_value(entries, other) by {
            assert(updated.last() == entries.last());
            assert(entry_value(updated.drop_last(), other) == entry_value(entries.drop_last(), other));
        }
    } else {
        assert(updated.drop_last() =~= entries.drop_last());
    }
}

/// A deep copy of `value`.
pub fn copy_value(value: &MetaValue) -> (copy: MetaValue)
    ensures
        copy.deep() == value.deep(),
    decreases value, 0nat,
{
    match value {
        MetaValue::Null => MetaValue::Null,
        MetaValue::Bool(b) => MetaValue::Bool(*b),
        MetaValue::Int(n) => MetaValue::Int(*n),
        MetaValue::Float(bits) => MetaValue::Float(*bits),
        MetaValue::String(s) => MetaValue::String(s.clone()),
        MetaValue::List(items) => {
            let copied = copy_values(items);
            let copy = MetaValue::List(copied);
            assert(copy.deep()->List_0 =~= value.deep()->List_0);
            copy
        },
        MetaValue::Dict(map) => MetaValue::Dict(copy_map(map)),
    }
}

/// A deep copy of `items`.
pub fn copy_values(items: &Vec<MetaValue>) -> (copy: Vec<MetaValue>)
    ensures
        copy@.len() == items@.len(),
        forall|i: int| 0 <= i < items@.len() ==> (#[trigger] copy@[i]).deep() == items@[i].deep(),
    decreases items, 1nat,
{
    let mut out: Vec<MetaValue> = Vec::new();
    let mut i: usize = 0;
    while i < items.len()
        invariant
            i <= items@.len(),
            out@.len() == i,
            forall|j: int| 0 <= j < i ==> (#[trigger] out@[j]).deep() == items@[j].deep(),
        decreases items@.len() - i,
    {
        proof {
            vstd::std_specs::vec::axiom_vec_index_decreases(*items, i as int);
        }
        out.push(copy_value(&items[i]));
        i = i + 1;
    }
    out
}

/// A deep copy of `map`.
pub fn copy_map(map: &MetaMap) -> (copy: MetaMap)
    ensures
        copy.deep_entries() == map.deep_entries(),
    decreases map, 1nat,
{
    let mut out: Vec<(String, MetaValue)> = Vec::new();
    let mut i: usize = 0;
    while i < map.entries.len()
        invariant
            i <= map.entries@.len(),
            out@.len() == i,
            forall|j: int| 0 <= j < i ==> (#[trigger] out@[j]).0@ == map.entries@[j].0@ && out@[j].1.deep() == map.entries@[j].1.deep(),
        decreases map.entries@.len() - i,
    {
        proof {
            vstd::std_specs::vec::axiom_vec_index_decreases(map.entries, i as int);
        }
        let key = map.entries[i].0.clone();
        let value = copy_value(&map.entries[i].1);
        out.push((key, value));
        i = i + 1;
    }
    let copy = MetaMap { entries: out };
    assert(copy.deep_entries() =~= map.deep_entries());
    copy
}

/// Whether `a` and `b` are the same metadata value: same variant, same
/// contents, lists and maps compared element by element in order (floats by
/// bit pattern).
pub fn same_value(a: &MetaValue, b: &MetaValue) -> (same: bool)
    ensures
        same == (a.deep() == b.deep()),
    decreases a, 0nat,
{
    match (a, b) {
        (MetaValue::Null, MetaValue::Null) => true,
        (MetaValue::Bool(x), MetaValue::Bool(y)) => *x == *y,
        (MetaValue::Int(x), MetaValue::Int(y)) => *x == *y,
        (MetaValue::Float(x), MetaValue::Float(y)) => *x == *y,
        (MetaValue::String(x), MetaValue::String(y)) => same_text(x.as_str(), y.as_str()),
        (MetaValue::List(x), MetaValue::List(y)) => {
            let same = same_values(x, y);
            proof {
                if same {
                    assert(a.deep()->List_0 =~= b.deep()->List_0);
                } else if x@.len() == y@.len() {
                    let i = choose|i: int| 0 <= i < x@.len() && x@[i].deep() != y@[i].deep();
                    assert(a.deep()->List_0[i] == x@[i].deep());
                    assert(b.deep()->List_0[i] == y@[i].deep());
                } else {
                    assert(a.deep()->List_0.len() != b.deep()->List_0.len());
                }
            }
            same
        },
        (MetaValue::Dict(x), MetaValue::Dict(y)) => same_map(x, y),
        _ => false,
    }
}

/// Whether `a` and `b` hold the same values, in order.
pub fn same_values(a: &Vec<MetaValue>, b: &Vec<MetaValue>) -> (same: bool)
    ensures
        same == (a@.len() == b@.len() && forall|i: int| 0 <= i < a@.len() ==> (#[trigger] a@[i]).deep() == b@[i].deep()),
    decreases a, 1nat,
{
    if a.len() != b.len() {
        return false;
    }
    let mut i: usize = 0;
    while i < a.len()
        invariant
            a@.len() == b@.len(),
            i <= a@.len(),
            forall|j: int| 0 <= j < i ==> (#[trigger] a@[j]).deep() == b@[j].deep(),
        decreases a@.len() - i,
    {
        proof {
            vstd::std_specs::vec::axiom_vec_index_decreases(*a, i as int);
        }
        if !same_value(&a[i], &b[i]) {
            return false;
        }
        i = i + 1;
    }
    true
}

/// Whether `a` and `b` hold the same entries, in the same order.
pub fn same_map(a: &MetaMap, b: &MetaMap) -> (same: bool)
    ensures
        same == (a.deep_entries() == b.deep_entries()),
    decreases a, 1nat,
{
    if a.entries.len() != b.entries.len() {
        proof {
            assert(a.deep_entries().len() != b.deep_entries().len());
        }
        return false;
    }
    let mut i: usize = 0;
    while i < a.entries.len()
        invariant
            a.entries@.len() == b.entries@.len(),
            i <= a.entries@.len(),
            forall|j: int| 0 <= j < i ==> #[trigger] a.deep_entries()[j] == b.deep_entries()[j],
        decreases a.entries@.len() - i,
    {
        proof {
            vstd::std_specs::vec::axiom_vec_index_decreases(a.entries, i as int);
        }
        let same_key = same_text(a.entries[i].0.as_str(), b.entries[i].0.as_str());
        if !same_key || !same_value(&a.entries[i].1, &b.entries[i].1) {
            proof {
                assert(a.deep_entries()[i as int] != b.deep_entries()[i as int]);
            }
            return false;
        }
        i = i + 1;
    }
    proof {
        assert(a.deep_entries() =~= b.deep_entries());
    }
    true
}

/// A deep copy of an optional map.
pub fn copy_options(options: &Option<MetaMap>) -> (copy: Option<MetaMap>)
    ensures
        copy is Some == options is Some,
        copy is Some ==> copy->Some_0.deep_entries() == options->Some_0.deep_entries(),
{
    match options {
        Some(map) => Some(copy_map(map)),
        None => None,
    }
}

/// The element type of a tensor.
#[derive(Debug, Clone, Copy, PartialEq, Eq, Structural)]
pub enum DType {
    /// Boolean.
    Bool,
    /// Unsigned 8-bit integer.
    Uint8,
    /// Signed 8-bit integer.
    Int8,
    /// Signed 16-bit integer.
    Int16,
    /// Signed 32-bit integer.
    Int32,
    /// Signed 64-bit integer.
    Int64,
    /// 16-bit float.
    Float16,
    /// 32-bit float.
    Float32,
    /// 64-bit float.
    Float64,
}

/// The shape of a space.
#[derive(Debug, Clone, PartialEq)]
pub enum SpaceKind {
    /// A box of `shape` with uniform bounds (bit patterns of the `f64` bounds).
    Box {
        /// Lower bound, as an `f64` bit pattern.
        low: u64,
        /// Upper bound, as an `f64` bit pattern.
        high: u64,
        /// The box's shape.
        shape: Vec<u64>,
        /// The element type.
        dtype: DType,
    },
    /// `n` discrete choices starting at `start`.
    Discrete {
        /// The number of choices.
        n: u64,
        /// The first choice.
        start: i64,
    },
    /// Binary flags of `shape`.
    MultiBinary {
        /// The flags' shape.
        shape: Vec<u64>,
    },
    /// One discrete choice per entry of `nvec`.
    MultiDiscrete {
        /// The number of choices of each entry.
        nvec: Vec<i64>,
    },
    /// Text of bounded length.
    Text {
        /// The shortest length.
        min_length: u64,
        /// The longest length.
        max_length: u64,
    },
    /// Named sub-spaces.
    Dict {
        /// The keys of the sub-spaces, in order.
        keys: Vec<String>,
    },
    /// Positional sub-spaces.
    Tuple {
        /// The number of sub-spaces.
        len: u64,
    },
}

/// A space specification.
#[derive(Debug, Clone, PartialEq)]
pub struct SpaceSpec {
    /// The space's shape.
    pub kind: SpaceKind,
}

/// How an environment resets a finished sub-environment.
#[derive(Debug, Clone, Copy, PartialEq, Eq, Structural)]
pub enum AutoresetMode {
    /// The env resets a finished lane on the next step.
    NextStep,
    /// The env resets a finished lane within the same step.
    SameStep,
    /// Finished lanes stay done until an explicit reset.
    Disabled,
}

/// The contract of an environment: its spaces, id, render mode, metadata and
/// width.
#[derive(Debug, PartialEq)]
pub struct EnvContract {
    /// The environment's human-readable id.
    pub id: String,
    /// How finished lanes are reset.
    pub autoreset_mode: AutoresetMode,
    /// The space each observation belongs to.
    pub observation_space: Option<SpaceSpec>,
    /// The space each action belongs to.
    pub action_space: Option<SpaceSpec>,
    /// Free-form metadata.
    pub metadata: Option<MetaMap>,
    /// The render mode, empty when none.
    pub render_mode: String,
    /// The number of sub-environments stepped together.
    pub num_envs: u32,
}

impl Default for AutoresetMode {
    fn default() -> (mode: Self)
        ensures
            mode == AutoresetMode::NextStep,
    {
        AutoresetMode::NextStep
    }
}

impl Default for EnvContract {
    fn default() -> (contract: Self)
        ensures
            contract.id@ == Seq::<char>::empty(),
            contract.autoreset_mode == AutoresetMode::NextStep,
            contract.observation_space is None,
            contract.action_space is None,
            contract.metadata is None,
            contract.render_mode@ == Seq::<char>::empty(),
            contract.num_envs == 0,
    {
        EnvContract {
            id: String::new(),
            autoreset_mode: AutoresetMode::NextStep,
            observation_space: None,
            action_space: None,
            metadata: None,
            render_mode: String::new(),
            num_envs: 0,
        }
    }
}

/// A value of a space.
#[derive(Debug, PartialEq)]
pub enum SpaceValue {
    /// A discrete choice.
    Discrete(i64),
    /// A box value: raw little-endian elements of `dtype`, laid out in `shape`.
    Box {
        /// The element type.
        dtype: DType,
        /// The value's shape.
        shape: Vec<u64>,
        /// The raw element bytes.
        data: Vec<u8>,
    },
    /// Binary flags.
    MultiBinary(Vec<u8>),
    /// One choice per entry.
    MultiDiscrete(Vec<i64>),
    /// Text.
    Text(String),
    /// Positional sub-values.
    Tuple(Vec<SpaceValue>),
    /// Named sub-values, in key order.
    Dict(Vec<(String, SpaceValue)>),
}

/// The views of a sequence of strings.
pub open spec fn string_views(items: Seq<String>) -> Seq<Seq<char>> {
    items.map_values(|s: String| s@)
}

/// Whether `a` and `b` are the same space shape (box bounds by bit pattern).
pub open spec fn same_space_kind(a: SpaceKind, b: SpaceKind) -> bool {
    match (a, b) {
        (
            SpaceKind::Box { low: low_a, high: high_a, shape: shape_a, dtype: dtype_a },
            SpaceKind::Box { low: low_b, high: high_b, shape: shape_b, dtype: dtype_b },
        ) => low_a == low_b && high_a == high_b && shape_a@ == shape_b@ && dtype_a == dtype_b,
        (SpaceKind::Discrete { n: n_a, start: start_a }, SpaceKind::Discrete { n: n_b, start: start_b }) => n_a
            == n_b && start_a == start_b,
        (SpaceKind::MultiBinary { shape: shape_a }, SpaceKind::MultiBinary { shape: shape_b }) => shape_a@
            == shape_b@,
        (SpaceKind::MultiDiscrete { nvec: nvec_a }, SpaceKind::MultiDiscrete { nvec: nvec_b }) => nvec_a@
            == nvec_b@,
        (
            SpaceKind::Text { min_length: min_a, max_length: max_a },
            SpaceKind::Text { min_length: min_b, max_length: max_b },
        ) => min_a == min_b && max_a == max_b,
        (SpaceKind::Dict { keys: keys_a }, SpaceKind::Dict { keys: keys_b }) => string_views(keys_a@)
            == string_views(keys_b@),
        (SpaceKind::Tuple { len: len_a }, SpaceKind::Tuple { len: len_b }) => len_a == len_b,
        _ => false,
    }
}

/// The abstract value of a space shape: its fields, each sequence by its
/// items.
pub enum SpaceKindValue {
    /// A box: bounds (as bit patterns), shape and element type.
    Box { low: u64, high: u64, shape: Seq<u64>, dtype: DType },
    /// Discrete choices: how many, and the first.
    Discrete { n: u64, start: i64 },
    /// Binary flags of a shape.
    MultiBinary { shape: Seq<u64> },
    /// One choice count per entry.
    MultiDiscrete { nvec: Seq<i64> },
    /// Text length bounds.
    Text { min_length: u64, max_length: u64 },
    /// The sub-space keys, in order.
    Dict { keys: Seq<Seq<char>> },
    /// The number of sub-spaces.
    Tuple { len: u64 },
}

/// The abstract value of space shape `kind`.
pub open spec fn space_kind_value(kind: SpaceKind) -> SpaceKindValue {
    match kind {
        SpaceKind::Box { low, high, shape, dtype } => SpaceKindValue::Box { low, high, shape: shape@, dtype },
        SpaceKind::Discrete { n, start } => SpaceKindValue::Discrete { n, start },
        SpaceKind::MultiBinary { shape } => SpaceKindValue::MultiBinary { shape: shape@ },
        SpaceKind::MultiDiscrete { nvec } => SpaceKindValue::MultiDiscrete { nvec: nvec@ },
        SpaceKind::Text { min_length, max_length } => SpaceKindValue::Text { min_length, max_length },
        SpaceKind::Dict { keys } => SpaceKindValue::Dict { keys: string_views(keys@) },
        SpaceKind::Tuple { len } => SpaceKindValue::Tuple { len },
    }
}

/// Two space shapes are the same exactly when their abstract values are
/// equal, field by field: the same kind of space, and every field (bounds,
/// shape, element type, choice counts and starts, lengths, keys) equal. Two
/// discrete spaces with different choice counts are never the same space.
pub proof fn same_space_is_field_equality(a: SpaceKind, b: SpaceKind)
    ensures
        same_space_kind(a, b) <==> space_kind_value(a) == space_kind_value(b),
{
}

/// Whether two optional spaces are both absent or the same space.
pub open spec fn same_optional_space(a: Option<SpaceSpec>, b: Option<SpaceSpec>) -> bool {
    match (a, b) {
        (None, None) => true,
        (Some(x), Some(y)) => same_space_kind(x.kind, y.kind),
        _ => false,
    }
}

/// Whether two optional metadata maps are both absent or hold the same
/// entries in the same order.
pub open spec fn same_metadata(a: Option<MetaMap>, b: Option<MetaMap>) -> bool {
    match (a, b) {
        (None, None) => true,
        (Some(x), Some(y)) => x.deep_entries() == y.deep_entries(),
        _ => false,
    }
}

/// Whether `a` and `b` are the same contract: id, autoreset mode, spaces,
/// metadata, render mode and width.
pub open spec fn same_contract(a: EnvContract, b: EnvContract) -> bool {
    &&& a.id@ == b.id@
    &&& a.autoreset_mode == b.autoreset_mode
    &&& same_optional_space(a.observation_space, b.observation_space)
    &&& same_optional_space(a.action_space, b.action_space)
    &&& same_metadata(a.metadata, b.metadata)
    &&& a.render_mode@ == b.render_mode@
    &&& a.num_envs == b.num_envs
}

/// The abstract value of an environment contract: every field, spaces and
/// metadata by their abstract values.
pub struct ContractValue {
    /// The id.
    pub id: Seq<char>,
    /// The autoreset mode.
    pub autoreset_mode: AutoresetMode,
    /// The observation space.
    pub observation_space: Option<SpaceKindValue>,
    /// The action space.
    pub action_space: Option<SpaceKindValue>,
    /// The metadata entries, in order.
    pub metadata: Option<Seq<(Seq<char>, MetaView)>>,
    /// The render mode.
    pub render_mode: Seq<char>,
    /// The width.
    pub num_envs: u32,
}

/// The abstract value of an optional space.
pub open spec fn optional_space_value(space: Option<SpaceSpec>) -> Option<SpaceKindValue> {
    match space {
        Some(spec) => Some(space_kind_value(spec.kind)),
        None => None,
    }
}

/// The abstract value of `contract`.
pub open spec fn contract_value(contract: EnvContract) -> ContractValue {
    ContractValue {
        id: contract.id@,
        autoreset_mode: contract.autoreset_mode,
        observation_space: optional_space_value(contract.observation_space),
        action_space: optional_space_value(contract.action_space),
        metadata: match contract.metadata {
            Some(map) => Some(map.deep_entries()),
            None => None,
        },
        render_mode: contract.render_mode@,
        num_envs: contract.num_envs,
    }
}

/// Two contracts are the same exactly when they agree on every field: id,
/// autoreset mode, observation and action spaces (field by field), metadata
/// entries, render mode and width. In particular lanes whose action spaces
/// differ in any field never share a contract.
pub proof fn same_contract_is_field_equality(a: EnvContract, b: EnvContract)
    ensures
        same_contract(a, b) <==> contract_value(a) == contract_value(b),
{
    same_space_law_for_options(a.observation_space, b.observation_space);
    same_space_law_for_options(a.action_space, b.action_space);
}

proof fn same_space_law_for_options(a: Option<SpaceSpec>, b: Option<SpaceSpec>)
    ensures
        same_optional_space(a, b) <==> optional_space_value(a) == optional_space_value(b),
{
    if a is Some && b is Some {
        same_space_is_field_equality(a->Some_0.kind, b->Some_0.kind);
    }
}

fn same_u64s(a: &Vec<u64>, b: &Vec<u64>) -> (same: bool)
    ensures
        same == (a@ == b@),
{
    if a.len() != b.len() {
        return false;
    }
    let mut i: usize = 0;
    while i < a.len()
        invariant
            a@.len() == b@.len(),
            i <= a@.len(),
            forall|j: int| 0 <= j < i ==> a@[j] == b@[j],
        decreases a@.len() - i,
    {
        if a[i] != b[i] {
            return false;
        }
        i = i + 1;
    }
    assert(a@ =~= b@);
    true
}

fn same_i64s(a: &Vec<i64>, b: &Vec<i64>) -> (same: bool)
    ensures
        same == (a@ == b@),
{
    if a.len() != b.len() {
        return false;
    }
    let mut i: usize = 0;
    while i < a.len()
        invariant
            a@.len() == b@.len(),
            i <= a@.len(),
            forall|j: int| 0 <= j < i ==> a@[j] == b@[j],
        decreases a@.len() - i,
    {
        if a[i] != b[i] {
            return false;
        }
        i = i + 1;
    }
    assert(a@ =~= b@);
    true
}

fn same_strings(a: &Vec<String>, b: &Vec<String>) -> (same: bool)
    ensures
        same == (string_views(a@) == string_views(b@)),
{
    if a.len() != b.len() {
        proof {
            assert(string_views(a@).len() != string_views(b@).len());
        }
        return false;
    }
    let mut i: usize = 0;
    while i < a.len()
        invariant
            a@.len() == b@.len(),
            i <= a@.len(),
            forall|j: int| 0 <= j < i ==> (#[trigger] a@[j])@ == b@[j]@,
        decreases a@.len() - i,
    {
        if !same_text(a[i].as_str(), b[i].as_str()) {
            proof {
                assert(string_views(a@)[i as int] != string_views(b@)[i as int]);
            }
            return false;
        }
        i = i + 1;
    }
    assert(string_views(a@) =~= string_views(b@));
    true
}

/// Whether `a` and `b` are the same space shape (see [`same_space_kind`]).
pub fn same_space(a: &SpaceSpec, b: &SpaceSpec) -> (same: bool)
    ensures
        same == same_space_kind(a.kind, b.kind),
{
    match (&a.kind, &b.kind) {
        (
            SpaceKind::Box { low: low_a, high: high_a, shape: shape_a, dtype: dtype_a },
            SpaceKind::Box { low: low_b, high: high_b, shape: shape_b, dtype: dtype_b },
        ) => *low_a == *low_b && *high_a == *high_b && same_u64s(shape_a, shape_b) && *dtype_a == *dtype_b,
        (SpaceKind::Discrete { n: n_a, start: start_a }, SpaceKind::Discrete { n: n_b, start: start_b }) => *n_a
            == *n_b && *start_a == *start_b,
        (SpaceKind::MultiBinary { shape: shape_a }, SpaceKind::MultiBinary { shape: shape_b }) => same_u64s(
            shape_a,
            shape_b,
        ),
        (SpaceKind::MultiDiscrete { nvec: nvec_a }, SpaceKind::MultiDiscrete { nvec: nvec_b }) => same_i64s(
            nvec_a,
            nvec_b,
        ),
        (
            SpaceKind::Text { min_length: min_a, max_length: max_a },
            SpaceKind::Text { min_length: min_b, max_length: max_b },
        ) => *min_a == *min_b && *max_a == *max_b,
        (SpaceKind::Dict { keys: keys_a }, SpaceKind::Dict { keys: keys_b }) => same_strings(keys_a, keys_b),
        (SpaceKind::Tuple { len: len_a }, SpaceKind::Tuple { len: len_b }) => *len_a == *len_b,
        _ => false,
    }
}

fn same_optional(a: &Option<SpaceSpec>, b: &Option<SpaceSpec>) -> (same: bool)
    ensures
        same == same_optional_space(*a, *b),
{
    match (a, b) {
        (None, None) => true,
        (Some(x), Some(y)) => same_space(x, y),
        _ => false,
    }
}

/// Whether `a` and `b` are the same contract (see [`same_contract`]).
pub fn same_env_contract(a: &EnvContract, b: &EnvContract) -> (same: bool)
    ensures
        same == same_contract(*a, *b),
{
    if !same_text(a.id.as_str(), b.id.as_str()) || a.autoreset_mode != b.autoreset_mode {
        return false;
    }
    if !same_optional(&a.observation_space, &b.observation_space) || !same_optional(&a.action_space, &b.action_space) {
        return false;
    }
    let same_meta = match (&a.metadata, &b.metadata) {
        (None, None) => true,
        (Some(x), Some(y)) => same_map(x, y),
        _ => false,
    };
    same_meta && same_text(a.render_mode.as_str(), b.render_mode.as_str()) && a.num_envs == b.num_envs
}

} // verus!
