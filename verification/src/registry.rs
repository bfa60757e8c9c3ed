//! The registry of installed extensions: one record per extension name, kept
//! in ascending order of the names.

use vstd::prelude::*;
use crate::json::{
    lemma_list_view, parse_json, parsed_json, pretty_json, to_pretty_text, Json, JsonError,
    JsonValue,
};
use crate::text::{
    lemma_lex_less_asymmetric, lemma_lex_less_irreflexive, lemma_lex_less_total,
    lemma_lex_less_transitive, lex_less, text_eq, text_less,
};

verus! {

/// One entry of the registry: the record of the extension called `name`.
pub struct RecordModel {
    pub name: Seq<char>,
    pub record: Json,
}

/// Whether the names of the entries ascend strictly, so that no name occurs twice.
pub open spec fn sorted_by_name(entries: Seq<RecordModel>) -> bool {
    forall|i: int, j: int|
        0 <= i < j < entries.len() ==> lex_less(
            (#[trigger] entries[i]).name,
            (#[trigger] entries[j]).name,
        )
}

/// How many entries at the start of `entries` have a name that comes before
/// `name`. In a sorted registry this is where an entry of that name stands or
/// would have to stand.
pub open spec fn position_of(entries: Seq<RecordModel>, name: Seq<char>) -> int
    decreases entries.len(),
{
    if entries.len() == 0 || !lex_less(entries[0].name, name) {
        0
    } else {
        1 + position_of(entries.skip(1), name)
    }
}

/// The record that the registry holds for `name`, if any.
pub open spec fn lookup(entries: Seq<RecordModel>, name: Seq<char>) -> Option<Json> {
    let at = position_of(entries, name);
    if at < entries.len() && entries[at].name == name {
        Some(entries[at].record)
    } else {
        None
    }
}

/// The registry after `record` was merged in under `name`: it replaces the
/// record of that name, or is inserted where the order asks for it.
pub open spec fn merged(entries: Seq<RecordModel>, name: Seq<char>, record: Json) -> Seq<
    RecordModel,
> {
    let at = position_of(entries, name);
    let entry = RecordModel { name, record };
    if at < entries.len() && entries[at].name == name {
        entries.update(at, entry)
    } else {
        entries.take(at) + seq![entry] + entries.skip(at)
    }
}

/// The registry that a persisted array gives: its elements merged in one
/// after the other, each under the string it holds as `name`. An element
/// without such a string is dropped.
pub open spec fn loaded(items: Seq<Json>) -> Seq<RecordModel>
    decreases items.len(),
{
    if items.len() == 0 {
        Seq::empty()
    } else {
        let before = loaded(items.drop_last());
        match items.last().text_member("name"@) {
            Some(name) => merged(before, name, items.last()),
            None => before,
        }
    }
}

/// The origin that the registry knows for `name`: what the record held for
/// that name gives as `origin`, where that is a string.
pub open spec fn known_origin(entries: Seq<RecordModel>, name: Seq<char>) -> Option<Seq<char>> {
    match lookup(entries, name) {
        Some(record) => record.text_member("origin"@),
        None => None,
    }
}

/// The registry at the start of a pass. A clean reinstall starts from the
/// empty registry, and so does a pass that finds no registry file or one that
/// does not hold JSON.
pub open spec fn starting_registry(existing: Option<Seq<char>>, clean_up: bool) -> Seq<
    RecordModel,
> {
    if clean_up {
        Seq::empty()
    } else {
        match existing {
            Some(text) => match parsed_json(text) {
                Some(document) => loaded(document.elements()),
                None => Seq::empty(),
            },
            None => Seq::empty(),
        }
    }
}

/// The records of the entries, in order.
pub open spec fn records_of(entries: Seq<RecordModel>) -> Seq<Json> {
    entries.map_values(|entry: RecordModel| entry.record)
}

/// The text of the registry file: the records as one JSON array, printed with
/// indentation. `None` where printing fails.
pub open spec fn registry_text(entries: Seq<RecordModel>) -> Option<Seq<char>> {
    pretty_json(Json::List(records_of(entries)))
}

/// Whether every record carries as its `name` the name that it is held under.
pub open spec fn names_agree(entries: Seq<RecordModel>) -> bool {
    forall|i: int|
        0 <= i < entries.len() ==> (#[trigger] entries[i]).record.text_member("name"@) == Some(
            entries[i].name,
        )
}

/// What is known of the position of a name.
pub proof fn lemma_position_of(entries: Seq<RecordModel>, name: Seq<char>)
    ensures
        0 <= position_of(entries, name) <= entries.len(),
        forall|i: int|
            0 <= i < position_of(entries, name) ==> lex_less(
                (#[trigger] entries[i]).name,
                name,
            ),
        position_of(entries, name) < entries.len() ==> !lex_less(
            entries[position_of(entries, name)].name,
            name,
        ),
    decreases entries.len(),
{
    if entries.len() > 0 && lex_less(entries[0].name, name) {
        let rest = entries.skip(1);
        lemma_position_of(rest, name);
        assert forall|i: int| 0 <= i < position_of(entries, name) implies lex_less(
            (#[trigger] entries[i]).name,
            name,
        ) by {
            if i > 0 {
                assert(entries[i] == rest[i - 1]);
            }
        }
        if position_of(entries, name) < entries.len() {
            assert(entries[position_of(entries, name)] == rest[position_of(rest, name)]);
        }
    }
}

/// In a sorted registry no entry from the position of a name on comes before
/// that name, and only the entry at that position can carry it.
pub proof fn lemma_position_in_sorted(entries: Seq<RecordModel>, name: Seq<char>)
    requires
        sorted_by_name(entries),
    ensures
        forall|i: int|
            position_of(entries, name) <= i < entries.len() ==> !lex_less(
                (#[trigger] entries[i]).name,
                name,
            ),
        forall|i: int|
            0 <= i < entries.len() && (#[trigger] entries[i]).name == name ==> i == position_of(
                entries,
                name,
            ),
{
    lemma_position_of(entries, name);
    let at = position_of(entries, name);
    assert forall|i: int| at <= i < entries.len() implies !lex_less(
        (#[trigger] entries[i]).name,
        name,
    ) by {
        if i > at && lex_less(entries[i].name, name) {
            assert(lex_less(entries[at].name, entries[i].name));
            lemma_lex_less_transitive(entries[at].name, entries[i].name, name);
        }
    }
    assert forall|i: int| 0 <= i < entries.len() && (#[trigger] entries[i]).name
        == name implies i == at by {
        lemma_lex_less_irreflexive(name);
        if i > at {
            assert(lex_less(entries[at].name, entries[i].name));
            lemma_lex_less_total(entries[at].name, name);
            lemma_lex_less_irreflexive(name);
        }
    }
}

/// Merging keeps the registry sorted.
pub proof fn lemma_merged_is_sorted(entries: Seq<RecordModel>, name: Seq<char>, record: Json)
    requires
        sorted_by_name(entries),
    ensures
        sorted_by_name(merged(entries, name, record)),
{
    lemma_position_of(entries, name);
    lemma_position_in_sorted(entries, name);
    let at = position_of(entries, name);
    let after = merged(entries, name, record);
    if at < entries.len() && entries[at].name == name {
        assert forall|i: int, j: int| 0 <= i < j < after.len() implies lex_less(
            (#[trigger] after[i]).name,
            (#[trigger] after[j]).name,
        ) by {
            assert(after[i].name == entries[i].name);
            assert(after[j].name == entries[j].name);
        }
    } else {
        assert forall|i: int, j: int| 0 <= i < j < after.len() implies lex_less(
            (#[trigger] after[i]).name,
            (#[trigger] after[j]).name,
        ) by {
            if j < at {
                assert(after[i] == entries[i] && after[j] == entries[j]);
            } else if j == at {
                assert(after[i] == entries[i]);
            } else if i == at {
                assert(after[j] == entries[j - 1]);
                lemma_lex_less_total(entries[j - 1].name, name);
            } else if i < at {
                assert(after[i] == entries[i] && after[j] == entries[j - 1]);
            } else {
                assert(after[i] == entries[i - 1] && after[j] == entries[j - 1]);
            }
        }
    }
}

/// After a merge the registry holds the merged record under its name, and
/// under every other name what it held before.
pub proof fn lemma_merged_lookup(
    entries: Seq<RecordModel>,
    name: Seq<char>,
    record: Json,
    other: Seq<char>,
)
    requires
        sorted_by_name(entries),
    ensures
        lookup(merged(entries, name, record), other) == if other == name {
            Some(record)
        } else {
            lookup(entries, other)
        },
{
    lemma_merged_is_sorted(entries, name, record);
    let after = merged(entries, name, record);
    let at = position_of(entries, name);
    lemma_position_of(entries, name);
    lemma_position_in_sorted(entries, name);
    lemma_position_of(entries, other);
    lemma_position_in_sorted(entries, other);
    lemma_position_of(after, other);
    lemma_position_in_sorted(after, other);
    let replaced = at < entries.len() && entries[at].name == name;
    let slot = position_of(entries, other);
    if other == name {
        assert(after[at].name == name);
    } else if replaced {
        assert(after.len() == entries.len());
        if slot < entries.len() && entries[slot].name == other {
            assert(after[slot] == entries[slot]);
        } else if lookup(after, other) is Some {
            let k = position_of(after, other);
            assert(after[k].name == other);
            assert(k != at);
            assert(entries[k] == after[k]);
        }
    } else {
        if slot < entries.len() && entries[slot].name == other {
            if slot < at {
                assert(after[slot] == entries[slot]);
            } else {
                assert(after[slot + 1] == entries[slot]);
            }
        } else if lookup(after, other) is Some {
            let k = position_of(after, other);
            assert(after[k].name == other);
            assert(k != at);
            if k < at {
                assert(entries[k] == after[k]);
            } else {
                assert(entries[k - 1] == after[k]);
            }
        }
    }
}

/// Merging a record that the registry already holds under that name changes nothing.
pub proof fn lemma_merged_again(entries: Seq<RecordModel>, name: Seq<char>, record: Json)
    requires
        lookup(entries, name) == Some(record),
    ensures
        merged(entries, name, record) == entries,
{
    lemma_position_of(entries, name);
    let at = position_of(entries, name);
    assert(entries[at] == RecordModel { name, record });
    assert(entries.update(at, RecordModel { name, record }) =~= entries);
}

/// Merging a record under the name that it carries keeps records and names in agreement.
pub proof fn lemma_merged_names_agree(entries: Seq<RecordModel>, name: Seq<char>, record: Json)
    requires
        names_agree(entries),
        record.text_member("name"@) == Some(name),
    ensures
        names_agree(merged(entries, name, record)),
{
    lemma_position_of(entries, name);
    let at = position_of(entries, name);
    let after = merged(entries, name, record);
    assert forall|i: int| 0 <= i < after.len() implies (#[trigger] after[i]).record.text_member(
        "name"@,
    ) == Some(after[i].name) by {
        if at < entries.len() && entries[at].name == name {
            if i != at {
                assert(after[i] == entries[i]);
            }
        } else if i < at {
            assert(after[i] == entries[i]);
        } else if i > at {
            assert(after[i] == entries[i - 1]);
        }
    }
}

/// In what is loaded from a persisted array every record carries the name
/// that it is held under.
pub proof fn lemma_loaded_names_agree(items: Seq<Json>)
    ensures
        names_agree(loaded(items)),
    decreases items.len(),
{
    if items.len() > 0 {
        lemma_loaded_names_agree(items.drop_last());
        match items.last().text_member("name"@) {
            Some(name) => {
                lemma_merged_names_agree(loaded(items.drop_last()), name, items.last());
            },
            None => {},
        }
    }
}

/// In a sorted registry every entry is found under its own name.
pub proof fn lemma_entry_is_found(entries: Seq<RecordModel>, index: int)
    requires
        sorted_by_name(entries),
        0 <= index < entries.len(),
    ensures
        lookup(entries, entries[index].name) == Some(entries[index].record),
{
    lemma_position_of(entries, entries[index].name);
    lemma_position_in_sorted(entries, entries[index].name);
}

/// What a sorted registry holds under a name, it holds as one of its entries.
pub proof fn lemma_found_is_entry(entries: Seq<RecordModel>, name: Seq<char>)
    requires
        lookup(entries, name) is Some,
    ensures
        0 <= position_of(entries, name) < entries.len(),
        entries[position_of(entries, name)] == (RecordModel {
            name,
            record: lookup(entries, name)->0,
        }),
{
    lemma_position_of(entries, name);
}

/// A sorted registry is determined by what it holds under each name: two
/// sorted registries that agree on every name are the same sequence.
pub proof fn lemma_sorted_registry_is_canonical(a: Seq<RecordModel>, b: Seq<RecordModel>)
    requires
        sorted_by_name(a),
        sorted_by_name(b),
        forall|name: Seq<char>| #[trigger] lookup(a, name) == lookup(b, name),
    ensures
        a == b,
    decreases a.len(),
{
    if a.len() == 0 {
        if b.len() > 0 {
            lemma_entry_is_found(b, 0);
            assert(lookup(a, b[0].name) == lookup(b, b[0].name));
        }
        assert(a =~= b);
    } else if b.len() == 0 {
        lemma_entry_is_found(a, 0);
        assert(lookup(a, a[0].name) == lookup(b, a[0].name));
    } else {
        lemma_entry_is_found(a, 0);
        lemma_entry_is_found(b, 0);
        assert(lookup(a, a[0].name) == lookup(b, a[0].name));
        assert(lookup(a, b[0].name) == lookup(b, b[0].name));
        lemma_found_is_entry(b, a[0].name);
        lemma_found_is_entry(a, b[0].name);
        let i = position_of(b, a[0].name);
        let j = position_of(a, b[0].name);
        // Both first names occur in the other registry, so neither precedes the other.
        if i > 0 {
            assert(lex_less(b[0].name, b[i].name));
            if j > 0 {
                assert(lex_less(a[0].name, a[j].name));
                lemma_lex_less_asymmetric(a[0].name, b[0].name);
            } else {
                lemma_lex_less_irreflexive(a[0].name);
            }
        }
        assert(i == 0);
        assert(a[0] == b[0]);
        let first = a[0].name;
        let ta = a.skip(1);
        let tb = b.skip(1);
        assert forall|x: int, y: int| 0 <= x < y < ta.len() implies lex_less(
            (#[trigger] ta[x]).name,
            (#[trigger] ta[y]).name,
        ) by {
            assert(ta[x] == a[x + 1] && ta[y] == a[y + 1]);
        }
        assert forall|x: int, y: int| 0 <= x < y < tb.len() implies lex_less(
            (#[trigger] tb[x]).name,
            (#[trigger] tb[y]).name,
        ) by {
            assert(tb[x] == b[x + 1] && tb[y] == b[y + 1]);
        }
        assert forall|name: Seq<char>| #[trigger] lookup(ta, name) == lookup(tb, name) by {
            lemma_tail_lookup(a, name);
            lemma_tail_lookup(b, name);
            assert(lookup(a, name) == lookup(b, name));
        }
        lemma_sorted_registry_is_canonical(ta, tb);
        assert(a =~= seq![a[0]] + ta);
        assert(b =~= seq![b[0]] + tb);
    }
}

/// What a sorted registry without its first entry holds: nothing under the
/// first entry's name, and under every other name what the whole holds.
pub proof fn lemma_tail_lookup(entries: Seq<RecordModel>, name: Seq<char>)
    requires
        sorted_by_name(entries),
        entries.len() > 0,
    ensures
        lookup(entries.skip(1), name) == if name == entries[0].name {
            None
        } else {
            lookup(entries, name)
        },
{
    let tail = entries.skip(1);
    assert forall|x: int, y: int| 0 <= x < y < tail.len() implies lex_less(
        (#[trigger] tail[x]).name,
        (#[trigger] tail[y]).name,
    ) by {
        assert(tail[x] == entries[x + 1] && tail[y] == entries[y + 1]);
    }
    lemma_position_of(entries, name);
    lemma_position_in_sorted(entries, name);
    lemma_position_of(tail, name);
    lemma_position_in_sorted(tail, name);
    let at = position_of(entries, name);
    let slot = position_of(tail, name);
    if name == entries[0].name {
        lemma_lex_less_irreflexive(name);
        if slot < tail.len() && tail[slot].name == name {
            assert(tail[slot] == entries[slot + 1]);
            assert(lex_less(entries[0].name, entries[slot + 1].name));
        }
    } else if lex_less(entries[0].name, name) {
        assert(at == 1 + slot);
        if slot < tail.len() {
            assert(tail[slot] == entries[at]);
        }
    } else {
        assert(at == 0);
        lemma_lex_less_total(entries[0].name, name);
        if slot < tail.len() && tail[slot].name == name {
            assert(tail[slot] == entries[slot + 1]);
            assert(lex_less(entries[0].name, entries[slot + 1].name));
            lemma_lex_less_asymmetric(entries[0].name, name);
        }
    }
}

/// Whatever is loaded from a persisted array is sorted by name.
pub proof fn lemma_loaded_is_sorted(items: Seq<Json>)
    ensures
        sorted_by_name(loaded(items)),
    decreases items.len(),
{
    if items.len() > 0 {
        lemma_loaded_is_sorted(items.drop_last());
        match items.last().text_member("name"@) {
            Some(name) => {
                lemma_merged_is_sorted(loaded(items.drop_last()), name, items.last());
            },
            None => {},
        }
    }
}

struct RegistryEntry {
    name: String,
    record: JsonValue,
}

/// The registry of installed extensions.
pub struct Registry {
    entries: Vec<RegistryEntry>,
}

impl View for Registry {
    type V = Seq<RecordModel>;

    closed spec fn view(&self) -> Seq<RecordModel> {
        self.entries@.map_values(
            |entry: RegistryEntry| RecordModel { name: entry.name@, record: entry.record@ },
        )
    }
}

impl Registry {
    #[verifier::type_invariant]
    spec fn ordered(&self) -> bool {
        sorted_by_name(self@)
    }

    /// A registry without entries.
    pub fn new() -> (registry: Registry)
        ensures
            registry@ == Seq::<RecordModel>::empty(),
            sorted_by_name(registry@),
    {
        let registry = Registry { entries: Vec::new() };
        assert(registry@ =~= Seq::<RecordModel>::empty());
        registry
    }

    /// The number of entries.
    pub fn len(&self) -> (count: usize)
        ensures
            count == self@.len(),
            sorted_by_name(self@),
    {
        proof {
            use_type_invariant(self);
        }
        self.entries.len()
    }

    /// The name of the entry at position `index`.
    pub fn name_at(&self, index: usize) -> (name: &str)
        requires
            index < self@.len(),
        ensures
            name@ == self@[index as int].name,
    {
        self.entries[index].name.as_str()
    }

    /// The record of the entry at position `index`.
    pub fn record_at(&self, index: usize) -> (record: &JsonValue)
        requires
            index < self@.len(),
        ensures
            record@ == self@[index as int].record,
    {
        &self.entries[index].record
    }

    /// Where an entry of that name stands or would have to stand.
    fn slot(&self, name: &str) -> (at: usize)
        ensures
            at == position_of(self@, name@),
            at <= self.entries.len(),
    {
        let mut i: usize = 0;
        proof {
            assert(self@.skip(0) == self@);
        }
        while i < self.entries.len() && text_less(self.entries[i].name.as_str(), name)
            invariant
                0 <= i <= self.entries.len(),
                position_of(self@, name@) == i + position_of(self@.skip(i as int), name@),
            decreases self.entries.len() - i,
        {
            proof {
                assert(self@.skip(i as int).skip(1) == self@.skip(i + 1));
                assert(self@.skip(i as int)[0] == self@[i as int]);
            }
            i = i + 1;
        }
        proof {
            if i < self.entries.len() {
                assert(self@.skip(i as int)[0] == self@[i as int]);
            }
        }
        i
    }

    /// The record held for `name`.
    pub fn get(&self, name: &str) -> (found: Option<&JsonValue>)
        ensures
            match found {
                Some(record) => lookup(self@, name@) == Some(record@),
                None => lookup(self@, name@) is None,
            },
    {
        let at = self.slot(name);
        if at < self.entries.len() && text_eq(self.entries[at].name.as_str(), name) {
            Some(&self.entries[at].record)
        } else {
            None
        }
    }

    /// Merges a record in under `name`: it replaces the record held for that
    /// name, if there is one, and is added otherwise.
    pub fn merge(&mut self, name: String, record: JsonValue)
        ensures
            final(self)@ == merged(old(self)@, name@, record@),
            sorted_by_name(final(self)@),
    {
        proof {
            use_type_invariant(&*self);
            lemma_merged_is_sorted(self@, name@, record@);
        }
        let ghost before = self@;
        let ghost entry = RecordModel { name: name@, record: record@ };
        let at = self.slot(name.as_str());
        let replace = at < self.entries.len() && text_eq(
            self.entries[at].name.as_str(),
            name.as_str(),
        );
        let mut entries: Vec<RegistryEntry> = Vec::new();
        proof {
            assert(entries@.map_values(
                |e: RegistryEntry| RecordModel { name: e.name@, record: e.record@ },
            ) =~= Seq::<RecordModel>::empty());
        }
        core::mem::swap(&mut self.entries, &mut entries);
        let ghost held = entries@;
        if replace {
            entries.set(at, RegistryEntry { name, record });
            proof {
                assert(before.update(at as int, entry) =~= entries@.map_values(
                    |e: RegistryEntry| RecordModel { name: e.name@, record: e.record@ },
                ));
            }
        } else {
            entries.insert(at, RegistryEntry { name, record });
            proof {
                assert(before.take(at as int) + seq![entry] + before.skip(at as int)
                    =~= entries@.map_values(
                    |e: RegistryEntry| RecordModel { name: e.name@, record: e.record@ },
                ));
            }
        }
        core::mem::swap(&mut self.entries, &mut entries);
    }

    /// The origin that the record held for `name` gives, where it gives one as a string.
    pub fn origin_of(&self, name: &str) -> (origin: Option<&str>)
        ensures
            match origin {
                Some(text) => known_origin(self@, name@) == Some(text@),
                None => known_origin(self@, name@) is None,
            },
    {
        match self.get(name) {
            Some(record) => record.str_field("origin"),
            None => None,
        }
    }

    /// The registry that a persisted document gives. A document that is no
    /// array gives the empty registry; of an array, each element that holds a
    /// string as `name` is merged in under that name, in order.
    pub fn from_json(document: JsonValue) -> (registry: Registry)
        ensures
            registry@ == loaded(document@.elements()),
            sorted_by_name(registry@),
    {
        let mut registry = Registry::new();
        let ghost all = document@.elements();
        match document {
            JsonValue::List(items) => {
                proof {
                    lemma_list_view(items);
                }
                let ghost sources = items@;
                for item in it: items
                    invariant
                        it.seq() == sources,
                        all.len() == sources.len(),
                        forall|i: int|
                            0 <= i < sources.len() ==> all[i] == (#[trigger] sources[i])@,
                        registry@ == loaded(all.take(it.index() as int)),
                {
                    proof {
                        assert(all.take(it.index() + 1).drop_last() == all.take(it.index() as int));
                        assert(all.take(it.index() + 1).last() == item@);
                    }
                    let name = match item.str_field("name") {
                        Some(found) => Some(found.to_owned()),
                        None => None,
                    };
                    match name {
                        Some(name) => {
                            registry.merge(name, item);
                        },
                        None => {},
                    }
                }
                proof {
                    assert(all.take(all.len() as int) == all);
                }
            },
            _ => {},
        }
        proof {
            lemma_loaded_is_sorted(all);
        }
        registry
    }

    /// The registry at the start of a pass: what the text of the registry
    /// file gives, or the empty registry where there is no such text, where
    /// it is not JSON, or where a clean reinstall discards it.
    pub fn load(existing: Option<&str>, clean_up: bool) -> (registry: Registry)
        ensures
            registry@ == starting_registry(
                match existing {
                    Some(text) => Some(text@),
                    None => None,
                },
                clean_up,
            ),
            sorted_by_name(registry@),
    {
        if clean_up {
            return Registry::new();
        }
        match existing {
            Some(text) => match parse_json(text) {
                Ok(document) => Registry::from_json(document),
                Err(_) => Registry::new(),
            },
            None => Registry::new(),
        }
    }

    /// The records in ascending order of their names.
    pub fn serialize(self) -> (records: Vec<JsonValue>)
        ensures
            records@.map_values(|record: JsonValue| record@) == records_of(self@),
    {
        let ghost all = self@;
        let ghost sources = self.entries@;
        let mut records: Vec<JsonValue> = Vec::new();
        proof {
            assert(records@.map_values(|record: JsonValue| record@) =~= records_of(all.take(0)));
        }
        for entry in it: self.entries
            invariant
                it.seq() == sources,
                all == sources.map_values(
                    |e: RegistryEntry| RecordModel { name: e.name@, record: e.record@ },
                ),
                records@.map_values(|record: JsonValue| record@) == records_of(
                    all.take(it.index() as int),
                ),
        {
            let ghost k = it.index() as int;
            let ghost done = records@.map_values(|record: JsonValue| record@);
            proof {
                assert(entry == sources[k]);
                assert(all[k].record == entry.record@);
            }
            records.push(entry.record);
            proof {
                let now = records@.map_values(|record: JsonValue| record@);
                assert(now =~= done.push(all[k].record));
                assert(all.take(k + 1) =~= all.take(k).push(all[k]));
                assert(records_of(all.take(k + 1)) =~= records_of(all.take(k)).push(all[k].record));
                assert(records@.map_values(|record: JsonValue| record@) =~= records_of(
                    all.take(it.index() + 1),
                ));
            }
        }
        proof {
            assert(all.take(all.len() as int) == all);
        }
        records
    }

    /// The registry as one JSON array of its records, in ascending order of their names.
    pub fn into_json(self) -> (document: JsonValue)
        ensures
            document@ == Json::List(records_of(self@)),
    {
        let records = self.serialize();
        proof {
            lemma_list_view(records);
            assert(JsonValue::List(records)@->List_0 =~= records@.map_values(
                |record: JsonValue| record@,
            ));
        }
        JsonValue::List(records)
    }

    /// The text of the registry file for this registry.
    pub fn render(self) -> (out: Result<String, JsonError>)
        ensures
            match out {
                Ok(text) => registry_text(self@) == Some(text@),
                Err(_) => registry_text(self@) is None,
            },
    {
        let document = self.into_json();
        to_pretty_text(&document)
    }
}

} // verus!
