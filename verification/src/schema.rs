//! The shape of a file of sets, as recon reads it.
use crate::convert::filter_views;
use crate::outside::{debug_text, quoted};
use crate::text::{chars_of, same_text, text_of};
use crate::tree::{
    entry_views, lemma_parts, node_views, Entry, EntryView, Node, NodeView, Value, ValueView,
};
use vstd::prelude::*;

verus! {

/// What is wrong in a file, and between which bytes.
#[derive(Debug)]
pub struct Fault {
    pub start: usize,
    pub end: usize,
    pub message: String,
}

/// What a `Fault` stands for.
pub struct FaultView {
    pub start: nat,
    pub end: nat,
    pub message: Seq<char>,
}

impl View for Fault {
    type V = FaultView;

    open spec fn view(&self) -> FaultView {
        FaultView { start: self.start as nat, end: self.end as nat, message: self.message@ }
    }
}

/// What is wrong with a value.
pub open spec fn fault_at(node: NodeView, message: Seq<char>) -> FaultView {
    FaultView { start: node.start, end: node.end, message }
}

/// What is said of a key that recon does not know.
pub open spec fn unknown_field(key: Seq<char>, expected: Seq<char>) -> Seq<char> {
    "unknown field `"@ + key + "`, expected "@ + expected
}

/// What is said of a key that is not there.
pub open spec fn missing_field(key: Seq<char>) -> Seq<char> {
    "missing field `"@ + key + "`"@
}

/// What is said of an array that is too short for the values of a table.
pub open spec fn too_short(length: Seq<char>, expected: Seq<char>) -> Seq<char> {
    "invalid length "@ + length + ", expected "@ + expected
}

/// What is said of a number or a truth value where something is expected, from what is said where
/// nothing at all is.
pub open spec fn said_instead(said: Seq<char>, expected: Seq<char>) -> Seq<char> {
    if said.len() >= 4 && said.skip(said.len() - 4) == "unit"@ {
        said.take(said.len() - 4) + expected
    } else {
        said
    }
}

/// What is said of a value where another kind of value is expected.
pub open spec fn wrong_kind(value: ValueView, expected: Seq<char>) -> Seq<char> {
    match value {
        ValueView::Text(text) => "invalid type: string "@ + debug_text(text) + ", expected "@
            + expected,
        ValueView::Listed(_) => "invalid type: sequence, expected "@ + expected,
        ValueView::Keyed(_) => "invalid type: map, expected "@ + expected,
        ValueView::Date(_) => "invalid type: map, expected "@ + expected,
        ValueView::Other(said) => said_instead(said, expected),
    }
}

/// The one key of a date: `toml` hands a date on as a table with the text of the date under this key.
pub open spec fn date_key() -> Seq<char> {
    "$__toml_private_datetime"@
}

/// What stands under a key.
pub open spec fn under(entries: Seq<EntryView>, key: Seq<char>, from: int) -> Option<NodeView>
    decreases entries.len() - from,
{
    if from < 0 || from >= entries.len() {
        None
    } else if entries[from].key == key {
        Some(entries[from].node)
    } else {
        under(entries, key, from + 1)
    }
}

/// A text, or what is wrong with the value.
pub open spec fn text_schema(node: NodeView) -> Result<Seq<char>, FaultView> {
    match node.value {
        ValueView::Text(text) => Ok(text),
        _ => Err(fault_at(node, wrong_kind(node.value, "a string"@))),
    }
}

/// What is wrong with the first faulty entry of a filter, at or after `from`: its key is neither
/// `name` nor `pattern`, or its value is no text.
pub open spec fn filter_fault(entries: Seq<EntryView>, from: int) -> Option<FaultView>
    decreases entries.len() - from,
{
    if from < 0 || from >= entries.len() {
        None
    } else {
        let entry = entries[from];
        if entry.key != "name"@ && entry.key != "pattern"@ {
            Some(
                FaultView {
                    start: entry.start,
                    end: entry.end,
                    message: unknown_field(entry.key, "`name` or `pattern`"@),
                },
            )
        } else {
            match text_schema(entry.node) {
                Err(fault) => Some(fault),
                Ok(_) => filter_fault(entries, from + 1),
            }
        }
    }
}

/// A filter's name and pattern, or what is wrong with the filter: it is a table with these two keys
/// and no other, or an array that starts with the two.
pub open spec fn filter_schema(node: NodeView) -> Result<(Seq<char>, Seq<char>), FaultView> {
    match node.value {
        ValueView::Keyed(entries) => match filter_fault(entries, 0) {
            Some(fault) => Err(fault),
            None => match (under(entries, "name"@, 0), under(entries, "pattern"@, 0)) {
                (None, _) => Err(fault_at(node, missing_field("name"@))),
                (_, None) => Err(fault_at(node, missing_field("pattern"@))),
                (Some(name), Some(pattern)) => match (text_schema(name), text_schema(pattern)) {
                    (Ok(name), Ok(pattern)) => Ok((name, pattern)),
                    (Err(fault), _) => Err(fault),
                    (_, Err(fault)) => Err(fault),
                },
            },
        },
        ValueView::Listed(items) => if items.len() == 0 {
            Err(fault_at(node, too_short("0"@, "struct FilterSchema with 2 elements"@)))
        } else {
            match text_schema(items[0]) {
                Err(fault) => Err(fault),
                Ok(name) => if items.len() == 1 {
                    Err(fault_at(node, too_short("1"@, "struct FilterSchema with 2 elements"@)))
                } else {
                    match text_schema(items[1]) {
                        Err(fault) => Err(fault),
                        Ok(pattern) => Ok((name, pattern)),
                    }
                },
            }
        },
        ValueView::Date(_) => Err(
            fault_at(node, unknown_field(date_key(), "`name` or `pattern`"@)),
        ),
        _ => Err(fault_at(node, wrong_kind(node.value, "struct FilterSchema"@))),
    }
}

/// The names and patterns of some filters, or what is wrong with the first faulty one.
pub open spec fn items_schema(items: Seq<NodeView>) -> Result<
    Seq<(Seq<char>, Seq<char>)>,
    FaultView,
>
    decreases items.len(),
{
    if items.len() == 0 {
        Ok(seq![])
    } else {
        match items_schema(items.drop_last()) {
            Err(fault) => Err(fault),
            Ok(before) => match filter_schema(items.last()) {
                Err(fault) => Err(fault),
                Ok(filter) => Ok(before.push(filter)),
            },
        }
    }
}

/// The names and patterns of an array of filters, or what is wrong with it.
pub open spec fn filters_schema(node: NodeView) -> Result<Seq<(Seq<char>, Seq<char>)>, FaultView> {
    match node.value {
        ValueView::Listed(items) => items_schema(items),
        _ => Err(fault_at(node, wrong_kind(node.value, "a sequence"@))),
    }
}

/// What is wrong with the first faulty entry of a set, at or after `from`: its key is not `filters`,
/// or its value is no array of filters.
pub open spec fn set_fault(entries: Seq<EntryView>, from: int) -> Option<FaultView>
    decreases entries.len() - from,
{
    if from < 0 || from >= entries.len() {
        None
    } else {
        let entry = entries[from];
        if entry.key != "filters"@ {
            Some(
                FaultView {
                    start: entry.start,
                    end: entry.end,
                    message: unknown_field(entry.key, "`filters`"@),
                },
            )
        } else {
            match filters_schema(entry.node) {
                Err(fault) => Some(fault),
                Ok(_) => set_fault(entries, from + 1),
            }
        }
    }
}

/// A set's filters, or what is wrong with the set: it is a table with the key `filters` and no other,
/// or an array that starts with the filters.
pub open spec fn set_schema(node: NodeView) -> Result<Seq<(Seq<char>, Seq<char>)>, FaultView> {
    match node.value {
        ValueView::Keyed(entries) => match set_fault(entries, 0) {
            Some(fault) => Err(fault),
            None => match under(entries, "filters"@, 0) {
                None => Err(fault_at(node, missing_field("filters"@))),
                Some(filters) => filters_schema(filters),
            },
        },
        ValueView::Listed(items) => if items.len() == 0 {
            Err(fault_at(node, too_short("0"@, "struct SetSchema with 1 element"@)))
        } else {
            filters_schema(items[0])
        },
        ValueView::Date(_) => Err(fault_at(node, unknown_field(date_key(), "`filters`"@))),
        _ => Err(fault_at(node, wrong_kind(node.value, "struct SetSchema"@))),
    }
}

/// The filters of some sets, or what is wrong with the first faulty one.
pub open spec fn entries_schema(entries: Seq<EntryView>) -> Result<
    Seq<(Seq<char>, Seq<(Seq<char>, Seq<char>)>)>,
    FaultView,
>
    decreases entries.len(),
{
    if entries.len() == 0 {
        Ok(seq![])
    } else {
        match entries_schema(entries.drop_last()) {
            Err(fault) => Err(fault),
            Ok(before) => match set_schema(entries.last().node) {
                Err(fault) => Err(fault),
                Ok(filters) => Ok(before.push((entries.last().key, filters))),
            },
        }
    }
}

/// The sets in a table of sets with their filters, or what is wrong with it.
pub open spec fn sets_schema(node: NodeView) -> Result<
    Seq<(Seq<char>, Seq<(Seq<char>, Seq<char>)>)>,
    FaultView,
> {
    match node.value {
        ValueView::Keyed(entries) => entries_schema(entries),
        ValueView::Date(text) => Err(
            fault_at(node, wrong_kind(ValueView::Text(text), "struct SetSchema"@)),
        ),
        _ => Err(fault_at(node, wrong_kind(node.value, "a map"@))),
    }
}

/// What is wrong with the first faulty entry of a file, at or after `from`: its key is not `sets`, or
/// its value is no table of sets.
pub open spec fn file_fault(entries: Seq<EntryView>, from: int) -> Option<FaultView>
    decreases entries.len() - from,
{
    if from < 0 || from >= entries.len() {
        None
    } else {
        let entry = entries[from];
        if entry.key != "sets"@ {
            Some(
                FaultView {
                    start: entry.start,
                    end: entry.end,
                    message: unknown_field(entry.key, "`sets`"@),
                },
            )
        } else {
            match sets_schema(entry.node) {
                Err(fault) => Some(fault),
                Ok(_) => file_fault(entries, from + 1),
            }
        }
    }
}

/// The sets of a file with their filters, or what is wrong with the file: it is a table with the key
/// `sets` and no other, or an array that starts with the sets.
pub open spec fn file_schema(node: NodeView) -> Result<
    Seq<(Seq<char>, Seq<(Seq<char>, Seq<char>)>)>,
    FaultView,
> {
    match node.value {
        ValueView::Keyed(entries) => match file_fault(entries, 0) {
            Some(fault) => Err(fault),
            None => match under(entries, "sets"@, 0) {
                None => Err(fault_at(node, missing_field("sets"@))),
                Some(sets) => sets_schema(sets),
            },
        },
        ValueView::Listed(items) => if items.len() == 0 {
            Err(fault_at(node, too_short("0"@, "struct FileSchema with 1 element"@)))
        } else {
            sets_schema(items[0])
        },
        ValueView::Date(_) => Err(fault_at(node, unknown_field(date_key(), "`sets`"@))),
        _ => Err(fault_at(node, wrong_kind(node.value, "struct FileSchema"@))),
    }
}

/// Whether `checked` is a value or a fault, as `expected` says.
pub open spec fn is_pair(
    checked: Result<(String, String), Fault>,
    expected: Result<(Seq<char>, Seq<char>), FaultView>,
) -> bool {
    match checked {
        Ok(pair) => expected == Ok::<(Seq<char>, Seq<char>), FaultView>((pair.0@, pair.1@)),
        Err(fault) => expected == Err::<(Seq<char>, Seq<char>), FaultView>(fault@),
    }
}

/// Whether `checked` is a list of filters or a fault, as `expected` says.
pub open spec fn is_filters(
    checked: Result<Vec<(String, String)>, Fault>,
    expected: Result<Seq<(Seq<char>, Seq<char>)>, FaultView>,
) -> bool {
    match checked {
        Ok(list) => expected == Ok::<Seq<(Seq<char>, Seq<char>)>, FaultView>(filter_views(list@)),
        Err(fault) => expected == Err::<Seq<(Seq<char>, Seq<char>)>, FaultView>(fault@),
    }
}

/// A set's name and its filters.
pub type NamedSet = (String, Vec<(String, String)>);

/// Some sets, each with its name and its filters.
pub open spec fn named_sets(sets: Seq<NamedSet>) -> Seq<
    (Seq<char>, Seq<(Seq<char>, Seq<char>)>),
> {
    sets.map_values(|set: NamedSet| (set.0@, filter_views(set.1@)))
}

/// Whether `checked` is a list of sets or a fault, as `expected` says.
pub open spec fn is_sets(
    checked: Result<Vec<NamedSet>, Fault>,
    expected: Result<Seq<(Seq<char>, Seq<(Seq<char>, Seq<char>)>)>, FaultView>,
) -> bool {
    match checked {
        Ok(list) => expected == Ok::<
            Seq<(Seq<char>, Seq<(Seq<char>, Seq<char>)>)>,
            FaultView,
        >(named_sets(list@)),
        Err(fault) => expected == Err::<
            Seq<(Seq<char>, Seq<(Seq<char>, Seq<char>)>)>,
            FaultView,
        >(fault@),
    }
}

fn fault(node: &Node, message: String) -> (fault: Fault)
    ensures
        fault@ == fault_at(node@, message@),
{
    Fault { start: node.start, end: node.end, message }
}

fn unknown(key: &str, expected: &str) -> (message: String)
    ensures
        message@ == unknown_field(key@, expected@),
{
    "unknown field `".to_owned().concat(key).concat("`, expected ").concat(expected)
}

fn unknown_entry(entry: &Entry, expected: &str) -> (fault: Fault)
    ensures
        fault@ == (FaultView {
            start: entry@.start,
            end: entry@.end,
            message: unknown_field(entry@.key, expected@),
        }),
{
    Fault { start: entry.start, end: entry.end, message: unknown(entry.key.as_str(), expected) }
}

fn missing(key: &str) -> (message: String)
    ensures
        message@ == missing_field(key@),
{
    "missing field `".to_owned().concat(key).concat("`")
}

fn short(length: &str, expected: &str) -> (message: String)
    ensures
        message@ == too_short(length@, expected@),
{
    "invalid length ".to_owned().concat(length).concat(", expected ").concat(expected)
}

/// What is said of a number or a truth value where something is expected, from what is said where
/// nothing at all is.
pub fn instead_of_unit(said: &str, expected: &str) -> (message: String)
    ensures
        message@ == said_instead(said@, expected@),
{
    let chars = chars_of(said);
    let n = chars.len();
    if n >= 4 {
        assert(said@.skip(n - 4) =~= said@.subrange(n - 4, n as int));
        assert(said@.take(n - 4) =~= said@.subrange(0, n - 4));
        if same_text(text_of(&chars, n - 4, n).as_str(), "unit") {
            return text_of(&chars, 0, n - 4).concat(expected);
        }
    }
    said.to_owned()
}

fn not_a_text(text: &str, expected: &str) -> (message: String)
    ensures
        message@ == wrong_kind(ValueView::Text(text@), expected@),
{
    "invalid type: string ".to_owned().concat(quoted(text).as_str()).concat(", expected ").concat(
        expected,
    )
}

fn wrong(node: &Node, expected: &str) -> (fault: Fault)
    ensures
        fault@ == fault_at(node@, wrong_kind(node@.value, expected@)),
{
    let message = match &node.value {
        Value::Text(text) => not_a_text(text.as_str(), expected),
        Value::Listed(_) => "invalid type: sequence, expected ".to_owned().concat(expected),
        Value::Keyed(_) => "invalid type: map, expected ".to_owned().concat(expected),
        Value::Date(_) => "invalid type: map, expected ".to_owned().concat(expected),
        Value::Other(said) => instead_of_unit(said.as_str(), expected),
    };
    fault(node, message)
}

fn date_field() -> (key: String)
    ensures
        key@ == date_key(),
{
    "$__toml_private_datetime".to_owned()
}

/// Where a key stands among some entries.
fn position(entries: &Vec<Entry>, key: &str) -> (at: Option<usize>)
    ensures
        match at {
            Some(at) => at < entries@.len() && under(entry_views(entries@), key@, 0) == Some(
                entries@[at as int].node@,
            ),
            None => under(entry_views(entries@), key@, 0) is None,
        },
{
    let ghost all = entry_views(entries@);
    let mut i: usize = 0;
    while i < entries.len()
        invariant
            all == entry_views(entries@),
            i <= entries@.len(),
            under(all, key@, 0) == under(all, key@, i as int),
        decreases entries.len() - i,
    {
        assert(all[i as int] == entries@[i as int]@);
        if same_text(entries[i].key.as_str(), key) {
            return Some(i);
        }
        i = i + 1;
    }
    None
}

/// A text, or what is wrong with the value.
pub fn check_text(node: &Node) -> (checked: Result<String, Fault>)
    ensures
        match checked {
            Ok(text) => text_schema(node@) == Ok::<Seq<char>, FaultView>(text@),
            Err(fault) => text_schema(node@) == Err::<Seq<char>, FaultView>(fault@),
        },
{
    match &node.value {
        Value::Text(text) => Ok(text.clone()),
        _ => Err(wrong(node, "a string")),
    }
}

/// A filter's name and pattern, or what is wrong with the filter.
pub fn check_filter(node: &Node) -> (checked: Result<(String, String), Fault>)
    ensures
        is_pair(checked, filter_schema(node@)),
{
    proof {
        lemma_parts(*node);
    }
    match &node.value {
        Value::Keyed(entries) => {
            let ghost all = entry_views(entries@);
            let mut i: usize = 0;
            while i < entries.len()
                invariant
                    all == entry_views(entries@),
                    node@.value == ValueView::Keyed(all),
                    i <= entries@.len(),
                    filter_fault(all, 0) == filter_fault(all, i as int),
                decreases entries.len() - i,
            {
                let entry = &entries[i];
                assert(all[i as int] == entry@);
                if !same_text(entry.key.as_str(), "name") && !same_text(
                    entry.key.as_str(),
                    "pattern",
                ) {
                    return Err(unknown_entry(entry, "`name` or `pattern`"));
                }
                match check_text(&entry.node) {
                    Err(fault) => return Err(fault),
                    Ok(_) => {},
                }
                i = i + 1;
            }
            let name = match position(entries, "name") {
                None => return Err(fault(node, missing("name"))),
                Some(at) => at,
            };
            let pattern = match position(entries, "pattern") {
                None => return Err(fault(node, missing("pattern"))),
                Some(at) => at,
            };
            let name = match check_text(&entries[name].node) {
                Err(fault) => return Err(fault),
                Ok(name) => name,
            };
            let pattern = match check_text(&entries[pattern].node) {
                Err(fault) => return Err(fault),
                Ok(pattern) => pattern,
            };
            Ok((name, pattern))
        },
        Value::Listed(items) => {
            let ghost all = node_views(items@);
            if items.len() == 0 {
                return Err(fault(node, short("0", "struct FilterSchema with 2 elements")));
            }
            assert(all[0] == items@[0]@);
            let name = match check_text(&items[0]) {
                Err(fault) => return Err(fault),
                Ok(name) => name,
            };
            if items.len() == 1 {
                return Err(fault(node, short("1", "struct FilterSchema with 2 elements")));
            }
            assert(all[1] == items@[1]@);
            match check_text(&items[1]) {
                Err(fault) => Err(fault),
                Ok(pattern) => Ok((name, pattern)),
            }
        },
        Value::Date(_) => Err(
            fault(node, unknown(date_field().as_str(), "`name` or `pattern`")),
        ),
        _ => Err(wrong(node, "struct FilterSchema")),
    }
}

/// The first faulty filter is the one that is reported.
proof fn lemma_first_faulty_filter(items: Seq<NodeView>, n: int)
    requires
        0 <= n <= items.len(),
        items_schema(items.take(n)) is Err,
    ensures
        items_schema(items) == items_schema(items.take(n)),
    decreases items.len(),
{
    if n == items.len() {
        assert(items.take(n) =~= items);
    } else {
        assert(items.drop_last().take(n) =~= items.take(n));
        lemma_first_faulty_filter(items.drop_last(), n);
    }
}

/// The names and patterns of an array of filters, or what is wrong with it.
pub fn check_filters_shape(node: &Node) -> (checked: Result<Vec<(String, String)>, Fault>)
    ensures
        is_filters(checked, filters_schema(node@)),
{
    proof {
        lemma_parts(*node);
    }
    let items = match &node.value {
        Value::Listed(items) => items,
        _ => return Err(wrong(node, "a sequence")),
    };
    let ghost all = node_views(items@);
    let mut list: Vec<(String, String)> = Vec::new();
    let mut i: usize = 0;
    assert(filter_views(list@) =~= seq![]);
    while i < items.len()
        invariant
            all == node_views(items@),
            node@.value == ValueView::Listed(all),
            i <= items@.len(),
            items_schema(all.take(i as int)) == Ok::<Seq<(Seq<char>, Seq<char>)>, FaultView>(
                filter_views(list@),
            ),
        decreases items.len() - i,
    {
        assert(all.take(i + 1).drop_last() =~= all.take(i as int));
        assert(all[i as int] == items@[i as int]@);
        match check_filter(&items[i]) {
            Err(fault) => {
                proof {
                    lemma_first_faulty_filter(all, i + 1);
                }
                return Err(fault);
            },
            Ok(pair) => {
                let ghost before = filter_views(list@);
                let ghost new = (pair.0@, pair.1@);
                list.push(pair);
                assert(filter_views(list@) =~= before.push(new));
            },
        }
        i = i + 1;
    }
    assert(all.take(i as int) =~= all);
    Ok(list)
}

/// A set's filters, or what is wrong with the set.
pub fn check_set_shape(node: &Node) -> (checked: Result<Vec<(String, String)>, Fault>)
    ensures
        is_filters(checked, set_schema(node@)),
{
    proof {
        lemma_parts(*node);
    }
    match &node.value {
        Value::Keyed(entries) => {
            let ghost all = entry_views(entries@);
            let mut i: usize = 0;
            while i < entries.len()
                invariant
                    all == entry_views(entries@),
                    node@.value == ValueView::Keyed(all),
                    i <= entries@.len(),
                    set_fault(all, 0) == set_fault(all, i as int),
                decreases entries.len() - i,
            {
                let entry = &entries[i];
                assert(all[i as int] == entry@);
                if !same_text(entry.key.as_str(), "filters") {
                    return Err(unknown_entry(entry, "`filters`"));
                }
                match check_filters_shape(&entry.node) {
                    Err(fault) => return Err(fault),
                    Ok(_) => {},
                }
                i = i + 1;
            }
            match position(entries, "filters") {
                None => Err(fault(node, missing("filters"))),
                Some(at) => check_filters_shape(&entries[at].node),
            }
        },
        Value::Listed(items) => {
            if items.len() == 0 {
                return Err(fault(node, short("0", "struct SetSchema with 1 element")));
            }
            assert(node_views(items@)[0] == items@[0]@);
            check_filters_shape(&items[0])
        },
        Value::Date(_) => Err(fault(node, unknown(date_field().as_str(), "`filters`"))),
        _ => Err(wrong(node, "struct SetSchema")),
    }
}

/// The first faulty set is the one that is reported.
proof fn lemma_first_faulty_set(entries: Seq<EntryView>, n: int)
    requires
        0 <= n <= entries.len(),
        entries_schema(entries.take(n)) is Err,
    ensures
        entries_schema(entries) == entries_schema(entries.take(n)),
    decreases entries.len(),
{
    if n == entries.len() {
        assert(entries.take(n) =~= entries);
    } else {
        assert(entries.drop_last().take(n) =~= entries.take(n));
        lemma_first_faulty_set(entries.drop_last(), n);
    }
}

/// The sets in a table of sets with their filters, or what is wrong with it.
pub fn check_sets_shape(node: &Node) -> (checked: Result<Vec<NamedSet>, Fault>)
    ensures
        is_sets(checked, sets_schema(node@)),
{
    proof {
        lemma_parts(*node);
    }
    let entries = match &node.value {
        Value::Keyed(entries) => entries,
        Value::Date(text) => return Err(
            fault(node, not_a_text(text.as_str(), "struct SetSchema")),
        ),
        _ => return Err(wrong(node, "a map")),
    };
    let ghost all = entry_views(entries@);
    let mut list: Vec<NamedSet> = Vec::new();
    let mut i: usize = 0;
    assert(named_sets(list@) =~= seq![]);
    while i < entries.len()
        invariant
            all == entry_views(entries@),
            node@.value == ValueView::Keyed(all),
            i <= entries@.len(),
            entries_schema(all.take(i as int)) == Ok::<
                Seq<(Seq<char>, Seq<(Seq<char>, Seq<char>)>)>,
                FaultView,
            >(named_sets(list@)),
        decreases entries.len() - i,
    {
        assert(all.take(i + 1).drop_last() =~= all.take(i as int));
        assert(all[i as int] == entries@[i as int]@);
        match check_set_shape(&entries[i].node) {
            Err(fault) => {
                proof {
                    lemma_first_faulty_set(all, i + 1);
                }
                return Err(fault);
            },
            Ok(filters) => {
                let ghost before = named_sets(list@);
                let ghost new = (entries@[i as int].key@, filter_views(filters@));
                list.push((entries[i].key.clone(), filters));
                assert(named_sets(list@) =~= before.push(new));
            },
        }
        i = i + 1;
    }
    assert(all.take(i as int) =~= all);
    Ok(list)
}

/// The sets of a file with their filters, or what is wrong with the file.
pub fn check_shape(node: &Node) -> (checked: Result<Vec<NamedSet>, Fault>)
    ensures
        is_sets(checked, file_schema(node@)),
{
    proof {
        lemma_parts(*node);
    }
    match &node.value {
        Value::Keyed(entries) => {
            let ghost all = entry_views(entries@);
            let mut i: usize = 0;
            while i < entries.len()
                invariant
                    all == entry_views(entries@),
                    node@.value == ValueView::Keyed(all),
                    i <= entries@.len(),
                    file_fault(all, 0) == file_fault(all, i as int),
                decreases entries.len() - i,
            {
                let entry = &entries[i];
                assert(all[i as int] == entry@);
                if !same_text(entry.key.as_str(), "sets") {
                    return Err(unknown_entry(entry, "`sets`"));
                }
                match check_sets_shape(&entry.node) {
                    Err(fault) => return Err(fault),
                    Ok(_) => {},
                }
                i = i + 1;
            }
            match position(entries, "sets") {
                None => Err(fault(node, missing("sets"))),
                Some(at) => check_sets_shape(&entries[at].node),
            }
        },
        Value::Listed(items) => {
            if items.len() == 0 {
                return Err(fault(node, short("0", "struct FileSchema with 1 element")));
            }
            assert(node_views(items@)[0] == items@[0]@);
            check_sets_shape(&items[0])
        },
        Value::Date(_) => Err(fault(node, unknown(date_field().as_str(), "`sets`"))),
        _ => Err(wrong(node, "struct FileSchema")),
    }
}

/// Whether a value is this text.
pub open spec fn is_text(node: NodeView, text: Seq<char>) -> bool {
    node.value == ValueView::Text(text)
}

/// Whether a value is a table with one filter's name and pattern.
pub open spec fn is_filter_table(node: NodeView, filter: (Seq<char>, Seq<char>)) -> bool {
    &&& node.value matches ValueView::Keyed(entries)
    &&& entries.len() == 2
    &&& entries[0].key == "name"@
    &&& is_text(entries[0].node, filter.0)
    &&& entries[1].key == "pattern"@
    &&& is_text(entries[1].node, filter.1)
}

/// Whether a value is an array of these filters.
pub open spec fn is_filter_array(node: NodeView, filters: Seq<(Seq<char>, Seq<char>)>) -> bool {
    &&& node.value matches ValueView::Listed(items)
    &&& items.len() == filters.len()
    &&& forall|i: int| 0 <= i < items.len() ==> is_filter_table(#[trigger] items[i], filters[i])
}

/// Whether a value is a table with one key.
pub open spec fn has_one_key(node: NodeView, key: Seq<char>) -> bool {
    node.value matches ValueView::Keyed(entries) && entries.len() == 1 && entries[0].key == key
}

/// The value under the one key of a table.
pub open spec fn only_value(node: NodeView) -> NodeView {
    node.value->Keyed_0[0].node
}

/// Whether a file holds one set with these filters, and nothing else.
pub open spec fn is_set_file(
    file: NodeView,
    set: Seq<char>,
    filters: Seq<(Seq<char>, Seq<char>)>,
) -> bool {
    let sets = only_value(file);
    let table = only_value(sets);
    &&& has_one_key(file, "sets"@)
    &&& has_one_key(sets, set)
    &&& has_one_key(table, "filters"@)
    &&& is_filter_array(only_value(table), filters)
}

/// Whether a text was read as a file that holds one set with these filters, and nothing else.
pub open spec fn is_read_as(
    tree: Result<NodeView, Seq<char>>,
    set: Seq<char>,
    filters: Seq<(Seq<char>, Seq<char>)>,
) -> bool {
    tree matches Ok(file) && is_set_file(file, set, filters)
}

/// Whether the first entry under a key is the one with this value.
pub open spec fn stands_first(entries: Seq<EntryView>, key: Seq<char>, node: NodeView) -> bool {
    exists|i: int|
        0 <= i < entries.len() && (#[trigger] entries[i]).key == key && entries[i].node == node
            && forall|j: int| 0 <= j < i ==> (#[trigger] entries[j]).key != key
}

proof fn lemma_under(entries: Seq<EntryView>, key: Seq<char>, from: int)
    requires
        0 <= from <= entries.len(),
    ensures
        match under(entries, key, from) {
            Some(node) => exists|i: int|
                from <= i < entries.len() && (#[trigger] entries[i]).key == key && entries[i].node
                    == node && forall|j: int| from <= j < i ==> (#[trigger] entries[j]).key != key,
            None => forall|i: int| from <= i < entries.len() ==> (#[trigger] entries[i]).key != key,
        },
    decreases entries.len() - from,
{
    if from < entries.len() {
        if entries[from].key == key {
            assert(entries[from].key == key && entries[from].node == entries[from].node);
        } else {
            lemma_under(entries, key, from + 1);
            if let Some(node) = under(entries, key, from + 1) {
                let i = choose|i: int|
                    from + 1 <= i < entries.len() && (#[trigger] entries[i]).key == key
                        && entries[i].node == node && forall|j: int|
                        from + 1 <= j < i ==> (#[trigger] entries[j]).key != key;
                assert(entries[i].key == key);
                assert(forall|j: int| from <= j < i ==> (#[trigger] entries[j]).key != key);
            }
        }
    }
}

/// What stands under a key is the value of the first entry of that key, wherever that is; there is
/// nothing only where no entry has it.
pub proof fn law_a_key_is_looked_up(entries: Seq<EntryView>, key: Seq<char>, node: NodeView)
    ensures
        under(entries, key, 0) == Some(node) <==> stands_first(entries, key, node),
        under(entries, key, 0) is None <==> forall|i: int|
            0 <= i < entries.len() ==> (#[trigger] entries[i]).key != key,
{
    lemma_under(entries, key, 0);
    if let Some(found) = under(entries, key, 0) {
        let i = choose|i: int|
            0 <= i < entries.len() && (#[trigger] entries[i]).key == key && entries[i].node == found
                && forall|j: int| 0 <= j < i ==> (#[trigger] entries[j]).key != key;
        assert(entries[i].key == key);
        if stands_first(entries, key, node) {
            let k = choose|k: int|
                0 <= k < entries.len() && (#[trigger] entries[k]).key == key && entries[k].node
                    == node && forall|j: int| 0 <= j < k ==> (#[trigger] entries[j]).key != key;
            assert(entries[k].key == key);
            assert(i == k);
        }
    }
}

/// A text is read where there is one and only there, and it is read as it is.
pub proof fn law_only_a_text_is_a_text(node: NodeView, text: Seq<char>)
    ensures
        text_schema(node) == Ok::<Seq<char>, FaultView>(text) <==> node.value == ValueView::Text(text),
        text_schema(node) matches Err(fault) ==> fault.start == node.start && fault.end == node.end,
{
}

/// Whether an entry may stand in a filter: a text under `name` or `pattern`.
pub open spec fn is_filter_entry(entry: EntryView) -> bool {
    (entry.key == "name"@ || entry.key == "pattern"@) && entry.node.value is Text
}

proof fn lemma_filter_fault(entries: Seq<EntryView>, from: int, i: int)
    requires
        0 <= from <= i <= entries.len(),
        forall|j: int| from <= j < i ==> is_filter_entry(#[trigger] entries[j]),
        i < entries.len() ==> !is_filter_entry(entries[i]),
    ensures
        filter_fault(entries, from) == filter_fault(entries, i),
        filter_fault(entries, i) is None <==> i == entries.len(),
    decreases i - from,
{
    if from < i {
        assert(is_filter_entry(entries[from]));
        lemma_filter_fault(entries, from + 1, i);
    }
}

/// Where the first entry stands that may not stand in a filter, or how many there are.
proof fn lemma_first_odd_entry(entries: Seq<EntryView>, from: int) -> (i: int)
    requires
        0 <= from <= entries.len(),
    ensures
        from <= i <= entries.len(),
        forall|j: int| from <= j < i ==> is_filter_entry(#[trigger] entries[j]),
        i < entries.len() ==> !is_filter_entry(entries[i]),
    decreases entries.len() - from,
{
    if from < entries.len() && is_filter_entry(entries[from]) {
        lemma_first_odd_entry(entries, from + 1)
    } else {
        from
    }
}

/// Whether a value has the shape of a filter with this name and this pattern: a table with these two
/// texts and no other key, or an array whose first two values they are.
pub open spec fn has_filter_shape(node: NodeView, filter: (Seq<char>, Seq<char>)) -> bool {
    match node.value {
        ValueView::Keyed(entries) => {
            &&& forall|i: int| 0 <= i < entries.len() ==> is_filter_entry(#[trigger] entries[i])
            &&& exists|name: NodeView| #[trigger]
                stands_first(entries, "name"@, name) && name.value == ValueView::Text(filter.0)
            &&& exists|pattern: NodeView| #[trigger]
                stands_first(entries, "pattern"@, pattern) && pattern.value == ValueView::Text(
                    filter.1,
                )
        },
        ValueView::Listed(items) => items.len() >= 2 && items[0].value == ValueView::Text(filter.0)
            && items[1].value == ValueView::Text(filter.1),
        _ => false,
    }
}

/// A filter is read exactly where there is one, with the name and the pattern that it has.
pub proof fn law_a_filter_is_a_name_and_a_pattern(node: NodeView, filter: (Seq<char>, Seq<char>))
    ensures
        filter_schema(node) == Ok::<(Seq<char>, Seq<char>), FaultView>(filter) <==> has_filter_shape(
            node,
            filter,
        ),
{
    if let ValueView::Keyed(entries) = node.value {
        let i = lemma_first_odd_entry(entries, 0);
        lemma_filter_fault(entries, 0, i);
        let n = under(entries, "name"@, 0);
        let p = under(entries, "pattern"@, 0);
        law_a_key_is_looked_up(entries, "name"@, node);
        law_a_key_is_looked_up(entries, "pattern"@, node);
        if let Some(name) = n {
            law_a_key_is_looked_up(entries, "name"@, name);
        }
        if let Some(pattern) = p {
            law_a_key_is_looked_up(entries, "pattern"@, pattern);
        }
        if has_filter_shape(node, filter) {
            assert(i == entries.len());
            let name = choose|name: NodeView| #[trigger]
                stands_first(entries, "name"@, name) && name.value == ValueView::Text(filter.0);
            let pattern = choose|pattern: NodeView| #[trigger]
                stands_first(entries, "pattern"@, pattern) && pattern.value == ValueView::Text(
                    filter.1,
                );
            law_a_key_is_looked_up(entries, "name"@, name);
            law_a_key_is_looked_up(entries, "pattern"@, pattern);
        }
        if filter_schema(node) == Ok::<(Seq<char>, Seq<char>), FaultView>(filter) {
            assert(i == entries.len());
            assert(stands_first(entries, "name"@, n->Some_0));
            assert(stands_first(entries, "pattern"@, p->Some_0));
        }
    }
}

/// Of a table that is no filter the first thing that is wrong is reported, where it stands: an entry
/// of another key, then an entry that is no text; and after all entries, a key that is not there.
pub proof fn law_the_first_fault_of_a_filter(node: NodeView, entries: Seq<EntryView>, i: int)
    requires
        node.value == ValueView::Keyed(entries),
        0 <= i <= entries.len(),
        forall|j: int| 0 <= j < i ==> is_filter_entry(#[trigger] entries[j]),
        i < entries.len() ==> !is_filter_entry(entries[i]),
    ensures
        i < entries.len() && entries[i].key != "name"@ && entries[i].key != "pattern"@
            ==> filter_schema(node) == Err::<(Seq<char>, Seq<char>), FaultView>(
            FaultView {
                start: entries[i].start,
                end: entries[i].end,
                message: "unknown field `"@ + entries[i].key + "`, expected "@
                    + "`name` or `pattern`"@,
            },
        ),
        i < entries.len() && (entries[i].key == "name"@ || entries[i].key == "pattern"@)
            ==> filter_schema(node) == Err::<(Seq<char>, Seq<char>), FaultView>(
            FaultView {
                start: entries[i].node.start,
                end: entries[i].node.end,
                message: wrong_kind(entries[i].node.value, "a string"@),
            },
        ),
        i == entries.len() && (forall|j: int|
            0 <= j < entries.len() ==> (#[trigger] entries[j]).key != "name"@) ==> filter_schema(node)
            == Err::<(Seq<char>, Seq<char>), FaultView>(
            FaultView {
                start: node.start,
                end: node.end,
                message: "missing field `"@ + "name"@ + "`"@,
            },
        ),
        i == entries.len() && (exists|j: int|
            0 <= j < entries.len() && (#[trigger] entries[j]).key == "name"@) && (forall|j: int|
            0 <= j < entries.len() ==> (#[trigger] entries[j]).key != "pattern"@) ==> filter_schema(
            node,
        ) == Err::<(Seq<char>, Seq<char>), FaultView>(
            FaultView {
                start: node.start,
                end: node.end,
                message: "missing field `"@ + "pattern"@ + "`"@,
            },
        ),
{
    lemma_filter_fault(entries, 0, i);
    law_a_key_is_looked_up(entries, "name"@, node);
    law_a_key_is_looked_up(entries, "pattern"@, node);
}

/// An array of filters is read exactly where every one of its values is a filter, each in its place;
/// where one is not, the first of these is what is wrong.
pub proof fn law_every_filter_is_read(
    node: NodeView,
    items: Seq<NodeView>,
    filters: Seq<(Seq<char>, Seq<char>)>,
    i: int,
)
    requires
        node.value == ValueView::Listed(items),
    ensures
        filters_schema(node) == Ok::<Seq<(Seq<char>, Seq<char>)>, FaultView>(filters) <==> filters.len()
            == items.len() && forall|k: int|
            0 <= k < items.len() ==> filter_schema(#[trigger] items[k]) == Ok::<
                (Seq<char>, Seq<char>),
                FaultView,
            >(filters[k]),
        0 <= i < items.len() && filter_schema(items[i]) is Err && (forall|k: int|
            0 <= k < i ==> filter_schema(#[trigger] items[k]) is Ok) ==> filters_schema(node) == Err::<
            Seq<(Seq<char>, Seq<char>)>,
            FaultView,
        >(filter_schema(items[i])->Err_0),
    decreases items.len(),
{
    if items.len() > 0 {
        let n = items.len() - 1;
        let before = items.drop_last();
        let shorter = NodeView { value: ValueView::Listed(before), ..node };
        let few = filters.take(n);
        assert(forall|k: int| 0 <= k < n ==> #[trigger] before[k] == items[k]);
        assert(forall|k: int| 0 <= k < n ==> #[trigger] items[k] == before[k]);
        assert(items.last() == items[n]);
        if filters.len() == items.len() {
            assert(forall|k: int| 0 <= k < n ==> few[k] == #[trigger] filters[k]);
            assert(few.push(filters[n]) =~= filters);
            law_every_filter_is_read(shorter, before, few, i);
            if filters_schema(node) == Ok::<Seq<(Seq<char>, Seq<char>)>, FaultView>(filters) {
                let list = items_schema(before)->Ok_0;
                assert(filters.drop_last() =~= list);
                assert(few =~= list);
                assert forall|k: int| 0 <= k < items.len() implies filter_schema(#[trigger] items[k])
                    == Ok::<(Seq<char>, Seq<char>), FaultView>(filters[k]) by {
                    if k < n {
                        assert(filter_schema(before[k]) == Ok::<
                            (Seq<char>, Seq<char>),
                            FaultView,
                        >(few[k]));
                    }
                }
            }
            if forall|k: int|
                0 <= k < items.len() ==> filter_schema(#[trigger] items[k]) == Ok::<
                    (Seq<char>, Seq<char>),
                    FaultView,
                >(filters[k]) {
                assert forall|k: int| 0 <= k < n implies filter_schema(#[trigger] before[k]) == Ok::<
                    (Seq<char>, Seq<char>),
                    FaultView,
                >(few[k]) by {
                    assert(filter_schema(items[k]) is Ok);
                }
                assert(filter_schema(items[n]) is Ok);
            }
        } else {
            law_every_filter_is_read(shorter, before, few, i);
            if let Ok(list) = items_schema(before) {
                law_every_filter_is_read(shorter, before, list, i);
            }
        }
        if i == n && filter_schema(items[n]) is Err && (forall|k: int|
            0 <= k < n ==> filter_schema(#[trigger] items[k]) is Ok) {
            let all = Seq::new(n as nat, |k: int| filter_schema(items[k])->Ok_0);
            assert forall|k: int| 0 <= k < n implies filter_schema(#[trigger] before[k]) == Ok::<
                (Seq<char>, Seq<char>),
                FaultView,
            >(all[k]) by {
                assert(filter_schema(items[k]) is Ok);
            }
            law_every_filter_is_read(shorter, before, all, i);
        }
    } else {
        assert(filters.len() == 0 ==> filters =~= seq![]);
    }
}

/// Whether an entry may stand in a set: an array of filters under `filters`.
pub open spec fn is_set_entry(entry: EntryView) -> bool {
    entry.key == "filters"@ && filters_schema(entry.node) is Ok
}

proof fn lemma_set_fault(entries: Seq<EntryView>, from: int, i: int)
    requires
        0 <= from <= i <= entries.len(),
        forall|j: int| from <= j < i ==> is_set_entry(#[trigger] entries[j]),
        i < entries.len() ==> !is_set_entry(entries[i]),
    ensures
        set_fault(entries, from) == set_fault(entries, i),
        set_fault(entries, i) is None <==> i == entries.len(),
    decreases i - from,
{
    if from < i {
        assert(is_set_entry(entries[from]));
        lemma_set_fault(entries, from + 1, i);
    }
}

proof fn lemma_first_odd_set_entry(entries: Seq<EntryView>, from: int) -> (i: int)
    requires
        0 <= from <= entries.len(),
    ensures
        from <= i <= entries.len(),
        forall|j: int| from <= j < i ==> is_set_entry(#[trigger] entries[j]),
        i < entries.len() ==> !is_set_entry(entries[i]),
    decreases entries.len() - from,
{
    if from < entries.len() && is_set_entry(entries[from]) {
        lemma_first_odd_set_entry(entries, from + 1)
    } else {
        from
    }
}

/// Whether a value has the shape of a set with these filters: a table with them under `filters` and no
/// other key, or an array whose first value they are.
pub open spec fn has_set_shape(node: NodeView, filters: Seq<(Seq<char>, Seq<char>)>) -> bool {
    match node.value {
        ValueView::Keyed(entries) => {
            &&& forall|i: int| 0 <= i < entries.len() ==> is_set_entry(#[trigger] entries[i])
            &&& exists|value: NodeView| #[trigger]
                stands_first(entries, "filters"@, value) && filters_schema(value) == Ok::<
                    Seq<(Seq<char>, Seq<char>)>,
                    FaultView,
                >(filters)
        },
        ValueView::Listed(items) => items.len() >= 1 && filters_schema(items[0]) == Ok::<
            Seq<(Seq<char>, Seq<char>)>,
            FaultView,
        >(filters),
        _ => false,
    }
}

/// A set is read exactly where there is one, with the filters that it has.
pub proof fn law_a_set_is_its_filters(node: NodeView, filters: Seq<(Seq<char>, Seq<char>)>)
    ensures
        set_schema(node) == Ok::<Seq<(Seq<char>, Seq<char>)>, FaultView>(filters) <==> has_set_shape(node, filters),
{
    if let ValueView::Keyed(entries) = node.value {
        let i = lemma_first_odd_set_entry(entries, 0);
        lemma_set_fault(entries, 0, i);
        law_a_key_is_looked_up(entries, "filters"@, node);
        let found = under(entries, "filters"@, 0);
        if let Some(value) = found {
            law_a_key_is_looked_up(entries, "filters"@, value);
        }
        if has_set_shape(node, filters) {
            assert(i == entries.len());
            let value = choose|value: NodeView| #[trigger]
                stands_first(entries, "filters"@, value) && filters_schema(value) == Ok::<
                    Seq<(Seq<char>, Seq<char>)>,
                    FaultView,
                >(filters);
            law_a_key_is_looked_up(entries, "filters"@, value);
        }
        if set_schema(node) == Ok::<Seq<(Seq<char>, Seq<char>)>, FaultView>(filters) {
            assert(i == entries.len());
            assert(stands_first(entries, "filters"@, found->Some_0));
        }
    }
}

/// Of a table that is no set the first thing that is wrong is reported, where it stands.
pub proof fn law_the_first_fault_of_a_set(node: NodeView, entries: Seq<EntryView>, i: int)
    requires
        node.value == ValueView::Keyed(entries),
        0 <= i <= entries.len(),
        forall|j: int| 0 <= j < i ==> is_set_entry(#[trigger] entries[j]),
        i < entries.len() ==> !is_set_entry(entries[i]),
    ensures
        i < entries.len() && entries[i].key != "filters"@ ==> set_schema(node) == Err::<
            Seq<(Seq<char>, Seq<char>)>,
            FaultView,
        >(
            FaultView {
                start: entries[i].start,
                end: entries[i].end,
                message: "unknown field `"@ + entries[i].key + "`, expected "@ + "`filters`"@,
            },
        ),
        i < entries.len() && entries[i].key == "filters"@ ==> set_schema(node) == Err::<
            Seq<(Seq<char>, Seq<char>)>,
            FaultView,
        >(filters_schema(entries[i].node)->Err_0),
        entries.len() == 0 ==> set_schema(node) == Err::<Seq<(Seq<char>, Seq<char>)>, FaultView>(
            FaultView {
                start: node.start,
                end: node.end,
                message: "missing field `"@ + "filters"@ + "`"@,
            },
        ),
{
    lemma_set_fault(entries, 0, i);
    law_a_key_is_looked_up(entries, "filters"@, node);
}

/// The sets of a table are read exactly where every one of its values is a set, each under its key and
/// in its place; where one is not, the first of these is what is wrong.
pub proof fn law_every_set_is_read(
    node: NodeView,
    entries: Seq<EntryView>,
    sets: Seq<(Seq<char>, Seq<(Seq<char>, Seq<char>)>)>,
    i: int,
)
    requires
        node.value == ValueView::Keyed(entries),
    ensures
        sets_schema(node) == Ok::<Seq<(Seq<char>, Seq<(Seq<char>, Seq<char>)>)>, FaultView>(sets) <==> {
            &&& sets.len() == entries.len()
            &&& forall|k: int|
                0 <= k < entries.len() ==> (#[trigger] entries[k]).key == sets[k].0 && set_schema(
                    entries[k].node,
                ) == Ok::<Seq<(Seq<char>, Seq<char>)>, FaultView>(sets[k].1)
        },
        0 <= i < entries.len() && set_schema(entries[i].node) is Err && (forall|k: int|
            0 <= k < i ==> set_schema((#[trigger] entries[k]).node) is Ok) ==> sets_schema(node)
            == Err::<Seq<(Seq<char>, Seq<(Seq<char>, Seq<char>)>)>, FaultView>(
            set_schema(entries[i].node)->Err_0,
        ),
{
    lemma_sets_read(entries);
    if let Ok(list) = entries_schema(entries) {
        if sets.len() == entries.len() && forall|k: int|
            0 <= k < entries.len() ==> (#[trigger] entries[k]).key == sets[k].0 && set_schema(
                entries[k].node,
            ) == Ok::<Seq<(Seq<char>, Seq<char>)>, FaultView>(sets[k].1) {
            assert forall|k: int| 0 <= k < sets.len() implies #[trigger] sets[k] == list[k] by {
                assert(entries[k].key == sets[k].0);
            }
            assert(sets =~= list);
        }
    }
    if 0 <= i < entries.len() && set_schema(entries[i].node) is Err && (forall|k: int|
        0 <= k < i ==> set_schema((#[trigger] entries[k]).node) is Ok) {
        lemma_first_faulty_set_is_reported(entries, i);
    }
}

proof fn lemma_sets_read(entries: Seq<EntryView>)
    ensures
        entries_schema(entries) matches Ok(list) ==> list.len() == entries.len() && forall|k: int|
            0 <= k < entries.len() ==> (#[trigger] entries[k]).key == list[k].0 && set_schema(
                entries[k].node,
            ) == Ok::<Seq<(Seq<char>, Seq<char>)>, FaultView>(list[k].1),
        entries_schema(entries) is Err ==> exists|k: int|
            0 <= k < entries.len() && set_schema((#[trigger] entries[k]).node) is Err,
    decreases entries.len(),
{
    if entries.len() > 0 {
        let n = entries.len() - 1;
        let before = entries.drop_last();
        lemma_sets_read(before);
        assert(entries.last() == entries[n]);
        if entries_schema(before) is Err {
            let k = choose|k: int|
                0 <= k < before.len() && set_schema((#[trigger] before[k]).node) is Err;
            assert(entries[k] == before[k]);
        }
        if let Ok(list) = entries_schema(entries) {
            let few = entries_schema(before)->Ok_0;
            assert forall|k: int| 0 <= k < entries.len() implies (#[trigger] entries[k]).key
                == list[k].0 && set_schema(entries[k].node) == Ok::<
                Seq<(Seq<char>, Seq<char>)>,
                FaultView,
            >(list[k].1) by {
                if k < n {
                    assert(before[k] == entries[k]);
                    assert(list[k] == few[k]);
                }
            }
        }
    }
}

proof fn lemma_first_faulty_set_is_reported(entries: Seq<EntryView>, i: int)
    requires
        0 <= i < entries.len(),
        set_schema(entries[i].node) is Err,
        forall|k: int| 0 <= k < i ==> set_schema((#[trigger] entries[k]).node) is Ok,
    ensures
        entries_schema(entries) == Err::<
            Seq<(Seq<char>, Seq<(Seq<char>, Seq<char>)>)>,
            FaultView,
        >(set_schema(entries[i].node)->Err_0),
    decreases entries.len(),
{
    let before = entries.drop_last();
    if i < before.len() {
        assert(before[i] == entries[i]);
        lemma_first_faulty_set_is_reported(before, i);
    } else {
        lemma_sets_read(before);
        if entries_schema(before) is Err {
            let k = choose|k: int|
                0 <= k < before.len() && set_schema((#[trigger] before[k]).node) is Err;
            assert(entries[k] == before[k]);
        }
    }
}

/// Whether an entry may stand in a file: a table of sets under `sets`.
pub open spec fn is_file_entry(entry: EntryView) -> bool {
    entry.key == "sets"@ && sets_schema(entry.node) is Ok
}

proof fn lemma_file_fault(entries: Seq<EntryView>, from: int, i: int)
    requires
        0 <= from <= i <= entries.len(),
        forall|j: int| from <= j < i ==> is_file_entry(#[trigger] entries[j]),
        i < entries.len() ==> !is_file_entry(entries[i]),
    ensures
        file_fault(entries, from) == file_fault(entries, i),
        file_fault(entries, i) is None <==> i == entries.len(),
    decreases i - from,
{
    if from < i {
        assert(is_file_entry(entries[from]));
        lemma_file_fault(entries, from + 1, i);
    }
}

proof fn lemma_first_odd_file_entry(entries: Seq<EntryView>, from: int) -> (i: int)
    requires
        0 <= from <= entries.len(),
    ensures
        from <= i <= entries.len(),
        forall|j: int| from <= j < i ==> is_file_entry(#[trigger] entries[j]),
        i < entries.len() ==> !is_file_entry(entries[i]),
    decreases entries.len() - from,
{
    if from < entries.len() && is_file_entry(entries[from]) {
        lemma_first_odd_file_entry(entries, from + 1)
    } else {
        from
    }
}

/// Whether a value has the shape of a file with these sets: a table with them under `sets` and no other
/// key, or an array whose first value they are.
pub open spec fn has_file_shape(node: NodeView, sets: Seq<(Seq<char>, Seq<(Seq<char>, Seq<char>)>)>) -> bool {
    match node.value {
        ValueView::Keyed(entries) => {
            &&& forall|i: int| 0 <= i < entries.len() ==> is_file_entry(#[trigger] entries[i])
            &&& exists|value: NodeView| #[trigger]
                stands_first(entries, "sets"@, value) && sets_schema(value) == Ok::<
                    Seq<(Seq<char>, Seq<(Seq<char>, Seq<char>)>)>,
                    FaultView,
                >(sets)
        },
        ValueView::Listed(items) => items.len() >= 1 && sets_schema(items[0]) == Ok::<
            Seq<(Seq<char>, Seq<(Seq<char>, Seq<char>)>)>,
            FaultView,
        >(sets),
        _ => false,
    }
}

/// A file is read exactly where there is one, with the sets that it has.
pub proof fn law_a_file_is_its_sets(node: NodeView, sets: Seq<(Seq<char>, Seq<(Seq<char>, Seq<char>)>)>)
    ensures
        file_schema(node) == Ok::<Seq<(Seq<char>, Seq<(Seq<char>, Seq<char>)>)>, FaultView>(sets) <==> has_file_shape(node, sets),
{
    if let ValueView::Keyed(entries) = node.value {
        let i = lemma_first_odd_file_entry(entries, 0);
        lemma_file_fault(entries, 0, i);
        law_a_key_is_looked_up(entries, "sets"@, node);
        let found = under(entries, "sets"@, 0);
        if let Some(value) = found {
            law_a_key_is_looked_up(entries, "sets"@, value);
        }
        if has_file_shape(node, sets) {
            assert(i == entries.len());
            let value = choose|value: NodeView| #[trigger]
                stands_first(entries, "sets"@, value) && sets_schema(value) == Ok::<
                    Seq<(Seq<char>, Seq<(Seq<char>, Seq<char>)>)>,
                    FaultView,
                >(sets);
            law_a_key_is_looked_up(entries, "sets"@, value);
        }
        if file_schema(node) == Ok::<Seq<(Seq<char>, Seq<(Seq<char>, Seq<char>)>)>, FaultView>(sets) {
            assert(i == entries.len());
            assert(stands_first(entries, "sets"@, found->Some_0));
        }
    }
}

/// Of a table that is no file the first thing that is wrong is reported, where it stands.
pub proof fn law_the_first_fault_of_a_file(node: NodeView, entries: Seq<EntryView>, i: int)
    requires
        node.value == ValueView::Keyed(entries),
        0 <= i <= entries.len(),
        forall|j: int| 0 <= j < i ==> is_file_entry(#[trigger] entries[j]),
        i < entries.len() ==> !is_file_entry(entries[i]),
    ensures
        i < entries.len() && entries[i].key != "sets"@ ==> file_schema(node) == Err::<
            Seq<(Seq<char>, Seq<(Seq<char>, Seq<char>)>)>,
            FaultView,
        >(
            FaultView {
                start: entries[i].start,
                end: entries[i].end,
                message: "unknown field `"@ + entries[i].key + "`, expected "@ + "`sets`"@,
            },
        ),
        i < entries.len() && entries[i].key == "sets"@ ==> file_schema(node) == Err::<
            Seq<(Seq<char>, Seq<(Seq<char>, Seq<char>)>)>,
            FaultView,
        >(sets_schema(entries[i].node)->Err_0),
        entries.len() == 0 ==> file_schema(node) == Err::<Seq<(Seq<char>, Seq<(Seq<char>, Seq<char>)>)>, FaultView>(
            FaultView {
                start: node.start,
                end: node.end,
                message: "missing field `"@ + "sets"@ + "`"@,
            },
        ),
{
    lemma_file_fault(entries, 0, i);
    law_a_key_is_looked_up(entries, "sets"@, node);
}

/// Of an array that stands for a filter, a set or a file, and is too short for it, its length is
/// reported, after a name that is no text.
pub proof fn law_an_array_may_be_too_short(node: NodeView, items: Seq<NodeView>)
    requires
        node.value == ValueView::Listed(items),
    ensures
        items.len() == 0 ==> {
            &&& filter_schema(node) == Err::<(Seq<char>, Seq<char>), FaultView>(
                fault_at(node, "invalid length 0, expected struct FilterSchema with 2 elements"@),
            )
            &&& set_schema(node) == Err::<Seq<(Seq<char>, Seq<char>)>, FaultView>(
                fault_at(node, "invalid length 0, expected struct SetSchema with 1 element"@),
            )
            &&& file_schema(node) == Err::<
                Seq<(Seq<char>, Seq<(Seq<char>, Seq<char>)>)>,
                FaultView,
            >(fault_at(node, "invalid length 0, expected struct FileSchema with 1 element"@))
        },
        items.len() == 1 && items[0].value is Text ==> filter_schema(node) == Err::<
            (Seq<char>, Seq<char>),
            FaultView,
        >(fault_at(node, "invalid length 1, expected struct FilterSchema with 2 elements"@)),
        items.len() > 0 && !(items[0].value is Text) ==> filter_schema(node) == Err::<
            (Seq<char>, Seq<char>),
            FaultView,
        >(fault_at(items[0], wrong_kind(items[0].value, "a string"@))),
        items.len() > 1 && items[0].value is Text && !(items[1].value is Text) ==> filter_schema(node)
            == Err::<(Seq<char>, Seq<char>), FaultView>(
            fault_at(items[1], wrong_kind(items[1].value, "a string"@)),
        ),
        items.len() > 0 ==> set_schema(node) == filters_schema(items[0]) && file_schema(node)
            == sets_schema(items[0]),
{
    reveal_strlit("invalid length ");
    reveal_strlit("0");
    reveal_strlit("1");
    reveal_strlit(", expected ");
    if items.len() == 0 {
        reveal_strlit("struct FilterSchema with 2 elements");
        reveal_strlit("struct SetSchema with 1 element");
        reveal_strlit("struct FileSchema with 1 element");
        reveal_strlit("invalid length 0, expected struct FilterSchema with 2 elements");
        reveal_strlit("invalid length 0, expected struct SetSchema with 1 element");
        reveal_strlit("invalid length 0, expected struct FileSchema with 1 element");
        assert(too_short("0"@, "struct FilterSchema with 2 elements"@)
            =~= "invalid length 0, expected struct FilterSchema with 2 elements"@);
        assert(too_short("0"@, "struct SetSchema with 1 element"@)
            =~= "invalid length 0, expected struct SetSchema with 1 element"@);
        assert(too_short("0"@, "struct FileSchema with 1 element"@)
            =~= "invalid length 0, expected struct FileSchema with 1 element"@);
    } else {
        reveal_strlit("struct FilterSchema with 2 elements");
        reveal_strlit("invalid length 1, expected struct FilterSchema with 2 elements");
        assert(too_short("1"@, "struct FilterSchema with 2 elements"@)
            =~= "invalid length 1, expected struct FilterSchema with 2 elements"@);
    }
}

/// What is neither a table nor an array is no filter, no set and no file; what is no array holds no
/// filters, and what is no table no sets. Each is reported where it stands, with what was expected.
pub proof fn law_other_values_are_refused(node: NodeView)
    ensures
        node.value is Text || node.value is Other ==> {
            &&& filter_schema(node) == Err::<(Seq<char>, Seq<char>), FaultView>(
                fault_at(node, wrong_kind(node.value, "struct FilterSchema"@)),
            )
            &&& set_schema(node) == Err::<Seq<(Seq<char>, Seq<char>)>, FaultView>(
                fault_at(node, wrong_kind(node.value, "struct SetSchema"@)),
            )
            &&& file_schema(node) == Err::<
                Seq<(Seq<char>, Seq<(Seq<char>, Seq<char>)>)>,
                FaultView,
            >(fault_at(node, wrong_kind(node.value, "struct FileSchema"@)))
        },
        node.value is Date ==> {
            &&& filter_schema(node) == Err::<(Seq<char>, Seq<char>), FaultView>(
                fault_at(
                    node,
                    "unknown field `"@ + "$__toml_private_datetime"@ + "`, expected "@
                        + "`name` or `pattern`"@,
                ),
            )
            &&& set_schema(node) == Err::<Seq<(Seq<char>, Seq<char>)>, FaultView>(
                fault_at(
                    node,
                    "unknown field `"@ + "$__toml_private_datetime"@ + "`, expected "@
                        + "`filters`"@,
                ),
            )
            &&& file_schema(node) == Err::<
                Seq<(Seq<char>, Seq<(Seq<char>, Seq<char>)>)>,
                FaultView,
            >(
                fault_at(
                    node,
                    "unknown field `"@ + "$__toml_private_datetime"@ + "`, expected "@ + "`sets`"@,
                ),
            )
        },
        !(node.value is Listed) ==> filters_schema(node) == Err::<
            Seq<(Seq<char>, Seq<char>)>,
            FaultView,
        >(fault_at(node, wrong_kind(node.value, "a sequence"@))),
        !(node.value is Keyed) && !(node.value is Date) ==> sets_schema(node) == Err::<
            Seq<(Seq<char>, Seq<(Seq<char>, Seq<char>)>)>,
            FaultView,
        >(fault_at(node, wrong_kind(node.value, "a map"@))),
        node.value matches ValueView::Date(text) ==> sets_schema(node) == Err::<
            Seq<(Seq<char>, Seq<(Seq<char>, Seq<char>)>)>,
            FaultView,
        >(
            fault_at(
                node,
                "invalid type: string "@ + debug_text(text) + ", expected "@ + "struct SetSchema"@,
            ),
        ),
        forall|message: Seq<char>| #[trigger]
            fault_at(node, message) == (FaultView { start: node.start, end: node.end, message }),
{
}

/// A value of the wrong kind is called by its kind, a text by what it says, and the message ends with
/// what was expected in its place.
pub proof fn law_a_wrong_kind_is_named(value: ValueView, start: Seq<char>, expected: Seq<char>)
    ensures
        value matches ValueView::Text(text) ==> wrong_kind(value, expected) == "invalid type: string "@
            + debug_text(text) + ", expected "@ + expected,
        value is Listed ==> wrong_kind(value, expected) == "invalid type: sequence"@ + ", expected "@
            + expected,
        value is Keyed || value is Date ==> wrong_kind(value, expected) == "invalid type: map"@
            + ", expected "@ + expected,
        value == ValueView::Other(start + "unit"@) ==> wrong_kind(value, expected) == start + expected,
        value matches ValueView::Other(said) ==> (!"unit"@.is_suffix_of(said) ==> wrong_kind(
            value,
            expected,
        ) == said),
{
    reveal_strlit("invalid type: sequence");
    reveal_strlit("invalid type: sequence, expected ");
    reveal_strlit("invalid type: map");
    reveal_strlit("invalid type: map, expected ");
    reveal_strlit(", expected ");
    reveal_strlit("unit");
    assert("invalid type: sequence"@ + ", expected "@ =~= "invalid type: sequence, expected "@);
    assert("invalid type: map"@ + ", expected "@ =~= "invalid type: map, expected "@);
    let said = start + "unit"@;
    assert(said.skip(said.len() - 4) =~= "unit"@);
    assert(said.take(said.len() - 4) =~= start);
    if let ValueView::Other(other) = value {
        if other.len() >= 4 {
            assert(other.skip(other.len() - 4) =~= other.subrange(
                other.len() - 4,
                other.len() as int,
            ));
        }
    }
}

/// What is checked is read or refused as the schema has it: never both, and never otherwise.
pub proof fn law_what_is_checked_is_what_the_schema_says(
    pair: Result<(String, String), Fault>,
    filter: Result<(Seq<char>, Seq<char>), FaultView>,
    list: Result<Vec<(String, String)>, Fault>,
    filters: Result<Seq<(Seq<char>, Seq<char>)>, FaultView>,
    named: Result<Vec<NamedSet>, Fault>,
    sets: Result<Seq<(Seq<char>, Seq<(Seq<char>, Seq<char>)>)>, FaultView>,
)
    requires
        is_pair(pair, filter),
        is_filters(list, filters),
        is_sets(named, sets),
    ensures
        pair is Ok <==> filter is Ok,
        pair matches Ok(pair) ==> pair.0@ == filter->Ok_0.0 && pair.1@ == filter->Ok_0.1,
        pair matches Err(fault) ==> fault@ == filter->Err_0,
        list is Ok <==> filters is Ok,
        list matches Ok(list) ==> list@.len() == filters->Ok_0.len() && forall|i: int|
            0 <= i < list@.len() ==> (#[trigger] list@[i]).0@ == filters->Ok_0[i].0 && list@[i].1@
                == filters->Ok_0[i].1,
        list matches Err(fault) ==> fault@ == filters->Err_0,
        named is Ok <==> sets is Ok,
        named matches Ok(list) ==> list@.len() == sets->Ok_0.len() && forall|i: int|
            0 <= i < list@.len() ==> (#[trigger] list@[i]).0@ == sets->Ok_0[i].0
                && list@[i].1@.len() == sets->Ok_0[i].1.len(),
        named matches Err(fault) ==> fault@ == sets->Err_0,
{
    if let Ok(list) = named {
        let all = named_sets(list@);
        assert forall|i: int| 0 <= i < list@.len() implies (#[trigger] list@[i]).0@
            == sets->Ok_0[i].0 && list@[i].1@.len() == sets->Ok_0[i].1.len() by {
            assert(all[i] == (list@[i].0@, filter_views(list@[i].1@)));
        }
    }
    if let Ok(list) = list {
        let all = filter_views(list@);
        assert forall|i: int| 0 <= i < list@.len() implies (#[trigger] list@[i]).0@
            == filters->Ok_0[i].0 && list@[i].1@ == filters->Ok_0[i].1 by {
            assert(all[i] == (list@[i].0@, list@[i].1@));
        }
    }
}

/// A fault shows the bytes that it stands between and what is wrong there.
pub proof fn law_a_fault_shows_where_it_stands(fault: Fault)
    ensures
        fault@.start == fault.start,
        fault@.end == fault.end,
        fault@.message == fault.message@,
{
}

} // verus!
