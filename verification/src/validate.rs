//! Whether recon loads a file.
use crate::convert::{filter_views, names};
use crate::error::Error;
use crate::outside::{
    compile_fault, debug_text, error_at, quoted, regex_error, too_large, toml_place, toml_tree,
};
use crate::schema::{
    check_shape, entries_schema, file_fault, file_schema, filter_fault, filter_schema,
    filters_schema, is_filter_array, is_filter_table, is_read_as, items_schema, named_sets,
    set_fault, set_schema, sets_schema, text_schema, under, Fault, FaultView, NamedSet,
};
use crate::template::{is_rendered, is_small};
use crate::text::{chars_of, same_text, text_of};
use crate::tree::{read_tree, tree_view, Node, NodeView};
use vstd::prelude::*;
use vstd::utf8::encode_utf8;

verus! {

/// Where in a text a fault stands, if it stands in the text.
pub open spec fn place_of(text: Seq<char>, fault: FaultView) -> Seq<char> {
    if fault.start <= fault.end <= encode_utf8(text).len() {
        toml_place(text, fault.start, fault.end)
    } else {
        seq![]
    }
}

/// What is said of a fault in a text: where it stands, and what it is.
pub open spec fn fault_text(text: Seq<char>, fault: FaultView) -> Seq<char> {
    place_of(text, fault) + fault.message + seq!['\n']
}

/// The filters of the set of this name, among the sets at or after `from`.
pub open spec fn filters_of(
    sets: Seq<(Seq<char>, Seq<(Seq<char>, Seq<char>)>)>,
    set: Seq<char>,
    from: int,
) -> Option<Seq<(Seq<char>, Seq<char>)>>
    decreases sets.len() - from,
{
    if from < 0 || from >= sets.len() {
        None
    } else if sets[from].0 == set {
        Some(sets[from].1)
    } else {
        filters_of(sets, set, from + 1)
    }
}

/// The filters of a set in a file, or what is wrong: the file has the right shape, there is a set
/// of that name, the name is not empty, and the set has a filter.
pub open spec fn set_in(
    text: Seq<char>,
    tree: Result<NodeView, Seq<char>>,
    set: Seq<char>,
) -> Result<Seq<(Seq<char>, Seq<char>)>, Seq<char>> {
    match tree {
        Err(cause) => Err(cause),
        Ok(file) => match file_schema(file) {
            Err(fault) => Err(fault_text(text, fault)),
            Ok(sets) => match filters_of(sets, set, 0) {
                None => Err("no [sets."@ + set + "] table"@),
                Some(filters) => if set.len() == 0 {
                    Err("the set's name is empty"@)
                } else if filters.len() == 0 {
                    Err("[sets."@ + set + "] has no filters"@)
                } else {
                    Ok(filters)
                },
            },
        },
    }
}

/// What is wrong with the first faulty filter at or after `from`: its pattern does not compile, or
/// an earlier filter has its name. `errors` says of each pattern why it does not compile, if it
/// does not.
pub open spec fn fault_in(
    filters: Seq<(Seq<char>, Seq<char>)>,
    errors: Seq<Option<Seq<char>>>,
    from: int,
) -> Option<Seq<char>>
    decreases filters.len() - from,
{
    if from < 0 || from >= filters.len() {
        None
    } else {
        match errors[from] {
            Some(error) => Some(
                "filter "@ + debug_text(filters[from].0)
                    + " has a pattern recon cannot compile: "@ + error,
            ),
            None => if names(filters.take(from)).contains(filters[from].0) {
                Some("two filters named "@ + debug_text(filters[from].0))
            } else {
                fault_in(filters, errors, from + 1)
            },
        }
    }
}

/// Why each of some patterns does not compile, if it does not.
pub open spec fn regex_errors(filters: Seq<(Seq<char>, Seq<char>)>) -> Seq<Option<Seq<char>>> {
    filters.map_values(|filter: (Seq<char>, Seq<char>)| regex_error(filter.1))
}

/// What is known of a pattern that templates give: it compiles, unless it is too large, and it does
/// in any case where it is small.
pub open spec fn compiles(pattern: Seq<char>) -> bool {
    &&& is_rendered(pattern) ==> match regex_error(pattern) {
        Some(error) => error == too_large(),
        None => true,
    }
    &&& is_small(pattern) ==> regex_error(pattern) is None
}

/// Whether this is known of every pattern of a set in a file.
pub open spec fn patterns_compile(text: Seq<char>, set: Seq<char>) -> bool {
    match set_in(text, toml_tree(text), set) {
        Ok(filters) => rendered_compile(filters),
        Err(_) => true,
    }
}

/// Whether this is known of every pattern.
pub open spec fn rendered_compile(filters: Seq<(Seq<char>, Seq<char>)>) -> bool {
    forall|i: int| 0 <= i < filters.len() ==> compiles((#[trigger] filters[i]).1)
}

/// What is wrong with a text as a file of sets, if anything is, as far as a set is concerned.
pub open spec fn fault_of(text: Seq<char>, set: Seq<char>) -> Option<Seq<char>> {
    match set_in(text, toml_tree(text), set) {
        Err(fault) => Some(fault),
        Ok(filters) => fault_in(filters, regex_errors(filters), 0),
    }
}

/// Whether `result` reports `fault` and nothing else.
pub open spec fn reports(result: Result<(), Error>, fault: Option<Seq<char>>) -> bool {
    match fault {
        Some(fault) => result matches Err(Error::Bug { message }) && message@ == fault,
        None => result is Ok,
    }
}

/// Where in a text a fault stands, if it stands in the text.
fn place(text: &str, fault: &Fault) -> (place: String)
    ensures
        place@ == place_of(text@, fault@),
{
    if fault.start <= fault.end && fault.end <= text.as_bytes().len() {
        let said = error_at(text, fault.start, fault.end);
        let chars = chars_of(said.as_str());
        let tail: &str = "invalid type: boolean `true`, expected unit\n";
        let length = chars_of(tail).len();
        let ghost at = toml_place(text@, fault.start as nat, fault.end as nat);
        assert(said@ == at + tail@);
        let end = chars.len() - length;
        assert(said@.subrange(0, end as int) =~= at);
        text_of(&chars, 0, end)
    } else {
        String::new()
    }
}

/// What is said of a fault in a text.
pub fn say_fault(text: &str, fault: &Fault) -> (said: String)
    ensures
        said@ == fault_text(text@, fault@),
{
    let mut said = place(text, fault).concat(fault.message.as_str());
    said.push('\n');
    assert(said@ =~= fault_text(text@, fault@));
    said
}

/// Where the set of this name stands.
fn named_at(sets: &Vec<NamedSet>, set: &str) -> (at: Option<usize>)
    ensures
        match at {
            Some(at) => at < sets@.len() && filters_of(named_sets(sets@), set@, 0) == Some(
                filter_views(sets@[at as int].1@),
            ),
            None => filters_of(named_sets(sets@), set@, 0) is None,
        },
{
    let ghost all = named_sets(sets@);
    let mut i: usize = 0;
    while i < sets.len()
        invariant
            all == named_sets(sets@),
            i <= sets@.len(),
            filters_of(all, set@, 0) == filters_of(all, set@, i as int),
        decreases sets.len() - i,
    {
        if same_text(sets[i].0.as_str(), set) {
            return Some(i);
        }
        i = i + 1;
    }
    None
}

/// The filters of a set in a file that was read from a text, or what is wrong.
pub fn set_filters(text: &str, tree: &Result<Node, String>, set: &str) -> (filters: Result<
    Vec<(String, String)>,
    Error,
>)
    ensures
        match filters {
            Ok(filters) => set_in(text@, tree_view(*tree), set@) == Ok::<
                Seq<(Seq<char>, Seq<char>)>,
                Seq<char>,
            >(filter_views(filters@)),
            Err(Error::Bug { message }) => set_in(text@, tree_view(*tree), set@) == Err::<
                Seq<(Seq<char>, Seq<char>)>,
                Seq<char>,
            >(message@),
            Err(_) => false,
        },
{
    let file = match tree {
        Err(cause) => return Err(Error::Bug { message: cause.clone() }),
        Ok(file) => file,
    };
    let mut sets = match check_shape(file) {
        Err(fault) => return Err(Error::Bug { message: say_fault(text, &fault) }),
        Ok(sets) => sets,
    };
    let at = match named_at(&sets, set) {
        None => return Err(
            Error::Bug { message: "no [sets.".to_owned().concat(set).concat("] table") },
        ),
        Some(at) => at,
    };
    let (_, filters) = sets.swap_remove(at);
    if set.is_empty() {
        return Err(Error::Bug { message: "the set's name is empty".to_owned() });
    }
    if filters.len() == 0 {
        return Err(
            Error::Bug { message: "[sets.".to_owned().concat(set).concat("] has no filters") },
        );
    }
    Ok(filters)
}

/// Whether some filter before `end` has the name of the one at `end`.
fn named_before(filters: &Vec<(String, String)>, end: usize) -> (named: bool)
    requires
        end < filters@.len(),
    ensures
        named == names(filter_views(filters@).take(end as int)).contains(filters@[end as int].0@),
{
    let ghost before = names(filter_views(filters@).take(end as int));
    let mut i: usize = 0;
    while i < end
        invariant
            before == names(filter_views(filters@).take(end as int)),
            i <= end < filters@.len(),
            forall|j: int| 0 <= j < i ==> #[trigger] before[j] != filters@[end as int].0@,
        decreases end - i,
    {
        if filters[i].0 == filters[end].0 {
            assert(before[i as int] == filters@[end as int].0@);
            return true;
        }
        i = i + 1;
    }
    false
}

/// Why each of some patterns does not compile, if it does not.
pub open spec fn error_views(errors: Seq<Option<String>>) -> Seq<Option<Seq<char>>> {
    errors.map_values(
        |error: Option<String>|
            match error {
                Some(error) => Some(error@),
                None => None,
            },
    )
}

/// Whether every pattern compiles and no two filters have the same name. `errors` says of each
/// pattern why it does not compile, if it does not.
pub fn check_filters(filters: &Vec<(String, String)>, errors: &Vec<Option<String>>) -> (result:
    Result<(), Error>)
    requires
        errors@.len() == filters@.len(),
    ensures
        reports(result, fault_in(filter_views(filters@), error_views(errors@), 0)),
{
    let ghost all = filter_views(filters@);
    let ghost why = error_views(errors@);
    let mut i: usize = 0;
    while i < filters.len()
        invariant
            all == filter_views(filters@),
            why == error_views(errors@),
            errors@.len() == filters@.len(),
            i <= filters@.len(),
            fault_in(all, why, 0) == fault_in(all, why, i as int),
        decreases filters.len() - i,
    {
        assert(all[i as int].0 == filters@[i as int].0@);
        if let Some(error) = &errors[i] {
            let message = "filter ".to_owned().concat(quoted(filters[i].0.as_str()).as_str()).concat(
                " has a pattern recon cannot compile: ",
            ).concat(error.as_str());
            return Err(Error::Bug { message });
        }
        if named_before(filters, i) {
            let message = "two filters named ".to_owned().concat(
                quoted(filters[i].0.as_str()).as_str(),
            );
            return Err(Error::Bug { message });
        }
        i = i + 1;
    }
    Ok(())
}

/// Whether recon loads a file, as far as a set is concerned: it is TOML of the right shape, the set
/// is there and has a name and a filter, every pattern compiles, and no two filters have the same
/// name.
pub fn validate(text: &str, set: &str) -> (result: Result<(), Error>)
    ensures
        reports(result, fault_of(text@, set@)),
        patterns_compile(text@, set@),
{
    let filters = match set_filters(text, &read_tree(text), set) {
        Ok(filters) => filters,
        Err(err) => return Err(err),
    };
    let ghost all = filter_views(filters@);
    let mut errors: Vec<Option<String>> = Vec::new();
    let mut i: usize = 0;
    while i < filters.len()
        invariant
            all == filter_views(filters@),
            i <= filters@.len(),
            error_views(errors@) =~= regex_errors(all).take(i as int),
            rendered_compile(all.take(i as int)),
        decreases filters.len() - i,
    {
        assert(all[i as int].1 == filters@[i as int].1@);
        let ghost before = errors@;
        let error = compile_fault(filters[i].1.as_str());
        errors.push(error);
        proof {
            assert(error_views(errors@).drop_last() =~= error_views(before));
            assert forall|j: int| 0 <= j < i + 1 implies compiles(
                (#[trigger] all.take(i + 1)[j]).1,
            ) by {
                if j < i {
                    assert(all.take(i + 1)[j] == all.take(i as int)[j]);
                }
            }
        }
        i = i + 1;
    }
    assert(all.take(i as int) =~= all);
    assert(error_views(errors@) =~= regex_errors(all));
    check_filters(&filters, &errors)
}

proof fn lemma_filter_has_shape(node: NodeView, filter: (Seq<char>, Seq<char>))
    requires
        is_filter_table(node, filter),
    ensures
        filter_schema(node) == Ok::<(Seq<char>, Seq<char>), FaultView>(filter),
{
    let entries = node.value->Keyed_0;
    reveal_strlit("name");
    reveal_strlit("pattern");
    assert("name"@.len() != "pattern"@.len());
    reveal_with_fuel(filter_fault, 3);
    reveal_with_fuel(under, 3);
    assert(text_schema(entries[0].node) is Ok);
    assert(text_schema(entries[1].node) is Ok);
    assert(filter_fault(entries, 0) is None);
    assert(under(entries, "name"@, 0) == Some(entries[0].node));
    assert(under(entries, "pattern"@, 0) == Some(entries[1].node));
}

proof fn lemma_filters_have_shape(items: Seq<NodeView>, filters: Seq<(Seq<char>, Seq<char>)>)
    requires
        items.len() == filters.len(),
        forall|i: int| 0 <= i < items.len() ==> is_filter_table(#[trigger] items[i], filters[i]),
    ensures
        items_schema(items) == Ok::<Seq<(Seq<char>, Seq<char>)>, FaultView>(filters),
    decreases items.len(),
{
    if items.len() == 0 {
        assert(filters =~= seq![]);
    } else {
        let before = items.drop_last();
        assert forall|i: int| 0 <= i < before.len() implies is_filter_table(
            #[trigger] before[i],
            filters.drop_last()[i],
        ) by {
            assert(before[i] == items[i]);
        }
        lemma_filters_have_shape(before, filters.drop_last());
        assert(is_filter_table(items[items.len() - 1], filters[items.len() - 1]));
        lemma_filter_has_shape(items.last(), filters.last());
        assert(filters.drop_last().push(filters.last()) =~= filters);
    }
}

/// A text that is read as a file of one set with a name and filters, and nothing else, has the right
/// shape: the set is found in it, with those filters.
pub proof fn law_a_set_is_found_in_its_file(
    text: Seq<char>,
    tree: Result<NodeView, Seq<char>>,
    set: Seq<char>,
    filters: Seq<(Seq<char>, Seq<char>)>,
)
    requires
        set.len() > 0,
        filters.len() > 0,
        is_read_as(tree, set, filters),
    ensures
        set_in(text, tree, set) == Ok::<Seq<(Seq<char>, Seq<char>)>, Seq<char>>(filters),
{
    let file = tree->Ok_0;
    let file_entries = file.value->Keyed_0;
    let sets = file_entries[0].node;
    let set_entries = sets.value->Keyed_0;
    let table = set_entries[0].node;
    let table_entries = table.value->Keyed_0;
    let array = table_entries[0].node;
    assert(is_filter_array(array, filters));
    lemma_filters_have_shape(array.value->Listed_0, filters);
    assert(filters_schema(array) == Ok::<Seq<(Seq<char>, Seq<char>)>, FaultView>(filters));
    reveal_with_fuel(set_fault, 2);
    reveal_with_fuel(under, 2);
    assert(set_fault(table_entries, 0) is None);
    assert(set_schema(table) == Ok::<Seq<(Seq<char>, Seq<char>)>, FaultView>(filters));
    reveal_with_fuel(entries_schema, 2);
    assert(set_entries.drop_last() =~= seq![]);
    let named = Seq::<(Seq<char>, Seq<(Seq<char>, Seq<char>)>)>::empty().push((set, filters));
    assert(set_entries.last() == set_entries[0]);
    assert(sets_schema(sets) == Ok::<
        Seq<(Seq<char>, Seq<(Seq<char>, Seq<char>)>)>,
        FaultView,
    >(named));
    reveal_with_fuel(file_fault, 2);
    assert(file_fault(file_entries, 0) is None);
    reveal_with_fuel(filters_of, 2);
    assert(filters_of(named, set, 0) == Some(filters));
}

proof fn lemma_fault(
    filters: Seq<(Seq<char>, Seq<char>)>,
    errors: Seq<Option<Seq<char>>>,
    from: int,
)
    requires
        0 <= from <= filters.len(),
        errors.len() == filters.len(),
    ensures
        fault_in(filters, errors, from) is None <==> forall|i: int|
            from <= i < filters.len() ==> #[trigger] errors[i] is None && !names(
                filters.take(i),
            ).contains(filters[i].0),
    decreases filters.len() - from,
{
    if from < filters.len() {
        lemma_fault(filters, errors, from + 1);
    }
}

proof fn lemma_new_names(filters: Seq<(Seq<char>, Seq<char>)>)
    ensures
        names(filters).no_duplicates() <==> forall|i: int|
            0 <= i < filters.len() ==> !names(filters.take(i)).contains(
                (#[trigger] filters[i]).0,
            ),
{
    let all = names(filters);
    if all.no_duplicates() {
        assert forall|i: int| 0 <= i < filters.len() implies !names(filters.take(i)).contains(
            (#[trigger] filters[i]).0,
        ) by {
            let before = names(filters.take(i));
            if before.contains(filters[i].0) {
                let k = choose|k: int| 0 <= k < before.len() && before[k] == filters[i].0;
                assert(all[k] == all[i]);
            }
        }
    }
    if forall|i: int|
        0 <= i < filters.len() ==> !names(filters.take(i)).contains((#[trigger] filters[i]).0) {
        assert forall|i: int, j: int|
            0 <= i < all.len() && 0 <= j < all.len() && i != j implies all[i] != all[j] by {
            let (a, b) = if i < j {
                (i, j)
            } else {
                (j, i)
            };
            assert(names(filters.take(b))[a] == all[a]);
            assert(all[b] == filters[b].0);
            assert(all[a] != all[b]);
        }
    }
}

/// Whether some filters keep recon's rules: every pattern compiles, and no two names are the same.
pub open spec fn keep_the_rules(filters: Seq<(Seq<char>, Seq<char>)>) -> bool {
    &&& forall|i: int| 0 <= i < filters.len() ==> regex_error((#[trigger] filters[i]).1) is None
    &&& names(filters).no_duplicates()
}

/// Recon loads a set if and only if the set is in the file and its filters keep the rules.
pub proof fn law_recon_loads_what_keeps_the_rules(text: Seq<char>, set: Seq<char>)
    ensures
        fault_of(text, set) is None <==> match set_in(text, toml_tree(text), set) {
            Ok(filters) => keep_the_rules(filters),
            Err(_) => false,
        },
{
    if let Ok(filters) = set_in(text, toml_tree(text), set) {
        let errors = regex_errors(filters);
        lemma_fault(filters, errors, 0);
        lemma_new_names(filters);
        if keep_the_rules(filters) {
            assert forall|i: int| 0 <= i < filters.len() implies #[trigger] errors[i] is None
                && !names(filters.take(i)).contains(filters[i].0) by {
                assert(regex_error(filters[i].1) is None);
            }
        }
        if fault_in(filters, errors, 0) is None {
            assert forall|i: int| 0 <= i < filters.len() implies regex_error(
                (#[trigger] filters[i]).1,
            ) is None && !names(filters.take(i)).contains(filters[i].0) by {
                assert(errors[i] is None);
            }
        }
    }
}

/// A set in a file of its own is loaded if and only if every pattern compiles, where no two filters
/// have the same name.
pub proof fn law_a_set_loads_if_its_patterns_compile(
    text: Seq<char>,
    set: Seq<char>,
    filters: Seq<(Seq<char>, Seq<char>)>,
)
    requires
        set.len() > 0,
        filters.len() > 0,
        is_read_as(toml_tree(text), set, filters),
        names(filters).no_duplicates(),
    ensures
        fault_of(text, set) is None <==> forall|i: int|
            0 <= i < filters.len() ==> regex_error((#[trigger] filters[i]).1) is None,
{
    law_a_set_is_found_in_its_file(text, toml_tree(text), set, filters);
    law_recon_loads_what_keeps_the_rules(text, set);
}

proof fn lemma_filters_of(
    sets: Seq<(Seq<char>, Seq<(Seq<char>, Seq<char>)>)>,
    set: Seq<char>,
    from: int,
    i: int,
)
    requires
        0 <= from <= i <= sets.len(),
        forall|j: int| from <= j < i ==> (#[trigger] sets[j]).0 != set,
        i < sets.len() ==> sets[i].0 == set,
    ensures
        filters_of(sets, set, from) == if i < sets.len() {
            Some(sets[i].1)
        } else {
            None
        },
    decreases i - from,
{
    if from < i {
        lemma_filters_of(sets, set, from + 1, i);
    }
}

/// A set is found by its name wherever it stands among the sets, and there is none only where no set
/// has the name.
pub proof fn law_a_set_is_found_by_its_name(
    sets: Seq<(Seq<char>, Seq<(Seq<char>, Seq<char>)>)>,
    set: Seq<char>,
    i: int,
)
    requires
        0 <= i <= sets.len(),
        forall|j: int| 0 <= j < i ==> (#[trigger] sets[j]).0 != set,
        i < sets.len() ==> sets[i].0 == set,
    ensures
        i < sets.len() ==> filters_of(sets, set, 0) == Some(sets[i].1),
        i == sets.len() ==> filters_of(sets, set, 0) is None,
{
    lemma_filters_of(sets, set, 0, i);
}

/// What is found of a set in a file that was read: what `toml` said where the text is none of its
/// files; what is wrong with the shape, and where, where the shape is wrong; that there is no such set,
/// that its name is empty or that it has no filters, in this order; and its filters in every other
/// case.
pub proof fn law_what_is_found_of_a_set(
    text: Seq<char>,
    tree: Result<NodeView, Seq<char>>,
    set: Seq<char>,
    i: int,
)
    ensures
        tree matches Err(cause) ==> set_in(text, tree, set) == Err::<
            Seq<(Seq<char>, Seq<char>)>,
            Seq<char>,
        >(cause),
        match tree {
            Ok(file) => match file_schema(file) {
                Err(fault) => set_in(text, tree, set) == Err::<
                    Seq<(Seq<char>, Seq<char>)>,
                    Seq<char>,
                >(
                    (if fault.start <= fault.end <= encode_utf8(text).len() {
                        toml_place(text, fault.start, fault.end)
                    } else {
                        ""@
                    }) + fault.message + "\n"@,
                ),
                Ok(sets) => {
                    &&& (forall|j: int| 0 <= j < sets.len() ==> (#[trigger] sets[j]).0 != set)
                        ==> set_in(text, tree, set) == Err::<
                        Seq<(Seq<char>, Seq<char>)>,
                        Seq<char>,
                    >("no [sets."@ + set + "] table"@)
                    &&& 0 <= i < sets.len() && sets[i].0 == set && (forall|j: int|
                        0 <= j < i ==> (#[trigger] sets[j]).0 != set) ==> set_in(text, tree, set)
                        == if set.len() == 0 {
                        Err("the set's name is empty"@)
                    } else if sets[i].1.len() == 0 {
                        Err("[sets."@ + set + "] has no filters"@)
                    } else {
                        Ok(sets[i].1)
                    }
                },
            },
            Err(_) => true,
        },
{
    reveal_strlit("");
    reveal_strlit("\n");
    assert(""@ =~= seq![]);
    assert("\n"@ =~= seq!['\n']);
    if let Ok(file) = tree {
        if let Ok(sets) = file_schema(file) {
            if forall|j: int| 0 <= j < sets.len() ==> (#[trigger] sets[j]).0 != set {
                lemma_filters_of(sets, set, 0, sets.len() as int);
            }
            if 0 <= i < sets.len() && sets[i].0 == set && (forall|j: int|
                0 <= j < i ==> (#[trigger] sets[j]).0 != set) {
                lemma_filters_of(sets, set, 0, i);
            }
        }
    }
}

/// The first filter that breaks a rule is the one that is reported: that its pattern does not compile,
/// with what the engine says, before that an earlier filter has its name. Where no filter breaks one,
/// nothing is.
pub proof fn law_the_first_faulty_filter_is_reported(
    filters: Seq<(Seq<char>, Seq<char>)>,
    errors: Seq<Option<Seq<char>>>,
    i: int,
)
    requires
        errors.len() == filters.len(),
        0 <= i <= filters.len(),
        forall|j: int| 0 <= j < i ==> #[trigger] errors[j] is None,
        forall|j: int, k: int|
            0 <= j < k < i ==> (#[trigger] filters[j]).0 != (#[trigger] filters[k]).0,
    ensures
        i == filters.len() ==> fault_in(filters, errors, 0) is None,
        i < filters.len() && errors[i] is Some ==> fault_in(filters, errors, 0) == Some(
            "filter "@ + debug_text(filters[i].0) + " has a pattern recon cannot compile: "@
                + errors[i]->Some_0,
        ),
        i < filters.len() && errors[i] is None && (exists|j: int|
            0 <= j < i && (#[trigger] filters[j]).0 == filters[i].0) ==> fault_in(
            filters,
            errors,
            0,
        ) == Some("two filters named "@ + debug_text(filters[i].0)),
{
    lemma_fault_reaches(filters, errors, 0, i);
    if i < filters.len() && exists|j: int| 0 <= j < i && (#[trigger] filters[j]).0 == filters[i].0 {
        let j = choose|j: int| 0 <= j < i && (#[trigger] filters[j]).0 == filters[i].0;
        assert(names(filters.take(i))[j] == filters[i].0);
    }
}

proof fn lemma_fault_reaches(
    filters: Seq<(Seq<char>, Seq<char>)>,
    errors: Seq<Option<Seq<char>>>,
    from: int,
    i: int,
)
    requires
        errors.len() == filters.len(),
        0 <= from <= i <= filters.len(),
        forall|j: int| 0 <= j < i ==> #[trigger] errors[j] is None,
        forall|j: int, k: int|
            0 <= j < k < i ==> (#[trigger] filters[j]).0 != (#[trigger] filters[k]).0,
    ensures
        fault_in(filters, errors, from) == fault_in(filters, errors, i),
    decreases i - from,
{
    if from < i {
        let before = names(filters.take(from));
        if before.contains(filters[from].0) {
            let j = choose|j: int| 0 <= j < before.len() && before[j] == filters[from].0;
            assert(filters[j].0 == filters[from].0);
        }
        lemma_fault_reaches(filters, errors, from + 1, i);
    }
}

/// What is wrong with a text as a file of sets is what is found of the set, or else what the first
/// filter is that breaks a rule; each pattern is judged by the engine.
pub proof fn law_a_file_is_judged_by_its_filters(text: Seq<char>, set: Seq<char>)
    ensures
        match set_in(text, toml_tree(text), set) {
            Err(fault) => fault_of(text, set) == Some(fault),
            Ok(filters) => fault_of(text, set) == fault_in(
                filters,
                Seq::new(filters.len(), |i: int| regex_error(filters[i].1)),
                0,
            ),
        },
{
    if let Ok(filters) = set_in(text, toml_tree(text), set) {
        assert(regex_errors(filters) =~= Seq::new(
            filters.len(),
            |i: int| regex_error(filters[i].1),
        ));
    }
}

/// A file is refused if and only if something is wrong with it, and what is wrong is what is said.
pub proof fn law_a_file_is_refused_for_its_fault(result: Result<(), Error>, fault: Option<Seq<char>>)
    requires
        reports(result, fault),
    ensures
        result is Ok <==> fault is None,
        fault matches Some(message) ==> result is Err && result->Err_0.message_text()
            == "loghub2recon produced a file recon will not load; this is a bug: "@ + message,
{
}

} // verus!
