//! A TOML file as a tree of what was written where.
use crate::outside::{
    node_date, node_entries, node_items, node_said, node_span, node_text, node_view, parse_tree,
    toml_tree,
};
use toml::de::DeValue;
use toml::Spanned;
use vstd::prelude::*;

verus! {

/// A value in a file, and the bytes it stands in.
#[derive(Debug)]
pub struct Node {
    pub start: usize,
    pub end: usize,
    pub value: Value,
}

/// What a value is.
#[derive(Debug)]
pub enum Value {
    /// A text.
    Text(String),
    /// An array.
    Listed(Vec<Node>),
    /// A table, by the order of its keys.
    Keyed(Vec<Entry>),
    /// A date or a time, as it is written.
    Date(String),
    /// A number or a truth value; and what `toml` says of it where nothing at all is expected.
    Other(String),
}

/// A key with its value, and the bytes that the key stands in.
#[derive(Debug)]
pub struct Entry {
    pub start: usize,
    pub end: usize,
    pub key: String,
    pub node: Node,
}

/// What a `Node` stands for.
#[verifier::ext_equal]
pub struct NodeView {
    pub start: nat,
    pub end: nat,
    pub value: ValueView,
}

/// What a `Value` stands for.
#[verifier::ext_equal]
pub enum ValueView {
    Text(Seq<char>),
    Listed(Seq<NodeView>),
    Keyed(Seq<EntryView>),
    Date(Seq<char>),
    Other(Seq<char>),
}

/// What an `Entry` stands for.
#[verifier::ext_equal]
pub struct EntryView {
    pub start: nat,
    pub end: nat,
    pub key: Seq<char>,
    pub node: NodeView,
}

/// What a value says, and where.
pub open spec fn seen(node: Node) -> NodeView
    decreases node,
{
    NodeView {
        start: node.start as nat,
        end: node.end as nat,
        value: match &node.value {
            Value::Text(text) => ValueView::Text(text@),
            Value::Listed(items) => ValueView::Listed(
                Seq::new(
                    items@.len(),
                    |i: int|
                        if 0 <= i < items@.len() {
                            seen(items@[i])
                        } else {
                            arbitrary()
                        },
                ),
            ),
            Value::Keyed(entries) => ValueView::Keyed(
                Seq::new(
                    entries@.len(),
                    |i: int|
                        if 0 <= i < entries@.len() {
                            EntryView {
                                start: entries@[i].start as nat,
                                end: entries@[i].end as nat,
                                key: entries@[i].key@,
                                node: seen(entries@[i].node),
                            }
                        } else {
                            arbitrary()
                        },
                ),
            ),
            Value::Date(text) => ValueView::Date(text@),
            Value::Other(said) => ValueView::Other(said@),
        },
    }
}

impl View for Node {
    type V = NodeView;

    open spec fn view(&self) -> NodeView {
        seen(*self)
    }
}

impl View for Entry {
    type V = EntryView;

    open spec fn view(&self) -> EntryView {
        EntryView {
            start: self.start as nat,
            end: self.end as nat,
            key: self.key@,
            node: self.node@,
        }
    }
}

/// Some values.
pub open spec fn node_views(nodes: Seq<Node>) -> Seq<NodeView> {
    nodes.map_values(|node: Node| node@)
}

/// Some keys with their values.
pub open spec fn entry_views(entries: Seq<Entry>) -> Seq<EntryView> {
    entries.map_values(|entry: Entry| entry@)
}

/// The values of a list and the entries of a table are those that it holds.
pub(crate) proof fn lemma_parts(node: Node)
    ensures
        node.value matches Value::Listed(items) ==> node@.value == ValueView::Listed(
            node_views(items@),
        ),
        node.value matches Value::Keyed(entries) ==> node@.value == ValueView::Keyed(
            entry_views(entries@),
        ),
{
    reveal_with_fuel(seen, 2);
    match node.value {
        Value::Listed(items) => {
            assert(node@.value->Listed_0 =~= node_views(items@));
        },
        Value::Keyed(entries) => {
            assert(node@.value->Keyed_0 =~= entry_views(entries@));
        },
        _ => {},
    }
}

/// A file that was read, or the reason why it cannot be read.
pub open spec fn tree_view(tree: Result<Node, String>) -> Result<NodeView, Seq<char>> {
    match tree {
        Ok(node) => Ok(node@),
        Err(cause) => Err(cause@),
    }
}

/// A value as `toml` has it, in full.
fn plain(node: &Spanned<DeValue<'_>>) -> (full: Node)
    ensures
        full@ == node_view(*node),
    decreases node_view(*node),
{
    let ghost said = node_view(*node);
    let (start, end) = node_span(node);
    if let Some(text) = node_text(node) {
        return Node { start, end, value: Value::Text(text.to_owned()) };
    }
    if let Some(text) = node_date(node) {
        return Node { start, end, value: Value::Date(text) };
    }
    if let Some(items) = node_items(node) {
        let ghost all = said.value->Listed_0;
        let mut list: Vec<Node> = Vec::new();
        let mut i: usize = 0;
        while i < items.len()
            invariant
                said == node_view(*node),
                said.value == ValueView::Listed(all),
                all.len() == items@.len(),
                forall|j: int| 0 <= j < all.len() ==> node_view(*#[trigger] items@[j]) == all[j],
                i <= items@.len(),
                list@.len() == i,
                forall|j: int| 0 <= j < i ==> (#[trigger] list@[j])@ == all[j],
            decreases items.len() - i,
        {
            proof {
                assert(node_view(*items@[i as int]) == all[i as int]);
                assert(decreases_to!(said => said.value));
                assert(decreases_to!(said.value => said.value->Listed_0));
                assert(decreases_to!(all => all[i as int]));
            }
            list.push(plain(items[i]));
            i = i + 1;
        }
        let full = Node { start, end, value: Value::Listed(list) };
        proof {
            lemma_parts(full);
            assert(node_views(list@) =~= all);
        }
        return full;
    }
    if let Some(entries) = node_entries(node) {
        let ghost all = said.value->Keyed_0;
        let mut list: Vec<Entry> = Vec::new();
        let mut i: usize = 0;
        while i < entries.len()
            invariant
                said == node_view(*node),
                said.value == ValueView::Keyed(all),
                all.len() == entries@.len(),
                forall|j: int|
                    0 <= j < all.len() ==> {
                        let entry = #[trigger] entries@[j];
                        all[j] == (EntryView {
                            start: entry.0 as nat,
                            end: entry.1 as nat,
                            key: entry.2@,
                            node: node_view(*entry.3),
                        })
                    },
                i <= entries@.len(),
                list@.len() == i,
                forall|j: int| 0 <= j < i ==> (#[trigger] list@[j])@ == all[j],
            decreases entries.len() - i,
        {
            let entry = &entries[i];
            proof {
                assert(all[i as int].node == node_view(*entry.3));
                assert(decreases_to!(said => said.value));
                assert(decreases_to!(said.value => said.value->Keyed_0));
                assert(decreases_to!(all => all[i as int]));
                assert(decreases_to!(all[i as int] => all[i as int].node));
            }
            let node = plain(entry.3);
            list.push(Entry { start: entry.0, end: entry.1, key: entry.2.clone(), node });
            i = i + 1;
        }
        let full = Node { start, end, value: Value::Keyed(list) };
        proof {
            lemma_parts(full);
            assert(entry_views(list@) =~= all);
        }
        return full;
    }
    Node { start, end, value: Value::Other(node_said(node)) }
}

/// What a TOML file says, and where.
pub fn read_tree(text: &str) -> (tree: Result<Node, String>)
    ensures
        tree_view(tree) == toml_tree(text@),
{
    match parse_tree(text) {
        Ok(root) => Ok(plain(&root)),
        Err(cause) => Err(cause),
    }
}

/// A value in a file shows all that it holds, in order, and where it stands: the text of a text, every
/// value of an array, and every entry of a table with its key.
pub proof fn law_a_value_shows_all_that_it_holds(node: Node)
    ensures
        node@.start == node.start,
        node@.end == node.end,
        node.value matches Value::Text(text) ==> node@.value == ValueView::Text(text@),
        node.value matches Value::Date(text) ==> node@.value == ValueView::Date(text@),
        node.value matches Value::Other(said) ==> node@.value == ValueView::Other(said@),
        match node.value {
            Value::Listed(items) => {
                &&& node@.value is Listed
                &&& node@.value->Listed_0.len() == items@.len()
                &&& forall|i: int|
                    0 <= i < items@.len() ==> #[trigger] node@.value->Listed_0[i] == items@[i]@
            },
            Value::Keyed(entries) => {
                &&& node@.value is Keyed
                &&& node@.value->Keyed_0.len() == entries@.len()
                &&& forall|i: int|
                    0 <= i < entries@.len() ==> {
                        let entry = #[trigger] node@.value->Keyed_0[i];
                        &&& entry.start == entries@[i].start
                        &&& entry.end == entries@[i].end
                        &&& entry.key == entries@[i].key@
                        &&& entry.node == entries@[i].node@
                    }
            },
            _ => true,
        },
{
    lemma_parts(node);
}

} // verus!
