//! The outside functions that the library calls, and what it takes them to do.
use crate::document::{
    empty_table, has_key, is_laid_out, is_quotable, is_read_back, is_taken, pattern_line,
    set_document, with_entry, TomlItem, TomlTable,
};
use crate::matching::is_search;
use crate::template::{escaped, is_rendered, is_small};
use crate::text::texts;
use crate::tree::{EntryView, NodeView, ValueView};
use toml::de::DeValue;
use toml::Spanned;
use toml_edit::{ArrayOfTables, DocumentMut, Item, Table};
use vstd::prelude::*;
use vstd::utf8::{decode_utf8, encode_utf8, valid_utf8};

verus! {

/// `String::push`: appends one character at the end.
pub assume_specification[ String::push ](s: &mut String, c: char)
    ensures
        final(s)@ == old(s)@.push(c),
;

/// `regex::escape`: puts a backslash before every character that has a meaning of its own in a
/// regular expression, and leaves the others as they are.
pub assume_specification[ regex::escape ](pattern: &str) -> (written: String)
    ensures
        written@ == escaped(pattern@),
;

/// How `{:?}` writes a text: between double quotes, with some of its characters escaped.
pub uninterp spec fn debug_text(text: Seq<char>) -> Seq<char>;

/// `{:?}` of a text, from its implementation of `Debug`. Nothing is claimed of the escapes but
/// that they depend on the text alone.
#[verifier::external_body]
pub(crate) fn quoted(text: &str) -> (written: String)
    ensures
        written@ == debug_text(text@),
{
    format!("{:?}", text)
}

/// What `String::from_utf8_lossy` makes of some bytes.
pub uninterp spec fn utf8_lossy(bytes: Seq<u8>) -> Seq<char>;

/// `String::from_utf8_lossy`: the text that the bytes spell in UTF-8; where they do not, the bytes
/// that are no UTF-8 are replaced, and how they are depends on the bytes alone.
#[verifier::external_body]
pub(crate) fn from_utf8_lossy(bytes: &[u8]) -> (text: String)
    ensures
        text@ == utf8_lossy(bytes@),
        valid_utf8(bytes@) ==> text@ == decode_utf8(bytes@),
{
    String::from_utf8_lossy(bytes).into_owned()
}

/// Whether a path reads the same on every system: `/` is all there is between its components, and
/// it starts neither with the letter of a drive nor with two slashes.
pub open spec fn is_plain_path(path: Seq<char>) -> bool {
    &&& !path.contains('\\')
    &&& !(path.len() >= 2 && is_ascii_letter(path[0]) && path[1] == ':')
    &&& !(path.len() >= 2 && path[0] == '/' && path[1] == '/')
}

/// Whether a character is one of the letters that a drive can have.
pub open spec fn is_ascii_letter(c: char) -> bool {
    'a' <= c <= 'z' || 'A' <= c <= 'Z'
}

/// Where the last component of a path starts.
pub open spec fn last_component(path: Seq<char>) -> int
    decreases path.len(),
{
    if path.len() == 0 || path.last() == '/' {
        path.len() as int
    } else {
        last_component(path.drop_last())
    }
}

/// The name of the file or directory that a plain path leads to: its last component, `/` and `.`
/// at its end aside, and none where that is `..` or where there is none.
pub open spec fn base_name(path: Seq<char>) -> Option<Seq<char>>
    decreases path.len(),
{
    if path.len() == 0 {
        None
    } else if path.last() == '/' {
        base_name(path.drop_last())
    } else if last_component(path) == path.len() - 1 && path.last() == '.' {
        base_name(path.drop_last())
    } else if path.skip(last_component(path)) == seq!['.', '.'] {
        None
    } else {
        Some(path.skip(last_component(path)))
    }
}

/// Whether `file` can be the last component of a path on some system: it is a stretch of the path,
/// and holds no `/` unless the path starts with two backslashes, after which `/` may part nothing.
pub open spec fn is_component(path: Seq<char>, file: Seq<char>) -> bool {
    &&& exists|i: int, j: int|
        0 <= i <= j <= path.len() && file == #[trigger] path.subrange(i, j)
    &&& file.contains('/') ==> path.len() >= 2 && path[0] == '\\' && path[1] == '\\'
}

/// `std::path::Path::file_name`: a path's last component, if it is a name. How a path falls into
/// components is the system's affair; of a plain path it is stated what comes out, of another only
/// that it is a component.
#[verifier::external_body]
pub(crate) fn file_name(path: &str) -> (name: Option<String>)
    ensures
        is_plain_path(path@) ==> match name {
            Some(name) => base_name(path@) == Some(name@),
            None => base_name(path@) is None,
        },
        match name {
            Some(name) => is_component(path@, name@),
            None => true,
        },
{
    std::path::Path::new(path).file_name().map(|name| name.to_string_lossy().into_owned())
}

/// A row of a CSV, or the reason why it cannot be read.
pub open spec fn row_view(row: Result<Vec<String>, String>) -> Result<Seq<Seq<char>>, Seq<char>> {
    match row {
        Ok(fields) => Ok(texts(fields@)),
        Err(cause) => Err(cause@),
    }
}

/// Some rows of a CSV.
pub open spec fn row_views(rows: Seq<Result<Vec<String>, String>>) -> Seq<
    Result<Seq<Seq<char>>, Seq<char>>,
> {
    rows.map_values(|row: Result<Vec<String>, String>| row_view(row))
}

/// The first row of a CSV, as `csv::Reader::headers` gives it.
pub uninterp spec fn csv_header(csv: Seq<char>) -> Result<Seq<Seq<char>>, Seq<char>>;

/// `csv::Reader::headers`, of a reader that takes rows of any length: the fields of the first row,
/// or what the error says. Both depend on the text alone; no more is claimed.
#[verifier::external_body]
pub(crate) fn read_header(csv: &str) -> (header: Result<Vec<String>, String>)
    ensures
        row_view(header) == csv_header(csv@),
{
    csv::ReaderBuilder::new()
        .flexible(true)
        .from_reader(csv.as_bytes())
        .headers()
        .map(|row| row.iter().map(|field| field.to_string()).collect())
        .map_err(|err| err.to_string())
}

/// The rows of a CSV after the first, as `csv::Reader::records` gives them.
pub uninterp spec fn csv_rows(csv: Seq<char>) -> Seq<Result<Seq<Seq<char>>, Seq<char>>>;

/// `csv::Reader::records`, of a reader that takes rows of any length: the fields of every row after
/// the first, in order, or what the error says. They depend on the text alone; no more is claimed.
#[verifier::external_body]
pub(crate) fn read_rows(csv: &str) -> (rows: Vec<Result<Vec<String>, String>>)
    ensures
        row_views(rows@) == csv_rows(csv@),
{
    csv::ReaderBuilder::new()
        .flexible(true)
        .from_reader(csv.as_bytes())
        .records()
        .map(|row| {
            row.map(|row| row.iter().map(|field| field.to_string()).collect())
                .map_err(|err| err.to_string())
        })
        .collect()
}

/// `toml_edit::Table`.
#[verifier::external_type_specification]
#[verifier::external_body]
pub struct ExTable(toml_edit::Table);

/// `toml_edit::Item`.
#[verifier::external_type_specification]
#[verifier::external_body]
pub struct ExItem(toml_edit::Item);

/// `toml_edit::ArrayOfTables`.
#[verifier::external_type_specification]
#[verifier::external_body]
pub struct ExArrayOfTables(toml_edit::ArrayOfTables);

/// `toml_edit::DocumentMut`.
#[verifier::external_type_specification]
#[verifier::external_body]
pub struct ExDocumentMut(toml_edit::DocumentMut);

/// What a table holds.
pub uninterp spec fn table_view(table: Table) -> TomlTable;

/// What an item is.
pub uninterp spec fn item_view(item: Item) -> TomlItem;

/// The tables in a list of tables.
pub uninterp spec fn tables_view(tables: ArrayOfTables) -> Seq<TomlTable>;

/// What the root table of a document holds.
pub uninterp spec fn document_view(document: DocumentMut) -> TomlTable;

/// `Table::new`: a table that holds nothing, and whose header is written.
pub assume_specification[ Table::new ]() -> (table: Table)
    ensures
        table_view(table) == empty_table(),
;

/// `Table::set_implicit`: whether the table's header is left out where it holds no values.
pub assume_specification[ Table::set_implicit ](table: &mut Table, implicit: bool)
    ensures
        table_view(*final(table)) == (TomlTable { implicit, ..table_view(*old(table)) }),
;

/// `Table::insert`: a key that is new is added at the end.
pub assume_specification[ Table::insert ](table: &mut Table, key: &str, item: Item) -> (before:
    Option<Item>)
    requires
        !has_key(table_view(*old(table)), key@),
    ensures
        table_view(*final(table)) == with_entry(table_view(*old(table)), key@, item_view(item)),
        before is None,
;

/// `Table::remove`: takes out the entry under a key, if there is one, and keeps the others in
/// order.
pub assume_specification[ Table::remove ](table: &mut Table, key: &str) -> (item: Option<Item>)
    ensures
        is_taken(
            table_view(*old(table)),
            key@,
            match item {
                Some(item) => Some(item_view(item)),
                None => None,
            },
            table_view(*final(table)),
        ),
;

/// `ArrayOfTables::new`: a list of no tables.
pub assume_specification[ ArrayOfTables::new ]() -> (tables: ArrayOfTables)
    ensures
        tables_view(tables) == Seq::<TomlTable>::empty(),
;

/// `ArrayOfTables::push`: adds a table at the end.
pub assume_specification[ ArrayOfTables::push ](tables: &mut ArrayOfTables, table: Table)
    ensures
        tables_view(*final(tables)) == tables_view(*old(tables)).push(table_view(table)),
;

/// `Item::Table`: a table as an item.
#[verifier::external_body]
pub(crate) fn table_item(table: Table) -> (item: Item)
    ensures
        item_view(item) == TomlItem::Nested(table_view(table)),
{
    Item::Table(table)
}

/// `Item::ArrayOfTables`: a list of tables as an item.
#[verifier::external_body]
pub(crate) fn tables_item(tables: ArrayOfTables) -> (item: Item)
    ensures
        item_view(item) == TomlItem::Listed(tables_view(tables)),
{
    Item::ArrayOfTables(tables)
}

/// `toml_edit::value`, of a text: the text as an item, whose quotes are for the writer to choose.
#[verifier::external_body]
pub(crate) fn text_item(text: &str) -> (item: Item)
    ensures
        item_view(item) == (TomlItem::Text { value: text@, verbatim: false }),
{
    toml_edit::value(text)
}

/// `DocumentMut::new`: a document that holds nothing.
pub assume_specification[ DocumentMut::new ]() -> (document: DocumentMut)
    ensures
        document_view(document) == empty_table(),
;

/// `DocumentMut::as_table_mut`: the root table of a document, to change it in its place.
pub assume_specification[ DocumentMut::as_table_mut ](document: &mut DocumentMut) -> (table:
    &mut Table)
    ensures
        table_view(*table) == document_view(*old(document)),
        document_view(*final(document)) == table_view(*final(table)),
;

/// `str::parse` into a `DocumentMut`, of a line that holds a text between single quotes where TOML
/// has it so: the text under its key, to be written as it was read. What is said of other lines, or
/// by the error, is not stated.
#[verifier::external_body]
pub(crate) fn parse_pattern_line(line: &str) -> (document: Result<DocumentMut, String>)
    requires
        exists|pattern: Seq<char>| is_quotable(pattern) && line@ == #[trigger] pattern_line(pattern),
    ensures
        forall|pattern: Seq<char>|
            is_quotable(pattern) && line@ == #[trigger] pattern_line(pattern) ==> match document {
                Ok(document) => document_view(document) == with_entry(
                    empty_table(),
                    "pattern"@,
                    TomlItem::Text { value: pattern, verbatim: true },
                ),
                Err(_) => false,
            },
{
    line.parse::<DocumentMut>().map_err(|err| err.to_string())
}

/// What `toml_edit` writes a set's document as.
pub uninterp spec fn written_document(document: TomlTable) -> Seq<char>;

/// `to_string` of a `DocumentMut` that was made for a set. The text depends on what the document
/// holds alone. It is a header for the set, and for each of its filters a header, the name and the
/// pattern, a line each; how texts with control characters are written is not stated. What
/// `toml_edit` writes, `toml` reads back.
#[verifier::external_body]
pub(crate) fn write_document(document: &DocumentMut) -> (text: String)
    requires
        exists|set: Seq<char>, filters: Seq<(Seq<char>, Seq<char>)>|
            document_view(*document) == #[trigger] set_document(set, filters),
    ensures
        text@ == written_document(document_view(*document)),
        is_laid_out(document_view(*document), text@),
        is_read_back(document_view(*document), text@),
{
    document.to_string()
}

/// `toml::Spanned`.
#[verifier::external_type_specification]
#[verifier::external_body]
#[verifier::reject_recursive_types(T)]
pub struct ExSpanned<T>(toml::Spanned<T>);

/// `toml::de::DeValue`.
#[verifier::external_type_specification]
#[verifier::external_body]
pub struct ExDeValue<'i>(toml::de::DeValue<'i>);

/// What a value of a TOML file is, and the bytes it stands in.
pub uninterp spec fn node_view(node: Spanned<DeValue<'_>>) -> NodeView;

/// What `toml::de::DeTable::parse` makes of a text.
pub uninterp spec fn toml_tree(text: Seq<char>) -> Result<NodeView, Seq<char>>;

/// `toml::de::DeTable::parse`: the root table of the file that the text is, or what the error says.
/// Both depend on the text alone; no more is claimed here.
#[verifier::external_body]
pub(crate) fn parse_tree(text: &str) -> (tree: Result<Spanned<DeValue<'_>>, String>)
    ensures
        toml_tree(text@) == match tree {
            Ok(root) => Ok(node_view(root)),
            Err(cause) => Err(cause@),
        },
{
    toml::de::DeTable::parse(text)
        .map(|root| Spanned::new(root.span(), DeValue::Table(root.into_inner())))
        .map_err(|err| err.to_string())
}

/// `Spanned::span`: the bytes that a value stands in, from the first to the one after the last.
#[verifier::external_body]
pub(crate) fn node_span(node: &Spanned<DeValue<'_>>) -> (span: (usize, usize))
    ensures
        span.0 == node_view(*node).start,
        span.1 == node_view(*node).end,
{
    (node.span().start, node.span().end)
}

/// `DeValue::as_str`: the text, if the value is one.
#[verifier::external_body]
pub(crate) fn node_text<'a, 'i>(node: &'a Spanned<DeValue<'i>>) -> (text: Option<&'a str>)
    ensures
        match text {
            Some(text) => node_view(*node).value == ValueView::Text(text@),
            None => !(node_view(*node).value is Text),
        },
{
    node.get_ref().as_str()
}

/// `DeValue::as_datetime`: the date or time as it is written, if the value is one.
#[verifier::external_body]
pub(crate) fn node_date(node: &Spanned<DeValue<'_>>) -> (text: Option<String>)
    ensures
        match text {
            Some(text) => node_view(*node).value == ValueView::Date(text@),
            None => !(node_view(*node).value is Date),
        },
{
    node.get_ref().as_datetime().map(|date| date.to_string())
}

/// `DeValue::as_array`: the values in order, if the value is an array.
#[verifier::external_body]
pub(crate) fn node_items<'a, 'i>(node: &'a Spanned<DeValue<'i>>) -> (items: Option<
    Vec<&'a Spanned<DeValue<'i>>>,
>)
    ensures
        match items {
            Some(items) => node_view(*node).value == ValueView::Listed(
                items@.map_values(|item: &Spanned<DeValue<'i>>| node_view(*item)),
            ),
            None => !(node_view(*node).value is Listed),
        },
{
    node.get_ref().as_array().map(|items| items.iter().collect())
}

/// `DeValue::as_table`: each key with the bytes that it stands in and its value, by the order of the
/// keys, if the value is a table.
#[verifier::external_body]
pub(crate) fn node_entries<'a, 'i>(node: &'a Spanned<DeValue<'i>>) -> (entries: Option<
    Vec<(usize, usize, String, &'a Spanned<DeValue<'i>>)>,
>)
    ensures
        match entries {
            Some(entries) => node_view(*node).value == ValueView::Keyed(
                entries@.map_values(
                    |entry: (usize, usize, String, &Spanned<DeValue<'i>>)|
                        (EntryView {
                            start: entry.0 as nat,
                            end: entry.1 as nat,
                            key: entry.2@,
                            node: node_view(*entry.3),
                        }),
                ),
            ),
            None => !(node_view(*node).value is Keyed),
        },
{
    node.get_ref().as_table().map(|table| {
        table
            .iter()
            .map(|(key, value)| (key.span().start, key.span().end, key.get_ref().to_string(), value))
            .collect()
    })
}

/// `<()>::deserialize`, of a value that is neither a text, a date, an array nor a table: what the
/// error says. It depends on the value alone.
#[verifier::external_body]
pub(crate) fn node_said(node: &Spanned<DeValue<'_>>) -> (said: String)
    requires
        node_view(*node).value is Other,
    ensures
        node_view(*node).value == ValueView::Other(said@),
{
    <() as serde::Deserialize>::deserialize(toml::de::ValueDeserializer::from(node.clone()))
        .err()
        .map(|err| err.message().to_string())
        .unwrap_or_default()
}

/// How a `toml::de::Error` says where in a text it stands: the line and the column, and the line
/// itself with a mark below it.
pub uninterp spec fn toml_place(text: Seq<char>, start: nat, end: nat) -> Seq<char>;

/// What `toml` says where nothing at all is expected and there is `true`.
pub open spec fn no_unit() -> Seq<char> {
    "invalid type: boolean `true`, expected unit\n"@
}

/// `to_string` of a `toml::de::Error` that stands between two bytes of a text: where it stands, and
/// on a line of its own what is wrong. Where it stands depends on the text and the bytes alone.
#[verifier::external_body]
pub(crate) fn error_at(text: &str, start: usize, end: usize) -> (said: String)
    requires
        start <= end <= encode_utf8(text@).len(),
    ensures
        said@ == toml_place(text@, start as nat, end as nat) + no_unit(),
{
    let node = Spanned::new(start..end, DeValue::Boolean(true));
    <() as serde::Deserialize>::deserialize(toml::de::ValueDeserializer::from(node))
        .map_err(|mut err: toml::de::Error| {
            err.set_input(Some(text));
            err.to_string()
        })
        .err()
        .unwrap_or_default()
}

/// What `regex::Regex::new` says of a pattern that it does not compile; nothing of one that it does.
pub uninterp spec fn regex_error(pattern: Seq<char>) -> Option<Seq<char>>;

/// What `regex::Regex::new` says of a pattern that is too large.
pub open spec fn too_large() -> Seq<char> {
    "Compiled regex exceeds size limit of 10485760 bytes."@
}

/// `regex::Regex::new`: whether the pattern compiles depends on the pattern alone. One that is made
/// of escaped characters, `\s+` and `.*?` does, unless it is too large: more than 10 MiB of states,
/// where each of these makes a few dozen states of a few dozen bytes at most. So one that is small
/// does in any case; how much larger it may be is not stated.
#[verifier::external_body]
pub(crate) fn compile_fault(pattern: &str) -> (error: Option<String>)
    ensures
        regex_error(pattern@) == match error {
            Some(error) => Some(error@),
            None => None,
        },
        is_rendered(pattern@) ==> match error {
            Some(error) => error@ == too_large(),
            None => true,
        },
        is_small(pattern@) ==> error is None,
{
    regex::Regex::new(pattern).err().map(|err| err.to_string())
}

/// What `regex::Regex::is_match` says of a pattern that compiles and a line.
pub uninterp spec fn regex_finds(pattern: Seq<char>, line: Seq<char>) -> bool;

/// `regex::Regex::is_match`: whether the pattern matches anywhere in the line. Both decide, and
/// nothing else does. Where the pattern is made of escaped characters, `\s+` and `.*?`, a character
/// matches itself, `\s+` a run of white space and `.*?` any text without the end of a line; what
/// other patterns match is not stated.
#[verifier::external_body]
pub(crate) fn is_match(pattern: &str, line: &str) -> (found: bool)
    requires
        regex_error(pattern@) is None,
    ensures
        found == regex_finds(pattern@, line@),
        is_search(pattern@, line@, found),
{
    regex::Regex::new(pattern).is_ok_and(|regex| regex.is_match(line))
}

} // verus!
