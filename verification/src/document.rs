//! TOML documents: what they hold, and how the document of a set is written.
use crate::outside::toml_tree;
use crate::schema::is_read_as;
use vstd::prelude::*;

verus! {

/// A table of a TOML document: whether its own header is left out, and what it holds, in order.
#[verifier::ext_equal]
pub struct TomlTable {
    pub implicit: bool,
    pub entries: Seq<(Seq<char>, TomlItem)>,
}

/// What stands under a key.
#[verifier::ext_equal]
pub enum TomlItem {
    /// A text; a verbatim one is written between single quotes, as it is.
    Text { value: Seq<char>, verbatim: bool },
    /// A table.
    Nested(TomlTable),
    /// A list of tables.
    Listed(Seq<TomlTable>),
    /// Anything else.
    Other,
}

/// A table that holds nothing yet.
pub open spec fn empty_table() -> TomlTable {
    TomlTable { implicit: false, entries: seq![] }
}

/// A table with one more entry.
pub open spec fn with_entry(table: TomlTable, key: Seq<char>, item: TomlItem) -> TomlTable {
    TomlTable { implicit: table.implicit, entries: table.entries.push((key, item)) }
}

/// Whether a table has an entry under a key.
pub open spec fn has_key(table: TomlTable, key: Seq<char>) -> bool {
    exists|i: int| 0 <= i < table.entries.len() && (#[trigger] table.entries[i]).0 == key
}

/// A table without its entry at `i`.
pub open spec fn without_entry(table: TomlTable, i: int) -> TomlTable {
    TomlTable { implicit: table.implicit, entries: table.entries.remove(i) }
}

/// Whether `after` is a table from which the entry under a key was taken, if it had one, and `item`
/// is what stood there.
pub open spec fn is_taken(
    before: TomlTable,
    key: Seq<char>,
    item: Option<TomlItem>,
    after: TomlTable,
) -> bool {
    match item {
        Some(item) => exists|i: int|
            0 <= i < before.entries.len() && #[trigger] before.entries[i] == (key, item) && after
                == without_entry(before, i),
        None => !has_key(before, key) && after == before,
    }
}

/// Whether a character is a control character other than a tab: TOML admits none of these in a
/// text or a comment as it is.
pub open spec fn is_control(c: char) -> bool {
    c != '\t' && (c < ' ' || c == '\u{7f}')
}

/// Whether a text holds no control character but tabs.
pub open spec fn is_printable(text: Seq<char>) -> bool {
    forall|i: int| 0 <= i < text.len() ==> !is_control(#[trigger] text[i])
}

/// Whether single quotes around a text would end where the text does: it holds no single quote and
/// no end of a line.
pub open spec fn fits_quotes(text: Seq<char>) -> bool {
    !text.contains('\'') && !text.contains('\n') && !text.contains('\r')
}

/// Whether a text can stand between single quotes as it is: nothing in it would end it, and nothing
/// in it is a control character, for which TOML asks an escape.
pub open spec fn is_quotable(text: Seq<char>) -> bool {
    fits_quotes(text) && is_printable(text)
}

/// A text between two quotes.
pub open spec fn between(quote: Seq<char>, text: Seq<char>) -> Seq<char> {
    quote + text + quote
}

/// A printable text as it is written between double quotes, tabs and the marked characters escaped.
pub open spec fn escapes(text: Seq<char>, marked: Set<char>) -> Seq<char>
    decreases text.len(),
{
    if text.len() == 0 {
        seq![]
    } else {
        escapes(text.drop_last(), marked) + if text.last() == '\t' {
            seq!['\\', 't']
        } else if marked.contains(text.last()) {
            seq!['\\', text.last()]
        } else {
            seq![text.last()]
        }
    }
}

/// Whether a text holds three of a kind of quotes in a row.
pub open spec fn has_three(text: Seq<char>, quote: char) -> bool {
    exists|i: int|
        0 <= i < text.len() - 2 && #[trigger] text[i] == quote && text[i + 1] == quote && text[i
            + 2] == quote
}

/// How a printable text is written as a value: as it is between double quotes, single quotes, three
/// double quotes or three single quotes, whichever is first to need no escape but that of a tab;
/// else between double quotes with escapes.
pub open spec fn string_text(text: Seq<char>) -> Seq<char> {
    if !text.contains('\\') && !text.contains('"') {
        between(seq!['"'], escapes(text, set![]))
    } else if !text.contains('\'') {
        between(seq!['\''], text)
    } else if !text.contains('\\') && !has_three(text, '"') {
        between(seq!['"', '"', '"'], escapes(text, set![]))
    } else if !has_three(text, '\'') {
        between(seq!['\'', '\'', '\''], text)
    } else {
        between(seq!['"'], escapes(text, set!['\\', '"']))
    }
}

/// Whether a key can stand without quotes.
pub open spec fn is_bare(key: Seq<char>) -> bool {
    &&& key.len() > 0
    &&& forall|i: int|
        0 <= i < key.len() ==> {
            let c = #[trigger] key[i];
            ('a' <= c <= 'z') || ('A' <= c <= 'Z') || ('0' <= c <= '9') || c == '-' || c == '_'
        }
}

/// How a printable key is written: bare where it can be; else between double quotes or single quotes
/// without an escape but that of a tab; else between double quotes with escapes.
pub open spec fn key_text(key: Seq<char>) -> Seq<char> {
    if is_bare(key) {
        key
    } else if !key.contains('\\') && !key.contains('"') {
        between(seq!['"'], escapes(key, set![]))
    } else if !key.contains('\'') {
        between(seq!['\''], key)
    } else {
        between(seq!['"'], escapes(key, set!['\\', '"']))
    }
}

/// How a printable pattern is written: between single quotes and as it is, if it fits there.
pub open spec fn pattern_text(pattern: Seq<char>) -> Seq<char> {
    if is_quotable(pattern) {
        between(seq!['\''], pattern)
    } else {
        string_text(pattern)
    }
}

/// One filter as a table.
pub open spec fn filter_table(filter: (Seq<char>, Seq<char>)) -> TomlTable {
    with_entry(
        with_entry(
            empty_table(),
            "name"@,
            TomlItem::Text { value: filter.0, verbatim: false },
        ),
        "pattern"@,
        TomlItem::Text { value: filter.1, verbatim: is_quotable(filter.1) },
    )
}

/// Some filters as a list of tables.
pub open spec fn filter_tables(filters: Seq<(Seq<char>, Seq<char>)>) -> Seq<TomlTable> {
    filters.map_values(|filter: (Seq<char>, Seq<char>)| filter_table(filter))
}

/// The document of a set: a table of the set's name under `sets`, with its `filters`.
pub open spec fn set_document(set: Seq<char>, filters: Seq<(Seq<char>, Seq<char>)>) -> TomlTable {
    with_entry(
        empty_table(),
        "sets"@,
        TomlItem::Nested(
            with_entry(
                TomlTable { implicit: true, entries: seq![] },
                set,
                TomlItem::Nested(
                    with_entry(
                        empty_table(),
                        "filters"@,
                        TomlItem::Listed(filter_tables(filters)),
                    ),
                ),
            ),
        ),
    )
}

/// How one filter of a set is written.
pub open spec fn filter_text(key: Seq<char>, filter: (Seq<char>, Seq<char>)) -> Seq<char> {
    "\n[[sets."@ + key + ".filters]]\nname = "@ + string_text(filter.0) + "\npattern = "@
        + pattern_text(filter.1) + "\n"@
}

/// How the filters of a set are written.
pub open spec fn filters_text(
    key: Seq<char>,
    filters: Seq<(Seq<char>, Seq<char>)>,
) -> Seq<char>
    decreases filters.len(),
{
    if filters.len() == 0 {
        seq![]
    } else {
        filters_text(key, filters.drop_last()) + filter_text(key, filters.last())
    }
}

/// How the document of a set is written.
pub open spec fn document_text(
    set: Seq<char>,
    filters: Seq<(Seq<char>, Seq<char>)>,
) -> Seq<char> {
    "[sets."@ + key_text(set) + "]\n"@ + filters_text(key_text(set), filters)
}

/// Whether a text is nothing but comments and empty lines, the last one ended.
pub open spec fn is_comment_block(text: Seq<char>) -> bool {
    &&& forall|i: int| 0 <= i < text.len() ==> (#[trigger] text[i]) == '\n' || !is_control(text[i])
    &&& forall|i: int|
        0 <= i < text.len() && (i == 0 || text[i - 1] == '\n') ==> (#[trigger] text[i]) == '#'
            || text[i] == '\n'
    &&& text.len() > 0 ==> text.last() == '\n'
}

/// Whether nothing that goes into a set's document holds a control character but tabs.
pub open spec fn all_printable(set: Seq<char>, filters: Seq<(Seq<char>, Seq<char>)>) -> bool {
    &&& is_printable(set)
    &&& forall|i: int|
        0 <= i < filters.len() ==> is_printable((#[trigger] filters[i]).0) && is_printable(
            filters[i].1,
        )
}

/// Whether `text` is laid out as a set's document is.
pub open spec fn is_laid_out(document: TomlTable, text: Seq<char>) -> bool {
    forall|set: Seq<char>, filters: Seq<(Seq<char>, Seq<char>)>|
        document == #[trigger] set_document(set, filters) && all_printable(set, filters) ==> text
            == document_text(set, filters)
}

/// Whether `text`, with nothing but comments above it, is read as the set it was written for.
pub open spec fn is_read_back(document: TomlTable, text: Seq<char>) -> bool {
    forall|above: Seq<char>, set: Seq<char>, filters: Seq<(Seq<char>, Seq<char>)>|
        #![trigger is_comment_block(above), set_document(set, filters)]
        is_comment_block(above) && document == set_document(set, filters) && filters.len() > 0
            ==> is_read_as(toml_tree(above + text), set, filters)
}

/// The line that holds a pattern between single quotes.
pub open spec fn pattern_line(pattern: Seq<char>) -> Seq<char> {
    "pattern = '"@ + pattern + "'\n"@
}

/// The document of a set holds the set under its name and nothing else, and the set every one of its
/// filters, in order, each with its name and its pattern as they are; `[sets]` alone is left out, and
/// a pattern is written as it is where it can be.
pub proof fn law_a_document_holds_every_filter(
    set: Seq<char>,
    filters: Seq<(Seq<char>, Seq<char>)>,
    tables: Seq<TomlTable>,
)
    requires
        tables.len() == filters.len(),
        forall|i: int|
            0 <= i < filters.len() ==> (#[trigger] tables[i]).entries == seq![
                ("name"@, TomlItem::Text { value: filters[i].0, verbatim: false }),
                (
                    "pattern"@,
                    TomlItem::Text { value: filters[i].1, verbatim: is_quotable(filters[i].1) },
                ),
            ] && !tables[i].implicit,
    ensures
        set_document(set, filters) == (TomlTable {
            implicit: false,
            entries: seq![
                (
                    "sets"@,
                    TomlItem::Nested(
                        TomlTable {
                            implicit: true,
                            entries: seq![
                                (
                                    set,
                                    TomlItem::Nested(
                                        TomlTable {
                                            implicit: false,
                                            entries: seq![("filters"@, TomlItem::Listed(tables))],
                                        },
                                    ),
                                ),
                            ],
                        },
                    ),
                ),
            ],
        }),
{
    assert forall|i: int| 0 <= i < filters.len() implies #[trigger] tables[i] == filter_table(
        filters[i],
    ) by {
        assert(tables[i].entries =~= filter_table(filters[i]).entries);
    }
    assert(filter_tables(filters) =~= tables);
    let inner = with_entry(empty_table(), "filters"@, TomlItem::Listed(tables));
    assert(inner.entries =~= seq![("filters"@, TomlItem::Listed(tables))]);
    let middle = with_entry(
        TomlTable { implicit: true, entries: seq![] },
        set,
        TomlItem::Nested(inner),
    );
    assert(middle.entries =~= seq![(set, TomlItem::Nested(inner))]);
    let outer = with_entry(empty_table(), "sets"@, TomlItem::Nested(middle));
    assert(outer.entries =~= seq![("sets"@, TomlItem::Nested(middle))]);
}

/// Nothing of a set is lost in its document: two sets with the same document have the same name and
/// the same filters.
pub proof fn law_different_sets_have_different_documents(
    a: Seq<char>,
    f: Seq<(Seq<char>, Seq<char>)>,
    b: Seq<char>,
    g: Seq<(Seq<char>, Seq<char>)>,
)
    requires
        set_document(a, f) == set_document(b, g),
    ensures
        a == b,
        f == g,
{
    let x = set_document(a, f).entries[0].1->Nested_0.entries[0];
    let y = set_document(b, g).entries[0].1->Nested_0.entries[0];
    assert(x.0 == a && y.0 == b);
    let p = x.1->Nested_0.entries[0].1->Listed_0;
    let q = y.1->Nested_0.entries[0].1->Listed_0;
    assert(p == filter_tables(f));
    assert(q == filter_tables(g));
    assert(f.len() == p.len() && g.len() == q.len());
    assert forall|i: int| 0 <= i < f.len() implies f[i] == #[trigger] g[i] by {
        assert(p[i] == filter_table(f[i]));
        assert(q[i] == filter_table(g[i]));
        assert(filter_table(f[i]).entries[0].1->value == f[i].0);
        assert(filter_table(g[i]).entries[0].1->value == g[i].0);
        assert(filter_table(f[i]).entries[1].1->value == f[i].1);
        assert(filter_table(g[i]).entries[1].1->value == g[i].1);
    }
    assert(f =~= g);
}

/// A text can stand between single quotes if and only if none of its characters is a single quote, or
/// a control character other than a tab.
pub proof fn law_what_can_be_quoted(text: Seq<char>)
    ensures
        is_quotable(text) <==> forall|i: int|
            0 <= i < text.len() ==> {
                let c = #[trigger] text[i];
                c != '\'' && c != '\u{7f}' && (c == '\t' || ' ' <= c)
            },
{
    if is_quotable(text) {
        assert forall|i: int| 0 <= i < text.len() implies {
            let c = #[trigger] text[i];
            c != '\'' && c != '\u{7f}' && (c == '\t' || ' ' <= c)
        } by {
            assert(text.contains(text[i]));
            assert(!is_control(text[i]));
        }
    }
}

} // verus!
