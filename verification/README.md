# loghub2recon

Turns a [loghub](https://github.com/logpai/loghub) event-template CSV into a
filter set for recon, with the conversion verified by Verus.

A template is a mask of one message, `Failed password for <*> from <*>`, in
which `<*>` (or `<NUM>`) marks what varies. Each template becomes one filter: a
regular expression that finds the message anywhere in a raw log line.

## Layout

| Where | What |
| --- | --- |
| `src/text.rs` | White space, trimming, joining, numbers in digits |
| `src/template.rs` | Splitting a template, and its pattern |
| `src/matching.rs` | What a pattern finds |
| `src/spelling.rs` | What a pattern forgets about its template |
| `src/name.rs` | A filter's name |
| `src/convert.rs` | From a list of templates to a list of filters |
| `src/source.rs` | Where a CSV comes from, and what its set is called |
| `src/rows.rs` | The templates in a CSV |
| `src/document.rs` | TOML documents, and how a set's document is written |
| `src/emit.rs` | The file of a set |
| `src/tree.rs` | A TOML file as a tree of what was written where |
| `src/schema.rs`, `src/validate.rs` | Whether recon loads a file |
| `src/run.rs` | From a CSV to a file, and what the user is told |
| `src/error.rs` | What can go wrong |
| `src/outside.rs` | The functions of other crates and of std that are called, and what is taken to hold of them |
| `app/main.rs` | The command line, files and `curl` |
| `tests/` | Tests that run the library |

Functions named `law_…` state what holds of the library as a whole. The one
that matters most stands in the contract of `run::make`: the file that is made
is one that recon loads, unless a pattern is too large for the engine, which
that of a template of up to 1000 characters is not, or a control character in
the set's name or origin breaks the comment above the set.
