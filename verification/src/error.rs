//! What can go wrong, and what the user is then told.
use crate::emit::holds;
use crate::outside::{debug_text, quoted};
use crate::source::{dataset_list, dataset_names};
use crate::text::{joined, join, texts, trim, trimmed};
use vstd::prelude::*;

verus! {

/// Why a conversion came to nothing.
#[derive(Debug)]
pub enum Error {
    /// Neither a CSV nor a log type was given.
    NothingGiven,
    /// The argument looks like a path, and there is no file there.
    NoSuchFile { argument: String },
    /// The argument is neither a file nor the name of a log type.
    UnknownLogType { argument: String },
    /// The CSV could not be read.
    CannotRead { path: String, cause: String },
    /// `curl` could not be started.
    CannotRunCurl { cause: String, url: String },
    /// `curl` ran and failed; `stderr` is what it said.
    CannotFetch { url: String, stderr: String },
    /// The CSV's first row could not be read.
    CannotReadHeader { source: String, cause: String },
    /// The CSV's first row names no column of templates.
    NoTemplateColumn { source: String, header: Vec<String> },
    /// One of the CSV's rows could not be read.
    CannotReadRow { source: String, cause: String },
    /// The column of templates holds nothing.
    NoTemplates { source: String },
    /// The set would have no name.
    EmptySetName,
    /// The set would have the name of a built-in set.
    BuiltinSetName { set: String },
    /// No template gave a pattern.
    NoUsablePattern { source: String },
    /// A pattern that was put between single quotes was not found there again. This does not happen.
    NothingQuoted,
    /// The file that was made is not one that recon loads.
    Bug { message: String },
    /// There is a file where the set would be written.
    AlreadyThere { path: String },
    /// The file could not be written.
    CannotWrite { path: String, cause: String },
}

/// Some texts as a list of quoted texts between brackets.
pub open spec fn debug_list(list: Seq<Seq<char>>) -> Seq<char> {
    "["@ + joined(list.map_values(|text: Seq<char>| debug_text(text)), ", "@) + "]"@
}

impl Error {
    /// What the user is told.
    pub open spec fn message_text(&self) -> Seq<char> {
        match self {
            Error::NothingGiven => "no CSV or log type given"@,
            Error::NoSuchFile { argument } => "no such file: "@ + argument@,
            Error::UnknownLogType { argument } => debug_text(argument@)
                + " is neither a file nor a loghub log type. The log types are: "@ + joined(
                dataset_names(),
                ", "@,
            ),
            Error::CannotRead { path, cause } => "could not read "@ + path@ + ": "@ + cause@,
            Error::CannotRunCurl { cause, url } => "could not run `curl`: "@ + cause@
                + ". Download the CSV yourself and pass its path instead: "@ + url@,
            Error::CannotFetch { url, stderr } => "could not fetch "@ + url@ + ": "@ + trimmed(
                stderr@,
            ),
            Error::CannotReadHeader { source, cause } => source@
                + ": could not read the header row: "@ + cause@,
            Error::NoTemplateColumn { source, header } => source@
                + ": no `EventTemplate` column; the header row is "@ + debug_list(texts(header@)),
            Error::CannotReadRow { source, cause } => source@ + ": "@ + cause@,
            Error::NoTemplates { source } => source@ + ": the `EventTemplate` column is empty"@,
            Error::EmptySetName => "the set's name is empty; give one with --set-name"@,
            Error::BuiltinSetName { set } => debug_text(set@)
                + " is one of recon's built-in set names, which may not carry filters; give another with --set-name"@,
            Error::NoUsablePattern { source } => source@
                + ": no template produced a usable pattern"@,
            Error::NothingQuoted => "the snippet defines `pattern`"@,
            Error::Bug { message } =>
                "loghub2recon produced a file recon will not load; this is a bug: "@ + message@,
            Error::AlreadyThere { path } => path@
                + " is already there; pass --force to overwrite"@,
            Error::CannotWrite { path, cause } => "could not write "@ + path@ + ": "@ + cause@,
        }
    }

    /// What the user is told.
    pub fn message(&self) -> (text: String)
        ensures
            text@ == self.message_text(),
    {
        match self {
            Error::NothingGiven => "no CSV or log type given".to_owned(),
            Error::NoSuchFile { argument } => "no such file: ".to_owned().concat(argument.as_str()),
            Error::UnknownLogType { argument } => quoted(argument.as_str()).concat(
                " is neither a file nor a loghub log type. The log types are: ",
            ).concat(join(&dataset_list(), ", ").as_str()),
            Error::CannotRead { path, cause } => "could not read ".to_owned().concat(
                path.as_str(),
            ).concat(": ").concat(cause.as_str()),
            Error::CannotRunCurl { cause, url } => "could not run `curl`: ".to_owned().concat(
                cause.as_str(),
            ).concat(". Download the CSV yourself and pass its path instead: ").concat(
                url.as_str(),
            ),
            Error::CannotFetch { url, stderr } => "could not fetch ".to_owned().concat(
                url.as_str(),
            ).concat(": ").concat(trim(stderr.as_str()).as_str()),
            Error::CannotReadHeader { source, cause } => source.clone().concat(
                ": could not read the header row: ",
            ).concat(cause.as_str()),
            Error::NoTemplateColumn { source, header } => source.clone().concat(
                ": no `EventTemplate` column; the header row is ",
            ).concat(quoted_list(header).as_str()),
            Error::CannotReadRow { source, cause } => source.clone().concat(": ").concat(
                cause.as_str(),
            ),
            Error::NoTemplates { source } => source.clone().concat(
                ": the `EventTemplate` column is empty",
            ),
            Error::EmptySetName => "the set's name is empty; give one with --set-name".to_owned(),
            Error::BuiltinSetName { set } => quoted(set.as_str()).concat(
                " is one of recon's built-in set names, which may not carry filters; give another with --set-name",
            ),
            Error::NoUsablePattern { source } => source.clone().concat(
                ": no template produced a usable pattern",
            ),
            Error::NothingQuoted => "the snippet defines `pattern`".to_owned(),
            Error::Bug { message } =>
                "loghub2recon produced a file recon will not load; this is a bug: ".to_owned().concat(
            message.as_str()),
            Error::AlreadyThere { path } => path.clone().concat(
                " is already there; pass --force to overwrite",
            ),
            Error::CannotWrite { path, cause } => "could not write ".to_owned().concat(
                path.as_str(),
            ).concat(": ").concat(cause.as_str()),
        }
    }
}

/// Some texts as a list of quoted texts between brackets.
fn quoted_list(list: &Vec<String>) -> (text: String)
    ensures
        text@ == debug_list(texts(list@)),
{
    let mut items: Vec<String> = Vec::new();
    let mut i: usize = 0;
    while i < list.len()
        invariant
            i <= list@.len(),
            items@.len() == i,
            forall|j: int| 0 <= j < i ==> (#[trigger] items@[j])@ == debug_text(list@[j]@),
        decreases list.len() - i,
    {
        items.push(quoted(list[i].as_str()));
        i = i + 1;
    }
    assert(texts(items@) =~= texts(list@).map_values(|text: Seq<char>| debug_text(text)));
    "[".to_owned().concat(join(&items, ", ").as_str()).concat("]")
}

/// What is told of a path, a name or a source starts with it or ends with it as it is, and what is told
/// of a cause ends with the cause.
pub proof fn law_a_message_says_what_it_is_about(error: Error)
    ensures
        match error {
            Error::NoSuchFile { argument } => error.message_text() == "no such file: "@ + argument@,
            Error::UnknownLogType { argument } => debug_text(argument@).is_prefix_of(
                error.message_text(),
            ),
            Error::CannotRead { path, cause } => ("could not read "@ + path@).is_prefix_of(
                error.message_text(),
            ) && (": "@ + cause@).is_suffix_of(error.message_text()),
            Error::CannotRunCurl { cause, url } => ("could not run `curl`: "@
                + cause@).is_prefix_of(error.message_text()) && (
            " yourself and pass its path instead: "@ + url@).is_suffix_of(error.message_text()),
            Error::CannotFetch { url, stderr } => ("could not fetch "@ + url@).is_prefix_of(
                error.message_text(),
            ) && (": "@ + trimmed(stderr@)).is_suffix_of(error.message_text()),
            Error::CannotReadHeader { source, cause } => (source@
                + ": could not read the header row"@).is_prefix_of(error.message_text()) && (": "@
                + cause@).is_suffix_of(error.message_text()),
            Error::NoTemplateColumn { source, header } => (source@
                + ": no `EventTemplate` column"@).is_prefix_of(error.message_text()),
            Error::CannotReadRow { source, cause } => error.message_text() == source@ + ": "@ + cause@,
            Error::NoTemplates { source } => (source@ + ": "@).is_prefix_of(error.message_text()),
            Error::BuiltinSetName { set } => debug_text(set@).is_prefix_of(error.message_text())
                && "--set-name"@.is_suffix_of(error.message_text()),
            Error::EmptySetName => "--set-name"@.is_suffix_of(error.message_text()),
            Error::NoUsablePattern { source } => (source@ + ": "@).is_prefix_of(
                error.message_text(),
            ),
            Error::Bug { message } => ("; this is a bug: "@ + message@).is_suffix_of(
                error.message_text(),
            ),
            Error::AlreadyThere { path } => path@.is_prefix_of(error.message_text())
                && "pass --force to overwrite"@.is_suffix_of(error.message_text()),
            Error::CannotWrite { path, cause } => ("could not write "@ + path@).is_prefix_of(
                error.message_text(),
            ) && (": "@ + cause@).is_suffix_of(error.message_text()),
            _ => true,
        },
{
    let text = error.message_text();
    match error {
        Error::UnknownLogType { argument } => {
            assert(debug_text(argument@) =~= text.take(debug_text(argument@).len() as int));
        },
        Error::CannotRead { path, cause } => {
            lemma_ends("could not read "@ + path@, seq![], ": "@ + cause@, text);
        },
        Error::CannotRunCurl { cause, url } => {
            reveal_strlit(". Download the CSV yourself and pass its path instead: ");
            reveal_strlit(". Download the CSV");
            reveal_strlit(" yourself and pass its path instead: ");
            assert(". Download the CSV yourself and pass its path instead: "@
                =~= ". Download the CSV"@ + " yourself and pass its path instead: "@);
            lemma_ends(
                "could not run `curl`: "@ + cause@,
                ". Download the CSV"@,
                " yourself and pass its path instead: "@ + url@,
                text,
            );
        },
        Error::CannotFetch { url, stderr } => {
            lemma_ends("could not fetch "@ + url@, seq![], ": "@ + trimmed(stderr@), text);
        },
        Error::CannotReadHeader { source, cause } => {
            reveal_strlit(": could not read the header row: ");
            reveal_strlit(": could not read the header row");
            reveal_strlit(": ");
            assert(": could not read the header row: "@ =~= ": could not read the header row"@
                + ": "@);
            lemma_ends(source@ + ": could not read the header row"@, seq![], ": "@ + cause@, text);
        },
        Error::NoTemplateColumn { source, header } => {
            reveal_strlit(": no `EventTemplate` column; the header row is ");
            reveal_strlit(": no `EventTemplate` column");
            reveal_strlit("; the header row is ");
            assert(": no `EventTemplate` column; the header row is "@
                =~= ": no `EventTemplate` column"@ + "; the header row is "@);
            lemma_ends(
                source@ + ": no `EventTemplate` column"@,
                "; the header row is "@,
                debug_list(texts(header@)),
                text,
            );
        },
        Error::NoTemplates { source } => {
            reveal_strlit(": the `EventTemplate` column is empty");
            reveal_strlit("the `EventTemplate` column is empty");
            reveal_strlit(": ");
            assert(": the `EventTemplate` column is empty"@ =~= ": "@
                + "the `EventTemplate` column is empty"@);
            lemma_ends(source@ + ": "@, seq![], "the `EventTemplate` column is empty"@, text);
        },
        Error::BuiltinSetName { set } => {
            reveal_strlit(
                " is one of recon's built-in set names, which may not carry filters; give another with --set-name",
            );
            reveal_strlit("--set-name");
            let said =
                " is one of recon's built-in set names, which may not carry filters; give another with --set-name"@;
            assert("--set-name"@ =~= said.skip(said.len() - 10));
            lemma_ends(debug_text(set@), said.take(said.len() - 10), "--set-name"@, text);
        },
        Error::EmptySetName => {
            reveal_strlit("the set's name is empty; give one with --set-name");
            reveal_strlit("--set-name");
            assert("--set-name"@ =~= text.skip(text.len() - 10));
            lemma_ends(text.take(text.len() - 10), seq![], "--set-name"@, text);
        },
        Error::NoUsablePattern { source } => {
            reveal_strlit(": no template produced a usable pattern");
            reveal_strlit("no template produced a usable pattern");
            reveal_strlit(": ");
            assert(": no template produced a usable pattern"@ =~= ": "@
                + "no template produced a usable pattern"@);
            lemma_ends(source@ + ": "@, seq![], "no template produced a usable pattern"@, text);
        },
        Error::Bug { message } => {
            reveal_strlit("loghub2recon produced a file recon will not load; this is a bug: ");
            reveal_strlit("loghub2recon produced a file recon will not load");
            reveal_strlit("; this is a bug: ");
            assert("loghub2recon produced a file recon will not load; this is a bug: "@
                =~= "loghub2recon produced a file recon will not load"@ + "; this is a bug: "@);
            lemma_ends(
                "loghub2recon produced a file recon will not load"@,
                seq![],
                "; this is a bug: "@ + message@,
                text,
            );
        },
        Error::AlreadyThere { path } => {
            reveal_strlit(" is already there; pass --force to overwrite");
            reveal_strlit(" is already there; ");
            reveal_strlit("pass --force to overwrite");
            assert(" is already there; pass --force to overwrite"@ =~= " is already there; "@
                + "pass --force to overwrite"@);
            lemma_ends(path@, " is already there; "@, "pass --force to overwrite"@, text);
        },
        Error::CannotWrite { path, cause } => {
            lemma_ends("could not write "@ + path@, seq![], ": "@ + cause@, text);
        },
        _ => {},
    }
}

/// What is told apart from the path, the name, the source and the cause is the same every time.
pub proof fn law_a_message_is_the_same_every_time(error: Error)
    ensures
        match error {
            Error::NothingGiven => error.message_text() == "no CSV or log type given"@,
            Error::NothingQuoted => error.message_text() == "the snippet defines `pattern`"@,
            Error::UnknownLogType { argument } => error.message_text() == debug_text(argument@)
                + " is neither a file nor a loghub log type. The log types are: "@ + joined(
                dataset_names(),
                ", "@,
            ),
            Error::CannotRead { path, cause } => error.message_text().len() == (
            "could not read "@ + path@ + ": "@ + cause@).len(),
            Error::CannotRunCurl { cause, url } => error.message_text() == "could not run `curl`: "@
                + cause@ + ". Download the CSV yourself and pass its path instead: "@ + url@,
            Error::CannotFetch { url, stderr } => error.message_text().len() == (
            "could not fetch "@ + url@ + ": "@ + trimmed(stderr@)).len(),
            Error::CannotReadHeader { source, cause } => error.message_text() == source@
                + ": could not read the header row: "@ + cause@,
            Error::NoTemplateColumn { source, header } => error.message_text() == source@
                + ": no `EventTemplate` column; the header row is "@ + ("["@ + joined(
                Seq::new(header@.len(), |i: int| debug_text(header@[i]@)),
                ", "@,
            ) + "]"@),
            Error::NoTemplates { source } => error.message_text() == source@
                + ": the `EventTemplate` column is empty"@,
            Error::EmptySetName => error.message_text()
                == "the set's name is empty; give one with --set-name"@,
            Error::BuiltinSetName { set } => error.message_text() == debug_text(set@)
                + " is one of recon's built-in set names, which may not carry filters; give another with --set-name"@,
            Error::NoUsablePattern { source } => error.message_text() == source@
                + ": no template produced a usable pattern"@,
            Error::Bug { message } => error.message_text()
                == "loghub2recon produced a file recon will not load; this is a bug: "@ + message@,
            Error::AlreadyThere { path } => error.message_text() == path@
                + " is already there; pass --force to overwrite"@,
            Error::CannotWrite { path, cause } => error.message_text().len() == (
            "could not write "@ + path@ + ": "@ + cause@).len(),
            _ => true,
        },
{
    if let Error::NoTemplateColumn { source, header } = error {
        let list = Seq::new(header@.len(), |i: int| debug_text(header@[i]@));
        assert(texts(header@).map_values(|text: Seq<char>| debug_text(text)) =~= list);
    }
}

proof fn lemma_ends(start: Seq<char>, middle: Seq<char>, end: Seq<char>, text: Seq<char>)
    requires
        text =~= start + middle + end,
    ensures
        start.is_prefix_of(text),
        end.is_suffix_of(text),
{
    assert(start =~= text.take(start.len() as int));
    assert(end =~= text.subrange(text.len() - end.len(), text.len() as int));
}

proof fn lemma_joined_holds(list: Seq<Seq<char>>, separator: Seq<char>, i: int) -> (at: int)
    requires
        0 <= i < list.len(),
    ensures
        0 <= at <= joined(list, separator).len() - list[i].len(),
        joined(list, separator).subrange(at, at + list[i].len()) == list[i],
    decreases list.len(),
{
    let all = joined(list, separator);
    if list.len() == 1 {
        assert(all.subrange(0, all.len() as int) =~= all);
        0
    } else {
        let before = joined(list.drop_last(), separator);
        if i == list.len() - 1 {
            let at = (before.len() + separator.len()) as int;
            assert(all.subrange(at, at + list[i].len()) =~= list[i]);
            at
        } else {
            assert(list.drop_last()[i] == list[i]);
            let at = lemma_joined_holds(list.drop_last(), separator, i);
            assert(all.subrange(at, at + list[i].len()) =~= before.subrange(
                at,
                at + list[i].len(),
            ));
            at
        }
    }
}

/// A user who names no log type is told every log type that there is, and one whose CSV has no column
/// of templates every heading that it has.
pub proof fn law_a_message_lists_the_choices(error: Error, i: int)
    ensures
        error is UnknownLogType && 0 <= i < 16 ==> holds(error.message_text(), dataset_names()[i]),
        error matches Error::NoTemplateColumn { header, .. } ==> (0 <= i < header@.len() ==> holds(
            error.message_text(),
            debug_text(header@[i]@),
        )),
{
    let text = error.message_text();
    match error {
        Error::UnknownLogType { argument } => {
            if 0 <= i < 16 {
                let list = dataset_names();
                let at = lemma_joined_holds(list, ", "@, i);
                let all = joined(list, ", "@);
                let n = text.len() - all.len();
                assert(text.subrange(n + at, n + at + list[i].len()) =~= all.subrange(
                    at,
                    at + list[i].len(),
                ));
            }
        },
        Error::NoTemplateColumn { source, header } => {
            if 0 <= i < header@.len() {
                let list = texts(header@).map_values(|text: Seq<char>| debug_text(text));
                let at = lemma_joined_holds(list, ", "@, i);
                let all = joined(list, ", "@);
                let n = text.len() - "]"@.len() - all.len();
                assert(list[i] == debug_text(header@[i]@));
                assert(text.subrange(n + at, n + at + list[i].len()) =~= all.subrange(
                    at,
                    at + list[i].len(),
                ));
            }
        },
        _ => {},
    }
}

} // verus!
