//! Where the templates come from.
use crate::emit::holds;
use crate::error::Error;
use crate::outside::{
    base_name, file_name, from_utf8_lossy, is_component, is_plain_path, last_component, utf8_lossy,
};
use crate::text::{chars_of, text_of, texts};
use vstd::prelude::*;

verus! {

/// The log types that ship both a log and a template file.
pub const DATASETS: [&'static str; 16] = [
    "Android",
    "Apache",
    "BGL",
    "HDFS",
    "HPC",
    "Hadoop",
    "HealthApp",
    "Linux",
    "Mac",
    "OpenSSH",
    "OpenStack",
    "Proxifier",
    "Spark",
    "Thunderbird",
    "Windows",
    "Zookeeper",
];

/// The names of the log types.
pub open spec fn dataset_names() -> Seq<Seq<char>> {
    DATASETS@.map_values(|name: &'static str| name@)
}

/// The names of the log types.
pub fn dataset_list() -> (names: Vec<String>)
    ensures
        texts(names@) == dataset_names(),
{
    let mut names: Vec<String> = Vec::new();
    let mut i: usize = 0;
    while i < 16
        invariant
            i <= 16,
            names@.len() == i,
            forall|j: int| 0 <= j < i ==> (#[trigger] names@[j])@ == DATASETS@[j]@,
        decreases 16 - i,
    {
        names.push(DATASETS[i].to_owned());
        i = i + 1;
    }
    assert(texts(names@) =~= dataset_names());
    names
}

/// The address of a log type's templates.
pub open spec fn url_of(name: Seq<char>) -> Seq<char> {
    "https://raw.githubusercontent.com/logpai/loghub/master/"@ + name + "/"@ + name
        + "_2k.log_templates.csv"@
}

/// The address that a log type's templates are served from.
pub fn template_url(name: &str) -> (url: String)
    ensures
        url@ == url_of(name@),
{
    "https://raw.githubusercontent.com/logpai/loghub/master/".to_owned().concat(name).concat(
        "/",
    ).concat(name).concat("_2k.log_templates.csv")
}

/// An ASCII capital as a small letter; any other character as it is.
pub open spec fn lower(c: char) -> char {
    if 'A' <= c <= 'Z' {
        ((c as u8) + 32) as char
    } else {
        c
    }
}

/// Whether two texts are the same but for the case of ASCII letters.
pub open spec fn same_letters(a: Seq<char>, b: Seq<char>) -> bool {
    a.len() == b.len() && forall|i: int| 0 <= i < a.len() ==> lower(#[trigger] a[i]) == lower(b[i])
}

fn lowered(c: char) -> (small: char)
    ensures
        small == lower(c),
{
    if 'A' <= c && c <= 'Z' {
        ((c as u8) + 32) as char
    } else {
        c
    }
}

/// Whether two texts are the same but for the case of ASCII letters.
fn same_but_for_case(a: &str, b: &str) -> (same: bool)
    ensures
        same == same_letters(a@, b@),
{
    let x = chars_of(a);
    let y = chars_of(b);
    if x.len() != y.len() {
        return false;
    }
    let mut i: usize = 0;
    while i < x.len()
        invariant
            x@ == a@,
            y@ == b@,
            x@.len() == y@.len(),
            i <= x@.len(),
            forall|j: int| 0 <= j < i ==> lower(#[trigger] x@[j]) == lower(y@[j]),
        decreases x.len() - i,
    {
        if lowered(x[i]) != lowered(y[i]) {
            assert(lower(a@[i as int]) != lower(b@[i as int]));
            return false;
        }
        i = i + 1;
    }
    true
}

/// Whether `argument` names the `i`th log type.
pub open spec fn names_dataset(argument: Seq<char>, i: int) -> bool {
    &&& 0 <= i < DATASETS@.len()
    &&& same_letters(DATASETS@[i]@, argument)
    &&& forall|j: int| 0 <= j < i ==> !same_letters(#[trigger] DATASETS@[j]@, argument)
}

/// The log type that `argument` names, without regard to case.
pub fn dataset_named(argument: &str) -> (name: Option<&'static str>)
    ensures
        match name {
            Some(name) => exists|i: int|
                #[trigger] names_dataset(argument@, i) && name@ == DATASETS@[i]@,
            None => forall|i: int| !#[trigger] names_dataset(argument@, i),
        },
{
    let mut i: usize = 0;
    while i < 16
        invariant
            i <= 16,
            forall|j: int| 0 <= j < i ==> !same_letters(#[trigger] DATASETS@[j]@, argument@),
        decreases 16 - i,
    {
        if same_but_for_case(DATASETS[i], argument) {
            assert(names_dataset(argument@, i as int));
            return Some(DATASETS[i]);
        }
        i = i + 1;
    }
    None
}

/// Whether a text ends in `.csv`, whatever the case of its letters.
pub open spec fn ends_in_csv(text: Seq<char>) -> bool {
    text.len() >= 4 && same_letters(text.skip(text.len() - 4), seq!['.', 'c', 's', 'v'])
}

/// Whether a text has the shape of a path: it holds a separator or ends in `.csv`.
pub open spec fn path_shaped(text: Seq<char>) -> bool {
    text.contains('/') || text.contains('\\') || ends_in_csv(text)
}

/// Whether the argument is a path that the user mistyped rather than a log type that they
/// mistyped.
pub fn looks_like_a_path(argument: &str) -> (path: bool)
    ensures
        path == path_shaped(argument@),
{
    let chars = chars_of(argument);
    let n = chars.len();
    let mut i: usize = 0;
    while i < n
        invariant
            chars@ == argument@,
            n == chars@.len(),
            i <= n,
            forall|j: int| 0 <= j < i ==> #[trigger] chars@[j] != '/' && chars@[j] != '\\',
        decreases n - i,
    {
        if chars[i] == '/' || chars[i] == '\\' {
            assert(argument@[i as int] == '/' || argument@[i as int] == '\\');
            return true;
        }
        i = i + 1;
    }
    if n < 4 {
        return false;
    }
    let end = text_of(&chars, n - 4, n);
    proof {
        assert(argument@.skip(n - 4) =~= argument@.subrange(n - 4, n as int));
        reveal_strlit(".csv");
        assert(".csv"@ =~= seq!['.', 'c', 's', 'v']);
    }
    same_but_for_case(end.as_str(), ".csv")
}

/// The two ways to name a template file.
#[derive(Debug)]
pub enum Source {
    /// A file on this machine, by its path.
    Local(String),
    /// A log type, by its name.
    Dataset(&'static str),
}

/// Where a set's name in the name of its file ends: before the first `_2k` at or after `from`.
pub open spec fn size_mark(file: Seq<char>, from: int) -> Option<int>
    decreases file.len() - from,
{
    if from < 0 || from + 3 > file.len() {
        None
    } else if file[from] == '_' && file[from + 1] == '2' && file[from + 2] == 'k' {
        Some(from)
    } else {
        size_mark(file, from + 1)
    }
}

/// Where the last dot of a file's name is.
pub open spec fn last_dot(file: Seq<char>) -> Option<int>
    decreases file.len(),
{
    if file.len() == 0 {
        None
    } else if file.last() == '.' {
        Some(file.len() - 1)
    } else {
        last_dot(file.drop_last())
    }
}

/// What a set is called that comes from a file of this name: what stands before `_2k`, or before
/// the extension, or the whole name.
pub open spec fn set_name_of(file: Seq<char>) -> Seq<char> {
    match size_mark(file, 0) {
        Some(at) => file.take(at),
        None => match last_dot(file) {
            Some(at) => file.take(at),
            None => file,
        },
    }
}

proof fn lemma_size_mark(file: Seq<char>, from: int, end: int)
    requires
        0 <= from,
        0 <= end <= file.len(),
        match size_mark(file, from) {
            Some(at) => end <= at,
            None => true,
        },
    ensures
        size_mark(file.take(end), from) is None,
    decreases file.len() - from,
{
    if from + 3 <= end {
        lemma_size_mark(file, from + 1, end);
    }
}

/// The name of a set from a file holds no `_2k`.
pub proof fn law_set_names_hold_no_size_mark(file: Seq<char>)
    ensures
        size_mark(set_name_of(file), 0) is None,
{
    match size_mark(file, 0) {
        Some(at) => {
            lemma_size_mark_is_inside(file, 0);
            lemma_size_mark(file, 0, at);
        },
        None => match last_dot(file) {
            Some(at) => {
                lemma_last_dot_is_inside(file);
                lemma_size_mark(file, 0, at);
            },
            None => {},
        },
    }
}

proof fn lemma_size_mark_is_inside(file: Seq<char>, from: int)
    ensures
        size_mark(file, from) matches Some(at) ==> from <= at < file.len(),
    decreases file.len() - from,
{
    if 0 <= from && from + 3 <= file.len() {
        lemma_size_mark_is_inside(file, from + 1);
    }
}

proof fn lemma_last_dot_is_inside(file: Seq<char>)
    ensures
        last_dot(file) matches Some(at) ==> 0 <= at < file.len(),
    decreases file.len(),
{
    if file.len() > 0 {
        lemma_last_dot_is_inside(file.drop_last());
    }
}

/// What a set is called that comes from a file of this name.
pub fn set_name_for_file(file: &str) -> (set: String)
    ensures
        set@ == set_name_of(file@),
{
    let chars = chars_of(file);
    let n = chars.len();
    let mut i: usize = 0;
    while i < n && n - i >= 3
        invariant
            chars@ == file@,
            n == chars@.len(),
            i <= n,
            size_mark(file@, 0) == size_mark(file@, i as int),
        decreases n - i,
    {
        if chars[i] == '_' && chars[i + 1] == '2' && chars[i + 2] == 'k' {
            assert(file@.take(i as int) =~= file@.subrange(0, i as int));
            return text_of(&chars, 0, i);
        }
        i = i + 1;
    }
    assert(size_mark(file@, 0) is None);
    let mut end: usize = n;
    assert(file@.take(n as int) =~= file@);
    while end > 0
        invariant
            chars@ == file@,
            n == chars@.len(),
            end <= n,
            size_mark(file@, 0) is None,
            last_dot(file@) == last_dot(file@.take(end as int)),
        decreases end,
    {
        assert(file@.take(end as int).drop_last() =~= file@.take(end - 1));
        if chars[end - 1] == '.' {
            assert(file@.take(end - 1) =~= file@.subrange(0, end - 1));
            return text_of(&chars, 0, end - 1);
        }
        end = end - 1;
    }
    file.to_owned()
}

impl Source {
    /// Where the templates came from.
    pub open spec fn origin(&self) -> Seq<char> {
        match self {
            Source::Local(path) => path@,
            Source::Dataset(name) => url_of(name@),
        }
    }

    /// Whether a set is called so when the user does not say: a log type's name, or what the name
    /// of the file gives. Where the system decides what the name of the file is, it is a component
    /// of the path all the same, or nothing; and the set's name holds no `_2k`.
    pub open spec fn is_default_set_name(&self, set: Seq<char>) -> bool {
        match self {
            Source::Dataset(name) => set == name@,
            Source::Local(path) => {
                &&& exists|file: Seq<char>| #[trigger]
                    is_component(path@, file) && set == set_name_of(file)
                &&& size_mark(set, 0) is None
                &&& is_plain_path(path@) ==> set == set_name_of(
                    match base_name(path@) {
                        Some(file) => file,
                        None => seq![],
                    },
                )
            },
        }
    }

    /// A path if there is a file there; otherwise a log type, without regard to case.
    ///
    /// `present` says whether there is a file at `argument`.
    pub fn resolve(argument: &str, present: bool) -> (source: Result<Source, Error>)
        ensures
            match source {
                Ok(Source::Local(path)) => present && path@ == argument@,
                Ok(Source::Dataset(name)) => !present && exists|i: int|
                    #[trigger] names_dataset(argument@, i) && name@ == DATASETS@[i]@,
                Err(Error::NoSuchFile { argument: given }) => {
                    &&& !present
                    &&& forall|i: int| !#[trigger] names_dataset(argument@, i)
                    &&& path_shaped(argument@)
                    &&& given@ == argument@
                },
                Err(Error::UnknownLogType { argument: given }) => {
                    &&& !present
                    &&& forall|i: int| !#[trigger] names_dataset(argument@, i)
                    &&& !path_shaped(argument@)
                    &&& given@ == argument@
                },
                Err(_) => false,
            },
    {
        if present {
            return Ok(Source::Local(argument.to_owned()));
        }
        if let Some(name) = dataset_named(argument) {
            return Ok(Source::Dataset(name));
        }
        if looks_like_a_path(argument) {
            return Err(Error::NoSuchFile { argument: argument.to_owned() });
        }
        Err(Error::UnknownLogType { argument: argument.to_owned() })
    }

    /// What the set is called when the user does not say: a log type's name, or what the name of
    /// the file gives.
    pub fn default_set_name(&self) -> (set: String)
        ensures
            self.is_default_set_name(set@),
    {
        match self {
            Source::Dataset(name) => {
                let name: &str = name;
                name.to_owned()
            },
            Source::Local(path) => match file_name(path.as_str()) {
                Some(file) => {
                    proof {
                        law_set_names_hold_no_size_mark(file@);
                        assert(is_component(path@, file@));
                    }
                    set_name_for_file(file.as_str())
                },
                None => {
                    proof {
                        law_set_names_hold_no_size_mark(seq![]);
                        assert(path@.subrange(0, 0) =~= seq![]);
                        assert(is_component(path@, seq![]));
                        reveal_strlit("");
                        assert(""@ =~= seq![]);
                    }
                    set_name_for_file("")
                },
            },
        }
    }

    /// Where the templates came from, for messages and for the file's header comment.
    pub fn describe(&self) -> (origin: String)
        ensures
            origin@ == self.origin(),
    {
        match self {
            Source::Local(path) => path.clone(),
            Source::Dataset(name) => template_url(name),
        }
    }
}

/// Where the bytes of a CSV are to be had.
#[derive(Debug)]
pub enum Place {
    /// In the file at this path.
    File(String),
    /// At this address.
    Address(String),
}

impl Source {
    /// Where the bytes of the CSV are to be had: a path is read, a log type is fetched.
    pub fn place(&self) -> (place: Place)
        ensures
            match (self, place) {
                (Source::Local(path), Place::File(file)) => file@ == path@,
                (Source::Dataset(name), Place::Address(url)) => url@ == url_of(name@),
                _ => false,
            },
    {
        match self {
            Source::Local(path) => Place::File(path.clone()),
            Source::Dataset(name) => Place::Address(template_url(name)),
        }
    }
}

/// The arguments for a `curl` that fetches `url`: it fails where the server does, says nothing but
/// why, and follows where it is sent.
pub fn curl_arguments(url: &str) -> (arguments: Vec<String>)
    ensures
        texts(arguments@) == seq![
            "--fail"@,
            "--silent"@,
            "--show-error"@,
            "--location"@,
            url@,
        ],
{
    let mut arguments: Vec<String> = Vec::new();
    arguments.push("--fail".to_owned());
    arguments.push("--silent".to_owned());
    arguments.push("--show-error".to_owned());
    arguments.push("--location".to_owned());
    arguments.push(url.to_owned());
    assert(texts(arguments@) =~= seq![
        "--fail"@,
        "--silent"@,
        "--show-error"@,
        "--location"@,
        url@,
    ]);
    arguments
}

/// What a `curl` that has ended leaves: the bytes it wrote, or the reason why there are none.
pub fn fetched(url: &str, success: bool, stdout: Vec<u8>, stderr: &[u8]) -> (bytes: Result<
    Vec<u8>,
    Error,
>)
    ensures
        match bytes {
            Ok(bytes) => success && bytes@ == stdout@,
            Err(Error::CannotFetch { url: address, stderr: said }) => {
                &&& !success
                &&& address@ == url@
                &&& said@ == utf8_lossy(stderr@)
            },
            Err(_) => false,
        },
{
    if success {
        Ok(stdout)
    } else {
        Err(Error::CannotFetch { url: url.to_owned(), stderr: from_utf8_lossy(stderr) })
    }
}

/// The text of a CSV. Bytes that are no UTF-8 are replaced rather than refused.
pub fn decode(bytes: &[u8]) -> (csv: String)
    ensures
        csv@ == utf8_lossy(bytes@),
        vstd::utf8::valid_utf8(bytes@) ==> csv@ == vstd::utf8::decode_utf8(bytes@),
{
    from_utf8_lossy(bytes)
}

/// No two log types have the same name, case aside, so each can be named in any mix of capitals
/// and small letters.
pub proof fn law_every_log_type_can_be_named(argument: Seq<char>, i: int)
    requires
        0 <= i < DATASETS@.len(),
        same_letters(DATASETS@[i]@, argument),
    ensures
        names_dataset(argument, i),
{
    assert forall|j: int| 0 <= j < i implies !same_letters(#[trigger] DATASETS@[j]@, argument) by {
        if same_letters(DATASETS@[j]@, argument) {
            let a = DATASETS@[i]@;
            let b = DATASETS@[j]@;
            assert forall|k: int| 0 <= k < a.len() implies lower(#[trigger] a[k]) == lower(b[k]) by {
                assert(lower(b[k]) == lower(argument[k]));
            }
            lemma_log_types_differ(i, j);
        }
    }
}

proof fn lemma_log_types_differ(i: int, j: int)
    requires
        0 <= j < i < DATASETS@.len(),
    ensures
        !same_letters(DATASETS@[i]@, DATASETS@[j]@),
{
    reveal_strlit("Android");
    reveal_strlit("Apache");
    reveal_strlit("BGL");
    reveal_strlit("HDFS");
    reveal_strlit("HPC");
    reveal_strlit("Hadoop");
    reveal_strlit("HealthApp");
    reveal_strlit("Linux");
    reveal_strlit("Mac");
    reveal_strlit("OpenSSH");
    reveal_strlit("OpenStack");
    reveal_strlit("Proxifier");
    reveal_strlit("Spark");
    reveal_strlit("Thunderbird");
    reveal_strlit("Windows");
    reveal_strlit("Zookeeper");
    let a = DATASETS@[i]@;
    let b = DATASETS@[j]@;
    if same_letters(a, b) {
        assert(lower(a[0]) == lower(b[0]));
        assert(lower(a[1]) == lower(b[1]));
        assert(lower(a[2]) == lower(b[2]));
    }
}

proof fn lemma_size_mark_is_first(file: Seq<char>, from: int)
    requires
        0 <= from,
    ensures
        match size_mark(file, from) {
            Some(at) => {
                &&& from <= at <= file.len() - 3
                &&& file.subrange(at, at + 3) == "_2k"@
                &&& forall|i: int|
                    from <= i < at ==> #[trigger] file.subrange(i, i + 3) != "_2k"@
            },
            None => forall|i: int|
                from <= i <= file.len() - 3 ==> #[trigger] file.subrange(i, i + 3) != "_2k"@,
        },
    decreases file.len() - from,
{
    reveal_strlit("_2k");
    let mark = "_2k"@;
    if from + 3 <= file.len() {
        let here = file.subrange(from, from + 3);
        assert(here[0] == file[from] && here[1] == file[from + 1] && here[2] == file[from + 2]);
        if file[from] == '_' && file[from + 1] == '2' && file[from + 2] == 'k' {
            assert(here =~= mark);
        } else {
            assert(here != mark) by {
                if here == mark {
                    assert(here[0] == '_' && here[1] == '2' && here[2] == 'k');
                }
            }
            lemma_size_mark_is_first(file, from + 1);
        }
    }
}

/// A file whose name holds `_2k` gives a set of what stands before the first one: any name that does
/// not hold it comes back, whatever follows.
pub proof fn law_a_set_is_named_up_to_the_size_mark(name: Seq<char>, rest: Seq<char>)
    requires
        !holds(name, "_2k"@),
    ensures
        set_name_of(name + "_2k"@ + rest) == name,
{
    reveal_strlit("_2k");
    let mark = "_2k"@;
    let file = name + mark + rest;
    let n = name.len() as int;
    lemma_size_mark_is_first(file, 0);
    assert(file.subrange(n, n + 3) =~= mark);
    let at = size_mark(file, 0)->Some_0;
    if at < n {
        let found = file.subrange(at, at + 3);
        assert(found[0] == file[at] && found[1] == file[at + 1] && found[2] == file[at + 2]);
        assert(found[0] == '_' && found[1] == '2' && found[2] == 'k');
        assert(file[n] == '_');
        if at + 3 <= n {
            assert(name.subrange(at, at + 3) =~= mark);
        } else {
            assert(n == at + 1 || n == at + 2);
        }
    }
    assert(at == n);
    assert(file.take(n) =~= name);
}

/// A file whose name does not hold `_2k` keeps its stem: all of its name up to the last dot, and the
/// whole name where there is no dot.
pub proof fn law_a_set_is_else_named_by_the_stem(stem: Seq<char>, extension: Seq<char>)
    requires
        !extension.contains('.'),
    ensures
        !holds(stem + "."@ + extension, "_2k"@) ==> set_name_of(stem + "."@ + extension) == stem,
        !holds(extension, "_2k"@) ==> set_name_of(extension) == extension,
{
    reveal_strlit(".");
    let file = stem + "."@ + extension;
    lemma_no_size_mark(file);
    lemma_no_size_mark(extension);
    lemma_last_dot_before(stem, extension);
    lemma_last_dot_in_none(extension);
    assert(file =~= stem + seq!['.'] + extension);
    assert(file.take(stem.len() as int) =~= stem);
}

proof fn lemma_no_size_mark(file: Seq<char>)
    ensures
        !holds(file, "_2k"@) ==> size_mark(file, 0) is None,
{
    reveal_strlit("_2k");
    lemma_size_mark_is_first(file, 0);
    if let Some(at) = size_mark(file, 0) {
        assert(file.subrange(at, at + "_2k"@.len()) == "_2k"@);
    }
}

proof fn lemma_last_dot_in_none(text: Seq<char>)
    requires
        !text.contains('.'),
    ensures
        last_dot(text) is None,
    decreases text.len(),
{
    if text.len() > 0 {
        let before = text.drop_last();
        assert(text[text.len() - 1] == text.last());
        assert(text.contains(text.last()));
        assert(!before.contains('.')) by {
            if before.contains('.') {
                let i = choose|i: int| 0 <= i < before.len() && before[i] == '.';
                assert(text[i] == '.');
            }
        }
        lemma_last_dot_in_none(before);
    }
}

proof fn lemma_last_dot_before(stem: Seq<char>, rest: Seq<char>)
    requires
        !rest.contains('.'),
    ensures
        last_dot(stem + seq!['.'] + rest) == Some(stem.len() as int),
    decreases rest.len(),
{
    let file = stem + seq!['.'] + rest;
    if rest.len() > 0 {
        let before = rest.drop_last();
        assert(rest[rest.len() - 1] == rest.last());
        assert(rest.contains(rest.last()));
        assert(!before.contains('.')) by {
            if before.contains('.') {
                let i = choose|i: int| 0 <= i < before.len() && before[i] == '.';
                assert(rest[i] == '.');
            }
        }
        assert(file.drop_last() =~= stem + seq!['.'] + before);
        lemma_last_dot_before(stem, before);
    }
}

proof fn lemma_last_component_of(above: Seq<char>, file: Seq<char>)
    requires
        above.len() == 0 || above.last() == '/',
        !file.contains('/'),
    ensures
        last_component(above + file) == above.len(),
    decreases file.len(),
{
    let path = above + file;
    if file.len() == 0 {
        assert(path =~= above);
    } else {
        let before = file.drop_last();
        assert(file.contains(file[file.len() - 1]));
        assert(path.drop_last() =~= above + before);
        assert(!before.contains('/')) by {
            if before.contains('/') {
                let i = choose|i: int| 0 <= i < before.len() && before[i] == '/';
                assert(file[i] == '/');
            }
        }
        lemma_last_component_of(above, before);
    }
}

/// The directories above a file, and slashes behind it, are no part of its name.
pub proof fn law_a_path_leads_to_its_file(above: Seq<char>, file: Seq<char>)
    requires
        above.len() == 0 || above.last() == '/',
        file.len() > 0,
        !file.contains('/'),
        file != "."@,
        file != ".."@,
    ensures
        base_name(above + file) == Some(file),
        base_name(above + file + "/"@) == Some(file),
{
    reveal_strlit(".");
    reveal_strlit("..");
    reveal_strlit("/");
    let path = above + file;
    lemma_last_component_of(above, file);
    assert(path.skip(above.len() as int) =~= file);
    assert(file.contains(file[file.len() - 1]));
    assert(path.last() == file[file.len() - 1]);
    assert(seq!['.', '.'] =~= ".."@);
    if file.len() == 1 {
        assert(file[0] == '.' ==> file =~= "."@);
    }
    let longer = path + "/"@;
    assert(longer.drop_last() =~= path);
}

/// A set that comes from a file by its path is called after the file, whatever the directories: up to
/// the first `_2k` in the file's name, and where there is none up to the last dot.
pub proof fn law_a_path_names_its_set(
    source: Source,
    set: Seq<char>,
    above: Seq<char>,
    name: Seq<char>,
    rest: Seq<char>,
)
    requires
        source matches Source::Local(path) && is_plain_path(path@) && (path@ == above + (name
            + "_2k"@ + rest) || path@ == above + (name + "."@ + rest)),
        source.is_default_set_name(set),
        above.len() == 0 || above.last() == '/',
        !name.contains('/'),
        !rest.contains('/'),
        name.len() > 0,
        name != "."@,
    ensures
        source->Local_0@ == above + (name + "_2k"@ + rest) && !holds(name, "_2k"@) ==> set == name,
        source->Local_0@ == above + (name + "."@ + rest) && !holds(name + "."@ + rest, "_2k"@)
            && !rest.contains('.') ==> set == name,
{
    reveal_strlit("_2k");
    reveal_strlit(".");
    reveal_strlit("..");
    let path = source->Local_0@;
    let marked = name + "_2k"@ + rest;
    let plain = name + "."@ + rest;
    assert(!marked.contains('/')) by {
        if marked.contains('/') {
            let i = choose|i: int| 0 <= i < marked.len() && marked[i] == '/';
            if i < name.len() {
                assert(name[i] == '/');
            } else if i >= name.len() + 3 {
                assert(rest[i - name.len() - 3] == '/');
            }
        }
    }
    assert(!plain.contains('/')) by {
        if plain.contains('/') {
            let i = choose|i: int| 0 <= i < plain.len() && plain[i] == '/';
            if i < name.len() {
                assert(name[i] == '/');
            } else if i >= name.len() + 1 {
                assert(rest[i - name.len() - 1] == '/');
            }
        }
    }
    if plain == ".."@ {
        assert(plain.len() == name.len() + 1 + rest.len());
        assert(plain.len() == 2);
        assert(name[0] == plain[0]);
        assert(name =~= "."@);
    }
    if path == above + marked && !holds(name, "_2k"@) {
        law_a_path_leads_to_its_file(above, marked);
        law_a_set_is_named_up_to_the_size_mark(name, rest);
    }
    if path == above + plain && !holds(plain, "_2k"@) && !rest.contains('.') {
        law_a_path_leads_to_its_file(above, plain);
        law_a_set_is_else_named_by_the_stem(name, rest);
    }
}

/// The address of a log type's templates leads to a file that gives the log type's name: a set is
/// called the same whether its templates are fetched or were downloaded before.
pub proof fn law_an_address_names_its_log_type(name: Seq<char>)
    requires
        !name.contains('/'),
        !holds(name, "_2k"@),
    ensures
        base_name(url_of(name)) == Some(name + "_2k"@ + ".log_templates.csv"@),
        set_name_of(name + "_2k"@ + ".log_templates.csv"@) == name,
        url_of(name) == "https://raw.githubusercontent.com/logpai/loghub/master/"@ + name + "/"@ + (
        name + "_2k"@ + ".log_templates.csv"@),
{
    reveal_strlit("/");
    reveal_strlit("_2k");
    reveal_strlit(".log_templates.csv");
    reveal_strlit("_2k.log_templates.csv");
    reveal_strlit(".");
    reveal_strlit("..");
    let file = name + "_2k"@ + ".log_templates.csv"@;
    let above = "https://raw.githubusercontent.com/logpai/loghub/master/"@ + name + "/"@;
    assert("_2k.log_templates.csv"@ =~= "_2k"@ + ".log_templates.csv"@);
    assert(url_of(name) =~= above + file);
    assert(!file.contains('/')) by {
        if file.contains('/') {
            let i = choose|i: int| 0 <= i < file.len() && file[i] == '/';
            if i < name.len() {
                assert(name[i] == '/');
            } else if i < name.len() + 3 {
                assert(file[i] == "_2k"@[i - name.len()]);
            } else {
                assert(file[i] == ".log_templates.csv"@[i - name.len() - 3]);
            }
        }
    }
    law_a_path_leads_to_its_file(above, file);
    law_a_set_is_named_up_to_the_size_mark(name, ".log_templates.csv"@);
}

/// The log types are these sixteen.
pub proof fn law_the_log_types()
    ensures
        dataset_names() == seq![
            "Android"@,
            "Apache"@,
            "BGL"@,
            "HDFS"@,
            "HPC"@,
            "Hadoop"@,
            "HealthApp"@,
            "Linux"@,
            "Mac"@,
            "OpenSSH"@,
            "OpenStack"@,
            "Proxifier"@,
            "Spark"@,
            "Thunderbird"@,
            "Windows"@,
            "Zookeeper"@,
        ],
{
    assert(dataset_names() =~= seq![
            "Android"@,
            "Apache"@,
            "BGL"@,
            "HDFS"@,
            "HPC"@,
            "Hadoop"@,
            "HealthApp"@,
            "Linux"@,
            "Mac"@,
            "OpenSSH"@,
            "OpenStack"@,
            "Proxifier"@,
            "Spark"@,
            "Thunderbird"@,
            "Windows"@,
            "Zookeeper"@,
    ]);
}

/// The twenty-six ASCII capitals are each taken for their small letter, and every other character for
/// itself.
pub proof fn law_only_ascii_letters_lose_their_case(c: char)
    ensures
        65 <= c as u32 <= 90 ==> lower(c) as u32 == c as u32 + 32,
        !(65 <= c as u32 <= 90) ==> lower(c) == c,
{
}

/// Two texts are the same but for case if and only if they have the same length and each character
/// is the other's, or an ASCII letter of which the other is the other case.
pub proof fn law_same_but_for_case(a: Seq<char>, b: Seq<char>)
    ensures
        same_letters(a, b) <==> a.len() == b.len() && forall|i: int|
            0 <= i < a.len() ==> {
                let (x, y) = ((#[trigger] a[i]) as u32, b[i] as u32);
                ||| x == y
                ||| 65 <= x <= 90 && y == x + 32
                ||| 65 <= y <= 90 && x == y + 32
            },
{
    if a.len() == b.len() {
        assert forall|i: int| 0 <= i < a.len() implies (lower(#[trigger] a[i]) == lower(b[i]) <==> {
            let (x, y) = (a[i] as u32, b[i] as u32);
            ||| x == y
            ||| 65 <= x <= 90 && y == x + 32
            ||| 65 <= y <= 90 && x == y + 32
        }) by {
            lemma_same_letter(a[i], b[i]);
        }
    }
}

proof fn lemma_same_letter(a: char, b: char)
    ensures
        lower(a) == lower(b) <==> {
            let (x, y) = (a as u32, b as u32);
            ||| x == y
            ||| 65 <= x <= 90 && y == x + 32
            ||| 65 <= y <= 90 && x == y + 32
        },
{
    law_only_ascii_letters_lose_their_case(a);
    law_only_ascii_letters_lose_their_case(b);
}

/// Any text with a slash or a backslash in it looks like a path, and so does any that ends in `.csv`
/// in whatever case; no other text does.
pub proof fn law_what_looks_like_a_path(text: Seq<char>, end: Seq<char>)
    requires
        same_letters(end, ".csv"@),
    ensures
        path_shaped(text + end),
        path_shaped(text) <==> {
            ||| exists|i: int| 0 <= i < text.len() && (#[trigger] text[i] == '/' || text[i] == '\\')
            ||| text.len() >= 4 && same_letters(text.skip(text.len() - 4), ".csv"@)
        },
{
    reveal_strlit(".csv");
    assert(".csv"@ =~= seq!['.', 'c', 's', 'v']);
    let all = text + end;
    assert(all.skip(all.len() - 4) =~= end);
    if exists|i: int| 0 <= i < text.len() && (#[trigger] text[i] == '/' || text[i] == '\\') {
        let i = choose|i: int|
            0 <= i < text.len() && (#[trigger] text[i] == '/' || text[i] == '\\');
        assert(text.contains(text[i]));
    }
    if text.contains('/') {
        let i = choose|i: int| 0 <= i < text.len() && text[i] == '/';
        assert(text[i] == '/');
    }
    if text.contains('\\') {
        let i = choose|i: int| 0 <= i < text.len() && text[i] == '\\';
        assert(text[i] == '\\');
    }
}

/// An argument names a log type if and only if it is the log type's name but for case; and it names
/// no two.
pub proof fn law_an_argument_names_one_log_type(argument: Seq<char>, i: int, j: int)
    ensures
        names_dataset(argument, i) <==> 0 <= i < 16 && same_letters(DATASETS@[i]@, argument),
        names_dataset(argument, i) && names_dataset(argument, j) ==> i == j,
{
    if 0 <= i < 16 && same_letters(DATASETS@[i]@, argument) {
        law_every_log_type_can_be_named(argument, i);
    }
}

/// A set from a log type is called as the log type is, and comes from the log type's address on
/// GitHub; templates from a file come from its path.
pub proof fn law_where_a_set_comes_from(source: Source, set: Seq<char>)
    requires
        source.is_default_set_name(set),
    ensures
        source matches Source::Dataset(name) ==> set == name@ && source.origin()
            == "https://raw.githubusercontent.com/logpai/loghub/master/"@ + name@ + "/"@ + name@
            + "_2k.log_templates.csv"@,
        source matches Source::Local(path) ==> {
            &&& source.origin() == path@
            &&& !holds(set, "_2k"@)
            &&& is_plain_path(path@) && base_name(path@) is None ==> set.len() == 0
            &&& is_plain_path(path@) && base_name(path@) is Some ==> set == set_name_of(
                base_name(path@)->Some_0,
            )
            &&& exists|i: int, j: int|
                0 <= i <= j <= path@.len() && set == set_name_of(#[trigger] path@.subrange(i, j))
        },
{
    if let Source::Local(path) = source {
        let file = choose|file: Seq<char>| #[trigger]
            is_component(path@, file) && set == set_name_of(file);
        let (i, j) = choose|i: int, j: int|
            0 <= i <= j <= path@.len() && file == #[trigger] path@.subrange(i, j);
        assert(set == set_name_of(path@.subrange(i, j)));
        lemma_last_dot_is_inside(Seq::<char>::empty());
        lemma_size_mark_is_inside(Seq::<char>::empty(), 0);
        reveal_strlit("_2k");
        lemma_size_mark_is_first(set, 0);
        if holds(set, "_2k"@) {
            let i = choose|i: int|
                0 <= i <= set.len() - "_2k"@.len() && #[trigger] set.subrange(i, i + "_2k"@.len())
                    == "_2k"@;
            assert(set.subrange(i, i + 3) == "_2k"@);
        }
    }
}

} // verus!
