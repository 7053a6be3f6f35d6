use loghub2recon::source::Source;

/// A log type may be named in small letters.
#[test]
fn a_dataset_name_resolves_without_regard_to_case() {
    let source = Source::resolve("openssh", false).expect("a dataset");
    assert!(matches!(source, Source::Dataset("OpenSSH")));
    assert_eq!(source.default_set_name(), "OpenSSH");
    assert!(source.describe().ends_with("OpenSSH_2k.log_templates.csv"));
}

/// A path is refused as a path, and a name with the names that are known.
#[test]
fn a_missing_path_is_refused_as_a_path() {
    let message = Source::resolve("./no/such/file.csv", false)
        .expect_err("missing")
        .message();
    assert!(message.contains("no such file"), "{message}");

    let message = Source::resolve("Macintosh", false)
        .expect_err("unknown")
        .message();
    assert!(
        message.contains("neither a file nor a loghub log type"),
        "{message}"
    );
    assert!(message.contains("OpenSSH"), "lists the types: {message}");
}

/// What the name of a file leaves of the set's name.
#[test]
fn a_file_name_gives_up_its_set_name() {
    let name = |file: &str| Source::Local(file.to_string()).default_set_name();
    assert_eq!(name("Mac_2k.log_templates.csv"), "Mac");
    assert_eq!(name("/tmp/Mac_2k.log_templates_corrected.csv"), "Mac");
    assert_eq!(name("wifi.csv"), "wifi");
    assert_eq!(name("plain"), "plain");
}
