use b64url::dispatch::{resolve_source, Source};

#[test]
fn omitted_argument_resolves_to_standard_input() {
    assert_eq!(resolve_source(None), Source::StandardInput);
}

#[test]
fn dash_resolves_to_standard_input() {
    assert_eq!(resolve_source(Some("-".to_string())), Source::StandardInput);
}

#[test]
fn a_path_resolves_to_a_named_file() {
    assert_eq!(
        resolve_source(Some("input.txt".to_string())),
        Source::NamedFile("input.txt".to_string())
    );
    // A path that merely starts with the sentinel is still a path.
    assert_eq!(
        resolve_source(Some("--".to_string())),
        Source::NamedFile("--".to_string())
    );
    // The empty string is a path, not the sentinel.
    assert_eq!(
        resolve_source(Some(String::new())),
        Source::NamedFile(String::new())
    );
}
