use moss_fmt::member_path::MemberPath;
use moss_fmt::path_verifier::PathVerifier;

#[test]
fn path_verifier_denies_when_file_in_restricted() {
    let file_path = MemberPath::parse("__MACOSX/index.js");
    let mut verifier = PathVerifier::default().add_search_file("index.js");
    assert!(!verifier.verify(&file_path));
}

#[test]
fn path_verifier_accepts_file_nested() {
    let file_path = MemberPath::parse("foo/bar/index.js");
    let mut verifier = PathVerifier::default().add_search_file("index.js");
    assert!(verifier.verify(&file_path));
}

#[test]
fn path_verifier_accepts_file_bare() {
    let file_path = MemberPath::parse("index.js");
    let mut verifier = PathVerifier::default().add_search_file("index.js");
    assert!(verifier.verify(&file_path));
}

#[test]
fn path_verifier_denies_folder_named_search() {
    let file_path = MemberPath::parse("foo/bar/index.js/incorrect.js");
    let mut verifier = PathVerifier::default().add_search_file("index.js");
    assert!(!verifier.verify(&file_path));
}

#[test]
fn path_verifier_denies_file_nested() {
    let file_path = MemberPath::parse("foo/bar/baz.js");
    let mut verifier = PathVerifier::default().add_search_file("index.js");
    assert!(!verifier.verify(&file_path));
}

#[test]
fn path_verifier_denies_file_bare() {
    let file_path = MemberPath::parse("baz.js");
    let mut verifier = PathVerifier::default().add_search_file("index.js");
    assert!(!verifier.verify(&file_path));
}

#[test]
fn restricted_folder_vetoes_at_any_depth() {
    let mut verifier = PathVerifier::default().add_search_file("index.js");
    assert!(!verifier.verify(&MemberPath::parse("foo/__MACOSX/index.js")));
    assert!(!verifier.verify(&MemberPath::parse("a/b/node_modules/c/index.js")));
}

#[test]
fn excluded_occurrence_keeps_target_eligible() {
    // a rejected, excluded occurrence does not consume the match flag
    let mut verifier = PathVerifier::default().add_search_file("x.txt");
    assert!(!verifier.verify(&MemberPath::parse("__MACOSX/x.txt")));
    assert!(verifier.verify(&MemberPath::parse("x.txt")));
}

#[test]
fn first_match_wins_until_reset() {
    let mut verifier = PathVerifier::default().add_search_file("index.js");
    assert!(verifier.verify(&MemberPath::parse("a/index.js")));
    assert!(!verifier.verify(&MemberPath::parse("b/index.js")));
    assert!(!verifier.verify(&MemberPath::parse("index.js")));
    verifier.reset();
    assert!(verifier.verify(&MemberPath::parse("b/index.js")));
}

#[test]
fn added_restricted_folder_is_respected() {
    let mut verifier = PathVerifier::default()
        .add_search_file("index.js")
        .add_restricted_folder("target");
    assert!(!verifier.verify(&MemberPath::parse("target/index.js")));
    assert!(verifier.verify(&MemberPath::parse("src/index.js")));
}

#[test]
fn re_adding_a_target_clears_its_flag() {
    let mut verifier = PathVerifier::default().add_search_file("index.js");
    assert!(verifier.verify(&MemberPath::parse("index.js")));
    let mut verifier = verifier.add_search_file("index.js");
    assert!(verifier.verify(&MemberPath::parse("index.js")));
}

#[test]
fn print_progress_names_only_unmatched_targets() {
    let mut verifier = PathVerifier::default()
        .add_search_file("index.js")
        .add_search_file("main.py");
    assert!(verifier.verify(&MemberPath::parse("src/index.js")));
    let lines = verifier.print_progress(&String::from("hw1"));
    assert_eq!(lines, vec![String::from("main.py was not found in hw1")]);
}

#[test]
fn print_progress_after_reset_names_every_target() {
    let mut verifier = PathVerifier::default().add_search_file("main.py");
    assert!(verifier.verify(&MemberPath::parse("main.py")));
    verifier.reset();
    let lines = verifier.print_progress(&String::from("hw2"));
    assert_eq!(lines, vec![String::from("main.py was not found in hw2")]);
}

#[test]
fn member_path_components() {
    let p = MemberPath::parse("foo/bar/baz.js");
    assert_eq!(p.len(), 3);
    assert_eq!(p.component(0).as_str(), "foo");
    assert_eq!(p.component(1).as_str(), "bar");
    assert_eq!(p.base_name().as_str(), "baz.js");
}

#[test]
fn member_path_empty_components_are_kept() {
    let p = MemberPath::parse("a//b");
    assert_eq!(p.len(), 3);
    assert_eq!(p.component(1).as_str(), "");
    let bare = MemberPath::parse("");
    assert_eq!(bare.len(), 1);
    assert_eq!(bare.base_name().as_str(), "");
}
