use moss_fmt::extraction::{
    output_file_name, process_archive, process_member, supported_compression_method,
    CompressionMethod, MemberAction, MemberEntry,
};
use moss_fmt::member_path::MemberPath;
use moss_fmt::path_verifier::PathVerifier;

fn entry(path: &str, method: CompressionMethod) -> MemberEntry {
    MemberEntry { path: MemberPath::parse(path), method }
}

#[test]
fn output_name_is_identifier_dash_base_name() {
    assert_eq!(output_file_name("hw1", "foo.py"), "hw1-foo.py");
    assert_eq!(output_file_name("", "x"), "-x");
}

#[test]
fn supported_methods_are_the_four_known_ones() {
    assert!(supported_compression_method(&CompressionMethod::Stored));
    assert!(supported_compression_method(&CompressionMethod::Deflated));
    assert!(supported_compression_method(&CompressionMethod::Deflate64));
    assert!(supported_compression_method(&CompressionMethod::Bzip2));
    assert!(!supported_compression_method(&CompressionMethod::Other));
}

#[test]
fn admitted_member_is_extracted_under_derived_name() {
    let mut verifier = PathVerifier::default().add_search_file("foo.py");
    let zip_name = String::from("hw1");
    let a = process_member(&mut verifier, &zip_name, &entry("src/foo.py", CompressionMethod::Deflated));
    assert_eq!(a, MemberAction::Extract(String::from("hw1-foo.py")));
}

#[test]
fn unsupported_method_keeps_target_eligible() {
    let mut verifier = PathVerifier::default().add_search_file("x.txt");
    let zip_name = String::from("a");
    let first = process_member(&mut verifier, &zip_name, &entry("x.txt", CompressionMethod::Other));
    assert_eq!(first, MemberAction::Unsupported);
    // the flag was not consumed: a later supported occurrence still matches
    let second = process_member(&mut verifier, &zip_name, &entry("src/x.txt", CompressionMethod::Stored));
    assert_eq!(second, MemberAction::Extract(String::from("a-x.txt")));
}

#[test]
fn unadmitted_member_is_skipped_not_reported_unsupported() {
    let mut verifier = PathVerifier::default().add_search_file("x.txt");
    let zip_name = String::from("a");
    let a = process_member(&mut verifier, &zip_name, &entry("y.txt", CompressionMethod::Other));
    assert_eq!(a, MemberAction::Skip);
}

#[test]
fn excluded_entry_then_clean_entry_yields_one_extraction() {
    // archive a.zip holds __MACOSX/x.txt and then x.txt; only the second is taken
    let mut verifier = PathVerifier::default().add_search_file("x.txt");
    let members = vec![
        entry("__MACOSX/x.txt", CompressionMethod::Stored),
        entry("x.txt", CompressionMethod::Stored),
    ];
    let (actions, report) = process_archive(&mut verifier, &String::from("a"), &members);
    assert_eq!(
        actions,
        vec![MemberAction::Skip, MemberAction::Extract(String::from("a-x.txt"))]
    );
    assert_eq!(report, Vec::<String>::new());
}

#[test]
fn match_state_is_reset_between_archives() {
    // archives a.zip and b.zip both hold x.txt; each yields its own file
    let mut verifier = PathVerifier::default().add_search_file("x.txt");
    let members_a = vec![entry("x.txt", CompressionMethod::Stored)];
    let members_b = vec![entry("x.txt", CompressionMethod::Deflated)];
    let (actions_a, _) = process_archive(&mut verifier, &String::from("a"), &members_a);
    let (actions_b, _) = process_archive(&mut verifier, &String::from("b"), &members_b);
    assert_eq!(actions_a, vec![MemberAction::Extract(String::from("a-x.txt"))]);
    assert_eq!(actions_b, vec![MemberAction::Extract(String::from("b-x.txt"))]);
}

#[test]
fn duplicate_base_name_in_one_archive_is_taken_once() {
    let mut verifier = PathVerifier::default().add_search_file("x.txt");
    let members = vec![
        entry("first/x.txt", CompressionMethod::Stored),
        entry("second/x.txt", CompressionMethod::Stored),
    ];
    let (actions, report) = process_archive(&mut verifier, &String::from("a"), &members);
    assert_eq!(
        actions,
        vec![MemberAction::Extract(String::from("a-x.txt")), MemberAction::Skip]
    );
    assert_eq!(report, Vec::<String>::new());
}

#[test]
fn missing_target_is_reported_per_archive() {
    let mut verifier = PathVerifier::default().add_search_file("x.txt");
    let members = vec![entry("y.txt", CompressionMethod::Stored)];
    let (actions, report) = process_archive(&mut verifier, &String::from("hw3"), &members);
    assert_eq!(actions, vec![MemberAction::Skip]);
    assert_eq!(report, vec![String::from("x.txt was not found in hw3")]);
}
