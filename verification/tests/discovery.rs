use moss_fmt::discovery::{collect_archive_candidates, path_is_zip, strip_zip_suffix};
use moss_fmt::lex::str_le;

#[test]
fn zip_names_are_recognized_by_extension() {
    assert!(path_is_zip("a.zip"));
    assert!(path_is_zip(".zip"));
    assert!(path_is_zip("hw1.tar.zip"));
    assert!(!path_is_zip("a.tar"));
    assert!(!path_is_zip("zip"));
    assert!(!path_is_zip("a.zip.bak"));
}

#[test]
fn identifier_is_the_name_without_its_zip_extension() {
    assert_eq!(strip_zip_suffix("hw1.zip"), "hw1");
    assert_eq!(strip_zip_suffix("a.zip.zip"), "a.zip");
    assert_eq!(strip_zip_suffix(".zip"), "");
    assert_eq!(strip_zip_suffix("notes.txt"), "notes.txt");
}

#[test]
fn candidates_come_sorted_by_identifier() {
    let names = vec![
        String::from("b.zip"),
        String::from("readme.txt"),
        String::from("a.zip"),
        String::from("c.zip"),
    ];
    let r = collect_archive_candidates(&names);
    let ids: Vec<&str> = r.iter().map(|c| c.identifier.as_str()).collect();
    let files: Vec<&str> = r.iter().map(|c| c.file_name.as_str()).collect();
    assert_eq!(ids, vec!["a", "b", "c"]);
    assert_eq!(files, vec!["a.zip", "b.zip", "c.zip"]);
}

#[test]
fn identifier_order_ignores_file_name_order() {
    // "a.zip" sorts before "a-b.zip" by identifier ("a" < "a-b"), although
    // the file names order the other way around ('-' < '.')
    let names = vec![String::from("a.zip"), String::from("a-b.zip")];
    let r = collect_archive_candidates(&names);
    assert_eq!(r.len(), 2);
    assert_eq!(r[0].identifier.as_str(), "a");
    assert_eq!(r[0].file_name.as_str(), "a.zip");
    assert_eq!(r[1].identifier.as_str(), "a-b");
    assert_eq!(r[1].file_name.as_str(), "a-b.zip");
}

#[test]
fn nested_extension_keeps_identifiers_distinct() {
    let names = vec![String::from("a.zip.zip"), String::from("a.zip")];
    let r = collect_archive_candidates(&names);
    assert_eq!(r.len(), 2);
    assert_eq!(r[0].identifier.as_str(), "a");
    assert_eq!(r[0].file_name.as_str(), "a.zip");
    assert_eq!(r[1].identifier.as_str(), "a.zip");
    assert_eq!(r[1].file_name.as_str(), "a.zip.zip");
}

#[test]
fn lexicographic_comparison_on_strings() {
    assert!(str_le("a", "b"));
    assert!(!str_le("b", "a"));
    assert!(str_le("abc", "abc"));
    assert!(str_le("ab", "abc"));
    assert!(!str_le("abc", "ab"));
    assert!(str_le("", "a"));
    assert!(str_le("A", "a"));
}
