use keyword_search::occurrence::Occurrence;
use keyword_search::tree::{Directory, File, FsEntry};
use keyword_search::tree::get_occurrences_in_file_contents;
use keyword_search::matching::name_contains;
use keyword_search::scan::scan_contents;
use keyword_search::DirectoryParser;

fn file(name: &str, path: &str, contents: Option<&str>) -> File {
    File {
        name: name.to_string(),
        path: path.to_string(),
        contents: contents.map(|c| c.to_string()),
    }
}

fn dir(name: &str, path: &str, entries: Vec<FsEntry>) -> Directory {
    Directory { name: name.to_string(), path: path.to_string(), entries }
}

fn content_lines(occurrences: &[Occurrence]) -> Vec<(String, usize)> {
    occurrences
        .iter()
        .map(|o| match o {
            Occurrence::FileContent { path, line_number, .. } => (path.clone(), *line_number),
            Occurrence::FileName { .. } => panic!("expected a content occurrence"),
        })
        .collect()
}

#[test]
fn overlapping_matches_are_all_reported() {
    let r = scan_contents("aaaa", "aa", "p");
    assert_eq!(r.len(), 3);
    for o in &r {
        match o {
            Occurrence::FileContent { matching_text, path, line_number } => {
                assert_eq!(matching_text, "aa");
                assert_eq!(path, "p");
                assert_eq!(*line_number, 0);
            }
            Occurrence::FileName { .. } => panic!("expected a content occurrence"),
        }
    }
}

#[test]
fn occurrence_count_equals_match_positions() {
    // "foofoo" holds "foo" at positions 0 and 3: exactly 2, not 3.
    assert_eq!(scan_contents("foofoo", "foo", "p").len(), 2);
    // "aaa" holds "aa" at positions 0 and 1.
    assert_eq!(scan_contents("aaa", "aa", "p").len(), 2);
    // no occurrence at all
    assert_eq!(scan_contents("bar", "foo", "p").len(), 0);
}

#[test]
fn line_numbers_are_zero_based_newline_counts() {
    // chars: a \n b \n a b — "ab" matches at position 4, after 2 newlines.
    let r = scan_contents("a\nb\nab", "ab", "p");
    assert_eq!(content_lines(&r), vec![("p".to_string(), 2)]);

    let r = scan_contents("foo\nbarfoo\n", "foo", "a.txt");
    assert_eq!(
        content_lines(&r),
        vec![("a.txt".to_string(), 0), ("a.txt".to_string(), 1)]
    );
}

#[test]
fn keyword_starting_with_newline_counts_lines_strictly_before() {
    // "\ny" matches at position 1; no newline lies strictly before it.
    let r = scan_contents("x\ny", "\ny", "p");
    assert_eq!(content_lines(&r), vec![("p".to_string(), 0)]);
}

#[test]
fn empty_keyword_yields_no_content_occurrences() {
    // Known quirk: a position only matches when its character equals the
    // keyword's first character, and an empty keyword has none.
    assert_eq!(scan_contents("abc", "", "p").len(), 0);
    assert_eq!(scan_contents("", "", "p").len(), 0);
}

#[test]
fn empty_keyword_is_contained_in_every_name() {
    assert!(name_contains("anything", ""));
    assert!(name_contains("", ""));
    let f = file("a.txt", "root/a.txt", None);
    let r = f.walk(false, true, false, "");
    assert_eq!(r.len(), 1);
    match &r[0] {
        Occurrence::FileName { matching_text, path } => {
            assert_eq!(matching_text, "");
            assert_eq!(path, "root/a.txt");
        }
        Occurrence::FileContent { .. } => panic!("expected a name occurrence"),
    }
}

#[test]
fn name_containment_is_substring_containment() {
    assert!(name_contains("keyword_test.txt", "keyword"));
    assert!(name_contains("xkeyx", "key"));
    assert!(!name_contains("kye", "key"));
    assert!(!name_contains("ke", "key"));
    assert!(name_contains("héllo", "él"));
    assert!(!name_contains("hello", "él"));
}

#[test]
fn multibyte_characters_match_per_character() {
    let r = scan_contents("héllo\nwérld", "é", "p");
    assert_eq!(content_lines(&r), vec![("p".to_string(), 0), ("p".to_string(), 1)]);
}

#[test]
fn recursion_off_skips_subdirectories() {
    let sub = dir(
        "keysub",
        "root/keysub",
        vec![FsEntry::File(file("key.txt", "root/keysub/key.txt", None))],
    );
    let root = dir("root", "root", vec![FsEntry::Dir(sub)]);
    // With recursion off, the subdirectory's matching name is not reported.
    let r = root.walk(false, true, false, "key");
    assert_eq!(r.len(), 0);
    // With recursion on, both the subdirectory's and the file's names are.
    let r = root.walk(true, true, false, "key");
    assert_eq!(r.len(), 2);
    match &r[0] {
        Occurrence::FileName { path, .. } => assert_eq!(path, "root/keysub"),
        Occurrence::FileContent { .. } => panic!("expected a name occurrence"),
    }
    match &r[1] {
        Occurrence::FileName { path, .. } => assert_eq!(path, "root/keysub/key.txt"),
        Occurrence::FileContent { .. } => panic!("expected a name occurrence"),
    }
}

#[test]
fn matching_file_name_yields_exactly_one_name_occurrence() {
    let f = file("keyword_test.txt", "root/keyword_test.txt", Some("nothing here"));
    // Regardless of the contents flag, exactly one name occurrence.
    for include_file_contents in [false, true] {
        let r = f.walk(false, true, include_file_contents, "keyword");
        assert_eq!(r.len(), 1);
        match &r[0] {
            Occurrence::FileName { matching_text, path } => {
                assert_eq!(matching_text, "keyword");
                assert_eq!(path, "root/keyword_test.txt");
            }
            Occurrence::FileContent { .. } => panic!("expected a name occurrence"),
        }
    }
}

#[test]
fn file_name_occurrence_precedes_content_occurrences() {
    let f = file("key.txt", "root/key.txt", Some("key\nkey"));
    let r = f.walk(false, true, true, "key");
    assert_eq!(r.len(), 3);
    assert!(matches!(&r[0], Occurrence::FileName { .. }));
    assert_eq!(content_lines(&r[1..]), vec![
        ("root/key.txt".to_string(), 0),
        ("root/key.txt".to_string(), 1),
    ]);
}

#[test]
fn end_to_end_recursive_content_search() {
    let a = file("a.txt", "root/a.txt", Some("foo\nbarfoo\n"));
    let b = file("b.txt", "root/sub/b.txt", Some("foofoo"));
    let sub = dir("sub", "root/sub", vec![FsEntry::File(b)]);
    let root = dir("root", "root", vec![FsEntry::File(a), FsEntry::Dir(sub)]);
    let r = root.walk(true, false, true, "foo");
    assert_eq!(
        content_lines(&r),
        vec![
            ("root/a.txt".to_string(), 0),
            ("root/a.txt".to_string(), 1),
            ("root/sub/b.txt".to_string(), 0),
            ("root/sub/b.txt".to_string(), 0),
        ]
    );
}

#[test]
fn undecodable_file_contributes_nothing_and_does_not_abort() {
    let binary = file("blob.bin", "root/blob.bin", None);
    let text = file("a.txt", "root/a.txt", Some("foo"));
    let root = dir("root", "root", vec![FsEntry::File(binary), FsEntry::File(text)]);
    let r = root.walk(false, false, true, "foo");
    assert_eq!(content_lines(&r), vec![("root/a.txt".to_string(), 0)]);
}

#[test]
fn unreadable_contents_yield_no_occurrences() {
    let f = file("blob.bin", "root/blob.bin", None);
    assert_eq!(get_occurrences_in_file_contents(&f, "foo").len(), 0);
    assert_eq!(f.walk(false, false, true, "foo").len(), 0);
}

#[test]
fn unreadable_entries_surface_warnings_without_corrupting_results() {
    let text = file("a.txt", "root/a.txt", Some("foo"));
    let root = dir(
        "root",
        "root",
        vec![FsEntry::Unreadable, FsEntry::File(text), FsEntry::Unreadable],
    );
    let r = root.walk(false, false, true, "foo");
    assert_eq!(content_lines(&r), vec![("root/a.txt".to_string(), 0)]);
    let w = root.walk_warnings(false);
    assert_eq!(w, vec!["root".to_string(), "root".to_string()]);
}

#[test]
fn warnings_follow_recursion() {
    let sub = dir("sub", "root/sub", vec![FsEntry::Unreadable]);
    let root = dir("root", "root", vec![FsEntry::Dir(sub)]);
    assert_eq!(root.walk_warnings(true), vec!["root/sub".to_string()]);
    // A subdirectory that is not walked surfaces no warnings.
    assert_eq!(root.walk_warnings(false), Vec::<String>::new());
}

#[test]
fn directory_name_match_precedes_descendants() {
    let inner = file("key_inner.txt", "keydir/key_inner.txt", None);
    let root = dir("keydir", "keydir", vec![FsEntry::File(inner)]);
    let r = root.walk(true, true, false, "key");
    assert_eq!(r.len(), 2);
    match &r[0] {
        Occurrence::FileName { path, .. } => assert_eq!(path, "keydir"),
        Occurrence::FileContent { .. } => panic!("expected a name occurrence"),
    }
    match &r[1] {
        Occurrence::FileName { path, .. } => assert_eq!(path, "keydir/key_inner.txt"),
        Occurrence::FileContent { .. } => panic!("expected a name occurrence"),
    }
}

#[test]
fn empty_directory_yields_only_its_optional_name_match() {
    let root = dir("keyroot", "keyroot", vec![]);
    assert_eq!(root.walk(true, true, true, "key").len(), 1);
    assert_eq!(root.walk(true, false, true, "key").len(), 0);
}

#[test]
fn directory_parser_constructs() {
    let _parser = DirectoryParser::new();
}
