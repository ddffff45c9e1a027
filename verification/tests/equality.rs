use v_fixtures::{assert_fixture_eq, Fixture, FixtureFile, Mismatch};

fn file(path: &str, text: &str) -> FixtureFile {
    FixtureFile { path: path.to_owned(), text: text.to_owned() }
}

#[test]
fn equal_fixtures_agree() {
    let a = Fixture { files: vec![file("/a", "1"), file("/b", "2")] };
    let b = Fixture { files: vec![file("/b", "2"), file("/a", "1")] };
    assert_eq!(assert_fixture_eq(&a, &a), Ok(()));
    assert_eq!(assert_fixture_eq(&a, &b), Ok(()));
    assert_eq!(assert_fixture_eq(&Fixture::default(), &Fixture::default()), Ok(()));
}

#[test]
fn different_numbers_of_files_are_reported_with_both_lists_of_paths() {
    let a = Fixture { files: vec![file("/a", "1"), file("/b", "2")] };
    let b = Fixture { files: vec![file("/a", "1")] };
    assert_eq!(
        assert_fixture_eq(&a, &b),
        Err(Mismatch::FileCount {
            expected_paths: vec!["/a".to_owned(), "/b".to_owned()],
            actual_paths: vec!["/a".to_owned()],
        })
    );
}

#[test]
fn a_missing_file_is_reported_with_the_paths_there_are() {
    let a = Fixture { files: vec![file("/a", "1"), file("/b", "2")] };
    let b = Fixture { files: vec![file("/a", "1"), file("/c", "2")] };
    assert_eq!(
        assert_fixture_eq(&a, &b),
        Err(Mismatch::MissingFile {
            path: "/b".to_owned(),
            available: vec!["/a".to_owned(), "/c".to_owned()],
        })
    );
}

#[test]
fn a_different_text_is_reported_with_both_texts() {
    let a = Fixture { files: vec![file("/a", "1"), file("/b", "2")] };
    let b = Fixture { files: vec![file("/a", "1"), file("/b", "two")] };
    assert_eq!(
        assert_fixture_eq(&a, &b),
        Err(Mismatch::Content {
            path: "/b".to_owned(),
            expected: "2".to_owned(),
            actual: "two".to_owned(),
        })
    );
}

#[test]
fn the_first_difference_is_reported() {
    let a = Fixture { files: vec![file("/a", "1"), file("/b", "2")] };
    let b = Fixture { files: vec![file("/a", "one"), file("/c", "2")] };
    assert_eq!(
        assert_fixture_eq(&a, &b),
        Err(Mismatch::Content {
            path: "/a".to_owned(),
            expected: "1".to_owned(),
            actual: "one".to_owned(),
        })
    );
}

#[test]
fn of_two_files_at_one_path_the_first_is_compared() {
    let a = Fixture { files: vec![file("/a", "1"), file("/a", "1")] };
    let b = Fixture { files: vec![file("/a", "1"), file("/a", "other")] };
    assert_eq!(assert_fixture_eq(&a, &b), Ok(()));
}

#[test]
fn reports_read_as_sentences() {
    let count = Mismatch::FileCount {
        expected_paths: vec!["/a".to_owned(), "/b".to_owned()],
        actual_paths: (0..12).map(|i| format!("/f{i}")).collect(),
    };
    assert_eq!(
        count.message(),
        "fixture file count mismatch: expected 2 files, got 12\nExpected: /a, /b\nActual: /f0, /f1, /f2, /f3, /f4, /f5, /f6, /f7, /f8, /f9, /f10, /f11"
    );
    let none = Mismatch::FileCount { expected_paths: vec![], actual_paths: vec!["/x".to_owned()] };
    assert_eq!(
        none.message(),
        "fixture file count mismatch: expected 0 files, got 1\nExpected: \nActual: /x"
    );
    let missing = Mismatch::MissingFile { path: "/b".to_owned(), available: vec!["/a".to_owned()] };
    assert_eq!(missing.message(), "missing file in actual: /b\nActual files: /a");
    let content = Mismatch::Content {
        path: "/a".to_owned(),
        expected: "one\n".to_owned(),
        actual: "two".to_owned(),
    };
    assert_eq!(
        content.message(),
        "file /a content mismatch:\n\n--- Expected ---\none\n\n--- Actual ---\ntwo\n"
    );
}
