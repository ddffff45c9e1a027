use v_fixtures::{parse_before_after, trim_indent, Fixture, FixtureFile, ParseError};

#[test]
fn test_trim_indent() {
    let input = r#"
            fn main() {
                println!("hello");
            }
        "#;
    let expected = "fn main() {\n    println!(\"hello\");\n}\n";
    assert_eq!(trim_indent(input), expected);
}

#[test]
fn test_parse_single_file() {
    let input = r#"
            fn main() {
                println!("hello");
            }
        "#;
    let fixture = Fixture::parse(input).unwrap();
    assert_eq!(fixture.files.len(), 1);
    assert_eq!(fixture.files[0].path, "/main.rs");
    assert!(fixture.files[0].text.contains("fn main()"));
}

#[test]
fn test_parse_multi_file() {
    let input = r#"
            //- /main.rs
            mod foo;
            fn main() { foo::bar(); }

            //- /foo.rs
            pub fn bar() {}
        "#;
    let fixture = Fixture::parse(input).unwrap();
    assert_eq!(fixture.files.len(), 2);
    assert_eq!(fixture.files[0].path, "/main.rs");
    assert!(fixture.files[0].text.contains("mod foo"));
    assert_eq!(fixture.files[1].path, "/foo.rs");
    assert!(fixture.files[1].text.contains("pub fn bar"));
}

#[test]
fn test_parse_nested_paths() {
    let input = r#"
            //- /src/main.rs
            mod lib;

            //- /tests/test.rs
            fn test() {}
        "#;
    let fixture = Fixture::parse(input).unwrap();
    assert_eq!(fixture.files.len(), 2);
    assert_eq!(fixture.files[0].path, "/src/main.rs");
    assert_eq!(fixture.files[1].path, "/tests/test.rs");
}

#[test]
fn test_parse_before_after() {
    let input = r#"
            //- /test.rs
            fn main() { let x = 1; }
            =>
            //- /test.rs
            fn main() { let y = 1; }
        "#;
    let (before, after) = parse_before_after(input).unwrap();
    assert!(before.files[0].text.contains("let x"));
    assert!(after.files[0].text.contains("let y"));
}

#[test]
fn test_render_single() {
    let fixture = Fixture {
        files: vec![FixtureFile {
            path: "/main.rs".to_owned(),
            text: "fn main() {}\n".to_owned(),
        }],
    };
    let rendered = fixture.render();
    assert_eq!(rendered, "fn main() {}\n");
}

#[test]
fn test_render_multi() {
    let fixture = Fixture {
        files: vec![
            FixtureFile {
                path: "/main.rs".to_owned(),
                text: "fn main() {}\n".to_owned(),
            },
            FixtureFile {
                path: "/lib.rs".to_owned(),
                text: "pub fn lib() {}\n".to_owned(),
            },
        ],
    };
    let rendered = fixture.render();
    assert!(rendered.contains("//- /main.rs"));
    assert!(rendered.contains("//- /lib.rs"));
}

fn file(path: &str, text: &str) -> FixtureFile {
    FixtureFile { path: path.to_owned(), text: text.to_owned() }
}

#[test]
fn two_sections_are_two_files() {
    let fixture = Fixture::parse("//- /a.rs\na\n//- /b.rs\nb\n").unwrap();
    assert_eq!(fixture.files, vec![file("/a.rs", "a\n"), file("/b.rs", "b\n")]);
}

#[test]
fn text_without_marker_is_one_file_at_the_default_path() {
    let fixture = Fixture::parse_with_default_path("\n    hello\n      world\n", "/note.txt").unwrap();
    assert_eq!(fixture.files, vec![file("/note.txt", "hello\n  world\n")]);
    let fixture = Fixture::parse("").unwrap();
    assert_eq!(fixture.files, vec![file("/main.rs", "")]);
}

#[test]
fn last_section_needs_no_trailing_newline() {
    let fixture = Fixture::parse("//- /a.rs\na\n//- /b.rs\nb").unwrap();
    assert_eq!(fixture.files, vec![file("/a.rs", "a\n"), file("/b.rs", "b")]);
}

#[test]
fn lines_before_the_first_marker_belong_to_no_file() {
    let fixture = Fixture::parse("stray\nlines\n//- /a.rs\na\n").unwrap();
    assert_eq!(fixture.files, vec![file("/a.rs", "a\n")]);
}

#[test]
fn what_follows_the_path_on_a_marker_line_is_ignored() {
    let fixture = Fixture::parse("//- /a.rs crate:main deps:std\na\n//-\t/b.rs\n").unwrap();
    assert_eq!(fixture.files, vec![file("/a.rs", "a\n"), file("/b.rs", "")]);
}

#[test]
fn a_marker_within_a_line_opens_no_file() {
    let fixture = Fixture::parse("let x = 1; //- not a marker line\n").unwrap();
    assert_eq!(fixture.files, vec![]);
}

#[test]
fn duplicate_paths_are_both_kept() {
    let fixture = Fixture::parse("//- /a.rs\none\n//- /a.rs\ntwo\n").unwrap();
    assert_eq!(fixture.files, vec![file("/a.rs", "one\n"), file("/a.rs", "two\n")]);
}

#[test]
fn marker_without_path_is_refused() {
    assert_eq!(Fixture::parse("//- /a.rs\na\n//-\nb\n"), Err(ParseError::MissingPath));
    assert_eq!(Fixture::parse("//-   "), Err(ParseError::MissingPath));
}

#[test]
fn path_without_leading_slash_is_refused() {
    assert_eq!(
        Fixture::parse("//- a.rs\na\n"),
        Err(ParseError::RelativePath("a.rs".to_owned()))
    );
}

#[test]
fn the_first_bad_marker_is_reported() {
    assert_eq!(
        Fixture::parse("//- /a.rs\n//- b.rs\n//-\n"),
        Err(ParseError::RelativePath("b.rs".to_owned()))
    );
}

#[test]
fn before_and_after_are_parsed_apart() {
    let (before, after) =
        parse_before_after("//- /t.rs\nfn f(){let x=1;}\n=>\n//- /t.rs\nfn f(){let y=1;}\n").unwrap();
    assert_eq!(before.files, vec![file("/t.rs", "fn f(){let x=1;}")]);
    assert_eq!(after.files, vec![file("/t.rs", "fn f(){let y=1;}\n")]);
    assert!(before.files[0].text.contains("x=1"));
    assert!(after.files[0].text.contains("y=1"));
}

#[test]
fn before_and_after_without_markers_are_single_files() {
    let (before, after) = parse_before_after("\n    old\n    =>\n    new\n").unwrap();
    assert_eq!(before.files, vec![file("/main.rs", "old")]);
    assert_eq!(after.files, vec![file("/main.rs", "new\n")]);
}

#[test]
fn missing_separator_is_refused() {
    assert_eq!(parse_before_after("//- /t.rs\na\n"), Err(ParseError::MissingSeparator));
    assert_eq!(parse_before_after("a => b\n"), Err(ParseError::MissingSeparator));
    assert_eq!(parse_before_after("=>\nb\n"), Err(ParseError::MissingSeparator));
}

#[test]
fn repeated_separator_is_refused() {
    assert_eq!(parse_before_after("a\n=>\nb\n=>\nc\n"), Err(ParseError::RepeatedSeparator));
}

#[test]
fn an_error_in_a_half_is_reported() {
    assert_eq!(parse_before_after("//- a\n=>\n//-\n"), Err(ParseError::RelativePath("a".to_owned())));
    assert_eq!(parse_before_after("//- /a\n=>\n//-\n"), Err(ParseError::MissingPath));
}

#[test]
fn files_are_found_by_path() {
    let mut fixture = Fixture::parse("//- /a.rs\none\n//- /b.rs\ntwo\n//- /a.rs\nthree\n").unwrap();
    assert_eq!(fixture.file("/b.rs"), Some(&file("/b.rs", "two\n")));
    assert_eq!(fixture.file("/a.rs"), Some(&file("/a.rs", "one\n")));
    assert_eq!(fixture.file("/c.rs"), None);
    assert!(fixture.contains("/a.rs"));
    assert!(!fixture.contains("a.rs"));
    assert!(fixture.file_mut("/none").is_none());
    fixture.file_mut("/a.rs").unwrap().text = "changed\n".to_owned();
    assert_eq!(
        fixture.files,
        vec![file("/a.rs", "changed\n"), file("/b.rs", "two\n"), file("/a.rs", "three\n")]
    );
}

#[test]
fn the_single_file_of_a_single_file_fixture() {
    let fixture = Fixture::parse("hello").unwrap();
    assert_eq!(fixture.single_file(), &file("/main.rs", "hello"));
}

#[test]
fn the_default_fixture_is_empty() {
    assert_eq!(Fixture::default().files, vec![]);
}
