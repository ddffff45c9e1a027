use v_fixtures::render::{admits, normalize_hashes, redact, PatternHit};
use v_fixtures::{trim_indent, Fixture, FixtureFile, FixtureRenderer, InvalidPattern};

#[test]
fn test_fixture_renderer_redact_lines() {
    // Multi-file fixture so we get the //- header lines
    let fixture = Fixture::parse(
        r#"
//- /config.json
{
  "name": "test",
  "timestamp": "2026-01-22T12:00:00Z",
  "value": 42
}
//- /other.txt
other
"#,
    ).unwrap();

    // Rendered output:
    // 1: //- /config.json
    // 2: {
    // 3:   "name": "test",
    // 4:   "timestamp": "2026-01-22T12:00:00Z",
    // 5:   "value": 42
    // 6: }
    // 7: //- /other.txt
    // 8: other
    let rendered = FixtureRenderer::new(&fixture).redact_lines(&[4]).render();

    assert!(rendered.contains("\"name\": \"test\""));
    assert!(rendered.contains("[REDACTED]"));
    assert!(!rendered.contains("2026-01-22"));
    assert!(rendered.contains("\"value\": 42"));
}

#[test]
fn test_fixture_renderer_custom_redact_message() {
    let fixture = Fixture::parse(
        r#"
line 1
line 2
line 3
"#,
    ).unwrap();

    let rendered = FixtureRenderer::new(&fixture).redact_lines(&[2]).redact_message("[TIMESTAMP REDACTED]").render();

    assert!(rendered.contains("line 1"));
    assert!(rendered.contains("[TIMESTAMP REDACTED]"));
    assert!(rendered.contains("line 3"));
    assert!(!rendered.contains("line 2"));
}

#[test]
fn test_fixture_renderer_normalize_git_hashes() {
    let fixture = Fixture::parse(
        r#"
<<<<<<< HEAD
local content
||||||| a0f7d74
original content
=======
remote content
>>>>>>> feature
"#,
    ).unwrap();

    let rendered = FixtureRenderer::new(&fixture).normalize_git_hashes().render();

    assert!(rendered.contains("||||||| [hash]"));
    assert!(!rendered.contains("a0f7d74"));
}

#[test]
fn test_fixture_renderer_combined() {
    // Multi-file fixture
    let fixture = Fixture::parse(
        r#"
//- /file.txt
line 1
timestamp: 2026-01-22T12:00:00Z
||||||| abc1234
conflict marker
//- /other.txt
other
"#,
    ).unwrap();

    // Rendered output:
    // 1: //- /file.txt
    // 2: line 1
    // 3: timestamp: 2026-01-22T12:00:00Z
    // 4: ||||||| abc1234
    // 5: conflict marker
    // 6: //- /other.txt
    // 7: other
    let rendered = FixtureRenderer::new(&fixture)
        .normalize_git_hashes()
        .redact_lines(&[3]) // "timestamp: ..." line in rendered output
        .render();

    assert!(rendered.contains("line 1"));
    assert!(rendered.contains("[REDACTED]"));
    assert!(rendered.contains("||||||| [hash]"));
    assert!(!rendered.contains("abc1234"));
}

#[test]
fn test_fixture_renderer_regex_inclusion() {
    let fixture = Fixture::parse(
        r#"
//- /src/main.rs
fn main() {}
//- /src/lib.rs
pub fn lib() {}
//- /tests/integration.rs
fn test_integration() {}
//- /benches/bench.rs
fn benchmark() {}
"#,
    ).unwrap();

    // Include only files under /src/
    let rendered = FixtureRenderer::new(&fixture).regex("^/src/").unwrap().render();

    assert!(rendered.contains("//- /src/main.rs"));
    assert!(rendered.contains("//- /src/lib.rs"));
    assert!(!rendered.contains("/tests/"));
    assert!(!rendered.contains("/benches/"));
}

#[test]
fn test_fixture_renderer_regex_exclusion() {
    let fixture = Fixture::parse(
        r#"
//- /src/main.rs
fn main() {}
//- /src/lib.rs
pub fn lib() {}
//- /tests/integration.rs
fn test_integration() {}
//- /tests/unit.rs
fn test_unit() {}
"#,
    ).unwrap();

    // Exclude all test files
    let rendered = FixtureRenderer::new(&fixture).regex("!/tests/").unwrap().render();

    assert!(rendered.contains("//- /src/main.rs"));
    assert!(rendered.contains("//- /src/lib.rs"));
    assert!(!rendered.contains("/tests/"));
    assert!(!rendered.contains("integration"));
    assert!(!rendered.contains("unit"));
}

fn file(path: &str, text: &str) -> FixtureFile {
    FixtureFile { path: path.to_owned(), text: text.to_owned() }
}

fn three_files() -> Fixture {
    Fixture {
        files: vec![
            file("/src/main.rs", "fn main() {}\n"),
            file("/src/lib.rs", "pub fn lib() {}\n"),
            file("/tests/test.rs", "fn test() {}\n"),
        ],
    }
}

#[test]
fn several_files_render_as_sections() {
    let fixture = Fixture { files: vec![file("/a.rs", "a\n"), file("/b.rs", "b")] };
    assert_eq!(fixture.render(), "//- /a.rs\na\n//- /b.rs\nb\n");
    assert_eq!(FixtureRenderer::new(&fixture).render(), "//- /a.rs\na\n//- /b.rs\nb\n");
}

#[test]
fn an_empty_text_renders_as_an_empty_line() {
    let fixture = Fixture { files: vec![file("/a.rs", ""), file("/b.rs", "\n")] };
    assert_eq!(fixture.render(), "//- /a.rs\n\n//- /b.rs\n\n");
}

#[test]
fn no_file_renders_as_nothing() {
    assert_eq!(Fixture { files: vec![] }.render(), "");
}

#[test]
fn a_single_file_renders_as_its_text() {
    let fixture = Fixture { files: vec![file("/a.rs", "no newline")] };
    assert_eq!(fixture.render(), "no newline");
    assert_eq!(
        FixtureRenderer::new(&fixture).always_show_filepath().render(),
        "//- /a.rs\nno newline\n"
    );
}

#[test]
fn rendering_then_parsing_gives_the_fixture_back() {
    let fixture = Fixture {
        files: vec![file("/a.rs", "a\n  indented\n\n"), file("/dir/b.rs", "// - not a marker\n")],
    };
    assert_eq!(Fixture::parse(&fixture.render()), Ok(fixture));
}

#[test]
fn round_trip_fails_on_a_text_without_trailing_newline() {
    let fixture = Fixture { files: vec![file("/a.rs", "a"), file("/b.rs", "b\n")] };
    let back = Fixture::parse(&fixture.render()).unwrap();
    assert_eq!(back.files, vec![file("/a.rs", "a\n"), file("/b.rs", "b\n")]);
}

#[test]
fn parsing_then_rendering_a_single_file_gives_the_normal_form() {
    let text = "\n        fn main() {\n            run();\n        }\n";
    let fixture = Fixture::parse_with_default_path(text, "/any.rs").unwrap();
    assert_eq!(fixture.render(), trim_indent(text));
    assert_eq!(fixture.render(), "fn main() {\n    run();\n}\n");
}

#[test]
fn exclusion_wins_over_inclusion() {
    let fixture = three_files();
    let rendered = FixtureRenderer::new(&fixture)
        .regex("^/src/")
        .unwrap()
        .regex("!main")
        .unwrap()
        .render();
    assert_eq!(rendered, "pub fn lib() {}\n");
    let rendered = FixtureRenderer::new(&fixture)
        .regex("!main")
        .unwrap()
        .regex("main")
        .unwrap()
        .always_show_filepath()
        .render();
    assert_eq!(rendered, "");
}

#[test]
fn one_of_the_inclusions_must_match() {
    let fixture = three_files();
    let rendered =
        FixtureRenderer::new(&fixture).regex("lib").unwrap().regex("^/tests").unwrap().render();
    assert_eq!(rendered, "//- /src/lib.rs\npub fn lib() {}\n//- /tests/test.rs\nfn test() {}\n");
}

#[test]
fn exclusions_alone_keep_the_rest() {
    let fixture = three_files();
    let rendered = FixtureRenderer::new(&fixture).regex("!^/src/").unwrap().render();
    assert_eq!(rendered, "fn test() {}\n");
}

#[test]
fn hits_decide_whether_a_path_is_rendered() {
    let hit = |exclude, matched| PatternHit { exclude, matched };
    assert!(admits(&vec![]));
    assert!(admits(&vec![hit(false, true)]));
    assert!(!admits(&vec![hit(false, false)]));
    assert!(admits(&vec![hit(true, false)]));
    assert!(!admits(&vec![hit(true, true)]));
    assert!(!admits(&vec![hit(false, true), hit(true, true)]));
    assert!(admits(&vec![hit(false, false), hit(true, false), hit(false, true)]));
    assert!(!admits(&vec![hit(true, false), hit(false, false)]));
}

#[test]
fn an_invalid_pattern_is_refused() {
    let fixture = three_files();
    let refused = FixtureRenderer::new(&fixture).regex("(unclosed");
    assert_eq!(refused.err(), Some(InvalidPattern { pattern: "(unclosed".to_owned() }));
    let refused = FixtureRenderer::new(&fixture).regex("![a-");
    assert_eq!(refused.err(), Some(InvalidPattern { pattern: "[a-".to_owned() }));
}

#[test]
fn only_the_named_line_is_redacted() {
    let fixture = Fixture { files: vec![file("/log.txt", "one\ntwo\nthree\nfour\nfive\n")] };
    let rendered =
        FixtureRenderer::new(&fixture).always_show_filepath().redact_lines(&[4]).render();
    assert_eq!(rendered, "//- /log.txt\none\ntwo\n[REDACTED]\nfour\nfive");
    assert_eq!(rendered.lines().count(), 6);
}

#[test]
fn redaction_counts_lines_from_one() {
    assert_eq!(redact("a\nb\nc\n", &[1, 3], "-"), "-\nb\n-");
    assert_eq!(redact("a\nb\nc", &[0, 4], "-"), "a\nb\nc");
    assert_eq!(redact("a\r\nb\r\n", &[2], "x"), "a\nx");
    assert_eq!(redact("", &[1], "x"), "");
    assert_eq!(redact("\n\n", &[2], "x"), "\nx");
}

#[test]
fn without_named_lines_the_text_keeps_its_last_newline() {
    let fixture = Fixture { files: vec![file("/a.rs", "a\n")] };
    assert_eq!(FixtureRenderer::new(&fixture).redact_lines(&[]).render(), "a\n");
    assert_eq!(FixtureRenderer::new(&fixture).redact_lines(&[9]).render(), "a");
}

#[test]
fn hashes_after_conflict_markers_are_replaced() {
    assert_eq!(normalize_hashes("||||||| a0f7d74\n"), "||||||| [hash]\n");
    assert_eq!(
        normalize_hashes("x ||||||| 0123456789abcdef0123456789abcdef01234567 y"),
        "x ||||||| [hash] y"
    );
    assert_eq!(normalize_hashes("||||||| abc123\n"), "||||||| abc123\n");
    assert_eq!(normalize_hashes("||||||| ABCDEF0\n"), "||||||| ABCDEF0\n");
    assert_eq!(normalize_hashes("|||||| a0f7d74\n"), "|||||| a0f7d74\n");
    assert_eq!(
        normalize_hashes("||||||| 0123456789abcdef0123456789abcdef012345678"),
        "||||||| [hash]8"
    );
    assert_eq!(normalize_hashes("||||||| 1234567 ||||||| 89abcdef"), "||||||| [hash] ||||||| [hash]");
}

#[test]
fn hashes_are_replaced_before_lines_are_redacted() {
    let fixture = Fixture { files: vec![file("/a", "||||||| a0f7d74\nsecret\n")] };
    let rendered = FixtureRenderer::new(&fixture)
        .normalize_git_hashes()
        .redact_lines(&[2])
        .redact_message("***")
        .render();
    assert_eq!(rendered, "||||||| [hash]\n***");
}
