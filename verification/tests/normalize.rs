use v_fixtures::trim_indent;

#[test]
fn empty_text_stays_empty() {
    assert_eq!(trim_indent(""), "");
}

#[test]
fn one_leading_newline_is_dropped() {
    assert_eq!(trim_indent("\nfoo\n"), "foo\n");
    assert_eq!(trim_indent("\n\nfoo\n"), "\nfoo\n");
}

#[test]
fn shared_indentation_is_the_smallest_of_the_non_blank_lines() {
    assert_eq!(trim_indent("    a\n  b\n      c\n"), "  a\nb\n    c\n");
}

#[test]
fn blank_lines_have_no_say() {
    assert_eq!(trim_indent("    a\n \n    b\n"), "a\n\nb\n");
    assert_eq!(trim_indent("    a\n\n    b\n"), "a\n\nb\n");
}

#[test]
fn a_short_line_loses_its_spaces_only() {
    // The second line has no more characters than the indentation of four.
    assert_eq!(trim_indent("    a\n \t\n    b"), "a\n\t\nb");
    assert_eq!(trim_indent("    a\n   "), "a\n");
}

#[test]
fn a_long_blank_line_loses_the_indentation() {
    assert_eq!(trim_indent("  a\n\t\t\t\n  b\n"), "a\n\t\nb\n");
}

#[test]
fn tabs_count_as_indentation() {
    assert_eq!(trim_indent("\tfoo\n\t\tbar\n"), "foo\n\tbar\n");
}

#[test]
fn text_of_blank_lines_is_left_alone() {
    assert_eq!(trim_indent("   \n  \n"), "   \n  \n");
}

#[test]
fn text_at_the_margin_is_left_alone() {
    let text = "fn main() {\n    body();\n}\n";
    assert_eq!(trim_indent(text), text);
}

#[test]
fn normalizing_twice_is_normalizing_once() {
    for text in ["\n    a\n      b\n", "x\n  y\n", "", "  a\n  \n", "\t\ta\r\n\t\tb\r\n"] {
        let once = trim_indent(text);
        assert_eq!(trim_indent(&once), once);
    }
}

#[test]
fn a_normal_form_that_starts_with_a_newline_is_normalized_further() {
    let once = trim_indent("\n\nfoo");
    assert_eq!(once, "\nfoo");
    assert_eq!(trim_indent(&once), "foo");
    let once = trim_indent("  \n  a");
    assert_eq!(once, "\na");
    assert_eq!(trim_indent(&once), "a");
}
