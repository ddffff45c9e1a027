//! What holds of the library as a whole: how parsing, rendering and
//! normalizing answer one another.

use vstd::prelude::*;
use vstd::relations::injective_on;
use vstd::set_lib::{lemma_int_range, lemma_map_size, lemma_subset_equality, set_int_range};
use crate::disk::{
    inserted, is_sorted_by_path, path_le, sorted_by_path, target, writes_of, written,
};
use crate::equality::{compared, file_matched, files_matched};
use crate::fixture::{
    body_len, find_file, lemma_body_len_bounds, lemma_find_file, marker, marker_path,
    parse_sections, parsed, FileSpec, ParseFailure,
};
use crate::indent::{
    common_indent, line_indent, lemma_min_indent_strip, lemma_strip_lines_zero, normalized,
    without_leading_newline,
};
use crate::render::{
    is_redacted, joined, newline_terminated, path_rendered, pattern_hits, raw_text, redacted,
    redacted_lines, rendered_files, section, sections, PatternSpec,
};
use crate::pattern::regex_matches;
use crate::text::{
    chomp, contains_run, ends_with_newline, is_white_space, leading_white_space,
    leading_word, lemma_leading_word_bounds, lemma_line_len_bounds, lemma_line_len_concat,
    lemma_line_len_newline, lemma_line_len_no_newline, line_len, starts_with, text_lines,
};

verus! {

/// A text without a marker is one file, and that file renders as the text in
/// its normal form, whatever path it is given.
pub proof fn lemma_single_file_identity(s: Seq<char>, default_path: Seq<char>)
    requires
        !contains_run(normalized(s), marker()),
    ensures
        parsed(s, default_path) is Ok,
        raw_text(parsed(s, default_path)->Ok_0, false) == normalized(s),
{
}

/// Normalizing is idempotent on a text whose normal form does not begin with
/// a newline. (A normal form that begins with one would lose it to the second
/// pass, which drops a leading newline anew.)
pub proof fn lemma_normalize_idempotent(s: Seq<char>)
    requires
        normalized(s).len() == 0 || normalized(s)[0] != '\n',
    ensures
        normalized(normalized(s)) == normalized(s),
{
    let body = without_leading_newline(s);
    lemma_min_indent_strip(body, common_indent(body));
    lemma_strip_lines_zero(normalized(s));
}

/// Whether `path` can stand on a marker line and be read back: it starts
/// with `/` and holds no white space.
pub open spec fn is_marker_path(path: Seq<char>) -> bool {
    &&& path.len() > 0
    &&& path[0] == '/'
    &&& forall|k: int| 0 <= k < path.len() ==> !is_white_space(#[trigger] path[k])
}

/// Whether no line of `s` starts with the marker.
pub open spec fn no_marker_line(s: Seq<char>) -> bool
    decreases s.len(),
    via no_marker_line_decreases
{
    s.len() == 0 || (!starts_with(s, marker()) && no_marker_line(s.skip(line_len(s) as int)))
}

#[via_fn]
proof fn no_marker_line_decreases(s: Seq<char>) {
    lemma_line_len_bounds(s);
}

/// Whether `file` is read back from its section as it is: its path can stand
/// on a marker line, and its text ends with a newline and has no line that
/// starts with the marker.
pub open spec fn survives_sections(file: FileSpec) -> bool {
    &&& is_marker_path(file.path)
    &&& ends_with_newline(file.text)
    &&& no_marker_line(file.text)
}

/// The body of a section holds no marker line.
proof fn lemma_body_holds_no_marker_line(s: Seq<char>)
    ensures
        no_marker_line(s.take(body_len(s) as int)),
    decreases s.len(),
{
    let body = s.take(body_len(s) as int);
    if !(s.len() == 0 || starts_with(s, marker())) {
        lemma_line_len_bounds(s);
        lemma_line_len_newline(s);
        let n = line_len(s) as int;
        let rest = s.skip(n);
        lemma_body_holds_no_marker_line(rest);
        lemma_body_len_bounds(rest);
        let line = s.take(n);
        let tail = rest.take(body_len(rest) as int);
        assert(body == line + tail);
        assert forall|k: int| 0 <= k < line.len() - 1 implies line[k] != '\n' by {
            assert(line[k] == s[k]);
        }
        assert(line[n - 1] == s[n - 1]);
        if line.last() == '\n' {
            lemma_line_len_concat(line, tail);
        } else {
            assert(tail.len() == 0);
            assert(body == line);
            lemma_line_len_no_newline(line);
            assert(body.skip(n) == tail);
        }
        assert(line_len(body) == n);
        assert(body.skip(n) == tail);
        if starts_with(body, marker()) {
            assert(s.take(3) == body.take(3));
            assert(false);
        }
    }
}

/// What is parsed from a text with markers: every file lies at a path that
/// starts with `/` and holds no white space, and no line of its text starts
/// with the marker.
pub proof fn lemma_parsed_files(s: Seq<char>)
    ensures
        parse_sections(s) is Ok ==> forall|i: int|
            0 <= i < parse_sections(s)->Ok_0.len() ==> {
                let file = #[trigger] parse_sections(s)->Ok_0[i];
                is_marker_path(file.path) && no_marker_line(file.text)
            },
    decreases s.len(),
{
    if s.len() > 0 {
        lemma_line_len_bounds(s);
        let n = line_len(s) as int;
        let rest = s.skip(n);
        if !starts_with(s, marker()) {
            lemma_parsed_files(rest);
        } else {
            let path = marker_path(s.take(n));
            let m = body_len(rest) as int;
            lemma_body_len_bounds(rest);
            lemma_parsed_files(rest.skip(m));
            lemma_body_holds_no_marker_line(rest);
            if parse_sections(s) is Ok {
                let tail = parse_sections(rest.skip(m))->Ok_0;
                let first = FileSpec { path, text: rest.take(m) };
                let word = s.take(n).skip(3).skip(
                    leading_white_space(s.take(n).skip(3)) as int,
                );
                lemma_leading_word_bounds(word);
                assert forall|k: int| 0 <= k < path.len() implies !is_white_space(
                    #[trigger] path[k],
                ) by {
                    assert(path[k] == word[k]);
                }
                assert forall|i: int| 0 <= i < parse_sections(s)->Ok_0.len() implies {
                    let file = #[trigger] parse_sections(s)->Ok_0[i];
                    is_marker_path(file.path) && no_marker_line(file.text)
                } by {
                    if i > 0 {
                        assert(parse_sections(s)->Ok_0[i] == tail[i - 1]);
                    } else {
                        assert(parse_sections(s)->Ok_0[0] == first);
                    }
                }
            }
        }
    }
}

/// A text that starts at the left margin is in normal form.
pub proof fn lemma_normalized_flush_left(s: Seq<char>)
    requires
        s.len() > 0,
        !is_white_space(s[0]),
    ensures
        normalized(s) == s,
{
    lemma_line_len_bounds(s);
    let line = s.take(line_len(s) as int);
    assert(line[0] == s[0]);
    assert(leading_white_space(line) == 0);
    assert(line_indent(line) == Some(0nat));
    lemma_strip_lines_zero(s);
}

/// A run of characters that are not white space, up to the first that is,
/// is the word that a text starts with.
proof fn lemma_leading_word_exact(s: Seq<char>, n: int)
    requires
        0 <= n <= s.len(),
        forall|k: int| 0 <= k < n ==> !is_white_space(#[trigger] s[k]),
        n < s.len() ==> is_white_space(s[n]),
    ensures
        leading_word(s) == n,
    decreases n,
{
    if n > 0 {
        let t = s.drop_first();
        assert forall|k: int| 0 <= k < n - 1 implies !is_white_space(#[trigger] t[k]) by {
            assert(t[k] == s[k + 1]);
        }
        lemma_leading_word_exact(t, n - 1);
    }
}

/// A body without marker lines, put before another text, is that much more
/// of a body.
proof fn lemma_body_len_concat(a: Seq<char>, b: Seq<char>)
    requires
        no_marker_line(a),
        a.len() == 0 || ends_with_newline(a),
    ensures
        body_len(a + b) == a.len() + body_len(b),
    decreases a.len(),
{
    if a.len() == 0 {
        assert(a + b == b);
    } else {
        lemma_line_len_bounds(a);
        lemma_line_len_newline(a);
        let k = line_len(a) as int;
        let line = a.take(k);
        let rest = a.skip(k);
        assert(line.last() == '\n');
        assert forall|j: int| 0 <= j < line.len() - 1 implies line[j] != '\n' by {
            assert(line[j] == a[j]);
        }
        assert(a + b == line + (rest + b));
        lemma_line_len_concat(line, rest + b);
        if starts_with(a + b, marker()) {
            let m = (a + b).take(3);
            assert(m[0] == '/' && m[1] == '/' && m[2] == '-');
            assert(m[0] == (a + b)[0] && m[1] == (a + b)[1] && m[2] == (a + b)[2]);
            if k <= 3 {
                assert((a + b)[k - 1] == a[k - 1]);
            } else {
                assert(a.take(3) == m);
            }
            assert(false);
        }
        lemma_body_len_concat(rest, b);
    }
}

/// The section of a file, before a text that is empty or starts a section of
/// its own, is parsed as that file, followed by what the text holds.
proof fn lemma_section_parsed(file: FileSpec, tail: Seq<char>)
    requires
        survives_sections(file),
        tail.len() == 0 || starts_with(tail, marker()),
    ensures
        parse_sections(section(file) + tail) == match parse_sections(tail) {
            Ok(files) => Ok::<Seq<FileSpec>, ParseFailure>(seq![file] + files),
            Err(e) => Err(e),
        },
{
    let header = marker() + seq![' '] + file.path + seq!['\n'];
    let s = section(file) + tail;
    let after = file.text + tail;
    assert(newline_terminated(file.text) == file.text);
    assert(s == header + after);
    assert forall|j: int| 0 <= j < header.len() - 1 implies header[j] != '\n' by {
        if j >= 4 {
            assert(header[j] == file.path[j - 4]);
        }
    }
    lemma_line_len_concat(header, after);
    assert(s.take(3) == marker());
    let rest = header.skip(3);
    assert(rest == seq![' '] + file.path + seq!['\n']);
    assert(rest.drop_first() == file.path + seq!['\n']);
    assert(rest.drop_first()[0] == file.path[0]);
    assert(leading_white_space(rest.drop_first()) == 0);
    assert(leading_white_space(rest) == 1);
    let word = rest.skip(1);
    assert(word == file.path + seq!['\n']);
    assert forall|k: int| 0 <= k < file.path.len() implies !is_white_space(#[trigger] word[k]) by {
        assert(word[k] == file.path[k]);
    }
    lemma_leading_word_exact(word, file.path.len() as int);
    assert(word.take(file.path.len() as int) == file.path);
    assert(marker_path(header) == file.path);
    lemma_body_len_concat(file.text, tail);
    assert(body_len(tail) == 0);
    assert(after.take(file.text.len() as int) == file.text);
    assert(after.skip(file.text.len() as int) == tail);
}

/// The sections of files that survive them are parsed as those files.
pub proof fn lemma_sections_parsed(files: Seq<FileSpec>)
    requires
        forall|i: int| 0 <= i < files.len() ==> survives_sections(#[trigger] files[i]),
    ensures
        parse_sections(sections(files)) == Ok::<Seq<FileSpec>, ParseFailure>(files),
        files.len() > 0 ==> starts_with(sections(files), marker()),
    decreases files.len(),
{
    if files.len() > 0 {
        let rest = files.drop_first();
        assert forall|i: int| 0 <= i < rest.len() implies survives_sections(#[trigger] rest[i]) by {
            assert(rest[i] == files[i + 1]);
        }
        lemma_sections_parsed(rest);
        lemma_section_parsed(files[0], sections(rest));
        assert(seq![files[0]] + rest == files);
        assert(sections(files).take(3) == marker());
    } else {
        assert(files == Seq::<FileSpec>::empty());
    }
}

/// Round trip with marker lines: files that survive their sections are read
/// back from the text that shows every file's path.
pub proof fn lemma_round_trip_with_paths(files: Seq<FileSpec>, default_path: Seq<char>)
    requires
        files.len() >= 1,
        forall|i: int| 0 <= i < files.len() ==> survives_sections(#[trigger] files[i]),
    ensures
        parsed(raw_text(files, true), default_path) == Ok::<Seq<FileSpec>, ParseFailure>(files),
{
    let s = sections(files);
    lemma_sections_parsed(files);
    assert(s[0] == s.take(3)[0]);
    lemma_normalized_flush_left(s);
}

/// Round trip: a fixture of two or more files is read back from its text as
/// it was. Each file must have a path that can stand on a marker line, and a
/// text that ends with a newline and has no line that starts with the marker.
pub proof fn lemma_round_trip(files: Seq<FileSpec>, default_path: Seq<char>)
    requires
        files.len() >= 2,
        forall|i: int| 0 <= i < files.len() ==> survives_sections(#[trigger] files[i]),
    ensures
        parsed(raw_text(files, false), default_path) == Ok::<Seq<FileSpec>, ParseFailure>(files),
{
    lemma_round_trip_with_paths(files, default_path);
}

/// Round trip of a single file, which is rendered without its path: it is
/// read back as it was where it lies at the default path and its text is in
/// normal form and holds no marker.
pub proof fn lemma_round_trip_single(file: FileSpec, default_path: Seq<char>)
    requires
        file.path == default_path,
        normalized(file.text) == file.text,
        !contains_run(file.text, marker()),
    ensures
        parsed(raw_text(seq![file], false), default_path) == Ok::<Seq<FileSpec>, ParseFailure>(
            seq![file],
        ),
{
}

/// Whether `line` is read back as one line from a text that it is joined
/// into: it holds no newline and does not end with a carriage return.
pub open spec fn is_plain_line(line: Seq<char>) -> bool {
    &&& forall|k: int| 0 <= k < line.len() ==> line[k] != '\n'
    &&& line.len() > 0 ==> line.last() != '\r'
}

/// No line of a text holds a newline.
pub proof fn lemma_text_lines_hold_no_newline(s: Seq<char>)
    ensures
        forall|i: int, k: int|
            0 <= i < text_lines(s).len() && 0 <= k < text_lines(s)[i].len() ==> #[trigger] text_lines(
                s,
            )[i][k] != '\n',
    decreases s.len(),
{
    if s.len() > 0 {
        lemma_line_len_bounds(s);
        lemma_line_len_newline(s);
        let n = line_len(s) as int;
        let line = s.take(n);
        let first = chomp(line);
        let rest = text_lines(s.skip(n));
        lemma_text_lines_hold_no_newline(s.skip(n));
        assert forall|i: int, k: int|
            0 <= i < text_lines(s).len() && 0 <= k < text_lines(s)[i].len() implies #[trigger] text_lines(
            s,
        )[i][k] != '\n' by {
            if i == 0 {
                assert(first[k] == s[k]);
            } else {
                assert(text_lines(s)[i] == rest[i - 1]);
            }
        }
    }
}

/// A plain line followed by a newline is the first line of the text it
/// starts.
proof fn lemma_text_lines_first(x: Seq<char>, t: Seq<char>)
    requires
        is_plain_line(x),
    ensures
        text_lines(x + seq!['\n'] + t) == seq![x] + text_lines(t),
{
    let line = x + seq!['\n'];
    assert forall|j: int| 0 <= j < line.len() - 1 implies line[j] != '\n' by {
        assert(line[j] == x[j]);
    }
    lemma_line_len_concat(line, t);
    assert(line.drop_last() == x);
}

/// Plain lines, joined and followed by a newline, are read back as they
/// were, before the lines of what follows.
proof fn lemma_text_lines_joined_then(lines: Seq<Seq<char>>, t: Seq<char>)
    requires
        lines.len() > 0,
        forall|i: int| 0 <= i < lines.len() ==> is_plain_line(#[trigger] lines[i]),
    ensures
        text_lines(joined(lines) + seq!['\n'] + t) == lines + text_lines(t),
    decreases lines.len(),
{
    let x = lines.last();
    let init = lines.drop_last();
    if lines.len() == 1 {
        lemma_text_lines_first(x, t);
        assert(seq![x] == lines);
    } else {
        let tail = x + seq!['\n'] + t;
        assert forall|i: int| 0 <= i < init.len() implies is_plain_line(#[trigger] init[i]) by {
            assert(init[i] == lines[i]);
        }
        lemma_text_lines_joined_then(init, tail);
        lemma_text_lines_first(x, t);
        assert(joined(lines) + seq!['\n'] + t == joined(init) + seq!['\n'] + tail);
        assert(init + (seq![x] + text_lines(t)) == lines + text_lines(t));
    }
}

/// Plain lines, the last of them not empty, are read back from the text
/// that joins them.
pub proof fn lemma_text_lines_joined(lines: Seq<Seq<char>>)
    requires
        forall|i: int| 0 <= i < lines.len() ==> is_plain_line(#[trigger] lines[i]),
        lines.len() > 0 ==> lines.last().len() > 0,
    ensures
        text_lines(joined(lines)) == lines,
{
    if lines.len() > 0 {
        let x = lines.last();
        let init = lines.drop_last();
        lemma_line_len_no_newline(x);
        assert(x.take(x.len() as int) == x);
        assert(x.skip(x.len() as int) == Seq::<char>::empty());
        assert(x[x.len() - 1] != '\n');
        assert(chomp(x) == x);
        assert(text_lines(Seq::<char>::empty()) == Seq::<Seq<char>>::empty());
        assert(seq![x] + Seq::<Seq<char>>::empty() == seq![x]);
        assert(text_lines(x) == seq![x]);
        if lines.len() == 1 {
            assert(seq![x] == lines);
        } else {
            assert forall|i: int| 0 <= i < init.len() implies is_plain_line(#[trigger] init[i]) by {
                assert(init[i] == lines[i]);
            }
            lemma_text_lines_joined_then(init, x);
            assert(init + seq![x] == lines);
        }
    } else {
        assert(lines == Seq::<Seq<char>>::empty());
    }
}

/// Redaction, seen in the text: the redacted text has as many lines as the
/// text had, the named lines read the message, and every other line is what
/// it was. This holds where the lines can be told apart again: the message
/// and the lines of the text are plain, and the last line is not left empty.
pub proof fn lemma_redaction_in_text(text: Seq<char>, numbers: Seq<usize>, message: Seq<char>)
    requires
        is_plain_line(message),
        forall|i: int|
            0 <= i < text_lines(text).len() && (#[trigger] text_lines(text)[i]).len() > 0
                ==> text_lines(text)[i].last() != '\r',
        text_lines(text).len() > 0 ==> redacted_lines(
            text_lines(text),
            numbers,
            message,
        ).last().len() > 0,
    ensures
        text_lines(redacted(text, numbers, message)) == redacted_lines(
            text_lines(text),
            numbers,
            message,
        ),
        text_lines(redacted(text, numbers, message)).len() == text_lines(text).len(),
        forall|i: int|
            0 <= i < text_lines(text).len() && !is_redacted(numbers, i + 1) ==> #[trigger] text_lines(
                redacted(text, numbers, message),
            )[i] == text_lines(text)[i],
{
    let lines = text_lines(text);
    let out = redacted_lines(lines, numbers, message);
    lemma_text_lines_hold_no_newline(text);
    assert forall|i: int| 0 <= i < out.len() implies is_plain_line(#[trigger] out[i]) by {
        if !is_redacted(numbers, i + 1) {
            assert(out[i] == lines[i]);
            assert forall|k: int| 0 <= k < lines[i].len() implies lines[i][k] != '\n' by {
                assert(text_lines(text)[i][k] != '\n');
            }
        }
    }
    lemma_text_lines_joined(out);
}

/// Laying a fixture out is faithful: once its writes are carried out, the
/// place where a file is looked for holds that file's text. This holds of
/// every file but one that shares its place with a later file of another
/// text: `last` is the last file written to the place, and has the same text.
pub proof fn lemma_written_files_are_found(
    root: Seq<char>,
    files: Seq<FileSpec>,
    i: int,
    last: int,
)
    requires
        0 <= i <= last < files.len(),
        target(root, files[last].path) == target(root, files[i].path),
        files[last].text == files[i].text,
        forall|j: int|
            last < j < files.len() ==> target(root, (#[trigger] files[j]).path) != target(
                root,
                files[i].path,
            ),
    ensures
        written(writes_of(root, files)).contains_key(target(root, files[i].path)),
        written(writes_of(root, files))[target(root, files[i].path)] == files[i].text,
    decreases files.len(),
{
    let writes = writes_of(root, files);
    let init = files.drop_last();
    assert(writes.drop_last() == writes_of(root, init));
    if last < files.len() - 1 {
        assert forall|j: int| last < j < init.len() implies target(root, (#[trigger] init[j]).path)
            != target(root, init[i].path) by {
            assert(init[j] == files[j]);
        }
        lemma_written_files_are_found(root, init, i, last);
        assert(files[files.len() - 1] == files.last());
    }
}

/// The order of paths is total: of two paths, one comes first or they are
/// the same.
pub proof fn lemma_path_le_total(a: Seq<char>, b: Seq<char>)
    ensures
        path_le(a, b) || path_le(b, a),
    decreases a.len(),
{
    if a.len() > 0 && b.len() > 0 && a[0] == b[0] {
        lemma_path_le_total(a.drop_first(), b.drop_first());
    }
}

/// The order of paths is transitive.
pub proof fn lemma_path_le_transitive(a: Seq<char>, b: Seq<char>, c: Seq<char>)
    requires
        path_le(a, b),
        path_le(b, c),
    ensures
        path_le(a, c),
    decreases a.len(),
{
    if a.len() > 0 && b.len() > 0 && c.len() > 0 && a[0] == b[0] && b[0] == c[0] {
        lemma_path_le_transitive(a.drop_first(), b.drop_first(), c.drop_first());
    }
}

/// Putting a file into files that are in order leaves them in order, and
/// adds that file and nothing else.
proof fn lemma_inserted(sorted: Seq<FileSpec>, file: FileSpec)
    requires
        is_sorted_by_path(sorted),
    ensures
        is_sorted_by_path(inserted(sorted, file)),
        inserted(sorted, file).len() == sorted.len() + 1,
        inserted(sorted, file).to_multiset() == sorted.to_multiset().insert(file),
        forall|k: int|
            0 <= k < inserted(sorted, file).len() ==> {
                ||| #[trigger] inserted(sorted, file)[k] == file
                ||| sorted.contains(inserted(sorted, file)[k])
            },
    decreases sorted.len(),
{
    broadcast use vstd::seq_lib::group_to_multiset_ensures;

    let out = inserted(sorted, file);
    if sorted.len() == 0 || path_le(sorted.last().path, file.path) {
        assert forall|i: int, j: int| 0 <= i <= j < out.len() implies path_le(
            (#[trigger] out[i]).path,
            (#[trigger] out[j]).path,
        ) by {
            if j == sorted.len() {
                if i < sorted.len() {
                    lemma_path_le_transitive(sorted[i].path, sorted.last().path, file.path);
                } else {
                    lemma_path_le_total(file.path, file.path);
                }
            }
        }
        assert forall|k: int| 0 <= k < out.len() implies (#[trigger] out[k] == file
            || sorted.contains(out[k])) by {
            if k < sorted.len() {
                assert(sorted[k] == out[k]);
            }
        }
    } else {
        let init = sorted.drop_last();
        let last = sorted.last();
        let head = inserted(init, file);
        assert(is_sorted_by_path(init)) by {
            assert forall|i: int, j: int| 0 <= i <= j < init.len() implies path_le(
                (#[trigger] init[i]).path,
                (#[trigger] init[j]).path,
            ) by {
                assert(init[i] == sorted[i] && init[j] == sorted[j]);
            }
        }
        lemma_inserted(init, file);
        lemma_path_le_total(last.path, file.path);
        assert forall|i: int, j: int| 0 <= i <= j < out.len() implies path_le(
            (#[trigger] out[i]).path,
            (#[trigger] out[j]).path,
        ) by {
            if j == head.len() {
                if i < head.len() {
                    if head[i] != file {
                        let m = choose|m: int| 0 <= m < init.len() && init[m] == head[i];
                        assert(init[m] == sorted[m]);
                    }
                } else {
                    lemma_path_le_total(last.path, last.path);
                }
            }
        }
        assert forall|k: int| 0 <= k < out.len() implies (#[trigger] out[k] == file
            || sorted.contains(out[k])) by {
            if k < head.len() {
                if head[k] != file {
                    let m = choose|m: int| 0 <= m < init.len() && init[m] == head[k];
                    assert(sorted[m] == out[k]);
                }
            } else {
                assert(sorted[sorted.len() - 1] == out[k]);
            }
        }
        assert(init.push(last) == sorted);
    }
}

/// Sorting by path gives the same files, in the order of their paths.
pub proof fn lemma_sorted_by_path(files: Seq<FileSpec>)
    ensures
        is_sorted_by_path(sorted_by_path(files)),
        sorted_by_path(files).len() == files.len(),
        sorted_by_path(files).to_multiset() == files.to_multiset(),
    decreases files.len(),
{
    broadcast use vstd::seq_lib::group_to_multiset_ensures;

    if files.len() > 0 {
        lemma_sorted_by_path(files.drop_last());
        lemma_inserted(sorted_by_path(files.drop_last()), files.last());
        assert(files.drop_last().push(files.last()) == files);
    }
}

/// Exclusion wins: a path that an excluding pattern matches is not rendered,
/// whichever including patterns match it too, and no rendered file lies at it.
pub proof fn lemma_exclusion_wins(
    files: Seq<FileSpec>,
    patterns: Seq<PatternSpec>,
    path: Seq<char>,
    e: int,
)
    requires
        0 <= e < patterns.len(),
        patterns[e].exclude,
        regex_matches(patterns[e].pattern, path),
    ensures
        !path_rendered(patterns, path),
        forall|i: int|
            0 <= i < rendered_files(files, patterns).len() ==> (#[trigger] rendered_files(
                files,
                patterns,
            )[i]).path != path,
{
    let hits = pattern_hits(patterns, path);
    assert(hits[e].exclude && hits[e].matched);
    let kept = rendered_files(files, patterns);
    let chosen = |f: FileSpec| path_rendered(patterns, f.path);
    assert forall|i: int| 0 <= i < kept.len() implies (#[trigger] kept[i]).path != path by {
        files.lemma_filter_pred(chosen, i);
    }
}

/// A path is rendered under an including pattern that matches it, so long as
/// no excluding pattern does.
pub proof fn lemma_inclusion_admits(patterns: Seq<PatternSpec>, path: Seq<char>, k: int)
    requires
        0 <= k < patterns.len(),
        !patterns[k].exclude,
        regex_matches(patterns[k].pattern, path),
        forall|i: int|
            0 <= i < patterns.len() && (#[trigger] patterns[i]).exclude ==> !regex_matches(
                patterns[i].pattern,
                path,
            ),
    ensures
        path_rendered(patterns, path),
{
    let hits = pattern_hits(patterns, path);
    assert(!hits[k].exclude && hits[k].matched);
    assert forall|i: int| 0 <= i < hits.len() implies !((#[trigger] hits[i]).exclude
        && hits[i].matched) by {
        assert(patterns[i].exclude == hits[i].exclude);
    }
}

/// Redaction replaces the lines that are named and no other: the number of
/// lines stays, a named line reads the message, and every other line is what
/// it was.
pub proof fn lemma_redaction_keeps_other_lines(
    lines: Seq<Seq<char>>,
    numbers: Seq<usize>,
    message: Seq<char>,
)
    ensures
        redacted_lines(lines, numbers, message).len() == lines.len(),
        forall|i: int|
            0 <= i < lines.len() && !is_redacted(numbers, i + 1) ==> #[trigger] redacted_lines(
                lines,
                numbers,
                message,
            )[i] == lines[i],
        forall|i: int|
            0 <= i < lines.len() && is_redacted(numbers, i + 1) ==> #[trigger] redacted_lines(
                lines,
                numbers,
                message,
            )[i] == message,
{
}

} // verus!
