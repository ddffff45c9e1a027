//! Indentation: a block of text written inside indented code is brought back
//! to the left margin.

use vstd::prelude::*;
use crate::text::{
    is_white_space, leading_run, leading_run_in, leading_white_space, leading_white_space_in,
    lemma_leading_run_bounds, lemma_leading_white_space_bounds, lemma_leading_white_space_skip,
    lemma_line_len_bounds, lemma_line_len_concat, lemma_line_len_newline,
    lemma_line_len_no_newline, line_end, line_len, push_range, to_chars, to_string,
};

verus! {

/// The smaller of two optional numbers, where an absent one does not count.
pub open spec fn opt_min(a: Option<nat>, b: Option<nat>) -> Option<nat> {
    match (a, b) {
        (None, _) => b,
        (_, None) => a,
        (Some(x), Some(y)) => if x <= y {
            a
        } else {
            b
        },
    }
}

/// Whether `line` holds nothing but white space.
pub open spec fn is_blank(line: Seq<char>) -> bool {
    leading_white_space(line) == line.len()
}

/// The indentation of `line`: the number of white-space characters it starts
/// with. A blank line has none to speak of.
pub open spec fn line_indent(line: Seq<char>) -> Option<nat> {
    if is_blank(line) {
        None
    } else {
        Some(leading_white_space(line))
    }
}

/// The smallest indentation among the lines of `s` that are not blank.
pub open spec fn min_indent(s: Seq<char>) -> Option<nat>
    decreases s.len(),
    via min_indent_decreases
{
    if s.len() == 0 {
        None
    } else {
        let n = line_len(s) as int;
        opt_min(line_indent(s.take(n)), min_indent(s.skip(n)))
    }
}

#[via_fn]
proof fn min_indent_decreases(s: Seq<char>) {
    lemma_line_len_bounds(s);
}

/// The indentation that all lines of `s` share: zero where every line is blank.
pub open spec fn common_indent(s: Seq<char>) -> nat {
    match min_indent(s) {
        Some(n) => n,
        None => 0,
    }
}

/// `line` without its first `indent` characters. A line that has no more than
/// `indent` characters loses its leading spaces instead.
pub open spec fn strip_line(line: Seq<char>, indent: nat) -> Seq<char> {
    if line.len() <= indent {
        line.skip(leading_run(line, ' ') as int)
    } else {
        line.skip(indent as int)
    }
}

/// `s` with every line stripped of `indent` characters.
pub open spec fn strip_lines(s: Seq<char>, indent: nat) -> Seq<char>
    decreases s.len(),
    via strip_lines_decreases
{
    if s.len() == 0 {
        Seq::empty()
    } else {
        let n = line_len(s) as int;
        strip_line(s.take(n), indent) + strip_lines(s.skip(n), indent)
    }
}

#[via_fn]
proof fn strip_lines_decreases(s: Seq<char>, indent: nat) {
    lemma_line_len_bounds(s);
}

/// `s` without the newline that it may start with.
pub open spec fn without_leading_newline(s: Seq<char>) -> Seq<char> {
    if s.len() > 0 && s[0] == '\n' {
        s.drop_first()
    } else {
        s
    }
}

/// The normal form of a block of text: one leading newline is dropped, then
/// every line loses the indentation that the non-blank lines share.
pub open spec fn normalized(s: Seq<char>) -> Seq<char> {
    let body = without_leading_newline(s);
    strip_lines(body, common_indent(body))
}

/// Stripping nothing changes nothing.
pub proof fn lemma_strip_lines_zero(s: Seq<char>)
    ensures
        strip_lines(s, 0) == s,
    decreases s.len(),
{
    if s.len() > 0 {
        lemma_line_len_bounds(s);
        let n = line_len(s) as int;
        lemma_strip_lines_zero(s.skip(n));
        assert(s.take(n).skip(0) == s.take(n));
        assert(s.take(n) + s.skip(n) == s);
    }
}

/// What is left of a line when it is stripped of no more than its
/// indentation: a blank line stays blank, and a line that is not blank keeps
/// the rest of its indentation.
pub proof fn lemma_strip_line_indent(line: Seq<char>, indent: nat)
    requires
        line_indent(line) is Some ==> indent <= line_indent(line)->0,
    ensures
        line_indent(strip_line(line, indent)) == match line_indent(line) {
            Some(m) => Some((m - indent) as nat),
            None => None,
        },
        line_indent(line) is Some ==> strip_line(line, indent).len() > 0,
        strip_line(line, indent).len() <= line.len(),
        strip_line(line, indent) == line.skip(line.len() - strip_line(line, indent).len()),
        line.len() > 0 && line.last() == '\n' ==> strip_line(line, indent).len() > 0,
{
    lemma_leading_white_space_bounds(line);
    lemma_leading_run_bounds(line, ' ');
    let spaces = leading_run(line, ' ') as int;
    if spaces > leading_white_space(line) {
        assert(is_white_space(line[leading_white_space(line) as int])) by {
            assert(line[leading_white_space(line) as int] == ' ');
        }
    }
    if line.len() <= indent {
        lemma_leading_white_space_skip(line, spaces);
        if line.len() > 0 && line.last() == '\n' && spaces == line.len() {
            assert(line[line.len() - 1] == ' ');
        }
    } else if is_blank(line) {
        lemma_leading_white_space_skip(line, indent as int);
    } else {
        lemma_leading_white_space_skip(line, indent as int);
    }
}

/// Stripping every line of no more than the shared indentation lowers the
/// shared indentation by as much.
pub proof fn lemma_min_indent_strip(s: Seq<char>, indent: nat)
    requires
        min_indent(s) is Some ==> indent <= min_indent(s)->0,
    ensures
        min_indent(strip_lines(s, indent)) == match min_indent(s) {
            Some(m) => Some((m - indent) as nat),
            None => None,
        },
    decreases s.len(),
{
    if s.len() > 0 {
        lemma_line_len_bounds(s);
        lemma_line_len_newline(s);
        let n = line_len(s) as int;
        let line = s.take(n);
        let rest = s.skip(n);
        let a = strip_line(line, indent);
        let b = strip_lines(rest, indent);
        lemma_min_indent_strip(rest, indent);
        lemma_strip_line_indent(line, indent);
        let cut = line.len() - a.len();
        assert forall|k: int| 0 <= k < a.len() implies a[k] == s[cut + k] by {
            assert(a[k] == line.skip(cut)[k]);
        }
        if s[n - 1] == '\n' {
            assert(line.last() == '\n');
            lemma_line_len_concat(a, b);
        } else {
            assert(rest.len() == 0);
            assert(b == Seq::<char>::empty());
            assert(a + b == a);
            lemma_line_len_no_newline(a);
            if a.len() > 0 {
                assert(a.take(a.len() as int) == a);
                assert(a.skip(a.len() as int) == Seq::<char>::empty());
            }
        }
    }
}

/// The smallest indentation among the non-blank lines of `text[from..]`.
fn min_indent_from(text: &Vec<char>, from: usize) -> (best: Option<usize>)
    requires
        from <= text.len(),
    ensures
        best is Some <==> min_indent(text@.skip(from as int)) is Some,
        best is Some ==> best->0 == min_indent(text@.skip(from as int))->0,
{
    let mut best: Option<usize> = None;
    let mut i: usize = from;
    while i < text.len()
        invariant
            from <= i <= text.len(),
            opt_min(
                match best {
                    Some(b) => Some(b as nat),
                    None => None,
                },
                min_indent(text@.skip(i as int)),
            ) == min_indent(text@.skip(from as int)),
        decreases text.len() - i,
    {
        let end = line_end(text, i);
        let indent = leading_white_space_in(text, i, end);
        proof {
            let rest = text@.skip(i as int);
            lemma_line_len_bounds(rest);
            assert(rest.take(line_len(rest) as int) == text@.subrange(i as int, end as int));
            assert(rest.skip(line_len(rest) as int) == text@.skip(end as int));
        }
        if indent < end - i {
            best =
            match best {
                Some(b) => if indent < b {
                    Some(indent)
                } else {
                    Some(b)
                },
                None => Some(indent),
            };
        }
        i = end;
    }
    best
}

/// `text[from..]` with every line stripped of `indent` characters.
fn strip_indent_from(text: &Vec<char>, from: usize, indent: usize) -> (out: Vec<char>)
    requires
        from <= text.len(),
    ensures
        out@ == strip_lines(text@.skip(from as int), indent as nat),
{
    let mut out: Vec<char> = Vec::new();
    let mut i: usize = from;
    while i < text.len()
        invariant
            from <= i <= text.len(),
            out@ + strip_lines(text@.skip(i as int), indent as nat) == strip_lines(
                text@.skip(from as int),
                indent as nat,
            ),
        decreases text.len() - i,
    {
        let end = line_end(text, i);
        let start = if end - i <= indent {
            i + leading_run_in(text, i, end, ' ')
        } else {
            i + indent
        };
        proof {
            let rest = text@.skip(i as int);
            let line = text@.subrange(i as int, end as int);
            lemma_line_len_bounds(rest);
            assert(rest.take(line_len(rest) as int) == line);
            assert(rest.skip(line_len(rest) as int) == text@.skip(end as int));
            assert(strip_line(line, indent as nat) == text@.subrange(start as int, end as int));
            assert(out@ + (strip_line(line, indent as nat) + strip_lines(
                text@.skip(end as int),
                indent as nat,
            )) == (out@ + strip_line(line, indent as nat)) + strip_lines(
                text@.skip(end as int),
                indent as nat,
            ));
        }
        push_range(&mut out, text, start, end);
        i = end;
    }
    out
}

/// The normal form of `text`, on characters.
pub(crate) fn normalize_chars(text: &Vec<char>) -> (out: Vec<char>)
    ensures
        out@ == normalized(text@),
{
    let from: usize = if text.len() > 0 && text[0] == '\n' {
        1
    } else {
        0
    };
    proof {
        assert(text@.skip(from as int) == without_leading_newline(text@));
    }
    let indent = match min_indent_from(text, from) {
        Some(n) => n,
        None => 0,
    };
    strip_indent_from(text, from, indent)
}

/// Removes the indentation that the lines of `text` share, so that a block of
/// text can be written at the depth of the code around it.
///
/// A single leading newline is dropped first. The indentation of a line is
/// the white space that it starts with; blank lines have no say in what is
/// shared. A line no longer than the shared indentation loses its leading
/// spaces.
pub fn trim_indent(text: &str) -> (out: String)
    ensures
        out@ == normalized(text@),
{
    let chars = to_chars(text);
    let stripped = normalize_chars(&chars);
    to_string(&stripped, 0, stripped.len())
}

} // verus!
