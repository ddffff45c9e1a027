//! Character sequences: the model that every contract of this crate is
//! stated over, and the conversions between `str` and `Vec<char>`.

use vstd::prelude::*;

verus! {

/// `String::push` appends one character.
pub assume_specification[ String::push ](s: &mut String, ch: char)
    ensures
        final(s)@ == old(s)@.push(ch),
;

/// Whether `c` has the Unicode property White_Space.
pub open spec fn is_white_space(c: char) -> bool {
    let n = c as u32;
    ||| 0x09 <= n <= 0x0D
    ||| n == 0x20
    ||| n == 0x85
    ||| n == 0xA0
    ||| n == 0x1680
    ||| 0x2000 <= n <= 0x200A
    ||| n == 0x2028
    ||| n == 0x2029
    ||| n == 0x202F
    ||| n == 0x205F
    ||| n == 0x3000
}

/// The length of the first line of `s`, its newline included: the whole of
/// `s` where it holds no newline.
pub open spec fn line_len(s: Seq<char>) -> nat
    decreases s.len(),
{
    if s.len() == 0 {
        0
    } else if s[0] == '\n' {
        1
    } else {
        1 + line_len(s.drop_first())
    }
}

/// Whether `s` begins with `prefix`.
pub open spec fn starts_with(s: Seq<char>, prefix: Seq<char>) -> bool {
    prefix.len() <= s.len() && s.take(prefix.len() as int) == prefix
}

/// The first index at which `needle` stands in `s`.
pub open spec fn first_run(s: Seq<char>, needle: Seq<char>) -> Option<int>
    decreases s.len(),
{
    if starts_with(s, needle) {
        Some(0)
    } else if s.len() == 0 {
        None
    } else {
        match first_run(s.drop_first(), needle) {
            Some(i) => Some(i + 1),
            None => None,
        }
    }
}

/// Whether `needle` occurs in `s` as a run of consecutive characters.
pub open spec fn contains_run(s: Seq<char>, needle: Seq<char>) -> bool {
    first_run(s, needle) is Some
}

/// The number of characters at the start of `s` that are white space.
pub open spec fn leading_white_space(s: Seq<char>) -> nat
    decreases s.len(),
{
    if s.len() > 0 && is_white_space(s[0]) {
        1 + leading_white_space(s.drop_first())
    } else {
        0
    }
}

/// The number of characters at the start of `s` that are not white space.
pub open spec fn leading_word(s: Seq<char>) -> nat
    decreases s.len(),
{
    if s.len() > 0 && !is_white_space(s[0]) {
        1 + leading_word(s.drop_first())
    } else {
        0
    }
}

/// The number of characters at the start of `s` that equal `c`.
pub open spec fn leading_run(s: Seq<char>, c: char) -> nat
    decreases s.len(),
{
    if s.len() > 0 && s[0] == c {
        1 + leading_run(s.drop_first(), c)
    } else {
        0
    }
}

/// Whether `s` ends with a newline.
pub open spec fn ends_with_newline(s: Seq<char>) -> bool {
    s.len() > 0 && s.last() == '\n'
}

/// `line` without the line ending (`\n` or `\r\n`) that it may end with.
pub open spec fn chomp(line: Seq<char>) -> Seq<char> {
    if ends_with_newline(line) {
        let body = line.drop_last();
        if body.len() > 0 && body.last() == '\r' {
            body.drop_last()
        } else {
            body
        }
    } else {
        line
    }
}

/// The lines of `s`, without their line endings.
pub open spec fn text_lines(s: Seq<char>) -> Seq<Seq<char>>
    decreases s.len(),
    via text_lines_decreases
{
    if s.len() == 0 {
        Seq::empty()
    } else {
        let n = line_len(s) as int;
        seq![chomp(s.take(n))] + text_lines(s.skip(n))
    }
}

#[via_fn]
proof fn text_lines_decreases(s: Seq<char>) {
    lemma_line_len_bounds(s);
}

/// The models of `strings`, in order.
pub open spec fn strings_view(strings: Seq<String>) -> Seq<Seq<char>> {
    Seq::new(strings.len(), |i: int| strings[i]@)
}

/// The number of characters at the end of `s` that are white space.
pub open spec fn trailing_white_space(s: Seq<char>) -> nat
    decreases s.len(),
{
    if s.len() > 0 && is_white_space(s.last()) {
        1 + trailing_white_space(s.drop_last())
    } else {
        0
    }
}

/// `s` without the white space at its start and at its end.
pub open spec fn trimmed(s: Seq<char>) -> Seq<char> {
    let rest = s.skip(leading_white_space(s) as int);
    rest.take(rest.len() - trailing_white_space(rest))
}

/// The path `rel` as seen from the directory `base`: `rel` itself where it
/// starts with `/`, else `base` and `rel` with a `/` between them, unless
/// `base` is empty or ends with one.
pub open spec fn path_join(base: Seq<char>, rel: Seq<char>) -> Seq<char> {
    if rel.len() > 0 && rel[0] == '/' {
        rel
    } else if base.len() == 0 || base.last() == '/' {
        base + rel
    } else {
        base + seq!['/'] + rel
    }
}

/// Where a line ends in `text`, index by index: what is left of
/// `text[from..to]` when its line ending is taken off.
pub proof fn lemma_chomp(text: Seq<char>, from: int, to: int)
    requires
        0 <= from < to <= text.len(),
    ensures
        chomp(text.subrange(from, to)) == text.subrange(
            from,
            if text[to - 1] != '\n' {
                to
            } else if to - 1 > from && text[to - 2] == '\r' {
                to - 2
            } else {
                to - 1
            },
        ),
{
    let line = text.subrange(from, to);
    if ends_with_newline(line) {
        let body = line.drop_last();
        assert(body == text.subrange(from, to - 1));
        if body.len() > 0 && body.last() == '\r' {
            assert(body.drop_last() == text.subrange(from, to - 2));
        }
    }
}

/// `first_run` gives the least index at which `needle` stands in `s`, and
/// none where it stands nowhere.
pub proof fn lemma_first_run(s: Seq<char>, needle: Seq<char>)
    ensures
        match first_run(s, needle) {
            Some(i) => 0 <= i <= s.len() && starts_with(s.skip(i), needle) && forall|j: int|
                0 <= j < i ==> !#[trigger] starts_with(s.skip(j), needle),
            None => forall|j: int| 0 <= j <= s.len() ==> !#[trigger] starts_with(s.skip(j), needle),
        },
    decreases s.len(),
{
    assert(s.skip(0) == s);
    if !starts_with(s, needle) && s.len() > 0 {
        let rest = s.drop_first();
        lemma_first_run(rest, needle);
        assert forall|j: int| 1 <= j <= s.len() implies s.skip(j) == rest.skip(j - 1) by {
            assert(s.skip(j) =~= rest.skip(j - 1));
        }
        match first_run(rest, needle) {
            Some(i) => {
                assert(s.skip(i + 1) == rest.skip(i));
                assert forall|j: int| 0 <= j < i + 1 implies !#[trigger] starts_with(
                    s.skip(j),
                    needle,
                ) by {
                    if j > 0 {
                        assert(s.skip(j) == rest.skip(j - 1));
                    }
                }
            },
            None => {
                assert forall|j: int| 0 <= j <= s.len() implies !#[trigger] starts_with(
                    s.skip(j),
                    needle,
                ) by {
                    if j > 0 {
                        assert(s.skip(j) == rest.skip(j - 1));
                    }
                }
            },
        }
    }
}

/// The first line of a non-empty text is not empty and lies within the text.
pub proof fn lemma_line_len_bounds(s: Seq<char>)
    ensures
        line_len(s) <= s.len(),
        s.len() > 0 ==> line_len(s) >= 1,
    decreases s.len(),
{
    if s.len() > 0 && s[0] != '\n' {
        lemma_line_len_bounds(s.drop_first());
    }
}

/// No character of the first line but its last is a newline, and the line
/// ends either with a newline or with the text.
pub proof fn lemma_line_len_newline(s: Seq<char>)
    ensures
        forall|k: int| 0 <= k < line_len(s) - 1 ==> s[k] != '\n',
        line_len(s) < s.len() ==> s[line_len(s) - 1] == '\n',
        s.len() > 0 && s[line_len(s) - 1] != '\n' ==> line_len(s) == s.len(),
    decreases s.len(),
{
    lemma_line_len_bounds(s);
    if s.len() > 0 && s[0] != '\n' {
        let t = s.drop_first();
        lemma_line_len_newline(t);
        lemma_line_len_bounds(t);
        assert forall|k: int| 0 <= k < line_len(s) - 1 implies s[k] != '\n' by {
            if k > 0 {
                assert(s[k] == t[k - 1]);
            }
        }
        if t.len() > 0 {
            assert(s[line_len(s) - 1] == t[line_len(t) - 1]);
        }
    }
}

/// A text that holds no newline is a single line.
pub proof fn lemma_line_len_no_newline(s: Seq<char>)
    requires
        forall|k: int| 0 <= k < s.len() ==> s[k] != '\n',
    ensures
        line_len(s) == s.len(),
    decreases s.len(),
{
    if s.len() > 0 {
        let t = s.drop_first();
        assert forall|k: int| 0 <= k < t.len() implies t[k] != '\n' by {
            assert(t[k] == s[k + 1]);
        }
        lemma_line_len_no_newline(t);
    }
}

/// A text whose only newline is its last character stays the first line of
/// whatever it is put in front of.
pub proof fn lemma_line_len_concat(a: Seq<char>, b: Seq<char>)
    requires
        a.len() > 0,
        a.last() == '\n',
        forall|k: int| 0 <= k < a.len() - 1 ==> a[k] != '\n',
    ensures
        line_len(a + b) == a.len(),
        (a + b).take(a.len() as int) == a,
        (a + b).skip(a.len() as int) == b,
    decreases a.len(),
{
    let s = a + b;
    assert(s[0] == a[0]);
    if a.len() > 1 {
        let t = a.drop_first();
        assert forall|k: int| 0 <= k < t.len() - 1 implies t[k] != '\n' by {
            assert(t[k] == a[k + 1]);
        }
        lemma_line_len_concat(t, b);
        assert(s.drop_first() == t + b);
    }
    assert(s.take(a.len() as int) == a);
    assert(s.skip(a.len() as int) == b);
}

/// The white space that a text starts with is counted on, index by index.
pub proof fn lemma_leading_white_space_skip(s: Seq<char>, j: int)
    requires
        0 <= j <= leading_white_space(s),
    ensures
        leading_white_space(s.skip(j)) == leading_white_space(s) - j,
    decreases j,
{
    if j == 0 {
        assert(s.skip(0) == s);
    } else {
        lemma_leading_white_space_bounds(s);
        lemma_leading_white_space_skip(s.drop_first(), j - 1);
        assert(s.drop_first().skip(j - 1) == s.skip(j));
    }
}

/// The white space that a text starts with lies within the text, is white
/// space throughout, and ends before a character that is not.
pub proof fn lemma_leading_white_space_bounds(s: Seq<char>)
    ensures
        leading_white_space(s) <= s.len(),
        forall|k: int| 0 <= k < leading_white_space(s) ==> is_white_space(#[trigger] s[k]),
        leading_white_space(s) < s.len() ==> !is_white_space(s[leading_white_space(s) as int]),
    decreases s.len(),
{
    if s.len() > 0 && is_white_space(s[0]) {
        let t = s.drop_first();
        lemma_leading_white_space_bounds(t);
        assert forall|k: int| 0 <= k < leading_white_space(s) implies is_white_space(
            #[trigger] s[k],
        ) by {
            if k > 0 {
                assert(s[k] == t[k - 1]);
            }
        }
    }
}

/// The word that a text starts with lies within the text and holds no white
/// space.
pub proof fn lemma_leading_word_bounds(s: Seq<char>)
    ensures
        leading_word(s) <= s.len(),
        forall|k: int| 0 <= k < leading_word(s) ==> !is_white_space(#[trigger] s[k]),
    decreases s.len(),
{
    if s.len() > 0 && !is_white_space(s[0]) {
        let t = s.drop_first();
        lemma_leading_word_bounds(t);
        assert forall|k: int| 0 <= k < leading_word(s) implies !is_white_space(
            #[trigger] s[k],
        ) by {
            if k > 0 {
                assert(s[k] == t[k - 1]);
            }
        }
    }
}

/// The run of one character that a text starts with lies within the text,
/// holds that character throughout, and ends before another.
pub proof fn lemma_leading_run_bounds(s: Seq<char>, c: char)
    ensures
        leading_run(s, c) <= s.len(),
        forall|k: int| 0 <= k < leading_run(s, c) ==> #[trigger] s[k] == c,
        leading_run(s, c) < s.len() ==> s[leading_run(s, c) as int] != c,
    decreases s.len(),
{
    if s.len() > 0 && s[0] == c {
        let t = s.drop_first();
        lemma_leading_run_bounds(t, c);
        assert forall|k: int| 0 <= k < leading_run(s, c) implies #[trigger] s[k] == c by {
            if k > 0 {
                assert(s[k] == t[k - 1]);
            }
        }
    }
}

/// Whether `c` is white space.
pub(crate) fn is_whitespace(c: char) -> (b: bool)
    ensures
        b == is_white_space(c),
{
    let n: u32 = c as u32;
    (0x09 <= n && n <= 0x0D) || n == 0x20 || n == 0x85 || n == 0xA0 || n == 0x1680 || (0x2000 <= n
        && n <= 0x200A) || n == 0x2028 || n == 0x2029 || n == 0x202F || n == 0x205F || n == 0x3000
}

/// The characters of `s`, in order.
pub(crate) fn to_chars(s: &str) -> (chars: Vec<char>)
    ensures
        chars@ == s@,
{
    let mut chars: Vec<char> = Vec::new();
    for c in it: s.chars()
        invariant
            chars@ == it.seq().take(it.index() as int),
            it.seq() == s@,
    {
        chars.push(c);
    }
    chars
}

/// Appends the characters of `s` to `out`.
pub(crate) fn push_str(out: &mut Vec<char>, s: &str)
    ensures
        final(out)@ == old(out)@ + s@,
{
    for c in it: s.chars()
        invariant
            out@ == old(out)@ + it.seq().take(it.index() as int),
            it.seq() == s@,
    {
        out.push(c);
    }
}

/// The string made of the characters of `chars` from `from` up to `to`.
pub(crate) fn to_string(chars: &Vec<char>, from: usize, to: usize) -> (s: String)
    requires
        from <= to <= chars.len(),
    ensures
        s@ == chars@.subrange(from as int, to as int),
{
    let mut s = String::new();
    let mut i: usize = from;
    while i < to
        invariant
            from <= i <= to <= chars.len(),
            s@ == chars@.subrange(from as int, i as int),
        decreases to - i,
    {
        s.push(chars[i]);
        i += 1;
    }
    s
}

/// The number of white-space characters at the start of `text[from..to]`.
pub(crate) fn leading_white_space_in(text: &Vec<char>, from: usize, to: usize) -> (n: usize)
    requires
        from <= to <= text.len(),
    ensures
        n == leading_white_space(text@.subrange(from as int, to as int)),
        n <= to - from,
{
    let mut k: usize = from;
    while k < to && is_whitespace(text[k])
        invariant
            from <= k <= to <= text.len(),
            leading_white_space(text@.subrange(from as int, to as int)) == (k - from)
                + leading_white_space(text@.subrange(k as int, to as int)),
        decreases to - k,
    {
        proof {
            assert(text@.subrange(k as int, to as int).drop_first() == text@.subrange(
                k + 1,
                to as int,
            ));
        }
        k += 1;
    }
    k - from
}

/// The number of characters equal to `c` at the start of `text[from..to]`.
pub(crate) fn leading_run_in(text: &Vec<char>, from: usize, to: usize, c: char) -> (n: usize)
    requires
        from <= to <= text.len(),
    ensures
        n == leading_run(text@.subrange(from as int, to as int), c),
        n <= to - from,
{
    let mut k: usize = from;
    while k < to && text[k] == c
        invariant
            from <= k <= to <= text.len(),
            leading_run(text@.subrange(from as int, to as int), c) == (k - from) + leading_run(
                text@.subrange(k as int, to as int),
                c,
            ),
        decreases to - k,
    {
        proof {
            assert(text@.subrange(k as int, to as int).drop_first() == text@.subrange(
                k + 1,
                to as int,
            ));
        }
        k += 1;
    }
    k - from
}

/// The number of characters that are not white space at the start of
/// `text[from..to]`.
pub(crate) fn leading_word_in(text: &Vec<char>, from: usize, to: usize) -> (n: usize)
    requires
        from <= to <= text.len(),
    ensures
        n == leading_word(text@.subrange(from as int, to as int)),
        n <= to - from,
{
    let mut k: usize = from;
    while k < to && !is_whitespace(text[k])
        invariant
            from <= k <= to <= text.len(),
            leading_word(text@.subrange(from as int, to as int)) == (k - from) + leading_word(
                text@.subrange(k as int, to as int),
            ),
        decreases to - k,
    {
        proof {
            assert(text@.subrange(k as int, to as int).drop_first() == text@.subrange(
                k + 1,
                to as int,
            ));
        }
        k += 1;
    }
    k - from
}

/// Appends `text[from..to]` to `out`.
pub(crate) fn push_range(out: &mut Vec<char>, text: &Vec<char>, from: usize, to: usize)
    requires
        from <= to <= text.len(),
    ensures
        final(out)@ == old(out)@ + text@.subrange(from as int, to as int),
{
    let mut k: usize = from;
    while k < to
        invariant
            from <= k <= to <= text.len(),
            out@ == old(out)@ + text@.subrange(from as int, k as int),
        decreases to - k,
    {
        out.push(text[k]);
        k += 1;
    }
}

/// Whether `pattern` stands in `text` at index `at`.
pub(crate) fn has_prefix_at(text: &Vec<char>, at: usize, pattern: &Vec<char>) -> (b: bool)
    requires
        at <= text.len(),
    ensures
        b == starts_with(text@.skip(at as int), pattern@),
{
    if pattern.len() > text.len() - at {
        return false;
    }
    let mut k: usize = 0;
    while k < pattern.len()
        invariant
            k <= pattern.len() <= text.len() - at,
            text@.subrange(at as int, at + k) == pattern@.take(k as int),
        decreases pattern.len() - k,
    {
        if text[at + k] != pattern[k] {
            proof {
                let whole = text@.skip(at as int).take(pattern.len() as int);
                assert(whole[k as int] == text[at + k]);
            }
            return false;
        }
        proof {
            assert(text@.subrange(at as int, at + k + 1) == text@.subrange(at as int, at + k).push(
                text[at + k],
            ));
            assert(pattern@.take(k + 1) == pattern@.take(k as int).push(pattern[k as int]));
        }
        k += 1;
    }
    proof {
        assert(text@.skip(at as int).take(pattern.len() as int) == text@.subrange(
            at as int,
            at + pattern.len(),
        ));
        assert(pattern@.take(pattern.len() as int) == pattern@);
    }
    true
}

/// The first index from `from` on at which `pattern` stands in `text`.
pub(crate) fn find_run(text: &Vec<char>, from: usize, pattern: &Vec<char>) -> (found: Option<usize>)
    requires
        from <= text.len(),
    ensures
        match found {
            Some(i) => from <= i <= text.len() && first_run(text@.skip(from as int), pattern@)
                == Some(i - from),
            None => first_run(text@.skip(from as int), pattern@) is None,
        },
{
    let mut i: usize = from;
    loop
        invariant
            from <= i <= text.len(),
            first_run(text@.skip(from as int), pattern@) == match first_run(
                text@.skip(i as int),
                pattern@,
            ) {
                Some(k) => Some(k + (i - from)),
                None => None,
            },
        decreases text.len() - i,
    {
        if has_prefix_at(text, i, pattern) {
            return Some(i);
        }
        if i == text.len() {
            return None;
        }
        proof {
            assert(text@.skip(i as int).drop_first() == text@.skip(i + 1));
        }
        i += 1;
    }
}

/// The index just past the line of `text` that starts at `from`.
pub(crate) fn line_end(text: &Vec<char>, from: usize) -> (end: usize)
    requires
        from <= text.len(),
    ensures
        end == from + line_len(text@.skip(from as int)),
        from <= end <= text.len(),
{
    let mut i: usize = from;
    while i < text.len() && text[i] != '\n'
        invariant
            from <= i <= text.len(),
            line_len(text@.skip(from as int)) == (i - from) + line_len(text@.skip(i as int)),
        decreases text.len() - i,
    {
        proof {
            assert(text@.skip(i as int).drop_first() == text@.skip(i + 1));
        }
        i += 1;
    }
    if i < text.len() {
        i += 1;
    }
    i
}

/// The lines of `text`, without their line endings.
pub fn lines_of(text: &str) -> (lines: Vec<String>)
    ensures
        strings_view(lines@) == text_lines(text@),
{
    let text = to_chars(text);
    let mut lines: Vec<String> = Vec::new();
    let mut i: usize = 0;
    proof {
        assert(text@.skip(0) == text@);
        assert(strings_view(lines@) == Seq::<Seq<char>>::empty());
    }
    while i < text.len()
        invariant
            i <= text.len(),
            strings_view(lines@) + text_lines(text@.skip(i as int)) == text_lines(text@),
        decreases text.len() - i,
    {
        let end = line_end(&text, i);
        let mut stop = end;
        proof {
            let rest = text@.skip(i as int);
            lemma_line_len_bounds(rest);
            assert(rest.take(line_len(rest) as int) == text@.subrange(i as int, end as int));
            assert(rest.skip(line_len(rest) as int) == text@.skip(end as int));
        }
        if text[stop - 1] == '\n' {
            stop -= 1;
            if stop > i && text[stop - 1] == '\r' {
                stop -= 1;
            }
        }
        let line = to_string(&text, i, stop);
        proof {
            lemma_chomp(text@, i as int, end as int);
            let before = strings_view(lines@);
            assert(strings_view(lines@.push(line)) == before.push(line@));
            assert(before.push(line@) + text_lines(text@.skip(end as int)) == before + (seq![line@]
                + text_lines(text@.skip(end as int))));
        }
        lines.push(line);
        i = end;
    }
    proof {
        assert(strings_view(lines@) + Seq::<Seq<char>>::empty() == strings_view(lines@));
    }
    lines
}

/// `text` without the white space at its start and at its end.
pub fn trim(text: &str) -> (out: String)
    ensures
        out@ == trimmed(text@),
{
    let text = to_chars(text);
    let from = leading_white_space_in(&text, 0, text.len());
    let mut to: usize = text.len();
    proof {
        assert(text@.subrange(0, text.len() as int) == text@);
        assert(text@.skip(from as int) == text@.subrange(from as int, to as int));
    }
    while to > from && is_whitespace(text[to - 1])
        invariant
            from <= to <= text.len(),
            trailing_white_space(text@.skip(from as int)) == (text.len() - to)
                + trailing_white_space(text@.subrange(from as int, to as int)),
        decreases to,
    {
        proof {
            assert(text@.subrange(from as int, to as int).drop_last() == text@.subrange(
                from as int,
                to - 1,
            ));
        }
        to -= 1;
    }
    proof {
        let rest = text@.skip(from as int);
        assert(rest.take(rest.len() - trailing_white_space(rest)) == text@.subrange(
            from as int,
            to as int,
        ));
    }
    to_string(&text, from, to)
}

/// The path `rel` as seen from the directory `base`.
pub fn join_path(base: &str, rel: &str) -> (out: String)
    ensures
        out@ == path_join(base@, rel@),
{
    let rel_chars = to_chars(rel);
    if rel_chars.len() > 0 && rel_chars[0] == '/' {
        return rel.to_owned();
    }
    let mut out = to_chars(base);
    if out.len() > 0 && out[out.len() - 1] != '/' {
        out.push('/');
    }
    push_range(&mut out, &rel_chars, 0, rel_chars.len());
    proof {
        assert(rel_chars@.subrange(0, rel_chars.len() as int) == rel@);
        assert(out@.subrange(0, out.len() as int) == out@);
    }
    to_string(&out, 0, out.len())
}

} // verus!
