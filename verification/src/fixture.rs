//! Fixtures and the text form they are parsed from.

use vstd::prelude::*;
use crate::indent::{normalize_chars, normalized};
use crate::text::{
    contains_run, find_run, first_run, has_prefix_at, leading_white_space, lemma_first_run,
    leading_white_space_in, leading_word, leading_word_in, lemma_line_len_bounds,
    lemma_line_len_newline, line_end, line_len, starts_with, to_chars, to_string,
};

verus! {

/// What a file of a fixture holds: the model of a [`FixtureFile`].
pub struct FileSpec {
    pub path: Seq<char>,
    pub text: Seq<char>,
}

/// One file of a fixture.
#[derive(Clone, Debug, PartialEq, Eq)]
pub struct FixtureFile {
    /// Where the file lies below the fixture's root, with a leading `/`.
    pub path: String,
    /// What the file holds.
    pub text: String,
}

impl View for FixtureFile {
    type V = FileSpec;

    open spec fn view(&self) -> FileSpec {
        FileSpec { path: self.path@, text: self.text@ }
    }
}

/// The models of `files`, in order.
pub open spec fn files_view(files: Seq<FixtureFile>) -> Seq<FileSpec> {
    Seq::new(files.len(), |i: int| files[i]@)
}

/// An ordered list of files. The order is the order of the source text, and
/// rendering keeps it.
#[derive(Clone, Debug, PartialEq, Eq)]
pub struct Fixture {
    pub files: Vec<FixtureFile>,
}

impl View for Fixture {
    type V = Seq<FileSpec>;

    open spec fn view(&self) -> Seq<FileSpec> {
        files_view(self.files@)
    }
}

impl Default for Fixture {
    fn default() -> (fixture: Fixture)
        ensures
            fixture@ == Seq::<FileSpec>::empty(),
    {
        Fixture { files: Vec::new() }
    }
}

/// Why a fixture text is refused: the model of a [`ParseError`].
pub enum ParseFailure {
    MissingPath,
    RelativePath(Seq<char>),
    MissingSeparator,
    RepeatedSeparator,
}

/// Why a fixture text is refused.
#[derive(Clone, Debug, PartialEq, Eq)]
pub enum ParseError {
    /// A marker line names no path.
    MissingPath,
    /// The path that a marker line names does not start with `/`.
    RelativePath(String),
    /// A before/after text holds no separator line.
    MissingSeparator,
    /// A before/after text holds more than one separator line.
    RepeatedSeparator,
}

impl View for ParseError {
    type V = ParseFailure;

    open spec fn view(&self) -> ParseFailure {
        match self {
            ParseError::MissingPath => ParseFailure::MissingPath,
            ParseError::RelativePath(path) => ParseFailure::RelativePath(path@),
            ParseError::MissingSeparator => ParseFailure::MissingSeparator,
            ParseError::RepeatedSeparator => ParseFailure::RepeatedSeparator,
        }
    }
}

/// The token that opens a file's section when a line starts with it.
pub open spec fn marker() -> Seq<char> {
    seq!['/', '/', '-']
}

/// The path that the marker line `line` names: the first run of characters
/// after the marker that are not white space.
pub open spec fn marker_path(line: Seq<char>) -> Seq<char> {
    let rest = line.skip(3);
    let word = rest.skip(leading_white_space(rest) as int);
    word.take(leading_word(word) as int)
}

/// The length of a section's body: the lines at the start of `s` up to the
/// next marker line, or to the end.
pub open spec fn body_len(s: Seq<char>) -> nat
    decreases s.len(),
    via body_len_decreases
{
    if s.len() == 0 || starts_with(s, marker()) {
        0
    } else {
        let n = line_len(s);
        n + body_len(s.skip(n as int))
    }
}

#[via_fn]
proof fn body_len_decreases(s: Seq<char>) {
    lemma_line_len_bounds(s);
}

/// The files of a text that holds markers. Each marker line opens a file,
/// whose text is every line up to the next marker line; lines before the
/// first marker belong to no file. The first marker line without a path, or
/// with one that does not start with `/`, is the error.
pub open spec fn parse_sections(s: Seq<char>) -> Result<Seq<FileSpec>, ParseFailure>
    decreases s.len(),
    via parse_sections_decreases
{
    if s.len() == 0 {
        Ok(Seq::empty())
    } else {
        let n = line_len(s) as int;
        let rest = s.skip(n);
        if !starts_with(s, marker()) {
            parse_sections(rest)
        } else {
            let path = marker_path(s.take(n));
            if path.len() == 0 {
                Err(ParseFailure::MissingPath)
            } else if path[0] != '/' {
                Err(ParseFailure::RelativePath(path))
            } else {
                let m = body_len(rest) as int;
                match parse_sections(rest.skip(m)) {
                    Ok(files) => Ok(seq![FileSpec { path, text: rest.take(m) }] + files),
                    Err(e) => Err(e),
                }
            }
        }
    }
}

#[via_fn]
proof fn parse_sections_decreases(s: Seq<char>) {
    lemma_line_len_bounds(s);
    lemma_body_len_bounds(s.skip(line_len(s) as int));
}

/// What a fixture text stands for. The text is normalized first. Without a
/// marker anywhere it is a single file at `default_path`.
pub open spec fn parsed(s: Seq<char>, default_path: Seq<char>) -> Result<
    Seq<FileSpec>,
    ParseFailure,
> {
    let text = normalized(s);
    if contains_run(text, marker()) {
        parse_sections(text)
    } else {
        Ok(seq![FileSpec { path: default_path, text }])
    }
}

/// The path of the file that a text without markers stands for.
pub open spec fn main_path() -> Seq<char> {
    "/main.rs"@
}

/// The line that parts the two halves of a before/after text, with the
/// newline that ends the line before it.
pub open spec fn separator() -> Seq<char> {
    seq!['\n', '=', '>', '\n']
}

/// The two halves of a before/after text: the normalized text before its
/// separator line and after it. There must be one separator and no second
/// one after it.
pub open spec fn halves(s: Seq<char>) -> Result<(Seq<char>, Seq<char>), ParseFailure> {
    let text = normalized(s);
    match first_run(text, separator()) {
        None => Err(ParseFailure::MissingSeparator),
        Some(i) => {
            let after = text.skip(i + separator().len());
            if contains_run(after, separator()) {
                Err(ParseFailure::RepeatedSeparator)
            } else {
                Ok((text.take(i), after))
            }
        },
    }
}

/// What a before/after text stands for: each half parsed as a fixture text
/// of its own. An error in the first half comes before one in the second.
pub open spec fn parsed_before_after(s: Seq<char>) -> Result<
    (Seq<FileSpec>, Seq<FileSpec>),
    ParseFailure,
> {
    match halves(s) {
        Err(e) => Err(e),
        Ok((first, second)) => match parsed(first, main_path()) {
            Err(e) => Err(e),
            Ok(before) => match parsed(second, main_path()) {
                Err(e) => Err(e),
                Ok(after) => Ok((before, after)),
            },
        },
    }
}

/// The index of the first of `files` that lies at `path`.
pub open spec fn find_file(files: Seq<FileSpec>, path: Seq<char>) -> Option<int>
    decreases files.len(),
{
    if files.len() == 0 {
        None
    } else if files[0].path == path {
        Some(0)
    } else {
        match find_file(files.drop_first(), path) {
            Some(i) => Some(i + 1),
            None => None,
        }
    }
}

/// `find_file` gives the least index of a file at `path`, and none where no
/// file lies there.
pub proof fn lemma_find_file(files: Seq<FileSpec>, path: Seq<char>)
    ensures
        match find_file(files, path) {
            Some(i) => 0 <= i < files.len() && files[i].path == path && forall|j: int|
                0 <= j < i ==> (#[trigger] files[j]).path != path,
            None => forall|j: int| 0 <= j < files.len() ==> (#[trigger] files[j]).path != path,
        },
    decreases files.len(),
{
    if files.len() > 0 && files[0].path != path {
        let rest = files.drop_first();
        lemma_find_file(rest, path);
        match find_file(rest, path) {
            Some(i) => {
                assert forall|j: int| 0 <= j < i + 1 implies (#[trigger] files[j]).path != path by {
                    if j > 0 {
                        assert(files[j] == rest[j - 1]);
                    }
                }
            },
            None => {
                assert forall|j: int| 0 <= j < files.len() implies (#[trigger] files[j]).path
                    != path by {
                    if j > 0 {
                        assert(files[j] == rest[j - 1]);
                    }
                }
            },
        }
    }
}

pub proof fn lemma_body_len_bounds(s: Seq<char>)
    ensures
        body_len(s) <= s.len(),
        body_len(s) < s.len() ==> starts_with(s.skip(body_len(s) as int), marker()),
    decreases s.len(),
{
    if !(s.len() == 0 || starts_with(s, marker())) {
        lemma_line_len_bounds(s);
        let n = line_len(s) as int;
        lemma_body_len_bounds(s.skip(n));
        assert(s.skip(n).skip(body_len(s.skip(n)) as int) == s.skip(body_len(s) as int));
    } else {
        assert(s.skip(0) == s);
    }
}

/// A line that starts with the marker has at least the marker's length.
pub proof fn lemma_marker_line_len(s: Seq<char>)
    requires
        starts_with(s, marker()),
    ensures
        line_len(s) >= 3,
{
    lemma_line_len_newline(s);
    lemma_line_len_bounds(s);
    let m = s.take(3);
    assert(m[0] == s[0] && m[1] == s[1] && m[2] == s[2]);
}

fn marker_chars() -> (m: Vec<char>)
    ensures
        m@ == marker(),
{
    let m = vec!['/', '/', '-'];
    assert(m@ =~= marker());
    m
}

/// The index just past the body that starts at `from`.
fn body_end(text: &Vec<char>, from: usize, marker: &Vec<char>) -> (end: usize)
    requires
        from <= text.len(),
        marker@ == self::marker(),
    ensures
        end == from + body_len(text@.skip(from as int)),
        from <= end <= text.len(),
{
    let mut i: usize = from;
    while i < text.len() && !has_prefix_at(text, i, marker)
        invariant
            from <= i <= text.len(),
            marker@ == self::marker(),
            body_len(text@.skip(from as int)) == (i - from) + body_len(text@.skip(i as int)),
        decreases text.len() - i,
    {
        let end = line_end(text, i);
        proof {
            let rest = text@.skip(i as int);
            lemma_line_len_bounds(rest);
            assert(rest.skip(line_len(rest) as int) == text@.skip(end as int));
        }
        i = end;
    }
    i
}

/// The files of `text`, which holds markers.
fn parse_marked(text: &Vec<char>) -> (r: Result<Fixture, ParseError>)
    ensures
        match r {
            Ok(fixture) => parse_sections(text@) == Ok::<Seq<FileSpec>, ParseFailure>(fixture@),
            Err(e) => parse_sections(text@) == Err::<Seq<FileSpec>, ParseFailure>(e@),
        },
{
    let marker = marker_chars();
    let mut files: Vec<FixtureFile> = Vec::new();
    let mut i: usize = 0;
    proof {
        assert(text@.skip(0) == text@);
    }
    while i < text.len()
        invariant
            i <= text.len(),
            marker@ == self::marker(),
            match parse_sections(text@.skip(i as int)) {
                Ok(rest) => parse_sections(text@) == Ok::<Seq<FileSpec>, ParseFailure>(
                    files_view(files@) + rest,
                ),
                Err(e) => parse_sections(text@) == Err::<Seq<FileSpec>, ParseFailure>(e),
            },
        decreases text.len() - i,
    {
        let end = line_end(text, i);
        proof {
            let s = text@.skip(i as int);
            lemma_line_len_bounds(s);
            assert(s.skip(line_len(s) as int) == text@.skip(end as int));
            assert(s.take(line_len(s) as int) == text@.subrange(i as int, end as int));
        }
        if has_prefix_at(text, i, &marker) {
            proof {
                lemma_marker_line_len(text@.skip(i as int));
            }
            let word = i + 3 + leading_white_space_in(text, i + 3, end);
            let word_end = word + leading_word_in(text, word, end);
            proof {
                let line = text@.subrange(i as int, end as int);
                let rest = line.skip(3);
                assert(rest == text@.subrange(i + 3, end as int));
                assert(rest.skip(leading_white_space(rest) as int) == text@.subrange(
                    word as int,
                    end as int,
                ));
                assert(marker_path(line) == text@.subrange(word as int, word_end as int));
            }
            if word_end == word {
                return Err(ParseError::MissingPath);
            }
            if text[word] != '/' {
                return Err(ParseError::RelativePath(to_string(text, word, word_end)));
            }
            let stop = body_end(text, end, &marker);
            let file = FixtureFile {
                path: to_string(text, word, word_end),
                text: to_string(text, end, stop),
            };
            proof {
                let rest = text@.skip(end as int);
                let m = body_len(rest) as int;
                assert(rest.take(m) == text@.subrange(end as int, stop as int));
                assert(rest.skip(m) == text@.skip(stop as int));
                assert(files_view(files@.push(file)) == files_view(files@).push(file@));
                match parse_sections(text@.skip(stop as int)) {
                    Ok(tail) => {
                        assert(files_view(files@) + (seq![file@] + tail) == files_view(
                            files@,
                        ).push(file@) + tail);
                    },
                    Err(_) => {},
                }
            }
            files.push(file);
            i = stop;
        } else {
            i = end;
        }
    }
    proof {
        assert(files_view(files@) + Seq::<FileSpec>::empty() == files_view(files@));
    }
    Ok(Fixture { files })
}

impl Fixture {
    /// Parses a fixture text. A text without markers is the single file
    /// `/main.rs`.
    pub fn parse(fixture: &str) -> (r: Result<Fixture, ParseError>)
        ensures
            match r {
                Ok(f) => parsed(fixture@, main_path()) == Ok::<Seq<FileSpec>, ParseFailure>(f@),
                Err(e) => parsed(fixture@, main_path()) == Err::<Seq<FileSpec>, ParseFailure>(e@),
            },
    {
        Fixture::parse_with_default_path(fixture, "/main.rs")
    }

    /// Parses a fixture text. Its indentation is removed first. A text without
    /// markers is a single file at `default_path`; in one with markers each
    /// line `//- /path` opens a file that holds the lines up to the next
    /// marker line.
    pub fn parse_with_default_path(fixture: &str, default_path: &str) -> (r: Result<
        Fixture,
        ParseError,
    >)
        ensures
            match r {
                Ok(f) => parsed(fixture@, default_path@) == Ok::<Seq<FileSpec>, ParseFailure>(f@),
                Err(e) => parsed(fixture@, default_path@) == Err::<Seq<FileSpec>, ParseFailure>(
                    e@,
                ),
            },
    {
        let chars = to_chars(fixture);
        let text = normalize_chars(&chars);
        let marker = marker_chars();
        proof {
            assert(text@.skip(0) == text@);
        }
        match find_run(&text, 0, &marker) {
            Some(_) => parse_marked(&text),
            None => {
                let file = FixtureFile {
                    path: default_path.to_owned(),
                    text: to_string(&text, 0, text.len()),
                };
                let mut files: Vec<FixtureFile> = Vec::new();
                files.push(file);
                proof {
                    assert(text@.subrange(0, text.len() as int) == text@);
                    assert(files_view(files@) == seq![file@]);
                }
                Ok(Fixture { files })
            },
        }
    }

    /// The index of the first file at `path`.
    fn position(&self, path: &str) -> (found: Option<usize>)
        ensures
            match found {
                Some(i) => i < self.files.len() && find_file(self@, path@) == Some(i as int),
                None => find_file(self@, path@) is None,
            },
    {
        let wanted = path.to_owned();
        let mut i: usize = 0;
        proof {
            assert(self@.skip(0) == self@);
        }
        while i < self.files.len()
            invariant
                i <= self.files.len(),
                wanted@ == path@,
                find_file(self@, path@) == match find_file(self@.skip(i as int), path@) {
                    Some(k) => Some(k + i),
                    None => None,
                },
            decreases self.files.len() - i,
        {
            proof {
                assert(self@.skip(i as int)[0] == self.files[i as int]@);
                assert(self@.skip(i as int).drop_first() == self@.skip(i + 1));
            }
            if self.files[i].path == wanted {
                return Some(i);
            }
            i += 1;
        }
        None
    }

    /// The first file at `path`.
    pub fn file(&self, path: &str) -> (found: Option<&FixtureFile>)
        ensures
            match found {
                Some(file) => find_file(self@, path@) is Some && *file == self.files[find_file(
                    self@,
                    path@,
                )->0],
                None => find_file(self@, path@) is None,
            },
    {
        match self.position(path) {
            Some(i) => Some(&self.files[i]),
            None => None,
        }
    }

    /// The first file at `path`, to be changed in place. No other file is
    /// touched.
    pub fn file_mut(&mut self, path: &str) -> (found: Option<&mut FixtureFile>)
        ensures
            match found {
                Some(file) => {
                    let i = find_file(old(self)@, path@);
                    &&& i is Some
                    &&& *file == old(self).files[i->0]
                    &&& final(self).files@ == old(self).files@.update(i->0, *final(file))
                },
                None => find_file(old(self)@, path@) is None && *final(self) == *old(self),
            },
    {
        match self.position(path) {
            Some(i) => Some(&mut self.files[i]),
            None => None,
        }
    }

    /// The only file of a fixture that has one file.
    pub fn single_file(&self) -> (file: &FixtureFile)
        requires
            self.files.len() == 1,
        ensures
            *file == self.files[0],
    {
        &self.files[0]
    }

    /// Whether some file lies at `path`.
    pub fn contains(&self, path: &str) -> (b: bool)
        ensures
            b == exists|i: int| 0 <= i < self@.len() && (#[trigger] self@[i]).path == path@,
    {
        proof {
            lemma_find_file(self@, path@);
        }
        self.position(path).is_some()
    }
}

fn separator_chars() -> (m: Vec<char>)
    ensures
        m@ == separator(),
{
    let m = vec!['\n', '=', '>', '\n'];
    assert(m@ =~= separator());
    m
}

/// Parses a text that holds two fixtures, parted by a line `=>`: the state
/// before a change and the state after it. The indentation of the whole text
/// is removed first; each half is then parsed as a fixture text of its own.
pub fn parse_before_after(fixture: &str) -> (r: Result<(Fixture, Fixture), ParseError>)
    ensures
        match r {
            Ok((before, after)) => parsed_before_after(fixture@) == Ok::<
                (Seq<FileSpec>, Seq<FileSpec>),
                ParseFailure,
            >((before@, after@)),
            Err(e) => parsed_before_after(fixture@) == Err::<
                (Seq<FileSpec>, Seq<FileSpec>),
                ParseFailure,
            >(e@),
        },
{
    let chars = to_chars(fixture);
    let text = normalize_chars(&chars);
    let separator = separator_chars();
    proof {
        assert(text@.skip(0) == text@);
    }
    let at = match find_run(&text, 0, &separator) {
        Some(at) => at,
        None => {
            return Err(ParseError::MissingSeparator);
        },
    };
    proof {
        assert(starts_with(text@.skip(at as int), self::separator())) by {
            lemma_first_run(text@, self::separator());
        }
    }
    let resume = at + 4;
    if find_run(&text, resume, &separator).is_some() {
        return Err(ParseError::RepeatedSeparator);
    }
    let first = to_string(&text, 0, at);
    let second = to_string(&text, resume, text.len());
    proof {
        assert(text@.subrange(0, at as int) == text@.take(at as int));
        assert(text@.subrange(resume as int, text.len() as int) == text@.skip(resume as int));
    }
    let before = Fixture::parse(first.as_str())?;
    let after = Fixture::parse(second.as_str())?;
    Ok((before, after))
}

} // verus!
