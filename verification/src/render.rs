//! Rendering: a fixture written back as text, with the options that make the
//! text fit for comparison.

use vstd::prelude::*;
use vstd::slice::slice_to_vec;
use crate::fixture::{files_view, marker, FileSpec, Fixture, FixtureFile};
use crate::pattern::{compiles, is_match, regex_accepts, regex_matches, regex_replaced, replace_all};
use crate::text::{
    ends_with_newline, lemma_chomp, lemma_line_len_bounds, line_end, line_len, push_range,
    push_str, text_lines, to_chars, to_string,
};

verus! {

/// A path filter: the model of one pattern given to [`FixtureRenderer::regex`].
pub struct PatternSpec {
    pub pattern: Seq<char>,
    pub exclude: bool,
}

/// How a fixture is to be rendered: the model of a [`FixtureRenderer`].
pub struct RenderSpec {
    pub files: Seq<FileSpec>,
    pub normalize_hashes: bool,
    pub redact: Seq<usize>,
    pub message: Seq<char>,
    pub patterns: Seq<PatternSpec>,
    pub show_paths: bool,
}

/// What became of one pattern on one path: whether the pattern excludes, and
/// whether it matched.
#[derive(Clone, Copy, Debug, PartialEq, Eq, Structural)]
pub struct PatternHit {
    pub exclude: bool,
    pub matched: bool,
}

/// Whether a path is rendered, given how each pattern fared on it. Without
/// patterns it is. With patterns, no excluding one may have matched; and
/// where there are including ones, one of them must have matched.
pub open spec fn admitted(hits: Seq<PatternHit>) -> bool {
    hits.len() == 0 || {
        &&& forall|i: int| 0 <= i < hits.len() ==> !((#[trigger] hits[i]).exclude && hits[i].matched)
        &&& {
            ||| forall|i: int| 0 <= i < hits.len() ==> (#[trigger] hits[i]).exclude
            ||| exists|i: int| 0 <= i < hits.len() && !(#[trigger] hits[i]).exclude && hits[i].matched
        }
    }
}

/// How each of `patterns` fares on `path`.
pub open spec fn pattern_hits(patterns: Seq<PatternSpec>, path: Seq<char>) -> Seq<PatternHit> {
    Seq::new(
        patterns.len(),
        |i: int|
            PatternHit {
                exclude: patterns[i].exclude,
                matched: regex_matches(patterns[i].pattern, path),
            },
    )
}

/// Whether a file at `path` is rendered under `patterns`.
pub open spec fn path_rendered(patterns: Seq<PatternSpec>, path: Seq<char>) -> bool {
    admitted(pattern_hits(patterns, path))
}

/// The files that pass the path filters, in order.
pub open spec fn rendered_files(files: Seq<FileSpec>, patterns: Seq<PatternSpec>) -> Seq<
    FileSpec,
> {
    files.filter(|f: FileSpec| path_rendered(patterns, f.path))
}

/// `s`, with a newline added where it does not end with one.
pub open spec fn newline_terminated(s: Seq<char>) -> Seq<char> {
    if ends_with_newline(s) {
        s
    } else {
        s.push('\n')
    }
}

/// A file's section: its marker line, then its text, ending with a newline.
pub open spec fn section(file: FileSpec) -> Seq<char> {
    marker() + seq![' '] + file.path + seq!['\n'] + newline_terminated(file.text)
}

/// The sections of `files`, one after the other.
pub open spec fn sections(files: Seq<FileSpec>) -> Seq<char>
    decreases files.len(),
{
    if files.len() == 0 {
        Seq::empty()
    } else {
        section(files[0]) + sections(files.drop_first())
    }
}

/// The text form of `files`: the text of a single file as it is, unless
/// `show_paths` asks for its marker line; else the sections of all files.
pub open spec fn raw_text(files: Seq<FileSpec>, show_paths: bool) -> Seq<char> {
    if files.len() == 1 && !show_paths {
        files[0].text
    } else {
        sections(files)
    }
}

/// What a redacted line reads where no other message is set.
pub open spec fn default_message() -> Seq<char> {
    "[REDACTED]"@
}

/// The regular expression for the commit hash after a conflict marker.
pub open spec fn hash_pattern() -> Seq<char> {
    "\\|\\|\\|\\|\\|\\|\\| [0-9a-f]{7,40}"@
}

/// What stands in for a commit hash.
pub open spec fn hash_placeholder() -> Seq<char> {
    "||||||| [hash]"@
}

/// `text` with the commit hash after each conflict marker replaced by a
/// placeholder. Left as it is should the engine refuse the pattern.
pub open spec fn hashes_normalized(text: Seq<char>) -> Seq<char> {
    if regex_accepts(hash_pattern()) {
        regex_replaced(hash_pattern(), text, hash_placeholder())
    } else {
        text
    }
}

/// Whether `numbers` names the line `number`.
pub open spec fn is_redacted(numbers: Seq<usize>, number: int) -> bool {
    exists|k: int| 0 <= k < numbers.len() && #[trigger] numbers[k] == number
}

/// `lines` with each line that `numbers` names replaced by `message`. Lines
/// are counted from 1.
pub open spec fn redacted_lines(lines: Seq<Seq<char>>, numbers: Seq<usize>, message: Seq<char>)
    -> Seq<Seq<char>> {
    Seq::new(
        lines.len(),
        |i: int|
            if is_redacted(numbers, i + 1) {
                message
            } else {
                lines[i]
            },
    )
}

/// `lines` with a newline between each two of them.
pub open spec fn joined(lines: Seq<Seq<char>>) -> Seq<char>
    decreases lines.len(),
{
    if lines.len() == 0 {
        Seq::empty()
    } else if lines.len() == 1 {
        lines[0]
    } else {
        joined(lines.drop_last()) + seq!['\n'] + lines.last()
    }
}

/// `text` with the lines that `numbers` names replaced by `message`.
pub open spec fn redacted(text: Seq<char>, numbers: Seq<usize>, message: Seq<char>) -> Seq<char> {
    joined(redacted_lines(text_lines(text), numbers, message))
}

/// What a renderer writes: the files that pass the filters, as text; then the
/// hashes normalized, if asked for; then lines redacted, if any are named.
pub open spec fn rendered(spec: RenderSpec) -> Seq<char> {
    let raw = raw_text(rendered_files(spec.files, spec.patterns), spec.show_paths);
    let text = if spec.normalize_hashes {
        hashes_normalized(raw)
    } else {
        raw
    };
    if spec.redact.len() > 0 {
        redacted(text, spec.redact, spec.message)
    } else {
        text
    }
}

/// Whether a path is rendered, given how each pattern fared on it.
pub fn admits(hits: &Vec<PatternHit>) -> (b: bool)
    ensures
        b == admitted(hits@),
{
    let mut shut_out = false;
    let mut let_in = false;
    let mut only_excluding = true;
    let mut i: usize = 0;
    while i < hits.len()
        invariant
            i <= hits.len(),
            shut_out <==> exists|k: int| 0 <= k < i && (#[trigger] hits[k]).exclude && hits[k].matched,
            let_in <==> exists|k: int| 0 <= k < i && !(#[trigger] hits[k]).exclude && hits[k].matched,
            only_excluding <==> forall|k: int| 0 <= k < i ==> (#[trigger] hits[k]).exclude,
        decreases hits.len() - i,
    {
        let hit = hits[i];
        if hit.exclude {
            if hit.matched {
                shut_out = true;
            }
        } else {
            only_excluding = false;
            if hit.matched {
                let_in = true;
            }
        }
        i += 1;
    }
    hits.len() == 0 || (!shut_out && (only_excluding || let_in))
}

/// Whether `numbers` holds `number`.
fn names_line(numbers: &Vec<usize>, number: usize) -> (b: bool)
    ensures
        b == is_redacted(numbers@, number as int),
{
    let mut k: usize = 0;
    while k < numbers.len()
        invariant
            k <= numbers.len(),
            forall|j: int| 0 <= j < k ==> numbers[j] != number,
        decreases numbers.len() - k,
    {
        if numbers[k] == number {
            return true;
        }
        k += 1;
    }
    false
}

/// `text` with the lines that `numbers` names replaced by `message`, on
/// characters.
fn redact_chars(text: &Vec<char>, numbers: &Vec<usize>, message: &Vec<char>) -> (out: Vec<char>)
    ensures
        out@ == redacted(text@, numbers@, message@),
{
    let mut out: Vec<char> = Vec::new();
    let mut done: usize = 0;
    let mut i: usize = 0;
    let ghost mut lines: Seq<Seq<char>> = Seq::empty();
    proof {
        assert(text@.skip(0) == text@);
        assert(redacted_lines(lines, numbers@, message@) == Seq::<Seq<char>>::empty());
    }
    while i < text.len()
        invariant
            i <= text.len(),
            done <= i,
            done == lines.len(),
            lines + text_lines(text@.skip(i as int)) == text_lines(text@),
            out@ == joined(redacted_lines(lines, numbers@, message@)),
        decreases text.len() - i,
    {
        let end = line_end(text, i);
        let mut stop = end;
        proof {
            let rest = text@.skip(i as int);
            lemma_line_len_bounds(rest);
            assert(rest.take(line_len(rest) as int) == text@.subrange(i as int, end as int));
            assert(rest.skip(line_len(rest) as int) == text@.skip(end as int));
        }
        if text[stop - 1] == '\n' {
            stop -= 1;
            if stop > i && text[stop - 1] == '\r' {
                stop -= 1;
            }
        }
        let ghost kept = text@.subrange(i as int, stop as int);
        proof {
            lemma_chomp(text@, i as int, end as int);
        }
        if done > 0 {
            out.push('\n');
        }
        if names_line(numbers, done + 1) {
            push_range(&mut out, message, 0, message.len());
            proof {
                assert(message@.subrange(0, message.len() as int) == message@);
            }
        } else {
            push_range(&mut out, text, i, stop);
        }
        proof {
            let before = redacted_lines(lines, numbers@, message@);
            let after = redacted_lines(lines.push(kept), numbers@, message@);
            assert(after.drop_last() == before);
            assert(lines.push(kept) + text_lines(text@.skip(end as int)) == lines + (seq![kept]
                + text_lines(text@.skip(end as int))));
            lines = lines.push(kept);
        }
        done += 1;
        i = end;
    }
    proof {
        assert(lines + Seq::<Seq<char>>::empty() == lines);
    }
    out
}

/// Replaces lines of `text` by `message`. `numbers` names the lines to
/// replace, counted from 1; the other lines stay as they are. The lines of
/// the result are joined by a newline, with none after the last.
pub fn redact(text: &str, numbers: &[usize], message: &str) -> (out: String)
    ensures
        out@ == redacted(text@, numbers@, message@),
{
    let chars = to_chars(text);
    let numbers = slice_to_vec(numbers);
    let message = to_chars(message);
    let out = redact_chars(&chars, &numbers, &message);
    to_string(&out, 0, out.len())
}

/// Replaces the commit hash after each conflict marker (seven `|` and a
/// space) by a placeholder, so that the text of a merge conflict reads the
/// same in every run.
pub fn normalize_hashes(text: &str) -> (out: String)
    ensures
        out@ == hashes_normalized(text@),
{
    let pattern = "\\|\\|\\|\\|\\|\\|\\| [0-9a-f]{7,40}";
    if compiles(pattern) {
        replace_all(pattern, text, "||||||| [hash]")
    } else {
        text.to_owned()
    }
}

/// A rendered file was kept or dropped by its path alone.
pub proof fn lemma_rendered_files_push(
    files: Seq<FileSpec>,
    file: FileSpec,
    patterns: Seq<PatternSpec>,
)
    ensures
        rendered_files(files.push(file), patterns) == if path_rendered(patterns, file.path) {
            rendered_files(files, patterns).push(file)
        } else {
            rendered_files(files, patterns)
        },
{
    reveal(Seq::filter);
    assert(files.push(file).drop_last() == files);
}

/// The models of the files that `refs` point to.
spec fn refs_view(refs: Seq<&FixtureFile>) -> Seq<FileSpec> {
    Seq::new(refs.len(), |i: int| (*refs[i])@)
}

/// Appends the sections of `files` to `out`.
fn push_sections(out: &mut Vec<char>, files: &Vec<&FixtureFile>)
    ensures
        final(out)@ == old(out)@ + sections(refs_view(files@)),
{
    let ghost all = refs_view(files@);
    let mut j: usize = 0;
    proof {
        assert(all.skip(0) == all);
    }
    while j < files.len()
        invariant
            j <= files.len(),
            all == refs_view(files@),
            out@ + sections(all.skip(j as int)) == old(out)@ + sections(all),
        decreases files.len() - j,
    {
        let file = files[j];
        let ghost start = out@;
        out.push('/');
        out.push('/');
        out.push('-');
        out.push(' ');
        push_str(out, file.path.as_str());
        out.push('\n');
        let text = to_chars(file.text.as_str());
        push_range(out, &text, 0, text.len());
        if text.len() == 0 || text[text.len() - 1] != '\n' {
            out.push('\n');
        }
        proof {
            assert(text@.subrange(0, text.len() as int) == text@);
            assert(all.skip(j as int).drop_first() == all.skip(j + 1));
            assert(all.skip(j as int)[0] == file@);
            assert(out@ == start + section(file@));
            assert(start + (section(file@) + sections(all.skip(j + 1))) == (start + section(file@))
                + sections(all.skip(j + 1)));
        }
        j += 1;
    }
    proof {
        assert(out@ + Seq::<char>::empty() == out@);
    }
}

/// The text form of `files`.
fn raw_chars(files: &Vec<&FixtureFile>, show_paths: bool) -> (out: Vec<char>)
    ensures
        out@ == raw_text(refs_view(files@), show_paths),
{
    if files.len() == 1 && !show_paths {
        return to_chars(files[0].text.as_str());
    }
    let mut out: Vec<char> = Vec::new();
    push_sections(&mut out, files);
    out
}

/// One path filter: a regular expression, and whether a match excludes.
struct PathPattern {
    pattern: String,
    exclude: bool,
}

/// The models of `patterns`.
spec fn patterns_view(patterns: Seq<PathPattern>) -> Seq<PatternSpec> {
    Seq::new(
        patterns.len(),
        |i: int| PatternSpec { pattern: patterns[i].pattern@, exclude: patterns[i].exclude },
    )
}

/// A path filter that the regex engine refused.
#[derive(Clone, Debug, PartialEq, Eq)]
pub struct InvalidPattern {
    /// The regular expression, without the `!` that may have stood before it.
    pub pattern: String,
}

/// The pattern that `s` stands for, and whether it excludes: a leading `!`
/// makes an excluding pattern of what follows it.
pub open spec fn pattern_of(s: Seq<char>) -> PatternSpec {
    if s.len() > 0 && s[0] == '!' {
        PatternSpec { pattern: s.drop_first(), exclude: true }
    } else {
        PatternSpec { pattern: s, exclude: false }
    }
}

/// Renders a fixture as text, once, with the options set on it.
///
/// The options are applied in this order: the path filters choose the files;
/// the files are written as text; hashes are normalized; lines are redacted.
/// Line numbers therefore count the lines of the text as it stands after
/// filtering, marker lines included.
pub struct FixtureRenderer<'a> {
    fixture: &'a Fixture,
    normalize_git_hashes: bool,
    lines_to_redact: Vec<usize>,
    redact_message: String,
    path_patterns: Vec<PathPattern>,
    always_show_filepath: bool,
}

impl<'a> View for FixtureRenderer<'a> {
    type V = RenderSpec;

    closed spec fn view(&self) -> RenderSpec {
        RenderSpec {
            files: self.fixture@,
            normalize_hashes: self.normalize_git_hashes,
            redact: self.lines_to_redact@,
            message: self.redact_message@,
            patterns: patterns_view(self.path_patterns@),
            show_paths: self.always_show_filepath,
        }
    }
}

impl<'a> FixtureRenderer<'a> {
    /// Every pattern held is one that the regex engine accepts.
    #[verifier::type_invariant]
    spec fn patterns_accepted(self) -> bool {
        forall|i: int|
            0 <= i < self.path_patterns.len() ==> regex_accepts(
                (#[trigger] self.path_patterns[i]).pattern@,
            )
    }

    /// A renderer for `fixture` with no option set.
    pub fn new(fixture: &'a Fixture) -> (renderer: Self)
        ensures
            renderer@ == (RenderSpec {
                files: fixture@,
                normalize_hashes: false,
                redact: Seq::empty(),
                message: default_message(),
                patterns: Seq::empty(),
                show_paths: false,
            }),
    {
        let renderer = FixtureRenderer {
            fixture,
            normalize_git_hashes: false,
            lines_to_redact: Vec::new(),
            redact_message: "[REDACTED]".to_owned(),
            path_patterns: Vec::new(),
            always_show_filepath: false,
        };
        proof {
            assert(patterns_view(renderer.path_patterns@) == Seq::<PatternSpec>::empty());
        }
        renderer
    }

    /// Has the commit hashes after conflict markers replaced by a placeholder.
    pub fn normalize_git_hashes(self) -> (renderer: Self)
        ensures
            renderer@ == (RenderSpec { normalize_hashes: true, ..self@ }),
    {
        proof {
            use_type_invariant(&self);
        }
        FixtureRenderer {
            fixture: self.fixture,
            normalize_git_hashes: true,
            lines_to_redact: self.lines_to_redact,
            redact_message: self.redact_message,
            path_patterns: self.path_patterns,
            always_show_filepath: self.always_show_filepath,
        }
    }

    /// Names the lines to redact, counted from 1 in the text as it is
    /// rendered. An earlier choice is replaced.
    pub fn redact_lines(self, lines: &[usize]) -> (renderer: Self)
        ensures
            renderer@ == (RenderSpec { redact: lines@, ..self@ }),
    {
        proof {
            use_type_invariant(&self);
        }
        FixtureRenderer {
            fixture: self.fixture,
            normalize_git_hashes: self.normalize_git_hashes,
            lines_to_redact: slice_to_vec(lines),
            redact_message: self.redact_message,
            path_patterns: self.path_patterns,
            always_show_filepath: self.always_show_filepath,
        }
    }

    /// Sets what a redacted line reads.
    pub fn redact_message(self, message: &str) -> (renderer: Self)
        ensures
            renderer@ == (RenderSpec { message: message@, ..self@ }),
    {
        proof {
            use_type_invariant(&self);
        }
        FixtureRenderer {
            fixture: self.fixture,
            normalize_git_hashes: self.normalize_git_hashes,
            lines_to_redact: self.lines_to_redact,
            redact_message: message.to_owned(),
            path_patterns: self.path_patterns,
            always_show_filepath: self.always_show_filepath,
        }
    }

    /// Has every file written with its marker line, a single file too.
    pub fn always_show_filepath(self) -> (renderer: Self)
        ensures
            renderer@ == (RenderSpec { show_paths: true, ..self@ }),
    {
        proof {
            use_type_invariant(&self);
        }
        FixtureRenderer {
            fixture: self.fixture,
            normalize_git_hashes: self.normalize_git_hashes,
            lines_to_redact: self.lines_to_redact,
            redact_message: self.redact_message,
            path_patterns: self.path_patterns,
            always_show_filepath: true,
        }
    }

    /// Adds a path filter: a regular expression that is searched for in each
    /// file's path. After a leading `!` it excludes the files it matches;
    /// else it includes them. The filter is refused where the regex engine
    /// does not accept the expression.
    pub fn regex(self, pattern: &str) -> (r: Result<Self, InvalidPattern>)
        ensures
            match r {
                Ok(renderer) => regex_accepts(pattern_of(pattern@).pattern) && renderer@ == (
                RenderSpec { patterns: self@.patterns.push(pattern_of(pattern@)), ..self@ }),
                Err(e) => !regex_accepts(pattern_of(pattern@).pattern) && e.pattern@ == pattern_of(
                    pattern@,
                ).pattern,
            },
    {
        proof {
            use_type_invariant(&self);
        }
        let chars = to_chars(pattern);
        let exclude = chars.len() > 0 && chars[0] == '!';
        let from: usize = if exclude {
            1
        } else {
            0
        };
        let expression = to_string(&chars, from, chars.len());
        proof {
            assert(chars@.subrange(from as int, chars.len() as int) == pattern_of(
                pattern@,
            ).pattern);
        }
        if !compiles(expression.as_str()) {
            return Err(InvalidPattern { pattern: expression });
        }
        let mut path_patterns = self.path_patterns;
        let ghost before = path_patterns@;
        let added = PathPattern { pattern: expression, exclude };
        path_patterns.push(added);
        proof {
            assert(patterns_view(path_patterns@) == patterns_view(before).push(
                pattern_of(pattern@),
            ));
        }
        Ok(
            FixtureRenderer {
                fixture: self.fixture,
                normalize_git_hashes: self.normalize_git_hashes,
                lines_to_redact: self.lines_to_redact,
                redact_message: self.redact_message,
                path_patterns,
                always_show_filepath: self.always_show_filepath,
            },
        )
    }

    /// Whether the file at `path` passes the path filters.
    fn matches_path(&self, path: &str) -> (b: bool)
        ensures
            b == path_rendered(self@.patterns, path@),
    {
        proof {
            use_type_invariant(self);
        }
        let mut hits: Vec<PatternHit> = Vec::new();
        let mut i: usize = 0;
        while i < self.path_patterns.len()
            invariant
                i <= self.path_patterns.len(),
                forall|k: int|
                    0 <= k < self.path_patterns.len() ==> regex_accepts(
                        (#[trigger] self.path_patterns[k]).pattern@,
                    ),
                hits@ == pattern_hits(self@.patterns, path@).take(i as int),
            decreases self.path_patterns.len() - i,
        {
            let filter = &self.path_patterns[i];
            let matched = is_match(filter.pattern.as_str(), path);
            hits.push(PatternHit { exclude: filter.exclude, matched });
            proof {
                let all = pattern_hits(self@.patterns, path@);
                assert(all.take(i + 1) == all.take(i as int).push(all[i as int]));
            }
            i += 1;
        }
        proof {
            let all = pattern_hits(self@.patterns, path@);
            assert(all.take(all.len() as int) == all);
        }
        admits(&hits)
    }

    /// The files that pass the path filters, as text.
    fn render_raw(&self) -> (out: Vec<char>)
        ensures
            out@ == raw_text(rendered_files(self@.files, self@.patterns), self@.show_paths),
    {
        let files = &self.fixture.files;
        let ghost all = self@.files;
        let mut kept: Vec<&FixtureFile> = Vec::new();
        let mut i: usize = 0;
        proof {
            reveal(Seq::filter);
            assert(rendered_files(all.take(0), self@.patterns) == Seq::<FileSpec>::empty());
        }
        while i < files.len()
            invariant
                i <= files.len(),
                all == self@.files,
                all == files_view(files@),
                refs_view(kept@) == rendered_files(all.take(i as int), self@.patterns),
            decreases files.len() - i,
        {
            let file = &files[i];
            let ghost before = refs_view(kept@);
            if self.matches_path(file.path.as_str()) {
                kept.push(file);
                proof {
                    assert(refs_view(kept@) == before.push(file@));
                }
            }
            proof {
                assert(all.take(i + 1) == all.take(i as int).push(file@));
                lemma_rendered_files_push(all.take(i as int), file@, self@.patterns);
            }
            i += 1;
        }
        proof {
            assert(all.take(files.len() as int) == all);
        }
        raw_chars(&kept, self.always_show_filepath)
    }

    /// Renders the fixture as text.
    pub fn render(self) -> (out: String)
        ensures
            out@ == rendered(self@),
    {
        let raw = self.render_raw();
        let mut text = to_string(&raw, 0, raw.len());
        proof {
            assert(raw@.subrange(0, raw.len() as int) == raw@);
        }
        if self.normalize_git_hashes {
            text = normalize_hashes(text.as_str());
        }
        if self.lines_to_redact.len() > 0 {
            let chars = to_chars(text.as_str());
            let message = to_chars(self.redact_message.as_str());
            let out = redact_chars(&chars, &self.lines_to_redact, &message);
            proof {
                assert(out@.subrange(0, out.len() as int) == out@);
            }
            text = to_string(&out, 0, out.len());
        }
        text
    }
}

/// A renderer with no option set writes what the fixture renders to.
pub proof fn lemma_render_without_options(files: Seq<FileSpec>)
    ensures
        rendered(
            RenderSpec {
                files,
                normalize_hashes: false,
                redact: Seq::empty(),
                message: default_message(),
                patterns: Seq::empty(),
                show_paths: false,
            },
        ) == raw_text(files, false),
{
    lemma_no_patterns_render_all(files);
}

/// Without patterns every file is rendered.
pub proof fn lemma_no_patterns_render_all(files: Seq<FileSpec>)
    ensures
        rendered_files(files, Seq::empty()) == files,
    decreases files.len(),
{
    reveal(Seq::filter);
    if files.len() > 0 {
        lemma_no_patterns_render_all(files.drop_last());
        assert(pattern_hits(Seq::empty(), files.last().path).len() == 0);
        assert(files.drop_last().push(files.last()) == files);
    }
}

impl Fixture {
    /// Renders the fixture as text: a single file as its text alone, else
    /// each file as a marker line followed by its text.
    pub fn render(&self) -> (out: String)
        ensures
            out@ == raw_text(self@, false),
    {
        proof {
            lemma_render_without_options(self@);
        }
        FixtureRenderer::new(self).render()
    }
}

} // verus!
