//! A fixture on disk: where its files go below a root directory, and which
//! fixture a walk of a directory gives back.
//!
//! Nothing here touches the disk. Paths are text with `/` between their
//! parts; the caller writes and reads the files.

use vstd::prelude::*;
use crate::fixture::{files_view, FileSpec, Fixture, FixtureFile};
use crate::text::{
    contains_run, find_run, has_prefix_at, join_path, leading_run, leading_run_in, path_join,
    push_range, starts_with, strings_view, to_chars, to_string,
};

verus! {

/// `s` without the slashes that it starts with.
pub open spec fn without_leading_slashes(s: Seq<char>) -> Seq<char> {
    s.skip(leading_run(s, '/') as int)
}

/// Where the file at `relative` lies below `root`. Leading slashes of
/// `relative` do not count: the file always lies below the root.
pub open spec fn target(root: Seq<char>, relative: Seq<char>) -> Seq<char> {
    path_join(root, without_leading_slashes(relative))
}

/// The path that a fixture gives to the file found at `full` when it is read
/// back from the directory `scope`: what follows `scope` in `full`, after a
/// single leading `/`. A file that does not lie in `scope` has none.
pub open spec fn relative_to(scope: Seq<char>, full: Seq<char>) -> Option<Seq<char>> {
    if starts_with(full, scope) {
        let rest = full.skip(scope.len() as int);
        if scope.len() == 0 || scope.last() == '/' || rest.len() == 0 || rest[0] == '/' {
            Some(seq!['/'] + without_leading_slashes(rest))
        } else {
            None
        }
    } else {
        None
    }
}

/// The files of `found` that lie in `scope`, in order, each at its path as
/// seen from there.
pub open spec fn scoped(found: Seq<FileSpec>, scope: Seq<char>) -> Seq<FileSpec>
    decreases found.len(),
{
    if found.len() == 0 {
        Seq::empty()
    } else {
        let before = scoped(found.drop_last(), scope);
        match relative_to(scope, found.last().path) {
            Some(path) => before.push(FileSpec { path, text: found.last().text }),
            None => before,
        }
    }
}

/// The name of the directory in which git keeps a repository.
pub open spec fn git_dir() -> Seq<char> {
    seq!['.', 'g', 'i', 't']
}

/// The files of `found` whose path does not hold `.git` anywhere.
pub open spec fn outside_git(found: Seq<FileSpec>) -> Seq<FileSpec>
    decreases found.len(),
{
    if found.len() == 0 {
        Seq::empty()
    } else {
        let before = outside_git(found.drop_last());
        if contains_run(found.last().path, git_dir()) {
            before
        } else {
            before.push(found.last())
        }
    }
}

/// Whether `a` comes before `b`, or is `b`, in the order of strings:
/// character by character, by code point, a prefix first.
pub open spec fn path_le(a: Seq<char>, b: Seq<char>) -> bool
    decreases a.len(),
{
    if a.len() == 0 {
        true
    } else if b.len() == 0 {
        false
    } else if a[0] != b[0] {
        a[0] < b[0]
    } else {
        path_le(a.drop_first(), b.drop_first())
    }
}

/// `sorted` with `file` put behind the last of its files whose path is not
/// greater.
pub open spec fn inserted(sorted: Seq<FileSpec>, file: FileSpec) -> Seq<FileSpec>
    decreases sorted.len(),
{
    if sorted.len() == 0 || path_le(sorted.last().path, file.path) {
        sorted.push(file)
    } else {
        inserted(sorted.drop_last(), file).push(sorted.last())
    }
}

/// `files` in the order of their paths. Files at the same path keep their
/// order.
pub open spec fn sorted_by_path(files: Seq<FileSpec>) -> Seq<FileSpec>
    decreases files.len(),
{
    if files.len() == 0 {
        Seq::empty()
    } else {
        inserted(sorted_by_path(files.drop_last()), files.last())
    }
}

/// Whether the paths of `files` never go down.
pub open spec fn is_sorted_by_path(files: Seq<FileSpec>) -> bool {
    forall|i: int, j: int|
        0 <= i <= j < files.len() ==> path_le((#[trigger] files[i]).path, (#[trigger] files[j]).path)
}

/// The fixture that a walk of `scope` gives back, where it found `found`:
/// the files that lie in `scope`, by their paths as seen from there, in the
/// order of those paths.
pub open spec fn read_back(found: Seq<FileSpec>, scope: Seq<char>) -> Seq<FileSpec> {
    sorted_by_path(scoped(found, scope))
}

/// Whether `a` comes before `b`, or is `b`, in the order of strings.
fn chars_le(a: &Vec<char>, b: &Vec<char>) -> (le: bool)
    ensures
        le == path_le(a@, b@),
{
    let mut i: usize = 0;
    proof {
        assert(a@.skip(0) == a@);
        assert(b@.skip(0) == b@);
    }
    while i < a.len() && i < b.len()
        invariant
            i <= a.len(),
            i <= b.len(),
            path_le(a@, b@) == path_le(a@.skip(i as int), b@.skip(i as int)),
        decreases a.len() - i,
    {
        if a[i] != b[i] {
            return a[i] < b[i];
        }
        proof {
            assert(a@.skip(i as int).drop_first() == a@.skip(i + 1));
            assert(b@.skip(i as int).drop_first() == b@.skip(i + 1));
        }
        i += 1;
    }
    i == a.len()
}

/// Puts `file` into `sorted`, behind the last file whose path is not greater.
fn insert_by_path(sorted: &mut Vec<FixtureFile>, file: FixtureFile)
    ensures
        files_view(final(sorted)@) == inserted(files_view(old(sorted)@), file@),
{
    let ghost before = files_view(sorted@);
    let path = to_chars(file.path.as_str());
    let mut at: usize = sorted.len();
    proof {
        assert(before.take(at as int) == before);
        assert(before.skip(at as int) == Seq::<FileSpec>::empty());
        assert(inserted(before, file@) + Seq::<FileSpec>::empty() == inserted(before, file@));
    }
    loop
        invariant
            at <= sorted.len(),
            sorted@ == old(sorted)@,
            before == files_view(sorted@),
            path@ == file.path@,
            inserted(before, file@) == inserted(before.take(at as int), file@) + before.skip(
                at as int,
            ),
        ensures
            at <= sorted.len(),
            sorted@ == old(sorted)@,
            before == files_view(sorted@),
            inserted(before, file@) == before.take(at as int).push(file@) + before.skip(at as int),
        decreases at,
    {
        if at == 0 {
            break ;
        }
        let other = to_chars(sorted[at - 1].path.as_str());
        proof {
            assert(before.take(at as int).last() == sorted[at - 1]@);
            assert(before.take(at as int).drop_last() == before.take(at - 1));
        }
        if chars_le(&other, &path) {
            break ;
        }
        proof {
            let head = inserted(before.take(at - 1), file@);
            assert(head.push(before[at - 1]) + before.skip(at as int) == head + before.skip(
                at - 1,
            ));
        }
        at -= 1;
    }
    sorted.insert(at, file);
    proof {
        assert(files_view(sorted@) == before.take(at as int).push(file@) + before.skip(at as int));
    }
}

/// `files` in the order of their paths.
fn sort_by_path(files: Vec<FixtureFile>) -> (sorted: Vec<FixtureFile>)
    ensures
        files_view(sorted@) == sorted_by_path(files_view(files@)),
{
    let ghost all = files_view(files@);
    let mut sorted: Vec<FixtureFile> = Vec::new();
    let mut i: usize = 0;
    proof {
        assert(files_view(sorted@) == sorted_by_path(all.take(0)));
    }
    while i < files.len()
        invariant
            i <= files.len(),
            all == files_view(files@),
            files_view(sorted@) == sorted_by_path(all.take(i as int)),
        decreases files.len() - i,
    {
        let file = FixtureFile { path: files[i].path.clone(), text: files[i].text.clone() };
        proof {
            assert(all.take(i + 1).drop_last() == all.take(i as int));
            assert(all.take(i + 1).last() == file@);
        }
        insert_by_path(&mut sorted, file);
        i += 1;
    }
    proof {
        assert(all.take(files.len() as int) == all);
    }
    sorted
}

/// The path of the file found at `full` as seen from `scope`.
fn relative_path(scope: &Vec<char>, full: &str) -> (path: Option<String>)
    ensures
        match path {
            Some(p) => relative_to(scope@, full@) == Some(p@),
            None => relative_to(scope@, full@) is None,
        },
{
    let full = to_chars(full);
    if !has_prefix_at(&full, 0, scope) {
        proof {
            assert(full@.skip(0) == full@);
        }
        return None;
    }
    proof {
        assert(full@.skip(0) == full@);
    }
    let from = scope.len();
    let inside = from == 0 || scope[from - 1] == '/' || from == full.len() || full[from] == '/';
    if !inside {
        return None;
    }
    let start = from + leading_run_in(&full, from, full.len(), '/');
    let mut out: Vec<char> = Vec::new();
    out.push('/');
    push_range(&mut out, &full, start, full.len());
    proof {
        let rest = full@.skip(from as int);
        assert(rest == full@.subrange(from as int, full.len() as int));
        assert(rest.skip(leading_run(rest, '/') as int) == full@.subrange(
            start as int,
            full.len() as int,
        ));
        assert(out@ == seq!['/'] + without_leading_slashes(rest));
        assert(out@.subrange(0, out.len() as int) == out@);
    }
    Some(to_string(&out, 0, out.len()))
}

/// The files of `found` that lie in `scope`, each at its path as seen from
/// there.
fn scope_files(found: &Vec<FixtureFile>, scope: &str) -> (kept: Vec<FixtureFile>)
    ensures
        files_view(kept@) == scoped(files_view(found@), scope@),
{
    let ghost all = files_view(found@);
    let scope = to_chars(scope);
    let mut kept: Vec<FixtureFile> = Vec::new();
    let mut i: usize = 0;
    proof {
        assert(files_view(kept@) == scoped(all.take(0), scope@));
    }
    while i < found.len()
        invariant
            i <= found.len(),
            all == files_view(found@),
            files_view(kept@) == scoped(all.take(i as int), scope@),
        decreases found.len() - i,
    {
        let ghost before = files_view(kept@);
        proof {
            assert(all.take(i + 1).drop_last() == all.take(i as int));
            assert(all.take(i + 1).last() == found[i as int]@);
        }
        match relative_path(&scope, found[i].path.as_str()) {
            Some(path) => {
                let file = FixtureFile { path, text: found[i].text.clone() };
                kept.push(file);
                proof {
                    assert(files_view(kept@) == before.push(file@));
                }
            },
            None => {},
        }
        i += 1;
    }
    proof {
        assert(all.take(found.len() as int) == all);
    }
    kept
}

/// The files of `found` whose path does not hold `.git`.
fn skip_git(found: &Vec<FixtureFile>) -> (kept: Vec<FixtureFile>)
    ensures
        files_view(kept@) == outside_git(files_view(found@)),
{
    let ghost all = files_view(found@);
    let git = vec!['.', 'g', 'i', 't'];
    assert(git@ =~= git_dir());
    let mut kept: Vec<FixtureFile> = Vec::new();
    let mut i: usize = 0;
    proof {
        assert(files_view(kept@) == outside_git(all.take(0)));
    }
    while i < found.len()
        invariant
            i <= found.len(),
            git@ == git_dir(),
            all == files_view(found@),
            files_view(kept@) == outside_git(all.take(i as int)),
        decreases found.len() - i,
    {
        let ghost before = files_view(kept@);
        let path = to_chars(found[i].path.as_str());
        proof {
            assert(all.take(i + 1).drop_last() == all.take(i as int));
            assert(all.take(i + 1).last() == found[i as int]@);
            assert(path@.skip(0) == path@);
        }
        if find_run(&path, 0, &git).is_none() {
            let file = FixtureFile { path: found[i].path.clone(), text: found[i].text.clone() };
            kept.push(file);
            proof {
                assert(files_view(kept@) == before.push(file@));
            }
        }
        i += 1;
    }
    proof {
        assert(all.take(found.len() as int) == all);
    }
    kept
}

impl Fixture {
    /// The fixture that a walk of the directory `base` gives back, where it
    /// found the files `found`, each with its full path. Files whose path
    /// holds `.git` are left out. The others are given their paths as seen
    /// from `base` and put in the order of those paths.
    pub fn read_from_directory(base: &str, found: &Vec<FixtureFile>) -> (fixture: Fixture)
        ensures
            fixture@ == read_back(outside_git(files_view(found@)), base@),
    {
        let kept = skip_git(found);
        let kept = scope_files(&kept, base);
        Fixture { files: sort_by_path(kept) }
    }
}

/// A fixture laid out below a root directory: the model of a [`TempFixture`].
pub struct TempSpec {
    pub root: Seq<char>,
    pub files: Seq<FileSpec>,
    pub cwd: Option<Seq<char>>,
}

/// The directory that read-back is scoped to: the root, or the working
/// directory below it where one is set.
pub open spec fn scope_of(temp: TempSpec) -> Seq<char> {
    match temp.cwd {
        Some(cwd) => path_join(temp.root, cwd),
        None => temp.root,
    }
}

/// What is to be written for `files` below `root`: each file, in order, at
/// its full path.
pub open spec fn writes_of(root: Seq<char>, files: Seq<FileSpec>) -> Seq<FileSpec> {
    Seq::new(
        files.len(),
        |i: int| FileSpec { path: target(root, files[i].path), text: files[i].text },
    )
}

/// What a directory tree holds, by full path, once `writes` were carried out
/// in order on an empty one: a later write to a path replaces an earlier one.
pub open spec fn written(writes: Seq<FileSpec>) -> Map<Seq<char>, Seq<char>>
    decreases writes.len(),
{
    if writes.len() == 0 {
        Map::empty()
    } else {
        written(writes.drop_last()).insert(writes.last().path, writes.last().text)
    }
}

/// The files at the paths of `files`, in order, with the texts `texts`.
pub open spec fn with_texts(files: Seq<FileSpec>, texts: Seq<Seq<char>>) -> Seq<FileSpec> {
    Seq::new(files.len(), |i: int| FileSpec { path: files[i].path, text: texts[i] })
}

/// A fixture and the directory it is laid out in. The directory itself, and
/// its lifetime, are the caller's.
pub struct TempFixture {
    /// The directory that holds the files.
    pub root: String,
    /// The files as they were written.
    pub files: Vec<FixtureFile>,
    /// The working directory, below the root, that read-back is scoped to.
    cwd: Option<String>,
}

impl View for TempFixture {
    type V = TempSpec;

    closed spec fn view(&self) -> TempSpec {
        TempSpec {
            root: self.root@,
            files: files_view(self.files@),
            cwd: match self.cwd {
                Some(cwd) => Some(cwd@),
                None => None,
            },
        }
    }
}

/// `text` without the slashes that it starts with.
fn trim_leading_slashes(text: &str) -> (out: String)
    ensures
        out@ == without_leading_slashes(text@),
{
    let text = to_chars(text);
    let from = leading_run_in(&text, 0, text.len(), '/');
    proof {
        assert(text@.subrange(0, text.len() as int) == text@);
        assert(text@.subrange(from as int, text.len() as int) == text@.skip(from as int));
    }
    to_string(&text, from, text.len())
}

impl TempFixture {
    /// The fixture `files` laid out in `root`, with no working directory.
    pub fn new(root: String, files: Vec<FixtureFile>) -> (temp: TempFixture)
        ensures
            temp@ == (TempSpec { root: root@, files: files_view(files@), cwd: None }),
    {
        TempFixture { root, files, cwd: None }
    }

    /// The directory that holds the files.
    pub fn root(&self) -> (root: &str)
        ensures
            root@ == self@.root,
    {
        self.root.as_str()
    }

    /// Sets the working directory, below the root. Read-back then gives the
    /// files below it only, by their paths as seen from it. No file is moved.
    pub fn cwd(self, path: &str) -> (temp: TempFixture)
        ensures
            temp@ == (TempSpec { cwd: Some(without_leading_slashes(path@)), ..self@ }),
    {
        TempFixture { root: self.root, files: self.files, cwd: Some(trim_leading_slashes(path)) }
    }

    /// The directory that read-back is scoped to.
    pub fn effective_cwd(&self) -> (scope: String)
        ensures
            scope@ == scope_of(self@),
    {
        match &self.cwd {
            Some(cwd) => join_path(self.root.as_str(), cwd.as_str()),
            None => self.root.clone(),
        }
    }

    /// Where the file at `relative` lies: below the root, whatever the
    /// working directory.
    pub fn path(&self, relative: &str) -> (full: String)
        ensures
            full@ == target(self@.root, relative@),
    {
        let relative = trim_leading_slashes(relative);
        join_path(self.root.as_str(), relative.as_str())
    }

    /// What is to be written to lay the fixture out: each file, in order, at
    /// its full path. Where two files share a path the later one is written
    /// over the earlier.
    pub fn writes(&self) -> (writes: Vec<FixtureFile>)
        ensures
            files_view(writes@) == writes_of(self@.root, self@.files),
    {
        let ghost wanted = writes_of(self@.root, self@.files);
        let mut writes: Vec<FixtureFile> = Vec::new();
        let mut i: usize = 0;
        while i < self.files.len()
            invariant
                i <= self.files.len(),
                wanted == writes_of(self@.root, self@.files),
                files_view(writes@) == wanted.take(i as int),
            decreases self.files.len() - i,
        {
            let ghost before = files_view(writes@);
            let file = FixtureFile {
                path: self.path(self.files[i].path.as_str()),
                text: self.files[i].text.clone(),
            };
            writes.push(file);
            proof {
                assert(files_view(writes@) == before.push(file@));
                assert(wanted.take(i + 1) == wanted.take(i as int).push(wanted[i as int]));
            }
            i += 1;
        }
        proof {
            assert(wanted.take(self.files.len() as int) == wanted);
        }
        writes
    }

    /// The fixture of the files that were written, with what they hold now:
    /// `texts` is what was read at each file's path, in the order of the
    /// files. There is no answer where the number of texts is not that of the
    /// files.
    pub fn read_all(&self, texts: &Vec<String>) -> (fixture: Option<Fixture>)
        ensures
            match fixture {
                Some(f) => texts.len() == self@.files.len() && f@ == with_texts(
                    self@.files,
                    strings_view(texts@),
                ),
                None => texts.len() != self@.files.len(),
            },
    {
        if texts.len() != self.files.len() {
            return None;
        }
        let ghost wanted = with_texts(self@.files, strings_view(texts@));
        let mut files: Vec<FixtureFile> = Vec::new();
        let mut i: usize = 0;
        while i < self.files.len()
            invariant
                i <= self.files.len(),
                texts.len() == self.files.len(),
                wanted == with_texts(self@.files, strings_view(texts@)),
                files_view(files@) == wanted.take(i as int),
            decreases self.files.len() - i,
        {
            let ghost before = files_view(files@);
            let file = FixtureFile { path: self.files[i].path.clone(), text: texts[i].clone() };
            files.push(file);
            proof {
                assert(files_view(files@) == before.push(file@));
                assert(wanted.take(i + 1) == wanted.take(i as int).push(wanted[i as int]));
            }
            i += 1;
        }
        proof {
            assert(wanted.take(self.files.len() as int) == wanted);
        }
        Some(Fixture { files })
    }

    /// The fixture that a walk of the scope gives back, where it found the
    /// files `found`, each with its full path: the files that lie in the
    /// scope, by their paths as seen from it, in the order of those paths.
    /// Files that were added since the fixture was written are among them;
    /// files that were removed are not.
    pub fn read_all_from_disk(&self, found: &Vec<FixtureFile>) -> (fixture: Fixture)
        ensures
            fixture@ == read_back(files_view(found@), scope_of(self@)),
    {
        let scope = self.effective_cwd();
        let kept = scope_files(found, scope.as_str());
        Fixture { files: sort_by_path(kept) }
    }
}

} // verus!
