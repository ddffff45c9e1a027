//! Comparing two fixtures, with a report that says where they differ.

use vstd::prelude::*;
use vstd::string::StringExecFns;
use crate::fixture::{find_file, lemma_find_file, FileSpec, Fixture};
use crate::text::strings_view;

verus! {

/// Where two fixtures differ: the model of a [`Mismatch`].
pub enum MismatchSpec {
    FileCount { expected_paths: Seq<Seq<char>>, actual_paths: Seq<Seq<char>> },
    MissingFile { path: Seq<char>, available: Seq<Seq<char>> },
    Content { path: Seq<char>, expected: Seq<char>, actual: Seq<char> },
}

/// Where two fixtures differ.
#[derive(Clone, Debug, PartialEq, Eq)]
pub enum Mismatch {
    /// The fixtures hold different numbers of files. The paths of both are
    /// given.
    FileCount { expected_paths: Vec<String>, actual_paths: Vec<String> },
    /// The actual fixture has no file at the path of an expected one. The
    /// paths it does have are given.
    MissingFile { path: String, available: Vec<String> },
    /// The file at a path holds another text than expected.
    Content { path: String, expected: String, actual: String },
}

impl View for Mismatch {
    type V = MismatchSpec;

    open spec fn view(&self) -> MismatchSpec {
        match self {
            Mismatch::FileCount { expected_paths, actual_paths } => MismatchSpec::FileCount {
                expected_paths: strings_view(expected_paths@),
                actual_paths: strings_view(actual_paths@),
            },
            Mismatch::MissingFile { path, available } => MismatchSpec::MissingFile {
                path: path@,
                available: strings_view(available@),
            },
            Mismatch::Content { path, expected, actual } => MismatchSpec::Content {
                path: path@,
                expected: expected@,
                actual: actual@,
            },
        }
    }
}

/// The paths of `files`, in order.
pub open spec fn paths(files: Seq<FileSpec>) -> Seq<Seq<char>> {
    Seq::new(files.len(), |i: int| files[i].path)
}

/// Whether `actual` holds `file`: the first of its files at that path must
/// have the same text.
pub open spec fn file_matched(file: FileSpec, actual: Seq<FileSpec>) -> Result<(), MismatchSpec> {
    match find_file(actual, file.path) {
        None => Err(MismatchSpec::MissingFile { path: file.path, available: paths(actual) }),
        Some(j) => if actual[j].text == file.text {
            Ok(())
        } else {
            Err(
                MismatchSpec::Content {
                    path: file.path,
                    expected: file.text,
                    actual: actual[j].text,
                },
            )
        },
    }
}

/// Whether `actual` holds every file of `expected`; if not, the report on
/// the first that it does not hold.
pub open spec fn files_matched(expected: Seq<FileSpec>, actual: Seq<FileSpec>) -> Result<
    (),
    MismatchSpec,
>
    decreases expected.len(),
{
    if expected.len() == 0 {
        Ok(())
    } else {
        match file_matched(expected[0], actual) {
            Err(e) => Err(e),
            Ok(()) => files_matched(expected.drop_first(), actual),
        }
    }
}

/// The outcome of comparing `actual` with `expected`. The numbers of files
/// must agree; then every expected file must be found, by its path, with its
/// text.
pub open spec fn compared(expected: Seq<FileSpec>, actual: Seq<FileSpec>) -> Result<
    (),
    MismatchSpec,
> {
    if expected.len() != actual.len() {
        Err(
            MismatchSpec::FileCount {
                expected_paths: paths(expected),
                actual_paths: paths(actual),
            },
        )
    } else {
        files_matched(expected, actual)
    }
}

/// The decimal digit for `d`, which is less than ten.
pub open spec fn digit(d: nat) -> char {
    if d == 0 {
        '0'
    } else if d == 1 {
        '1'
    } else if d == 2 {
        '2'
    } else if d == 3 {
        '3'
    } else if d == 4 {
        '4'
    } else if d == 5 {
        '5'
    } else if d == 6 {
        '6'
    } else if d == 7 {
        '7'
    } else if d == 8 {
        '8'
    } else {
        '9'
    }
}

/// `n` in decimal digits.
pub open spec fn decimal(n: nat) -> Seq<char>
    decreases n,
{
    if n < 10 {
        seq![digit(n)]
    } else {
        decimal(n / 10).push(digit(n % 10))
    }
}

/// `items` with a comma and a space between each two of them.
pub open spec fn listed(items: Seq<Seq<char>>) -> Seq<char>
    decreases items.len(),
{
    if items.len() == 0 {
        Seq::empty()
    } else if items.len() == 1 {
        items[0]
    } else {
        listed(items.drop_last()) + ", "@ + items.last()
    }
}

/// The report on a mismatch, for a reader: what was expected and what was
/// found, with the paths or the texts of both sides in full.
pub open spec fn report(mismatch: MismatchSpec) -> Seq<char> {
    match mismatch {
        MismatchSpec::FileCount { expected_paths, actual_paths } =>
            "fixture file count mismatch: expected "@ + decimal(expected_paths.len())
                + " files, got "@ + decimal(actual_paths.len()) + "\nExpected: "@ + listed(
                expected_paths,
            ) + "\nActual: "@ + listed(actual_paths),
        MismatchSpec::MissingFile { path, available } => "missing file in actual: "@ + path
            + "\nActual files: "@ + listed(available),
        MismatchSpec::Content { path, expected, actual } => "file "@ + path
            + " content mismatch:\n\n--- Expected ---\n"@ + expected + "\n--- Actual ---\n"@
            + actual + "\n"@,
    }
}

/// The paths of the files of `fixture`.
fn paths_of(fixture: &Fixture) -> (out: Vec<String>)
    ensures
        strings_view(out@) == paths(fixture@),
{
    let mut out: Vec<String> = Vec::new();
    let mut i: usize = 0;
    while i < fixture.files.len()
        invariant
            i <= fixture.files.len(),
            strings_view(out@) == paths(fixture@).take(i as int),
        decreases fixture.files.len() - i,
    {
        out.push(fixture.files[i].path.clone());
        proof {
            assert(paths(fixture@).take(i + 1) == paths(fixture@).take(i as int).push(
                fixture.files[i as int].path@,
            ));
        }
        i += 1;
    }
    proof {
        assert(paths(fixture@).take(fixture.files.len() as int) == paths(fixture@));
    }
    out
}

/// Compares `actual` with `expected` and reports the first difference.
///
/// The fixtures agree where they hold the same number of files and, for
/// every expected file, the first actual file at its path holds its text.
/// For fixtures in which no path occurs twice this is equality up to order.
pub fn assert_fixture_eq(expected: &Fixture, actual: &Fixture) -> (r: Result<(), Mismatch>)
    ensures
        match r {
            Ok(()) => compared(expected@, actual@) is Ok,
            Err(e) => compared(expected@, actual@) == Err::<(), MismatchSpec>(e@),
        },
{
    if expected.files.len() != actual.files.len() {
        return Err(
            Mismatch::FileCount {
                expected_paths: paths_of(expected),
                actual_paths: paths_of(actual),
            },
        );
    }
    let mut i: usize = 0;
    proof {
        assert(expected@.skip(0) == expected@);
    }
    while i < expected.files.len()
        invariant
            i <= expected.files.len(),
            expected.files.len() == actual.files.len(),
            files_matched(expected@.skip(i as int), actual@) == files_matched(
                expected@,
                actual@,
            ),
        decreases expected.files.len() - i,
    {
        let wanted = &expected.files[i];
        proof {
            assert(expected@.skip(i as int)[0] == wanted@);
            assert(expected@.skip(i as int).drop_first() == expected@.skip(i + 1));
        }
        match actual.file(wanted.path.as_str()) {
            None => {
                return Err(
                    Mismatch::MissingFile {
                        path: wanted.path.clone(),
                        available: paths_of(actual),
                    },
                );
            },
            Some(found) => {
                proof {
                    let j = find_file(actual@, wanted.path@)->0;
                    lemma_find_file(actual@, wanted.path@);
                    assert(actual@[j] == found@);
                }
                if !(found.text == wanted.text) {
                    return Err(
                        Mismatch::Content {
                            path: wanted.path.clone(),
                            expected: wanted.text.clone(),
                            actual: found.text.clone(),
                        },
                    );
                }
            },
        }
        i += 1;
    }
    Ok(())
}

/// Appends `n` in decimal digits to `out`.
fn push_decimal(out: &mut String, n: usize)
    ensures
        final(out)@ == old(out)@ + decimal(n as nat),
    decreases n,
{
    if n >= 10 {
        push_decimal(out, n / 10);
    }
    let d = n % 10;
    let c = if d == 0 {
        '0'
    } else if d == 1 {
        '1'
    } else if d == 2 {
        '2'
    } else if d == 3 {
        '3'
    } else if d == 4 {
        '4'
    } else if d == 5 {
        '5'
    } else if d == 6 {
        '6'
    } else if d == 7 {
        '7'
    } else if d == 8 {
        '8'
    } else {
        '9'
    };
    let ghost before = out@;
    out.push(c);
    proof {
        if n < 10 {
            assert(before.push(c) == old(out)@ + seq![c]);
        } else {
            assert(before.push(c) == old(out)@ + decimal((n / 10) as nat).push(c));
        }
    }
}

/// Appends `items` to `out`, with a comma and a space between each two.
fn push_listed(out: &mut String, items: &Vec<String>)
    ensures
        final(out)@ == old(out)@ + listed(strings_view(items@)),
{
    let ghost all = strings_view(items@);
    let mut i: usize = 0;
    proof {
        assert(out@ + listed(all.take(0)) == out@);
    }
    while i < items.len()
        invariant
            i <= items.len(),
            all == strings_view(items@),
            out@ == old(out)@ + listed(all.take(i as int)),
        decreases items.len() - i,
    {
        let ghost before = out@;
        if i > 0 {
            out.append(", ");
        }
        out.append(items[i].as_str());
        proof {
            let next = all.take(i + 1);
            assert(next.drop_last() == all.take(i as int));
            assert(next.last() == items[i as int]@);
            if i > 0 {
                assert(out@ == old(out)@ + (listed(all.take(i as int)) + ", "@ + items[i as int]@));
            } else {
                assert(listed(all.take(0)) == Seq::<char>::empty());
                assert(out@ == old(out)@ + items[i as int]@);
            }
        }
        i += 1;
    }
    proof {
        assert(all.take(items.len() as int) == all);
    }
}

impl Mismatch {
    /// The report on the mismatch, for a reader.
    pub fn message(&self) -> (out: String)
        ensures
            out@ == report(self@),
    {
        let mut out = String::new();
        match self {
            Mismatch::FileCount { expected_paths, actual_paths } => {
                out.append("fixture file count mismatch: expected ");
                push_decimal(&mut out, expected_paths.len());
                out.append(" files, got ");
                push_decimal(&mut out, actual_paths.len());
                out.append("\nExpected: ");
                push_listed(&mut out, expected_paths);
                out.append("\nActual: ");
                push_listed(&mut out, actual_paths);
                proof {
                    assert(out@ == report(self@));
                }
            },
            Mismatch::MissingFile { path, available } => {
                out.append("missing file in actual: ");
                out.append(path.as_str());
                out.append("\nActual files: ");
                push_listed(&mut out, available);
                proof {
                    assert(out@ == report(self@));
                }
            },
            Mismatch::Content { path, expected, actual } => {
                out.append("file ");
                out.append(path.as_str());
                out.append(" content mismatch:\n\n--- Expected ---\n");
                out.append(expected.as_str());
                out.append("\n--- Actual ---\n");
                out.append(actual.as_str());
                out.append("\n");
                proof {
                    assert(out@ == report(self@));
                }
            },
        }
        out
    }
}

} // verus!
