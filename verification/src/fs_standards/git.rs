//! Git repositories in tests: which command each operation runs, and what
//! its outcome means.
//!
//! Nothing here starts a process. An operation gives the command to run; the
//! caller runs it and hands back what it left, as a [`GitOutput`].

use vstd::prelude::*;
use vstd::string::StringExecFns;
use crate::text::{join_path, lines_of, path_join, strings_view, text_lines, trim, trimmed};

verus! {

/// A command to run: the model of a [`GitCommand`].
pub struct CommandSpec {
    pub dir: Seq<char>,
    pub args: Seq<Seq<char>>,
}

/// One run of `git`: the directory to run it in and the arguments to give it.
#[derive(Clone, Debug, PartialEq, Eq)]
pub struct GitCommand {
    pub dir: String,
    pub args: Vec<String>,
}

impl View for GitCommand {
    type V = CommandSpec;

    open spec fn view(&self) -> CommandSpec {
        CommandSpec { dir: self.dir@, args: strings_view(self.args@) }
    }
}

/// What a run of `git` left behind.
#[derive(Clone, Debug, PartialEq, Eq)]
pub struct GitOutput {
    /// Whether the process exited with success.
    pub success: bool,
    /// What it wrote to its standard output.
    pub stdout: String,
    /// What it wrote to its standard error.
    pub stderr: String,
}

/// A git repository in some directory. The directory is not owned.
#[derive(Clone, Debug, PartialEq, Eq)]
pub struct Git {
    /// The repository's root.
    pub root: String,
}

/// The message of the commit that merges `branch`.
pub open spec fn merge_message(branch: Seq<char>) -> Seq<char> {
    "Merge "@ + branch
}

/// What a failed merge reports: what git wrote to its output, a newline, and
/// what it wrote to its error output.
pub open spec fn merge_report(stdout: Seq<char>, stderr: Seq<char>) -> Seq<char> {
    stdout + seq!['\n'] + stderr
}

impl Git {
    /// The repository at `root`, which is taken to exist.
    pub fn open(root: &str) -> (git: Git)
        ensures
            git.root@ == root@,
    {
        Git { root: root.to_owned() }
    }

    /// The run of `git` with `args` in this repository.
    fn command(&self, args: Vec<String>) -> (command: GitCommand)
        ensures
            command@ == (CommandSpec { dir: self.root@, args: strings_view(args@) }),
    {
        GitCommand { dir: self.root.clone(), args }
    }

    /// Stages every change: `git add -A`.
    pub fn add_all(&self) -> (command: GitCommand)
        ensures
            command@ == (CommandSpec { dir: self.root@, args: seq!["add"@, "-A"@] }),
    {
        let mut args: Vec<String> = Vec::new();
        args.push("add".to_owned());
        args.push("-A".to_owned());
        proof {
            assert(strings_view(args@) == seq!["add"@, "-A"@]);
        }
        self.command(args)
    }

    /// Stages the files at `paths`: `git add` and the paths.
    pub fn add(&self, paths: &[&str]) -> (command: GitCommand)
        ensures
            command@ == (CommandSpec {
                dir: self.root@,
                args: seq!["add"@] + Seq::new(paths@.len(), |i: int| paths@[i]@),
            }),
    {
        let ghost wanted = Seq::new(paths@.len(), |i: int| paths@[i]@);
        let mut args: Vec<String> = Vec::new();
        args.push("add".to_owned());
        let mut i: usize = 0;
        proof {
            assert(strings_view(args@) == seq!["add"@] + wanted.take(0));
        }
        while i < paths.len()
            invariant
                i <= paths.len(),
                wanted == Seq::new(paths@.len(), |i: int| paths@[i]@),
                strings_view(args@) == seq!["add"@] + wanted.take(i as int),
            decreases paths.len() - i,
        {
            let ghost before = strings_view(args@);
            let path = paths[i].to_owned();
            args.push(path);
            proof {
                assert(strings_view(args@) == before.push(path@));
                assert(wanted.take(i + 1) == wanted.take(i as int).push(path@));
                assert(before.push(path@) == seq!["add"@] + wanted.take(i + 1));
            }
            i += 1;
        }
        proof {
            assert(wanted.take(paths.len() as int) == wanted);
        }
        self.command(args)
    }

    /// Commits what is staged: `git commit -m` and the message. Whether it
    /// succeeded is told by [`GitOutput::checked`]; the new commit's hash is
    /// then asked for with [`Git::head_hash`].
    pub fn commit(&self, message: &str) -> (command: GitCommand)
        ensures
            command@ == (CommandSpec { dir: self.root@, args: seq!["commit"@, "-m"@, message@] }),
    {
        let mut args: Vec<String> = Vec::new();
        args.push("commit".to_owned());
        args.push("-m".to_owned());
        args.push(message.to_owned());
        proof {
            assert(strings_view(args@) == seq!["commit"@, "-m"@, message@]);
        }
        self.command(args)
    }

    /// Asks for the hash of the current commit: `git rev-parse HEAD`. The
    /// hash is the output, trimmed ([`GitOutput::trimmed_stdout`]).
    pub fn head_hash(&self) -> (command: GitCommand)
        ensures
            command@ == (CommandSpec { dir: self.root@, args: seq!["rev-parse"@, "HEAD"@] }),
    {
        let mut args: Vec<String> = Vec::new();
        args.push("rev-parse".to_owned());
        args.push("HEAD".to_owned());
        proof {
            assert(strings_view(args@) == seq!["rev-parse"@, "HEAD"@]);
        }
        self.command(args)
    }

    /// Asks for the name of the current branch: `git rev-parse --abbrev-ref
    /// HEAD`. The name is the output, trimmed.
    pub fn current_branch(&self) -> (command: GitCommand)
        ensures
            command@ == (CommandSpec {
                dir: self.root@,
                args: seq!["rev-parse"@, "--abbrev-ref"@, "HEAD"@],
            }),
    {
        let mut args: Vec<String> = Vec::new();
        args.push("rev-parse".to_owned());
        args.push("--abbrev-ref".to_owned());
        args.push("HEAD".to_owned());
        proof {
            assert(strings_view(args@) == seq!["rev-parse"@, "--abbrev-ref"@, "HEAD"@]);
        }
        self.command(args)
    }

    /// Asks whether anything is uncommitted: `git status --porcelain`. The
    /// working tree is clean where the output is empty
    /// ([`GitOutput::stdout_is_empty`]).
    pub fn is_clean(&self) -> (command: GitCommand)
        ensures
            command@ == (CommandSpec { dir: self.root@, args: seq!["status"@, "--porcelain"@] }),
    {
        let mut args: Vec<String> = Vec::new();
        args.push("status".to_owned());
        args.push("--porcelain".to_owned());
        proof {
            assert(strings_view(args@) == seq!["status"@, "--porcelain"@]);
        }
        self.command(args)
    }

    /// Asks for the status as git words it: `git status`.
    pub fn status(&self) -> (command: GitCommand)
        ensures
            command@ == (CommandSpec { dir: self.root@, args: seq!["status"@] }),
    {
        let mut args: Vec<String> = Vec::new();
        args.push("status".to_owned());
        proof {
            assert(strings_view(args@) == seq!["status"@]);
        }
        self.command(args)
    }

    /// Creates the branch `name`: `git branch` and the name.
    pub fn create_branch(&self, name: &str) -> (command: GitCommand)
        ensures
            command@ == (CommandSpec { dir: self.root@, args: seq!["branch"@, name@] }),
    {
        let mut args: Vec<String> = Vec::new();
        args.push("branch".to_owned());
        args.push(name.to_owned());
        proof {
            assert(strings_view(args@) == seq!["branch"@, name@]);
        }
        self.command(args)
    }

    /// Switches to the branch `name`: `git checkout` and the name.
    pub fn checkout(&self, name: &str) -> (command: GitCommand)
        ensures
            command@ == (CommandSpec { dir: self.root@, args: seq!["checkout"@, name@] }),
    {
        let mut args: Vec<String> = Vec::new();
        args.push("checkout".to_owned());
        args.push(name.to_owned());
        proof {
            assert(strings_view(args@) == seq!["checkout"@, name@]);
        }
        self.command(args)
    }

    /// Creates the branch `name` and switches to it: `git checkout -b` and
    /// the name.
    pub fn checkout_new_branch(&self, name: &str) -> (command: GitCommand)
        ensures
            command@ == (CommandSpec { dir: self.root@, args: seq!["checkout"@, "-b"@, name@] }),
    {
        let mut args: Vec<String> = Vec::new();
        args.push("checkout".to_owned());
        args.push("-b".to_owned());
        args.push(name.to_owned());
        proof {
            assert(strings_view(args@) == seq!["checkout"@, "-b"@, name@]);
        }
        self.command(args)
    }

    /// Merges `branch` into the current branch: `git merge`, the branch, and
    /// `-m` with the message `Merge` and the branch. What became of it is
    /// told by [`GitOutput::merge_result`].
    pub fn merge(&self, branch: &str) -> (command: GitCommand)
        ensures
            command@ == (CommandSpec {
                dir: self.root@,
                args: seq!["merge"@, branch@, "-m"@, merge_message(branch@)],
            }),
    {
        let mut message = "Merge ".to_owned();
        message.append(branch);
        let mut args: Vec<String> = Vec::new();
        args.push("merge".to_owned());
        args.push(branch.to_owned());
        args.push("-m".to_owned());
        args.push(message);
        proof {
            assert(strings_view(args@) == seq!["merge"@, branch@, "-m"@, merge_message(branch@)]);
        }
        self.command(args)
    }

    /// Gives up a merge that is under way: `git merge --abort`. Its outcome
    /// is of no account.
    pub fn merge_abort(&self) -> (command: GitCommand)
        ensures
            command@ == (CommandSpec { dir: self.root@, args: seq!["merge"@, "--abort"@] }),
    {
        let mut args: Vec<String> = Vec::new();
        args.push("merge".to_owned());
        args.push("--abort".to_owned());
        proof {
            assert(strings_view(args@) == seq!["merge"@, "--abort"@]);
        }
        self.command(args)
    }

    /// Deletes the branch `name`: `git branch -D` and the name. Its outcome
    /// is of no account.
    pub fn delete_branch(&self, name: &str) -> (command: GitCommand)
        ensures
            command@ == (CommandSpec { dir: self.root@, args: seq!["branch"@, "-D"@, name@] }),
    {
        let mut args: Vec<String> = Vec::new();
        args.push("branch".to_owned());
        args.push("-D".to_owned());
        args.push(name.to_owned());
        proof {
            assert(strings_view(args@) == seq!["branch"@, "-D"@, name@]);
        }
        self.command(args)
    }

    /// The file whose presence tells that a merge stopped on conflicts:
    /// `.git/MERGE_HEAD` below the root.
    pub fn merge_head(&self) -> (probe: String)
        ensures
            probe@ == path_join(self.root@, ".git/MERGE_HEAD"@),
    {
        join_path(self.root.as_str(), ".git/MERGE_HEAD")
    }

    /// Asks for the files with conflicts: `git diff --name-only
    /// --diff-filter=U`. The files are the lines of the output
    /// ([`GitOutput::stdout_lines`]).
    pub fn conflicted_files(&self) -> (command: GitCommand)
        ensures
            command@ == (CommandSpec {
                dir: self.root@,
                args: seq!["diff"@, "--name-only"@, "--diff-filter=U"@],
            }),
    {
        let mut args: Vec<String> = Vec::new();
        args.push("diff".to_owned());
        args.push("--name-only".to_owned());
        args.push("--diff-filter=U".to_owned());
        proof {
            assert(strings_view(args@) == seq!["diff"@, "--name-only"@, "--diff-filter=U"@]);
        }
        self.command(args)
    }
}

impl GitOutput {
    /// Whether the command succeeded; if not, what it wrote to its error
    /// output.
    pub fn checked(&self) -> (r: Result<(), String>)
        ensures
            match r {
                Ok(()) => self.success,
                Err(e) => !self.success && e@ == self.stderr@,
            },
    {
        if self.success {
            Ok(())
        } else {
            Err(self.stderr.clone())
        }
    }

    /// The output without the white space around it.
    pub fn trimmed_stdout(&self) -> (out: String)
        ensures
            out@ == trimmed(self.stdout@),
    {
        trim(self.stdout.as_str())
    }

    /// Whether the command wrote nothing to its output.
    pub fn stdout_is_empty(&self) -> (b: bool)
        ensures
            b == (self.stdout@.len() == 0),
    {
        self.stdout.as_str().is_empty()
    }

    /// The lines of the output.
    pub fn stdout_lines(&self) -> (lines: Vec<String>)
        ensures
            strings_view(lines@) == text_lines(self.stdout@),
    {
        lines_of(self.stdout.as_str())
    }

    /// What became of a merge: done where the command succeeded; else the
    /// report of what git said.
    pub fn merge_result(&self) -> (r: Result<(), String>)
        ensures
            match r {
                Ok(()) => self.success,
                Err(e) => !self.success && e@ == merge_report(self.stdout@, self.stderr@),
            },
    {
        if self.success {
            return Ok(());
        }
        let mut report = self.stdout.clone();
        report.push('\n');
        report.append(self.stderr.as_str());
        Err(report)
    }
}

} // verus!
