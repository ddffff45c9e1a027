use v_fixtures::fs_standards::git::{Git, GitCommand, GitOutput};

fn command(args: &[&str]) -> GitCommand {
    GitCommand { dir: "/repo".to_owned(), args: args.iter().map(|a| a.to_string()).collect() }
}

fn output(success: bool, stdout: &str, stderr: &str) -> GitOutput {
    GitOutput { success, stdout: stdout.to_owned(), stderr: stderr.to_owned() }
}

#[test]
fn operations_name_their_commands() {
    let git = Git::open("/repo");
    assert_eq!(git.root, "/repo");
    assert_eq!(git.add_all(), command(&["add", "-A"]));
    assert_eq!(git.add(&["a.txt", "dir/b.txt"]), command(&["add", "a.txt", "dir/b.txt"]));
    assert_eq!(git.add(&[]), command(&["add"]));
    assert_eq!(git.commit("Initial commit"), command(&["commit", "-m", "Initial commit"]));
    assert_eq!(git.head_hash(), command(&["rev-parse", "HEAD"]));
    assert_eq!(git.current_branch(), command(&["rev-parse", "--abbrev-ref", "HEAD"]));
    assert_eq!(git.is_clean(), command(&["status", "--porcelain"]));
    assert_eq!(git.status(), command(&["status"]));
    assert_eq!(git.create_branch("feature"), command(&["branch", "feature"]));
    assert_eq!(git.checkout("master"), command(&["checkout", "master"]));
    assert_eq!(git.checkout_new_branch("feature"), command(&["checkout", "-b", "feature"]));
    assert_eq!(git.merge("feature"), command(&["merge", "feature", "-m", "Merge feature"]));
    assert_eq!(git.merge_abort(), command(&["merge", "--abort"]));
    assert_eq!(git.delete_branch("feature"), command(&["branch", "-D", "feature"]));
    assert_eq!(git.conflicted_files(), command(&["diff", "--name-only", "--diff-filter=U"]));
    assert_eq!(git.merge_head(), "/repo/.git/MERGE_HEAD");
}

#[test]
fn outcomes_are_read_from_the_output() {
    assert_eq!(output(true, "", "warning").checked(), Ok(()));
    assert_eq!(output(false, "out", "fatal: no").checked(), Err("fatal: no".to_owned()));
    assert_eq!(output(true, "  a0f7d74\n", "").trimmed_stdout(), "a0f7d74");
    assert!(output(true, "", "noise").stdout_is_empty());
    assert!(!output(true, " M file.txt\n", "").stdout_is_empty());
    assert_eq!(output(true, "a.txt\ndir/b.txt\n", "").stdout_lines(), vec!["a.txt", "dir/b.txt"]);
    assert_eq!(output(true, "CONFLICT", "err").merge_result(), Ok(()));
    assert_eq!(
        output(false, "CONFLICT (content)", "error: failed").merge_result(),
        Err("CONFLICT (content)\nerror: failed".to_owned())
    );
}
