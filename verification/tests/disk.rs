use std::cell::RefCell;
use std::collections::BTreeMap;
use std::path::Path;

use v_fixtures::{Fixture, FixtureFile, TempFixture};

/// A directory tree held in memory: the text of each file by its full path.
/// It stands in for the disk, so that the tests touch no file system.
struct Disk {
    files: RefCell<BTreeMap<String, String>>,
}

impl Disk {
    fn write(&self, path: &str, content: &str) {
        self.files.borrow_mut().insert(path.to_owned(), content.to_owned());
    }

    /// Whether a file or a directory lies at `path`.
    fn holds(&self, path: &str) -> bool {
        self.files.borrow().keys().any(|file| Path::new(file).starts_with(path))
    }

    /// Every file at or below `base`, with its full path, as a walk finds them.
    fn walk(&self, base: &str) -> Vec<FixtureFile> {
        self.files
            .borrow()
            .iter()
            .filter(|(path, _)| Path::new(path).starts_with(base))
            .map(|(path, text)| FixtureFile { path: path.clone(), text: text.clone() })
            .collect()
    }
}

/// A path on a [`Disk`].
struct DiskPath<'a> {
    disk: &'a Disk,
    path: String,
}

impl DiskPath<'_> {
    fn is_present(&self) -> bool {
        self.disk.holds(&self.path)
    }
}

/// A fixture written to a directory of a [`Disk`].
struct OnDisk {
    disk: Disk,
    temp: TempFixture,
}

impl OnDisk {
    fn cwd(self, path: &str) -> OnDisk {
        OnDisk { disk: self.disk, temp: self.temp.cwd(path) }
    }

    fn path(&self, relative: &str) -> DiskPath<'_> {
        DiskPath { disk: &self.disk, path: self.temp.path(relative) }
    }

    fn read(&self, relative: &str) -> String {
        self.try_read(relative).expect("failed to read file")
    }

    fn try_read(&self, relative: &str) -> Option<String> {
        self.disk.files.borrow().get(&self.temp.path(relative)).cloned()
    }

    fn write(&self, relative: &str, content: &str) {
        self.disk.write(&self.temp.path(relative), content);
    }

    fn remove(&self, relative: &str) {
        self.disk.files.borrow_mut().remove(&self.temp.path(relative));
    }

    fn read_all(&self) -> Fixture {
        let texts: Vec<String> = self.temp.files.iter().map(|f| self.read(&f.path)).collect();
        self.temp.read_all(&texts).expect("one text for each file")
    }

    fn read_all_from_disk(&self) -> Fixture {
        self.temp.read_all_from_disk(&self.disk.walk(&self.temp.effective_cwd()))
    }

    fn read_from_directory(&self, path: &str) -> Option<Fixture> {
        if !self.disk.holds(path) {
            return None;
        }
        Some(Fixture::read_from_directory(path, &self.disk.walk(path)))
    }
}

fn write_to_tempdir(fixture: &Fixture) -> OnDisk {
    let disk = Disk { files: RefCell::new(BTreeMap::new()) };
    let temp = TempFixture::new("/tmp/v_fixture_x1".to_owned(), fixture.files.clone());
    for file in temp.writes() {
        disk.write(&file.path, &file.text);
    }
    OnDisk { disk, temp }
}

#[test]
fn test_write_and_read_tempdir() {
    let fixture = Fixture::parse(
        r#"
            //- /src/main.rs
            fn main() {}
            //- /src/lib.rs
            pub fn hello() {}
        "#,
    ).unwrap();
    let temp = write_to_tempdir(&fixture);

    assert!(temp.path("/src/main.rs").is_present());
    assert!(temp.path("/src/lib.rs").is_present());
    assert!(temp.read("/src/main.rs").contains("fn main()"));
    assert!(temp.read("/src/lib.rs").contains("pub fn hello()"));
}

#[test]
fn test_read_all_from_disk() {
    let fixture = Fixture::parse(
        r#"
            //- /a.rs
            a
            //- /b.rs
            b
        "#,
    ).unwrap();
    let temp = write_to_tempdir(&fixture);

    // Add a new file
    temp.write("/c.rs", "c\n");

    let result = temp.read_all_from_disk();
    assert_eq!(result.files.len(), 3);
    assert!(result.contains("/a.rs"));
    assert!(result.contains("/b.rs"));
    assert!(result.contains("/c.rs"));
}

#[test]
fn test_cwd_filters_files() {
    let fixture = Fixture::parse(
        r#"
//- /data/app/file.txt
app content
//- /data/other/file.txt
other content
//- /cache/temp.txt
temp
"#,
    ).unwrap();
    let temp = write_to_tempdir(&fixture).cwd("data/app");

    let result = temp.read_all_from_disk();
    assert_eq!(result.files.len(), 1);
    assert_eq!(result.files[0].path, "/file.txt");
    assert!(result.files[0].text.contains("app content"));
}

#[test]
fn test_cwd_with_leading_slash() {
    let fixture = Fixture::parse(
        r#"
//- /src/main.rs
fn main() {}
//- /tests/test.rs
fn test() {}
"#,
    ).unwrap();
    // Both "/src" and "src" should work the same
    let temp = write_to_tempdir(&fixture).cwd("/src");

    let result = temp.read_all_from_disk();
    assert_eq!(result.files.len(), 1);
    assert_eq!(result.files[0].path, "/main.rs");
}

#[test]
fn test_cwd_nested_paths() {
    let fixture = Fixture::parse(
        r#"
//- /data/todo/blockers/work.md
- task 1
//- /data/todo/blockers/home.md
- task 2
//- /data/todo/config.json
{}
"#,
    ).unwrap();
    let temp = write_to_tempdir(&fixture).cwd("data/todo");

    let result = temp.read_all_from_disk();
    assert_eq!(result.files.len(), 3);
    assert!(result.contains("/blockers/work.md"));
    assert!(result.contains("/blockers/home.md"));
    assert!(result.contains("/config.json"));
}

#[test]
fn test_no_cwd_includes_all() {
    let fixture = Fixture::parse(
        r#"
//- /data/file.txt
data
//- /cache/file.txt
cache
"#,
    ).unwrap();
    let temp = write_to_tempdir(&fixture);

    let result = temp.read_all_from_disk();
    assert_eq!(result.files.len(), 2);
    assert!(result.contains("/data/file.txt"));
    assert!(result.contains("/cache/file.txt"));
}

#[test]
fn test_read_from_directory() {
    // Create a temp directory with some files
    let fixture = Fixture::parse(
        r#"
//- /src/main.rs
fn main() {}
//- /src/lib.rs
pub fn lib() {}
//- /README.md
# Test
"#,
    ).unwrap();
    let temp = write_to_tempdir(&fixture);

    // Read it back using read_from_directory
    let result = temp.read_from_directory(&temp.temp.root).unwrap();
    assert_eq!(result.files.len(), 3);
    assert!(result.contains("/src/main.rs"));
    assert!(result.contains("/src/lib.rs"));
    assert!(result.contains("/README.md"));
}

#[test]
fn test_read_from_directory_nonexistent() {
    let temp = write_to_tempdir(&Fixture::default());
    let result = temp.read_from_directory("/nonexistent/path/that/does/not/exist");
    assert!(result.is_none());
}

#[test]
fn test_read_from_directory_skips_git() {
    let fixture = Fixture::parse(
        r#"
//- /file.txt
content
//- /.git/config
git config
//- /.git/HEAD
ref: refs/heads/main
"#,
    ).unwrap();
    let temp = write_to_tempdir(&fixture);

    let result = temp.read_from_directory(&temp.temp.root).unwrap();
    // Should only have file.txt, not .git contents
    assert_eq!(result.files.len(), 1);
    assert!(result.contains("/file.txt"));
}


#[test]
fn materialized_files_read_back_as_written() {
    let fixture = Fixture::parse("//- /a.rs\na\n//- /deep/er/b.rs\nb\nb2\n//- /c.txt\n").unwrap();
    let temp = write_to_tempdir(&fixture);
    for file in &fixture.files {
        assert_eq!(temp.read(&file.path), file.text);
    }
    assert_eq!(temp.read_all(), fixture);
}

#[test]
fn later_write_to_the_same_path_wins_on_disk() {
    let fixture = Fixture::parse("//- /a.rs\nfirst\n//- /a.rs\nsecond\n").unwrap();
    assert_eq!(fixture.files.len(), 2);
    let temp = write_to_tempdir(&fixture);
    assert_eq!(temp.read("/a.rs"), "second\n");
    assert_eq!(temp.read_all_from_disk().files.len(), 1);
}

#[test]
fn scoped_read_back_sees_one_subtree() {
    let fixture = Fixture::parse("//- /data/app/x\nin app\n//- /data/other/y\nother\n//- /cache/z\ncache\n").unwrap();
    let temp = write_to_tempdir(&fixture).cwd("data/app");
    let result = temp.read_all_from_disk();
    assert_eq!(
        result.files,
        vec![FixtureFile { path: "/x".to_owned(), text: "in app\n".to_owned() }]
    );
}

#[test]
fn read_back_finds_added_files_in_path_order() {
    let fixture = Fixture::parse("//- /a.rs\na\n//- /b.rs\nb\n").unwrap();
    assert_eq!(fixture.files.len(), 2);
    assert_eq!(fixture.files[0].path, "/a.rs");
    assert_eq!(fixture.files[1].path, "/b.rs");
    assert_eq!(fixture.files[0].text, "a\n");
    assert_eq!(fixture.files[1].text, "b\n");
    let temp = write_to_tempdir(&fixture);
    temp.write("/c.rs", "c\n");
    let result = temp.read_all_from_disk();
    let paths: Vec<&str> = result.files.iter().map(|f| f.path.as_str()).collect();
    assert_eq!(paths, vec!["/a.rs", "/b.rs", "/c.rs"]);
    assert_eq!(result.files[2].text, "c\n");
}

#[test]
fn read_back_omits_removed_files() {
    let fixture = Fixture::parse("//- /a.rs\na\n//- /b.rs\nb\n").unwrap();
    let temp = write_to_tempdir(&fixture);
    temp.remove("/a.rs");
    assert_eq!(temp.try_read("/a.rs"), None);
    let result = temp.read_all_from_disk();
    assert_eq!(result.files, vec![FixtureFile { path: "/b.rs".to_owned(), text: "b\n".to_owned() }]);
}
