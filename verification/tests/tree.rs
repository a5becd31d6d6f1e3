use obex_server::listing::{DirListing, DirSlot};
use obex_server::models::{EntryType, TreeEntry, INVALID_SYMLINK};
use obex_server::response_status::{ErrorKind, ResponseStatus, Status};
use obex_server::tracked_set::TrackedSet;
use obex_server::traits::{Output, ProcessResult, Runner, WithStatus};
use obex_server::tree::{TreeShaker, DEFAULT_DEPTH};
use std::cell::RefCell;
use std::rc::Rc;

struct FixedStatus {
    success: bool,
    asked: Rc<RefCell<u32>>,
}

impl WithStatus for FixedStatus {
    fn success(&self) -> bool {
        *self.asked.borrow_mut() += 1;
        self.success
    }
}

struct ScriptedRunner {
    launch_error: Option<String>,
    success: bool,
    stdout: Vec<u8>,
    stderr: Vec<u8>,
    seen: Rc<RefCell<Vec<Vec<String>>>>,
    asked: Rc<RefCell<u32>>,
}

impl ScriptedRunner {
    fn new(success: bool, stdout: &[u8], stderr: &[u8]) -> ScriptedRunner {
        ScriptedRunner {
            launch_error: None,
            success,
            stdout: stdout.to_vec(),
            stderr: stderr.to_vec(),
            seen: Rc::new(RefCell::new(Vec::new())),
            asked: Rc::new(RefCell::new(0)),
        }
    }
}

impl Runner for ScriptedRunner {
    fn run(&self, cmd: Vec<&str>) -> Result<Output, ResponseStatus> {
        self.seen
            .borrow_mut()
            .push(cmd.iter().map(|w| w.to_string()).collect());
        match &self.launch_error {
            Some(message) => Err(ResponseStatus::new(
                ErrorKind::ProcessLaunch,
                message.clone(),
            )),
            None => Ok(Output {
                status: Box::new(FixedStatus {
                    success: self.success,
                    asked: self.asked.clone(),
                }),
                stdout: self.stdout.clone(),
                stderr: self.stderr.clone(),
            }),
        }
    }
}

fn file(name: &str, size: u64) -> DirSlot {
    DirSlot::File {
        name: name.to_string(),
        size: Ok(size),
    }
}

fn dir(name: &str, slots: Vec<DirSlot>) -> DirSlot {
    DirSlot::Directory {
        name: name.to_string(),
        contents: DirListing::Entries(slots),
    }
}

/// `a.txt` (5 bytes), and `b/` with `c.txt` (3 bytes) and `d.txt`.
fn sample_root() -> DirListing {
    DirListing::Entries(vec![
        file("a.txt", 5),
        dir("b", vec![file("c.txt", 3), file("d.txt", 7)]),
    ])
}

fn sample_tracked() -> TrackedSet {
    TrackedSet::parse(b"a.txt\nb/c.txt\n")
}

/// A tree in one line: `F name path size`, `L name path target`,
/// `D name path [children]` or `D name path -`.
fn show(entries: &Vec<TreeEntry>) -> String {
    let mut parts: Vec<String> = Vec::new();
    for e in entries {
        let part = match e.entry_type {
            EntryType::FILE => {
                assert!(e.children.is_none() && e.target.is_none());
                format!("F {} {} {}", e.name, e.full_path, e.size.unwrap())
            }
            EntryType::SYMLINK => {
                assert!(e.children.is_none() && e.size.is_none());
                format!("L {} {} {}", e.name, e.full_path, e.target.clone().unwrap())
            }
            EntryType::FOLDER => {
                assert!(e.size.is_none() && e.target.is_none());
                match &e.children {
                    Some(c) => format!("D {} {} [{}]", e.name, e.full_path, show(c)),
                    None => format!("D {} {} -", e.name, e.full_path),
                }
            }
        };
        parts.push(part);
    }
    parts.join(", ")
}

fn deepest_expansion(entries: &Vec<TreeEntry>) -> u32 {
    let mut deepest = 0;
    for e in entries {
        if let Some(c) = &e.children {
            deepest = deepest.max(1 + deepest_expansion(c));
        }
    }
    deepest
}

#[test]
fn get_tree_failed_git_command() {
    let obex_path = String::from("/foo/bar");

    let mock_cmd = ScriptedRunner::new(true, &[], &String::from("Oopsy").into_bytes());
    let seen = mock_cmd.seen.clone();
    let asked = mock_cmd.asked.clone();
    let testable = TreeShaker {
        obex_path,
        runner: Box::new(mock_cmd),
    };

    let tree = testable
        .get_tree("", None, &DirListing::Entries(vec![file("a.txt", 5)]))
        .unwrap();
    assert_eq!(show(&tree), "");
    assert_eq!(
        *seen.borrow(),
        vec![vec![String::from("git"), String::from("ls-files")]]
    );
    assert_eq!(*asked.borrow(), 1);
}

#[test]
fn unlimited_depth_shows_tracked_files_and_all_directories() {
    let tree = TreeShaker::process_tree("", &sample_tracked(), DEFAULT_DEPTH, &sample_root()).unwrap();
    assert_eq!(
        show(&tree),
        "F a.txt a.txt 5, D b b [F c.txt b/c.txt 3]"
    );
}

#[test]
fn depth_zero_leaves_directories_unexpanded() {
    let tree = TreeShaker::process_tree("", &sample_tracked(), 0, &sample_root()).unwrap();
    assert_eq!(show(&tree), "F a.txt a.txt 5, D b b -");
}

#[test]
fn depth_zero_does_not_need_the_directories_below() {
    let root = DirListing::Entries(vec![
        file("a.txt", 5),
        DirSlot::Directory {
            name: String::from("b"),
            contents: DirListing::Unexpanded,
        },
    ]);
    let tree = TreeShaker::process_tree("", &sample_tracked(), 0, &root).unwrap();
    assert_eq!(show(&tree), "F a.txt a.txt 5, D b b -");
}

#[test]
fn a_directory_that_was_not_read_fails_a_deeper_request() {
    let root = DirListing::Entries(vec![DirSlot::Directory {
        name: String::from("b"),
        contents: DirListing::Unexpanded,
    }]);
    let e = TreeShaker::process_tree("", &sample_tracked(), 1, &root).unwrap_err();
    assert_eq!(e.kind, ErrorKind::Io);
    assert_eq!(e.message, "Directory was not read: b");
}

#[test]
fn failed_listing_reports_what_git_said() {
    let runner = ScriptedRunner::new(false, b"a.txt\n", b"fatal: not a git repository");
    let shaker = TreeShaker {
        obex_path: String::from("/foo/bar"),
        runner: Box::new(runner),
    };
    let e = shaker.get_tree("", None, &sample_root()).unwrap_err();
    assert_eq!(e.kind, ErrorKind::ExternalTool);
    assert!(e.message.contains("fatal: not a git repository"));
    assert_eq!(
        e.message,
        "Failed to execute 'git ls-files' due to: fatal: not a git repository"
    );
    assert_eq!(e.status(), Status::InternalServerError);
}

#[test]
fn failed_listing_with_unreadable_stderr() {
    let run = Ok(ProcessResult {
        success: false,
        stdout: vec![],
        stderr: vec![0xff, 0xfe],
    });
    let e = TreeShaker::tree_from_run(run, "", None, &sample_root()).unwrap_err();
    assert_eq!(e.kind, ErrorKind::ExternalTool);
    assert_eq!(
        e.message,
        "Failed to execute 'git ls-files' due to: Error message not available due to non-UTF8 characters"
    );
}

#[test]
fn a_runner_that_cannot_start_git_fails_the_request() {
    let mut runner = ScriptedRunner::new(true, b"a.txt\n", b"");
    runner.launch_error = Some(String::from("no such program"));
    let shaker = TreeShaker {
        obex_path: String::from("/foo/bar"),
        runner: Box::new(runner),
    };
    let e = shaker.get_tree("", Some(3), &sample_root()).unwrap_err();
    assert_eq!(e.kind, ErrorKind::ProcessLaunch);
    assert_eq!(e.message, "no such program");
}

#[test]
fn get_tree_filters_by_what_git_printed() {
    let runner = ScriptedRunner::new(true, b"a.txt\nb/c.txt\n", b"");
    let shaker = TreeShaker {
        obex_path: String::from("/foo/bar"),
        runner: Box::new(runner),
    };
    let tree = shaker.get_tree("", None, &sample_root()).unwrap();
    assert_eq!(
        show(&tree),
        "F a.txt a.txt 5, D b b [F c.txt b/c.txt 3]"
    );
    let shallow = shaker.get_tree("", Some(0), &sample_root()).unwrap();
    assert_eq!(show(&shallow), "F a.txt a.txt 5, D b b -");
}

#[test]
fn a_subdirectory_is_listed_under_its_own_path() {
    let listing = DirListing::Entries(vec![file("c.txt", 3), file("d.txt", 7)]);
    let tree = TreeShaker::process_tree("b", &sample_tracked(), 5, &listing).unwrap();
    assert_eq!(show(&tree), "F c.txt b/c.txt 3");
}

#[test]
fn no_folder_is_expanded_below_the_depth() {
    let deep = DirListing::Entries(vec![dir(
        "a",
        vec![dir("b", vec![dir("c", vec![dir("d", vec![file("e", 1)])])])],
    )]);
    let listed = TrackedSet::parse(b"a/b/c/d/e\n");
    for depth in 0..6u32 {
        let tree = TreeShaker::process_tree("", &listed, depth, &deep).unwrap();
        assert!(deepest_expansion(&tree) <= depth);
        assert_eq!(deepest_expansion(&tree), depth.min(4));
    }
    let tree = TreeShaker::process_tree("", &listed, 2, &deep).unwrap();
    assert_eq!(show(&tree), "D a a [D b a/b [D c a/b/c -]]");
}

#[test]
fn untracked_directories_are_shown_and_untracked_files_are_not() {
    let root = DirListing::Entries(vec![
        dir("empty", vec![]),
        dir("untracked", vec![file("x", 1)]),
        file("loose", 2),
        DirSlot::Symlink {
            name: String::from("link"),
            target: Some(String::from("loose")),
        },
    ]);
    let tree = TreeShaker::process_tree("", &TrackedSet::empty(), 9, &root).unwrap();
    assert_eq!(show(&tree), "D empty empty [], D untracked untracked []");
}

#[test]
fn entries_keep_the_order_of_the_directory() {
    let root = DirListing::Entries(vec![file("z", 1), file("a", 2), file("m", 3)]);
    let tree = TreeShaker::process_tree("", &TrackedSet::parse(b"a\nm\nz"), 0, &root).unwrap();
    assert_eq!(show(&tree), "F z z 1, F a a 2, F m m 3");
}

#[test]
fn git_directory_is_omitted_even_when_tracked() {
    let root = DirListing::Entries(vec![
        dir(".git", vec![file("HEAD", 21)]),
        file("a.txt", 5),
    ]);
    let listed = TrackedSet::parse(b".git\n.git/HEAD\na.txt\n");
    let tree = TreeShaker::process_tree("", &listed, 9, &root).unwrap();
    assert_eq!(show(&tree), "F a.txt a.txt 5");
    let as_file = DirListing::Entries(vec![file(".git", 40)]);
    let tree = TreeShaker::process_tree("", &listed, 9, &as_file).unwrap();
    assert_eq!(show(&tree), "");
}

#[test]
fn git_directory_is_never_read() {
    let root = DirListing::Entries(vec![DirSlot::Directory {
        name: String::from(".git"),
        contents: DirListing::Unreadable(String::from("permission denied")),
    }]);
    let tree = TreeShaker::process_tree("", &TrackedSet::empty(), 9, &root).unwrap();
    assert_eq!(show(&tree), "");
}

#[test]
fn only_the_path_dot_git_is_omitted() {
    let root = DirListing::Entries(vec![dir("b", vec![dir(".git", vec![])])]);
    let tree = TreeShaker::process_tree("", &TrackedSet::empty(), 9, &root).unwrap();
    assert_eq!(show(&tree), "D b b [D .git b/.git []]");
}

#[test]
fn file_sizes_are_those_that_were_read() {
    let root = DirListing::Entries(vec![file("small", 0), file("huge", u64::MAX)]);
    let listed = TrackedSet::parse(b"small\nhuge\n");
    let tree = TreeShaker::process_tree("", &listed, 0, &root).unwrap();
    assert_eq!(tree[0].size, Some(0));
    assert_eq!(tree[1].size, Some(u64::MAX));
    let again = TreeShaker::process_tree("", &listed, 0, &root).unwrap();
    assert_eq!(show(&tree), show(&again));
}

#[test]
fn dangling_symlink_gets_the_placeholder() {
    let root = DirListing::Entries(vec![
        DirSlot::Symlink {
            name: String::from("good"),
            target: Some(String::from("../elsewhere")),
        },
        DirSlot::Symlink {
            name: String::from("bad"),
            target: None,
        },
    ]);
    let tree = TreeShaker::process_tree("", &TrackedSet::parse(b"good\nbad\n"), 0, &root).unwrap();
    assert_eq!(
        show(&tree),
        "L good good ../elsewhere, L bad bad INVALID SYMLINK"
    );
    assert_eq!(INVALID_SYMLINK, "INVALID SYMLINK");
}

#[test]
fn sockets_and_devices_are_left_out() {
    let root = DirListing::Entries(vec![
        DirSlot::Other {
            name: String::from("socket"),
        },
        file("a", 1),
    ]);
    let tree = TreeShaker::process_tree("", &TrackedSet::parse(b"socket\na\n"), 0, &root).unwrap();
    assert_eq!(show(&tree), "F a a 1");
}

#[test]
fn a_missing_root_is_not_found() {
    let e = TreeShaker::process_tree(
        "nope",
        &sample_tracked(),
        1,
        &DirListing::Missing(String::from("No such file or directory (os error 2)")),
    )
    .unwrap_err();
    assert_eq!(e.kind, ErrorKind::NotFound);
    assert_eq!(e.message, "Bad path: No such file or directory (os error 2)");
    assert_eq!(e.status(), Status::BadRequest);
    assert_eq!(e.status().code(), 400);
}

#[test]
fn an_unreadable_directory_fails_the_request() {
    let root = DirListing::Entries(vec![
        file("a.txt", 5),
        DirSlot::Directory {
            name: String::from("b"),
            contents: DirListing::Unreadable(String::from("permission denied")),
        },
    ]);
    let e = TreeShaker::process_tree("", &sample_tracked(), 1, &root).unwrap_err();
    assert_eq!(e.kind, ErrorKind::Io);
    assert_eq!(e.message, "permission denied");
    assert!(TreeShaker::process_tree("", &sample_tracked(), 0, &root).is_ok());
}

#[test]
fn an_unreadable_entry_fails_the_request() {
    let root = DirListing::Entries(vec![
        DirSlot::Failed(String::from("stale handle")),
        file("a.txt", 5),
    ]);
    let e = TreeShaker::process_tree("", &sample_tracked(), 1, &root).unwrap_err();
    assert_eq!(e.kind, ErrorKind::Io);
    assert_eq!(e.message, "stale handle");
}

#[test]
fn a_tracked_file_without_a_size_fails_the_request() {
    let tracked_file = DirListing::Entries(vec![DirSlot::File {
        name: String::from("a.txt"),
        size: Err(String::from("vanished")),
    }]);
    let e = TreeShaker::process_tree("", &sample_tracked(), 1, &tracked_file).unwrap_err();
    assert_eq!(e.kind, ErrorKind::Io);
    assert_eq!(e.message, "vanished");
    let untracked_file = DirListing::Entries(vec![DirSlot::File {
        name: String::from("other"),
        size: Err(String::from("vanished")),
    }]);
    assert_eq!(
        show(&TreeShaker::process_tree("", &sample_tracked(), 1, &untracked_file).unwrap()),
        ""
    );
}

#[test]
fn a_name_that_is_no_text_fails_the_request() {
    let root = DirListing::Entries(vec![DirSlot::Undecodable(String::from("caf\u{fffd}"))]);
    let e = TreeShaker::process_tree("", &sample_tracked(), 1, &root).unwrap_err();
    assert_eq!(e.kind, ErrorKind::InvalidEncoding);
    assert_eq!(e.message, "Name is not valid text: caf\u{fffd}");
    assert_eq!(e.status(), Status::InternalServerError);
}

#[test]
fn the_first_failure_decides() {
    let root = DirListing::Entries(vec![
        dir("b", vec![DirSlot::Failed(String::from("first"))]),
        DirSlot::Failed(String::from("second")),
    ]);
    let e = TreeShaker::process_tree("", &sample_tracked(), 1, &root).unwrap_err();
    assert_eq!(e.message, "first");
    let e = TreeShaker::process_tree("", &sample_tracked(), 0, &root).unwrap_err();
    assert_eq!(e.message, "second");
}

#[test]
fn default_depth_is_effectively_unlimited() {
    assert_eq!(DEFAULT_DEPTH, 32 * 1024);
    assert_eq!(TreeShaker::effective_depth(None), 32768);
    assert_eq!(TreeShaker::effective_depth(Some(0)), 0);
    assert_eq!(TreeShaker::effective_depth(Some(7)), 7);
}

#[test]
fn absolute_root_lies_below_the_repository() {
    let shaker = TreeShaker {
        obex_path: String::from("/srv/obex"),
        runner: Box::new(ScriptedRunner::new(true, b"", b"")),
    };
    assert_eq!(shaker.absolute_root(""), "/srv/obex");
    assert_eq!(shaker.absolute_root("b/c"), "/srv/obex/b/c");
}

#[test]
fn constructors_fill_what_belongs_to_the_kind() {
    let f = TreeEntry::file(String::from("a"), String::from("x/a"), 9);
    assert_eq!(show(&vec![f]), "F a x/a 9");
    let l = TreeEntry::symlink(String::from("l"), String::from("x/l"), None);
    assert_eq!(show(&vec![l]), "L l x/l INVALID SYMLINK");
    let l = TreeEntry::symlink(
        String::from("l"),
        String::from("x/l"),
        Some(String::from("t")),
    );
    assert_eq!(show(&vec![l]), "L l x/l t");
    let d = TreeEntry::folder(String::from("d"), String::from("x/d"), None);
    assert_eq!(show(&vec![d]), "D d x/d -");
    let d = TreeEntry::folder(
        String::from("d"),
        String::from("x/d"),
        Some(vec![TreeEntry::file(String::from("a"), String::from("x/d/a"), 1)]),
    );
    assert_eq!(show(&vec![d]), "D d x/d [F a x/d/a 1]");
}

#[test]
fn list_tracked_runs_git_once() {
    let runner = ScriptedRunner::new(true, b"a.txt\nb/c.txt\n", b"");
    let seen = runner.seen.clone();
    let shaker = TreeShaker {
        obex_path: String::from("/foo/bar"),
        runner: Box::new(runner),
    };
    let listed = shaker.list_tracked().unwrap();
    assert!(listed.contains("b/c.txt"));
    assert!(!listed.contains("b/d.txt"));
    assert_eq!(
        *seen.borrow(),
        vec![vec![String::from("git"), String::from("ls-files")]]
    );
}

#[test]
fn list_tracked_reports_a_failed_listing() {
    let runner = ScriptedRunner::new(false, b"", b"fatal: not a git repository");
    let shaker = TreeShaker {
        obex_path: String::from("/foo/bar"),
        runner: Box::new(runner),
    };
    let e = match shaker.list_tracked() {
        Ok(_) => panic!("a failed listing gave a tracked set"),
        Err(e) => e,
    };
    assert_eq!(e.kind, ErrorKind::ExternalTool);
    assert!(e.message.contains("fatal: not a git repository"));
    let e = match TreeShaker::tracked_from_run(Err(ResponseStatus::new(
        ErrorKind::ProcessLaunch,
        String::from("no git"),
    ))) {
        Ok(_) => panic!("a listing that never ran gave a tracked set"),
        Err(e) => e,
    };
    assert_eq!(e.kind, ErrorKind::ProcessLaunch);
    assert_eq!(e.message, "no git");
}

fn kinds(entries: &Vec<TreeEntry>, found: &mut Vec<EntryType>) {
    for e in entries {
        found.push(e.entry_type);
        if let Some(c) = &e.children {
            kinds(c, found);
        }
    }
}

#[test]
fn an_untracked_directory_is_shown_once_with_folders_only() {
    let root = DirListing::Entries(vec![
        dir(
            "b",
            vec![
                file("x", 1),
                dir("deep", vec![file("y", 2), dir("deeper", vec![])]),
                DirSlot::Symlink {
                    name: String::from("l"),
                    target: Some(String::from("x")),
                },
            ],
        ),
        dir("bc", vec![file("x", 3)]),
        file("b.txt", 4),
    ]);
    let listed = TrackedSet::parse(b"bc/x\nb.txt\n");
    let tree = TreeShaker::process_tree("", &listed, 9, &root).unwrap();
    assert_eq!(
        show(&tree),
        "D b b [D deep b/deep [D deeper b/deep/deeper []]], D bc bc [F x bc/x 3], F b.txt b.txt 4"
    );
    assert_eq!(tree.iter().filter(|e| e.full_path == "b").count(), 1);
    let mut found = Vec::new();
    kinds(tree[0].children.as_ref().unwrap(), &mut found);
    assert_eq!(found.len(), 2);
    assert!(found.iter().all(|kind| *kind == EntryType::FOLDER));
}

#[test]
fn membership_is_that_of_the_whole_path() {
    let root = DirListing::Entries(vec![
        file("x", 1),
        dir("a", vec![file("x", 2), dir("b", vec![file("x", 3)])]),
    ]);
    let listed = TrackedSet::parse(b"a/b/x\n");
    let tree = TreeShaker::process_tree("", &listed, 9, &root).unwrap();
    assert_eq!(show(&tree), "D a a [D b a/b [F x a/b/x 3]]");
    let listed = TrackedSet::parse(b"x\n");
    let tree = TreeShaker::process_tree("", &listed, 9, &root).unwrap();
    assert_eq!(show(&tree), "F x x 1, D a a [D b a/b []]");
}

#[test]
fn nothing_inside_git_is_shown_at_the_root() {
    let root = DirListing::Entries(vec![
        dir(".git", vec![file("HEAD", 21), dir("objects", vec![file("aa", 1)])]),
        dir(".github", vec![file("ci.yml", 9)]),
        file(".gitignore", 5),
    ]);
    let listed = TrackedSet::parse(b".git/HEAD\n.git/objects/aa\n.github/ci.yml\n.gitignore\n");
    let tree = TreeShaker::process_tree("", &listed, 9, &root).unwrap();
    assert_eq!(
        show(&tree),
        "D .github .github [F ci.yml .github/ci.yml 9], F .gitignore .gitignore 5"
    );
}

fn paths(entries: &Vec<TreeEntry>, found: &mut Vec<String>) {
    for e in entries {
        found.push(e.full_path.clone());
        if let Some(c) = &e.children {
            paths(c, found);
        }
    }
}

#[test]
fn every_path_is_shown_once_in_the_whole_tree() {
    let root = DirListing::Entries(vec![
        file("a", 1),
        dir("b", vec![file("a", 2), dir("b", vec![file("a", 3), file("b", 4)])]),
        dir("c", vec![dir("b", vec![file("a", 5)])]),
    ]);
    let listed = TrackedSet::parse(b"a\nb/a\nb/b/a\nb/b/b\nc/b/a\n");
    let tree = TreeShaker::process_tree("", &listed, 9, &root).unwrap();
    let mut found = Vec::new();
    paths(&tree, &mut found);
    assert_eq!(
        found,
        vec!["a", "b", "b/a", "b/b", "b/b/a", "b/b/b", "c", "c/b", "c/b/a"]
    );
    let mut sorted = found.clone();
    sorted.sort();
    sorted.dedup();
    assert_eq!(sorted.len(), found.len());
}
