use obex_server::cmd::Cmd;
use obex_server::paths::{
    ends_with_zip, file_name, is_git_dir, join_path, relative_to, strip_zip,
};
use obex_server::response_status::ErrorKind;
use obex_server::text::{bytes_eq, decode_text, same_text};
use obex_server::tracked_set::TrackedSet;

#[test]
fn join_path_puts_one_slash_between() {
    assert_eq!(join_path("", "a.txt"), "a.txt");
    assert_eq!(join_path("b", "c.txt"), "b/c.txt");
    assert_eq!(join_path("b/", "c.txt"), "b/c.txt");
    assert_eq!(join_path("b/c", ""), "b/c");
    assert_eq!(join_path("", ""), "");
    assert_eq!(join_path("dossier", "été"), "dossier/été");
}

#[test]
fn is_git_dir_is_exact() {
    assert!(is_git_dir(".git"));
    assert!(!is_git_dir(".gitignore"));
    assert!(!is_git_dir("b/.git"));
    assert!(!is_git_dir(".gi"));
    assert!(!is_git_dir(""));
}

#[test]
fn zip_suffix_is_taken_off_once() {
    assert!(ends_with_zip("b.zip"));
    assert!(ends_with_zip(".zip"));
    assert!(!ends_with_zip("zip"));
    assert!(!ends_with_zip("b.zip "));
    assert!(!ends_with_zip("b.ZIP"));
    assert!(ends_with_zip("é.zip"));
    assert_eq!(strip_zip("b.zip"), "b");
    assert_eq!(strip_zip("b.zip.zip"), "b.zip");
    assert_eq!(strip_zip("b"), "b");
    assert_eq!(strip_zip(".zip"), "");
    assert_eq!(strip_zip("é/ü.zip"), "é/ü");
}

#[test]
fn relative_to_strips_the_directory() {
    assert_eq!(relative_to("/r/b", "/r/b/c.txt"), Some(String::from("c.txt")));
    assert_eq!(relative_to("/r/b", "/r/b/x/y"), Some(String::from("x/y")));
    assert_eq!(relative_to("/r/b/", "/r/b/c.txt"), Some(String::from("c.txt")));
    assert_eq!(relative_to("/r/b", "/r/b"), Some(String::new()));
    assert_eq!(relative_to("", "c.txt"), Some(String::from("c.txt")));
    assert_eq!(relative_to("/r/b", "/r/bc/d"), None);
    assert_eq!(relative_to("/r/b", "/r/a/c.txt"), None);
    assert_eq!(relative_to("/r/b/c", "/r/b"), None);
    assert_eq!(relative_to("/é", "/é/ü"), Some(String::from("ü")));
}

#[test]
fn texts_are_compared_by_their_bytes() {
    assert!(bytes_eq(b"abc", b"abc"));
    assert!(!bytes_eq(b"abc", b"abd"));
    assert!(!bytes_eq(b"abc", b"ab"));
    assert!(bytes_eq(b"", b""));
    assert!(same_text("é", "é"));
    assert!(!same_text("é", "e"));
}

#[test]
fn decode_text_accepts_utf8_only() {
    assert_eq!(decode_text(b"plain"), Some(String::from("plain")));
    assert_eq!(decode_text("é".as_bytes()), Some(String::from("é")));
    assert_eq!(decode_text(&[0x66, 0xff]), None);
    assert_eq!(decode_text(b""), Some(String::new()));
}

#[test]
fn tracked_set_holds_the_lines() {
    let set = TrackedSet::parse(b"a.txt\nb/c.txt\n");
    assert!(set.contains("a.txt"));
    assert!(set.contains("b/c.txt"));
    assert!(!set.contains("b"));
    assert!(!set.contains("c.txt"));
    assert!(!set.contains("a.txt\n"));
    assert!(!set.contains("a.txt\nb/c.txt"));
}

#[test]
fn trailing_newline_tracks_no_empty_path() {
    assert!(!TrackedSet::parse(b"a.txt\n").contains(""));
    assert!(!TrackedSet::parse(b"\n\n").contains(""));
    assert!(!TrackedSet::parse(b"").contains(""));
    assert!(!TrackedSet::empty().contains(""));
    assert!(!TrackedSet::empty().contains("a"));
}

#[test]
fn last_line_needs_no_newline() {
    let set = TrackedSet::parse(b"a\nb");
    assert!(set.contains("a"));
    assert!(set.contains("b"));
}

#[test]
fn output_that_is_no_text_tracks_nothing() {
    let set = TrackedSet::parse(b"a.txt\n\xff\n");
    assert!(!set.contains("a.txt"));
}

#[test]
fn non_ascii_paths_are_tracked_by_their_bytes() {
    let set = TrackedSet::parse("été/ü.txt\n".as_bytes());
    assert!(set.contains("été/ü.txt"));
    assert!(!set.contains("ete/u.txt"));
}

#[test]
fn from_output_checks_the_exit_status() {
    let ok = TrackedSet::from_output(true, b"a\n", b"warning");
    assert!(ok.unwrap().contains("a"));
    let e = match TrackedSet::from_output(false, b"a\n", b"fatal: not a git repository") {
        Ok(_) => panic!("a failed listing gave a listed set"),
        Err(e) => e,
    };
    assert_eq!(e.kind, ErrorKind::ExternalTool);
    assert_eq!(
        e.message,
        "Failed to execute 'git ls-files' due to: fatal: not a git repository"
    );
}

#[test]
fn commands_are_fixed_word_by_word() {
    assert_eq!(Cmd::ls_files(), vec!["git", "ls-files"]);
    assert_eq!(Cmd::pull(), vec!["git", "pull", "--ff-only"]);
    assert_eq!(
        Cmd::clone_from("https://example.org/r.git; rm -rf /"),
        vec!["git", "clone", "https://example.org/r.git; rm -rf /", "."]
    );
}

#[test]
fn split_command_needs_a_program() {
    let (program, args) = Cmd::split_command(&vec!["git", "pull", "--ff-only"]).unwrap();
    assert_eq!(program, "git");
    assert_eq!(args, vec!["pull", "--ff-only"]);
    let (program, args) = Cmd::split_command(&vec!["true"]).unwrap();
    assert_eq!(program, "true");
    assert!(args.is_empty());
    let e = Cmd::split_command(&vec![]).unwrap_err();
    assert_eq!(e.kind, ErrorKind::ProcessLaunch);
    assert_eq!(e.message, "");
}

#[test]
fn launch_failure_quotes_every_word() {
    let e = Cmd::launch_failure("git", &vec!["pull", "--ff-only"], "No such file or directory");
    assert_eq!(e.kind, ErrorKind::ProcessLaunch);
    assert_eq!(
        e.message,
        "Failed to execute `'git' 'pull' '--ff-only'`: No such file or directory"
    );
    let e = Cmd::launch_failure("git", &vec![], "denied");
    assert_eq!(e.message, "Failed to execute `'git' ''`: denied");
    let e = Cmd::launch_failure("git", &vec!["status"], "denied");
    assert_eq!(e.message, "Failed to execute `'git' 'status'`: denied");
}

#[test]
fn tool_failure_names_the_command() {
    let e = Cmd::tool_failure("git clone", b"fatal: repository not found");
    assert_eq!(e.kind, ErrorKind::ExternalTool);
    assert_eq!(
        e.message,
        "Failed to execute 'git clone' due to: fatal: repository not found"
    );
}

#[test]
fn file_name_is_the_last_segment() {
    assert_eq!(file_name("/srv/obex/b.zip"), "b.zip");
    assert_eq!(file_name("b.zip"), "b.zip");
    assert_eq!(file_name("a/b/"), "");
    assert_eq!(file_name(""), "");
    assert_eq!(file_name("/"), "");
    assert_eq!(file_name("é/ü.zip"), "ü.zip");
}
