use file_server::protocol::{get_reply, list_reply, plan, put_reply, verb_is, Request};
use file_server::session::{Phase, Session};
use file_server::text::{space, split_words};
use std::collections::BTreeMap;

/// Handles one line against an in-memory store whose reads and writes
/// succeed; `None` is no reply.
fn serve(store: &mut BTreeMap<String, String>, line: &str) -> Option<String> {
    match plan(line) {
        Request::Skip => None,
        Request::Reply(t) => Some(t),
        Request::Read(name) => Some(get_reply(store.get(&name).cloned())),
        Request::Write(name, contents) => {
            store.insert(name, contents);
            Some(put_reply(true))
        }
        Request::List => {
            let names: Vec<String> = store.keys().cloned().collect();
            Some(list_reply(&names))
        }
    }
}

#[test]
fn put_then_get_returns_contents_with_newline() {
    let mut store = BTreeMap::new();
    assert_eq!(
        serve(&mut store, "PUT notes hello world"),
        Some("File written successfully\n".to_string())
    );
    assert_eq!(serve(&mut store, "GET notes"), Some("hello world\n".to_string()));
}

#[test]
fn put_overwrites_earlier_contents() {
    let mut store = BTreeMap::new();
    serve(&mut store, "PUT f first");
    serve(&mut store, "PUT f second");
    assert_eq!(serve(&mut store, "GET f"), Some("second\n".to_string()));
}

#[test]
fn get_of_unwritten_name_is_not_found() {
    let mut store = BTreeMap::new();
    assert_eq!(serve(&mut store, "GET nothing"), Some("File not found\n".to_string()));
}

#[test]
fn ls_lists_each_written_name_once() {
    let mut store = BTreeMap::new();
    serve(&mut store, "PUT a 1");
    serve(&mut store, "PUT b 2");
    serve(&mut store, "PUT c 3");
    let reply = serve(&mut store, "LS").unwrap();
    assert!(reply.ends_with('\n'));
    let mut lines: Vec<&str> = reply.lines().collect();
    lines.sort();
    assert_eq!(lines, vec!["a", "b", "c"]);
}

#[test]
fn ls_on_empty_store_says_no_files() {
    let mut store = BTreeMap::new();
    assert_eq!(serve(&mut store, "LS"), Some("No files found\n".to_string()));
    assert_eq!(list_reply(&Vec::new()), "No files found\n");
}

#[test]
fn list_reply_puts_each_name_on_its_own_line() {
    let names = vec!["x".to_string(), "y.txt".to_string()];
    assert_eq!(list_reply(&names), "x\ny.txt\n");
}

#[test]
fn put_collapses_spacing_between_words() {
    let mut store = BTreeMap::new();
    serve(&mut store, "PUT x one two three");
    assert_eq!(serve(&mut store, "GET x"), Some("one two three\n".to_string()));
    serve(&mut store, "  PUT   y\tone   two \t three  ");
    assert_eq!(serve(&mut store, "GET y"), Some("one two three\n".to_string()));
}

#[test]
fn get_without_name_is_usage_error() {
    assert_eq!(
        plan("GET"),
        Request::Reply("Invalid GET command! Expected filename!\n".to_string())
    );
}

#[test]
fn put_without_contents_is_usage_error() {
    let usage = Request::Reply("Invalid PUT command! Expected filename and Contents\n".to_string());
    assert_eq!(plan("PUT onlyname"), usage);
    assert_eq!(plan("put"), usage);
}

#[test]
fn unknown_verb_is_unknown_command() {
    assert_eq!(plan("FOO bar"), Request::Reply("Unknown command\n".to_string()));
    assert_eq!(plan("GETS a"), Request::Reply("Unknown command\n".to_string()));
    assert_eq!(plan("LSX"), Request::Reply("Unknown command\n".to_string()));
}

#[test]
fn verbs_match_ignoring_case() {
    assert_eq!(plan("Get a"), Request::Read("a".to_string()));
    assert_eq!(plan("gEt a"), plan("GET a"));
    assert_eq!(plan("pUt a b"), Request::Write("a".to_string(), "b\n".to_string()));
    assert_eq!(plan("Ls"), Request::List);
    assert_eq!(plan("lS"), Request::List);
    assert_eq!(
        plan("Put a"),
        Request::Reply("Invalid PUT command! Expected filename and Contents\n".to_string())
    );
    assert!(verb_is(&"gEt".to_string(), "GET"));
    assert!(!verb_is(&"ge".to_string(), "GET"));
    assert!(!verb_is(&"g3t".to_string(), "GET"));
}

#[test]
fn lower_case_verbs_are_accepted() {
    assert_eq!(plan("get a"), Request::Read("a".to_string()));
    assert_eq!(plan("put a b"), Request::Write("a".to_string(), "b\n".to_string()));
    assert_eq!(plan("ls"), Request::List);
}

#[test]
fn get_ignores_words_after_the_name() {
    assert_eq!(plan("GET a b"), Request::Read("a".to_string()));
}

#[test]
fn blank_line_gets_no_reply_and_session_goes_on() {
    let mut store = BTreeMap::new();
    assert_eq!(serve(&mut store, ""), None);
    assert_eq!(serve(&mut store, " \t \u{3000} "), None);
    let mut s = Session::new();
    assert_eq!(s.on_input(Some("   ")), Some(Request::Skip));
    assert_eq!(s.phase(), Phase::AwaitingLine);
    assert_eq!(s.on_input(Some("LS")), Some(Request::List));
    assert_eq!(s.phase(), Phase::Dispatching);
}

#[test]
fn session_handles_commands_in_sequence() {
    let mut store = BTreeMap::new();
    let mut s = Session::new();
    let mut replies = Vec::new();
    for line in ["LS", "GET a", "PUT a hi", "GET a"] {
        let req = s.on_input(Some(line)).unwrap();
        assert_eq!(s.phase(), Phase::Dispatching);
        assert_eq!(req, plan(line));
        replies.push(serve(&mut store, line).unwrap());
        s.on_sent(true);
        assert_eq!(s.phase(), Phase::AwaitingLine);
    }
    assert_eq!(
        replies,
        vec![
            "No files found\n".to_string(),
            "File not found\n".to_string(),
            "File written successfully\n".to_string(),
            "hi\n".to_string(),
        ]
    );
}

#[test]
fn session_closes_at_end_of_input() {
    let mut s = Session::new();
    assert_eq!(s.on_input(None), None);
    assert_eq!(s.phase(), Phase::Closed);
}

#[test]
fn session_closes_after_failed_send() {
    let mut s = Session::new();
    s.on_input(Some("LS"));
    s.on_sent(false);
    assert_eq!(s.phase(), Phase::Closed);
}

#[test]
fn replies_for_outcomes() {
    assert_eq!(get_reply(Some("abc".to_string())), "abc");
    assert_eq!(get_reply(None), "File not found\n");
    assert_eq!(put_reply(true), "File written successfully\n");
    assert_eq!(put_reply(false), "Failed to write file\n");
}

#[test]
fn words_split_on_unicode_whitespace() {
    assert_eq!(split_words("  a\tb\u{a0}c\u{2003}dd  "), vec!["a", "b", "c", "dd"]);
    assert!(split_words("").is_empty());
    assert!(space('\u{85}'));
    assert!(space('\r'));
    assert!(!space('x'));
    assert!(!space('\u{200b}'));
}
