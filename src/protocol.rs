//! What one command line asks of the file store, and the reply text that
//! goes back for each outcome.

use vstd::prelude::*;
use vstd::string::*;
use crate::text::{join, join_from, split_words, views, words};

verus! {

/// What a command line asks for.
#[derive(Debug, PartialEq, Eq)]
pub enum Request {
    /// A blank line: nothing is done and nothing is sent.
    Skip,
    /// A reply that needs no file access.
    Reply(String),
    /// Read the named file.
    Read(String),
    /// Write the named file with the given contents.
    Write(String, String),
    /// List the directory.
    List,
}

/// The mathematical form of a `Request`.
pub enum RequestView {
    Skip,
    Reply(Seq<char>),
    Read(Seq<char>),
    Write(Seq<char>, Seq<char>),
    List,
}

impl View for Request {
    type V = RequestView;

    open spec fn view(&self) -> RequestView {
        match self {
            Request::Skip => RequestView::Skip,
            Request::Reply(t) => RequestView::Reply(t@),
            Request::Read(n) => RequestView::Read(n@),
            Request::Write(n, c) => RequestView::Write(n@, c@),
            Request::List => RequestView::List,
        }
    }
}

pub open spec fn get_usage() -> Seq<char> {
    "Invalid GET command! Expected filename!\n"@
}

pub open spec fn put_usage() -> Seq<char> {
    "Invalid PUT command! Expected filename and Contents\n"@
}

pub open spec fn unknown_reply() -> Seq<char> {
    "Unknown command\n"@
}

pub open spec fn not_found_reply() -> Seq<char> {
    "File not found\n"@
}

pub open spec fn written_reply() -> Seq<char> {
    "File written successfully\n"@
}

pub open spec fn write_failed_reply() -> Seq<char> {
    "Failed to write file\n"@
}

pub open spec fn no_files_reply() -> Seq<char> {
    "No files found\n"@
}

/// The code of `c` with an ASCII lower-case letter taken to upper case.
pub open spec fn upper_code(c: char) -> u32 {
    if 'a' <= c && c <= 'z' {
        (c as u32 - 32) as u32
    } else {
        c as u32
    }
}

/// `w` is `verb` where ASCII letters are compared ignoring case; `verb` is
/// written in upper case.
pub open spec fn is_verb(w: Seq<char>, verb: Seq<char>) -> bool {
    w.len() == verb.len() && forall|i: int| 0 <= i < w.len() ==> upper_code(#[trigger] w[i])
        == verb[i] as u32
}

pub open spec fn is_get(w: Seq<char>) -> bool {
    is_verb(w, "GET"@)
}

pub open spec fn is_put(w: Seq<char>) -> bool {
    is_verb(w, "PUT"@)
}

pub open spec fn is_ls(w: Seq<char>) -> bool {
    is_verb(w, "LS"@)
}

/// What the words of a command line ask for.
pub open spec fn request_of_words(w: Seq<Seq<char>>) -> RequestView {
    if w.len() == 0 {
        RequestView::Skip
    } else if is_get(w[0]) {
        if w.len() < 2 {
            RequestView::Reply(get_usage())
        } else {
            RequestView::Read(w[1])
        }
    } else if is_put(w[0]) {
        if w.len() < 3 {
            RequestView::Reply(put_usage())
        } else {
            RequestView::Write(w[1], join(w.subrange(2, w.len() as int)) + seq!['\n'])
        }
    } else if is_ls(w[0]) {
        RequestView::List
    } else {
        RequestView::Reply(unknown_reply())
    }
}

/// What a command line asks for.
pub open spec fn request_of(line: Seq<char>) -> RequestView {
    request_of_words(words(line))
}

/// Tests whether `w` is `verb` when ASCII letters are compared ignoring
/// case.
pub fn verb_is(w: &String, verb: &str) -> (r: bool)
    ensures
        r == is_verb(w@, verb@),
{
    let ws = w.as_str();
    let n = ws.unicode_len();
    if n != verb.unicode_len() {
        return false;
    }
    let mut i: usize = 0;
    while i < n
        invariant
            n == w@.len(),
            n == verb@.len(),
            ws@ == w@,
            i <= n,
            forall|j: int| 0 <= j < i ==> upper_code(#[trigger] w@[j]) == verb@[j] as u32,
        decreases n - i,
    {
        let c = ws.get_char(i);
        let u: u32 = if 'a' <= c && c <= 'z' {
            c as u32 - 32
        } else {
            c as u32
        };
        if u != verb.get_char(i) as u32 {
            return false;
        }
        i = i + 1;
    }
    true
}

/// Reads one command line and says what it asks for.
pub fn plan(line: &str) -> (r: Request)
    ensures
        r@ == request_of(line@),
{
    let w = split_words(line);
    let ghost wv = views(w@);
    assert(wv == words(line@));
    if w.len() == 0 {
        return Request::Skip;
    }
    assert(wv[0] == w@[0]@);
    if verb_is(&w[0], "GET") {
        if w.len() < 2 {
            Request::Reply(String::from_str("Invalid GET command! Expected filename!\n"))
        } else {
            assert(wv[1] == w@[1]@);
            Request::Read(w[1].clone())
        }
    } else if verb_is(&w[0], "PUT") {
        if w.len() < 3 {
            Request::Reply(
                String::from_str("Invalid PUT command! Expected filename and Contents\n"),
            )
        } else {
            let mut content = join_from(&w, 2);
            content.append("\n");
            proof {
                reveal_strlit("\n");
                assert("\n"@ =~= seq!['\n']);
            }
            assert(wv[1] == w@[1]@);
            Request::Write(w[1].clone(), content)
        }
    } else if verb_is(&w[0], "LS") {
        Request::List
    } else {
        Request::Reply(String::from_str("Unknown command\n"))
    }
}

/// The names, each followed by a newline, in order.
pub open spec fn listing(names: Seq<Seq<char>>) -> Seq<char>
    decreases names.len(),
{
    if names.len() == 0 {
        Seq::empty()
    } else {
        listing(names.drop_last()) + names.last() + seq!['\n']
    }
}

/// The reply to a listing of the given names.
pub open spec fn list_reply_of(names: Seq<Seq<char>>) -> Seq<char> {
    if names.len() == 0 {
        no_files_reply()
    } else {
        listing(names)
    }
}

/// The reply to a read: the contents as they are, or the not-found line for
/// any failure.
pub fn get_reply(read: Option<String>) -> (r: String)
    ensures
        r@ == match read {
            Some(c) => c@,
            None => not_found_reply(),
        },
{
    match read {
        Some(c) => c,
        None => String::from_str("File not found\n"),
    }
}

/// The reply to a write, by whether it succeeded.
pub fn put_reply(ok: bool) -> (r: String)
    ensures
        r@ == if ok {
            written_reply()
        } else {
            write_failed_reply()
        },
{
    if ok {
        String::from_str("File written successfully\n")
    } else {
        String::from_str("Failed to write file\n")
    }
}

/// The reply to a listing: each name on a line of its own, or the
/// no-files line where there are none.
pub fn list_reply(names: &Vec<String>) -> (r: String)
    ensures
        r@ == list_reply_of(views(names@)),
{
    let n = names.len();
    if n == 0 {
        return String::from_str("No files found\n");
    }
    let mut acc = String::new();
    let mut k: usize = 0;
    proof {
        reveal_strlit("\n");
        assert("\n"@ =~= seq!['\n']);
        assert(views(names@).take(0) =~= Seq::<Seq<char>>::empty());
    }
    while k < n
        invariant
            n == names@.len(),
            k <= n,
            "\n"@ == seq!['\n'],
            acc@ == listing(views(names@).take(k as int)),
        decreases n - k,
    {
        acc.append(names[k].as_str());
        acc.append("\n");
        assert(views(names@).take(k + 1).drop_last() =~= views(names@).take(k as int));
        k = k + 1;
    }
    assert(views(names@).take(n as int) =~= views(names@));
    acc
}

} // verus!
