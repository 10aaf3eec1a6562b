//! A model of the file store as a map from names to contents, the replies
//! that command lines get from it, and the laws the protocol keeps.

use vstd::prelude::*;
use crate::protocol::{
    is_get,
    is_ls,
    is_put,
    list_reply_of,
    listing,
    no_files_reply,
    not_found_reply,
    request_of,
    upper_code,
    written_reply,
    RequestView,
};
use crate::text::{is_space, join, scan, words};

verus! {

/// `names` lists the store: every name of it once, and nothing else.
pub open spec fn lists(store: Map<Seq<char>, Seq<char>>, names: Seq<Seq<char>>) -> bool {
    names.no_duplicates() && names.to_set() == store.dom()
}

/// Whether `r` is a reply that `line` may get from `store`, where reads of
/// stored names and all writes succeed. `None` is no reply at all.
pub open spec fn reply_from(
    store: Map<Seq<char>, Seq<char>>,
    line: Seq<char>,
    r: Option<Seq<char>>,
) -> bool {
    match request_of(line) {
        RequestView::Skip => r is None,
        RequestView::Reply(t) => r == Some(t),
        RequestView::Read(n) => r == Some(
            if store.contains_key(n) {
                store[n]
            } else {
                not_found_reply()
            },
        ),
        RequestView::Write(_, _) => r == Some(written_reply()),
        RequestView::List => exists|names: Seq<Seq<char>>|
            lists(store, names) && r == Some(list_reply_of(names)),
    }
}

/// The store once `line` has been handled.
pub open spec fn store_after(store: Map<Seq<char>, Seq<char>>, line: Seq<char>) -> Map<
    Seq<char>,
    Seq<char>,
> {
    match request_of(line) {
        RequestView::Write(n, c) => store.insert(n, c),
        _ => store,
    }
}

/// A file name a client can send: one word.
pub open spec fn is_name(f: Seq<char>) -> bool {
    f.len() > 0 && forall|i: int| 0 <= i < f.len() ==> !is_space(#[trigger] f[i])
}

/// Contents that survive the trip through a command line unchanged: words
/// separated by single spaces, with no other whitespace.
pub open spec fn is_text(c: Seq<char>) -> bool {
    &&& c.len() > 0
    &&& c[0] != ' '
    &&& c.last() != ' '
    &&& forall|i: int| 0 <= i < c.len() ==> #[trigger] c[i] == ' ' || !is_space(c[i])
    &&& forall|i: int| 0 <= i < c.len() - 1 ==> !(#[trigger] c[i] == ' ' && c[i + 1] == ' ')
}

pub open spec fn put_line(f: Seq<char>, c: Seq<char>) -> Seq<char> {
    "PUT"@ + seq![' '] + f + seq![' '] + c
}

pub open spec fn get_line(f: Seq<char>) -> Seq<char> {
    "GET"@ + seq![' '] + f
}

proof fn lemma_scan_append(a: Seq<char>, b: Seq<char>)
    requires
        scan(a).1.len() == 0,
    ensures
        scan(a + b) == (scan(a).0 + scan(b).0, scan(b).1),
    decreases b.len(),
{
    if b.len() == 0 {
        assert(a + b =~= a);
        assert(scan(a).0 + scan(b).0 =~= scan(a).0);
    } else {
        assert((a + b).drop_last() =~= a + b.drop_last());
        assert((a + b).last() == b.last());
        lemma_scan_append(a, b.drop_last());
        let prev = scan(b.drop_last());
        assert(scan(a).0 + prev.0.push(prev.1) =~= (scan(a).0 + prev.0).push(prev.1));
    }
}

proof fn lemma_words_sep(a: Seq<char>, b: Seq<char>)
    ensures
        words(a + seq![' '] + b) == words(a) + words(b),
{
    let a1 = a.push(' ');
    assert(a1.drop_last() =~= a);
    assert(a + seq![' '] + b =~= a1 + b);
    lemma_scan_append(a1, b);
    let sb = scan(b);
    assert(words(a) + sb.0.push(sb.1) =~= (words(a) + sb.0).push(sb.1));
}

proof fn lemma_scan_word(f: Seq<char>)
    requires
        forall|i: int| 0 <= i < f.len() ==> !is_space(#[trigger] f[i]),
    ensures
        scan(f) == (Seq::<Seq<char>>::empty(), f),
    decreases f.len(),
{
    if f.len() > 0 {
        assert(f.drop_last().push(f.last()) =~= f);
        lemma_scan_word(f.drop_last());
    }
}

proof fn lemma_words_name(f: Seq<char>)
    requires
        is_name(f),
    ensures
        words(f) == seq![f],
{
    lemma_scan_word(f);
    assert(Seq::<Seq<char>>::empty().push(f) =~= seq![f]);
}

proof fn lemma_join_extend(t: Seq<Seq<char>>, w: Seq<char>, x: char)
    ensures
        join(t.push(w.push(x))) == join(t.push(w)).push(x),
{
    assert(t.push(w.push(x)).drop_last() =~= t);
    assert(t.push(w).drop_last() =~= t);
    if t.len() > 0 {
        assert(join(t) + seq![' '] + w.push(x) =~= (join(t) + seq![' '] + w).push(x));
    }
}

proof fn lemma_scan_text(s: Seq<char>)
    requires
        s.len() > 0,
        s[0] != ' ',
        forall|i: int| 0 <= i < s.len() ==> #[trigger] s[i] == ' ' || !is_space(s[i]),
        forall|i: int| 0 <= i < s.len() - 1 ==> !(#[trigger] s[i] == ' ' && s[i + 1] == ' '),
    ensures
        s.last() != ' ' ==> scan(s).1.len() > 0 && join(scan(s).0.push(scan(s).1)) == s,
        s.last() == ' ' ==> scan(s).1.len() == 0 && scan(s).0.len() > 0 && join(scan(s).0)
            + seq![' '] == s,
    decreases s.len(),
{
    let p = s.drop_last();
    let x = s.last();
    assert(p.push(x) =~= s);
    if p.len() == 0 {
        assert(scan(p) == (Seq::<Seq<char>>::empty(), Seq::<char>::empty()));
        assert(seq![x] =~= s);
        assert(Seq::<Seq<char>>::empty().push(seq![x]) =~= seq![seq![x]]);
    } else {
        assert forall|i: int| 0 <= i < p.len() implies #[trigger] p[i] == ' ' || !is_space(
            p[i],
        ) by {
            assert(p[i] == s[i]);
        }
        assert forall|i: int| 0 <= i < p.len() - 1 implies !(#[trigger] p[i] == ' ' && p[i + 1]
            == ' ') by {
            assert(p[i] == s[i] && p[i + 1] == s[i + 1]);
        }
        lemma_scan_text(p);
        let t = scan(p).0;
        let cur = scan(p).1;
        assert(s[p.len() - 1] == p.last());
        if x == ' ' {
            assert(p.last() != ' ');
            assert(is_space(x));
            assert(scan(s) == (t.push(cur), Seq::<char>::empty()));
        } else {
            assert(!is_space(x));
            if p.last() != ' ' {
                assert(scan(s) == (t, cur.push(x)));
                lemma_join_extend(t, cur, x);
            } else {
                assert(scan(s) == (t, seq![x]));
                assert(t.push(seq![x]).drop_last() =~= t);
                assert(join(t) + seq![' '] + seq![x] =~= p.push(x));
            }
        }
    }
}

proof fn lemma_words_text(c: Seq<char>)
    requires
        is_text(c),
    ensures
        words(c).len() > 0,
        join(words(c)) == c,
{
    lemma_scan_text(c);
}

proof fn lemma_verbs()
    ensures
        words("PUT"@) == seq!["PUT"@],
        words("GET"@) == seq!["GET"@],
        words("LS"@) == seq!["LS"@],
        is_put("PUT"@),
        !is_get("PUT"@),
        is_get("GET"@),
        !is_get("LS"@),
        !is_put("LS"@),
        is_ls("LS"@),
{
    reveal_strlit("PUT");
    reveal_strlit("GET");
    reveal_strlit("LS");
    assert(upper_code("PUT"@[0]) != "GET"@[0] as u32);
    assert(upper_code("LS"@[0]) != "PUT"@[0] as u32);
    assert(is_name("PUT"@));
    assert(is_name("GET"@));
    assert(is_name("LS"@));
    lemma_words_name("PUT"@);
    lemma_words_name("GET"@);
    lemma_words_name("LS"@);
}

proof fn lemma_put_request(f: Seq<char>, c: Seq<char>)
    requires
        is_name(f),
        is_text(c),
    ensures
        request_of(put_line(f, c)) == RequestView::Write(f, c + seq!['\n']),
{
    lemma_verbs();
    let rest = f + seq![' '] + c;
    assert(put_line(f, c) =~= "PUT"@ + seq![' '] + rest);
    lemma_words_sep("PUT"@, rest);
    lemma_words_sep(f, c);
    lemma_words_name(f);
    lemma_words_text(c);
    let w = words(put_line(f, c));
    assert(w =~= seq!["PUT"@, f] + words(c));
    assert(w.subrange(2, w.len() as int) =~= words(c));
}

proof fn lemma_get_request(f: Seq<char>)
    requires
        is_name(f),
    ensures
        request_of(get_line(f)) == RequestView::Read(f),
{
    lemma_verbs();
    lemma_words_sep("GET"@, f);
    lemma_words_name(f);
    assert(words(get_line(f)) =~= seq!["GET"@, f]);
}

/// Writing contents under a name and then reading that name gives back the
/// contents with one newline added.
pub proof fn law_put_then_get(
    store: Map<Seq<char>, Seq<char>>,
    f: Seq<char>,
    c: Seq<char>,
    r: Option<Seq<char>>,
)
    requires
        is_name(f),
        is_text(c),
    ensures
        reply_from(store_after(store, put_line(f, c)), get_line(f), r) <==> r == Some(
            c + seq!['\n'],
        ),
{
    lemma_put_request(f, c);
    lemma_get_request(f);
}

/// Reading a name that the store does not hold gives the not-found reply.
pub proof fn law_get_missing(store: Map<Seq<char>, Seq<char>>, f: Seq<char>, r: Option<Seq<char>>)
    requires
        is_name(f),
        !store.contains_key(f),
    ensures
        reply_from(store, get_line(f), r) <==> r == Some(not_found_reply()),
{
    lemma_get_request(f);
}

/// Listing an empty store gives the no-files reply.
pub proof fn law_list_empty(r: Option<Seq<char>>)
    ensures
        reply_from(Map::<Seq<char>, Seq<char>>::empty(), "LS"@, r) <==> r == Some(
            no_files_reply(),
        ),
{
    lemma_verbs();
    let store = Map::<Seq<char>, Seq<char>>::empty();
    assert(request_of("LS"@) == RequestView::List);
    let none = Seq::<Seq<char>>::empty();
    assert(none.to_set() =~= store.dom());
    assert(lists(store, none));
    if reply_from(store, "LS"@, r) {
        let names = choose|names: Seq<Seq<char>>|
            lists(store, names) && r == Some(list_reply_of(names));
        if names.len() > 0 {
            assert(names.to_set().contains(names[0]));
        }
    }
    if r == Some(no_files_reply()) {
        assert(r == Some(list_reply_of(none)));
    }
}

/// After three files are written to an empty store, a listing has each of
/// the three names once, each on a line of its own, and nothing else; and
/// such a listing is a reply.
pub proof fn law_list_after_writes(
    a: Seq<char>,
    ca: Seq<char>,
    b: Seq<char>,
    cb: Seq<char>,
    c: Seq<char>,
    cc: Seq<char>,
    r: Option<Seq<char>>,
)
    requires
        is_name(a),
        is_name(b),
        is_name(c),
        is_text(ca),
        is_text(cb),
        is_text(cc),
        a != b,
        b != c,
        a != c,
    ensures
        ({
            let s = store_after(
                store_after(
                    store_after(Map::<Seq<char>, Seq<char>>::empty(), put_line(a, ca)),
                    put_line(b, cb),
                ),
                put_line(c, cc),
            );
            &&& reply_from(s, "LS"@, Some(listing(seq![a, b, c])))
            &&& reply_from(s, "LS"@, r) ==> exists|names: Seq<Seq<char>>|
                {
                    &&& names.no_duplicates()
                    &&& names.to_set() == set![a, b, c]
                    &&& r == Some(listing(names))
                }
        }),
{
    lemma_verbs();
    lemma_put_request(a, ca);
    lemma_put_request(b, cb);
    lemma_put_request(c, cc);
    let s = store_after(
        store_after(
            store_after(Map::<Seq<char>, Seq<char>>::empty(), put_line(a, ca)),
            put_line(b, cb),
        ),
        put_line(c, cc),
    );
    assert(request_of("LS"@) == RequestView::List);
    assert(s.dom() =~= set![a, b, c]);
    let abc = seq![a, b, c];
    assert(abc.to_set() =~= set![a, b, c]) by {
        assert(abc[0] == a && abc[1] == b && abc[2] == c);
    }
    assert(lists(s, abc));
    assert(list_reply_of(abc) == listing(abc));
    if reply_from(s, "LS"@, r) {
        let names = choose|names: Seq<Seq<char>>|
            lists(s, names) && r == Some(list_reply_of(names));
        assert(names.len() > 0) by {
            if names.len() == 0 {
                assert(names.to_set() =~= Set::<Seq<char>>::empty());
                assert(s.dom().contains(a));
            }
        }
    }
}

proof fn lemma_scan_blank(s: Seq<char>)
    requires
        forall|i: int| 0 <= i < s.len() ==> is_space(#[trigger] s[i]),
    ensures
        scan(s) == (Seq::<Seq<char>>::empty(), Seq::<char>::empty()),
    decreases s.len(),
{
    if s.len() > 0 {
        lemma_scan_blank(s.drop_last());
    }
}

/// A line of whitespace alone asks for nothing and gets no reply.
pub proof fn law_blank_line(line: Seq<char>)
    requires
        forall|i: int| 0 <= i < line.len() ==> is_space(#[trigger] line[i]),
    ensures
        request_of(line) == RequestView::Skip,
{
    lemma_scan_blank(line);
}

/// The store once each of `lines` has been handled, in order.
pub open spec fn store_after_all(store: Map<Seq<char>, Seq<char>>, lines: Seq<Seq<char>>) -> Map<
    Seq<char>,
    Seq<char>,
>
    decreases lines.len(),
{
    if lines.len() == 0 {
        store
    } else {
        store_after_all(store_after(store, lines[0]), lines.drop_first())
    }
}

/// Whether `rs` are the replies that one connection sending `lines`, in
/// order, may get from `store`: the first line is answered against `store`,
/// and the rest against the store it leaves.
pub open spec fn session_replies(
    store: Map<Seq<char>, Seq<char>>,
    lines: Seq<Seq<char>>,
    rs: Seq<Option<Seq<char>>>,
) -> bool
    decreases lines.len(),
{
    &&& lines.len() == rs.len()
    &&& lines.len() > 0 ==> {
        &&& reply_from(store, lines[0], rs[0])
        &&& session_replies(store_after(store, lines[0]), lines.drop_first(), rs.drop_first())
    }
}

/// Commands sent one after another on one connection each get, in order,
/// the reply that the line alone would get from the store as the earlier
/// lines left it; nothing else carries over from line to line.
pub proof fn law_commands_in_sequence(
    store: Map<Seq<char>, Seq<char>>,
    lines: Seq<Seq<char>>,
    rs: Seq<Option<Seq<char>>>,
)
    ensures
        session_replies(store, lines, rs) <==> {
            &&& rs.len() == lines.len()
            &&& forall|k: int|
                0 <= k < lines.len() ==> reply_from(
                    store_after_all(store, lines.take(k)),
                    #[trigger] lines[k],
                    rs[k],
                )
        },
    decreases lines.len(),
{
    if lines.len() > 0 && rs.len() == lines.len() {
        let next = store_after(store, lines[0]);
        let tl = lines.drop_first();
        let rtl = rs.drop_first();
        law_commands_in_sequence(next, tl, rtl);
        assert(lines.take(0) =~= Seq::<Seq<char>>::empty());
        assert forall|k: int| 0 < k < lines.len() implies store_after_all(store, lines.take(k))
            == store_after_all(next, tl.take(k - 1)) && lines[k] == tl[k - 1] && rs[k] == rtl[k
            - 1] by {
            assert(lines.take(k).drop_first() =~= tl.take(k - 1));
        }
        if forall|k: int|
            0 <= k < lines.len() ==> reply_from(
                store_after_all(store, lines.take(k)),
                #[trigger] lines[k],
                rs[k],
            ) {
            assert forall|k: int| 0 <= k < tl.len() implies reply_from(
                store_after_all(next, tl.take(k)),
                #[trigger] tl[k],
                rtl[k],
            ) by {
                assert(lines[k + 1] == tl[k]);
            }
            assert(reply_from(store, lines[0], rs[0]));
        }
    }
}

} // verus!
