//! Whitespace tokenizing and single-space joining of command lines.

use vstd::prelude::*;
use vstd::string::*;

verus! {

/// The whitespace characters of Unicode's `White_Space` property, which is
/// what `char::is_whitespace` tests.
pub open spec fn is_space(c: char) -> bool {
    let u = c as u32;
    (0x9 <= u && u <= 0xd) || u == 0x20 || u == 0x85 || u == 0xa0 || u == 0x1680
        || (0x2000 <= u && u <= 0x200a) || u == 0x2028 || u == 0x2029 || u == 0x202f
        || u == 0x205f || u == 0x3000
}

/// Tests whether `c` is whitespace.
pub fn space(c: char) -> (r: bool)
    ensures
        r == is_space(c),
{
    let u = c as u32;
    (0x9 <= u && u <= 0xd) || u == 0x20 || u == 0x85 || u == 0xa0 || u == 0x1680 || (0x2000
        <= u && u <= 0x200a) || u == 0x2028 || u == 0x2029 || u == 0x202f || u == 0x205f || u
        == 0x3000
}

/// One character of a left-to-right scan: the words finished so far and the
/// word being read.
pub open spec fn scan_step(st: (Seq<Seq<char>>, Seq<char>), c: char) -> (
    Seq<Seq<char>>,
    Seq<char>,
) {
    if is_space(c) {
        if st.1.len() > 0 {
            (st.0.push(st.1), Seq::empty())
        } else {
            (st.0, Seq::empty())
        }
    } else {
        (st.0, st.1.push(c))
    }
}

/// The state of the scan after all of `s`.
pub open spec fn scan(s: Seq<char>) -> (Seq<Seq<char>>, Seq<char>)
    decreases s.len(),
{
    if s.len() == 0 {
        (Seq::empty(), Seq::empty())
    } else {
        scan_step(scan(s.drop_last()), s.last())
    }
}

/// The maximal runs of non-whitespace characters of `s`, in order.
pub open spec fn words(s: Seq<char>) -> Seq<Seq<char>> {
    let st = scan(s);
    if st.1.len() > 0 {
        st.0.push(st.1)
    } else {
        st.0
    }
}

/// The words joined with one space between neighbours.
pub open spec fn join(ws: Seq<Seq<char>>) -> Seq<char>
    decreases ws.len(),
{
    if ws.len() == 0 {
        Seq::empty()
    } else if ws.len() == 1 {
        ws[0]
    } else {
        join(ws.drop_last()) + seq![' '] + ws.last()
    }
}

/// The views of a vector of strings.
pub open spec fn views(v: Seq<String>) -> Seq<Seq<char>> {
    v.map_values(|s: String| s@)
}

/// Splits `line` into its whitespace-separated words.
pub fn split_words(line: &str) -> (r: Vec<String>)
    ensures
        views(r@) == words(line@),
{
    let n = line.unicode_len();
    let mut out: Vec<String> = Vec::new();
    let mut start: usize = 0;
    let mut i: usize = 0;
    while i < n
        invariant
            n == line@.len(),
            start <= i <= n,
            scan(line@.take(i as int)) == (views(out@), line@.subrange(start as int, i as int)),
        decreases n - i,
    {
        let c = line.get_char(i);
        proof {
            assert(line@.take(i + 1).drop_last() =~= line@.take(i as int));
        }
        if space(c) {
            if start < i {
                let w = String::from_str(line.substring_char(start, i));
                let ghost prev = out@;
                out.push(w);
                assert(views(out@) =~= views(prev).push(w@));
            }
            start = i + 1;
        } else {
            assert(line@.subrange(start as int, i + 1) =~= line@.subrange(
                start as int,
                i as int,
            ).push(c));
        }
        i = i + 1;
    }
    assert(line@.take(n as int) =~= line@);
    if start < n {
        let w = String::from_str(line.substring_char(start, n));
        let ghost prev = out@;
        out.push(w);
        assert(views(out@) =~= views(prev).push(w@));
    }
    out
}

/// Joins `ws[from..]` with one space between neighbours.
pub fn join_from(ws: &Vec<String>, from: usize) -> (r: String)
    requires
        from < ws@.len(),
    ensures
        r@ == join(views(ws@).subrange(from as int, ws@.len() as int)),
{
    let n = ws.len();
    let mut acc = ws[from].clone();
    let mut k: usize = from + 1;
    assert(views(ws@).subrange(from as int, k as int) =~= seq![ws@[from as int]@]);
    while k < n
        invariant
            n == ws@.len(),
            from < k <= ws@.len(),
            acc@ == join(views(ws@).subrange(from as int, k as int)),
        decreases ws@.len() - k,
    {
        acc.append(" ");
        acc.append(ws[k].as_str());
        proof {
            reveal_strlit(" ");
            let sub = views(ws@).subrange(from as int, k + 1);
            assert(sub.drop_last() =~= views(ws@).subrange(from as int, k as int));
        }
        k = k + 1;
    }
    acc
}

} // verus!
