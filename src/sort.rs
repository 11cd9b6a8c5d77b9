//! Sorting the lines of a text.
use vstd::prelude::*;
use vstd::string::*;

use crate::history::{join_lines, texts};
use crate::text::{chars_of, find_char, first_index, lemma_first_index, text_of};

verus! {

/// `s` cut at each newline, as `str::split('\n')` cuts it: an empty text
/// gives one empty line, and a final newline gives a final empty line.
pub open spec fn split_lines(s: Seq<char>) -> Seq<Seq<char>>
    decreases s.len(),
{
    let k = first_index(s, '\n');
    if k < 0 || k >= s.len() {
        seq![s]
    } else {
        seq![s.subrange(0, k)] + split_lines(s.subrange(k + 1, s.len() as int))
    }
}

/// `a` comes strictly before `b`, comparing character by character, a
/// proper prefix first.
pub open spec fn lex_lt(a: Seq<char>, b: Seq<char>) -> bool
    decreases a.len(),
{
    if b.len() == 0 {
        false
    } else if a.len() == 0 {
        true
    } else if a[0] != b[0] {
        (a[0] as u32) < (b[0] as u32)
    } else {
        lex_lt(a.subrange(1, a.len() as int), b.subrange(1, b.len() as int))
    }
}

/// `e` put into `s` after every element that does not come after it.
pub open spec fn insert_sorted(s: Seq<Seq<char>>, e: Seq<char>) -> Seq<Seq<char>>
    decreases s.len(),
{
    if s.len() == 0 {
        seq![e]
    } else if lex_lt(e, s.last()) {
        insert_sorted(s.subrange(0, s.len() - 1), e).push(s.last())
    } else {
        s.push(e)
    }
}

/// `s` sorted by insertion, equal elements kept in their order.
pub open spec fn sort_seq(s: Seq<Seq<char>>) -> Seq<Seq<char>>
    decreases s.len(),
{
    if s.len() == 0 {
        s
    } else {
        insert_sorted(sort_seq(s.subrange(0, s.len() - 1)), s.last())
    }
}

/// No element of `s` comes before the one ahead of it.
pub open spec fn non_decreasing(s: Seq<Seq<char>>) -> bool {
    forall|i: int| 0 <= i < s.len() - 1 ==> !lex_lt(#[trigger] s[i + 1], s[i])
}

/// The lines of `text`, sorted, joined by newlines.
pub open spec fn sorted_text(text: Seq<char>) -> Seq<char> {
    join_lines(sort_seq(split_lines(text)))
}

/// Whether `a@` comes strictly before `b@`.
pub fn less_than(a: &str, b: &str) -> (r: bool)
    ensures
        r == lex_lt(a@, b@),
{
    let x = chars_of(a);
    let y = chars_of(b);
    let mut i: usize = 0;
    assert(x@.subrange(0, x@.len() as int) =~= a@);
    assert(y@.subrange(0, y@.len() as int) =~= b@);
    while i < x.len() && i < y.len() && x[i] == y[i]
        invariant
            i <= x@.len(),
            i <= y@.len(),
            lex_lt(a@, b@) == lex_lt(x@.subrange(i as int, x@.len() as int), y@.subrange(
                i as int,
                y@.len() as int,
            )),
        decreases x.len() - i,
    {
        assert(x@.subrange(i as int, x@.len() as int).subrange(1, x@.len() - i) =~= x@.subrange(
            i + 1,
            x@.len() as int,
        ));
        assert(y@.subrange(i as int, y@.len() as int).subrange(1, y@.len() - i) =~= y@.subrange(
            i + 1,
            y@.len() as int,
        ));
        i += 1;
    }
    if i == y.len() {
        false
    } else if i == x.len() {
        true
    } else {
        (x[i] as u32) < (y[i] as u32)
    }
}

/// The lines of `text`, cut at each newline.
pub fn split_text(text: &str) -> (r: Vec<String>)
    ensures
        texts(r@) == split_lines(text@),
{
    let v = chars_of(text);
    let n = v.len();
    let mut r: Vec<String> = Vec::new();
    let mut pos: usize = 0;
    assert(v@.subrange(0, n as int) =~= v@);
    loop
        invariant
            v@ == text@,
            n == v@.len(),
            pos <= n,
            split_lines(text@) == texts(r@) + split_lines(v@.subrange(pos as int, n as int)),
        decreases n - pos,
    {
        let ghost rest = v@.subrange(pos as int, n as int);
        let k = find_char(&v, pos, n, '\n');
        proof {
            lemma_first_index(rest, '\n');
        }
        let line = text_of(text, pos, pos + k);
        let ghost before = r@;
        r.push(line);
        assert(texts(r@) =~= texts(before).push(line@));
        if pos + k == n {
            assert(line@ =~= rest);
            assert(texts(r@) =~= texts(before) + seq![rest]);
            return r;
        }
        assert(line@ =~= rest.subrange(0, k as int));
        assert(rest.subrange(k + 1, rest.len() as int) =~= v@.subrange(pos + k + 1, n as int));
        assert(texts(before) + split_lines(rest) =~= texts(r@) + split_lines(
            v@.subrange(pos + k + 1, n as int),
        ));
        pos = pos + k + 1;
    }
}

/// `lines` with `e` put after every element that does not come after it.
fn insert_line(lines: &mut Vec<String>, e: String)
    ensures
        texts(final(lines)@) == insert_sorted(texts(old(lines)@), e@),
{
    let mut j: usize = lines.len();
    let ghost s = texts(lines@);
    assert(s.subrange(0, s.len() as int) =~= s);
    while j > 0 && less_than(e.as_str(), lines[j - 1].as_str())
        invariant
            j <= lines@.len(),
            s == texts(lines@),
            insert_sorted(s, e@) == insert_sorted(s.subrange(0, j as int), e@) + s.subrange(
                j as int,
                s.len() as int,
            ),
        decreases j,
    {
        let ghost p = s.subrange(0, j as int);
        assert(p.subrange(0, p.len() - 1) =~= s.subrange(0, j - 1));
        assert(insert_sorted(p, e@) == insert_sorted(s.subrange(0, j - 1), e@).push(s[j - 1]));
        assert(insert_sorted(s.subrange(0, j - 1), e@).push(s[j - 1]) + s.subrange(
            j as int,
            s.len() as int,
        ) =~= insert_sorted(s.subrange(0, j - 1), e@) + s.subrange(j - 1, s.len() as int));
        j -= 1;
    }
    let ghost p = s.subrange(0, j as int);
    let ghost ev = e@;
    lines.insert(j, e);
    assert(insert_sorted(p, ev) =~= p.push(ev));
    assert(texts(lines@) =~= p.push(ev) + s.subrange(j as int, s.len() as int));
}

/// `lines` sorted, equal lines kept in their order.
pub fn sort_lines(lines: Vec<String>) -> (r: Vec<String>)
    ensures
        texts(r@) == sort_seq(texts(lines@)),
{
    let mut r: Vec<String> = Vec::new();
    let mut i: usize = 0;
    let n = lines.len();
    assert(texts(r@) =~= sort_seq(texts(lines@).subrange(0, 0)));
    while i < n
        invariant
            n == lines@.len(),
            i <= n,
            texts(r@) == sort_seq(texts(lines@).subrange(0, i as int)),
        decreases n - i,
    {
        let ghost s = texts(lines@).subrange(0, i + 1);
        assert(s.subrange(0, i as int) =~= texts(lines@).subrange(0, i as int));
        insert_line(&mut r, lines[i].clone());
        i += 1;
    }
    assert(texts(lines@).subrange(0, n as int) =~= texts(lines@));
    r
}

/// `lines` joined by newlines.
pub fn join_text(lines: &Vec<String>) -> (r: String)
    ensures
        r@ == join_lines(texts(lines@)),
{
    let mut r = String::new();
    let n = lines.len();
    let mut i: usize = 0;
    while i < n
        invariant
            n == lines@.len(),
            i <= n,
            r@ == join_lines(texts(lines@).subrange(0, i as int)),
        decreases n - i,
    {
        if i > 0 {
            proof { reveal_strlit("\n"); }
            r.append("\n");
        }
        r.append(lines[i].as_str());
        proof {
            let s = texts(lines@).subrange(0, i + 1);
            assert(s.subrange(0, i as int) =~= texts(lines@).subrange(0, i as int));
            if i == 0 {
                assert(r@ =~= join_lines(s));
            }
        }
        i += 1;
    }
    assert(texts(lines@).subrange(0, n as int) =~= texts(lines@));
    r
}

/// The lines of `text` in non-decreasing order, joined by newlines.
pub fn sort_text(text: &str) -> (r: String)
    ensures
        r@ == sorted_text(text@),
{
    let lines = split_text(text);
    let sorted = sort_lines(lines);
    join_text(&sorted)
}

} // verus!
