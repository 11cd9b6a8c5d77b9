//! What holds of the interpreter across calls and inputs.
use vstd::prelude::*;

use crate::command::{ShellError, cd_target, lit_cd, echo_result, lit_echo, lit_pwd, JobModel};
use crate::emulator::{cd_effect, outcome, written, PathKind};
use crate::listing::{decimal, digit_char, header, kind_char, long_text, octal4, row_text, EntryInfo};
use crate::path::join_path;
use crate::history::{join_lines, recorded, HISTORY_SIZE};
use crate::sort::{insert_sorted, lex_lt, non_decreasing, sort_seq, sorted_text, split_lines};
use crate::text::{one_line, count_of, first_index, is_space, trim, trim_end, trim_start};

verus! {

proof fn lemma_lex_asym(a: Seq<char>, b: Seq<char>)
    ensures
        lex_lt(a, b) ==> !lex_lt(b, a),
    decreases a.len(),
{
    if a.len() > 0 && b.len() > 0 && a[0] == b[0] {
        lemma_lex_asym(a.subrange(1, a.len() as int), b.subrange(1, b.len() as int));
    }
}

proof fn lemma_insert_shape(s: Seq<Seq<char>>, e: Seq<char>)
    ensures
        insert_sorted(s, e).len() == s.len() + 1,
        insert_sorted(s, e).last() == e || (s.len() > 0 && insert_sorted(s, e).last()
            == s.last()),
    decreases s.len(),
{
    if s.len() > 0 && lex_lt(e, s.last()) {
        lemma_insert_shape(s.subrange(0, s.len() - 1), e);
    }
}

proof fn lemma_insert_non_decreasing(s: Seq<Seq<char>>, e: Seq<char>)
    requires
        non_decreasing(s),
    ensures
        non_decreasing(insert_sorted(s, e)),
    decreases s.len(),
{
    if s.len() > 0 && lex_lt(e, s.last()) {
        let init = s.subrange(0, s.len() - 1);
        assert(non_decreasing(init)) by {
            assert forall|i: int| 0 <= i < init.len() - 1 implies !lex_lt(
                #[trigger] init[i + 1],
                init[i],
            ) by {
                assert(init[i + 1] == s[i + 1]);
            }
        }
        lemma_insert_non_decreasing(init, e);
        lemma_insert_shape(init, e);
        lemma_lex_asym(e, s.last());
        let r = insert_sorted(init, e);
        if init.len() > 0 {
            let j = init.len() - 1;
            assert(!lex_lt(s[j + 1], s[j]));
        }
        assert forall|i: int| 0 <= i < r.len() implies !lex_lt(
            #[trigger] r.push(s.last())[i + 1],
            r.push(s.last())[i],
        ) by {
            if i < r.len() - 1 {
                assert(r.push(s.last())[i + 1] == r[i + 1]);
            }
        }
    }
}

/// Sorting puts no line before one that it comes after.
pub proof fn lemma_sort_non_decreasing(s: Seq<Seq<char>>)
    ensures
        non_decreasing(sort_seq(s)),
        sort_seq(s).len() == s.len(),
    decreases s.len(),
{
    if s.len() > 0 {
        lemma_sort_non_decreasing(s.subrange(0, s.len() - 1));
        lemma_insert_non_decreasing(sort_seq(s.subrange(0, s.len() - 1)), s.last());
        lemma_insert_shape(sort_seq(s.subrange(0, s.len() - 1)), s.last());
    }
}

/// Lines already in order are left as they are.
pub proof fn lemma_sort_keeps_sorted(s: Seq<Seq<char>>)
    requires
        non_decreasing(s),
    ensures
        sort_seq(s) == s,
    decreases s.len(),
{
    if s.len() > 0 {
        let init = s.subrange(0, s.len() - 1);
        assert(non_decreasing(init)) by {
            assert forall|i: int| 0 <= i < init.len() - 1 implies !lex_lt(
                #[trigger] init[i + 1],
                init[i],
            ) by {
                assert(init[i + 1] == s[i + 1]);
            }
        }
        lemma_sort_keeps_sorted(init);
        if init.len() > 0 {
            let j = init.len() - 1;
            assert(!lex_lt(s[j + 1], s[j]));
        }
        assert(init.push(s.last()) =~= s);
    }
}

/// Sorting twice gives what sorting once gives.
pub proof fn lemma_sort_idempotent(s: Seq<Seq<char>>)
    ensures
        sort_seq(sort_seq(s)) == sort_seq(s),
{
    lemma_sort_non_decreasing(s);
    lemma_sort_keeps_sorted(sort_seq(s));
}

proof fn lemma_first_index_facts(s: Seq<char>, c: char)
    ensures
        forall|j: int| 0 <= j < first_index(s, c) && j < s.len() ==> #[trigger] s[j] != c,
        (forall|j: int| 0 <= j < s.len() ==> #[trigger] s[j] != c) ==> first_index(s, c)
            == s.len(),
    decreases s.len(),
{
    if s.len() > 0 && s[0] != c {
        let r = s.subrange(1, s.len() as int);
        lemma_first_index_facts(r, c);
        assert forall|j: int| 0 <= j < first_index(s, c) && j < s.len() implies #[trigger] s[j]
            != c by {
            if j > 0 {
                assert(s[j] == r[j - 1]);
            }
        }
        if forall|j: int| 0 <= j < s.len() ==> #[trigger] s[j] != c {
            assert forall|j: int| 0 <= j < r.len() implies #[trigger] r[j] != c by {
                assert(r[j] == s[j + 1]);
            }
        }
    }
}

proof fn lemma_first_index_concat(a: Seq<char>, b: Seq<char>)
    requires
        one_line(a),
    ensures
        first_index(a + seq!['\n'] + b, '\n') == a.len(),
    decreases a.len(),
{
    let s = a + seq!['\n'] + b;
    if a.len() > 0 {
        let a1 = a.subrange(1, a.len() as int);
        assert(one_line(a1)) by {
            assert forall|j: int| 0 <= j < a1.len() implies #[trigger] a1[j] != '\n' by {
                assert(a1[j] == a[j + 1]);
            }
        }
        lemma_first_index_concat(a1, b);
        assert(s.subrange(1, s.len() as int) =~= a1 + seq!['\n'] + b);
        assert(s[0] == a[0]);
    } else {
        assert(s[0] == '\n');
    }
}

proof fn lemma_split_pieces(s: Seq<char>)
    ensures
        split_lines(s).len() >= 1,
        forall|k: int| 0 <= k < split_lines(s).len() ==> one_line(#[trigger] split_lines(s)[k]),
    decreases s.len(),
{
    let k = first_index(s, '\n');
    crate::text::lemma_first_index(s, '\n');
    lemma_first_index_facts(s, '\n');
    if k < s.len() {
        let rest = s.subrange(k + 1, s.len() as int);
        lemma_split_pieces(rest);
        let head = s.subrange(0, k);
        assert(one_line(head)) by {
            assert forall|j: int| 0 <= j < head.len() implies #[trigger] head[j] != '\n' by {
                assert(head[j] == s[j]);
            }
        }
        assert forall|m: int| 0 <= m < split_lines(s).len() implies one_line(
            #[trigger] split_lines(s)[m],
        ) by {
            if m > 0 {
                assert(split_lines(s)[m] == split_lines(rest)[m - 1]);
            }
        }
    }
}

proof fn lemma_join_front(a: Seq<char>, rest: Seq<Seq<char>>)
    requires
        rest.len() >= 1,
    ensures
        join_lines(seq![a] + rest) == a + seq!['\n'] + join_lines(rest),
    decreases rest.len(),
{
    let s = seq![a] + rest;
    if rest.len() == 1 {
        assert(s.subrange(0, 1) =~= seq![a]);
        assert(join_lines(s.subrange(0, 1)) == a);
        assert(s.last() == rest[0]);
        assert(join_lines(rest) == rest[0]);
        assert(join_lines(s) =~= a + seq!['\n'] + join_lines(rest));
    } else {
        let init = rest.subrange(0, rest.len() - 1);
        lemma_join_front(a, init);
        assert(s.subrange(0, s.len() - 1) =~= seq![a] + init);
        assert(s.last() == rest.last());
        assert(join_lines(s) == join_lines(seq![a] + init) + seq!['\n'] + rest.last());
        assert(join_lines(rest) == join_lines(init) + seq!['\n'] + rest.last());
        assert(join_lines(s) =~= a + seq!['\n'] + join_lines(rest));
    }
}

proof fn lemma_split_join(r: Seq<Seq<char>>)
    requires
        r.len() >= 1,
        forall|k: int| 0 <= k < r.len() ==> one_line(#[trigger] r[k]),
    ensures
        split_lines(join_lines(r)) == r,
    decreases r.len(),
{
    let a = r[0];
    assert(one_line(r[0]));
    if r.len() == 1 {
        lemma_first_index_facts(a, '\n');
        assert(seq![a] =~= r);
    } else {
        let rest = r.subrange(1, r.len() as int);
        assert forall|k: int| 0 <= k < rest.len() implies one_line(#[trigger] rest[k]) by {
            assert(rest[k] == r[k + 1]);
        }
        lemma_split_join(rest);
        assert(seq![a] + rest =~= r);
        lemma_join_front(a, rest);
        let t = a + seq!['\n'] + join_lines(rest);
        lemma_first_index_concat(a, join_lines(rest));
        assert(t.subrange(0, a.len() as int) =~= a);
        assert(t.subrange(a.len() + 1 as int, t.len() as int) =~= join_lines(rest));
    }
}

proof fn lemma_insert_members(s: Seq<Seq<char>>, e: Seq<char>)
    ensures
        forall|k: int| 0 <= k < insert_sorted(s, e).len() ==> #[trigger] insert_sorted(s, e)[k]
            == e || s.contains(insert_sorted(s, e)[k]),
    decreases s.len(),
{
    lemma_insert_shape(s, e);
    if s.len() > 0 && lex_lt(e, s.last()) {
        let init = s.subrange(0, s.len() - 1);
        lemma_insert_members(init, e);
        lemma_insert_shape(init, e);
        assert forall|k: int| 0 <= k < insert_sorted(s, e).len() implies #[trigger] insert_sorted(
            s,
            e,
        )[k] == e || s.contains(insert_sorted(s, e)[k]) by {
            if k < insert_sorted(init, e).len() {
                assert(insert_sorted(s, e)[k] == insert_sorted(init, e)[k]);
                if insert_sorted(init, e)[k] != e {
                    let w = choose|w: int| 0 <= w < init.len() && init[w] == insert_sorted(init, e)[k];
                    assert(s[w] == init[w]);
                }
            } else {
                assert(s[s.len() - 1] == s.last());
            }
        }
    } else if s.len() > 0 {
        assert forall|k: int| 0 <= k < insert_sorted(s, e).len() implies #[trigger] insert_sorted(
            s,
            e,
        )[k] == e || s.contains(insert_sorted(s, e)[k]) by {
            if k < s.len() {
                assert(insert_sorted(s, e)[k] == s[k]);
            }
        }
    }
}

proof fn lemma_sort_members(s: Seq<Seq<char>>)
    ensures
        forall|k: int| 0 <= k < sort_seq(s).len() ==> s.contains(#[trigger] sort_seq(s)[k]),
    decreases s.len(),
{
    if s.len() > 0 {
        let init = s.subrange(0, s.len() - 1);
        lemma_sort_members(init);
        lemma_insert_members(sort_seq(init), s.last());
        assert forall|k: int| 0 <= k < sort_seq(s).len() implies s.contains(
            #[trigger] sort_seq(s)[k],
        ) by {
            let x = sort_seq(s)[k];
            if x == s.last() {
                assert(s[s.len() - 1] == x);
            } else {
                let w = choose|w: int| 0 <= w < sort_seq(init).len() && sort_seq(init)[w] == x;
                let u = choose|u: int| 0 <= u < init.len() && init[u] == sort_seq(init)[w];
                assert(s[u] == init[u]);
            }
        }
    }
}

/// Sorting the lines of a text that was just sorted gives it back unchanged.
pub proof fn lemma_sorted_text_idempotent(text: Seq<char>)
    ensures
        sorted_text(sorted_text(text)) == sorted_text(text),
{
    let lines = split_lines(text);
    let r = sort_seq(lines);
    lemma_split_pieces(text);
    lemma_sort_members(lines);
    lemma_sort_non_decreasing(lines);
    assert forall|k: int| 0 <= k < r.len() implies one_line(#[trigger] r[k]) by {
        let w = choose|w: int| 0 <= w < lines.len() && lines[w] == r[k];
        assert(one_line(lines[w]));
    }
    lemma_split_join(r);
    lemma_sort_keeps_sorted(r);
}

/// The history after each of `cs` was entered in turn, from `h`.
pub open spec fn record_all(h: Seq<Seq<char>>, cs: Seq<Seq<char>>) -> Seq<Seq<char>>
    decreases cs.len(),
{
    if cs.len() == 0 {
        h
    } else {
        recorded(record_all(h, cs.subrange(0, cs.len() - 1)), cs.last())
    }
}

/// Each of `cs`, trimmed.
pub open spec fn trimmed(cs: Seq<Seq<char>>) -> Seq<Seq<char>> {
    cs.map_values(|c: Seq<char>| trim(c))
}

/// The history never holds more than its capacity.
pub proof fn lemma_history_bounded(h: Seq<Seq<char>>, cs: Seq<Seq<char>>)
    requires
        h.len() <= HISTORY_SIZE,
    ensures
        record_all(h, cs).len() <= HISTORY_SIZE,
    decreases cs.len(),
{
    if cs.len() > 0 {
        lemma_history_bounded(h, cs.subrange(0, cs.len() - 1));
    }
}

/// After non-blank commands from an empty history, the history holds the
/// latest ten of them, trimmed, oldest first: an older one is gone.
pub proof fn lemma_history_keeps_latest(cs: Seq<Seq<char>>)
    requires
        forall|k: int| 0 <= k < cs.len() ==> (#[trigger] trim(cs[k])).len() > 0,
    ensures
        record_all(Seq::empty(), cs) == trimmed(cs).subrange(
            if cs.len() > HISTORY_SIZE {
                cs.len() - HISTORY_SIZE
            } else {
                0
            },
            cs.len() as int,
        ),
    decreases cs.len(),
{
    if cs.len() > 0 {
        let n = cs.len() as int;
        let init = cs.subrange(0, n - 1);
        assert forall|k: int| 0 <= k < init.len() implies (#[trigger] trim(init[k])).len() > 0 by {
            assert(init[k] == cs[k]);
        }
        lemma_history_keeps_latest(init);
        assert(trimmed(init) =~= trimmed(cs).subrange(0, n - 1));
        assert(trim(cs.last()).len() > 0);
        assert(trimmed(cs)[n - 1] == trim(cs.last()));
        let lo: int = if n - 1 > HISTORY_SIZE { n - 1 - HISTORY_SIZE } else { 0 };
        let prev = trimmed(cs).subrange(lo, n - 1);
        if n - 1 >= HISTORY_SIZE {
            assert(prev.subrange(1, prev.len() as int).push(trim(cs.last())) =~= trimmed(
                cs,
            ).subrange(n - HISTORY_SIZE, n));
        } else {
            assert(prev.push(trim(cs.last())) =~= trimmed(cs).subrange(0, n));
        }
    }
}

/// A blank command leaves the history as it was.
pub proof fn lemma_blank_not_recorded(h: Seq<Seq<char>>, c: Seq<char>)
    requires
        trim(c).len() == 0,
    ensures
        recorded(h, c) == h,
{
}

/// No entry of the history is blank.
pub proof fn lemma_entries_not_blank(cs: Seq<Seq<char>>)
    ensures
        forall|k: int|
            0 <= k < record_all(Seq::empty(), cs).len() ==> (#[trigger] record_all(
                Seq::empty(),
                cs,
            )[k]).len() > 0,
    decreases cs.len(),
{
    if cs.len() > 0 {
        let init = cs.subrange(0, cs.len() - 1);
        lemma_entries_not_blank(init);
        let h = record_all(Seq::empty(), init);
        let r = recorded(h, cs.last());
        assert forall|k: int| 0 <= k < r.len() implies (#[trigger] r[k]).len() > 0 by {
            if trim(cs.last()).len() > 0 {
                if h.len() >= HISTORY_SIZE {
                    if k < r.len() - 1 {
                        assert(r[k] == h[k + 1]);
                    }
                } else {
                    if k < r.len() - 1 {
                        assert(r[k] == h[k]);
                    }
                }
            }
        }
    }
}

proof fn lemma_trim_plain(s: Seq<char>)
    requires
        s.len() > 0,
        !is_space(s[0]),
        !is_space(s.last()),
    ensures
        trim(s) == s,
{
}

/// `echo` gives back its argument as it stands, and `echo` alone an empty text.
pub proof fn lemma_echo_identity(x: Seq<char>)
    requires
        x.len() == 0 || !is_space(x.last()),
    ensures
        echo_result(trim(lit_echo() + seq![' '] + x)) == Ok::<Seq<char>, ShellError>(x),
        echo_result(trim(lit_echo())) == Ok::<Seq<char>, ShellError>(Seq::empty()),
{
    let e = lit_echo();
    lemma_trim_plain(e);
    let s = e + seq![' '] + x;
    assert(s[0] == 'e');
    if x.len() == 0 {
        assert(trim_start(s) == s);
        assert(s.subrange(0, s.len() - 1) =~= e);
        assert(trim_end(e) == e);
        assert(trim(s) == e);
        assert(x =~= Seq::<char>::empty());
    } else {
        assert(s.last() == x.last());
        lemma_trim_plain(s);
        assert(s.subrange(0, 5) =~= e.push(' '));
        assert(s.subrange(5, s.len() as int) =~= x);
    }
}

/// After `cd`, `pwd` shows the new directory where the host found one at
/// the target, and the old one otherwise.
pub proof fn lemma_cd_then_pwd(
    cwd: Seq<char>,
    h: Seq<Seq<char>>,
    target: Seq<char>,
    kind: PathKind,
)
    ensures
        outcome(cd_effect(cwd, target, kind), h, lit_pwd()).1 == JobModel::Finished(
            Ok::<Seq<char>, ShellError>(
                if kind == PathKind::Directory {
                    target
                } else {
                    cwd
                },
            ),
        ),
{
    let p = lit_pwd();
    lemma_trim_plain(p);
    let p2 = seq!['p', 'w'];
    let p1 = seq!['p'];
    let p0 = Seq::<char>::empty();
    assert(p.subrange(0, 2) =~= p2);
    assert(p2.subrange(0, 1) =~= p1);
    assert(p1.subrange(0, 0) =~= p0);
    assert(count_of(p0, '>') == 0);
    assert(count_of(p1, '>') == 0);
    assert(count_of(p2, '>') == 0);
    assert(count_of(p, '>') == 0);
}

/// `cmd > file` leaves the result and one newline in the file; `>>` adds a
/// second copy; `>` again brings it back to one.
pub proof fn lemma_redirect_round_trip(before: Seq<char>, result: Seq<char>)
    ensures
        written(before, result, false) == result.push('\n'),
        written(written(before, result, false), result, true) == result.push('\n') + result.push(
            '\n',
        ),
        count_of(written(written(before, result, false), result, true), '\n') == 2 * count_of(
            written(before, result, false),
            '\n',
        ),
        written(written(written(before, result, false), result, true), result, false)
            == written(before, result, false),
{
    lemma_count_concat(result.push('\n'), result.push('\n'));
}

proof fn lemma_count_concat(a: Seq<char>, b: Seq<char>)
    ensures
        count_of(a + b, '\n') == count_of(a, '\n') + count_of(b, '\n'),
    decreases b.len(),
{
    if b.len() == 0 {
        assert(a + b =~= a);
    } else {
        let b1 = b.subrange(0, b.len() - 1);
        lemma_count_concat(a, b1);
        assert((a + b).subrange(0, (a + b).len() - 1) =~= a + b1);
    }
}

proof fn lemma_concat_one_line(a: Seq<char>, b: Seq<char>)
    requires
        one_line(a),
        one_line(b),
    ensures
        one_line(a + b),
{
    assert forall|j: int| 0 <= j < (a + b).len() implies #[trigger] (a + b)[j] != '\n' by {
        if j >= a.len() {
            assert((a + b)[j] == b[j - a.len()]);
        }
    }
}

proof fn lemma_digit_not_newline(d: int)
    requires
        0 <= d <= 9,
    ensures
        digit_char(d) != '\n',
{
    assert(digit_char(d) as u32 == 48 + d);
}

proof fn lemma_decimal_one_line(n: nat)
    ensures
        one_line(decimal(n)),
    decreases n,
{
    if n < 10 {
        lemma_digit_not_newline(n as int);
    } else {
        lemma_decimal_one_line(n / 10);
        lemma_digit_not_newline((n % 10) as int);
        lemma_concat_one_line(decimal(n / 10), seq![digit_char((n % 10) as int)]);
        assert(decimal(n / 10).push(digit_char((n % 10) as int)) =~= decimal(n / 10) + seq![
            digit_char((n % 10) as int),
        ]);
    }
}

proof fn lemma_row_one_line(e: EntryInfo, stamp: Seq<char>)
    requires
        one_line(stamp),
        one_line(e.name@),
    ensures
        one_line(row_text(e, stamp)),
{
    let m = (e.mode % 4096) as int;
    lemma_digit_not_newline(m / 512);
    lemma_digit_not_newline((m / 64) % 8);
    lemma_digit_not_newline((m / 8) % 8);
    lemma_digit_not_newline(m % 8);
    let tab = seq!['\t'];
    let k = seq![kind_char(e.kind), '\t'];
    assert(one_line(octal4(e.mode)));
    assert(one_line(tab));
    assert(one_line(k));
    lemma_decimal_one_line(e.size as nat);
    lemma_concat_one_line(k, octal4(e.mode));
    lemma_concat_one_line(k + octal4(e.mode), tab);
    lemma_concat_one_line(k + octal4(e.mode) + tab, decimal(e.size as nat));
    lemma_concat_one_line(k + octal4(e.mode) + tab + decimal(e.size as nat), tab);
    lemma_concat_one_line(k + octal4(e.mode) + tab + decimal(e.size as nat) + tab, stamp);
    lemma_concat_one_line(k + octal4(e.mode) + tab + decimal(e.size as nat) + tab + stamp, tab);
    lemma_concat_one_line(
        k + octal4(e.mode) + tab + decimal(e.size as nat) + tab + stamp + tab,
        e.name@,
    );
}

/// The long listing of one entry is two lines: the header, then the row of
/// the entry, which opens with the letter of its kind.
pub proof fn lemma_long_listing_one_entry(es: Seq<EntryInfo>, stamps: Seq<Seq<char>>)
    requires
        es.len() == 1,
        stamps.len() >= 1,
        one_line(stamps[0]),
        one_line(es[0].name@),
    ensures
        split_lines(long_text(es, stamps)) == seq![header(), row_text(es[0], stamps[0])],
        row_text(es[0], stamps[0])[0] == kind_char(es[0].kind),
{
    let row = row_text(es[0], stamps[0]);
    assert(es.subrange(0, 0).len() == 0);
    assert(long_text(es.subrange(0, 0), stamps) == header());
    assert(es.last() == es[0]);
    assert(long_text(es, stamps) == header() + seq!['\n'] + row);
    let h = header();
    assert(one_line(h)) by {
        assert forall|j: int| 0 <= j < h.len() implies #[trigger] h[j] != '\n' by {}
    }
    lemma_row_one_line(es[0], stamps[0]);
    let r = seq![h, row];
    assert(r.subrange(0, 1) =~= seq![h]);
    assert(join_lines(r.subrange(0, 1)) == h);
    assert(r.last() == row);
    assert(join_lines(r) == h + seq!['\n'] + row);
    assert forall|k: int| 0 <= k < r.len() implies one_line(#[trigger] r[k]) by {}
    lemma_split_join(r);
}

proof fn lemma_insert_multiset(s: Seq<Seq<char>>, e: Seq<char>)
    ensures
        insert_sorted(s, e).to_multiset() == s.to_multiset().insert(e),
    decreases s.len(),
{
    broadcast use vstd::seq_lib::group_to_multiset_ensures;

    if s.len() == 0 {
        assert(seq![e] =~= Seq::<Seq<char>>::empty().push(e));
    } else {
        let init = s.subrange(0, s.len() - 1);
        assert(init.push(s.last()) =~= s);
        if lex_lt(e, s.last()) {
            lemma_insert_multiset(init, e);
            assert(insert_sorted(s, e).to_multiset() =~= s.to_multiset().insert(e));
        }
    }
}

proof fn lemma_sort_multiset(s: Seq<Seq<char>>)
    ensures
        sort_seq(s).to_multiset() == s.to_multiset(),
    decreases s.len(),
{
    broadcast use vstd::seq_lib::group_to_multiset_ensures;

    if s.len() > 0 {
        let init = s.subrange(0, s.len() - 1);
        lemma_sort_multiset(init);
        lemma_insert_multiset(sort_seq(init), s.last());
        assert(init.push(s.last()) =~= s);
    }
}

/// The lines of a sorted text are the lines of the text, each as often as
/// there, in non-decreasing order.
pub proof fn lemma_sorted_text_lines(text: Seq<char>)
    ensures
        split_lines(sorted_text(text)) == sort_seq(split_lines(text)),
        non_decreasing(split_lines(sorted_text(text))),
        split_lines(sorted_text(text)).to_multiset() == split_lines(text).to_multiset(),
{
    let lines = split_lines(text);
    let r = sort_seq(lines);
    lemma_split_pieces(text);
    lemma_sort_members(lines);
    lemma_sort_non_decreasing(lines);
    lemma_sort_multiset(lines);
    assert forall|k: int| 0 <= k < r.len() implies one_line(#[trigger] r[k]) by {
        let w = choose|w: int| 0 <= w < lines.len() && lines[w] == r[k];
        assert(one_line(lines[w]));
    }
    lemma_split_join(r);
}

/// `cd <dir>` names `<dir>` resolved against the current directory; blanks
/// around the line are not part of it.
pub proof fn lemma_cd_resolves(cwd: Seq<char>, dir: Seq<char>)
    requires
        dir.len() > 0,
        !is_space(dir.last()),
    ensures
        cd_target(cwd, trim(lit_cd() + seq![' '] + dir)) == Ok::<Seq<char>, ShellError>(
            join_path(cwd, dir),
        ),
{
    let s = lit_cd() + seq![' '] + dir;
    assert(s[0] == 'c');
    assert(s.last() == dir.last());
    lemma_trim_plain(s);
    assert(s.subrange(0, 3) =~= lit_cd().push(' '));
    assert(s.subrange(3, s.len() as int) =~= dir);
}

} // verus!
