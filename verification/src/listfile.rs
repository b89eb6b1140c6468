//! Parsing a backdrop list file into the ordered candidate sequence.
//!
//! The file is one path per line.  Each line is trimmed of surrounding
//! whitespace; a trimmed line starting with `#` is a comment and dropped;
//! every other line — the empty ones included — stays, in file order.  A
//! blank line therefore becomes a literal empty-string candidate, which
//! later always fails the existence probe; that is the stated behaviour,
//! not an accident to fix here.
//!
//! Reading the file is the caller's affair: this module takes the text.

use vstd::prelude::*;
use vstd::string::*;
use crate::strorder::views;

verus! {

/// The whitespace trimmed from line ends: the ASCII whitespace
/// characters.
pub open spec fn is_space(c: char) -> bool {
    c == ' ' || c == '\t' || c == '\r' || c == '\n' || c == '\u{b}' || c == '\u{c}'
}

/// The line with its leading whitespace dropped.
pub open spec fn trim_front(l: Seq<char>) -> Seq<char>
    decreases l.len(),
{
    if l.len() > 0 && is_space(l[0]) {
        trim_front(l.skip(1))
    } else {
        l
    }
}

/// The line with its trailing whitespace dropped.
pub open spec fn trim_back(l: Seq<char>) -> Seq<char>
    decreases l.len(),
{
    if l.len() > 0 && is_space(l.last()) {
        trim_back(l.drop_last())
    } else {
        l
    }
}

/// The line with surrounding whitespace dropped.
pub open spec fn trim_spec(l: Seq<char>) -> Seq<char> {
    trim_back(trim_front(l))
}

/// The lines of a text, split on newlines; a trailing newline closes the
/// last line rather than opening an empty one.
pub open spec fn split_lines(t: Seq<char>) -> Seq<Seq<char>>
    decreases t.len(),
{
    if t.len() == 0 {
        Seq::empty()
    } else if t[0] == '\n' {
        seq![Seq::<char>::empty()] + split_lines(t.skip(1))
    } else {
        let rest = split_lines(t.skip(1));
        if rest.len() == 0 {
            seq![seq![t[0]]]
        } else {
            seq![seq![t[0]] + rest[0]] + rest.skip(1)
        }
    }
}

/// A trimmed line is kept unless it is a comment.
pub open spec fn keep_line(l: Seq<char>) -> bool {
    l.len() == 0 || l[0] != '#'
}

/// The candidates among the first `n` lines: each line trimmed, comments
/// dropped.
pub open spec fn candidates_upto(lines: Seq<Seq<char>>, n: int) -> Seq<Seq<char>>
    decreases n,
{
    if n <= 0 {
        Seq::empty()
    } else {
        candidates_upto(lines, n - 1) + if keep_line(trim_spec(lines[n - 1])) {
            seq![trim_spec(lines[n - 1])]
        } else {
            Seq::<Seq<char>>::empty()
        }
    }
}

/// The candidate sequence of a whole list file.
pub open spec fn spec_candidates(t: Seq<char>) -> Seq<Seq<char>> {
    candidates_upto(split_lines(t), split_lines(t).len() as int)
}

/// A newline at `i` with none since `start` closes the line
/// `t[start..i]`.
proof fn lemma_lines_segment(t: Seq<char>, start: int, i: int)
    requires
        0 <= start <= i < t.len(),
        t[i] == '\n',
        forall|q: int| start <= q < i ==> t[q] != '\n',
    ensures
        split_lines(t.skip(start)) == seq![t.subrange(start, i)] + split_lines(t.skip(i + 1)),
    decreases i - start,
{
    let s = t.skip(start);
    if start == i {
        assert(s[0] == '\n');
        assert(s.skip(1) =~= t.skip(start + 1));
        assert(t.subrange(start, i) =~= Seq::<char>::empty());
    } else {
        assert(s[0] == t[start]);
        assert(s[0] != '\n');
        lemma_lines_segment(t, start + 1, i);
        assert(s.skip(1) =~= t.skip(start + 1));
        let rest = split_lines(t.skip(start + 1));
        assert(rest == seq![t.subrange(start + 1, i)] + split_lines(t.skip(i + 1)));
        assert(rest.len() >= 1);
        assert(rest[0] == t.subrange(start + 1, i));
        assert(seq![t[start]] + rest[0] =~= t.subrange(start, i));
        assert(rest.skip(1) =~= split_lines(t.skip(i + 1)));
        assert(split_lines(s) == seq![seq![s[0]] + rest[0]] + rest.skip(1));
    }
}

/// No newline from `start` on: at most one final line remains.
proof fn lemma_lines_tail(t: Seq<char>, start: int)
    requires
        0 <= start <= t.len(),
        forall|q: int| start <= q < t.len() ==> t[q] != '\n',
    ensures
        start == t.len() ==> split_lines(t.skip(start)) == Seq::<Seq<char>>::empty(),
        start < t.len() ==> split_lines(t.skip(start)) == seq![t.subrange(start, t.len() as int)],
    decreases t.len() - start,
{
    let s = t.skip(start);
    if start == t.len() {
        assert(s.len() == 0);
    } else {
        assert(s[0] == t[start]);
        assert(s[0] != '\n');
        lemma_lines_tail(t, start + 1);
        assert(s.skip(1) =~= t.skip(start + 1));
        let rest = split_lines(t.skip(start + 1));
        if start + 1 == t.len() {
            assert(rest.len() == 0);
            assert(seq![t[start]] =~= t.subrange(start, t.len() as int));
            assert(split_lines(s) == seq![seq![s[0]]]);
        } else {
            assert(rest == seq![t.subrange(start + 1, t.len() as int)]);
            assert(seq![t[start]] + rest[0] =~= t.subrange(start, t.len() as int));
            assert(rest.skip(1) =~= Seq::<Seq<char>>::empty());
            assert(split_lines(s) == seq![seq![s[0]] + rest[0]] + rest.skip(1));
            assert(split_lines(s) =~= seq![t.subrange(start, t.len() as int)]);
        }
    }
}

/// Whether this character is trimmed whitespace.
fn is_space_char(c: char) -> (r: bool)
    ensures
        r == is_space(c),
{
    c == ' ' || c == '\t' || c == '\r' || c == '\n' || c == '\u{b}' || c == '\u{c}'
}

/// Trim surrounding whitespace from a string.
pub fn trim_str(s: &str) -> (r: String)
    ensures
        r@ == trim_spec(s@),
{
    let n = s.unicode_len();
    let mut a: usize = 0;
    proof {
        assert(s@.skip(0) =~= s@);
    }
    while a < n && is_space_char(s.get_char(a))
        invariant
            n == s@.len(),
            a <= n,
            trim_front(s@) == trim_front(s@.skip(a as int)),
        decreases n - a,
    {
        proof {
            assert(s@.skip(a as int)[0] == s@[a as int]);
            assert(s@.skip(a as int).skip(1) =~= s@.skip(a + 1));
        }
        a = a + 1;
    }
    proof {
        if a < n {
            assert(s@.skip(a as int)[0] == s@[a as int]);
            assert(trim_front(s@) == s@.skip(a as int));
        } else {
            assert(s@.skip(a as int).len() == 0);
            assert(trim_front(s@) == s@.skip(a as int));
        }
        assert(s@.skip(a as int) =~= s@.subrange(a as int, n as int));
    }
    let mut b: usize = n;
    while b > a && is_space_char(s.get_char(b - 1))
        invariant
            n == s@.len(),
            a <= b <= n,
            trim_front(s@) == s@.subrange(a as int, n as int),
            trim_back(s@.subrange(a as int, n as int)) == trim_back(
                s@.subrange(a as int, b as int),
            ),
        decreases b,
    {
        proof {
            let cur = s@.subrange(a as int, b as int);
            assert(cur.last() == s@[b - 1]);
            assert(cur.drop_last() =~= s@.subrange(a as int, b - 1));
        }
        b = b - 1;
    }
    proof {
        let cur = s@.subrange(a as int, b as int);
        if b > a {
            assert(cur.last() == s@[b - 1]);
            assert(trim_back(cur) == cur);
        } else {
            assert(cur.len() == 0);
            assert(trim_back(cur) == cur);
        }
    }
    let piece = s.substring_char(a, b);
    piece.to_owned()
}

/// Split a text into lines.
fn split_lines_exec(t: &str) -> (r: Vec<String>)
    ensures
        views(r@) == split_lines(t@),
{
    let n = t.unicode_len();
    let mut r: Vec<String> = Vec::new();
    let mut start: usize = 0;
    let mut i: usize = 0;
    proof {
        assert(t@.skip(0) =~= t@);
        assert(views(r@) =~= Seq::<Seq<char>>::empty());
    }
    while i < n
        invariant
            n == t@.len(),
            start <= i <= n,
            forall|q: int| start <= q < i ==> t@[q] != '\n',
            split_lines(t@) == views(r@) + split_lines(t@.skip(start as int)),
        decreases n - i,
    {
        if t.get_char(i) == '\n' {
            proof {
                lemma_lines_segment(t@, start as int, i as int);
            }
            let line = t.substring_char(start, i);
            let ghost prev = r@;
            r.push(line.to_owned());
            proof {
                assert(views(r@) =~= views(prev) + seq![t@.subrange(start as int, i as int)]);
                assert(views(r@) + split_lines(t@.skip(i + 1)) =~= views(prev) + (seq![
                    t@.subrange(start as int, i as int),
                ] + split_lines(t@.skip(i + 1))));
            }
            start = i + 1;
        }
        i = i + 1;
    }
    proof {
        lemma_lines_tail(t@, start as int);
    }
    if start < n {
        let line = t.substring_char(start, n);
        let ghost prev = r@;
        r.push(line.to_owned());
        proof {
            assert(views(r@) =~= views(prev) + seq![t@.subrange(start as int, n as int)]);
            assert(split_lines(t@) =~= views(r@));
        }
    } else {
        proof {
            assert(views(r@) + Seq::<Seq<char>>::empty() =~= views(r@));
        }
    }
    r
}

/// One more line adds one candidate, or none for a comment.
proof fn lemma_candidates_step(lines: Seq<Seq<char>>, n: int)
    requires
        n >= 0,
    ensures
        candidates_upto(lines, n + 1) == candidates_upto(lines, n) + if keep_line(
            trim_spec(lines[n]),
        ) {
            seq![trim_spec(lines[n])]
        } else {
            Seq::<Seq<char>>::empty()
        },
{
}

/// Parse list-file text into the ordered candidate sequence: lines
/// trimmed, comments dropped, everything else kept in file order.
pub fn parse_list(text: &str) -> (r: Vec<String>)
    ensures
        views(r@) == spec_candidates(text@),
{
    let lines = split_lines_exec(text);
    let nl = lines.len();
    let mut r: Vec<String> = Vec::new();
    let mut j: usize = 0;
    proof {
        assert(views(r@) =~= Seq::<Seq<char>>::empty());
    }
    while j < nl
        invariant
            nl == lines@.len(),
            j <= nl,
            views(lines@) == split_lines(text@),
            views(r@) == candidates_upto(views(lines@), j as int),
        decreases nl - j,
    {
        proof {
            lemma_candidates_step(views(lines@), j as int);
        }
        let trimmed = trim_str(lines[j].as_str());
        let keep: bool = if trimmed.as_str().is_empty() {
            true
        } else {
            trimmed.as_str().get_char(0) != '#'
        };
        if keep {
            let ghost prev = r@;
            r.push(trimmed);
            proof {
                assert(views(r@) =~= views(prev) + seq![trim_spec(views(lines@)[j as int])]);
            }
        } else {
            proof {
                assert(views(r@) + Seq::<Seq<char>>::empty() =~= views(r@));
            }
        }
        j = j + 1;
    }
    r
}

} // verus!
