//! Mapping image references onto the slot grid.
//!
//! Explicit assignment takes a colon-delimited token sequence and pairs
//! token `i` with slot `i` of the canonical grid.  Without repetition the
//! pairing stops at the shorter of the two sequences; with repetition the
//! tokens wrap around so every slot gets one.  An empty token consumes its
//! slot position but produces no write, leaving that slot untouched.

use vstd::prelude::*;
use vstd::string::*;
use crate::slots::Slot;
use crate::strorder::views;

verus! {

/// The colon-separated tokens of a string.  Consecutive colons, and a
/// leading or trailing colon, yield empty tokens; the empty string yields
/// one empty token.
pub open spec fn split_colon(t: Seq<char>) -> Seq<Seq<char>>
    decreases t.len(),
{
    if t.len() == 0 {
        seq![Seq::<char>::empty()]
    } else if t[0] == ':' {
        seq![Seq::<char>::empty()] + split_colon(t.skip(1))
    } else {
        let rest = split_colon(t.skip(1));
        seq![seq![t[0]] + rest[0]] + rest.skip(1)
    }
}

/// Splitting yields at least one token.
proof fn lemma_split_colon_len(t: Seq<char>)
    ensures
        split_colon(t).len() >= 1,
    decreases t.len(),
{
    if t.len() > 0 && t[0] != ':' {
        lemma_split_colon_len(t.skip(1));
    }
}

/// A colon at `i` with no colon since `start` closes the token
/// `t[start..i]`.
proof fn lemma_split_colon_segment(t: Seq<char>, start: int, i: int)
    requires
        0 <= start <= i < t.len(),
        t[i] == ':',
        forall|q: int| start <= q < i ==> t[q] != ':',
    ensures
        split_colon(t.skip(start)) == seq![t.subrange(start, i)] + split_colon(t.skip(i + 1)),
    decreases i - start,
{
    let s = t.skip(start);
    if start == i {
        assert(s[0] == ':');
        assert(s.skip(1) =~= t.skip(start + 1));
        assert(t.subrange(start, i) =~= Seq::<char>::empty());
        assert(split_colon(s) == seq![Seq::<char>::empty()] + split_colon(t.skip(start + 1)));
    } else {
        assert(s[0] == t[start]);
        assert(s[0] != ':');
        lemma_split_colon_segment(t, start + 1, i);
        lemma_split_colon_len(t.skip(i + 1));
        assert(s.skip(1) =~= t.skip(start + 1));
        let rest = split_colon(t.skip(start + 1));
        assert(rest == seq![t.subrange(start + 1, i)] + split_colon(t.skip(i + 1)));
        assert(rest[0] == t.subrange(start + 1, i));
        assert(seq![t[start]] + rest[0] =~= t.subrange(start, i));
        assert(rest.skip(1) =~= split_colon(t.skip(i + 1)));
        assert(split_colon(s) == seq![seq![s[0]] + rest[0]] + rest.skip(1));
    }
}

/// No colon from `start` to the end: one final token remains.
proof fn lemma_split_colon_tail(t: Seq<char>, start: int)
    requires
        0 <= start <= t.len(),
        forall|q: int| start <= q < t.len() ==> t[q] != ':',
    ensures
        split_colon(t.skip(start)) == seq![t.subrange(start, t.len() as int)],
    decreases t.len() - start,
{
    let s = t.skip(start);
    if start == t.len() {
        assert(s.len() == 0);
        assert(t.subrange(start, t.len() as int) =~= Seq::<char>::empty());
    } else {
        assert(s[0] == t[start]);
        assert(s[0] != ':');
        lemma_split_colon_tail(t, start + 1);
        assert(s.skip(1) =~= t.skip(start + 1));
        let rest = split_colon(t.skip(start + 1));
        assert(rest == seq![t.subrange(start + 1, t.len() as int)]);
        assert(seq![t[start]] + rest[0] =~= t.subrange(start, t.len() as int));
        assert(rest.skip(1) =~= Seq::<Seq<char>>::empty());
        assert(split_colon(s) == seq![seq![s[0]] + rest[0]] + rest.skip(1));
        assert(split_colon(s) =~= seq![t.subrange(start, t.len() as int)]);
    }
}

/// Split a token string on colons.
pub fn split_tokens(t: &str) -> (r: Vec<String>)
    ensures
        r@.len() == split_colon(t@).len(),
        forall|i: int| 0 <= i < r@.len() ==> (#[trigger] r@[i]@) == split_colon(t@)[i],
{
    let n = t.unicode_len();
    let mut r: Vec<String> = Vec::new();
    let mut start: usize = 0;
    let mut i: usize = 0;
    proof {
        assert(t@.skip(0) =~= t@);
    }
    while i < n
        invariant
            n == t@.len(),
            start <= i <= n,
            forall|q: int| start <= q < i ==> t@[q] != ':',
            split_colon(t@) == views(r@) + split_colon(t@.skip(start as int)),
        decreases n - i,
    {
        if t.get_char(i) == ':' {
            proof {
                lemma_split_colon_segment(t@, start as int, i as int);
            }
            let tok = t.substring_char(start, i);
            let ghost prev = r@;
            r.push(tok.to_owned());
            proof {
                assert(views(r@) =~= views(prev).push(t@.subrange(start as int, i as int)));
                assert(views(prev).push(t@.subrange(start as int, i as int)) =~= views(prev)
                    + seq![t@.subrange(start as int, i as int)]);
                assert(views(r@) + split_colon(t@.skip(i + 1)) =~= views(prev) + (seq![
                    t@.subrange(start as int, i as int),
                ] + split_colon(t@.skip(i + 1))));
            }
            start = i + 1;
        }
        i = i + 1;
    }
    proof {
        lemma_split_colon_tail(t@, start as int);
    }
    let tok = t.substring_char(start, n);
    let ghost prev = r@;
    r.push(tok.to_owned());
    proof {
        assert(views(r@) =~= views(prev) + seq![t@.subrange(start as int, n as int)]);
        assert(split_colon(t@) =~= views(r@));
    }
    r
}

/// How many slot positions the pairing covers: all of them under
/// repetition, otherwise no more than there are tokens.
pub open spec fn pair_count(ntokens: int, nslots: int, repeat: bool) -> int {
    if repeat {
        nslots
    } else if ntokens < nslots {
        ntokens
    } else {
        nslots
    }
}

/// The (slot position, token) writes of the first `n` slot positions:
/// position `i` takes token `i` modulo the token count, and empty tokens
/// yield no write.
pub open spec fn assign_upto(tokens: Seq<Seq<char>>, n: int) -> Seq<(int, Seq<char>)>
    decreases n,
{
    if n <= 0 || tokens.len() == 0 {
        Seq::empty()
    } else {
        let tok = tokens[(n - 1) % (tokens.len() as int)];
        assign_upto(tokens, n - 1) + if tok.len() > 0 {
            seq![((n - 1), tok)]
        } else {
            Seq::<(int, Seq<char>)>::empty()
        }
    }
}

/// The writes of a full explicit assignment.
pub open spec fn spec_assign(tokens: Seq<Seq<char>>, nslots: int, repeat: bool) -> Seq<
    (int, Seq<char>),
> {
    assign_upto(tokens, pair_count(tokens.len() as int, nslots, repeat))
}

/// One more slot position adds one write, or none for an empty token.
proof fn lemma_assign_step(tokens: Seq<Seq<char>>, n: int)
    requires
        tokens.len() > 0,
        n >= 0,
    ensures
        assign_upto(tokens, n + 1) == assign_upto(tokens, n) + if tokens[n % (
            tokens.len() as int)].len() > 0 {
            seq![(n, tokens[n % (tokens.len() as int)])]
        } else {
            Seq::<(int, Seq<char>)>::empty()
        },
{
}

/// Every planned write targets a covered slot position.
proof fn lemma_assign_upto_bounds(tokens: Seq<Seq<char>>, n: int)
    ensures
        forall|k: int|
            0 <= k < assign_upto(tokens, n).len() ==> {
                let p = #[trigger] assign_upto(tokens, n)[k];
                0 <= p.0 < n && p.1 == tokens[p.0 % (tokens.len() as int)] && p.1.len() > 0
            },
    decreases n,
{
    if n > 0 && tokens.len() > 0 {
        lemma_assign_upto_bounds(tokens, n - 1);
        lemma_assign_step(tokens, n - 1);
    }
}

/// One write of an explicit assignment.
#[derive(Debug)]
pub struct SlotWrite {
    /// The monitor token of the slot written.
    pub monitor: String,
    /// The workspace index of the slot written.
    pub workspace: u64,
    /// The image reference written.
    pub image: String,
}

/// Pair the tokens with the slots positionally and keep the non-empty
/// pairs, in slot order.  With `repeat` the tokens wrap around so every
/// slot is covered; without it the pairing stops when tokens run out.
pub fn assign(tokens: &Vec<String>, slots: &Vec<Slot>, repeat: bool) -> (r: Vec<SlotWrite>)
    ensures
        ({
            let pairs = spec_assign(views(tokens@), slots@.len() as int, repeat);
            &&& r@.len() == pairs.len()
            &&& forall|k: int|
                0 <= k < r@.len() ==> {
                    let p = #[trigger] pairs[k];
                    &&& 0 <= p.0 < slots@.len()
                    &&& r@[k].monitor@ == slots@[p.0].monitor@
                    &&& r@[k].workspace == slots@[p.0].workspace
                    &&& r@[k].image@ == p.1
                }
        }),
{
    let ghost tviews = views(tokens@);
    let ntok = tokens.len();
    let nslots = slots.len();
    let mut r: Vec<SlotWrite> = Vec::new();
    if ntok == 0 {
        return r;
    }
    let count: usize = if repeat {
        nslots
    } else if ntok < nslots {
        ntok
    } else {
        nslots
    };
    let mut i: usize = 0;
    while i < count
        invariant
            ntok == tokens@.len(),
            nslots == slots@.len(),
            ntok > 0,
            count == pair_count(ntok as int, nslots as int, repeat),
            count <= nslots,
            i <= count,
            tviews == views(tokens@),
            r@.len() == assign_upto(tviews, i as int).len(),
            forall|k: int|
                0 <= k < r@.len() ==> {
                    let p = #[trigger] assign_upto(tviews, i as int)[k];
                    &&& 0 <= p.0 < slots@.len()
                    &&& r@[k].monitor@ == slots@[p.0].monitor@
                    &&& r@[k].workspace == slots@[p.0].workspace
                    &&& r@[k].image@ == p.1
                },
        decreases count - i,
    {
        proof {
            lemma_assign_step(tviews, i as int);
            lemma_assign_upto_bounds(tviews, i as int);
        }
        let idx: usize = if repeat {
            i % ntok
        } else {
            i
        };
        proof {
            if !repeat {
                vstd::arithmetic::div_mod::lemma_small_mod(i as nat, ntok as nat);
            }
            assert(idx as int == i as int % (ntok as int));
        }
        let tok = &tokens[idx];
        if !tok.as_str().is_empty() {
            r.push(
                SlotWrite {
                    monitor: slots[i].monitor.clone(),
                    workspace: slots[i].workspace,
                    image: tok.clone(),
                },
            );
        }
        proof {
            lemma_assign_upto_bounds(tviews, i + 1);
        }
        i = i + 1;
    }
    r
}

} // verus!
