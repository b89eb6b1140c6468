//! Picking an image at random from a candidate pool, with retry.
//!
//! The pool is canonicalized (sorted, deduplicated) and then probed: a
//! uniformly random index is drawn over the remaining candidates, the
//! chosen path's existence is checked, and a missing candidate is removed
//! for good before the next draw.  Because the remaining set holds each
//! candidate once, every distinct candidate is examined at most once and
//! the retry cannot loop forever.
//!
//! Existence is the caller's affair: the filesystem probe happens between
//! `propose` and `resolve`, outside this module.  `pick_among` runs the
//! same loop with existence given as membership in a second vector, which
//! is how the tests drive it.

use vstd::prelude::*;
use rand::Rng;
use rand::SeedableRng;
use rand::rngs::SmallRng;
use crate::errors::BackdropError;
use crate::strorder::canonicalize;
use crate::strorder::has_view;
use crate::strorder::lemma_has_view_index;
use crate::strorder::lex_lt;
use crate::strorder::strictly_sorted;
use crate::strorder::views;

verus! {

/// Declares rand's `SmallRng` so its values can pass through signatures;
/// the generator is opaque here.
#[verifier::external_type_specification]
#[verifier::external_body]
pub struct ExSmallRng(SmallRng);

/// Relies on rand's `SeedableRng::from_os_rng` for `SmallRng`: a fresh
/// generator seeded by the operating system.  Nothing is promised of its
/// output.  (It panics only if the system cannot provide entropy.)
#[verifier::external_body]
pub fn rng_from_entropy() -> SmallRng {
    SmallRng::from_os_rng()
}

/// Relies on rand's `SeedableRng::seed_from_u64` for `SmallRng`: a
/// deterministic generator from an integral seed.  Nothing is promised of
/// its output.
#[verifier::external_body]
pub fn rng_seeded(seed: u64) -> SmallRng {
    SmallRng::seed_from_u64(seed)
}

/// Relies on rand's `Rng::random_range` over `0..n`: the draw lies below
/// `n`.  The call panics on an empty range, which the precondition rules
/// out.
#[verifier::external_body]
fn draw_below(rng: &mut SmallRng, n: usize) -> (r: usize)
    requires
        n > 0,
    ensures
        r < n,
{
    rng.random_range(0..n)
}

/// Removing one element of a strictly sorted sequence keeps it strictly
/// sorted, removes that element's view entirely, and keeps every other
/// view.
proof fn lemma_remove_sorted(s: Seq<String>, i: int)
    requires
        strictly_sorted(views(s)),
        0 <= i < s.len(),
    ensures
        strictly_sorted(views(s.remove(i))),
        !has_view(s.remove(i), s[i]@),
        forall|x: Seq<char>| #[trigger] has_view(s.remove(i), x) ==> has_view(s, x),
        forall|x: Seq<char>| has_view(s, x) && x != s[i]@ ==> #[trigger] has_view(s.remove(i), x),
{
    let t = s.remove(i);
    let sv = views(s);
    let tv = views(t);
    assert(tv =~= sv.remove(i));
    assert forall|x: int, y: int| 0 <= x < y < tv.len() implies lex_lt(tv[x], tv[y]) by {
        let xo: int = if x < i {
            x
        } else {
            x + 1
        };
        let yo: int = if y < i {
            y
        } else {
            y + 1
        };
        assert(tv[x] == sv[xo] && tv[y] == sv[yo]);
        assert(lex_lt(sv[xo], sv[yo]));
    }
    assert forall|x: Seq<char>| #[trigger] has_view(t, x) implies has_view(s, x) by {
        let q = choose|q: int| 0 <= q < t.len() && t[q]@ == x;
        if q < i {
            lemma_has_view_index(s, q);
        } else {
            lemma_has_view_index(s, q + 1);
        }
    }
    assert(!has_view(t, s[i]@)) by {
        if has_view(t, s[i]@) {
            let q = choose|q: int| 0 <= q < t.len() && t[q]@ == s[i]@;
            let qo: int = if q < i {
                q
            } else {
                q + 1
            };
            assert(sv[qo] == sv[i]);
            if qo < i {
                assert(lex_lt(sv[qo], sv[i]));
            } else {
                assert(lex_lt(sv[i], sv[qo]));
            }
        }
    }
    assert forall|x: Seq<char>| has_view(s, x) && x != s[i]@ implies #[trigger] has_view(
        t,
        x,
    ) by {
        let q = choose|q: int| 0 <= q < s.len() && s[q]@ == x;
        assert(q != i);
        if q < i {
            assert(t[q]@ == x);
            lemma_has_view_index(t, q);
        } else {
            assert(t[q - 1]@ == x);
            lemma_has_view_index(t, q - 1);
        }
    }
}

/// The remaining candidates of one pick run: the canonical form of the
/// pool, shrinking as probes fail.
pub struct Selector {
    /// Candidates not yet ruled out, strictly ascending.
    pub remaining: Vec<String>,
}

impl Selector {
    /// The remaining candidates are sorted and hold no duplicates.
    pub open spec fn wf(&self) -> bool {
        strictly_sorted(views(self.remaining@))
    }

    /// Canonicalize a candidate pool: the remaining set starts as the
    /// deduplicated, sorted pool.
    pub fn new(candidates: &Vec<String>) -> (s: Selector)
        ensures
            s.wf(),
            forall|x: Seq<char>| #[trigger] has_view(s.remaining@, x) <==> has_view(candidates@, x),
    {
        Selector { remaining: canonicalize(candidates) }
    }

    /// How many candidates are still in play.
    pub fn remaining_count(&self) -> (n: usize)
        ensures
            n == self.remaining@.len(),
    {
        self.remaining.len()
    }

    /// Draw a uniformly random probe index over the remaining candidates;
    /// nothing is left to probe exactly when the pool is exhausted.
    pub fn propose(&self, rng: &mut SmallRng) -> (r: Option<usize>)
        ensures
            r is Some <==> self.remaining@.len() > 0,
            r is Some ==> r->0 < self.remaining@.len(),
    {
        if self.remaining.len() == 0 {
            None
        } else {
            Some(draw_below(rng, self.remaining.len()))
        }
    }

    /// The candidate at a probe index.
    pub fn candidate(&self, i: usize) -> (c: &String)
        requires
            i < self.remaining@.len(),
        ensures
            c@ == self.remaining@[i as int]@,
    {
        &self.remaining[i]
    }

    /// Record a probe outcome.  A present candidate is returned and the
    /// state kept; a missing one is removed for good, so it can never be
    /// probed again.
    pub fn resolve(&mut self, i: usize, present: bool) -> (r: Option<String>)
        requires
            old(self).wf(),
            i < old(self).remaining@.len(),
        ensures
            final(self).wf(),
            present ==> (r matches Some(p) && p@ == old(self).remaining@[i as int]@
                && final(self).remaining@ == old(self).remaining@),
            !present ==> r is None
                && final(self).remaining@ == old(self).remaining@.remove(i as int)
                && !has_view(final(self).remaining@, old(self).remaining@[i as int]@),
            !present ==> forall|x: Seq<char>|
                #[trigger] has_view(final(self).remaining@, x)
                    ==> has_view(old(self).remaining@, x),
            !present ==> forall|x: Seq<char>|
                has_view(old(self).remaining@, x) && x != old(self).remaining@[i as int]@
                    ==> #[trigger] has_view(final(self).remaining@, x),
    {
        if present {
            Some(self.remaining[i].clone())
        } else {
            proof {
                lemma_remove_sorted(self.remaining@, i as int);
            }
            self.remaining.remove(i);
            None
        }
    }
}

/// In a run where every probe misses, no candidate is examined twice: a
/// missed candidate leaves the remaining set for good, and every miss
/// shrinks the set by exactly one, so a pool of `n` distinct remaining
/// candidates is exhausted after exactly `n` probes.
pub proof fn lemma_miss_examines_each_candidate_once(s: Seq<String>, i: int)
    requires
        strictly_sorted(views(s)),
        0 <= i < s.len(),
    ensures
        s.remove(i).len() == s.len() - 1,
        !has_view(s.remove(i), s[i]@),
{
    lemma_remove_sorted(s, i);
}

/// Whether some element of the vector has this string's characters.
fn contains_str(v: &Vec<String>, s: &String) -> (r: bool)
    ensures
        r == has_view(v@, s@),
{
    let n = v.len();
    let mut i: usize = 0;
    while i < n
        invariant
            n == v@.len(),
            i <= n,
            forall|q: int| 0 <= q < i ==> v@[q]@ != s@,
        decreases n - i,
    {
        if v[i].eq(s) {
            proof {
                lemma_has_view_index(v@, i as int);
            }
            return true;
        }
        i = i + 1;
    }
    proof {
        if has_view(v@, s@) {
            let q = choose|q: int| 0 <= q < v@.len() && v@[q]@ == s@;
        }
    }
    false
}

/// Run the full pick loop with existence given as membership in
/// `present`: draw, probe, drop missing candidates, and return the first
/// hit.  Succeeds exactly when some candidate is present; a returned path
/// is both a pool member and present.
pub fn pick_among(candidates: &Vec<String>, rng: &mut SmallRng, present: &Vec<String>) -> (r:
    Result<String, BackdropError>)
    ensures
        r is Ok <==> exists|x: Seq<char>|
            #[trigger] has_view(candidates@, x) && has_view(present@, x),
        r matches Ok(p) ==> has_view(candidates@, p@) && has_view(present@, p@),
        r is Err ==> r->Err_0 is NoImage,
{
    let mut sel = Selector::new(candidates);
    loop
        invariant
            sel.wf(),
            forall|x: Seq<char>|
                #[trigger] has_view(sel.remaining@, x) ==> has_view(candidates@, x),
            forall|x: Seq<char>|
                has_view(candidates@, x) && #[trigger] has_view(present@, x) ==> has_view(
                    sel.remaining@,
                    x,
                ),
        decreases sel.remaining@.len(),
    {
        let probe = sel.propose(rng);
        match probe {
            None => {
                proof {
                    assert forall|x: Seq<char>|
                        !(#[trigger] has_view(candidates@, x) && has_view(present@, x)) by {
                        if has_view(candidates@, x) && has_view(present@, x) {
                            assert(has_view(sel.remaining@, x));
                            let q = choose|q: int|
                                0 <= q < sel.remaining@.len() && sel.remaining@[q]@ == x;
                        }
                    }
                }
                return Err(BackdropError::NoImage);
            },
            Some(i) => {
                let found = contains_str(present, sel.candidate(i));
                let ghost probed = sel.remaining@[i as int]@;
                let outcome = sel.resolve(i, found);
                match outcome {
                    Some(p) => {
                        proof {
                            lemma_has_view_index(sel.remaining@, i as int);
                            assert(has_view(sel.remaining@, p@));
                        }
                        return Ok(p);
                    },
                    None => {
                        proof {
                            assert forall|x: Seq<char>|
                                has_view(candidates@, x) && #[trigger] has_view(present@, x)
                                    implies has_view(sel.remaining@, x) by {
                                assert(x != probed);
                            }
                        }
                    },
                }
            },
        }
    }
}

} // verus!
