//! The grammar of backdrop property keys.
//!
//! The configuration namespace stores one property per monitor and
//! workspace.  Two shapes matter here:
//!
//! * `/backdrop/screen0/monitor<M>/workspace<W>/color-style` — its
//!   existence reveals monitor `<M>`; `extract_monitor` captures `<M>`.
//!   The capture is greedy: `<M>` runs to the last `/workspace`
//!   occurrence that leaves room for the suffix.
//! * `/backdrop/screen0/monitor<M>/workspace<W>/last-image` — the image
//!   assignment of one slot; `is_last_image_key` recognises it for a given
//!   monitor, and `last_image_key` builds it for a slot.
//!
//! Keys are taken as whole property paths, anchored at both ends.

use vstd::prelude::*;
use vstd::string::*;

verus! {

/// The leading path segments up to the monitor token.
pub open spec fn monitor_prefix() -> Seq<char> {
    "/backdrop/screen0/monitor"@
}

/// The segment separating the monitor token from the workspace token.
pub open spec fn workspace_marker() -> Seq<char> {
    "/workspace"@
}

/// The trailing segment of a colour-style key.
pub open spec fn color_suffix() -> Seq<char> {
    "/color-style"@
}

/// The trailing segment of a per-slot image key.
pub open spec fn last_image_suffix() -> Seq<char> {
    "/last-image"@
}

/// `pat` occurs in `k` at position `p`.
pub open spec fn occurs_at(k: Seq<char>, pat: Seq<char>, p: int) -> bool {
    0 <= p && p + pat.len() <= k.len() && k.subrange(p, p + pat.len()) == pat
}

/// The greatest position in `lo..=p` where `pat` occurs in `k`, if any.
pub open spec fn last_occurrence(k: Seq<char>, pat: Seq<char>, lo: int, p: int) -> Option<int>
    decreases (if p >= lo { p - lo + 1 } else { 0 }),
{
    if p < lo {
        None
    } else if occurs_at(k, pat, p) {
        Some(p)
    } else {
        last_occurrence(k, pat, lo, p - 1)
    }
}

/// A scan position where the pattern occurs is the last occurrence at or
/// before itself.
proof fn lemma_last_occurrence_hit(k: Seq<char>, pat: Seq<char>, lo: int, p: int)
    requires
        lo <= p,
        occurs_at(k, pat, p),
    ensures
        last_occurrence(k, pat, lo, p) == Some(p),
{
}

/// A scan position without an occurrence defers to the positions below.
proof fn lemma_last_occurrence_miss(k: Seq<char>, pat: Seq<char>, lo: int, p: int)
    requires
        lo <= p,
        !occurs_at(k, pat, p),
    ensures
        last_occurrence(k, pat, lo, p) == last_occurrence(k, pat, lo, p - 1),
{
}

/// The monitor token captured from a colour-style key: the characters
/// between the fixed prefix and the last workspace marker that leaves
/// room for the suffix, provided the key starts with the prefix and ends
/// with `/color-style`.
pub open spec fn spec_monitor_capture(k: Seq<char>) -> Option<Seq<char>> {
    let plen = monitor_prefix().len() as int;
    let mlen = workspace_marker().len() as int;
    let clen = color_suffix().len() as int;
    if k.len() >= plen + mlen + clen && occurs_at(k, monitor_prefix(), 0) && occurs_at(
        k,
        color_suffix(),
        k.len() - clen,
    ) {
        match last_occurrence(k, workspace_marker(), plen, k.len() - clen - mlen) {
            Some(p) => Some(k.subrange(plen, p)),
            None => None,
        }
    } else {
        None
    }
}

/// A last-image key of the given monitor: prefix, the monitor token, a
/// workspace marker, anything, and the `/last-image` suffix.
pub open spec fn spec_is_last_image_key(k: Seq<char>, m: Seq<char>) -> bool {
    let plen = monitor_prefix().len() as int;
    let mlen = workspace_marker().len() as int;
    let llen = last_image_suffix().len() as int;
    &&& occurs_at(k, monitor_prefix(), 0)
    &&& occurs_at(k, m, plen)
    &&& occurs_at(k, workspace_marker(), plen + m.len())
    &&& k.len() >= plen + m.len() + mlen + llen
    &&& occurs_at(k, last_image_suffix(), k.len() - llen)
}

/// Whether `pat` occurs in `k` at position `p`.
pub fn str_occurs_at(k: &str, pat: &str, p: usize) -> (r: bool)
    ensures
        r == occurs_at(k@, pat@, p as int),
{
    let klen = k.unicode_len();
    let plen = pat.unicode_len();
    if p > klen || plen > klen - p {
        return false;
    }
    let mut i: usize = 0;
    while i < plen
        invariant
            plen == pat@.len(),
            klen == k@.len(),
            p + plen <= klen,
            i <= plen,
            forall|q: int| 0 <= q < i ==> k@[p + q] == pat@[q],
        decreases plen - i,
    {
        if k.get_char(p + i) != pat.get_char(i) {
            assert(k@.subrange(p as int, p + plen)[i as int] != pat@[i as int]);
            return false;
        }
        i = i + 1;
    }
    proof {
        assert(k@.subrange(p as int, p + plen) =~= pat@);
    }
    true
}

/// Capture the monitor token of a colour-style key, if the key has that
/// shape.
pub fn extract_monitor(key: &str) -> (r: Option<String>)
    ensures
        r is Some <==> spec_monitor_capture(key@) is Some,
        r is Some ==> spec_monitor_capture(key@) == Some(r.unwrap()@),
{
    let prefix = "/backdrop/screen0/monitor";
    let marker = "/workspace";
    let suffix = "/color-style";
    proof {
        reveal_strlit("/backdrop/screen0/monitor");
        reveal_strlit("/workspace");
        reveal_strlit("/color-style");
        assert(prefix@ =~= monitor_prefix());
        assert(marker@ =~= workspace_marker());
        assert(suffix@ =~= color_suffix());
    }
    let plen = prefix.unicode_len();
    let mlen = marker.unicode_len();
    let clen = suffix.unicode_len();
    let klen = key.unicode_len();
    if klen < plen + mlen + clen {
        return None;
    }
    if !str_occurs_at(key, prefix, 0) {
        return None;
    }
    if !str_occurs_at(key, suffix, klen - clen) {
        return None;
    }
    let hi = klen - clen - mlen;
    let mut p = hi;
    loop
        invariant
            plen <= p <= hi,
            klen == key@.len(),
            marker@ == workspace_marker(),
            plen == monitor_prefix().len(),
            mlen == workspace_marker().len(),
            clen == color_suffix().len(),
            klen >= plen + mlen + clen,
            hi == klen - clen - mlen,
            last_occurrence(key@, workspace_marker(), plen as int, hi as int)
                == last_occurrence(key@, workspace_marker(), plen as int, p as int),
            occurs_at(key@, monitor_prefix(), 0),
            occurs_at(key@, color_suffix(), klen - clen),
        decreases p,
    {
        if str_occurs_at(key, marker, p) {
            proof {
                lemma_last_occurrence_hit(key@, workspace_marker(), plen as int, p as int);
            }
            let m = key.substring_char(plen, p);
            return Some(m.to_owned());
        }
        proof {
            lemma_last_occurrence_miss(key@, workspace_marker(), plen as int, p as int);
        }
        if p == plen {
            proof {
                assert(last_occurrence(key@, workspace_marker(), plen as int, plen - 1)
                    is None);
            }
            return None;
        }
        p = p - 1;
    }
}

/// Recognise a last-image key of the given monitor.
pub fn is_last_image_key(key: &str, monitor: &str) -> (r: bool)
    ensures
        r == spec_is_last_image_key(key@, monitor@),
{
    let prefix = "/backdrop/screen0/monitor";
    let marker = "/workspace";
    let suffix = "/last-image";
    proof {
        reveal_strlit("/backdrop/screen0/monitor");
        reveal_strlit("/workspace");
        reveal_strlit("/last-image");
        assert(prefix@ =~= monitor_prefix());
        assert(marker@ =~= workspace_marker());
        assert(suffix@ =~= last_image_suffix());
    }
    let plen = prefix.unicode_len();
    let mlen = marker.unicode_len();
    let llen = suffix.unicode_len();
    let klen = key.unicode_len();
    let monlen = monitor.unicode_len();
    if klen < plen || monlen > klen - plen {
        // the monitor token cannot fit behind the prefix
        assert(!occurs_at(key@, monitor@, plen as int));
        return false;
    }
    if klen - plen - monlen < mlen + llen {
        assert(klen < plen + monlen + mlen + llen);
        return false;
    }
    str_occurs_at(key, prefix, 0) && str_occurs_at(key, monitor, plen) && str_occurs_at(
        key,
        marker,
        plen + monlen,
    ) && str_occurs_at(key, suffix, klen - llen)
}

/// The decimal digit character of a value below ten.
pub open spec fn dec_char(d: int) -> char {
    if d == 0 {
        '0'
    } else if d == 1 {
        '1'
    } else if d == 2 {
        '2'
    } else if d == 3 {
        '3'
    } else if d == 4 {
        '4'
    } else if d == 5 {
        '5'
    } else if d == 6 {
        '6'
    } else if d == 7 {
        '7'
    } else if d == 8 {
        '8'
    } else {
        '9'
    }
}

/// The decimal representation of a non-negative integer, most significant
/// digit first.
pub open spec fn dec_rep(n: int) -> Seq<char>
    decreases n,
{
    if n < 10 {
        seq![dec_char(n)]
    } else {
        dec_rep(n / 10).push(dec_char(n % 10))
    }
}

/// One decimal digit as a string.
fn digit_str(d: u64) -> (r: &'static str)
    requires
        d < 10,
    ensures
        r@ =~= seq![dec_char(d as int)],
{
    proof {
        reveal_strlit("0");
        reveal_strlit("1");
        reveal_strlit("2");
        reveal_strlit("3");
        reveal_strlit("4");
        reveal_strlit("5");
        reveal_strlit("6");
        reveal_strlit("7");
        reveal_strlit("8");
        reveal_strlit("9");
    }
    match d {
        0 => "0",
        1 => "1",
        2 => "2",
        3 => "3",
        4 => "4",
        5 => "5",
        6 => "6",
        7 => "7",
        8 => "8",
        _ => "9",
    }
}

/// Render a workspace index (or any value) in decimal.
pub fn u64_to_string(n: u64) -> (s: String)
    ensures
        s@ == dec_rep(n as int),
    decreases n,
{
    if n < 10 {
        digit_str(n).to_owned()
    } else {
        let mut s = u64_to_string(n / 10);
        s.append(digit_str(n % 10));
        proof {
            assert(s@ =~= dec_rep((n / 10) as int).push(dec_char((n % 10) as int)));
        }
        s
    }
}

/// Build the last-image property key of one slot.
pub fn last_image_key(monitor: &str, workspace: u64) -> (r: String)
    ensures
        r@ == monitor_prefix() + monitor@ + workspace_marker() + dec_rep(workspace as int)
            + last_image_suffix(),
{
    proof {
        reveal_strlit("/backdrop/screen0/monitor");
        reveal_strlit("/workspace");
        reveal_strlit("/last-image");
    }
    let mut s = String::new();
    s.append("/backdrop/screen0/monitor");
    s.append(monitor);
    s.append("/workspace");
    let num = u64_to_string(workspace);
    s.append(num.as_str());
    s.append("/last-image");
    proof {
        assert(s@ =~= monitor_prefix() + monitor@ + workspace_marker() + dec_rep(
            workspace as int,
        ) + last_image_suffix());
    }
    s
}

} // verus!
