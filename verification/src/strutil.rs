//! Verified character-level string utilities: substring search, equality,
//! lexicographic comparison, ASCII lowercasing and tag-pair extraction.
//!
//! All specifications are stated over `Seq<char>` views; positions are
//! character indices, not byte offsets.

use vstd::prelude::*;
use vstd::string::StrSliceExecFns;
use vstd::string::StringExecFns;

verus! {

/// Relies on std's `String::push`: appends one character at the end.
pub assume_specification[ String::push ](s: &mut String, c: char)
    ensures
        final(s)@ == old(s)@.push(c),
;

/// The pattern `p` occurs in `h` starting at character position `i`.
pub open spec fn occurs_at(h: Seq<char>, p: Seq<char>, i: int) -> bool {
    0 <= i && i + p.len() <= h.len() && h.subrange(i, i + p.len() as int) == p
}

/// `p` occurs somewhere in `h`.
pub open spec fn contains_seq(h: Seq<char>, p: Seq<char>) -> bool {
    exists|i: int| occurs_at(h, p, i)
}

/// Position of the first occurrence of `p` in `h` at or after `from`.
pub open spec fn first_occurrence_from(h: Seq<char>, p: Seq<char>, from: int) -> Option<int>
    decreases h.len() - from,
{
    if from < 0 || p.len() == 0 || from + p.len() > h.len() {
        None
    } else if occurs_at(h, p, from) {
        Some(from)
    } else {
        first_occurrence_from(h, p, from + 1)
    }
}

pub proof fn lemma_first_occurrence_some(h: Seq<char>, p: Seq<char>, from: int, i: int)
    requires
        first_occurrence_from(h, p, from) == Some(i),
    ensures
        from <= i,
        occurs_at(h, p, i),
        forall|j: int| from <= j < i ==> !occurs_at(h, p, j),
    decreases h.len() - from,
{
    if from < 0 || p.len() == 0 || from + p.len() > h.len() {
    } else if occurs_at(h, p, from) {
    } else {
        lemma_first_occurrence_some(h, p, from + 1, i);
    }
}

pub proof fn lemma_first_occurrence_none(h: Seq<char>, p: Seq<char>, from: int)
    requires
        from >= 0,
        p.len() > 0,
        first_occurrence_from(h, p, from) is None,
    ensures
        forall|j: int| j >= from ==> !occurs_at(h, p, j),
    decreases h.len() - from,
{
    if from + p.len() > h.len() {
    } else if occurs_at(h, p, from) {
    } else {
        lemma_first_occurrence_none(h, p, from + 1);
    }
}

/// The first occurrence is pinned by being an occurrence with none before it.
pub proof fn lemma_first_occurrence_characterize(h: Seq<char>, p: Seq<char>, from: int, i: int)
    requires
        from >= 0,
        p.len() > 0,
        occurs_at(h, p, i),
        i >= from,
        forall|j: int| from <= j < i ==> !occurs_at(h, p, j),
    ensures
        first_occurrence_from(h, p, from) == Some(i),
    decreases i - from,
{
    if from == i {
    } else {
        lemma_first_occurrence_characterize(h, p, from + 1, i);
    }
}

/// All greedily non-overlapping occurrences of `p` in `h` from `from` on,
/// in ascending order.
pub open spec fn occurrences_from(h: Seq<char>, p: Seq<char>, from: int) -> Seq<int>
    decreases h.len() - from,
        when p.len() > 0 && from >= 0
        via occurrences_from_decreases
{
    match first_occurrence_from(h, p, from) {
        None => Seq::empty(),
        Some(i) => seq![i] + occurrences_from(h, p, i + p.len() as int),
    }
}

#[via_fn]
proof fn occurrences_from_decreases(h: Seq<char>, p: Seq<char>, from: int) {
    match first_occurrence_from(h, p, from) {
        None => {},
        Some(i) => {
            lemma_first_occurrence_some(h, p, from, i);
        },
    }
}

/// Every listed occurrence really is one, and lies at or after `from`.
pub proof fn lemma_occurrences_valid(h: Seq<char>, p: Seq<char>, from: int)
    requires
        p.len() > 0,
        from >= 0,
    ensures
        forall|k: int|
            0 <= k < occurrences_from(h, p, from).len() ==> occurs_at(
                h,
                p,
                #[trigger] occurrences_from(h, p, from)[k],
            ) && occurrences_from(h, p, from)[k] >= from,
    decreases h.len() - from,
{
    match first_occurrence_from(h, p, from) {
        None => {},
        Some(i) => {
            lemma_first_occurrence_some(h, p, from, i);
            lemma_occurrences_valid(h, p, i + p.len() as int);
            let occs = occurrences_from(h, p, from);
            let rest = occurrences_from(h, p, i + p.len() as int);
            assert forall|k: int|
                0 <= k < occs.len() implies occurs_at(h, p, #[trigger] occs[k]) && occs[k]
                >= from by {
                if k == 0 {
                } else {
                    assert(occs[k] == rest[k - 1]);
                }
            }
        },
    }
}

/// Whether the characters of `p` appear in `h` at position `i`.
fn match_at(h: &str, hlen: usize, p: &str, plen: usize, i: usize) -> (b: bool)
    requires
        hlen == h@.len(),
        plen == p@.len(),
        i + plen <= hlen,
    ensures
        b == occurs_at(h@, p@, i as int),
{
    let mut j: usize = 0;
    while j < plen
        invariant
            hlen == h@.len(),
            plen == p@.len(),
            i + plen <= hlen,
            0 <= j <= plen,
            forall|k: int| 0 <= k < j ==> h@[i + k] == p@[k],
        decreases plen - j,
    {
        if h.get_char(i + j) != p.get_char(j) {
            assert(h@.subrange(i as int, i + plen) != p@) by {
                assert(h@.subrange(i as int, i + plen)[j as int] == h@[i + j]);
            }
            return false;
        }
        j += 1;
    }
    assert(h@.subrange(i as int, i + plen) =~= p@);
    true
}

/// First occurrence of `p` in `h` at or after `start`, as a character index.
pub fn find_from(h: &str, p: &str, start: usize) -> (r: Option<usize>)
    ensures
        match r {
            Some(i) => first_occurrence_from(h@, p@, start as int) == Some(i as int),
            None => first_occurrence_from(h@, p@, start as int) is None,
        },
{
    let hlen = h.unicode_len();
    let plen = p.unicode_len();
    if plen == 0 || plen > hlen || start > hlen - plen {
        proof {
            if first_occurrence_from(h@, p@, start as int) is Some {
                let i = first_occurrence_from(h@, p@, start as int)->Some_0;
                lemma_first_occurrence_some(h@, p@, start as int, i);
            }
        }
        return None;
    }
    let mut i: usize = start;
    while i <= hlen - plen
        invariant
            hlen == h@.len(),
            plen == p@.len(),
            1 <= plen <= hlen,
            start <= i,
            forall|j: int| start <= j < i ==> !occurs_at(h@, p@, j),
        decreases hlen - i,
    {
        if match_at(h, hlen, p, plen, i) {
            proof {
                lemma_first_occurrence_characterize(h@, p@, start as int, i as int);
            }
            return Some(i);
        }
        i += 1;
    }
    proof {
        if first_occurrence_from(h@, p@, start as int) is Some {
            let k = first_occurrence_from(h@, p@, start as int)->Some_0;
            lemma_first_occurrence_some(h@, p@, start as int, k);
        }
    }
    None
}

/// All greedily non-overlapping occurrences of `p` in `h`.
pub fn find_all(h: &str, p: &str) -> (r: Vec<usize>)
    requires
        p@.len() > 0,
    ensures
        r@.map_values(|u: usize| u as int) == occurrences_from(h@, p@, 0),
{
    let plen = p.unicode_len();
    let hlen = h.unicode_len();
    let mut r: Vec<usize> = Vec::new();
    let mut cur: usize = 0;
    loop
        invariant
            plen == p@.len(),
            hlen == h@.len(),
            plen > 0,
            occurrences_from(h@, p@, 0) =~= r@.map_values(|u: usize| u as int)
                + occurrences_from(h@, p@, cur as int),
        ensures
            r@.map_values(|u: usize| u as int) == occurrences_from(h@, p@, 0),
        decreases hlen + plen - cur,
    {
        match find_from(h, p, cur) {
            Some(i) => {
                proof {
                    lemma_first_occurrence_some(h@, p@, cur as int, i as int);
                    assert(occurrences_from(h@, p@, cur as int) =~= seq![i as int]
                        + occurrences_from(h@, p@, i + p@.len() as int));
                }
                r.push(i);
                proof {
                    assert(r@.map_values(|u: usize| u as int) =~= r@.drop_last().map_values(
                        |u: usize| u as int,
                    ).push(i as int));
                }
                cur = i + plen;
            },
            None => {
                assert(occurrences_from(h@, p@, cur as int) =~= Seq::<int>::empty());
                assert(occurrences_from(h@, p@, 0) =~= r@.map_values(|u: usize| u as int));
                break ;
            },
        }
    }
    r
}

/// Whether `h` contains `p` anywhere.
pub fn str_contains(h: &str, p: &str) -> (r: bool)
    ensures
        r == contains_seq(h@, p@),
{
    if p.unicode_len() == 0 {
        assert(h@.subrange(0, 0) =~= p@);
        assert(occurs_at(h@, p@, 0));
        return true;
    }
    match find_from(h, p, 0) {
        Some(i) => {
            proof {
                lemma_first_occurrence_some(h@, p@, 0, i as int);
            }
            true
        },
        None => {
            proof {
                lemma_first_occurrence_none(h@, p@, 0);
            }
            false
        },
    }
}

/// Character-wise string equality.
pub fn str_eq(a: &str, b: &str) -> (r: bool)
    ensures
        r == (a@ == b@),
{
    let alen = a.unicode_len();
    let blen = b.unicode_len();
    if alen != blen {
        return false;
    }
    let mut i: usize = 0;
    while i < alen
        invariant
            alen == a@.len(),
            alen == b@.len(),
            0 <= i <= alen,
            forall|k: int| 0 <= k < i ==> a@[k] == b@[k],
        decreases alen - i,
    {
        if a.get_char(i) != b.get_char(i) {
            return false;
        }
        i += 1;
    }
    assert(a@ =~= b@);
    true
}

/// Lexicographic order on character sequences (by Unicode scalar value).
/// For UTF-8 encoded strings this coincides with byte-wise comparison.
pub open spec fn lex_le(a: Seq<char>, b: Seq<char>) -> bool
    decreases a.len(),
{
    if a.len() == 0 {
        true
    } else if b.len() == 0 {
        false
    } else if a[0] != b[0] {
        a[0] < b[0]
    } else {
        lex_le(a.drop_first(), b.drop_first())
    }
}

/// `lex_le` is total: any two sequences compare one way or the other.
pub proof fn lemma_lex_le_total(a: Seq<char>, b: Seq<char>)
    ensures
        lex_le(a, b) || lex_le(b, a),
    decreases a.len(),
{
    if a.len() == 0 || b.len() == 0 {
    } else if a[0] != b[0] {
    } else {
        lemma_lex_le_total(a.drop_first(), b.drop_first());
    }
}

fn str_le_at(a: &str, alen: usize, b: &str, blen: usize, i: usize) -> (r: bool)
    requires
        alen == a@.len(),
        blen == b@.len(),
        i <= alen,
        i <= blen,
        a@.subrange(0, i as int) == b@.subrange(0, i as int),
    ensures
        r == lex_le(a@.skip(i as int), b@.skip(i as int)),
    decreases alen - i,
{
    if i == alen {
        assert(a@.skip(i as int).len() == 0);
        true
    } else if i == blen {
        assert(b@.skip(i as int).len() == 0);
        assert(a@.skip(i as int).len() > 0);
        false
    } else {
        let ca = a.get_char(i);
        let cb = b.get_char(i);
        assert(a@.skip(i as int)[0] == a@[i as int]);
        assert(b@.skip(i as int)[0] == b@[i as int]);
        if ca != cb {
            (ca as u32) < (cb as u32)
        } else {
            assert(a@.subrange(0, i + 1) =~= b@.subrange(0, i + 1));
            let r = str_le_at(a, alen, b, blen, i + 1);
            assert(a@.skip(i as int).drop_first() =~= a@.skip(i + 1));
            assert(b@.skip(i as int).drop_first() =~= b@.skip(i + 1));
            r
        }
    }
}

/// Lexicographic comparison of two strings.
pub fn str_le(a: &str, b: &str) -> (r: bool)
    ensures
        r == lex_le(a@, b@),
{
    let alen = a.unicode_len();
    let blen = b.unicode_len();
    assert(a@.subrange(0, 0) =~= b@.subrange(0, 0));
    let r = str_le_at(a, alen, b, blen, 0);
    assert(a@.skip(0) =~= a@);
    assert(b@.skip(0) =~= b@);
    r
}

/// ASCII lowercasing of one character.
pub open spec fn lower_char(c: char) -> char {
    if 'A' <= c && c <= 'Z' {
        ((c as u8) + 32) as char
    } else {
        c
    }
}

/// ASCII-lowercased copy of a character sequence.
pub open spec fn lower_chars(s: Seq<char>) -> Seq<char> {
    s.map_values(|c: char| lower_char(c))
}

/// ASCII-lowercased copy of a string.
pub fn ascii_lowercase(s: &str) -> (r: String)
    ensures
        r@ == lower_chars(s@),
{
    let len = s.unicode_len();
    let mut r = String::new();
    let mut i: usize = 0;
    while i < len
        invariant
            len == s@.len(),
            0 <= i <= len,
            r@ =~= lower_chars(s@.subrange(0, i as int)),
        decreases len - i,
    {
        let c = s.get_char(i);
        let lc: char = if (c as u32) >= ('A' as u32) && (c as u32) <= ('Z' as u32) {
            (((c as u8)) + 32) as char
        } else {
            c
        };
        assert(lc == lower_char(s@[i as int]));
        r.push(lc);
        proof {
            assert(lower_chars(s@.subrange(0, i + 1)) =~= lower_chars(
                s@.subrange(0, i as int),
            ).push(lower_char(s@[i as int])));
        }
        i += 1;
    }
    assert(s@.subrange(0, len as int) =~= s@);
    r
}

/// The values lying between paired occurrences of `open` and `close` in `h`:
/// the k-th value sits between the k-th occurrence of `open` and the k-th
/// occurrence of `close`. `None` when the pairing is malformed.
pub open spec fn extract_between(h: Seq<char>, open: Seq<char>, close: Seq<char>) -> Option<
    Seq<Seq<char>>,
> {
    let ss = occurrences_from(h, open, 0);
    let es = occurrences_from(h, close, 0);
    if ss.len() == es.len() && (forall|k: int|
        0 <= k < ss.len() ==> #[trigger] ss[k] + open.len() <= es[k]) {
        Some(Seq::new(ss.len(), |k: int| h.subrange(ss[k] + open.len(), es[k])))
    } else {
        None
    }
}

/// Extracts the values between paired `open`/`close` markers.
pub fn extract_values(h: &str, open: &str, close: &str) -> (r: Option<Vec<String>>)
    requires
        open@.len() > 0,
        close@.len() > 0,
    ensures
        match r {
            Some(v) => extract_between(h@, open@, close@) == Some(
                v@.map_values(|s: String| s@),
            ),
            None => extract_between(h@, open@, close@) is None,
        },
{
    let hlen = h.unicode_len();
    let starts = find_all(h, open);
    let ends = find_all(h, close);
    let openlen = open.unicode_len();
    proof {
        lemma_occurrences_valid(h@, open@, 0);
        lemma_occurrences_valid(h@, close@, 0);
    }
    if starts.len() != ends.len() {
        return None;
    }
    let ghost ss = occurrences_from(h@, open@, 0);
    let ghost es = occurrences_from(h@, close@, 0);
    let n = starts.len();
    let mut out: Vec<String> = Vec::new();
    let mut k: usize = 0;
    while k < n
        invariant
            hlen == h@.len(),
            n == starts.len(),
            n == ends.len(),
            openlen == open@.len(),
            ss == occurrences_from(h@, open@, 0),
            es == occurrences_from(h@, close@, 0),
            ss == starts@.map_values(|u: usize| u as int),
            es == ends@.map_values(|u: usize| u as int),
            forall|j: int| 0 <= j < n ==> occurs_at(h@, open@, #[trigger] ss[j]),
            forall|j: int| 0 <= j < n ==> occurs_at(h@, close@, #[trigger] es[j]),
            0 <= k <= n,
            forall|j: int| 0 <= j < k ==> #[trigger] ss[j] + open@.len() <= es[j],
            out@.len() == k,
            forall|j: int|
                0 <= j < k ==> out@.map_values(|s: String| s@)[j] == h@.subrange(
                    #[trigger] ss[j] + open@.len(),
                    es[j],
                ),
        decreases n - k,
    {
        assert(occurs_at(h@, open@, ss[k as int]));
        assert(occurs_at(h@, close@, es[k as int]));
        let s_k = starts[k];
        let e_k = ends[k];
        assert(s_k as int == ss[k as int]);
        assert(e_k as int == es[k as int]);
        assert(s_k + openlen <= hlen);
        if e_k < s_k + openlen {
            proof {
                let ss2 = occurrences_from(h@, open@, 0);
                let es2 = occurrences_from(h@, close@, 0);
                assert(!(ss2[k as int] + open@.len() <= es2[k as int]));
                assert(extract_between(h@, open@, close@) is None);
            }
            return None;
        }
        let val = h.substring_char(s_k + openlen, e_k).to_owned();
        out.push(val);
        proof {
            assert(out@.map_values(|s: String| s@) =~= out@.drop_last().map_values(
                |s: String| s@,
            ).push(val@));
        }
        k += 1;
    }
    assert(out@.map_values(|s: String| s@) =~= Seq::new(
        ss.len() as nat,
        |j: int| h@.subrange(ss[j] + open@.len(), es[j]),
    ));
    Some(out)
}

} // verus!
