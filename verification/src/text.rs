//! Character-level text primitives shared by the tag codec and the prompt
//! builder: pattern occurrence, leftmost search, removal of all occurrences,
//! and whitespace trimming, each with an exact sequence-level specification.

use vstd::prelude::*;

verus! {

/// `pat` occurs in `s` starting exactly at position `i`.
pub open spec fn matches_at(s: Seq<char>, i: int, pat: Seq<char>) -> bool {
    &&& 0 <= i
    &&& i + pat.len() <= s.len()
    &&& forall|j: int| 0 <= j < pat.len() ==> s[i + j] == pat[j]
}

/// `pat` occurs somewhere in `s`.
pub open spec fn contains_seq(s: Seq<char>, pat: Seq<char>) -> bool {
    exists|i: int| matches_at(s, i, pat)
}

/// Position of the leftmost occurrence of `pat` in `s` at or after `i`.
pub open spec fn find_from(s: Seq<char>, i: int, pat: Seq<char>) -> Option<int>
    decreases s.len() - i,
{
    if i < 0 || i + pat.len() > s.len() {
        None
    } else if matches_at(s, i, pat) {
        Some(i)
    } else {
        find_from(s, i + 1, pat)
    }
}

pub proof fn lemma_find_from_some(s: Seq<char>, i: int, pat: Seq<char>, j: int)
    requires
        find_from(s, i, pat) == Some(j),
    ensures
        i <= j,
        matches_at(s, j, pat),
        forall|k: int| i <= k < j ==> !matches_at(s, k, pat),
    decreases s.len() - i,
{
    if !(i < 0 || i + pat.len() > s.len()) && !matches_at(s, i, pat) {
        lemma_find_from_some(s, i + 1, pat, j);
    }
}

pub proof fn lemma_find_from_none(s: Seq<char>, i: int, pat: Seq<char>, k: int)
    requires
        find_from(s, i, pat) is None,
        0 <= i <= k,
    ensures
        !matches_at(s, k, pat),
    decreases s.len() - i,
{
    if i < 0 || i + pat.len() > s.len() {
        assert(!matches_at(s, k, pat));
    } else if k > i {
        lemma_find_from_none(s, i + 1, pat, k);
    }
}

/// `s` with every occurrence of `pat` (leftmost-first, non-overlapping)
/// removed, scanning from position `i`.
pub open spec fn remove_all_from(s: Seq<char>, i: int, pat: Seq<char>) -> Seq<char>
    decreases s.len() - i,
{
    if i < 0 || i >= s.len() {
        Seq::empty()
    } else if pat.len() > 0 && matches_at(s, i, pat) {
        remove_all_from(s, i + pat.len() as int, pat)
    } else {
        seq![s[i]] + remove_all_from(s, i + 1, pat)
    }
}

/// `s` with every occurrence of `pat` removed.
pub open spec fn remove_all(s: Seq<char>, pat: Seq<char>) -> Seq<char> {
    remove_all_from(s, 0, pat)
}

/// Number of positions at or after `i` where `pat` occurs in `s`.
pub open spec fn count_occ_from(s: Seq<char>, i: int, pat: Seq<char>) -> nat
    decreases s.len() - i,
{
    if pat.len() == 0 || i < 0 || i + pat.len() > s.len() {
        0
    } else {
        (if matches_at(s, i, pat) {
            1nat
        } else {
            0nat
        }) + count_occ_from(s, i + 1, pat)
    }
}

/// Number of positions where `pat` occurs in `s`.
pub open spec fn count_occ(s: Seq<char>, pat: Seq<char>) -> nat {
    count_occ_from(s, 0, pat)
}

/// A text without occurrences counts zero, and zero means no occurrences.
pub proof fn lemma_count_none(s: Seq<char>, i: int, pat: Seq<char>)
    requires
        0 <= i,
        pat.len() > 0,
    ensures
        count_occ_from(s, i, pat) == 0 <==> (forall|j: int| j >= i ==> !matches_at(s, j, pat)),
    decreases s.len() - i,
{
    if i + pat.len() > s.len() {
        assert forall|j: int| j >= i implies !matches_at(s, j, pat) by {
            assert(j + pat.len() > s.len());
        }
    } else {
        lemma_count_none(s, i + 1, pat);
    }
}

/// A pattern occurring wholly inside the left part of a concatenation
/// occurs in that part, and conversely.
pub proof fn lemma_matches_left(a: Seq<char>, b: Seq<char>, pat: Seq<char>, i: int)
    requires
        i + pat.len() <= a.len(),
    ensures
        matches_at(a + b, i, pat) <==> matches_at(a, i, pat),
{
    if matches_at(a + b, i, pat) {
        assert forall|j: int| 0 <= j < pat.len() implies a[i + j] == pat[j] by {
            assert((a + b)[i + j] == a[i + j]);
        }
    }
    if matches_at(a, i, pat) {
        assert forall|j: int| 0 <= j < pat.len() implies (a + b)[i + j] == pat[j] by {
            assert((a + b)[i + j] == a[i + j]);
        }
    }
}

/// A pattern at or past the junction of a concatenation occurs in the right
/// part, and conversely.
pub proof fn lemma_matches_right(a: Seq<char>, b: Seq<char>, pat: Seq<char>, j: int)
    requires
        j >= 0,
    ensures
        matches_at(a + b, a.len() + j, pat) <==> matches_at(b, j, pat),
{
    if matches_at(a + b, a.len() + j, pat) {
        assert forall|k: int| 0 <= k < pat.len() implies b[j + k] == pat[k] by {
            assert((a + b)[a.len() + j + k] == b[j + k]);
        }
    }
    if matches_at(b, j, pat) {
        assert forall|k: int| 0 <= k < pat.len() implies (a + b)[a.len() + j + k] == pat[k] by {
            assert((a + b)[a.len() + j + k] == b[j + k]);
        }
    }
}

proof fn lemma_count_right(a: Seq<char>, b: Seq<char>, pat: Seq<char>, j: int)
    requires
        j >= 0,
        pat.len() > 0,
    ensures
        count_occ_from(a + b, a.len() + j, pat) == count_occ_from(b, j, pat),
    decreases b.len() - j,
{
    lemma_matches_right(a, b, pat, j);
    if j + pat.len() <= b.len() {
        lemma_count_right(a, b, pat, j + 1);
    }
}

/// Occurrence counts add across a concatenation when no occurrence spans the
/// junction.
pub proof fn lemma_count_concat(a: Seq<char>, b: Seq<char>, pat: Seq<char>, i: int)
    requires
        0 <= i <= a.len(),
        pat.len() > 0,
        forall|j: int| a.len() - pat.len() < j < a.len() ==> !matches_at(a + b, j, pat),
    ensures
        count_occ_from(a + b, i, pat) == count_occ_from(a, i, pat) + count_occ(b, pat),
    decreases a.len() - i,
{
    if i == a.len() {
        lemma_count_right(a, b, pat, 0);
        assert(count_occ_from(a, i, pat) == 0);
    } else {
        lemma_count_concat(a, b, pat, i + 1);
        if i + pat.len() <= a.len() {
            lemma_matches_left(a, b, pat, i);
        } else {
            assert(!matches_at(a + b, i, pat));
            assert(!matches_at(a, i, pat));
        }
    }
}

/// No occurrence spans the junction of a concatenation whose left part ends
/// with a character foreign to all of the pattern but its last position.
pub proof fn lemma_no_span(a: Seq<char>, b: Seq<char>, pat: Seq<char>)
    requires
        a.len() > 0,
        pat.len() > 0,
        forall|k: int| 0 <= k < pat.len() - 1 ==> pat[k] != a.last(),
    ensures
        forall|j: int| a.len() - pat.len() < j < a.len() ==> !matches_at(a + b, j, pat),
{
    assert forall|j: int| a.len() - pat.len() < j < a.len() implies !matches_at(a + b, j, pat) by {
        if matches_at(a + b, j, pat) {
            let k = a.len() - 1 - j;
            assert((a + b)[j + k] == pat[k]);
            assert((a + b)[a.len() - 1] == a.last());
        }
    }
}

/// The whitespace characters recognized by the codec grammars and by
/// trimming: the Unicode White_Space set.
pub open spec fn is_ws(c: char) -> bool {
    ||| c == ' '
    ||| c == '\t'
    ||| c == '\n'
    ||| c == '\r'
    ||| c == '\u{b}'
    ||| c == '\u{c}'
    ||| c == '\u{85}'
    ||| c == '\u{a0}'
    ||| c == '\u{1680}'
    ||| ('\u{2000}' <= c && c <= '\u{200a}')
    ||| c == '\u{2028}'
    ||| c == '\u{2029}'
    ||| c == '\u{202f}'
    ||| c == '\u{205f}'
    ||| c == '\u{3000}'
}

/// First position at or after `i` holding a non-whitespace character.
pub open spec fn ws_end(s: Seq<char>, i: int) -> int
    decreases s.len() - i,
{
    if 0 <= i && i < s.len() && is_ws(s[i]) {
        ws_end(s, i + 1)
    } else {
        i
    }
}

pub proof fn lemma_ws_end(s: Seq<char>, i: int)
    requires
        0 <= i <= s.len(),
    ensures
        i <= ws_end(s, i) <= s.len(),
        forall|k: int| i <= k < ws_end(s, i) ==> is_ws(s[k]),
        ws_end(s, i) < s.len() ==> !is_ws(s[ws_end(s, i)]),
    decreases s.len() - i,
{
    if i < s.len() && is_ws(s[i]) {
        lemma_ws_end(s, i + 1);
    }
}

/// Length of the trailing whitespace-free prefix bound: first position `j`
/// such that every character in `s[j..]` is whitespace, scanning from the end.
pub open spec fn trim_start_idx(s: Seq<char>) -> int {
    ws_end(s, 0)
}

/// Last position `j >= i` such that all of `s[j..]` is whitespace.
pub open spec fn trim_end_idx(s: Seq<char>, j: int) -> int
    decreases j,
{
    if 0 < j <= s.len() && is_ws(s[j - 1]) {
        trim_end_idx(s, j - 1)
    } else {
        j
    }
}

/// `s` with leading and trailing whitespace removed.
pub open spec fn trim_spec(s: Seq<char>) -> Seq<char> {
    let a = trim_start_idx(s);
    let b = trim_end_idx(s, s.len() as int);
    if a <= b {
        s.subrange(a, b)
    } else {
        Seq::empty()
    }
}

/// Whether `c` is one of the recognized whitespace characters.
pub fn char_is_ws(c: char) -> (r: bool)
    ensures
        r == is_ws(c),
{
    c == ' ' || c == '\t' || c == '\n' || c == '\r' || c == '\u{b}' || c == '\u{c}' || c == '\u{85}'
        || c == '\u{a0}' || c == '\u{1680}' || ('\u{2000}' <= c && c <= '\u{200a}') || c
        == '\u{2028}' || c == '\u{2029}' || c == '\u{202f}' || c == '\u{205f}' || c == '\u{3000}'
}

/// First position at or after `i` holding a non-whitespace character.
pub fn ws_end_exec(v: &Vec<char>, i: usize) -> (r: usize)
    requires
        i <= v.len(),
    ensures
        r as int == ws_end(v@, i as int),
        i <= r <= v.len(),
{
    let mut k: usize = i;
    while k < v.len() && char_is_ws(v[k])
        invariant
            i <= k <= v.len(),
            ws_end(v@, i as int) == ws_end(v@, k as int),
        decreases v.len() - k,
    {
        k = k + 1;
    }
    k
}

/// Converts a string slice to the vector of its characters.
pub fn chars_of(s: &str) -> (r: Vec<char>)
    ensures
        r@ == s@,
{
    let n: usize = s.unicode_len();
    let mut r: Vec<char> = Vec::new();
    let mut i: usize = 0;
    while i < n
        invariant
            n == s@.len(),
            i <= n,
            r@ == s@.subrange(0, i as int),
        decreases n - i,
    {
        let c = s.get_char(i);
        r.push(c);
        i = i + 1;
        proof {
            assert(r@ =~= s@.subrange(0, i as int));
        }
    }
    proof {
        assert(r@ =~= s@);
    }
    r
}

/// Whether `pat` occurs in `v` starting at `i`.
pub fn vec_matches_at(v: &Vec<char>, i: usize, pat: &Vec<char>) -> (r: bool)
    ensures
        r == matches_at(v@, i as int, pat@),
{
    if i > v.len() || pat.len() > v.len() - i {
        return false;
    }
    let mut j: usize = 0;
    while j < pat.len()
        invariant
            i + pat.len() <= v.len(),
            j <= pat.len(),
            forall|k: int| 0 <= k < j ==> v@[i + k] == pat@[k],
        decreases pat.len() - j,
    {
        if v[i + j] != pat[j] {
            return false;
        }
        j = j + 1;
    }
    true
}

/// Leftmost occurrence of `pat` in `v` at or after `from`.
pub fn vec_find_from(v: &Vec<char>, from: usize, pat: &Vec<char>) -> (r: Option<usize>)
    requires
        pat@.len() > 0,
    ensures
        match r {
            Some(j) => find_from(v@, from as int, pat@) == Some(j as int),
            None => find_from(v@, from as int, pat@) is None,
        },
{
    let mut k: usize = from;
    while k < v.len()
        invariant
            from <= k,
            find_from(v@, from as int, pat@) == find_from(v@, k as int, pat@),
        decreases v.len() - k,
    {
        if vec_matches_at(v, k, pat) {
            return Some(k);
        }
        k = k + 1;
    }
    proof {
        assert(find_from(v@, k as int, pat@) is None);
    }
    None
}

/// Removes every occurrence of `pat` from `text`.
pub fn remove_all_exec(text: &str, v: &Vec<char>, pat: &Vec<char>) -> (r: String)
    requires
        v@ == text@,
        pat@.len() > 0,
    ensures
        r@ == remove_all(v@, pat@),
{
    let mut out = String::new();
    let mut k: usize = 0;
    while k < v.len()
        invariant
            v@ == text@,
            pat@.len() > 0,
            k <= v.len(),
            out@ + remove_all_from(v@, k as int, pat@) == remove_all(v@, pat@),
        decreases v.len() - k,
    {
        if vec_matches_at(v, k, pat) {
            proof {
                assert(remove_all_from(v@, k as int, pat@) == remove_all_from(
                    v@,
                    k + pat@.len(),
                    pat@,
                ));
            }
            k = k + pat.len();
        } else {
            out.append(text.substring_char(k, k + 1));
            proof {
                assert(text@.subrange(k as int, k + 1) =~= seq![v@[k as int]]);
                assert(out@ + remove_all_from(v@, k + 1, pat@) =~= remove_all(v@, pat@));
            }
            k = k + 1;
        }
    }
    proof {
        assert(remove_all_from(v@, k as int, pat@) =~= Seq::<char>::empty());
        assert(out@ =~= remove_all(v@, pat@));
    }
    out
}

/// Removes leading and trailing whitespace from `text`.
pub fn trim_exec(text: &str, v: &Vec<char>) -> (r: String)
    requires
        v@ == text@,
    ensures
        r@ == trim_spec(v@),
{
    let a = ws_end_exec(v, 0);
    let mut b: usize = v.len();
    while b > 0 && char_is_ws(v[b - 1])
        invariant
            b <= v.len(),
            trim_end_idx(v@, v@.len() as int) == trim_end_idx(v@, b as int),
        decreases b,
    {
        b = b - 1;
    }
    if a <= b {
        String::from_str(text.substring_char(a, b))
    } else {
        String::new()
    }
}

/// Whether `pat` occurs anywhere in `v`.
pub fn vec_contains(v: &Vec<char>, pat: &Vec<char>) -> (r: bool)
    requires
        pat@.len() > 0,
    ensures
        r == contains_seq(v@, pat@),
{
    let found = vec_find_from(v, 0, pat);
    proof {
        match find_from(v@, 0, pat@) {
            Some(j) => {
                lemma_find_from_some(v@, 0, pat@, j);
            },
            None => {
                assert forall|i: int| !matches_at(v@, i, pat@) by {
                    if i >= 0 {
                        lemma_find_from_none(v@, 0, pat@, i);
                    }
                }
            },
        }
    }
    found.is_some()
}

} // verus!
