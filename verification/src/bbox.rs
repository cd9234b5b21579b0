//! Bounding-box tag codec for raw model output.
//!
//! Two grammars are recognized, each in a paired and a standalone form:
//! the grounding form `<|ref|>TEXT<|/ref|><|det|>[[X1,Y1,X2,Y2]]<|/det|>`
//! (standalone: just the `<|det|>...` part) and the legacy form
//! `<ref>TEXT</ref><box>[[X1,Y1],[X2,Y2]]</box>` (standalone: just the
//! `<box>...` part). Numeric fields tolerate surrounding whitespace.

use vstd::prelude::*;
use crate::text::{matches_at, is_ws, ws_end, lemma_ws_end};

verus! {

// ---------------------------------------------------------------------------
// Grammar building blocks
// ---------------------------------------------------------------------------

pub open spec fn gref_open() -> Seq<char> {
    "<|ref|>"@
}

pub open spec fn gref_close() -> Seq<char> {
    "<|/ref|>"@
}

pub open spec fn gdet_open() -> Seq<char> {
    "<|det|>[["@
}

pub open spec fn gdet_close() -> Seq<char> {
    "]]<|/det|>"@
}

pub open spec fn lref_open() -> Seq<char> {
    "<ref>"@
}

pub open spec fn lref_close() -> Seq<char> {
    "</ref>"@
}

pub open spec fn lbox_open() -> Seq<char> {
    "<box>[["@
}

pub open spec fn lbox_mid() -> Seq<char> {
    "],["@
}

pub open spec fn lbox_close() -> Seq<char> {
    "]]</box>"@
}

pub open spec fn is_digit(c: char) -> bool {
    '0' <= c && c <= '9'
}

pub open spec fn digit_of(c: char) -> nat {
    if c == '0' {
        0
    } else if c == '1' {
        1
    } else if c == '2' {
        2
    } else if c == '3' {
        3
    } else if c == '4' {
        4
    } else if c == '5' {
        5
    } else if c == '6' {
        6
    } else if c == '7' {
        7
    } else if c == '8' {
        8
    } else {
        9
    }
}

/// First position at or after `i` holding a non-digit character.
pub open spec fn digits_end(s: Seq<char>, i: int) -> int
    decreases s.len() - i,
{
    if 0 <= i && i < s.len() && is_digit(s[i]) {
        digits_end(s, i + 1)
    } else {
        i
    }
}

pub proof fn lemma_digits_end(s: Seq<char>, i: int)
    requires
        0 <= i <= s.len(),
    ensures
        i <= digits_end(s, i) <= s.len(),
        forall|k: int| i <= k < digits_end(s, i) ==> is_digit(s[k]),
    decreases s.len() - i,
{
    if i < s.len() && is_digit(s[i]) {
        lemma_digits_end(s, i + 1);
    }
}

/// Base-10 value of the digit run `s[a..b)`.
pub open spec fn digits_val(s: Seq<char>, a: int, b: int) -> nat
    decreases b - a,
{
    if b <= a {
        0
    } else {
        digits_val(s, a, b - 1) * 10 + digit_of(s[b - 1])
    }
}

/// A numeric field: optional whitespace, one or more digits, optional
/// whitespace. Yields the digits' value and the position past the field.
pub open spec fn num_field(s: Seq<char>, i: int) -> Option<(nat, int)> {
    let a = ws_end(s, i);
    let b = digits_end(s, a);
    if b > a {
        Some((digits_val(s, a, b), ws_end(s, b)))
    } else {
        None
    }
}

pub proof fn lemma_num_field_bounds(s: Seq<char>, i: int)
    requires
        0 <= i <= s.len(),
        num_field(s, i) is Some,
    ensures
        i <= num_field(s, i)->Some_0.1 <= s.len(),
{
    lemma_ws_end(s, i);
    lemma_digits_end(s, ws_end(s, i));
    lemma_ws_end(s, digits_end(s, ws_end(s, i)));
}

/// First position at or after `i` holding `'<'` (or the end of `s`):
/// reference text runs up to the next tag opener.
pub open spec fn non_lt_end(s: Seq<char>, i: int) -> int
    decreases s.len() - i,
{
    if 0 <= i && i < s.len() && s[i] != '<' {
        non_lt_end(s, i + 1)
    } else {
        i
    }
}

pub proof fn lemma_non_lt_end(s: Seq<char>, i: int)
    requires
        0 <= i <= s.len(),
    ensures
        i <= non_lt_end(s, i) <= s.len(),
    decreases s.len() - i,
{
    if i < s.len() && s[i] != '<' {
        lemma_non_lt_end(s, i + 1);
    }
}

// ---------------------------------------------------------------------------
// Matches
// ---------------------------------------------------------------------------

/// A successful parse of one tag group: the position just past it, the four
/// coordinate values, and the captured reference text (empty and unused for
/// the standalone forms).
pub struct GMatch {
    pub end: int,
    pub x1: nat,
    pub y1: nat,
    pub x2: nat,
    pub y2: nat,
    pub text: Seq<char>,
    pub has_text: bool,
}

/// All four coordinate values fit the executable coordinate type.
pub open spec fn m_fits(m: GMatch) -> bool {
    m.x1 <= u32::MAX && m.y1 <= u32::MAX && m.x2 <= u32::MAX && m.y2 <= u32::MAX
}

/// Parse of a grounding detection group `<|det|>[[f,f,f,f]]<|/det|>` at `i`.
pub open spec fn det_at(s: Seq<char>, i: int) -> Option<GMatch> {
    if matches_at(s, i, gdet_open()) && num_field(s, i + gdet_open().len()) is Some {
        let (x1, p1) = num_field(s, i + gdet_open().len())->Some_0;
        if p1 < s.len() && s[p1] == ',' && num_field(s, p1 + 1) is Some {
            let (y1, p2) = num_field(s, p1 + 1)->Some_0;
            if p2 < s.len() && s[p2] == ',' && num_field(s, p2 + 1) is Some {
                let (x2, p3) = num_field(s, p2 + 1)->Some_0;
                if p3 < s.len() && s[p3] == ',' && num_field(s, p3 + 1) is Some {
                    let (y2, p4) = num_field(s, p3 + 1)->Some_0;
                    if matches_at(s, p4, gdet_close()) {
                        Some(
                            GMatch {
                                end: p4 + gdet_close().len(),
                                x1,
                                y1,
                                x2,
                                y2,
                                text: Seq::empty(),
                                has_text: false,
                            },
                        )
                    } else {
                        None
                    }
                } else {
                    None
                }
            } else {
                None
            }
        } else {
            None
        }
    } else {
        None
    }
}

/// Parse of a legacy box group `<box>[[f,f],[f,f]]</box>` at `i`.
pub open spec fn box_at(s: Seq<char>, i: int) -> Option<GMatch> {
    if matches_at(s, i, lbox_open()) && num_field(s, i + lbox_open().len()) is Some {
        let (x1, p1) = num_field(s, i + lbox_open().len())->Some_0;
        if p1 < s.len() && s[p1] == ',' && num_field(s, p1 + 1) is Some {
            let (y1, p2) = num_field(s, p1 + 1)->Some_0;
            if matches_at(s, p2, lbox_mid()) && num_field(s, p2 + lbox_mid().len()) is Some {
                let (x2, p3) = num_field(s, p2 + lbox_mid().len())->Some_0;
                if p3 < s.len() && s[p3] == ',' && num_field(s, p3 + 1) is Some {
                    let (y2, p4) = num_field(s, p3 + 1)->Some_0;
                    if matches_at(s, p4, lbox_close()) {
                        Some(
                            GMatch {
                                end: p4 + lbox_close().len(),
                                x1,
                                y1,
                                x2,
                                y2,
                                text: Seq::empty(),
                                has_text: false,
                            },
                        )
                    } else {
                        None
                    }
                } else {
                    None
                }
            } else {
                None
            }
        } else {
            None
        }
    } else {
        None
    }
}

/// Parse of a grounding reference/detection pair at `i`.
pub open spec fn ground_paired_at(s: Seq<char>, i: int) -> Option<GMatch> {
    if matches_at(s, i, gref_open()) {
        let a = i + gref_open().len();
        let b = non_lt_end(s, a);
        if b > a && matches_at(s, b, gref_close()) {
            let d = ws_end(s, b + gref_close().len());
            match det_at(s, d) {
                Some(m) => Some(
                    GMatch {
                        end: m.end,
                        x1: m.x1,
                        y1: m.y1,
                        x2: m.x2,
                        y2: m.y2,
                        text: s.subrange(a, b),
                        has_text: true,
                    },
                ),
                None => None,
            }
        } else {
            None
        }
    } else {
        None
    }
}

/// Parse of a legacy reference/box pair at `i`.
pub open spec fn legacy_paired_at(s: Seq<char>, i: int) -> Option<GMatch> {
    if matches_at(s, i, lref_open()) {
        let a = i + lref_open().len();
        let b = non_lt_end(s, a);
        if b > a && matches_at(s, b, lref_close()) {
            let d = ws_end(s, b + lref_close().len());
            match box_at(s, d) {
                Some(m) => Some(
                    GMatch {
                        end: m.end,
                        x1: m.x1,
                        y1: m.y1,
                        x2: m.x2,
                        y2: m.y2,
                        text: s.subrange(a, b),
                        has_text: true,
                    },
                ),
                None => None,
            }
        } else {
            None
        }
    } else {
        None
    }
}

/// The four recognized tag grammars.
#[derive(Clone, Copy, PartialEq, Eq, Structural)]
pub enum Grammar {
    GroundingPaired,
    GroundingAlone,
    LegacyPaired,
    LegacyAlone,
}

/// Parse of one group of grammar `g` at position `i`.
pub open spec fn g_match_at(g: Grammar, s: Seq<char>, i: int) -> Option<GMatch> {
    match g {
        Grammar::GroundingPaired => ground_paired_at(s, i),
        Grammar::GroundingAlone => det_at(s, i),
        Grammar::LegacyPaired => legacy_paired_at(s, i),
        Grammar::LegacyAlone => box_at(s, i),
    }
}

pub proof fn lemma_det_at_bounds(s: Seq<char>, i: int)
    requires
        det_at(s, i) is Some,
    ensures
        0 <= i < det_at(s, i)->Some_0.end <= s.len(),
{
    reveal_strlit("<|det|>[[");
    reveal_strlit("]]<|/det|>");
    let p0 = i + gdet_open().len();
    let (x1, p1) = num_field(s, p0)->Some_0;
    lemma_num_field_bounds(s, p0);
    let (y1, p2) = num_field(s, p1 + 1)->Some_0;
    lemma_num_field_bounds(s, p1 + 1);
    let (x2, p3) = num_field(s, p2 + 1)->Some_0;
    lemma_num_field_bounds(s, p2 + 1);
    let (y2, p4) = num_field(s, p3 + 1)->Some_0;
    lemma_num_field_bounds(s, p3 + 1);
}

pub proof fn lemma_box_at_bounds(s: Seq<char>, i: int)
    requires
        box_at(s, i) is Some,
    ensures
        0 <= i < box_at(s, i)->Some_0.end <= s.len(),
{
    reveal_strlit("<box>[[");
    reveal_strlit("],[");
    reveal_strlit("]]</box>");
    let p0 = i + lbox_open().len();
    let (x1, p1) = num_field(s, p0)->Some_0;
    lemma_num_field_bounds(s, p0);
    let (y1, p2) = num_field(s, p1 + 1)->Some_0;
    lemma_num_field_bounds(s, p1 + 1);
    let (x2, p3) = num_field(s, p2 + lbox_mid().len())->Some_0;
    lemma_num_field_bounds(s, p2 + lbox_mid().len());
    let (y2, p4) = num_field(s, p3 + 1)->Some_0;
    lemma_num_field_bounds(s, p3 + 1);
}

pub proof fn lemma_g_match_bounds(g: Grammar, s: Seq<char>, i: int)
    requires
        g_match_at(g, s, i) is Some,
    ensures
        0 <= i < g_match_at(g, s, i)->Some_0.end <= s.len(),
{
    match g {
        Grammar::GroundingPaired => {
            reveal_strlit("<|ref|>");
            reveal_strlit("<|/ref|>");
            let a = i + gref_open().len();
            let b = non_lt_end(s, a);
            let d = ws_end(s, b + gref_close().len());
            lemma_ws_end(s, b + gref_close().len());
            lemma_det_at_bounds(s, d);
        },
        Grammar::GroundingAlone => {
            lemma_det_at_bounds(s, i);
        },
        Grammar::LegacyPaired => {
            reveal_strlit("<ref>");
            reveal_strlit("</ref>");
            let a = i + lref_open().len();
            let b = non_lt_end(s, a);
            let d = ws_end(s, b + lref_close().len());
            lemma_ws_end(s, b + lref_close().len());
            lemma_box_at_bounds(s, d);
        },
        Grammar::LegacyAlone => {
            lemma_box_at_bounds(s, i);
        },
    }
}

// ---------------------------------------------------------------------------
// Scanning: all leftmost, non-overlapping groups of one grammar
// ---------------------------------------------------------------------------

/// The groups of grammar `g` found by a leftmost, non-overlapping scan of `s`
/// from position `i`, in appearance order.
pub open spec fn g_scan_from(g: Grammar, s: Seq<char>, i: int) -> Seq<GMatch>
    decreases s.len() - i,
{
    if i < 0 || i >= s.len() {
        Seq::empty()
    } else {
        match g_match_at(g, s, i) {
            Some(m) => if m.end > i {
                seq![m] + g_scan_from(g, s, m.end)
            } else {
                seq![m]
            },
            None => g_scan_from(g, s, i + 1),
        }
    }
}

/// `s` from position `i` with each scanned group of grammar `g` replaced by
/// its captured text when `keep_text` holds, and deleted otherwise.
pub open spec fn g_replace_from(g: Grammar, s: Seq<char>, i: int, keep_text: bool) -> Seq<char>
    decreases s.len() - i,
{
    if i < 0 || i >= s.len() {
        Seq::empty()
    } else {
        match g_match_at(g, s, i) {
            Some(m) => {
                let rep: Seq<char> = if keep_text {
                    m.text
                } else {
                    Seq::empty()
                };
                if m.end > i {
                    rep + g_replace_from(g, s, m.end, keep_text)
                } else {
                    rep
                }
            },
            None => seq![s[i]] + g_replace_from(g, s, i + 1, keep_text),
        }
    }
}

// ---------------------------------------------------------------------------
// Executable parsing
// ---------------------------------------------------------------------------

/// A parsed tag group as the scanner reports it: the position past the group,
/// the coordinates when all four fit `u32`, and the span of the captured
/// reference text inside the scanned vector.
pub struct TagMatch {
    pub end: usize,
    pub coords: Option<(u32, u32, u32, u32)>,
    pub text_start: usize,
    pub text_end: usize,
    pub has_text: bool,
}

/// `t` reports the parse `m` of a group inside `s`.
pub open spec fn tm_corresponds(t: TagMatch, m: GMatch, s: Seq<char>) -> bool {
    &&& t.end == m.end
    &&& t.has_text == m.has_text
    &&& (t.coords is Some <==> m_fits(m))
    &&& (t.coords is Some ==> t.coords->Some_0.0 == m.x1 && t.coords->Some_0.1 == m.y1
        && t.coords->Some_0.2 == m.x2 && t.coords->Some_0.3 == m.y2)
    &&& (t.has_text ==> t.text_start <= t.text_end <= s.len() && s.subrange(
        t.text_start as int,
        t.text_end as int,
    ) == m.text)
}

pub fn char_is_digit(c: char) -> (r: bool)
    ensures
        r == is_digit(c),
{
    '0' <= c && c <= '9'
}

pub fn digit_val(c: char) -> (r: u32)
    requires
        is_digit(c),
    ensures
        r as nat == digit_of(c),
        r <= 9,
{
    if c == '0' {
        0
    } else if c == '1' {
        1
    } else if c == '2' {
        2
    } else if c == '3' {
        3
    } else if c == '4' {
        4
    } else if c == '5' {
        5
    } else if c == '6' {
        6
    } else if c == '7' {
        7
    } else if c == '8' {
        8
    } else {
        9
    }
}

/// First position at or after `i` holding a non-digit character.
pub fn digits_end_exec(v: &Vec<char>, i: usize) -> (r: usize)
    requires
        i <= v.len(),
    ensures
        r as int == digits_end(v@, i as int),
        i <= r <= v.len(),
{
    let mut k: usize = i;
    while k < v.len() && char_is_digit(v[k])
        invariant
            i <= k <= v.len(),
            digits_end(v@, i as int) == digits_end(v@, k as int),
        decreases v.len() - k,
    {
        k = k + 1;
    }
    k
}

/// Value of the digit run `v[a..b)`, or none when it exceeds `u32`.
pub fn parse_digits(v: &Vec<char>, a: usize, b: usize) -> (r: Option<u32>)
    requires
        a <= b <= v.len(),
        forall|k: int| a <= k < b ==> is_digit(v@[k]),
    ensures
        r is Some <==> digits_val(v@, a as int, b as int) <= u32::MAX,
        r is Some ==> r->Some_0 as nat == digits_val(v@, a as int, b as int),
{
    let mut acc: u64 = 0;
    let mut over: bool = false;
    let mut k: usize = a;
    while k < b
        invariant
            a <= k <= b <= v.len(),
            forall|j: int| a <= j < b ==> is_digit(v@[j]),
            !over ==> acc as nat == digits_val(v@, a as int, k as int) && acc <= u32::MAX as u64,
            over ==> digits_val(v@, a as int, k as int) > u32::MAX,
        decreases b - k,
    {
        let d = digit_val(v[k]);
        proof {
            assert(digits_val(v@, a as int, k + 1) == digits_val(v@, a as int, k as int) * 10
                + digit_of(v@[k as int]));
        }
        if !over {
            let next: u64 = acc * 10 + (d as u64);
            if next > (u32::MAX as u64) {
                over = true;
                proof {
                    assert(digits_val(v@, a as int, k + 1) > u32::MAX);
                }
            } else {
                acc = next;
            }
        } else {
            proof {
                let old_v = digits_val(v@, a as int, k as int);
                assert(digits_val(v@, a as int, k + 1) >= old_v * 10) by {
                    assert(digit_of(v@[k as int]) >= 0);
                };
                assert(old_v * 10 >= old_v) by (nonlinear_arith)
                    requires
                        old_v > 0,
                ;
            }
        }
        k = k + 1;
    }
    if over {
        None
    } else {
        Some(acc as u32)
    }
}

/// Executable numeric field parse: the value (when it fits `u32`) and the
/// position past the field.
pub fn num_field_exec(v: &Vec<char>, i: usize) -> (r: Option<(Option<u32>, usize)>)
    requires
        i <= v.len(),
    ensures
        r is Some <==> num_field(v@, i as int) is Some,
        r is Some ==> {
            let (val, end) = num_field(v@, i as int)->Some_0;
            &&& r->Some_0.1 as int == end
            &&& r->Some_0.1 <= v.len()
            &&& (r->Some_0.0 is Some <==> val <= u32::MAX)
            &&& (r->Some_0.0 is Some ==> r->Some_0.0->Some_0 as nat == val)
        },
{
    let a = crate::text::ws_end_exec(v, i);
    let b = digits_end_exec(v, a);
    if b > a {
        proof {
            lemma_digits_end(v@, a as int);
        }
        let val = parse_digits(v, a, b);
        let e = crate::text::ws_end_exec(v, b);
        Some((val, e))
    } else {
        None
    }
}

/// Checks for a literal `,` at position `p`.
fn comma_at(v: &Vec<char>, p: usize) -> (r: bool)
    ensures
        r == (p < v@.len() && v@[p as int] == ','),
{
    p < v.len() && v[p] == ','
}

/// Executable parse of a grounding detection group at `i`.
pub fn det_at_exec(v: &Vec<char>, i: usize) -> (r: Option<TagMatch>)
    requires
        i <= v.len(),
    ensures
        r is Some <==> det_at(v@, i as int) is Some,
        r is Some ==> tm_corresponds(r->Some_0, det_at(v@, i as int)->Some_0, v@),
{
    let open = crate::text::chars_of("<|det|>[[");
    if !crate::text::vec_matches_at(v, i, &open) {
        return None;
    }
    let p0 = i + open.len();
    let f1 = num_field_exec(v, p0);
    if f1.is_none() {
        return None;
    }
    let (x1, p1) = f1.unwrap();
    if !comma_at(v, p1) {
        return None;
    }
    let f2 = num_field_exec(v, p1 + 1);
    if f2.is_none() {
        return None;
    }
    let (y1, p2) = f2.unwrap();
    if !comma_at(v, p2) {
        return None;
    }
    let f3 = num_field_exec(v, p2 + 1);
    if f3.is_none() {
        return None;
    }
    let (x2, p3) = f3.unwrap();
    if !comma_at(v, p3) {
        return None;
    }
    let f4 = num_field_exec(v, p3 + 1);
    if f4.is_none() {
        return None;
    }
    let (y2, p4) = f4.unwrap();
    let close = crate::text::chars_of("]]<|/det|>");
    if !crate::text::vec_matches_at(v, p4, &close) {
        return None;
    }
    let coords: Option<(u32, u32, u32, u32)> = match (x1, y1, x2, y2) {
        (Some(a), Some(b), Some(c), Some(d)) => Some((a, b, c, d)),
        _ => None,
    };
    Some(
        TagMatch {
            end: p4 + close.len(),
            coords,
            text_start: 0,
            text_end: 0,
            has_text: false,
        },
    )
}

/// Executable parse of a legacy box group at `i`.
pub fn box_at_exec(v: &Vec<char>, i: usize) -> (r: Option<TagMatch>)
    requires
        i <= v.len(),
    ensures
        r is Some <==> box_at(v@, i as int) is Some,
        r is Some ==> tm_corresponds(r->Some_0, box_at(v@, i as int)->Some_0, v@),
{
    let open = crate::text::chars_of("<box>[[");
    if !crate::text::vec_matches_at(v, i, &open) {
        return None;
    }
    let p0 = i + open.len();
    let f1 = num_field_exec(v, p0);
    if f1.is_none() {
        return None;
    }
    let (x1, p1) = f1.unwrap();
    if !comma_at(v, p1) {
        return None;
    }
    let f2 = num_field_exec(v, p1 + 1);
    if f2.is_none() {
        return None;
    }
    let (y1, p2) = f2.unwrap();
    let mid = crate::text::chars_of("],[");
    if !crate::text::vec_matches_at(v, p2, &mid) {
        return None;
    }
    proof {
        reveal_strlit("],[");
    }
    let f3 = num_field_exec(v, p2 + mid.len());
    if f3.is_none() {
        return None;
    }
    let (x2, p3) = f3.unwrap();
    if !comma_at(v, p3) {
        return None;
    }
    let f4 = num_field_exec(v, p3 + 1);
    if f4.is_none() {
        return None;
    }
    let (y2, p4) = f4.unwrap();
    let close = crate::text::chars_of("]]</box>");
    if !crate::text::vec_matches_at(v, p4, &close) {
        return None;
    }
    let coords: Option<(u32, u32, u32, u32)> = match (x1, y1, x2, y2) {
        (Some(a), Some(b), Some(c), Some(d)) => Some((a, b, c, d)),
        _ => None,
    };
    Some(
        TagMatch {
            end: p4 + close.len(),
            coords,
            text_start: 0,
            text_end: 0,
            has_text: false,
        },
    )
}

/// First position at or after `i` holding `'<'` (or the end of `v`).
fn non_lt_end_exec(v: &Vec<char>, i: usize) -> (r: usize)
    requires
        i <= v.len(),
    ensures
        r as int == non_lt_end(v@, i as int),
        i <= r <= v.len(),
{
    let mut k: usize = i;
    while k < v.len() && v[k] != '<'
        invariant
            i <= k <= v.len(),
            non_lt_end(v@, i as int) == non_lt_end(v@, k as int),
        decreases v.len() - k,
    {
        k = k + 1;
    }
    k
}

/// Executable parse of a paired group (reference text plus detection part),
/// shared by the grounding and legacy grammars.
fn paired_at_exec(v: &Vec<char>, i: usize, legacy: bool) -> (r: Option<TagMatch>)
    requires
        i <= v.len(),
    ensures
        !legacy ==> (r is Some <==> ground_paired_at(v@, i as int) is Some),
        !legacy && r is Some ==> tm_corresponds(
            r->Some_0,
            ground_paired_at(v@, i as int)->Some_0,
            v@,
        ),
        legacy ==> (r is Some <==> legacy_paired_at(v@, i as int) is Some),
        legacy && r is Some ==> tm_corresponds(
            r->Some_0,
            legacy_paired_at(v@, i as int)->Some_0,
            v@,
        ),
{
    let ropen = if legacy {
        crate::text::chars_of("<ref>")
    } else {
        crate::text::chars_of("<|ref|>")
    };
    let rclose = if legacy {
        crate::text::chars_of("</ref>")
    } else {
        crate::text::chars_of("<|/ref|>")
    };
    if !crate::text::vec_matches_at(v, i, &ropen) {
        return None;
    }
    let a = i + ropen.len();
    let b = non_lt_end_exec(v, a);
    if b <= a {
        return None;
    }
    if !crate::text::vec_matches_at(v, b, &rclose) {
        return None;
    }
    let d = crate::text::ws_end_exec(v, b + rclose.len());
    let inner = if legacy {
        box_at_exec(v, d)
    } else {
        det_at_exec(v, d)
    };
    match inner {
        Some(m) => Some(
            TagMatch {
                end: m.end,
                coords: m.coords,
                text_start: a,
                text_end: b,
                has_text: true,
            },
        ),
        None => None,
    }
}

/// Executable parse of one group of grammar `g` at position `i`.
pub fn g_match_exec(g: Grammar, v: &Vec<char>, i: usize) -> (r: Option<TagMatch>)
    requires
        i <= v.len(),
    ensures
        r is Some <==> g_match_at(g, v@, i as int) is Some,
        r is Some ==> tm_corresponds(r->Some_0, g_match_at(g, v@, i as int)->Some_0, v@),
{
    match g {
        Grammar::GroundingPaired => paired_at_exec(v, i, false),
        Grammar::GroundingAlone => det_at_exec(v, i),
        Grammar::LegacyPaired => paired_at_exec(v, i, true),
        Grammar::LegacyAlone => box_at_exec(v, i),
    }
}

// ---------------------------------------------------------------------------
// Bounding boxes and the four-pass extraction
// ---------------------------------------------------------------------------

/// A bounding box in the model's normalized 0-1000 coordinate space, with the
/// reference text captured alongside it, if any.
#[derive(Debug)]
pub struct BoundingBox {
    pub x1: u32,
    pub y1: u32,
    pub x2: u32,
    pub y2: u32,
    pub text: Option<String>,
}

/// Mathematical value of a bounding box: the four coordinates and the
/// character sequence of the reference text.
pub struct BBoxV {
    pub x1: u32,
    pub y1: u32,
    pub x2: u32,
    pub y2: u32,
    pub text: Option<Seq<char>>,
}

impl View for BoundingBox {
    type V = BBoxV;

    open spec fn view(&self) -> BBoxV {
        BBoxV {
            x1: self.x1,
            y1: self.y1,
            x2: self.x2,
            y2: self.y2,
            text: match self.text {
                Some(t) => Some(t@),
                None => None,
            },
        }
    }
}

impl Clone for BoundingBox {
    fn clone(&self) -> (r: Self)
        ensures
            r == *self,
    {
        BoundingBox {
            x1: self.x1,
            y1: self.y1,
            x2: self.x2,
            y2: self.y2,
            text: match &self.text {
                Some(t) => Some(t.clone()),
                None => None,
            },
        }
    }
}

/// The box a parsed group denotes.
pub open spec fn box_of_match(m: GMatch) -> BBoxV {
    BBoxV {
        x1: m.x1 as u32,
        y1: m.y1 as u32,
        x2: m.x2 as u32,
        y2: m.y2 as u32,
        text: if m.has_text {
            Some(m.text)
        } else {
            None
        },
    }
}

pub open spec fn boxes_of_matches(ms: Seq<GMatch>) -> Seq<BBoxV> {
    ms.map_values(|m: GMatch| box_of_match(m))
}

pub open spec fn all_fit(ms: Seq<GMatch>) -> bool {
    forall|k: int| 0 <= k < ms.len() ==> m_fits(#[trigger] ms[k])
}

pub open spec fn views_of(bs: Seq<BoundingBox>) -> Seq<BBoxV> {
    bs.map_values(|b: BoundingBox| b@)
}

/// The grounding-paired groups of the text.
pub open spec fn ground_pairs(s: Seq<char>) -> Seq<GMatch> {
    g_scan_from(Grammar::GroundingPaired, s, 0)
}

/// The text with all grounding-paired spans deleted.
pub open spec fn after_ground_pairs(s: Seq<char>) -> Seq<char> {
    g_replace_from(Grammar::GroundingPaired, s, 0, false)
}

/// The standalone grounding groups of the remainder.
pub open spec fn ground_alones(s: Seq<char>) -> Seq<GMatch> {
    g_scan_from(Grammar::GroundingAlone, after_ground_pairs(s), 0)
}

/// The legacy-paired groups of the original text.
pub open spec fn legacy_pairs(s: Seq<char>) -> Seq<GMatch> {
    g_scan_from(Grammar::LegacyPaired, s, 0)
}

/// The text with grounding-paired and legacy-paired spans deleted.
pub open spec fn after_legacy_pairs(s: Seq<char>) -> Seq<char> {
    g_replace_from(Grammar::LegacyPaired, after_ground_pairs(s), 0, false)
}

/// The standalone legacy groups of what is left.
pub open spec fn legacy_alones(s: Seq<char>) -> Seq<GMatch> {
    g_scan_from(Grammar::LegacyAlone, after_legacy_pairs(s), 0)
}

/// Every coordinate of every group of all four passes fits `u32`.
pub open spec fn extract_ok(s: Seq<char>) -> bool {
    all_fit(ground_pairs(s)) && all_fit(ground_alones(s)) && all_fit(legacy_pairs(s)) && all_fit(
        legacy_alones(s),
    )
}

/// The boxes extraction returns: the four passes' boxes appended pass by
/// pass (grouped by pattern type, not interleaved by text position).
pub open spec fn extract_spec(s: Seq<char>) -> Seq<BBoxV> {
    boxes_of_matches(ground_pairs(s)) + boxes_of_matches(ground_alones(s)) + boxes_of_matches(
        legacy_pairs(s),
    ) + boxes_of_matches(legacy_alones(s))
}

/// The text with all four tag grammars replaced: paired groups by their
/// captured text, standalone groups by nothing.
pub open spec fn strip_spec(s: Seq<char>) -> Seq<char> {
    g_replace_from(
        Grammar::LegacyAlone,
        g_replace_from(
            Grammar::LegacyPaired,
            g_replace_from(
                Grammar::GroundingAlone,
                g_replace_from(Grammar::GroundingPaired, s, 0, true),
                0,
                false,
            ),
            0,
            true,
        ),
        0,
        false,
    )
}

/// A standalone group captures no text.
proof fn lemma_g_match_no_text(g: Grammar, s: Seq<char>, i: int)
    requires
        g_match_at(g, s, i) is Some,
        !g_match_at(g, s, i)->Some_0.has_text,
    ensures
        g_match_at(g, s, i)->Some_0.text == Seq::<char>::empty(),
{
}

/// Scans `text` for the groups of grammar `g`, in appearance order; none when
/// some coordinate does not fit `u32`.
fn scan_grammar(g: Grammar, text: &str, v: &Vec<char>) -> (r: Option<Vec<BoundingBox>>)
    requires
        v@ == text@,
    ensures
        r is Some <==> all_fit(g_scan_from(g, v@, 0)),
        r is Some ==> views_of(r->Some_0@) == boxes_of_matches(g_scan_from(g, v@, 0)),
{
    let mut out: Vec<BoundingBox> = Vec::new();
    let ghost mut done: Seq<GMatch> = Seq::empty();
    let mut k: usize = 0;
    while k < v.len()
        invariant
            v@ == text@,
            k <= v.len(),
            g_scan_from(g, v@, 0) == done + g_scan_from(g, v@, k as int),
            all_fit(done),
            views_of(out@) == boxes_of_matches(done),
        decreases v.len() - k,
    {
        match g_match_exec(g, v, k) {
            Some(t) => {
                proof {
                    lemma_g_match_bounds(g, v@, k as int);
                }
                let ghost m = g_match_at(g, v@, k as int)->Some_0;
                proof {
                    assert(g_scan_from(g, v@, k as int) == seq![m] + g_scan_from(g, v@, m.end));
                }
                match t.coords {
                    Some((x1, y1, x2, y2)) => {
                        let tb: Option<String> = if t.has_text {
                            Some(String::from_str(text.substring_char(t.text_start, t.text_end)))
                        } else {
                            None
                        };
                        let ghost done0 = done;
                        let ghost out0 = out@;
                        out.push(BoundingBox { x1, y1, x2, y2, text: tb });
                        proof {
                            done = done0 + seq![m];
                            assert(g_scan_from(g, v@, 0) =~= done + g_scan_from(g, v@, t.end as int));
                            assert(views_of(out0).len() == out0.len());
                            assert(boxes_of_matches(done0).len() == done0.len());
                            assert(out@ == out0.push(out@[out0.len() as int]));
                            assert(out@.len() == done.len());
                            assert forall|i: int|
                                0 <= i < done.len() implies #[trigger] boxes_of_matches(done)[i]
                                == views_of(out@)[i] by {
                                assert(views_of(out@)[i] == out@[i]@);
                                assert(boxes_of_matches(done)[i] == box_of_match(done[i]));
                                if i < done0.len() {
                                    assert(out@[i] == out0[i]);
                                    assert(done[i] == done0[i]);
                                    assert(views_of(out0)[i] == boxes_of_matches(done0)[i]);
                                } else {
                                    assert(done[i] == m);
                                    assert(out@[i]@ == box_of_match(m));
                                }
                            }
                            assert(views_of(out@) =~= boxes_of_matches(done));
                        }
                        k = t.end;
                    },
                    None => {
                        proof {
                            let full = g_scan_from(g, v@, 0);
                            assert(full[done.len() as int] == m);
                            assert(!all_fit(full));
                        }
                        return None;
                    },
                }
            },
            None => {
                proof {
                    assert(g_scan_from(g, v@, k as int) == g_scan_from(g, v@, k + 1));
                }
                k = k + 1;
            },
        }
    }
    proof {
        assert(g_scan_from(g, v@, k as int) =~= Seq::<GMatch>::empty());
        assert(done =~= g_scan_from(g, v@, 0));
    }
    Some(out)
}

/// Rewrites `text`, replacing each scanned group of grammar `g` by its
/// captured text when `keep_text` holds and by nothing otherwise.
#[verifier::rlimit(50)]
fn replace_grammar(g: Grammar, text: &str, v: &Vec<char>, keep_text: bool) -> (r: String)
    requires
        v@ == text@,
    ensures
        r@ == g_replace_from(g, v@, 0, keep_text),
{
    let mut out = String::new();
    let mut k: usize = 0;
    while k < v.len()
        invariant
            v@ == text@,
            k <= v.len(),
            out@ + g_replace_from(g, v@, k as int, keep_text) == g_replace_from(
                g,
                v@,
                0,
                keep_text,
            ),
        decreases v.len() - k,
    {
        match g_match_exec(g, v, k) {
            Some(t) => {
                proof {
                    lemma_g_match_bounds(g, v@, k as int);
                }
                let ghost m = g_match_at(g, v@, k as int)->Some_0;
                if keep_text && t.has_text {
                    out.append(text.substring_char(t.text_start, t.text_end));
                } else {
                    proof {
                        if !t.has_text {
                            lemma_g_match_no_text(g, v@, k as int);
                        }
                    }
                }
                proof {
                    let rep: Seq<char> = if keep_text {
                        m.text
                    } else {
                        Seq::empty()
                    };
                    assert(g_replace_from(g, v@, k as int, keep_text) == rep + g_replace_from(
                        g,
                        v@,
                        m.end,
                        keep_text,
                    ));
                    assert(out@ + g_replace_from(g, v@, t.end as int, keep_text) =~= g_replace_from(
                        g,
                        v@,
                        0,
                        keep_text,
                    ));
                }
                k = t.end;
            },
            None => {
                out.append(text.substring_char(k, k + 1));
                proof {
                    assert(text@.subrange(k as int, k + 1) =~= seq![v@[k as int]]);
                    assert(out@ + g_replace_from(g, v@, k + 1, keep_text) =~= g_replace_from(
                        g,
                        v@,
                        0,
                        keep_text,
                    ));
                }
                k = k + 1;
            },
        }
    }
    proof {
        assert(g_replace_from(g, v@, k as int, keep_text) =~= Seq::<char>::empty());
        assert(out@ =~= g_replace_from(g, v@, 0, keep_text));
    }
    out
}

/// Extraction failed because a numeric field exceeds the supported range.
#[derive(Debug)]
pub struct BoxParseError {}

impl BoxParseError {
    /// Human-readable description of the failure.
    pub fn message(&self) -> (r: String)
        ensures
            r@ == "bounding box coordinate exceeds the supported range"@,
    {
        String::from_str("bounding box coordinate exceeds the supported range")
    }
}

/// Extracts bounding boxes from raw model output.
///
/// Four passes in fixed order, output appended per pass: grounding-paired
/// groups of the full text; standalone grounding groups of the text with
/// grounding-paired spans removed; legacy-paired groups of the original full
/// text; standalone legacy groups of the text with both kinds of paired span
/// removed. Fails exactly when some numeric field does not fit `u32`.
pub fn extract_bounding_boxes(text: &str) -> (r: Result<Vec<BoundingBox>, BoxParseError>)
    ensures
        r is Ok <==> extract_ok(text@),
        r is Ok ==> views_of(r->Ok_0@) == extract_spec(text@),
{
    let v = crate::text::chars_of(text);
    let pass1 = scan_grammar(Grammar::GroundingPaired, text, &v);
    let s1 = replace_grammar(Grammar::GroundingPaired, text, &v, false);
    let v1 = crate::text::chars_of(s1.as_str());
    let pass2 = scan_grammar(Grammar::GroundingAlone, s1.as_str(), &v1);
    let pass3 = scan_grammar(Grammar::LegacyPaired, text, &v);
    let s2 = replace_grammar(Grammar::LegacyPaired, s1.as_str(), &v1, false);
    let v2 = crate::text::chars_of(s2.as_str());
    let pass4 = scan_grammar(Grammar::LegacyAlone, s2.as_str(), &v2);
    match (pass1, pass2, pass3, pass4) {
        (Some(mut b1), Some(mut b2), Some(mut b3), Some(mut b4)) => {
            let ghost g1 = b1@;
            let ghost g2 = b2@;
            let ghost g3 = b3@;
            let ghost g4 = b4@;
            b1.append(&mut b2);
            b1.append(&mut b3);
            b1.append(&mut b4);
            proof {
                assert(b1@ == g1 + g2 + g3 + g4);
                assert(views_of(g1 + g2 + g3 + g4) =~= views_of(g1) + views_of(g2) + views_of(g3)
                    + views_of(g4));
            }
            Ok(b1)
        },
        _ => Err(BoxParseError {  }),
    }
}

/// Removes all recognized tag markup from `text`: paired groups are replaced
/// by their captured reference text, standalone groups are deleted, in the
/// same four-pass order as extraction.
pub fn strip_bbox_tags(text: &str) -> (r: String)
    ensures
        r@ == strip_spec(text@),
{
    let v = crate::text::chars_of(text);
    let s1 = replace_grammar(Grammar::GroundingPaired, text, &v, true);
    let v1 = crate::text::chars_of(s1.as_str());
    let s2 = replace_grammar(Grammar::GroundingAlone, s1.as_str(), &v1, false);
    let v2 = crate::text::chars_of(s2.as_str());
    let s3 = replace_grammar(Grammar::LegacyPaired, s2.as_str(), &v2, true);
    let v3 = crate::text::chars_of(s3.as_str());
    replace_grammar(Grammar::LegacyAlone, s3.as_str(), &v3, false)
}

// ---------------------------------------------------------------------------
// Laws of the codec
// ---------------------------------------------------------------------------

/// No group of any of the four grammars occurs anywhere in `s`.
pub open spec fn tag_free(s: Seq<char>) -> bool {
    forall|g: Grammar, i: int| #[trigger] g_match_at(g, s, i) is None
}

#[verifier::rlimit(60)]
proof fn lemma_replace_clean(g: Grammar, s: Seq<char>, i: int, keep_text: bool)
    requires
        0 <= i <= s.len(),
        forall|j: int| #[trigger] g_match_at(g, s, j) is None,
    ensures
        g_replace_from(g, s, i, keep_text) == s.subrange(i, s.len() as int),
    decreases s.len() - i,
{
    if i < s.len() {
        lemma_replace_clean(g, s, i + 1, keep_text);
        assert(g_replace_from(g, s, i, keep_text) =~= s.subrange(i, s.len() as int));
    } else {
        assert(g_replace_from(g, s, i, keep_text) =~= s.subrange(i, s.len() as int));
    }
}

/// Stripping leaves a text without tag groups unchanged.
pub proof fn lemma_strip_clean(s: Seq<char>)
    requires
        tag_free(s),
    ensures
        strip_spec(s) == s,
{
    lemma_replace_clean(Grammar::GroundingPaired, s, 0, true);
    assert(s.subrange(0, s.len() as int) =~= s);
    lemma_replace_clean(Grammar::GroundingAlone, s, 0, false);
    lemma_replace_clean(Grammar::LegacyPaired, s, 0, true);
    lemma_replace_clean(Grammar::LegacyAlone, s, 0, false);
}

/// Stripping is idempotent on every text whose stripped form holds no
/// remaining tag group: a second strip changes nothing. (Deleting a span can
/// splice its surroundings into a brand-new group, which a second strip would
/// remove; such texts are excluded by the premise.)
pub proof fn lemma_strip_idempotent(s: Seq<char>)
    requires
        tag_free(strip_spec(s)),
    ensures
        strip_spec(strip_spec(s)) == strip_spec(s),
{
    lemma_strip_clean(strip_spec(s));
}

proof fn lemma_scan_has_text(g: Grammar, s: Seq<char>, i: int, paired: bool)
    requires
        paired == (g == Grammar::GroundingPaired || g == Grammar::LegacyPaired),
    ensures
        forall|k: int|
            0 <= k < g_scan_from(g, s, i).len() ==> (#[trigger] g_scan_from(g, s, i)[k]).has_text
                == paired,
    decreases s.len() - i,
{
    if i < 0 || i >= s.len() {
    } else {
        match g_match_at(g, s, i) {
            Some(m) => {
                assert(m.has_text == paired);
                if m.end > i {
                    lemma_scan_has_text(g, s, m.end, paired);
                    assert forall|k: int|
                        0 <= k < g_scan_from(g, s, i).len() implies (#[trigger] g_scan_from(
                        g,
                        s,
                        i,
                    )[k]).has_text == paired by {
                        if k == 0 {
                            assert(g_scan_from(g, s, i)[k] == m);
                        } else {
                            assert(g_scan_from(g, s, i)[k] == g_scan_from(g, s, m.end)[k - 1]);
                        }
                    }
                }
            },
            None => {
                lemma_scan_has_text(g, s, i + 1, paired);
                assert forall|k: int|
                    0 <= k < g_scan_from(g, s, i).len() implies (#[trigger] g_scan_from(
                    g,
                    s,
                    i,
                )[k]).has_text == paired by {
                    assert(g_scan_from(g, s, i)[k] == g_scan_from(g, s, i + 1)[k]);
                }
            },
        }
    }
}

/// Extraction output is grouped by pattern type, not interleaved by text
/// position: when the legacy passes find nothing, the result is exactly the
/// grounding-paired boxes (each carrying its reference text, in appearance
/// order) followed by the standalone grounding boxes (each textless, in
/// appearance order).
pub proof fn lemma_extract_grouped(s: Seq<char>)
    requires
        legacy_pairs(s).len() == 0,
        legacy_alones(s).len() == 0,
    ensures
        extract_spec(s).len() == ground_pairs(s).len() + ground_alones(s).len(),
        forall|i: int|
            0 <= i < ground_pairs(s).len() ==> #[trigger] extract_spec(s)[i] == box_of_match(
                ground_pairs(s)[i],
            ) && extract_spec(s)[i].text is Some,
        forall|i: int|
            0 <= i < ground_alones(s).len() ==> #[trigger] extract_spec(
                s,
            )[ground_pairs(s).len() + i] == box_of_match(ground_alones(s)[i]) && extract_spec(
                s,
            )[ground_pairs(s).len() + i].text is None,
{
    lemma_scan_has_text(Grammar::GroundingPaired, s, 0, true);
    lemma_scan_has_text(Grammar::GroundingAlone, after_ground_pairs(s), 0, false);
}

// ---------------------------------------------------------------------------
// Pixel mapping
// ---------------------------------------------------------------------------

/// A normalized coordinate mapped to pixel space: `round((c / 1000) * d)`.
pub open spec fn to_pixel_spec(c: nat, d: nat) -> nat {
    (c * d + 500) / 1000
}

proof fn lemma_to_pixel_le_dim(c: nat, d: nat)
    requires
        c <= 1000,
    ensures
        to_pixel_spec(c, d) <= d,
{
    assert(c * d <= 1000 * d) by (nonlinear_arith)
        requires
            c <= 1000,
            d >= 0,
    ;
    let q = ((c * d + 500) / 1000) as int;
    vstd::arithmetic::div_mod::lemma_fundamental_div_mod((c * d + 500) as int, 1000);
    assert(1000 * q <= c * d + 500);
    assert(1000 * q < 1000 * (d + 1));
    assert(q < d + 1) by (nonlinear_arith)
        requires
            1000 * q < 1000 * ((d + 1) as int),
    ;
}

impl BoundingBox {
    /// Maps the normalized 0-1000 coordinates to pixel coordinates for an
    /// image of the given dimensions, rounding each axis independently.
    pub fn to_pixels(&self, img_width: u32, img_height: u32) -> (r: (u32, u32, u32, u32))
        requires
            self.x1 <= 1000,
            self.y1 <= 1000,
            self.x2 <= 1000,
            self.y2 <= 1000,
        ensures
            r.0 as nat == to_pixel_spec(self.x1 as nat, img_width as nat),
            r.1 as nat == to_pixel_spec(self.y1 as nat, img_height as nat),
            r.2 as nat == to_pixel_spec(self.x2 as nat, img_width as nat),
            r.3 as nat == to_pixel_spec(self.y2 as nat, img_height as nat),
            r.0 <= img_width,
            r.1 <= img_height,
            r.2 <= img_width,
            r.3 <= img_height,
    {
        proof {
            lemma_to_pixel_le_dim(self.x1 as nat, img_width as nat);
            lemma_to_pixel_le_dim(self.y1 as nat, img_height as nat);
            lemma_to_pixel_le_dim(self.x2 as nat, img_width as nat);
            lemma_to_pixel_le_dim(self.y2 as nat, img_height as nat);
        }
        let x1 = (((self.x1 as u64) * (img_width as u64) + 500) / 1000) as u32;
        let y1 = (((self.y1 as u64) * (img_height as u64) + 500) / 1000) as u32;
        let x2 = (((self.x2 as u64) * (img_width as u64) + 500) / 1000) as u32;
        let y2 = (((self.y2 as u64) * (img_height as u64) + 500) / 1000) as u32;
        (x1, y1, x2, y2)
    }
}

// ---------------------------------------------------------------------------
// Annotation geometry
// ---------------------------------------------------------------------------

pub open spec fn digit_char(d: nat) -> char {
    if d == 0 {
        '0'
    } else if d == 1 {
        '1'
    } else if d == 2 {
        '2'
    } else if d == 3 {
        '3'
    } else if d == 4 {
        '4'
    } else if d == 5 {
        '5'
    } else if d == 6 {
        '6'
    } else if d == 7 {
        '7'
    } else if d == 8 {
        '8'
    } else {
        '9'
    }
}

/// Decimal representation of `n`, most significant digit first.
pub open spec fn dec_rep(n: nat) -> Seq<char>
    decreases n,
{
    if n < 10 {
        seq![digit_char(n)]
    } else {
        dec_rep(n / 10).push(digit_char(n % 10))
    }
}

fn digit_str(d: usize) -> (r: &'static str)
    requires
        d <= 9,
    ensures
        r@ == seq![digit_char(d as nat)],
{
    proof {
        reveal_strlit("0");
        reveal_strlit("1");
        reveal_strlit("2");
        reveal_strlit("3");
        reveal_strlit("4");
        reveal_strlit("5");
        reveal_strlit("6");
        reveal_strlit("7");
        reveal_strlit("8");
        reveal_strlit("9");
        assert("0"@ =~= seq![digit_char(0)]);
        assert("1"@ =~= seq![digit_char(1)]);
        assert("2"@ =~= seq![digit_char(2)]);
        assert("3"@ =~= seq![digit_char(3)]);
        assert("4"@ =~= seq![digit_char(4)]);
        assert("5"@ =~= seq![digit_char(5)]);
        assert("6"@ =~= seq![digit_char(6)]);
        assert("7"@ =~= seq![digit_char(7)]);
        assert("8"@ =~= seq![digit_char(8)]);
        assert("9"@ =~= seq![digit_char(9)]);
    }
    if d == 0 {
        "0"
    } else if d == 1 {
        "1"
    } else if d == 2 {
        "2"
    } else if d == 3 {
        "3"
    } else if d == 4 {
        "4"
    } else if d == 5 {
        "5"
    } else if d == 6 {
        "6"
    } else if d == 7 {
        "7"
    } else if d == 8 {
        "8"
    } else {
        "9"
    }
}

/// Characters of a digit stack, top (least significant) first.
spec fn digit_stack_chars(ds: Seq<usize>) -> Seq<char>
    decreases ds.len(),
{
    if ds.len() == 0 {
        Seq::empty()
    } else {
        seq![digit_char(ds.last() as nat)] + digit_stack_chars(ds.drop_last())
    }
}

/// Renders `n` in decimal.
pub fn dec_string(n: usize) -> (r: String)
    ensures
        r@ == dec_rep(n as nat),
{
    let mut digs: Vec<usize> = Vec::new();
    digs.push(n % 10);
    let mut m: usize = n / 10;
    proof {
        assert(digs@.drop_last() =~= Seq::<usize>::empty());
        assert(digit_stack_chars(Seq::<usize>::empty()) == Seq::<char>::empty());
        assert(digit_stack_chars(digs@) =~= seq![digit_char((n % 10) as nat)]);
        if n >= 10 {
            assert(dec_rep(n as nat) == dec_rep((n / 10) as nat).push(digit_char((n % 10) as nat)));
            assert(dec_rep(n as nat) =~= dec_rep((n / 10) as nat) + digit_stack_chars(digs@));
        } else {
            assert(dec_rep(n as nat) =~= digit_stack_chars(digs@));
        }
    }
    while m > 0
        invariant
            forall|k: int| 0 <= k < digs@.len() ==> digs@[k] <= 9,
            m > 0 ==> dec_rep(n as nat) == dec_rep(m as nat) + digit_stack_chars(digs@),
            m == 0 ==> dec_rep(n as nat) == digit_stack_chars(digs@),
        decreases m,
    {
        let ghost digs0 = digs@;
        digs.push(m % 10);
        proof {
            assert(digs@.drop_last() =~= digs0);
            if m >= 10 {
                assert(dec_rep(m as nat) == dec_rep((m / 10) as nat).push(
                    digit_char((m % 10) as nat),
                ));
                assert(dec_rep((m / 10) as nat).push(digit_char((m % 10) as nat))
                    + digit_stack_chars(digs0) =~= dec_rep((m / 10) as nat) + digit_stack_chars(
                    digs@,
                ));
            } else {
                assert(dec_rep(m as nat) =~= seq![digit_char(m as nat)]);
                assert(dec_rep(m as nat) + digit_stack_chars(digs0) =~= digit_stack_chars(digs@));
            }
        }
        m = m / 10;
    }
    let mut out = String::new();
    let mut i: usize = digs.len();
    proof {
        assert(digs@.subrange(0, digs@.len() as int) =~= digs@);
        assert(out@ + digit_stack_chars(digs@) =~= digit_stack_chars(digs@));
    }
    while i > 0
        invariant
            i <= digs@.len(),
            forall|k: int| 0 <= k < digs@.len() ==> digs@[k] <= 9,
            out@ + digit_stack_chars(digs@.subrange(0, i as int)) == digit_stack_chars(digs@),
        decreases i,
    {
        out.append(digit_str(digs[i - 1]));
        proof {
            assert(digs@.subrange(0, i as int).drop_last() =~= digs@.subrange(0, i - 1));
            assert(digs@.subrange(0, i as int).last() == digs@[i - 1]);
            assert(out@ + digit_stack_chars(digs@.subrange(0, i - 1)) =~= digit_stack_chars(digs@));
        }
        i = i - 1;
    }
    proof {
        assert(digit_stack_chars(digs@.subrange(0, 0)) =~= Seq::<char>::empty());
        assert(out@ =~= digit_stack_chars(digs@));
    }
    out
}

/// A pixel-space rectangle, as the raster layer draws it.
pub struct RectSpec {
    pub x: u32,
    pub y: u32,
    pub w: u32,
    pub h: u32,
}

/// One box's rendering plan: the main hollow rectangle, the offset second
/// rectangle that fakes a 2px stroke (absent at the image border), the
/// palette slot, and the label with its anchor.
pub struct DrawOp {
    pub rect: RectSpec,
    pub second: Option<RectSpec>,
    pub color_index: usize,
    pub label: String,
    pub label_x: u32,
    pub label_y: u32,
}

/// Mathematical value of a rendering plan.
pub struct DrawOpV {
    pub rect: RectSpec,
    pub second: Option<RectSpec>,
    pub color_index: usize,
    pub label: Seq<char>,
    pub label_x: u32,
    pub label_y: u32,
}

impl View for DrawOp {
    type V = DrawOpV;

    open spec fn view(&self) -> DrawOpV {
        DrawOpV {
            rect: self.rect,
            second: self.second,
            color_index: self.color_index,
            label: self.label@,
            label_x: self.label_x,
            label_y: self.label_y,
        }
    }
}

/// A coordinate confined to the model's normalized space.
pub open spec fn norm_clamp(c: u32) -> nat {
    if c <= 1000 {
        c as nat
    } else {
        1000
    }
}

/// Pixel position of a top-left coordinate, kept inside `[0, d-1]`.
pub open spec fn px_low(c: u32, d: u32) -> nat {
    let p = to_pixel_spec(norm_clamp(c), d as nat);
    if p <= (d - 1) as nat {
        p
    } else {
        (d - 1) as nat
    }
}

/// Pixel position of a bottom-right coordinate, kept inside `[0, d]`.
pub open spec fn px_high(c: u32, d: u32) -> nat {
    let p = to_pixel_spec(norm_clamp(c), d as nat);
    if p <= d as nat {
        p
    } else {
        d as nat
    }
}

/// The label drawn above a box: its one-based index, then the reference text
/// when there is one.
pub open spec fn label_spec(b: BBoxV, idx: nat) -> Seq<char> {
    match b.text {
        Some(t) => dec_rep(idx + 1) + ": "@ + t,
        None => dec_rep(idx + 1),
    }
}

/// The rendering plan of the box at position `idx` of the extraction order,
/// on an image of the given dimensions.
pub open spec fn op_spec(b: BBoxV, idx: nat, width: u32, height: u32) -> DrawOpV {
    let x1 = px_low(b.x1, width);
    let y1 = px_low(b.y1, height);
    let x2 = px_high(b.x2, width);
    let y2 = px_high(b.y2, height);
    let w = if x2 > x1 {
        x2 - x1
    } else {
        1
    };
    let h = if y2 > y1 {
        y2 - y1
    } else {
        1
    };
    DrawOpV {
        rect: RectSpec { x: x1 as u32, y: y1 as u32, w: w as u32, h: h as u32 },
        second: if x1 > 0 && y1 > 0 {
            Some(
                RectSpec {
                    x: (x1 - 1) as u32,
                    y: (y1 - 1) as u32,
                    w: (w + 2) as u32,
                    h: (h + 2) as u32,
                },
            )
        } else {
            None
        },
        color_index: (idx % 6) as usize,
        label: label_spec(b, idx),
        label_x: x1 as u32,
        label_y: if y1 >= 20 {
            (y1 - 20) as u32
        } else {
            0
        },
    }
}

/// Lays out the annotation for every box: nested hollow rectangles in pixel
/// space, a cycling 6-color palette, and a numbered label clamped to the
/// image top. The raster layer only has to execute the ops.
#[verifier::rlimit(60)]
pub fn plan_annotations(boxes: &Vec<BoundingBox>, width: u32, height: u32) -> (r: Vec<DrawOp>)
    requires
        1 <= width <= u32::MAX - 2,
        1 <= height <= u32::MAX - 2,
        boxes@.len() < usize::MAX,
    ensures
        r@.len() == boxes@.len(),
        forall|i: int|
            0 <= i < r@.len() ==> #[trigger] r@[i]@ == op_spec(boxes@[i]@, i as nat, width, height),
{
    let mut r: Vec<DrawOp> = Vec::new();
    let mut idx: usize = 0;
    while idx < boxes.len()
        invariant
            1 <= width <= u32::MAX - 2,
            1 <= height <= u32::MAX - 2,
            boxes@.len() < usize::MAX,
            idx <= boxes@.len(),
            r@.len() == idx,
            forall|i: int|
                0 <= i < idx ==> #[trigger] r@[i]@ == op_spec(boxes@[i]@, i as nat, width, height),
        decreases boxes@.len() - idx,
    {
        let b = &boxes[idx];
        let clamped = BoundingBox {
            x1: if b.x1 <= 1000 {
                b.x1
            } else {
                1000
            },
            y1: if b.y1 <= 1000 {
                b.y1
            } else {
                1000
            },
            x2: if b.x2 <= 1000 {
                b.x2
            } else {
                1000
            },
            y2: if b.y2 <= 1000 {
                b.y2
            } else {
                1000
            },
            text: None,
        };
        let (px1, py1, px2, py2) = clamped.to_pixels(width, height);
        let x1 = if px1 <= width - 1 {
            px1
        } else {
            width - 1
        };
        let y1 = if py1 <= height - 1 {
            py1
        } else {
            height - 1
        };
        let x2 = px2;
        let y2 = py2;
        let w = if x2 > x1 {
            x2 - x1
        } else {
            1
        };
        let h = if y2 > y1 {
            y2 - y1
        } else {
            1
        };
        let second: Option<RectSpec> = if x1 > 0 && y1 > 0 {
            Some(RectSpec { x: x1 - 1, y: y1 - 1, w: w + 2, h: h + 2 })
        } else {
            None
        };
        let mut label = dec_string(idx + 1);
        match &b.text {
            Some(t) => {
                label.append(": ");
                label.append(t.as_str());
                proof {
                    assert(label@ =~= label_spec(b@, idx as nat));
                }
            },
            None => {},
        }
        let label_y = if y1 >= 20 {
            y1 - 20
        } else {
            0
        };
        r.push(
            DrawOp {
                rect: RectSpec { x: x1, y: y1, w, h },
                second,
                color_index: idx % 6,
                label,
                label_x: x1,
                label_y,
            },
        );
        idx = idx + 1;
    }
    r
}

/// The pixel mapping is exact at the reference scale and linear in whole
/// multiples of it: an image axis of `k * 1000` pixels maps a normalized
/// coordinate `c` to exactly `k * c`; `k == 1` is the identity and doubling
/// such an axis doubles every coordinate.
pub proof fn lemma_to_pixels_linear(c: nat, k: nat)
    requires
        c <= 1000,
    ensures
        to_pixel_spec(c, k * 1000) == k * c,
{
    assert(c * (k * 1000) == 1000 * (k * c)) by (nonlinear_arith);
    vstd::arithmetic::div_mod::lemma_fundamental_div_mod_converse(
        1000 * ((k * c) as int) + 500,
        1000,
        (k * c) as int,
        500,
    );
}

} // verus!
