use vstd::prelude::*;
use crate::chars::{is_space, is_digit, is_space_char, is_digit_char};
use crate::text::{norm_spec, normalize_chars, chars_to_string, str_to_chars};

verus! {

/// A character allowed in the middle of a phone-shaped run: a digit,
/// parentheses, a hyphen, or whitespace.
pub open spec fn is_phone_char(c: char) -> bool {
    is_digit(c) || c == '(' || c == ')' || c == '-' || is_space(c)
}

pub fn is_phone_char_exec(c: char) -> (r: bool)
    ensures
        r == is_phone_char(c),
{
    is_digit_char(c) || c == '(' || c == ')' || c == '-' || is_space_char(c)
}

/// The first position at or after `i` holding no phone character (or the end).
pub open spec fn phone_run_end(s: Seq<char>, i: int) -> int
    decreases s.len() - i,
    when 0 <= i <= s.len()
{
    if i >= s.len() || !is_phone_char(s[i]) {
        i
    } else {
        phone_run_end(s, i + 1)
    }
}

proof fn lemma_phone_run_end_bounds(s: Seq<char>, i: int)
    requires
        0 <= i <= s.len(),
    ensures
        i <= phone_run_end(s, i) <= s.len(),
    decreases s.len() - i,
{
    if i < s.len() && is_phone_char(s[i]) {
        lemma_phone_run_end_bounds(s, i + 1);
    }
}

/// The largest position at or before `e` that lies just past a digit, or 0.
pub open spec fn back_to_digit(s: Seq<char>, e: int) -> int
    decreases e,
    when 0 <= e <= s.len()
{
    if e <= 0 {
        0
    } else if is_digit(s[e - 1]) {
        e
    } else {
        back_to_digit(s, e - 1)
    }
}

proof fn lemma_back_to_digit_bounds(s: Seq<char>, e: int)
    requires
        0 <= e <= s.len(),
    ensures
        0 <= back_to_digit(s, e) <= e,
    decreases e,
{
    if e > 0 && !is_digit(s[e - 1]) {
        lemma_back_to_digit_bounds(s, e - 1);
    }
}

proof fn lemma_back_to_digit_lower(s: Seq<char>, d: int, e: int)
    requires
        0 <= d < e <= s.len(),
        is_digit(s[d]),
    ensures
        back_to_digit(s, e) >= d + 1,
    decreases e,
{
    if !is_digit(s[e - 1]) {
        lemma_back_to_digit_lower(s, d, e - 1);
    }
}

/// The exclusive end of the greedy phone-body match starting at `q`: a digit,
/// then at least four phone characters, ending at the last digit of the run.
pub open spec fn phone_body_end(s: Seq<char>, q: int) -> Option<int> {
    if 0 <= q < s.len() && is_digit(s[q]) {
        let e = back_to_digit(s, phone_run_end(s, q));
        if e - q >= 6 {
            Some(e)
        } else {
            None
        }
    } else {
        None
    }
}

/// The exclusive end of the greedy phone match starting at `p`, allowing one
/// leading `+`.
pub open spec fn phone_match_end(s: Seq<char>, p: int) -> Option<int> {
    if 0 <= p < s.len() && s[p] == '+' {
        phone_body_end(s, p + 1)
    } else {
        phone_body_end(s, p)
    }
}

proof fn lemma_phone_match_end_bounds(s: Seq<char>, p: int)
    requires
        0 <= p < s.len(),
        phone_match_end(s, p) is Some,
    ensures
        p < phone_match_end(s, p)->0 <= s.len(),
{
    if s[p] == '+' {
        lemma_phone_run_end_bounds(s, p + 1);
        lemma_back_to_digit_bounds(s, phone_run_end(s, p + 1));
    } else {
        lemma_phone_run_end_bounds(s, p);
        lemma_back_to_digit_bounds(s, phone_run_end(s, p));
    }
}

/// All leftmost non-overlapping phone matches at or after `p`, each
/// whitespace-normalized.
pub open spec fn phone_matches_from(s: Seq<char>, p: int) -> Seq<Seq<char>>
    decreases s.len() - p,
    when 0 <= p
    via phone_matches_from_dec
{
    if p >= s.len() {
        Seq::empty()
    } else {
        match phone_match_end(s, p) {
            Some(e) => seq![norm_spec(s.subrange(p, e))] + phone_matches_from(s, e),
            None => phone_matches_from(s, p + 1),
        }
    }
}

#[via_fn]
proof fn phone_matches_from_dec(s: Seq<char>, p: int) {
    if p < s.len() && phone_match_end(s, p) is Some {
        lemma_phone_match_end_bounds(s, p);
    }
}

/// Every phone-shaped run in the text, in order of occurrence, normalized.
pub open spec fn phones_spec(s: Seq<char>) -> Seq<Seq<char>> {
    phone_matches_from(s, 0)
}

fn phone_run_end_exec(s: &Vec<char>, i: usize) -> (r: usize)
    requires
        i <= s@.len(),
    ensures
        r as int == phone_run_end(s@, i as int),
        i <= r <= s@.len(),
{
    let mut j = i;
    while j < s.len()
        invariant
            i <= j <= s@.len(),
            phone_run_end(s@, i as int) == phone_run_end(s@, j as int),
        decreases s@.len() - j,
    {
        if !is_phone_char_exec(s[j]) {
            proof {
                assert(phone_run_end(s@, j as int) == j);
            }
            return j;
        }
        j += 1;
    }
    proof {
        assert(phone_run_end(s@, j as int) == j);
    }
    j
}

fn back_to_digit_exec(s: &Vec<char>, e: usize) -> (r: usize)
    requires
        e <= s@.len(),
    ensures
        r as int == back_to_digit(s@, e as int),
        r <= e,
{
    let mut j = e;
    while j > 0
        invariant
            j <= e <= s@.len(),
            back_to_digit(s@, e as int) == back_to_digit(s@, j as int),
        decreases j,
    {
        if is_digit_char(s[j - 1]) {
            return j;
        }
        j -= 1;
    }
    j
}

fn phone_body_end_exec(s: &Vec<char>, q: usize) -> (r: Option<usize>)
    requires
        q <= s@.len(),
    ensures
        match r {
            Some(e) => phone_body_end(s@, q as int) == Some(e as int) && q < e <= s@.len(),
            None => phone_body_end(s@, q as int) is None,
        },
{
    if q >= s.len() || !is_digit_char(s[q]) {
        return None;
    }
    let re = phone_run_end_exec(s, q);
    let e = back_to_digit_exec(s, re);
    proof {
        assert(is_phone_char(s@[q as int]));
        assert(phone_run_end(s@, q as int) == phone_run_end(s@, q + 1));
        lemma_phone_run_end_bounds(s@, q + 1);
        lemma_back_to_digit_lower(s@, q as int, re as int);
    }
    if e - q >= 6 {
        Some(e)
    } else {
        None
    }
}

fn phone_match_end_exec(s: &Vec<char>, p: usize) -> (r: Option<usize>)
    requires
        p < s@.len(),
    ensures
        match r {
            Some(e) => phone_match_end(s@, p as int) == Some(e as int) && p < e <= s@.len(),
            None => phone_match_end(s@, p as int) is None,
        },
{
    let n = s.len();
    if s[p] == '+' && p < n {
        phone_body_end_exec(s, p + 1)
    } else {
        phone_body_end_exec(s, p)
    }
}

/// Finds every non-overlapping phone-shaped run, left to right, and returns
/// each normalized. No dedup happens here.
pub fn extract_phones(text: &str) -> (r: Vec<String>)
    ensures
        r.deep_view() == phones_spec(text@),
{
    let s = str_to_chars(text);
    let mut out: Vec<String> = Vec::new();
    let mut p: usize = 0;
    while p < s.len()
        invariant
            p <= s@.len(),
            s@ == text@,
            out.deep_view() + phone_matches_from(s@, p as int) =~= phones_spec(text@),
        decreases s@.len() - p,
    {
        match phone_match_end_exec(&s, p) {
            Some(e) => {
                let ghost prev = out.deep_view();
                let mut piece: Vec<char> = Vec::new();
                let mut k = p;
                while k < e
                    invariant
                        p <= k <= e <= s@.len(),
                        piece@ == s@.subrange(p as int, k as int),
                    decreases e - k,
                {
                    piece.push(s[k]);
                    proof {
                        assert(piece@ =~= s@.subrange(p as int, k + 1));
                    }
                    k += 1;
                }
                let normed = normalize_chars(&piece);
                out.push(chars_to_string(&normed));
                proof {
                    assert(out.deep_view() =~= prev.push(norm_spec(s@.subrange(
                        p as int,
                        e as int,
                    ))));
                    assert(out.deep_view() + phone_matches_from(s@, e as int) =~= prev
                        + phone_matches_from(s@, p as int));
                }
                p = e;
            },
            None => {
                p += 1;
            },
        }
    }
    proof {
        assert(phone_matches_from(s@, p as int) =~= Seq::<Seq<char>>::empty());
        assert(out.deep_view() =~= phones_spec(text@));
    }
    out
}

} // verus!
