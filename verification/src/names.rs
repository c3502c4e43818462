use vstd::prelude::*;
use crate::chars::{is_space, is_space_char, is_upper_cyr, is_upper_cyr_char, is_lower_cyr,
    is_lower_cyr_char};
use crate::text::{norm_spec, normalize_chars, chars_to_string, str_to_chars};
use crate::{push_unique, push_unique_spec, push_all, lemma_push_all_step};

verus! {

/// The first position at or after `i` holding no lowercase name letter.
pub open spec fn lower_run_end(s: Seq<char>, i: int) -> int
    decreases s.len() - i,
    when 0 <= i <= s.len()
{
    if i >= s.len() || !is_lower_cyr(s[i]) {
        i
    } else {
        lower_run_end(s, i + 1)
    }
}

proof fn lemma_lower_run_end_bounds(s: Seq<char>, i: int)
    requires
        0 <= i <= s.len(),
    ensures
        i <= lower_run_end(s, i) <= s.len(),
    decreases s.len() - i,
{
    if i < s.len() && is_lower_cyr(s[i]) {
        lemma_lower_run_end_bounds(s, i + 1);
    }
}

/// The first position at or after `i` holding no whitespace.
pub open spec fn space_run_end(s: Seq<char>, i: int) -> int
    decreases s.len() - i,
    when 0 <= i <= s.len()
{
    if i >= s.len() || !is_space(s[i]) {
        i
    } else {
        space_run_end(s, i + 1)
    }
}

proof fn lemma_space_run_end_bounds(s: Seq<char>, i: int)
    requires
        0 <= i <= s.len(),
    ensures
        i <= space_run_end(s, i) <= s.len(),
    decreases s.len() - i,
{
    if i < s.len() && is_space(s[i]) {
        lemma_space_run_end_bounds(s, i + 1);
    }
}

/// The exclusive end of one capitalized word at `p`: an uppercase letter
/// followed by at least one lowercase letter, taken greedily.
pub open spec fn simple_token_end(s: Seq<char>, p: int) -> Option<int> {
    if 0 <= p < s.len() && is_upper_cyr(s[p]) && lower_run_end(s, p + 1) > p + 1 {
        Some(lower_run_end(s, p + 1))
    } else {
        None
    }
}

proof fn lemma_simple_token_bounds(s: Seq<char>, p: int)
    requires
        simple_token_end(s, p) is Some,
    ensures
        p + 2 <= simple_token_end(s, p)->0 <= s.len(),
{
    lemma_lower_run_end_bounds(s, p + 1);
}

/// The exclusive end of one name token at `p`: a capitalized word, optionally
/// hyphen-joined with a second capitalized word.
pub open spec fn token_end(s: Seq<char>, p: int) -> Option<int> {
    match simple_token_end(s, p) {
        Some(e) => if e < s.len() && s[e] == '-' && simple_token_end(s, e + 1) is Some {
            Some(simple_token_end(s, e + 1)->0)
        } else {
            Some(e)
        },
        None => None,
    }
}

proof fn lemma_token_bounds(s: Seq<char>, p: int)
    requires
        token_end(s, p) is Some,
    ensures
        p + 2 <= token_end(s, p)->0 <= s.len(),
{
    lemma_simple_token_bounds(s, p);
    let e = simple_token_end(s, p)->0;
    if e < s.len() && s[e] == '-' && simple_token_end(s, e + 1) is Some {
        lemma_simple_token_bounds(s, e + 1);
    }
}

/// The exclusive end of one further token after `e`: a whitespace run, then
/// a name token.
pub open spec fn rep_end(s: Seq<char>, e: int) -> Option<int> {
    if 0 <= e <= s.len() {
        let w = space_run_end(s, e);
        if w > e {
            token_end(s, w)
        } else {
            None
        }
    } else {
        None
    }
}

proof fn lemma_rep_bounds(s: Seq<char>, e: int)
    requires
        0 <= e <= s.len(),
        rep_end(s, e) is Some,
    ensures
        e < rep_end(s, e)->0 <= s.len(),
{
    lemma_space_run_end_bounds(s, e);
    lemma_token_bounds(s, space_run_end(s, e));
}

/// The exclusive end of the greedy full-name match at `p`: one token followed
/// by one or two further whitespace-separated tokens, preferring two.
pub open spec fn name_match_end(s: Seq<char>, p: int) -> Option<int> {
    match token_end(s, p) {
        Some(e1) => match rep_end(s, e1) {
            Some(e2) => match rep_end(s, e2) {
                Some(e3) => Some(e3),
                None => Some(e2),
            },
            None => None,
        },
        None => None,
    }
}

proof fn lemma_name_match_bounds(s: Seq<char>, p: int)
    requires
        name_match_end(s, p) is Some,
    ensures
        p < name_match_end(s, p)->0 <= s.len(),
{
    lemma_token_bounds(s, p);
    let e1 = token_end(s, p)->0;
    lemma_rep_bounds(s, e1);
    let e2 = rep_end(s, e1)->0;
    if rep_end(s, e2) is Some {
        lemma_rep_bounds(s, e2);
    }
}

/// All leftmost non-overlapping full-name matches at or after `p`, each
/// whitespace-normalized.
pub open spec fn name_matches_from(s: Seq<char>, p: int) -> Seq<Seq<char>>
    decreases s.len() - p,
    when 0 <= p
    via name_matches_from_dec
{
    if p >= s.len() {
        Seq::empty()
    } else {
        match name_match_end(s, p) {
            Some(e) => seq![norm_spec(s.subrange(p, e))] + name_matches_from(s, e),
            None => name_matches_from(s, p + 1),
        }
    }
}

#[via_fn]
proof fn name_matches_from_dec(s: Seq<char>, p: int) {
    if p < s.len() && name_match_end(s, p) is Some {
        lemma_name_match_bounds(s, p);
    }
}

/// What name extraction yields: the deduped pattern matches, or, if there is
/// none, the whole normalized text when that is non-empty.
pub open spec fn names_spec(s: Seq<char>) -> Seq<Seq<char>> {
    let m = push_all(Seq::empty(), name_matches_from(s, 0));
    if m.len() > 0 {
        m
    } else if norm_spec(s).len() > 0 {
        seq![norm_spec(s)]
    } else {
        Seq::empty()
    }
}

fn lower_run_end_exec(s: &Vec<char>, i: usize) -> (r: usize)
    requires
        i <= s@.len(),
    ensures
        r as int == lower_run_end(s@, i as int),
        i <= r <= s@.len(),
{
    let mut j = i;
    while j < s.len()
        invariant
            i <= j <= s@.len(),
            lower_run_end(s@, i as int) == lower_run_end(s@, j as int),
        decreases s@.len() - j,
    {
        if !is_lower_cyr_char(s[j]) {
            proof {
                assert(lower_run_end(s@, j as int) == j);
            }
            return j;
        }
        j += 1;
    }
    proof {
        assert(lower_run_end(s@, j as int) == j);
    }
    j
}

fn space_run_end_exec(s: &Vec<char>, i: usize) -> (r: usize)
    requires
        i <= s@.len(),
    ensures
        r as int == space_run_end(s@, i as int),
        i <= r <= s@.len(),
{
    let mut j = i;
    while j < s.len()
        invariant
            i <= j <= s@.len(),
            space_run_end(s@, i as int) == space_run_end(s@, j as int),
        decreases s@.len() - j,
    {
        if !is_space_char(s[j]) {
            proof {
                assert(space_run_end(s@, j as int) == j);
            }
            return j;
        }
        j += 1;
    }
    proof {
        assert(space_run_end(s@, j as int) == j);
    }
    j
}

fn simple_token_end_exec(s: &Vec<char>, p: usize) -> (r: Option<usize>)
    requires
        p <= s@.len(),
    ensures
        match r {
            Some(e) => simple_token_end(s@, p as int) == Some(e as int) && p < e <= s@.len(),
            None => simple_token_end(s@, p as int) is None,
        },
{
    if p >= s.len() || !is_upper_cyr_char(s[p]) {
        return None;
    }
    let e = lower_run_end_exec(s, p + 1);
    if e > p + 1 {
        Some(e)
    } else {
        None
    }
}

fn token_end_exec(s: &Vec<char>, p: usize) -> (r: Option<usize>)
    requires
        p <= s@.len(),
    ensures
        match r {
            Some(e) => token_end(s@, p as int) == Some(e as int) && p < e <= s@.len(),
            None => token_end(s@, p as int) is None,
        },
{
    match simple_token_end_exec(s, p) {
        Some(e) => {
            if e < s.len() && s[e] == '-' {
                match simple_token_end_exec(s, e + 1) {
                    Some(e2) => Some(e2),
                    None => Some(e),
                }
            } else {
                Some(e)
            }
        },
        None => None,
    }
}

fn rep_end_exec(s: &Vec<char>, e: usize) -> (r: Option<usize>)
    requires
        e <= s@.len(),
    ensures
        match r {
            Some(e2) => rep_end(s@, e as int) == Some(e2 as int) && e < e2 <= s@.len(),
            None => rep_end(s@, e as int) is None,
        },
{
    let w = space_run_end_exec(s, e);
    if w > e {
        token_end_exec(s, w)
    } else {
        None
    }
}

fn name_match_end_exec(s: &Vec<char>, p: usize) -> (r: Option<usize>)
    requires
        p < s@.len(),
    ensures
        match r {
            Some(e) => name_match_end(s@, p as int) == Some(e as int) && p < e <= s@.len(),
            None => name_match_end(s@, p as int) is None,
        },
{
    match token_end_exec(s, p) {
        Some(e1) => match rep_end_exec(s, e1) {
            Some(e2) => match rep_end_exec(s, e2) {
                Some(e3) => Some(e3),
                None => Some(e2),
            },
            None => None,
        },
        None => None,
    }
}

/// Finds every non-overlapping full-name match, left to right, deduped in
/// order of first occurrence; when nothing matches, the whole normalized
/// text is returned as the single candidate, unless it is empty.
pub fn extract_person_names(text: &str) -> (r: Vec<String>)
    ensures
        r.deep_view() == names_spec(text@),
{
    let s = str_to_chars(text);
    let mut out: Vec<String> = Vec::new();
    proof {
        assert(out.deep_view() =~= Seq::<Seq<char>>::empty());
    }
    let mut p: usize = 0;
    while p < s.len()
        invariant
            p <= s@.len(),
            s@ == text@,
            push_all(out.deep_view(), name_matches_from(s@, p as int)) == push_all(
                Seq::empty(),
                name_matches_from(s@, 0),
            ),
        decreases s@.len() - p,
    {
        match name_match_end_exec(&s, p) {
            Some(e) => {
                let ghost prev = out.deep_view();
                let ghost m = norm_spec(s@.subrange(p as int, e as int));
                let mut piece: Vec<char> = Vec::new();
                let mut k = p;
                while k < e
                    invariant
                        p <= k <= e <= s@.len(),
                        piece@ == s@.subrange(p as int, k as int),
                    decreases e - k,
                {
                    piece.push(s[k]);
                    proof {
                        assert(piece@ =~= s@.subrange(p as int, k + 1));
                    }
                    k += 1;
                }
                let normed = normalize_chars(&piece);
                push_unique(&mut out, chars_to_string(&normed));
                proof {
                    lemma_push_all_step(prev, m, name_matches_from(s@, e as int));
                }
                p = e;
            },
            None => {
                p += 1;
            },
        }
    }
    proof {
        assert(name_matches_from(s@, p as int) =~= Seq::<Seq<char>>::empty());
        assert(out.deep_view() == push_all(Seq::empty(), name_matches_from(s@, 0)));
    }
    if out.len() == 0 {
        proof {
            assert(out.deep_view().len() == 0);
        }
        let normed = normalize_chars(&s);
        if normed.len() > 0 {
            let ghost before = out.deep_view();
            out.push(chars_to_string(&normed));
            proof {
                assert(out.deep_view() =~= before.push(norm_spec(text@)));
                assert(out.deep_view() =~= seq![norm_spec(text@)]);
            }
        }
    }
    out
}

} // verus!
