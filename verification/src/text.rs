use vstd::prelude::*;
use vstd::string::StrSliceExecFns;
use crate::chars::{is_space, is_space_char, lower_char, lower_ascii_char, to_lower_char,
    to_lower_ascii_char};

verus! {

/// The whitespace-normal form of a string: every maximal whitespace run
/// becomes one `' '`, and leading and trailing whitespace is dropped.
pub open spec fn norm_spec(s: Seq<char>) -> Seq<char>
    decreases s.len(),
{
    if s.len() == 0 {
        Seq::empty()
    } else if is_space(s[0]) {
        norm_spec(s.drop_first())
    } else {
        let rest = norm_spec(s.drop_first());
        if s.len() > 1 && is_space(s[1]) && rest.len() > 0 {
            seq![s[0], ' '] + rest
        } else {
            seq![s[0]] + rest
        }
    }
}

/// A string already in normal form in its interior: its whitespace is the
/// plain space, no two spaces are adjacent, and it does not end in a space.
pub open spec fn mid_normal(s: Seq<char>) -> bool {
    &&& forall|i: int| 0 <= i < s.len() && is_space(#[trigger] s[i]) ==> s[i] == ' '
    &&& forall|i: int| 0 <= i < s.len() - 1 ==> !(#[trigger] s[i] == ' ' && s[i + 1] == ' ')
    &&& s.len() > 0 ==> s[s.len() - 1] != ' '
}

/// Appending a whitespace character never changes the normal form.
proof fn lemma_norm_push_space(t: Seq<char>, c: char)
    requires
        is_space(c),
    ensures
        norm_spec(t.push(c)) == norm_spec(t),
    decreases t.len(),
{
    reveal_with_fuel(norm_spec, 3);
    if t.len() == 0 {
        assert(t.push(c)[0] == c);
        assert(t.push(c).drop_first() =~= t);
        assert(norm_spec(t.push(c)) == norm_spec(t));
    } else {
        assert(t.push(c).drop_first() =~= t.drop_first().push(c));
        lemma_norm_push_space(t.drop_first(), c);
        if is_space(t[0]) {
        } else {
            let rest = norm_spec(t.drop_first());
            if t.len() == 1 {
                assert(norm_spec(t.drop_first()) =~= Seq::<char>::empty());
                assert(norm_spec(t) =~= seq![t[0]]);
                assert(norm_spec(t.push(c)) =~= seq![t[0]]);
            } else {
                assert(t.push(c)[1] == t[1]);
                assert(norm_spec(t.push(c)) =~= norm_spec(t));
            }
        }
    }
}

/// Appending a non-whitespace character extends the normal form with that
/// character, preceded by one space when the string ended in whitespace.
proof fn lemma_norm_push_word(t: Seq<char>, c: char)
    requires
        !is_space(c),
    ensures
        norm_spec(t.push(c)) == if norm_spec(t).len() == 0 {
            seq![c]
        } else if is_space(t[t.len() - 1]) {
            norm_spec(t) + seq![' ', c]
        } else {
            norm_spec(t).push(c)
        },
    decreases t.len(),
{
    reveal_with_fuel(norm_spec, 3);
    if t.len() == 0 {
        assert(t.push(c).drop_first() =~= Seq::<char>::empty());
        assert(norm_spec(t.push(c)) =~= seq![c]);
    } else {
        assert(t.push(c).drop_first() =~= t.drop_first().push(c));
        lemma_norm_push_word(t.drop_first(), c);
        let u = t.push(c);
        let rest_u = norm_spec(t.drop_first().push(c));
        let rest = norm_spec(t.drop_first());
        if is_space(t[0]) {
            if t.len() == 1 {
                assert(norm_spec(t) =~= Seq::<char>::empty());
                assert(norm_spec(u) == rest_u);
                assert(rest =~= Seq::<char>::empty());
                assert(norm_spec(u) =~= seq![c]);
            } else {
                assert(t.drop_first()[t.drop_first().len() - 1] == t[t.len() - 1]);
            }
        } else {
            // u[0] == t[0] is a word character; u[1] exists.
            assert(u.len() > 1);
            if t.len() == 1 {
                assert(rest =~= Seq::<char>::empty());
                assert(norm_spec(t) =~= seq![t[0]]);
                assert(u[1] == c);
                assert(rest_u =~= seq![c]);
                assert(norm_spec(u) =~= seq![t[0], c]);
                assert(norm_spec(u) =~= norm_spec(t).push(c));
            } else {
                assert(u[1] == t[1]);
                assert(t.drop_first()[t.drop_first().len() - 1] == t[t.len() - 1]);
                if is_space(t[1]) {
                    if rest.len() == 0 {
                        // everything after t[0] was whitespace, so t ends in a space
                        lemma_norm_all_space(t.drop_first());
                        assert(is_space(t[t.len() - 1]));
                        assert(rest_u =~= seq![c]);
                        assert(norm_spec(t) =~= seq![t[0]]);
                        assert(norm_spec(u) =~= seq![t[0], ' '] + seq![c]);
                        assert(norm_spec(u) =~= norm_spec(t) + seq![' ', c]);
                    } else {
                        if is_space(t[t.len() - 1]) {
                            assert(norm_spec(u) =~= seq![t[0], ' '] + (rest + seq![' ', c]));
                            assert(norm_spec(u) =~= (seq![t[0], ' '] + rest) + seq![' ', c]);
                        } else {
                            assert(norm_spec(u) =~= seq![t[0], ' '] + rest.push(c));
                            assert(norm_spec(u) =~= (seq![t[0], ' '] + rest).push(c));
                        }
                    }
                } else {
                    // t[1] is a word character, so rest is non-empty
                    lemma_norm_head_word(t.drop_first());
                    assert(rest.len() > 0);
                    if is_space(t[t.len() - 1]) {
                        assert(norm_spec(u) =~= seq![t[0]] + (rest + seq![' ', c]));
                        assert(norm_spec(u) =~= (seq![t[0]] + rest) + seq![' ', c]);
                    } else {
                        assert(norm_spec(u) =~= seq![t[0]] + rest.push(c));
                        assert(norm_spec(u) =~= (seq![t[0]] + rest).push(c));
                    }
                }
            }
        }
    }
}

/// A string of nothing but whitespace normalizes to the empty string, and
/// conversely a string whose normal form is empty is all whitespace.
proof fn lemma_norm_all_space(t: Seq<char>)
    ensures
        norm_spec(t).len() == 0 <==> (forall|i: int| 0 <= i < t.len() ==> is_space(#[trigger] t[i])),
    decreases t.len(),
{
    reveal_with_fuel(norm_spec, 3);
    if t.len() > 0 {
        let d = t.drop_first();
        lemma_norm_all_space(d);
        if is_space(t[0]) {
            if norm_spec(t).len() == 0 {
                assert forall|i: int| 0 <= i < t.len() implies is_space(#[trigger] t[i]) by {
                    if i > 0 {
                        assert(d[i - 1] == t[i]);
                    }
                }
            } else {
                assert(exists|j: int| 0 <= j < d.len() && !is_space(#[trigger] d[j]));
                let j = choose|j: int| 0 <= j < d.len() && !is_space(#[trigger] d[j]);
                assert(t[j + 1] == d[j]);
                assert(!(forall|i: int| 0 <= i < t.len() ==> is_space(#[trigger] t[i])));
            }
        } else {
            lemma_norm_head_word(t);
            assert(norm_spec(t).len() > 0);
        }
    }
}

/// A string starting with a word character has a non-empty normal form that
/// starts with that character.
proof fn lemma_norm_head_word(t: Seq<char>)
    requires
        t.len() > 0,
        !is_space(t[0]),
    ensures
        norm_spec(t).len() > 0,
        norm_spec(t)[0] == t[0],
{
}

/// The normal form is itself mid-normal and never starts with whitespace.
proof fn lemma_norm_is_normal(s: Seq<char>)
    ensures
        mid_normal(norm_spec(s)),
        norm_spec(s).len() > 0 ==> !is_space(norm_spec(s)[0]),
    decreases s.len(),
{
    reveal_with_fuel(norm_spec, 3);
    if s.len() == 0 {
    } else if is_space(s[0]) {
        lemma_norm_is_normal(s.drop_first());
    } else {
        lemma_norm_is_normal(s.drop_first());
        let rest = norm_spec(s.drop_first());
        let r = norm_spec(s);
        if s.len() > 1 && is_space(s[1]) && rest.len() > 0 {
            assert(r =~= seq![s[0], ' '] + rest);
            assert(r[r.len() - 1] == rest[rest.len() - 1]);
            assert(forall|i: int| 0 <= i < rest.len() ==> r[i + 2] == rest[i]);
            assert(r[1] == ' ' && !is_space(r[0]) && !is_space(r[2]));
            assert(mid_normal(r));
        } else {
            assert(r =~= seq![s[0]] + rest);
            assert(forall|i: int| 0 <= i < rest.len() ==> r[i + 1] == rest[i]);
            if rest.len() > 0 {
                assert(r[r.len() - 1] == rest[rest.len() - 1]);
                assert(!is_space(rest[0]));
            }
            assert(mid_normal(r));
        }
    }
}

/// Normalizing a string that is already normal gives it back unchanged.
proof fn lemma_norm_of_normal(t: Seq<char>)
    requires
        mid_normal(t),
        t.len() > 0 ==> !is_space(t[0]),
    ensures
        norm_spec(t) == t,
    decreases t.len(),
{
    reveal_with_fuel(norm_spec, 3);
    if t.len() == 0 {
        assert(norm_spec(t) =~= t);
    } else {
        let d = t.drop_first();
        assert(forall|i: int| 0 <= i < d.len() ==> d[i] == t[i + 1]);
        if t.len() == 1 {
            assert(d.len() == 0);
            assert(norm_spec(d) =~= Seq::<char>::empty());
            assert(norm_spec(t) =~= seq![t[0]]);
            assert(norm_spec(t) =~= t);
        } else if !is_space(t[1]) {
            assert(mid_normal(d));
            lemma_norm_of_normal(d);
            assert(norm_spec(t) =~= seq![t[0]] + d);
            assert(norm_spec(t) =~= t);
        } else {
            // t[1] is a space, so it is ' ' and t[2] exists and is a word char
            assert(t[1] == ' ');
            assert(t.len() > 2) by {
                assert(t[t.len() - 1] != ' ');
            }
            assert(!(t[1] == ' ' && t[2] == ' '));
            assert(!is_space(t[2])) by {
                if is_space(t[2]) {
                    assert(t[2] == ' ');
                }
            }
            let d2 = t.skip(2);
            assert(forall|i: int| 0 <= i < d2.len() ==> d2[i] == t[i + 2]);
            assert(mid_normal(d2));
            lemma_norm_of_normal(d2);
            assert(d.drop_first() =~= d2);
            assert(is_space(d[0]));
            assert(norm_spec(d) == norm_spec(d2));
            assert(norm_spec(d2).len() > 0);
            assert(norm_spec(t) =~= seq![t[0], ' '] + d2);
            assert(norm_spec(t) =~= t);
        }
    }
}

/// Normalization is a fixed point: normalizing twice gives the same string
/// as normalizing once.
pub proof fn lemma_normalize_fixed_point(s: Seq<char>)
    ensures
        norm_spec(norm_spec(s)) == norm_spec(s),
{
    lemma_norm_is_normal(s);
    lemma_norm_of_normal(norm_spec(s));
}

/// Relies on `str::chars` followed by `collect` into a `String`: the
/// characters of the result are exactly the characters given.
#[verifier::external_body]
pub fn chars_to_string(v: &Vec<char>) -> (s: String)
    ensures
        s@ == v@,
{
    v.iter().collect()
}

/// The characters of a string slice, in order, as a vector.
pub fn str_to_chars(s: &str) -> (v: Vec<char>)
    ensures
        v@ == s@,
{
    let n = s.unicode_len();
    let mut v: Vec<char> = Vec::new();
    let mut i: usize = 0;
    while i < n
        invariant
            i <= n,
            n == s@.len(),
            v@ == s@.take(i as int),
        decreases n - i,
    {
        v.push(s.get_char(i));
        proof {
            assert(v@ =~= s@.take(i + 1));
        }
        i += 1;
    }
    proof {
        assert(v@ =~= s@);
    }
    v
}

/// Whitespace normalization of a character sequence: whitespace runs become
/// single spaces, ends are trimmed.
pub fn normalize_chars(s: &Vec<char>) -> (r: Vec<char>)
    ensures
        r@ == norm_spec(s@),
{
    let mut out: Vec<char> = Vec::new();
    let mut pending: bool = false;
    let mut i: usize = 0;
    while i < s.len()
        invariant
            i <= s@.len(),
            out@ == norm_spec(s@.take(i as int)),
            pending == (out@.len() > 0 && i > 0 && is_space(s@[i as int - 1])),
            out@.len() > 0 ==> !is_space(out@[out@.len() - 1]) || pending,
            out@.len() > 0 && !pending ==> !is_space(out@[out@.len() - 1]),
        decreases s@.len() - i,
    {
        let c = s[i];
        proof {
            assert(s@.take(i + 1) =~= s@.take(i as int).push(s@[i as int]));
        }
        if is_space_char(c) {
            proof {
                lemma_norm_push_space(s@.take(i as int), c);
            }
            if out.len() > 0 {
                pending = true;
            }
        } else {
            proof {
                lemma_norm_push_word(s@.take(i as int), c);
            }
            if pending {
                out.push(' ');
            }
            out.push(c);
            pending = false;
        }
        i += 1;
    }
    proof {
        assert(s@.take(i as int) =~= s@);
    }
    out
}

/// Collapses every whitespace run to a single space and trims both ends.
pub fn normalize_text(text: &str) -> (r: String)
    ensures
        r@ == norm_spec(text@),
{
    let v = str_to_chars(text);
    let n = normalize_chars(&v);
    chars_to_string(&n)
}

/// The sequence with every character lowercased for label matching.
pub open spec fn lower_seq(s: Seq<char>) -> Seq<char> {
    s.map_values(|c: char| lower_char(c))
}

/// The sequence with ASCII letters lowercased.
pub open spec fn lower_ascii_seq(s: Seq<char>) -> Seq<char> {
    s.map_values(|c: char| lower_ascii_char(c))
}

pub fn lower_chars(s: &Vec<char>) -> (r: Vec<char>)
    ensures
        r@ == lower_seq(s@),
{
    let mut out: Vec<char> = Vec::new();
    let mut i: usize = 0;
    while i < s.len()
        invariant
            i <= s@.len(),
            out@ == lower_seq(s@.take(i as int)),
        decreases s@.len() - i,
    {
        out.push(to_lower_char(s[i]));
        proof {
            assert(out@ =~= lower_seq(s@.take(i + 1)));
        }
        i += 1;
    }
    proof {
        assert(s@.take(i as int) =~= s@);
    }
    out
}

pub fn lower_ascii_chars(s: &Vec<char>) -> (r: Vec<char>)
    ensures
        r@ == lower_ascii_seq(s@),
{
    let mut out: Vec<char> = Vec::new();
    let mut i: usize = 0;
    while i < s.len()
        invariant
            i <= s@.len(),
            out@ == lower_ascii_seq(s@.take(i as int)),
        decreases s@.len() - i,
    {
        out.push(to_lower_ascii_char(s[i]));
        proof {
            assert(out@ =~= lower_ascii_seq(s@.take(i + 1)));
        }
        i += 1;
    }
    proof {
        assert(s@.take(i as int) =~= s@);
    }
    out
}

/// Whether `n` occurs as a contiguous subsequence of `h`.
pub open spec fn contains_sub(h: Seq<char>, n: Seq<char>) -> bool {
    exists|i: int| match_at(h, n, i)
}

/// Whether `n` occurs in `h` starting at position `i`.
pub open spec fn match_at(h: Seq<char>, n: Seq<char>, i: int) -> bool {
    0 <= i && i + n.len() <= h.len() && h.subrange(i, i + n.len()) == n
}

fn match_at_exec(h: &Vec<char>, n: &Vec<char>, i: usize) -> (r: bool)
    requires
        i + n@.len() <= h@.len(),
    ensures
        r == match_at(h@, n@, i as int),
{
    let hlen = h.len();
    let mut j: usize = 0;
    while j < n.len()
        invariant
            j <= n@.len(),
            i + n@.len() <= h@.len(),
            hlen == h@.len(),
            h@.subrange(i as int, i + j) =~= n@.subrange(0, j as int),
        decreases n@.len() - j,
    {
        if h[i + j] != n[j] {
            proof {
                assert(h@.subrange(i as int, i + n@.len())[j as int] == h@[i + j]);
                assert(n@.subrange(0, n@.len() as int)[j as int] == n@[j as int]);
                assert(h@.subrange(i as int, i + n@.len()) != n@);
            }
            return false;
        }
        proof {
            assert(h@.subrange(i as int, i + j + 1) =~= h@.subrange(i as int, i + j).push(
                h@[i + j]));
            assert(n@.subrange(0, j + 1) =~= n@.subrange(0, j as int).push(n@[j as int]));
        }
        j += 1;
    }
    proof {
        assert(n@.subrange(0, n@.len() as int) =~= n@);
        assert(h@.subrange(i as int, i + n@.len()) =~= n@);
    }
    true
}

/// Whether the needle occurs anywhere in the haystack.
pub fn contains_chars(h: &Vec<char>, n: &Vec<char>) -> (r: bool)
    ensures
        r == contains_sub(h@, n@),
{
    if n.len() > h.len() {
        proof {
            assert(forall|i: int| !match_at(h@, n@, i));
        }
        return false;
    }
    if n.len() == 0 {
        proof {
            assert(h@.subrange(0, 0) =~= n@);
            assert(match_at(h@, n@, 0));
        }
        return true;
    }
    let bound = h.len() - n.len();
    let mut i: usize = 0;
    while i <= bound
        invariant
            1 <= n@.len() <= h@.len(),
            bound == h@.len() - n@.len(),
            bound < usize::MAX,
            i <= bound + 1,
            forall|k: int| 0 <= k < i ==> !match_at(h@, n@, k),
        decreases bound + 1 - i,
    {
        if match_at_exec(h, n, i) {
            return true;
        }
        i += 1;
    }
    proof {
        assert(forall|k: int| #[trigger] match_at(h@, n@, k) ==> 0 <= k < i);
    }
    false
}

} // verus!
