//! The numeric-token scanner. A token is a leftmost, non-overlapping
//! match of "optional digits, optional single dot, one or more digits":
//! plain integers, decimals with a leading digit, and decimals beginning
//! with a dot. Thousands separators are not matched.

use vstd::prelude::*;

verus! {

pub open spec fn is_digit(c: char) -> bool {
    48 <= c as int && c as int <= 57
}

fn is_digit_exec(c: char) -> (r: bool)
    ensures
        r == is_digit(c),
{
    let v = c as u32;
    48 <= v && v <= 57
}

/// The length of the run of digits starting at `i`.
pub open spec fn digit_run(s: Seq<char>, i: int) -> int
    decreases s.len() - i when i <= s.len()
{
    if 0 <= i < s.len() && is_digit(s[i]) {
        1 + digit_run(s, i + 1)
    } else {
        0
    }
}

proof fn lemma_digit_run_bounds(s: Seq<char>, i: int)
    requires
        0 <= i <= s.len(),
    ensures
        0 <= digit_run(s, i),
        i + digit_run(s, i) <= s.len(),
    decreases s.len() - i,
{
    if i < s.len() && is_digit(s[i]) {
        lemma_digit_run_bounds(s, i + 1);
    }
}

/// The length of the numeric token starting exactly at `i`, or 0 if no
/// token starts there: a digit run, optionally extended by a dot and a
/// second digit run; or a dot followed by a digit run.
pub open spec fn match_len_at(s: Seq<char>, i: int) -> int {
    if 0 <= i < s.len() && is_digit(s[i]) {
        let a = digit_run(s, i);
        if i + a < s.len() && s[i + a] == '.' && i + a + 1 < s.len() && is_digit(s[i + a + 1]) {
            a + 1 + digit_run(s, i + a + 1)
        } else {
            a
        }
    } else if 0 <= i < s.len() && s[i] == '.' && i + 1 < s.len() && is_digit(s[i + 1]) {
        1 + digit_run(s, i + 1)
    } else {
        0
    }
}

proof fn lemma_match_len_bounds(s: Seq<char>, i: int)
    requires
        0 <= i < s.len(),
    ensures
        0 <= match_len_at(s, i),
        i + match_len_at(s, i) <= s.len(),
{
    if is_digit(s[i]) {
        lemma_digit_run_bounds(s, i);
        let a = digit_run(s, i);
        if i + a < s.len() && s[i + a] == '.' && i + a + 1 < s.len() && is_digit(s[i + a + 1]) {
            lemma_digit_run_bounds(s, i + a + 1);
        }
    } else if s[i] == '.' && i + 1 < s.len() && is_digit(s[i + 1]) {
        lemma_digit_run_bounds(s, i + 1);
    }
}

/// The numeric tokens of `s` at or after position `i`, leftmost first,
/// non-overlapping.
pub open spec fn tokens_from(s: Seq<char>, i: int) -> Seq<Seq<char>>
    decreases s.len() - i when 0 <= i
    via tokens_from_dec
{
    if i >= s.len() {
        Seq::empty()
    } else {
        let l = match_len_at(s, i);
        if l > 0 {
            seq![s.subrange(i, i + l)] + tokens_from(s, i + l)
        } else {
            tokens_from(s, i + 1)
        }
    }
}

#[via_fn]
proof fn tokens_from_dec(s: Seq<char>, i: int) {
    if 0 <= i < s.len() {
        lemma_match_len_bounds(s, i);
    }
}

/// All the numeric tokens of a text.
pub open spec fn numeric_tokens(s: Seq<char>) -> Seq<Seq<char>> {
    tokens_from(s, 0)
}

fn digit_run_from(s: &str, n: usize, i: usize) -> (r: usize)
    requires
        n == s@.len(),
        i <= n,
    ensures
        r == digit_run(s@, i as int),
        i + r <= n,
{
    let mut j: usize = i;
    while j < n && is_digit_exec(s.get_char(j))
        invariant
            i <= j <= n,
            n == s@.len(),
            digit_run(s@, i as int) == j - i + digit_run(s@, j as int),
        decreases n - j,
    {
        j += 1;
    }
    j - i
}

fn match_len_exec(s: &str, n: usize, i: usize) -> (r: usize)
    requires
        n == s@.len(),
        i < n,
    ensures
        r == match_len_at(s@, i as int),
        i + r <= n,
{
    proof {
        lemma_match_len_bounds(s@, i as int);
    }
    let c = s.get_char(i);
    if is_digit_exec(c) {
        let a = digit_run_from(s, n, i);
        if i + a < n && s.get_char(i + a) == '.' && i + a + 1 < n && is_digit_exec(
            s.get_char(i + a + 1),
        ) {
            let b = digit_run_from(s, n, i + a + 1);
            a + 1 + b
        } else {
            a
        }
    } else if c == '.' && i + 1 < n && is_digit_exec(s.get_char(i + 1)) {
        let b = digit_run_from(s, n, i + 1);
        1 + b
    } else {
        0
    }
}

/// Scan a text for its numeric tokens, leftmost first, non-overlapping.
pub fn find_numeric_tokens(s: &str) -> (r: Vec<String>)
    ensures
        r.deep_view() == numeric_tokens(s@),
{
    let n: usize = s.unicode_len();
    let mut out: Vec<String> = Vec::new();
    let mut i: usize = 0;
    proof {
        assert(out.deep_view() =~= Seq::<Seq<char>>::empty());
    }
    while i < n
        invariant
            i <= n,
            n == s@.len(),
            out.deep_view() + tokens_from(s@, i as int) == numeric_tokens(s@),
        decreases n - i,
    {
        let ghost prev = out.deep_view();
        let l = match_len_exec(s, n, i);
        if l > 0 {
            let tok = String::from_str(s.substring_char(i, i + l));
            out.push(tok);
            proof {
                assert(out.deep_view() =~= prev.push(s@.subrange(i as int, i + l)));
                assert(tokens_from(s@, i as int) == seq![s@.subrange(i as int, i + l)]
                    + tokens_from(s@, i + l));
                assert(out.deep_view() + tokens_from(s@, i + l) =~= prev + tokens_from(
                    s@,
                    i as int,
                ));
            }
            i += l;
        } else {
            proof {
                assert(tokens_from(s@, i as int) == tokens_from(s@, i + 1));
            }
            i += 1;
        }
    }
    proof {
        assert(tokens_from(s@, n as int) =~= Seq::<Seq<char>>::empty());
        assert(out.deep_view() =~= out.deep_view() + tokens_from(s@, n as int));
    }
    out
}

} // verus!
