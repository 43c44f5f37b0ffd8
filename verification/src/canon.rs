//! The token canonicalizer: a raw numeric token (digits with at most one
//! dot) is reduced to its canonical digit string by removing every dot and
//! stripping the insignificant zeros from both ends.

use vstd::prelude::*;

verus! {

/// The sequence with every `'.'` removed, order kept.
pub open spec fn remove_dots(s: Seq<char>) -> Seq<char>
    decreases s.len(),
{
    if s.len() == 0 {
        s
    } else if s.last() == '.' {
        remove_dots(s.drop_last())
    } else {
        remove_dots(s.drop_last()).push(s.last())
    }
}

/// The sequence with every trailing `'0'` stripped.
pub open spec fn strip_trailing_zeros(s: Seq<char>) -> Seq<char>
    decreases s.len(),
{
    if s.len() > 0 && s.last() == '0' {
        strip_trailing_zeros(s.drop_last())
    } else {
        s
    }
}

/// The sequence with every leading `'0'` stripped.
pub open spec fn strip_leading_zeros(s: Seq<char>) -> Seq<char>
    decreases s.len(),
{
    if s.len() > 0 && s.first() == '0' {
        strip_leading_zeros(s.drop_first())
    } else {
        s
    }
}

/// The canonical digit string of a numeric token: dots removed, then
/// trailing zeros stripped, then leading zeros stripped. May be empty.
pub open spec fn canon(s: Seq<char>) -> Seq<char> {
    strip_leading_zeros(strip_trailing_zeros(remove_dots(s)))
}

pub open spec fn has_no_dot(s: Seq<char>) -> bool {
    forall|i: int| 0 <= i < s.len() ==> s[i] != '.'
}

proof fn lemma_remove_dots_no_dot(s: Seq<char>)
    ensures
        has_no_dot(remove_dots(s)),
    decreases s.len(),
{
    if s.len() > 0 {
        lemma_remove_dots_no_dot(s.drop_last());
    }
}

proof fn lemma_remove_dots_fixed(s: Seq<char>)
    requires
        has_no_dot(s),
    ensures
        remove_dots(s) == s,
    decreases s.len(),
{
    if s.len() > 0 {
        lemma_remove_dots_fixed(s.drop_last());
        assert(remove_dots(s) =~= s);
    }
}

/// Stripping trailing zeros leaves a prefix whose last character, if any,
/// is not `'0'`.
proof fn lemma_strip_trailing(s: Seq<char>)
    ensures
        strip_trailing_zeros(s).len() <= s.len(),
        strip_trailing_zeros(s) == s.take(strip_trailing_zeros(s).len() as int),
        strip_trailing_zeros(s).len() > 0 ==> strip_trailing_zeros(s).last() != '0',
    decreases s.len(),
{
    if s.len() > 0 && s.last() == '0' {
        lemma_strip_trailing(s.drop_last());
        assert(s.drop_last().take(strip_trailing_zeros(s).len() as int) =~= s.take(
            strip_trailing_zeros(s).len() as int,
        ));
    } else {
        assert(s.take(s.len() as int) =~= s);
    }
}

/// Stripping leading zeros leaves a suffix whose first character, if any,
/// is not `'0'`.
proof fn lemma_strip_leading(s: Seq<char>)
    ensures
        strip_leading_zeros(s).len() <= s.len(),
        strip_leading_zeros(s) == s.skip(s.len() - strip_leading_zeros(s).len()),
        strip_leading_zeros(s).len() > 0 ==> strip_leading_zeros(s).first() != '0',
    decreases s.len(),
{
    if s.len() > 0 && s.first() == '0' {
        lemma_strip_leading(s.drop_first());
        assert(s.drop_first().skip(s.len() - 1 - strip_leading_zeros(s).len()) =~= s.skip(
            s.len() - strip_leading_zeros(s).len(),
        ));
    } else {
        assert(s.skip(0) =~= s);
    }
}

/// A canonical number never holds a dot, a leading zero or a trailing
/// zero, whatever text it was drawn from.
pub proof fn lemma_canon_shape(t: Seq<char>)
    ensures
        has_no_dot(canon(t)),
        canon(t).len() > 0 ==> canon(t).first() != '0',
        canon(t).len() > 0 ==> canon(t).last() != '0',
{
    let d = remove_dots(t);
    let u = strip_trailing_zeros(d);
    let c = strip_leading_zeros(u);
    lemma_remove_dots_no_dot(t);
    lemma_strip_trailing(d);
    lemma_strip_leading(u);
    assert forall|i: int| 0 <= i < c.len() implies c[i] != '.' by {
        assert(c[i] == u[u.len() - c.len() + i]);
        assert(u[u.len() - c.len() + i] == d[u.len() - c.len() + i]);
    }
    if c.len() > 0 {
        assert(c.last() == u[u.len() - 1]);
        assert(u.last() != '0');
    }
}

/// Canonicalization is idempotent: a canonical number canonicalizes to
/// itself.
pub proof fn lemma_canon_idempotent(t: Seq<char>)
    ensures
        canon(canon(t)) == canon(t),
{
    let c = canon(t);
    lemma_canon_shape(t);
    lemma_remove_dots_fixed(c);
    if c.len() > 0 {
        assert(strip_trailing_zeros(c) == c);
        assert(strip_leading_zeros(c) == c);
    }
}

/// Treat edge cases for numeric tokens: drop the dot and the zeros that
/// carry no value, so `"0.1230"` and `".123"` both become `"123"`.
pub fn treat_number(number: String) -> (r: String)
    ensures
        r@ == canon(number@),
{
    let s = number.as_str();
    let n: usize = s.unicode_len();
    let mut digits: String = String::new();
    let mut i: usize = 0;
    while i < n
        invariant
            i <= n,
            n == number@.len(),
            s@ == number@,
            digits@ == remove_dots(number@.take(i as int)),
        decreases n - i,
    {
        let c = s.get_char(i);
        if c != '.' {
            digits.append(s.substring_char(i, i + 1));
        }
        proof {
            assert(number@.take(i + 1).drop_last() =~= number@.take(i as int));
            assert(number@.take(i + 1).last() == number@[i as int]);
            if c != '.' {
                assert(digits@ =~= remove_dots(number@.take(i + 1)));
            }
        }
        i += 1;
    }
    proof {
        assert(number@.take(n as int) =~= number@);
    }
    let d = digits.as_str();
    let dn: usize = d.unicode_len();
    proof {
        assert(digits@.take(dn as int) =~= digits@);
    }
    let mut end: usize = dn;
    while end > 0 && d.get_char(end - 1) == '0'
        invariant
            end <= dn,
            dn == digits@.len(),
            d@ == digits@,
            strip_trailing_zeros(digits@) == strip_trailing_zeros(digits@.take(end as int)),
        decreases end,
    {
        proof {
            assert(digits@.take(end as int).last() == digits@[end - 1]);
            assert(digits@.take(end as int).drop_last() =~= digits@.take(end - 1));
        }
        end -= 1;
    }
    proof {
        if end > 0 {
            assert(digits@.take(end as int).last() == digits@[end - 1]);
        }
        assert(strip_trailing_zeros(digits@.take(end as int)) == digits@.take(end as int));
    }
    let mut start: usize = 0;
    while start < end && d.get_char(start) == '0'
        invariant
            start <= end <= dn,
            dn == digits@.len(),
            d@ == digits@,
            strip_leading_zeros(digits@.take(end as int)) == strip_leading_zeros(
                digits@.subrange(start as int, end as int),
            ),
        decreases end - start,
    {
        proof {
            assert(digits@.subrange(start as int, end as int).first() == digits@[start as int]);
            assert(digits@.subrange(start as int, end as int).drop_first() =~= digits@.subrange(
                start + 1,
                end as int,
            ));
        }
        start += 1;
    }
    proof {
        if start < end {
            assert(digits@.subrange(start as int, end as int).first() == digits@[start as int]);
        }
        assert(strip_leading_zeros(digits@.subrange(start as int, end as int)) == digits@.subrange(
            start as int,
            end as int,
        ));
        assert(digits@.take(end as int) =~= digits@.subrange(0, end as int));
    }
    String::from_str(d.substring_char(start, end))
}

} // verus!
