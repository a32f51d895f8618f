//! Comparing and trimming text.
use vstd::prelude::*;

verus! {

/// `str::eq` of the standard library: two strings are equal if and only if they hold the same
/// characters in the same order.
pub assume_specification[ <str as PartialEq>::eq ](left: &str, right: &str) -> (equal: bool)
    ensures
        equal == (left@ == right@),
;

/// `s` without its leading double quotes.
pub open spec fn without_leading_quotes(s: Seq<char>) -> Seq<char>
    decreases s.len(),
{
    if s.len() > 0 && s.first() == '"' {
        without_leading_quotes(s.drop_first())
    } else {
        s
    }
}

/// `s` without its trailing double quotes.
pub open spec fn without_trailing_quotes(s: Seq<char>) -> Seq<char>
    decreases s.len(),
{
    if s.len() > 0 && s.last() == '"' {
        without_trailing_quotes(s.drop_last())
    } else {
        s
    }
}

/// `s` without the double quotes at either end.
pub open spec fn unquoted(s: Seq<char>) -> Seq<char> {
    without_trailing_quotes(without_leading_quotes(s))
}

proof fn lemma_without_leading_quotes(s: Seq<char>, n: int)
    requires
        0 <= n <= s.len(),
        forall|i: int| 0 <= i < n ==> s[i] == '"',
        n < s.len() ==> s[n] != '"',
    ensures
        without_leading_quotes(s) == s.subrange(n, s.len() as int),
    decreases n,
{
    if n == 0 {
        assert(s.subrange(0, s.len() as int) == s);
    } else {
        lemma_without_leading_quotes(s.drop_first(), n - 1);
        assert(s.drop_first().subrange(n - 1, s.len() - 1) == s.subrange(n, s.len() as int));
    }
}

proof fn lemma_without_trailing_quotes(s: Seq<char>, n: int)
    requires
        0 <= n <= s.len(),
        forall|i: int| n <= i < s.len() ==> s[i] == '"',
        0 < n ==> s[n - 1] != '"',
    ensures
        without_trailing_quotes(s) == s.subrange(0, n),
    decreases s.len() - n,
{
    if n == s.len() {
        assert(s.subrange(0, n) == s);
    } else {
        lemma_without_trailing_quotes(s.drop_last(), n);
        assert(s.drop_last().subrange(0, n) == s.subrange(0, n));
    }
}

/// Removes every double quote at the start and at the end of `s`.
pub fn trim_quotes(s: &str) -> (trimmed: String)
    ensures
        trimmed@ == unquoted(s@),
{
    let len: usize = s.unicode_len();
    let mut start: usize = 0;
    while start < len && s.get_char(start) == '"'
        invariant
            len == s@.len(),
            start <= len,
            forall|i: int| 0 <= i < start ==> s@[i] == '"',
        decreases len - start,
    {
        start = start + 1;
    }
    let mut end: usize = len;
    while start < end && s.get_char(end - 1) == '"'
        invariant
            len == s@.len(),
            start <= end <= len,
            forall|i: int| end <= i < len ==> s@[i] == '"',
        decreases end,
    {
        end = end - 1;
    }
    proof {
        lemma_without_leading_quotes(s@, start as int);
        let rest = s@.subrange(start as int, len as int);
        lemma_without_trailing_quotes(rest, end - start);
        assert(rest.subrange(0, end - start) == s@.subrange(start as int, end as int));
    }
    s.substring_char(start, end).to_owned()
}

/// Trimming takes nothing but double quotes away, and leaves none at either end.
pub proof fn law_unquoted_removes_only_outer_quotes(s: Seq<char>)
    ensures
        exists|start: int, end: int|
            #![trigger s.subrange(start, end)]
            {
                &&& 0 <= start <= end <= s.len()
                &&& unquoted(s) == s.subrange(start, end)
                &&& forall|i: int| 0 <= i < start || end <= i < s.len() ==> s[i] == '"'
            },
        unquoted(s).len() > 0 ==> unquoted(s).first() != '"' && unquoted(s).last() != '"',
{
    let start = leading_quotes(s);
    lemma_leading_quotes(s);
    lemma_without_leading_quotes(s, start);
    let rest = s.subrange(start, s.len() as int);
    let kept = unquoted_end(rest);
    lemma_unquoted_end(rest);
    lemma_without_trailing_quotes(rest, kept);
    assert(rest.subrange(0, kept) == s.subrange(start, start + kept));
    assert forall|i: int| 0 <= i < start || start + kept <= i < s.len() implies s[i] == '"' by {
        if start + kept <= i {
            assert(rest[i - start] == '"');
        }
    }
}

spec fn leading_quotes(s: Seq<char>) -> int
    decreases s.len(),
{
    if s.len() > 0 && s.first() == '"' {
        1 + leading_quotes(s.drop_first())
    } else {
        0
    }
}

proof fn lemma_leading_quotes(s: Seq<char>)
    ensures
        0 <= leading_quotes(s) <= s.len(),
        forall|i: int| 0 <= i < leading_quotes(s) ==> s[i] == '"',
        leading_quotes(s) < s.len() ==> s[leading_quotes(s)] != '"',
    decreases s.len(),
{
    if s.len() > 0 && s.first() == '"' {
        lemma_leading_quotes(s.drop_first());
        assert forall|i: int| 0 <= i < leading_quotes(s) implies s[i] == '"' by {
            if i > 0 {
                assert(s.drop_first()[i - 1] == '"');
            }
        }
    }
}

spec fn unquoted_end(s: Seq<char>) -> int
    decreases s.len(),
{
    if s.len() > 0 && s.last() == '"' {
        unquoted_end(s.drop_last())
    } else {
        s.len() as int
    }
}

proof fn lemma_unquoted_end(s: Seq<char>)
    ensures
        0 <= unquoted_end(s) <= s.len(),
        forall|i: int| unquoted_end(s) <= i < s.len() ==> s[i] == '"',
        0 < unquoted_end(s) ==> s[unquoted_end(s) - 1] != '"',
    decreases s.len(),
{
    if s.len() > 0 && s.last() == '"' {
        lemma_unquoted_end(s.drop_last());
        assert forall|i: int| unquoted_end(s) <= i < s.len() implies s[i] == '"' by {
            if i < s.len() - 1 {
                assert(s.drop_last()[i] == '"');
            }
        }
    }
}

} // verus!
