//! Character-level text utilities the parsers are built on: substring
//! search, splitting on a separator, and ASCII-whitespace trimming.

use vstd::prelude::*;

verus! {

/// Position of the first occurrence of `pat` in `s`, or `s.len()`
/// when there is none (a pattern longer than `s` never occurs; the
/// empty pattern occurs at 0).
pub open spec fn first_match(s: Seq<char>, pat: Seq<char>) -> int
    decreases s.len(),
{
    if pat.len() == 0 {
        0
    } else if s.len() < pat.len() {
        s.len() as int
    } else if s.subrange(0, pat.len() as int) == pat {
        0
    } else {
        1 + first_match(s.drop_first(), pat)
    }
}

/// Whether `pat` occurs somewhere in `s`.
pub open spec fn contains_seq(s: Seq<char>, pat: Seq<char>) -> bool {
    first_match(s, pat) + pat.len() <= s.len()
}

pub proof fn lemma_first_match(s: Seq<char>, pat: Seq<char>)
    requires
        pat.len() >= 1,
    ensures
        0 <= first_match(s, pat) <= s.len(),
        first_match(s, pat) + pat.len() <= s.len() ==> s.subrange(
            first_match(s, pat),
            first_match(s, pat) + pat.len(),
        ) == pat,
        forall|k: int|
            #![trigger s.subrange(k, k + pat.len())]
            0 <= k < first_match(s, pat) && k + pat.len() <= s.len() ==> s.subrange(
                k,
                k + pat.len(),
            ) != pat,
        first_match(s, pat) + pat.len() > s.len() ==> first_match(s, pat) == s.len(),
    decreases s.len(),
{
    if s.len() >= pat.len() && s.subrange(0, pat.len() as int) != pat {
        lemma_first_match(s.drop_first(), pat);
        let fm = first_match(s, pat);
        let fm1 = first_match(s.drop_first(), pat);
        assert(fm == 1 + fm1);
        if fm1 + pat.len() <= s.len() - 1 {
            assert(s.drop_first().subrange(fm1, fm1 + pat.len()) =~= s.subrange(
                fm,
                fm + pat.len(),
            ));
        }
        assert forall|k: int|
            #![trigger s.subrange(k, k + pat.len())]
            0 <= k < fm && k + pat.len() <= s.len() implies s.subrange(
            k,
            k + pat.len(),
        ) != pat by {
            if k > 0 {
                assert(s.drop_first().subrange(k - 1, k - 1 + pat.len()) =~= s.subrange(
                    k,
                    k + pat.len(),
                ));
            }
        }
    }
}

/// When `pat` occurs at `at` and nowhere earlier, the first match is
/// exactly `at`.
pub proof fn lemma_first_match_is(s: Seq<char>, pat: Seq<char>, at: int)
    requires
        pat.len() >= 1,
        0 <= at,
        at + pat.len() <= s.len(),
        s.subrange(at, at + pat.len()) == pat,
        forall|k: int|
            #![trigger s.subrange(k, k + pat.len())]
            0 <= k < at ==> s.subrange(k, k + pat.len()) != pat,
    ensures
        first_match(s, pat) == at,
{
    lemma_first_match(s, pat);
}

/// When `pat` occurs nowhere in `s`, the first match is the sentinel.
pub proof fn lemma_first_match_none(s: Seq<char>, pat: Seq<char>)
    requires
        pat.len() >= 1,
        forall|k: int|
            #![trigger s.subrange(k, k + pat.len())]
            0 <= k && k + pat.len() <= s.len() ==> s.subrange(k, k + pat.len()) != pat,
    ensures
        first_match(s, pat) == s.len(),
        !contains_seq(s, pat),
{
    lemma_first_match(s, pat);
    let fm = first_match(s, pat);
    if fm + pat.len() <= s.len() {
        assert(s.subrange(fm, fm + pat.len()) == pat);
    }
}

/// The pieces of `s` between the occurrences of `pat`, scanned left
/// to right; an empty or oversized pattern yields the whole of `s` as
/// the one piece.
pub open spec fn split_seq(s: Seq<char>, pat: Seq<char>) -> Seq<Seq<char>>
    decreases s.len(),
{
    if pat.len() == 0 {
        seq![s]
    } else {
        let i = first_match(s, pat);
        if i < 0 || i + pat.len() > s.len() {
            seq![s]
        } else {
            seq![s.subrange(0, i)] + split_seq(s.subrange(i + pat.len(), s.len() as int), pat)
        }
    }
}

pub proof fn lemma_split_count(s: Seq<char>, pat: Seq<char>)
    requires
        pat.len() >= 1,
    ensures
        1 <= split_seq(s, pat).len() <= s.len() + 1,
        forall|k: int|
            0 <= k < split_seq(s, pat).len() ==> (#[trigger] split_seq(s, pat)[k]).len() <= s.len(),
    decreases s.len(),
{
    lemma_first_match(s, pat);
    let i = first_match(s, pat);
    if i + pat.len() <= s.len() {
        lemma_split_count(s.subrange(i + pat.len(), s.len() as int), pat);
    }
}

/// Whether `needle` occurs in `hay`; the empty needle always does.
pub fn str_contains(hay: &str, needle: &str) -> (r: bool)
    ensures
        r == contains_seq(hay@, needle@),
{
    let n = hay.unicode_len();
    let m = needle.unicode_len();
    if m == 0 {
        return true;
    }
    proof {
        lemma_first_match(hay@, needle@);
    }
    if m > n {
        return false;
    }
    let mut k: usize = 0;
    while k <= n - m
        invariant
            n == hay@.len(),
            m == needle@.len(),
            1 <= m,
            m <= n,
            forall|q: int|
                #![trigger hay@.subrange(q, q + m as int)]
                0 <= q < k && q + m <= n ==> hay@.subrange(q, q + m as int) != needle@,
        decreases n - k,
    {
        let mut l: usize = 0;
        let mut same: bool = true;
        while l < m && same
            invariant
                k + m <= n,
                n == hay@.len(),
                m == needle@.len(),
                l <= m,
                same ==> forall|q: int|
                    0 <= q < l ==> hay@[k + q] == needle@[q],
                !same ==> hay@.subrange(k as int, k + m as int) != needle@,
            decreases m - l + (if same { 1int } else { 0int }),
        {
            if hay.get_char(k + l) != needle.get_char(l) {
                proof {
                    assert(hay@.subrange(k as int, k + m as int)[l as int] == hay@[k + l]);
                }
                same = false;
            } else {
                l += 1;
            }
        }
        if same {
            proof {
                assert(hay@.subrange(k as int, k + m as int) =~= needle@);
                lemma_first_match_is(hay@, needle@, k as int);
            }
            return true;
        }
        k += 1;
    }
    proof {
        lemma_first_match_none(hay@, needle@);
    }
    false
}

/// The pieces of `s` between occurrences of the (non-empty) separator
/// `pat`, left to right.
pub fn split_str(s: &str, pat: &str) -> (r: Vec<String>)
    requires
        pat@.len() >= 1,
    ensures
        r@.map_values(|t: String| t@) == split_seq(s@, pat@),
{
    let n = s.unicode_len();
    let m = pat.unicode_len();
    let mut r: Vec<String> = Vec::new();
    proof {
        lemma_first_match(s@, pat@);
        assert(s@.subrange(0, n as int) =~= s@);
        assert(Seq::<Seq<char>>::empty().push(s@) =~= seq![s@]);
    }
    if m > n {
        let piece = s.to_owned();
        r.push(piece);
        proof {
            assert(split_seq(s@, pat@) == seq![s@]);
            assert(r@.map_values(|t: String| t@) =~= seq![s@]);
        }
        return r;
    }
    let mut start: usize = 0;
    loop
        invariant
            start <= n,
            n == s@.len(),
            m == pat@.len(),
            1 <= m,
            m <= n,
            r@.map_values(|t: String| t@) + split_seq(
                s@.subrange(start as int, n as int),
                pat@,
            ) =~= split_seq(s@, pat@),
        decreases n - start,
    {
        let ghost suffix = s@.subrange(start as int, n as int);
        // scan for the next separator occurrence at or after start
        let mut k: usize = start;
        let mut found: bool = false;
        while !found && k <= n - m
            invariant
                start <= k,
                k <= n,
                n == s@.len(),
                m == pat@.len(),
                1 <= m,
                m <= n,
                suffix == s@.subrange(start as int, n as int),
                forall|q: int|
                    #![trigger suffix.subrange(q, q + m as int)]
                    0 <= q < k - start && q + m <= suffix.len() ==> suffix.subrange(
                        q,
                        q + m as int,
                    ) != pat@,
                found ==> k + m <= n && s@.subrange(k as int, k + m as int) == pat@
                    && suffix.subrange(k - start as int, k - start + m as int) == pat@,
            decreases n - k + (if found { 0int } else { 1int }),
        {
            let mut l: usize = 0;
            let mut same: bool = true;
            while l < m && same
                invariant
                    k + m <= n,
                    n == s@.len(),
                    m == pat@.len(),
                    l <= m,
                    same ==> forall|q: int| 0 <= q < l ==> s@[k + q] == pat@[q],
                    !same ==> s@.subrange(k as int, k + m as int) != pat@,
                decreases m - l + (if same { 1int } else { 0int }),
            {
                if s.get_char(k + l) != pat.get_char(l) {
                    proof {
                        assert(s@.subrange(k as int, k + m as int)[l as int] == s@[k + l]);
                    }
                    same = false;
                } else {
                    l += 1;
                }
            }
            if same {
                proof {
                    assert(s@.subrange(k as int, k + m as int) =~= pat@);
                    assert(suffix.subrange(k - start as int, k - start + m as int) =~= s@.subrange(
                        k as int,
                        k + m as int,
                    ));
                }
                found = true;
            } else {
                proof {
                    assert(suffix.subrange(k - start as int, k - start + m as int) =~= s@.subrange(
                        k as int,
                        k + m as int,
                    ));
                }
                k += 1;
            }
        }
        if found {
            proof {
                lemma_first_match_is(suffix, pat@, k - start as int);
                assert(split_seq(suffix, pat@) == seq![suffix.subrange(0, k - start as int)]
                    + split_seq(
                    suffix.subrange(k - start + m as int, suffix.len() as int),
                    pat@,
                ));
                assert(suffix.subrange(0, k - start as int) =~= s@.subrange(
                    start as int,
                    k as int,
                ));
                assert(suffix.subrange(k - start + m as int, suffix.len() as int) =~= s@.subrange(
                    k + m as int,
                    n as int,
                ));
            }
            let piece = s.substring_char(start, k).to_owned();
            let ghost rprev = r@;
            r.push(piece);
            proof {
                assert(r@.map_values(|t: String| t@) =~= rprev.map_values(|t: String| t@).push(
                    s@.subrange(start as int, k as int),
                ));
                assert(rprev.map_values(|t: String| t@).push(s@.subrange(start as int, k as int))
                    + split_seq(s@.subrange(k + m as int, n as int), pat@) =~= rprev.map_values(
                    |t: String| t@,
                ) + split_seq(suffix, pat@));
            }
            start = k + m;
        } else {
            proof {
                lemma_first_match_none(suffix, pat@);
                lemma_first_match(suffix, pat@);
                assert(split_seq(suffix, pat@) == seq![suffix]);
            }
            let piece = s.substring_char(start, n).to_owned();
            let ghost rprev = r@;
            r.push(piece);
            proof {
                assert(r@.map_values(|t: String| t@) =~= rprev.map_values(|t: String| t@).push(
                    suffix,
                ));
                assert(rprev.map_values(|t: String| t@).push(suffix) =~= rprev.map_values(
                    |t: String| t@,
                ) + split_seq(suffix, pat@));
            }
            return r;
        }
    }
}

/// Character-for-character equality of two strings.
pub fn str_eq(a: &str, b: &str) -> (r: bool)
    ensures
        r == (a@ == b@),
{
    let n = a.unicode_len();
    if n != b.unicode_len() {
        proof {
            assert(a@.len() != b@.len());
        }
        return false;
    }
    let mut i: usize = 0;
    while i < n
        invariant
            i <= n,
            n == a@.len(),
            n == b@.len(),
            forall|k: int| 0 <= k < i ==> a@[k] == b@[k],
        decreases n - i,
    {
        if a.get_char(i) != b.get_char(i) {
            return false;
        }
        i += 1;
    }
    proof {
        assert(a@ =~= b@);
    }
    true
}

pub open spec fn is_space(c: char) -> bool {
    c == ' ' || c == '\t' || c == '\n' || c == '\r'
}

pub open spec fn leading_ws(s: Seq<char>) -> int
    decreases s.len(),
{
    if s.len() == 0 {
        0
    } else if !is_space(s[0]) {
        0
    } else {
        1 + leading_ws(s.drop_first())
    }
}

pub open spec fn trailing_ws(s: Seq<char>) -> int
    decreases s.len(),
{
    if s.len() == 0 {
        0
    } else if !is_space(s.last()) {
        0
    } else {
        1 + trailing_ws(s.drop_last())
    }
}

/// `s` with ASCII whitespace removed from both ends.
pub open spec fn trim_seq(s: Seq<char>) -> Seq<char> {
    if leading_ws(s) == s.len() {
        Seq::empty()
    } else {
        s.subrange(leading_ws(s), s.len() - trailing_ws(s))
    }
}

pub proof fn lemma_leading_ws(s: Seq<char>)
    ensures
        0 <= leading_ws(s) <= s.len(),
        forall|k: int| 0 <= k < leading_ws(s) ==> is_space(s[k]),
        leading_ws(s) < s.len() ==> !is_space(s[leading_ws(s)]),
    decreases s.len(),
{
    if s.len() > 0 && is_space(s[0]) {
        lemma_leading_ws(s.drop_first());
        assert forall|k: int| 0 <= k < leading_ws(s) implies is_space(s[k]) by {
            if k > 0 {
                assert(s.drop_first()[k - 1] == s[k]);
            }
        }
        if leading_ws(s) < s.len() {
            assert(s.drop_first()[leading_ws(s) - 1] == s[leading_ws(s)]);
        }
    }
}

pub proof fn lemma_trailing_ws(s: Seq<char>)
    ensures
        0 <= trailing_ws(s) <= s.len(),
        forall|k: int| s.len() - trailing_ws(s) <= k < s.len() ==> is_space(s[k]),
        trailing_ws(s) < s.len() ==> !is_space(s[s.len() - trailing_ws(s) - 1]),
    decreases s.len(),
{
    if s.len() > 0 && is_space(s.last()) {
        lemma_trailing_ws(s.drop_last());
        assert forall|k: int| s.len() - trailing_ws(s) <= k < s.len() implies is_space(s[k]) by {
            if k < s.len() - 1 {
                assert(s.drop_last()[k] == s[k]);
            }
        }
        if trailing_ws(s) < s.len() {
            assert(s.drop_last()[s.len() - trailing_ws(s) - 1] == s[s.len() - trailing_ws(s) - 1]);
        }
    }
}

pub proof fn lemma_trim_bounds(s: Seq<char>)
    ensures
        leading_ws(s) < s.len() ==> leading_ws(s) + trailing_ws(s) < s.len(),
        leading_ws(s) == s.len() ==> trim_seq(s).len() == 0,
{
    lemma_leading_ws(s);
    lemma_trailing_ws(s);
    let a = leading_ws(s);
    let b = trailing_ws(s);
    if a < s.len() {
        if a + b >= s.len() {
            assert(is_space(s[a])) by {
                assert(s.len() - b <= a < s.len());
            }
        }
    }
}

/// `s` with ASCII whitespace removed from both ends.
pub fn trim_str(s: &str) -> (r: &str)
    ensures
        r@ == trim_seq(s@),
{
    proof {
        lemma_leading_ws(s@);
        lemma_trailing_ws(s@);
        lemma_trim_bounds(s@);
    }
    let n = s.unicode_len();
    let mut a: usize = 0;
    while a < n && is_space_char(s.get_char(a))
        invariant
            a <= n,
            n == s@.len(),
            forall|k: int| 0 <= k < a ==> is_space(s@[k]),
        decreases n - a,
    {
        a += 1;
    }
    proof {
        if a < n {
            lemma_ws_prefix(s@, a as int);
        }
    }
    if a == n {
        proof {
            lemma_ws_all(s@);
        }
        let r = s.substring_char(0, 0);
        proof {
            assert(r@ =~= trim_seq(s@));
        }
        return r;
    }
    let mut b: usize = 0;
    while b < n && is_space_char(s.get_char(n - 1 - b))
        invariant
            b <= n,
            n == s@.len(),
            forall|k: int| n - b <= k < n ==> is_space(s@[k]),
        decreases n - b,
    {
        b += 1;
    }
    proof {
        lemma_ws_suffix(s@, b as int);
    }
    let r = s.substring_char(a, n - b);
    proof {
        assert(r@ =~= trim_seq(s@));
    }
    r
}

fn is_space_char(c: char) -> (r: bool)
    ensures
        r == is_space(c),
{
    c == ' ' || c == '\t' || c == '\n' || c == '\r'
}

/// A whitespace run of length `a` ending at a non-space character is
/// exactly the leading whitespace.
proof fn lemma_ws_prefix(s: Seq<char>, a: int)
    requires
        0 <= a < s.len(),
        forall|k: int| 0 <= k < a ==> is_space(s[k]),
        !is_space(s[a]),
    ensures
        leading_ws(s) == a,
{
    lemma_leading_ws(s);
}

proof fn lemma_ws_all(s: Seq<char>)
    requires
        forall|k: int| 0 <= k < s.len() ==> is_space(s[k]),
    ensures
        leading_ws(s) == s.len(),
{
    lemma_leading_ws(s);
}

proof fn lemma_ws_suffix(s: Seq<char>, b: int)
    requires
        0 <= b <= s.len(),
        forall|k: int| s.len() - b <= k < s.len() ==> is_space(s[k]),
        b < s.len() ==> !is_space(s[s.len() - 1 - b]),
    ensures
        b < s.len() ==> trailing_ws(s) == b,
{
    lemma_trailing_ws(s);
}

} // verus!
