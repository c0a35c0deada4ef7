use vstd::prelude::*;

verus! {

/// `s` with every leading `/` removed.
pub open spec fn trim_leading_slashes(s: Seq<char>) -> Seq<char>
    decreases s.len(),
{
    if s.len() > 0 && s[0] == '/' {
        trim_leading_slashes(s.drop_first())
    } else {
        s
    }
}

/// `s` with every trailing `/` removed.
pub open spec fn trim_trailing_slashes(s: Seq<char>) -> Seq<char>
    decreases s.len(),
{
    if s.len() > 0 && s.last() == '/' {
        trim_trailing_slashes(s.drop_last())
    } else {
        s
    }
}

/// Joins `suffix` onto `base` with exactly one `/` between them; an empty
/// suffix leaves `base` as it is.
pub open spec fn join(base: Seq<char>, suffix: Seq<char>) -> Seq<char> {
    if suffix.len() == 0 {
        base
    } else {
        trim_trailing_slashes(base) + seq!['/'] + trim_leading_slashes(suffix)
    }
}

/// Every character of `s` is ASCII.
pub open spec fn is_ascii_path(s: Seq<char>) -> bool {
    forall|i: int| 0 <= i < s.len() ==> (s[i] as int) < 128
}

/// Dropping leading slashes keeps a suffix of `s`.
pub proof fn lemma_trim_leading_is_suffix(s: Seq<char>)
    ensures
        trim_leading_slashes(s).len() <= s.len(),
        trim_leading_slashes(s) == s.subrange(s.len() - trim_leading_slashes(s).len(), s.len() as int),
        trim_leading_slashes(s).len() > 0 ==> trim_leading_slashes(s)[0] != '/',
    decreases s.len(),
{
    if s.len() > 0 && s[0] == '/' {
        lemma_trim_leading_is_suffix(s.drop_first());
        assert(s.drop_first().subrange(
            s.drop_first().len() - trim_leading_slashes(s).len(),
            s.drop_first().len() as int,
        ) =~= s.subrange(s.len() - trim_leading_slashes(s).len(), s.len() as int));
    } else {
        assert(s.subrange(0, s.len() as int) =~= s);
    }
}

/// Dropping trailing slashes keeps a prefix of `s`.
pub proof fn lemma_trim_trailing_is_prefix(s: Seq<char>)
    ensures
        trim_trailing_slashes(s).len() <= s.len(),
        trim_trailing_slashes(s) == s.subrange(0, trim_trailing_slashes(s).len() as int),
        trim_trailing_slashes(s).len() > 0 ==> trim_trailing_slashes(s).last() != '/',
    decreases s.len(),
{
    if s.len() > 0 && s.last() == '/' {
        lemma_trim_trailing_is_prefix(s.drop_last());
        assert(s.drop_last().subrange(0, trim_trailing_slashes(s).len() as int)
            =~= s.subrange(0, trim_trailing_slashes(s).len() as int));
    } else {
        assert(s.subrange(0, s.len() as int) =~= s);
    }
}

/// A joined path of ASCII parts is ASCII, and it keeps a leading `/` of
/// `base` whose next character is not `/`.
pub proof fn lemma_join_shape(base: Seq<char>, suffix: Seq<char>)
    requires
        base.len() > 0,
        base[0] == '/',
        base.len() > 1 ==> base[1] != '/',
    ensures
        join(base, suffix).len() > 0,
        join(base, suffix)[0] == '/',
        join(base, suffix).len() > 1 ==> join(base, suffix)[1] != '/',
        is_ascii_path(base) && is_ascii_path(suffix) ==> is_ascii_path(join(base, suffix)),
{
    if suffix.len() > 0 {
        lemma_trim_leading_is_suffix(suffix);
        lemma_trim_trailing_is_prefix(base);
        let b = trim_trailing_slashes(base);
        let t = trim_leading_slashes(suffix);
        let j = b + seq!['/'] + t;
        if b.len() > 0 {
            assert(j[0] == b[0]);
            if b.len() > 1 {
                assert(j[1] == base[1]);
            }
        } else {
            assert(j[0] == '/');
            if t.len() > 0 {
                assert(j[1] == t[0]);
            }
        }
        if is_ascii_path(base) && is_ascii_path(suffix) {
            assert forall|i: int| 0 <= i < j.len() implies (j[i] as int) < 128 by {
                if i < b.len() {
                    assert(j[i] == base[i]);
                } else if i > b.len() {
                    assert(j[i] == suffix[suffix.len() - t.len() + (i - b.len() - 1)]);
                }
            }
        }
    }
}

/// Joins `b` onto `a` as a route path: an empty `b` gives `a`; otherwise the
/// trailing slashes of `a` and the leading slashes of `b` are dropped and a
/// single `/` stands between the two.
pub fn join_paths(a: &str, b: &str) -> (r: String)
    ensures
        r@ == join(a@, b@),
{
    let nb = b.unicode_len();
    if nb == 0 {
        return a.to_owned();
    }
    let mut start: usize = 0;
    assert(b@.subrange(0, nb as int) =~= b@);
    while start < nb && b.get_char(start) == '/'
        invariant
            nb == b@.len(),
            start <= nb,
            trim_leading_slashes(b@) == trim_leading_slashes(b@.subrange(start as int, nb as int)),
        decreases nb - start,
    {
        let ghost rest = b@.subrange(start as int, nb as int);
        assert(rest.drop_first() =~= b@.subrange(start + 1, nb as int));
        start = start + 1;
    }
    proof {
        let rest = b@.subrange(start as int, nb as int);
        assert(rest.len() == 0 || rest[0] != '/');
    }
    let na = a.unicode_len();
    let mut end: usize = na;
    assert(a@.subrange(0, na as int) =~= a@);
    while end > 0 && a.get_char(end - 1) == '/'
        invariant
            na == a@.len(),
            end <= na,
            trim_trailing_slashes(a@) == trim_trailing_slashes(a@.subrange(0, end as int)),
        decreases end,
    {
        let ghost rest = a@.subrange(0, end as int);
        assert(rest.drop_last() =~= a@.subrange(0, end - 1));
        end = end - 1;
    }
    proof {
        let rest = a@.subrange(0, end as int);
        assert(rest.len() == 0 || rest.last() != '/');
    }
    let mut r = String::from_str(a.substring_char(0, end));
    r.append("/");
    r.append(b.substring_char(start, nb));
    proof {
        reveal_strlit("/");
    }
    assert(r@ =~= join(a@, b@));
    r
}

} // verus!
