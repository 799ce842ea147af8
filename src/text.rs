use vstd::prelude::*;
use vstd::string::*;

verus! {

/// The lines of `s` as `str::lines` splits them.
pub uninterp spec fn lines_of(s: Seq<char>) -> Seq<Seq<char>>;

/// `s` without leading and trailing Unicode white space, as `str::trim` gives it.
pub uninterp spec fn trimmed_of(s: Seq<char>) -> Seq<char>;

/// The percent-decoding of `s` by `urlencoding::decode`, when it is UTF-8.
pub uninterp spec fn percent_decoded(s: Seq<char>) -> Option<Seq<char>>;

/// The percent-encoding of `s` by `urlencoding::encode`.
pub uninterp spec fn percent_encoded(s: Seq<char>) -> Seq<char>;

/// The Unicode lower-case mapping of `s`, as `str::to_lowercase` gives it.
pub uninterp spec fn lowercase_of(s: Seq<char>) -> Seq<char>;

/// `s` with every trailing `c` removed.
pub open spec fn trim_end_char(s: Seq<char>, c: char) -> Seq<char>
    decreases s.len(),
{
    if s.len() > 0 && s.last() == c {
        trim_end_char(s.drop_last(), c)
    } else {
        s
    }
}

/// The text after the last `c` of `s`, or all of `s` when it holds no `c`.
pub open spec fn after_last(s: Seq<char>, c: char) -> Seq<char>
    decreases s.len(),
{
    if s.len() == 0 {
        s
    } else if s.last() == c {
        Seq::empty()
    } else {
        after_last(s.drop_last(), c).push(s.last())
    }
}

/// `p` is a prefix of `s`.
pub open spec fn has_prefix(s: Seq<char>, p: Seq<char>) -> bool {
    p.len() <= s.len() && s.subrange(0, p.len() as int) == p
}

/// `p` is a suffix of `s`.
pub open spec fn has_suffix(s: Seq<char>, p: Seq<char>) -> bool {
    p.len() <= s.len() && s.subrange(s.len() - p.len(), s.len() as int) == p
}

/// Relies on `str::lines`, collected into owned strings.
#[verifier::external_body]
pub(crate) fn split_lines(s: &str) -> (r: Vec<String>)
    ensures
        r@.len() == lines_of(s@).len(),
        forall|i: int| 0 <= i < r@.len() ==> #[trigger] r@[i]@ == lines_of(s@)[i],
{
    s.lines().map(|l| l.to_string()).collect()
}

/// Relies on `str::trim`.
#[verifier::external_body]
pub(crate) fn trim(s: &str) -> (r: &str)
    ensures
        r@ == trimmed_of(s@),
{
    s.trim()
}

/// Relies on `urlencoding::decode`: `None` where the decoded bytes are not UTF-8.
#[verifier::external_body]
pub(crate) fn percent_decode(s: &str) -> (r: Option<String>)
    ensures
        r is Some <==> percent_decoded(s@) is Some,
        r matches Some(d) ==> percent_decoded(s@) == Some(d@),
{
    match urlencoding::decode(s) {
        Ok(d) => Some(d.into_owned()),
        Err(_) => None,
    }
}

/// Relies on `urlencoding::encode`.
#[verifier::external_body]
pub(crate) fn percent_encode(s: &str) -> (r: String)
    ensures
        r@ == percent_encoded(s@),
{
    urlencoding::encode(s).into_owned()
}

/// Relies on `str::to_lowercase`: the result depends on the characters alone.
#[verifier::external_body]
pub(crate) fn to_lowercase(s: &str) -> (r: String)
    ensures
        r@ == lowercase_of(s@),
{
    s.to_lowercase()
}

/// `s` with every trailing `c` removed.
pub fn trim_end_matches(s: &str, c: char) -> (r: &str)
    ensures
        r@ == trim_end_char(s@, c),
{
    let mut e: usize = s.unicode_len();
    assert(s@.subrange(0, e as int) =~= s@);
    while e > 0 && s.get_char(e - 1) == c
        invariant
            e <= s@.len(),
            trim_end_char(s@.subrange(0, e as int), c) == trim_end_char(s@, c),
        decreases e,
    {
        assert(s@.subrange(0, e as int).drop_last() =~= s@.subrange(0, e as int - 1));
        e -= 1;
    }
    s.substring_char(0, e)
}

/// The text after the last `c` of `s`, or all of `s` when it holds no `c`.
pub fn last_segment(s: &str, c: char) -> (r: &str)
    ensures
        r@ == after_last(s@, c),
{
    let n: usize = s.unicode_len();
    let mut i: usize = n;
    assert(s@.subrange(0, n as int) =~= s@);
    assert(s@.subrange(n as int, n as int) =~= Seq::<char>::empty());
    while i > 0 && s.get_char(i - 1) != c
        invariant
            i <= n,
            n == s@.len(),
            after_last(s@, c) == after_last(s@.subrange(0, i as int), c) + s@.subrange(
                i as int,
                n as int,
            ),
        decreases i,
    {
        let ghost pre = s@.subrange(0, i as int);
        assert(pre.drop_last() =~= s@.subrange(0, i as int - 1));
        assert(after_last(pre, c) == after_last(pre.drop_last(), c).push(pre.last()));
        assert(after_last(pre.drop_last(), c).push(pre.last()) + s@.subrange(i as int, n as int)
            =~= after_last(pre.drop_last(), c) + s@.subrange(i as int - 1, n as int));
        i -= 1;
    }
    assert(after_last(s@.subrange(0, i as int), c) =~= Seq::<char>::empty());
    assert(after_last(s@, c) =~= s@.subrange(i as int, n as int));
    s.substring_char(i, n)
}

/// Whether `p` is a prefix of `s`.
pub fn starts_with(s: &str, p: &str) -> (r: bool)
    ensures
        r == has_prefix(s@, p@),
{
    let ls: usize = s.unicode_len();
    let lp: usize = p.unicode_len();
    if lp > ls {
        return false;
    }
    let mut i: usize = 0;
    while i < lp
        invariant
            i <= lp <= ls,
            ls == s@.len(),
            lp == p@.len(),
            forall|j: int| 0 <= j < i ==> s@[j] == p@[j],
        decreases lp - i,
    {
        if s.get_char(i) != p.get_char(i) {
            assert(s@.subrange(0, lp as int)[i as int] != p@[i as int]);
            return false;
        }
        i += 1;
    }
    assert(s@.subrange(0, lp as int) =~= p@);
    true
}

/// Whether `p` is a suffix of `s`.
pub fn ends_with(s: &str, p: &str) -> (r: bool)
    ensures
        r == has_suffix(s@, p@),
{
    let ls: usize = s.unicode_len();
    let lp: usize = p.unicode_len();
    if lp > ls {
        return false;
    }
    let off: usize = ls - lp;
    let mut i: usize = 0;
    while i < lp
        invariant
            i <= lp <= ls,
            off == ls - lp,
            ls == s@.len(),
            lp == p@.len(),
            forall|j: int| 0 <= j < i ==> s@[off + j] == p@[j],
        decreases lp - i,
    {
        if s.get_char(off + i) != p.get_char(i) {
            assert(s@.subrange(off as int, ls as int)[i as int] != p@[i as int]);
            return false;
        }
        i += 1;
    }
    assert(s@.subrange(off as int, ls as int) =~= p@);
    true
}

/// `s` without the prefix `p`, when it has it.
pub fn strip_prefix<'a>(s: &'a str, p: &str) -> (r: Option<&'a str>)
    ensures
        r is Some <==> has_prefix(s@, p@),
        r matches Some(t) ==> s@ == p@ + t@,
{
    if starts_with(s, p) {
        let lp: usize = p.unicode_len();
        let ls: usize = s.unicode_len();
        let t = s.substring_char(lp, ls);
        assert(s@ =~= p@ + t@);
        Some(t)
    } else {
        None
    }
}

/// `a` and `b` hold the same characters.
pub fn same_text(a: &str, b: &str) -> (r: bool)
    ensures
        r == (a@ == b@),
{
    let x = a.to_owned();
    let y = b.to_owned();
    x == y
}

} // verus!
