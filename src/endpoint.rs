//! Which strings are acceptable backend endpoints.
use vstd::prelude::*;

verus! {

/// The scheme that plain HTTP endpoints start with.
pub open spec fn http_scheme() -> Seq<char> {
    seq!['h', 't', 't', 'p', ':', '/', '/']
}

/// The scheme that HTTPS endpoints start with.
pub open spec fn https_scheme() -> Seq<char> {
    seq!['h', 't', 't', 'p', 's', ':', '/', '/']
}

/// `s` starts with `scheme` and a non-empty host follows it.
pub open spec fn has_scheme_and_host(s: Seq<char>, scheme: Seq<char>) -> bool {
    &&& scheme.len() < s.len()
    &&& s.subrange(0, scheme.len() as int) == scheme
    &&& s[scheme.len() as int] != '/'
}

/// An endpoint names its scheme (`http://` or `https://`) and then a host.
pub open spec fn valid_endpoint(s: Seq<char>) -> bool {
    has_scheme_and_host(s, http_scheme()) || has_scheme_and_host(s, https_scheme())
}

fn scheme_and_host(s: &str, n: usize, scheme: &str) -> (r: bool)
    requires
        n == s@.len(),
    ensures
        r == has_scheme_and_host(s@, scheme@),
{
    let m = scheme.unicode_len();
    if m >= n {
        return false;
    }
    let mut i: usize = 0;
    while i < m
        invariant
            m == scheme@.len(),
            m < n,
            n == s@.len(),
            i <= m,
            s@.subrange(0, i as int) == scheme@.subrange(0, i as int),
        decreases m - i,
    {
        if s.get_char(i) != scheme.get_char(i) {
            assert(s@.subrange(0, m as int)[i as int] != scheme@[i as int]);
            return false;
        }
        assert(s@.subrange(0, i + 1) =~= s@.subrange(0, i as int).push(s@[i as int]));
        assert(scheme@.subrange(0, i + 1) =~= scheme@.subrange(0, i as int).push(
            scheme@[i as int],
        ));
        i = i + 1;
    }
    assert(scheme@.subrange(0, m as int) =~= scheme@);
    s.get_char(m) != '/'
}

/// Whether `s` is an acceptable endpoint.
pub fn is_valid_endpoint(s: &str) -> (r: bool)
    ensures
        r == valid_endpoint(s@),
{
    proof {
        reveal_strlit("http://");
        reveal_strlit("https://");
        assert("http://"@ =~= http_scheme());
        assert("https://"@ =~= https_scheme());
    }
    let n = s.unicode_len();
    scheme_and_host(s, n, "http://") || scheme_and_host(s, n, "https://")
}

} // verus!
