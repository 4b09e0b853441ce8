//! Matching destination domains against configured patterns.
use crate::error::{chars_of, Address, Error};
use vstd::prelude::*;

verus! {

/// How a domain is compared with a pattern.
#[derive(Clone, Copy, Debug, PartialEq, Eq)]
pub enum Method {
    /// The pattern occurs somewhere in the domain.
    Keyword,
    /// The domain is the pattern or a subdomain of it.
    Suffix,
    /// The domain is the pattern.
    Match,
}

/// `p` occurs in `s` starting at `i`.
pub open spec fn occurs_at(s: Seq<char>, p: Seq<char>, i: int) -> bool {
    0 <= i && i + p.len() <= s.len() && s.subrange(i, i + p.len()) == p
}

/// `p` occurs somewhere in `s`.
pub open spec fn contains_seq(s: Seq<char>, p: Seq<char>) -> bool {
    exists|i: int| occurs_at(s, p, i)
}

/// `d` is the domain `p` or one of its subdomains.
pub open spec fn is_domain_suffix(d: Seq<char>, p: Seq<char>) -> bool {
    d == p || (d.len() > p.len() && d[d.len() - p.len() - 1] == '.' && occurs_at(
        d,
        p,
        d.len() - p.len(),
    ))
}

/// Whether `method` accepts domain `d` for pattern `p`.
pub open spec fn method_accepts(method: Method, p: Seq<char>, d: Seq<char>) -> bool {
    match method {
        Method::Keyword => contains_seq(d, p),
        Method::Suffix => is_domain_suffix(d, p),
        Method::Match => d == p,
    }
}

fn occurs_at_exec(s: &Vec<char>, p: &Vec<char>, i: usize) -> (r: bool)
    requires
        i + p@.len() <= s@.len(),
    ensures
        r == occurs_at(s@, p@, i as int),
{
    let n = s.len();
    let mut k: usize = 0;
    while k < p.len()
        invariant
            n == s@.len(),
            k <= p@.len(),
            i + p@.len() <= s@.len(),
            forall|x: int| 0 <= x < k ==> s@[i + x] == p@[x],
        decreases p@.len() - k,
    {
        if s[i + k] != p[k] {
            assert(s@.subrange(i as int, i + p@.len())[k as int] != p@[k as int]);
            return false;
        }
        k += 1;
    }
    assert(s@.subrange(i as int, i + p@.len()) =~= p@);
    true
}

fn contains_exec(s: &Vec<char>, p: &Vec<char>) -> (r: bool)
    ensures
        r == contains_seq(s@, p@),
{
    if p.len() > s.len() {
        return false;
    }
    let last = s.len() - p.len();
    let mut i: usize = 0;
    while i <= last
        invariant
            last + p@.len() == s@.len(),
            forall|x: int| 0 <= x < i ==> !occurs_at(s@, p@, x),
        decreases last + 1 - i,
    {
        if occurs_at_exec(s, p, i) {
            return true;
        }
        if i == last {
            return false;
        }
        i += 1;
    }
    false
}

fn domain_suffix_exec(d: &Vec<char>, p: &Vec<char>) -> (r: bool)
    ensures
        r == is_domain_suffix(d@, p@),
{
    if d.len() == p.len() {
        let eq = occurs_at_exec(d, p, 0);
        assert(d@.subrange(0, d@.len() as int) =~= d@);
        return eq;
    }
    if d.len() < p.len() {
        return false;
    }
    let start = d.len() - p.len();
    d[start - 1] == '.' && occurs_at_exec(d, p, start)
}

/// A domain pattern and how to compare with it.
#[derive(Clone, Debug)]
pub struct DomainMatcher {
    pub method: Method,
    pub domain: String,
}

impl Method {
    /// The method named by a configuration string.
    pub fn try_from(value: String) -> (r: Result<Method, Error>)
        ensures
            value@ == "keyword"@ <==> r == Ok::<Method, Error>(Method::Keyword),
            value@ == "suffix"@ <==> r == Ok::<Method, Error>(Method::Suffix),
            value@ == "match"@ <==> r == Ok::<Method, Error>(Method::Match),
            r is Err <==> (value@ != "keyword"@ && value@ != "suffix"@ && value@ != "match"@),
            r matches Err(e) ==> e is Other,
    {
        let keyword = "keyword".to_owned();
        let suffix = "suffix".to_owned();
        let exact = "match".to_owned();
        proof {
            reveal_strlit("keyword");
            reveal_strlit("suffix");
            reveal_strlit("match");
            assert("keyword"@.len() == 7 && "suffix"@.len() == 6 && "match"@.len() == 5);
        }
        if value == keyword {
            Ok(Method::Keyword)
        } else if value == suffix {
            Ok(Method::Suffix)
        } else if value == exact {
            Ok(Method::Match)
        } else {
            Err(Error::Other(value))
        }
    }
}

impl DomainMatcher {
    /// Whether the matcher accepts `domain`.
    pub fn test(&self, domain: &str) -> (r: bool)
        ensures
            r == method_accepts(self.method, self.domain@, domain@),
    {
        let d = chars_of(domain);
        let p = chars_of(self.domain.as_str());
        match self.method {
            Method::Keyword => contains_exec(&d, &p),
            Method::Match => {
                if d.len() != p.len() {
                    return false;
                }
                assert(d@.subrange(0, d@.len() as int) =~= d@);
                occurs_at_exec(&d, &p, 0)
            },
            Method::Suffix => domain_suffix_exec(&d, &p),
        }
    }

    /// Whether the matcher accepts the destination: only a domain can match.
    pub fn match_rule(&self, addr: &Address) -> (r: bool)
        ensures
            r == match addr {
                Address::Domain(d, _) => method_accepts(self.method, self.domain@, d@),
                Address::SocketAddr(..) => false,
            },
    {
        match addr {
            Address::Domain(domain, _) => self.test(domain.as_str()),
            Address::SocketAddr(..) => false,
        }
    }
}

} // verus!
