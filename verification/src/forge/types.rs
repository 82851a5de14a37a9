//! Specialized value types of the AFNS standard library: e-mail
//! addresses, URLs and MAC addresses.

use vstd::prelude::*;
use vstd::utf8::encode_utf8;
use crate::text::{
    chars_of, count_of, first_index_of, last_index_of, find_char, rfind_char, string_of,
    chars_equal, push_char,
};

verus! {

/// Whether text is a well-formed e-mail address: exactly one '@', which is
/// neither the first nor the last character, and more than three bytes in
/// UTF-8.
pub open spec fn email_valid(s: Seq<char>) -> bool {
    &&& count_of(s, '@') == 1
    &&& s[0] != '@'
    &&& s.last() != '@'
    &&& encode_utf8(s).len() as usize > 3
}

/// The part of an address before its first '@' (all of it when there is
/// none).
pub open spec fn email_local(s: Seq<char>) -> Seq<char> {
    let i = first_index_of(s, '@');
    if i < 0 {
        s
    } else {
        s.take(i)
    }
}

/// The part of an address after its first '@', up to the next '@' (empty
/// when there is no '@').
pub open spec fn email_domain(s: Seq<char>) -> Seq<char> {
    let i = first_index_of(s, '@');
    if i < 0 {
        Seq::empty()
    } else {
        let rest = s.skip(i + 1);
        let j = first_index_of(rest, '@');
        if j < 0 {
            rest
        } else {
            rest.take(j)
        }
    }
}

proof fn lemma_count_zero(s: Seq<char>, c: char)
    requires
        count_of(s, c) == 0,
    ensures
        forall|j: int| 0 <= j < s.len() ==> s[j] != c,
    decreases s.len(),
{
    if s.len() > 0 {
        lemma_count_zero(s.drop_last(), c);
        assert forall|j: int| 0 <= j < s.len() implies s[j] != c by {
            if j < s.len() - 1 {
                assert(s[j] == s.drop_last()[j]);
            }
        }
    }
}

/// Counts the occurrences of `c` in `v`.
fn count_char(v: &Vec<char>, c: char) -> (n: usize)
    ensures
        n == count_of(v@, c),
{
    let mut n: usize = 0;
    let mut i: usize = 0;
    while i < v.len()
        invariant
            i <= v@.len(),
            n == count_of(v@.take(i as int), c),
            n <= i,
        decreases v@.len() - i,
    {
        assert(v@.take(i + 1).drop_last() =~= v@.take(i as int));
        if v[i] == c {
            n = n + 1;
        }
        i = i + 1;
    }
    assert(v@.take(i as int) =~= v@);
    n
}

/// Email address with validation
#[derive(Debug, Clone, PartialEq, Eq, Hash)]
pub struct AFNSEmail {
    address: String,
}

impl View for AFNSEmail {
    type V = Seq<char>;

    closed spec fn view(&self) -> Seq<char> {
        self.address@
    }
}

impl AFNSEmail {
    /// Create a new email from a string
    pub fn new(address: String) -> (r: Result<Self, String>)
        ensures
            email_valid(address@) ==> (r matches Ok(e) && e@ == address@),
            !email_valid(address@) ==> (r matches Err(m) && m@ == "Invalid email address: "@
                + address@),
    {
        if Self::is_valid(address.as_str()) {
            Ok(Self { address })
        } else {
            let mut m = String::from_str("Invalid email address: ");
            m.append(address.as_str());
            Err(m)
        }
    }

    /// Check if an email address is valid
    pub fn is_valid(email: &str) -> (b: bool)
        ensures
            b == email_valid(email@),
    {
        let v = chars_of(email);
        let n = count_char(&v, '@');
        if n != 1 {
            return false;
        }
        assert(v@.len() > 0) by {
            if v@.len() == 0 {
                assert(count_of(v@, '@') == 0);
            }
        }
        v[0] != '@' && v[v.len() - 1] != '@' && email.len() > 3
    }

    /// Get the email address as a string
    pub fn to_string(&self) -> (s: String)
        ensures
            s@ == self@,
    {
        self.address.clone()
    }

    /// Get the local part (before @)
    pub fn local_part(&self) -> (s: String)
        ensures
            s@ == email_local(self@),
    {
        let v = chars_of(self.address.as_str());
        match find_char(&v, 0, '@') {
            Some(i) => {
                assert(v@.skip(0) =~= v@);
                string_of(&v, 0, i)
            },
            None => {
                assert(v@.skip(0) =~= v@);
                string_of(&v, 0, v.len())
            },
        }
    }

    /// Get the domain part (after @)
    pub fn domain(&self) -> (s: String)
        ensures
            s@ == email_domain(self@),
    {
        let v = chars_of(self.address.as_str());
        assert(v@.skip(0) =~= v@);
        match find_char(&v, 0, '@') {
            Some(i) => {
                assert(i + 1 <= v.len());
                match find_char(&v, i + 1, '@') {
                    Some(j) => {
                        assert(v@.subrange(i + 1, j as int) =~= v@.skip(i + 1).take(j - i - 1));
                        string_of(&v, i + 1, j)
                    },
                    None => {
                        assert(v@.subrange(i + 1, v@.len() as int) =~= v@.skip(i + 1));
                        string_of(&v, i + 1, v.len())
                    },
                }
            },
            None => String::new(),
        }
    }

    /// Check if the email is from a specific domain
    pub fn is_from_domain(&self, domain: &str) -> (b: bool)
        ensures
            b == (email_domain(self@) == domain@),
    {
        let d = self.domain();
        let x = chars_of(d.as_str());
        let y = chars_of(domain);
        chars_equal(&x, &y)
    }
}


/// The value of a sequence of decimal digits.
pub open spec fn digits_value(d: Seq<char>) -> nat
    decreases d.len(),
{
    if d.len() == 0 {
        0
    } else {
        digits_value(d.drop_last()) * 10 + ((d.last() as int - 48) as nat)
    }
}

/// Whether every character is an ASCII decimal digit.
pub open spec fn all_digits(d: Seq<char>) -> bool {
    forall|i: int| 0 <= i < d.len() ==> '0' <= #[trigger] d[i] <= '9'
}

/// What `u16`'s `from_str` makes of text: an optional '+', then one or more
/// decimal digits whose value fits in 16 bits.
pub open spec fn parse_u16_spec(s: Seq<char>) -> Option<u16> {
    let d = if s.len() > 0 && s[0] == '+' {
        s.drop_first()
    } else {
        s
    };
    if d.len() == 0 || !all_digits(d) || digits_value(d) > 65535 {
        None
    } else {
        Some(digits_value(d) as u16)
    }
}

/// Parses `v[from..to]` as a `u16` the way `u16`'s `from_str` does.
fn parse_u16(v: &Vec<char>, from: usize, to: usize) -> (r: Option<u16>)
    requires
        from <= to <= v@.len(),
    ensures
        r == parse_u16_spec(v@.subrange(from as int, to as int)),
{
    let ghost s = v@.subrange(from as int, to as int);
    let mut start = from;
    if start < to && v[start] == '+' {
        start = start + 1;
    }
    let ghost d = v@.subrange(start as int, to as int);
    assert(d =~= (if s.len() > 0 && s[0] == '+' {
        s.drop_first()
    } else {
        s
    }));
    if start == to {
        return None;
    }
    let mut acc: u32 = 0;
    let mut i = start;
    while i < to
        invariant
            start <= i <= to,
            to <= v@.len(),
            d == v@.subrange(start as int, to as int),
            s == v@.subrange(from as int, to as int),
            d == (if s.len() > 0 && s[0] == '+' {
                s.drop_first()
            } else {
                s
            }),
            all_digits(v@.subrange(start as int, i as int)),
            acc == (if digits_value(v@.subrange(start as int, i as int)) > 65535 {
                65536
            } else {
                digits_value(v@.subrange(start as int, i as int))
            }),
        decreases to - i,
    {
        let c = v[i];
        let ghost p = v@.subrange(start as int, i as int);
        let ghost q = v@.subrange(start as int, i + 1);
        assert(q.drop_last() =~= p);
        if c < '0' || c > '9' {
            assert(!all_digits(d)) by {
                assert(d[i - start] == c);
            }
            return None;
        }
        let digit = (c as u32) - 48;
        if acc == 65536 {
            assert(digits_value(q) > 65535);
        } else {
            acc = acc * 10 + digit;
            if acc > 65535 {
                acc = 65536;
            }
        }
        assert(all_digits(q)) by {
            assert forall|k: int| 0 <= k < q.len() implies '0' <= #[trigger] q[k] <= '9' by {
                if k < p.len() {
                    assert(q[k] == p[k]);
                }
            }
        }
        i = i + 1;
    }
    assert(v@.subrange(start as int, i as int) =~= d);
    if acc > 65535 {
        None
    } else {
        Some(acc as u16)
    }
}

/// The index of the first "://" in `s`, or -1.
pub open spec fn scheme_sep_index(s: Seq<char>) -> int
    decreases s.len(),
{
    if s.len() < 3 {
        -1
    } else if s[0] == ':' && s[1] == '/' && s[2] == '/' {
        0
    } else {
        let r = scheme_sep_index(s.drop_first());
        if r < 0 {
            -1
        } else {
            r + 1
        }
    }
}

proof fn lemma_scheme_sep_index(s: Seq<char>)
    ensures
        -1 <= scheme_sep_index(s) <= s.len() - 3 || scheme_sep_index(s) == -1,
        scheme_sep_index(s) >= 0 ==> s[scheme_sep_index(s)] == ':' && s[scheme_sep_index(s) + 1]
            == '/' && s[scheme_sep_index(s) + 2] == '/',
        forall|j: int|
            0 <= j && j + 2 < s.len() && (scheme_sep_index(s) < 0 || j < scheme_sep_index(s))
                ==> !((#[trigger] s[j]) == ':' && s[j + 1] == '/' && s[j + 2] == '/'),
    decreases s.len(),
{
    if s.len() >= 3 && !(s[0] == ':' && s[1] == '/' && s[2] == '/') {
        let t = s.drop_first();
        lemma_scheme_sep_index(t);
        assert forall|j: int|
            0 <= j && j + 2 < s.len() && (scheme_sep_index(s) < 0 || j < scheme_sep_index(s))
                implies !((#[trigger] s[j]) == ':' && s[j + 1] == '/' && s[j + 2] == '/') by {
            if j > 0 {
                assert(s[j] == t[j - 1] && s[j + 1] == t[j] && s[j + 2] == t[j + 1]);
            }
        }
    }
}

fn find_scheme_sep(v: &Vec<char>) -> (r: Option<usize>)
    ensures
        match r {
            Some(i) => i + 3 <= v@.len() && scheme_sep_index(v@) == i,
            None => scheme_sep_index(v@) == -1,
        },
{
    proof {
        lemma_scheme_sep_index(v@);
    }
    let mut i: usize = 0;
    while i < v.len() && v.len() - i >= 3
        invariant
            i <= v@.len(),
            forall|j: int| 0 <= j < i && j + 2 < v@.len() ==> !((#[trigger] v@[j]) == ':' && v@[j
                + 1] == '/' && v@[j + 2] == '/'),
        decreases v@.len() - i,
    {
        if v[i] == ':' && v[i + 1] == '/' && v[i + 2] == '/' {
            proof {
                lemma_scheme_sep_index(v@);
                let k = scheme_sep_index(v@);
                if k < 0 || k > i {
                } else if k < i {
                }
            }
            return Some(i);
        }
        i = i + 1;
    }
    proof {
        lemma_scheme_sep_index(v@);
    }
    None
}

/// The pieces a URL is cut into.
pub struct UrlParts {
    pub scheme: Seq<char>,
    pub host: Seq<char>,
    pub port: Option<u16>,
    pub path: Seq<char>,
    pub query: Option<Seq<char>>,
    pub fragment: Option<Seq<char>>,
}

/// How the text between "://" and the path is cut: the port after the
/// last ':' when that text parses as a `u16`, the host before it;
/// otherwise all of it is the host.
pub open spec fn host_port_split(hp: Seq<char>) -> (Seq<char>, Option<u16>) {
    let colon = last_index_of(hp, ':');
    if colon >= 0 && parse_u16_spec(hp.skip(colon + 1)) is Some {
        (hp.take(colon), parse_u16_spec(hp.skip(colon + 1)))
    } else {
        (hp, None)
    }
}

/// How the text from the path on is cut: the fragment after the first
/// '#'; before it, the path up to the first '?' and the query after that.
/// There is no query when nothing follows the '?' and no '#' comes.
pub open spec fn path_split(pqf: Seq<char>) -> (Seq<char>, Option<Seq<char>>, Option<Seq<char>>) {
    let h = first_index_of(pqf, '#');
    let pq = if h < 0 {
        pqf
    } else {
        pqf.take(h)
    };
    let fragment = if h < 0 {
        None
    } else {
        Some(pqf.skip(h + 1))
    };
    let q = first_index_of(pq, '?');
    let path = if q < 0 {
        pq
    } else {
        pq.take(q)
    };
    let query = if q < 0 {
        None
    } else if h >= 0 || pq.skip(q + 1).len() > 0 {
        Some(pq.skip(q + 1))
    } else {
        None
    };
    (path, query, fragment)
}

/// How a URL is cut: the scheme before the first "://"; then the host and
/// port up to the first '/'; the path, query and fragment from that '/'
/// (just "/" when there is none). None when there is no "://".
pub open spec fn url_parts(s: Seq<char>) -> Option<UrlParts> {
    let i = scheme_sep_index(s);
    if i < 0 {
        None
    } else {
        let rest = s.skip(i + 3);
        let slash = first_index_of(rest, '/');
        let host_port = if slash < 0 {
            rest
        } else {
            rest.take(slash)
        };
        let pqf = if slash < 0 {
            "/"@
        } else {
            rest.skip(slash)
        };
        let hp = host_port_split(host_port);
        let pq = path_split(pqf);
        Some(
            UrlParts {
                scheme: s.take(i),
                host: hp.0,
                port: hp.1,
                path: pq.0,
                query: pq.1,
                fragment: pq.2,
            },
        )
    }
}

/// Cuts `v[from..to]` into host and port.
fn split_host_port(v: &Vec<char>, from: usize, to: usize) -> (r: (String, Option<u16>))
    requires
        from <= to <= v@.len(),
    ensures
        r.0@ == host_port_split(v@.subrange(from as int, to as int)).0,
        r.1 == host_port_split(v@.subrange(from as int, to as int)).1,
{
    let ghost hp = v@.subrange(from as int, to as int);
    match rfind_char(v, from, to, ':') {
        Some(c) => {
            let p = parse_u16(v, c + 1, to);
            assert(v@.subrange(c + 1, to as int) =~= hp.skip(c - from + 1));
            match p {
                Some(n) => {
                    assert(v@.subrange(from as int, c as int) =~= hp.take(c - from));
                    (string_of(v, from, c), Some(n))
                },
                None => (string_of(v, from, to), None),
            }
        },
        None => (string_of(v, from, to), None),
    }
}

/// Cuts the text from the path on into path, query and fragment.
fn split_path(pqf: &Vec<char>) -> (r: (String, Option<String>, Option<String>))
    ensures
        r.0@ == path_split(pqf@).0,
        opt_view(r.1) == path_split(pqf@).1,
        opt_view(r.2) == path_split(pqf@).2,
{
    assert(pqf@.skip(0) =~= pqf@);
    let n = pqf.len();
    let (end, fragment) = match find_char(pqf, 0, '#') {
        Some(h) => {
            assert(pqf@.subrange(h + 1, pqf@.len() as int) =~= pqf@.skip(h + 1));
            (h, Some(string_of(pqf, h + 1, n)))
        },
        None => (pqf.len(), None),
    };
    let has_hash = end < pqf.len();
    let pq = head_of(pqf, end);
    assert(pq@ =~= (if first_index_of(pqf@, '#') < 0 {
        pqf@
    } else {
        pqf@.take(first_index_of(pqf@, '#'))
    }));
    assert(pq@.skip(0) =~= pq@);
    match find_char(&pq, 0, '?') {
        Some(q) => {
            assert(pq@.subrange(0, q as int) =~= pq@.take(q as int));
            assert(pq@.subrange(q + 1, pq@.len() as int) =~= pq@.skip(q + 1));
            let path = string_of(&pq, 0, q);
            if has_hash || q + 1 < pq.len() {
                (path, Some(string_of(&pq, q + 1, pq.len())), fragment)
            } else {
                (path, None, fragment)
            }
        },
        None => {
            assert(pq@.subrange(0, pq@.len() as int) =~= pq@);
            (string_of(&pq, 0, pq.len()), None, fragment)
        },
    }
}

/// The characters `v[..to]`.
fn head_of(v: &Vec<char>, to: usize) -> (w: Vec<char>)
    requires
        to <= v@.len(),
    ensures
        w@ == v@.take(to as int),
{
    let mut w: Vec<char> = Vec::new();
    let mut j: usize = 0;
    while j < to
        invariant
            j <= to <= v@.len(),
            w@ == v@.take(j as int),
        decreases to - j,
    {
        w.push(v[j]);
        assert(v@.take(j + 1) =~= v@.take(j as int).push(v@[j as int]));
        j = j + 1;
    }
    w
}

/// The characters `v[from..]`.
fn tail_of(v: &Vec<char>, from: usize) -> (w: Vec<char>)
    requires
        from <= v@.len(),
    ensures
        w@ == v@.skip(from as int),
{
    let mut w: Vec<char> = Vec::new();
    let mut j = from;
    while j < v.len()
        invariant
            from <= j <= v@.len(),
            w@ == v@.subrange(from as int, j as int),
        decreases v@.len() - j,
    {
        w.push(v[j]);
        assert(v@.subrange(from as int, j + 1) =~= v@.subrange(from as int, j as int).push(
            v@[j as int],
        ));
        j = j + 1;
    }
    assert(w@ =~= v@.skip(from as int));
    w
}

/// The port that a scheme uses when none is given.
pub open spec fn default_port_of(s: Seq<char>) -> Option<u16> {
    if s == "http"@ {
        Some(80)
    } else if s == "https"@ {
        Some(443)
    } else if s == "ftp"@ {
        Some(21)
    } else if s == "ssh"@ {
        Some(22)
    } else if s == "telnet"@ {
        Some(23)
    } else if s == "smtp"@ {
        Some(25)
    } else if s == "dns"@ {
        Some(53)
    } else if s == "pop3"@ {
        Some(110)
    } else if s == "nntp"@ {
        Some(119)
    } else if s == "imap"@ {
        Some(143)
    } else if s == "snmp"@ {
        Some(161)
    } else if s == "ldap"@ {
        Some(389)
    } else if s == "smtps"@ {
        Some(465)
    } else if s == "imaps"@ {
        Some(993)
    } else if s == "pop3s"@ {
        Some(995)
    } else {
        None
    }
}

/// Whether the characters `x` spell the text `lit`.
fn eq_lit(x: &Vec<char>, lit: &str) -> (b: bool)
    ensures
        b == (x@ == lit@),
{
    let y = chars_of(lit);
    chars_equal(x, &y)
}

/// URL with parsing and validation
#[derive(Debug, Clone, PartialEq, Eq, Hash)]
pub struct AFNSURL {
    url: String,
    scheme: String,
    host: String,
    port: Option<u16>,
    path: String,
    query: Option<String>,
    fragment: Option<String>,
}

/// The text of an optional string.
pub open spec fn opt_view(o: Option<String>) -> Option<Seq<char>> {
    match o {
        Some(s) => Some(s@),
        None => None,
    }
}

impl AFNSURL {
    /// The URL as it was given.
    pub closed spec fn spec_url(&self) -> Seq<char> {
        self.url@
    }

    /// The pieces of the URL.
    pub closed spec fn parts(&self) -> UrlParts {
        UrlParts {
            scheme: self.scheme@,
            host: self.host@,
            port: self.port,
            path: self.path@,
            query: opt_view(self.query),
            fragment: opt_view(self.fragment),
        }
    }

    /// Create a new URL from a string
    pub fn new(url: String) -> (r: Result<Self, String>)
        ensures
            match url_parts(url@) {
                Some(p) => r matches Ok(u) && u.spec_url() == url@ && u.parts() == p,
                None => r matches Err(m) && m@ == "Invalid URL format: "@ + url@,
            },
    {
        Self::parse(url.as_str())
    }

    /// Parse a URL string
    pub fn parse(url: &str) -> (r: Result<Self, String>)
        ensures
            match url_parts(url@) {
                Some(p) => r matches Ok(u) && u.spec_url() == url@ && u.parts() == p,
                None => r matches Err(m) && m@ == "Invalid URL format: "@ + url@,
            },
    {
        let v = chars_of(url);
        let i = match find_scheme_sep(&v) {
            Some(i) => i,
            None => {
                let mut m = String::from_str("Invalid URL format: ");
                m.append(url);
                return Err(m);
            },
        };
        let ghost s = v@;
        let scheme = string_of(&v, 0, i);
        assert(v@.subrange(0, i as int) =~= s.take(i as int));
        assert(i + 3 <= v.len());
        let rest_start = i + 3;
        let ghost rest = s.skip(rest_start as int);
        let slash = find_char(&v, rest_start, '/');
        let host_end = match slash {
            Some(k) => k,
            None => v.len(),
        };
        assert(s.subrange(rest_start as int, host_end as int) =~= (if first_index_of(rest, '/') < 0 {
            rest
        } else {
            rest.take(first_index_of(rest, '/'))
        }));
        let (host, port) = split_host_port(&v, rest_start, host_end);
        let pqf: Vec<char> = match slash {
            Some(k) => {
                let w = tail_of(&v, k);
                assert(w@ =~= rest.skip(first_index_of(rest, '/')));
                w
            },
            None => {
                let w = vec!['/'];
                assert(w@ =~= "/"@) by {
                    reveal_strlit("/");
                }
                w
            },
        };
        let (path, query, fragment) = split_path(&pqf);
        let u = Self { url: String::from_str(url), scheme, host, port, path, query, fragment };
        assert(u.parts() == url_parts(s).unwrap());
        Ok(u)
    }

    /// Get the full URL as a string
    pub fn to_string(&self) -> (s: String)
        ensures
            s@ == self.spec_url(),
    {
        self.url.clone()
    }

    /// Get the scheme (e.g., http, https)
    pub fn scheme(&self) -> (s: &str)
        ensures
            s@ == self.parts().scheme,
    {
        self.scheme.as_str()
    }

    /// Get the host
    pub fn host(&self) -> (s: &str)
        ensures
            s@ == self.parts().host,
    {
        self.host.as_str()
    }

    /// Get the port
    pub fn port(&self) -> (p: Option<u16>)
        ensures
            p == self.parts().port,
    {
        self.port
    }

    /// Get the path
    pub fn path(&self) -> (s: &str)
        ensures
            s@ == self.parts().path,
    {
        self.path.as_str()
    }

    /// Get the query string
    pub fn query(&self) -> (q: Option<&str>)
        ensures
            match self.parts().query {
                Some(t) => q matches Some(x) && x@ == t,
                None => q is None,
            },
    {
        match &self.query {
            Some(q) => Some(q.as_str()),
            None => None,
        }
    }

    /// Get the fragment
    pub fn fragment(&self) -> (f: Option<&str>)
        ensures
            match self.parts().fragment {
                Some(t) => f matches Some(x) && x@ == t,
                None => f is None,
            },
    {
        match &self.fragment {
            Some(f) => Some(f.as_str()),
            None => None,
        }
    }

    /// Check if the URL is secure (https)
    pub fn is_secure(&self) -> (b: bool)
        ensures
            b == (self.parts().scheme == "https"@),
    {
        let x = chars_of(self.scheme.as_str());
        let y = chars_of("https");
        chars_equal(&x, &y)
    }

    /// Get the default port for the scheme
    pub fn default_port(&self) -> (p: Option<u16>)
        ensures
            p == default_port_of(self.parts().scheme),
    {
        let x = chars_of(self.scheme.as_str());
        if eq_lit(&x, "http") {
            Some(80)
        } else if eq_lit(&x, "https") {
            Some(443)
        } else if eq_lit(&x, "ftp") {
            Some(21)
        } else if eq_lit(&x, "ssh") {
            Some(22)
        } else if eq_lit(&x, "telnet") {
            Some(23)
        } else if eq_lit(&x, "smtp") {
            Some(25)
        } else if eq_lit(&x, "dns") {
            Some(53)
        } else if eq_lit(&x, "pop3") {
            Some(110)
        } else if eq_lit(&x, "nntp") {
            Some(119)
        } else if eq_lit(&x, "imap") {
            Some(143)
        } else if eq_lit(&x, "snmp") {
            Some(161)
        } else if eq_lit(&x, "ldap") {
            Some(389)
        } else if eq_lit(&x, "smtps") {
            Some(465)
        } else if eq_lit(&x, "imaps") {
            Some(993)
        } else if eq_lit(&x, "pop3s") {
            Some(995)
        } else {
            None
        }
    }
}


/// The value of a hexadecimal digit, either case.
pub open spec fn hex_val(c: char) -> Option<u8> {
    if '0' <= c <= '9' {
        Some((c as int - 48) as u8)
    } else if 'a' <= c <= 'f' {
        Some((c as int - 87) as u8)
    } else if 'A' <= c <= 'F' {
        Some((c as int - 55) as u8)
    } else {
        None
    }
}

/// What `u8::from_str_radix(.., 16)` makes of two characters: two hex
/// digits, or '+' and one hex digit.
pub open spec fn hex_pair(a: char, b: char) -> Option<u8> {
    if a == '+' {
        hex_val(b)
    } else {
        match (hex_val(a), hex_val(b)) {
            (Some(x), Some(y)) => Some((x * 16 + y) as u8),
            _ => None,
        }
    }
}

/// Whether a character is kept when a MAC address is cleaned of its
/// separators.
pub open spec fn not_mac_separator(c: char) -> bool {
    c != ':' && c != '-' && c != '.'
}

/// The characters of a MAC address text without ':', '-' and '.'.
pub open spec fn mac_cleaned(s: Seq<char>) -> Seq<char> {
    s.filter(|c: char| not_mac_separator(c))
}

/// Whether the first `k` character pairs of `c` all parse as hex bytes.
pub open spec fn pairs_parse(c: Seq<char>, k: int) -> bool {
    forall|i: int| 0 <= i < k ==> (#[trigger] hex_pair(c[2 * i], c[2 * i + 1])) is Some
}

/// The text on which the parse of a MAC address would stop on a half pair:
/// twelve bytes of UTF-8, an odd number of characters, and every full pair
/// before the last character parsing.
pub open spec fn mac_text_stops(s: Seq<char>) -> bool {
    let c = mac_cleaned(s);
    encode_utf8(c).len() == 12 && c.len() % 2 == 1 && pairs_parse(c, (c.len() - 1) / 2)
}

/// The six bytes of a MAC address text, when it has them: once cleaned it
/// is twelve characters, in six pairs that each parse as a hex byte.
pub open spec fn mac_bytes_of(s: Seq<char>) -> Option<Seq<u8>> {
    let c = mac_cleaned(s);
    if encode_utf8(c).len() == 12 && c.len() == 12 && pairs_parse(c, 6) {
        Some(Seq::new(6, |i: int| hex_pair(c[2 * i], c[2 * i + 1]).unwrap()))
    } else {
        None
    }
}

proof fn lemma_hex_pair_ascii(a: char, b: char)
    requires
        hex_pair(a, b) is Some,
    ensures
        '\0' <= a <= '\u{7f}',
        '\0' <= b <= '\u{7f}',
{
}

/// Every character takes at least one byte in UTF-8.
proof fn lemma_encode_len_at_least(s: Seq<char>)
    ensures
        encode_utf8(s).len() >= s.len(),
    decreases s.len(),
{
    if s.len() > 0 {
        lemma_encode_len_at_least(s.drop_first());
        assert(vstd::utf8::encode_scalar(s[0] as u32).len() >= 1);
    }
}

/// The lowercase hexadecimal digit for a value below 16.
pub open spec fn hex_digit_char(d: int) -> char {
    if d < 10 {
        (48 + d) as char
    } else {
        (87 + d) as char
    }
}

/// A byte as two lowercase hex digits.
pub open spec fn hex_byte(b: u8) -> Seq<char> {
    seq![hex_digit_char(b as int / 16), hex_digit_char(b as int % 16)]
}

/// The colon-separated lowercase hex text of six bytes.
pub open spec fn mac_text(b: Seq<u8>) -> Seq<char> {
    hex_byte(b[0]) + ":"@ + hex_byte(b[1]) + ":"@ + hex_byte(b[2]) + ":"@ + hex_byte(b[3]) + ":"@
        + hex_byte(b[4]) + ":"@ + hex_byte(b[5])
}

/// Filtering keeps a sequence whole when every element passes.
proof fn lemma_filter_keeps_all(s: Seq<char>, pred: spec_fn(char) -> bool)
    requires
        forall|i: int| 0 <= i < s.len() ==> pred(#[trigger] s[i]),
    ensures
        s.filter(pred) == s,
    decreases s.len(),
{
    reveal(Seq::filter);
    if s.len() > 0 {
        lemma_filter_keeps_all(s.drop_last(), pred);
        assert(s.drop_last().push(s.last()) =~= s);
    } else {
        assert(s =~= Seq::<char>::empty());
    }
}

/// Text of ASCII characters takes one UTF-8 byte per character.
proof fn lemma_encode_ascii_len(s: Seq<char>)
    requires
        forall|i: int| 0 <= i < s.len() ==> (#[trigger] s[i] as u32) <= 0x7f,
    ensures
        encode_utf8(s).len() == s.len(),
    decreases s.len(),
{
    if s.len() > 0 {
        let t = s.drop_first();
        assert forall|i: int| 0 <= i < t.len() implies (#[trigger] t[i] as u32) <= 0x7f by {
            assert(t[i] == s[i + 1]);
        }
        lemma_encode_ascii_len(t);
        assert(vstd::utf8::has_width_1_encoding(s[0] as u32));
    }
}

/// A digit written by `hex_digit_char` reads back as its value.
proof fn lemma_hex_digit_round_trip(d: int)
    requires
        0 <= d < 16,
    ensures
        hex_val(hex_digit_char(d)) == Some(d as u8),
        hex_digit_char(d) != '+' && not_mac_separator(hex_digit_char(d)),
        (hex_digit_char(d) as u32) <= 0x7f,
{
}

/// A byte written as two hex digits reads back as that byte.
proof fn lemma_hex_byte_round_trip(b: u8)
    ensures
        hex_byte(b).len() == 2,
        hex_pair(hex_byte(b)[0], hex_byte(b)[1]) == Some(b),
{
    let x = b as int / 16;
    let y = b as int % 16;
    lemma_hex_digit_round_trip(x);
    lemma_hex_digit_round_trip(y);
    assert(x * 16 + y == b as int);
}

/// The text of a MAC address reads back as the same six bytes: the parse
/// does not stop on it, and the bytes it gives are the address's own.
pub proof fn lemma_mac_text_round_trip(b: Seq<u8>)
    requires
        b.len() == 6,
    ensures
        !mac_text_stops(mac_text(b)),
        mac_bytes_of(mac_text(b)) == Some(b),
{
    let pred = |c: char| not_mac_separator(c);
    let colon = ":"@;
    reveal_strlit(":");
    assert(colon.filter(pred) =~= Seq::<char>::empty()) by {
        reveal(Seq::filter);
        assert(colon.drop_last() =~= Seq::<char>::empty());
        assert(Seq::<char>::empty().filter(pred) =~= Seq::<char>::empty());
    }
    let c = Seq::new(12, |k: int| hex_byte(b[k / 2])[k % 2]);
    assert forall|i: int| 0 <= i < 6 implies #[trigger] hex_byte(b[i]).filter(pred) == hex_byte(b[i]) by {
        lemma_hex_digit_round_trip(b[i] as int / 16);
        lemma_hex_digit_round_trip(b[i] as int % 16);
        lemma_filter_keeps_all(hex_byte(b[i]), pred);
    }
    broadcast use Seq::filter_distributes_over_add;
    assert(mac_text(b).filter(pred) == hex_byte(b[0]) + hex_byte(b[1]) + hex_byte(b[2]) + hex_byte(b[3])
        + hex_byte(b[4]) + hex_byte(b[5]));
    assert(mac_cleaned(mac_text(b)) =~= c);
    assert forall|k: int| 0 <= k < 12 implies (#[trigger] c[k] as u32) <= 0x7f by {
        lemma_hex_digit_round_trip(b[k / 2] as int / 16);
        lemma_hex_digit_round_trip(b[k / 2] as int % 16);
    }
    lemma_encode_ascii_len(c);
    assert forall|i: int| 0 <= i < 6 implies (#[trigger] hex_pair(c[2 * i], c[2 * i + 1])) == Some(b[i]) by {
        lemma_hex_byte_round_trip(b[i]);
        assert(c[2 * i] == hex_byte(b[i])[0]);
        assert(c[2 * i + 1] == hex_byte(b[i])[1]);
    }
    assert(pairs_parse(c, 6));
    assert(Seq::new(6, |i: int| hex_pair(c[2 * i], c[2 * i + 1]).unwrap()) =~= b);
}

fn hex_value(c: char) -> (r: Option<u8>)
    ensures
        r == hex_val(c),
{
    if '0' <= c && c <= '9' {
        Some(((c as u32) - 48) as u8)
    } else if 'a' <= c && c <= 'f' {
        Some(((c as u32) - 87) as u8)
    } else if 'A' <= c && c <= 'F' {
        Some(((c as u32) - 55) as u8)
    } else {
        None
    }
}

fn parse_hex_pair(a: char, b: char) -> (r: Option<u8>)
    ensures
        r == hex_pair(a, b),
{
    if a == '+' {
        hex_value(b)
    } else {
        match (hex_value(a), hex_value(b)) {
            (Some(x), Some(y)) => Some(x * 16 + y),
            _ => None,
        }
    }
}

fn hex_char(d: u8) -> (c: char)
    requires
        d < 16,
    ensures
        c == hex_digit_char(d as int),
{
    if d < 10 {
        ((48 + d) as u8) as char
    } else {
        ((87 + d) as u8) as char
    }
}

fn push_hex_byte(s: &mut String, b: u8)
    ensures
        final(s)@ == old(s)@ + hex_byte(b),
{
    push_char(s, hex_char(b / 16));
    push_char(s, hex_char(b % 16));
    assert(final(s)@ =~= old(s)@ + hex_byte(b));
}

/// MAC address
#[derive(Debug, Clone, PartialEq, Eq, Hash)]
pub struct AFNSMACAddress {
    bytes: [u8; 6],
}

impl View for AFNSMACAddress {
    type V = Seq<u8>;

    closed spec fn view(&self) -> Seq<u8> {
        self.bytes@
    }
}

impl AFNSMACAddress {
    /// Create a new MAC address from bytes
    pub fn new(bytes: [u8; 6]) -> (m: Self)
        ensures
            m@ == bytes@,
    {
        Self { bytes }
    }

    /// Create a MAC address from a string: separators ':', '-' and '.' are
    /// dropped, and the rest must be six pairs of hex digits
    pub fn from_string(s: &str) -> (r: Result<Self, String>)
        requires
            !mac_text_stops(s@),
        ensures
            match mac_bytes_of(s@) {
                Some(b) => r matches Ok(m) && m@ == b,
                None => r matches Err(e) && e@ == (if encode_utf8(mac_cleaned(s@)).len() != 12 {
                    "Invalid MAC address format: "@ + s@
                } else {
                    "Invalid hex in MAC address: "@ + s@
                }),
            },
    {
        let v = chars_of(s);
        let mut c: Vec<char> = Vec::new();
        let mut i: usize = 0;
        while i < v.len()
            invariant
                i <= v@.len(),
                v@ == s@,
                c@ == v@.take(i as int).filter(|c: char| not_mac_separator(c)),
            decreases v@.len() - i,
        {
            let ghost before = c@;
            proof {
                reveal_with_fuel(Seq::filter, 1);
                assert(v@.take(i + 1).drop_last() =~= v@.take(i as int));
            }
            if v[i] != ':' && v[i] != '-' && v[i] != '.' {
                c.push(v[i]);
            }
            i = i + 1;
        }
        assert(v@.take(i as int) =~= v@);
        if crate::text::utf8_len_capped(&c, 13) != 12 {
            let mut e = String::from_str("Invalid MAC address format: ");
            e.append(s);
            return Err(e);
        }
        assert(encode_utf8(c@).len() == 12);
        let mut out: Vec<u8> = Vec::new();
        let mut k: usize = 0;
        while k < 6 && 2 * k < c.len()
            invariant
                k <= 6,
                2 * k <= c@.len(),
                out@.len() == k,
                pairs_parse(c@, k as int),
                forall|j: int| 0 <= j < k ==> out@[j] == hex_pair(c@[2 * j], c@[2 * j + 1]).unwrap(),
                c@ == mac_cleaned(s@),
                encode_utf8(c@).len() == 12,
                !mac_text_stops(s@),
            decreases 6 - k,
        {
            if 2 * k + 1 >= c.len() {
                assert(c@.len() % 2 == 1);
                assert((c@.len() - 1) / 2 == k);
                assert(false);
            }
            match parse_hex_pair(c[2 * k], c[2 * k + 1]) {
                Some(b) => {
                    out.push(b);
                    proof {
                        assert forall|j: int| 0 <= j < k + 1 implies (#[trigger] hex_pair(
                            c@[2 * j],
                            c@[2 * j + 1],
                        )) is Some by {}
                    }
                },
                None => {
                    let mut e = String::from_str("Invalid hex in MAC address: ");
                    e.append(s);
                    proof {
                        assert(!pairs_parse(c@, 6) || c@.len() != 12);
                    }
                    return Err(e);
                },
            }
            k = k + 1;
        }
        proof {
            lemma_encode_len_at_least(c@);
            if k < 6 {
                // the pairs ran out early: every character lies in a pair that
                // parsed, so all are ASCII and the text has twelve of them
                assert forall|j: int| 0 <= j < c@.len() implies '\0' <= #[trigger] c@[j]
                    <= '\u{7f}' by {
                    let p = j / 2;
                    assert(0 <= p < k);
                    assert(hex_pair(c@[2 * p], c@[2 * p + 1]) is Some);
                    lemma_hex_pair_ascii(c@[2 * p], c@[2 * p + 1]);
                }
                vstd::utf8::is_ascii_chars_encode_utf8(c@);
                assert(false);
            }
        }
        let bytes = [out[0], out[1], out[2], out[3], out[4], out[5]];
        let m = Self { bytes };
        assert(m@ =~= mac_bytes_of(s@).unwrap());
        Ok(m)
    }

    /// Get the MAC address as a string
    pub fn to_string(&self) -> (s: String)
        ensures
            s@ == mac_text(self@),
    {
        let mut s = String::new();
        push_hex_byte(&mut s, self.bytes[0]);
        s.append(":");
        push_hex_byte(&mut s, self.bytes[1]);
        s.append(":");
        push_hex_byte(&mut s, self.bytes[2]);
        s.append(":");
        push_hex_byte(&mut s, self.bytes[3]);
        s.append(":");
        push_hex_byte(&mut s, self.bytes[4]);
        s.append(":");
        push_hex_byte(&mut s, self.bytes[5]);
        s
    }

    /// Get the MAC address as bytes
    pub fn as_bytes(&self) -> (b: [u8; 6])
        ensures
            b@ == self@,
    {
        self.bytes
    }

    /// Check if the MAC address is a broadcast address
    pub fn is_broadcast(&self) -> (b: bool)
        ensures
            b == (forall|i: int| 0 <= i < 6 ==> self@[i] == 0xFF),
    {
        let r = self.bytes[0] == 0xFF && self.bytes[1] == 0xFF && self.bytes[2] == 0xFF
            && self.bytes[3] == 0xFF && self.bytes[4] == 0xFF && self.bytes[5] == 0xFF;
        proof {
            if !r {
                assert(exists|i: int| 0 <= i < 6 && self@[i] != 0xFF) by {
                    if self@[0] != 0xFF {
                        assert(self@[0] != 0xFF);
                    } else if self@[1] != 0xFF {
                        assert(self@[1] != 0xFF);
                    } else if self@[2] != 0xFF {
                        assert(self@[2] != 0xFF);
                    } else if self@[3] != 0xFF {
                        assert(self@[3] != 0xFF);
                    } else if self@[4] != 0xFF {
                        assert(self@[4] != 0xFF);
                    } else {
                        assert(self@[5] != 0xFF);
                    }
                }
            }
        }
        r
    }

    /// Check if the MAC address is a multicast address (lowest bit of the
    /// first byte set)
    pub fn is_multicast(&self) -> (b: bool)
        ensures
            b == (self@[0] % 2 == 1),
    {
        let x = self.bytes[0];
        assert((x & 1 != 0) == (x % 2 == 1)) by (bit_vector);
        x & 0x01 != 0
    }

    /// Check if the MAC address is a unicast address
    pub fn is_unicast(&self) -> (b: bool)
        ensures
            b == (self@[0] % 2 == 0),
    {
        !self.is_multicast()
    }

    /// Check if the MAC address is locally administered (second lowest
    /// bit of the first byte set)
    pub fn is_locally_administered(&self) -> (b: bool)
        ensures
            b == ((self@[0] / 2) % 2 == 1),
    {
        let x = self.bytes[0];
        assert((x & 2 != 0) == ((x / 2) % 2 == 1)) by (bit_vector);
        x & 0x02 != 0
    }

    /// Check if the MAC address is universally administered
    pub fn is_universally_administered(&self) -> (b: bool)
        ensures
            b == ((self@[0] / 2) % 2 == 0),
    {
        !self.is_locally_administered()
    }
}

} // verus!
