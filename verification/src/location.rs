//! The pieces of a URL that `location` reports separately, and the URL that
//! assigning `location.hash` asks to navigate to.
use vstd::prelude::*;

use crate::chars::{
    concat, find_char, first_index_of, lemma_first_index_of, lemma_first_index_of_concat, is_ascii_digit, owned, push_char, rsplit_once, rsplit_once_seq, split_once,
    split_once_seq, starts_with_seq, substring,
};

verus! {

/// The pieces of a URL `location` reports separately.
pub struct UrlParts {
    pub protocol: String,
    pub host: String,
    pub hostname: String,
    pub port: String,
    pub pathname: String,
    pub search: String,
    pub hash: String,
}

/// [`UrlParts`] as character sequences.
pub struct UrlPartsView {
    pub protocol: Seq<char>,
    pub host: Seq<char>,
    pub hostname: Seq<char>,
    pub port: Seq<char>,
    pub pathname: Seq<char>,
    pub search: Seq<char>,
    pub hash: Seq<char>,
}

impl View for UrlParts {
    type V = UrlPartsView;

    open spec fn view(&self) -> UrlPartsView {
        UrlPartsView {
            protocol: self.protocol@,
            host: self.host@,
            hostname: self.hostname@,
            port: self.port@,
            pathname: self.pathname@,
            search: self.search@,
            hash: self.hash@,
        }
    }
}

/// The scheme, and what follows its colon (the whole URL when there is no
/// colon).
pub open spec fn scheme_and_rest(url: Seq<char>) -> (Seq<char>, Seq<char>) {
    match split_once_seq(url, ':') {
        Some((scheme, rest)) => (scheme, rest),
        None => (Seq::empty(), url),
    }
}

/// What follows the scheme, without a leading `//`.
pub open spec fn after_scheme(url: Seq<char>) -> Seq<char> {
    let rest = scheme_and_rest(url).1;
    if starts_with_seq(rest, seq!['/', '/']) {
        rest.skip(2)
    } else {
        rest
    }
}

/// The URL before its `#`, and the fragment with its `#`.
pub open spec fn fragment_split(url: Seq<char>) -> (Seq<char>, Seq<char>) {
    match split_once_seq(after_scheme(url), '#') {
        Some((rest, hash)) => (rest, seq!['#'] + hash),
        None => (after_scheme(url), Seq::empty()),
    }
}

/// What precedes the `?`, and the query with its `?`.
pub open spec fn query_split(url: Seq<char>) -> (Seq<char>, Seq<char>) {
    let rest = fragment_split(url).0;
    match split_once_seq(rest, '?') {
        Some((rest, search)) => (rest, seq!['?'] + search),
        None => (rest, Seq::empty()),
    }
}

/// Does the URL hold `//` anywhere?
pub open spec fn has_double_slash(url: Seq<char>) -> bool {
    exists|i: int| 0 <= i < url.len() - 1 && #[trigger] url[i] == '/' && url[i + 1] == '/'
}

/// The authority and the path of a hierarchical URL.
pub open spec fn authority_split(url: Seq<char>) -> (Seq<char>, Seq<char>) {
    let rest = query_split(url).0;
    match split_once_seq(rest, '/') {
        Some((authority, path)) => (authority, seq!['/'] + path),
        None => (rest, seq!['/']),
    }
}

pub open spec fn all_digits(s: Seq<char>) -> bool {
    forall|i: int| 0 <= i < s.len() ==> is_ascii_digit(#[trigger] s[i])
}

/// The host name and the port of an authority: the port is what follows the
/// last `:`, when that is all digits.
pub open spec fn host_and_port(authority: Seq<char>) -> (Seq<char>, Seq<char>) {
    match rsplit_once_seq(authority, ':') {
        Some((host, port)) => if all_digits(port) {
            (host, port)
        } else {
            (authority, Seq::empty())
        },
        None => (authority, Seq::empty()),
    }
}

/// The pieces of `url`.
pub open spec fn url_parts_of(url: Seq<char>) -> UrlPartsView {
    let scheme = scheme_and_rest(url).0;
    let protocol = if scheme.len() == 0 {
        Seq::empty()
    } else {
        scheme.push(':')
    };
    if has_double_slash(url) {
        let authority = authority_split(url).0;
        UrlPartsView {
            protocol,
            host: authority,
            hostname: host_and_port(authority).0,
            port: host_and_port(authority).1,
            pathname: authority_split(url).1,
            search: query_split(url).1,
            hash: fragment_split(url).1,
        }
    } else {
        // Only a hierarchical URL has an authority; `about:home` is all path.
        UrlPartsView {
            protocol,
            host: Seq::empty(),
            hostname: Seq::empty(),
            port: Seq::empty(),
            pathname: query_split(url).0,
            search: query_split(url).1,
            hash: fragment_split(url).1,
        }
    }
}

/// The origin of `url`: `null` without an authority.
pub open spec fn origin_seq(url: Seq<char>) -> Seq<char> {
    let parts = url_parts_of(url);
    if parts.host.len() == 0 {
        seq!['n', 'u', 'l', 'l']
    } else {
        parts.protocol + seq!['/', '/'] + parts.host
    }
}

/// `url` up to its first `#`.
pub open spec fn without_fragment(url: Seq<char>) -> Seq<char> {
    match split_once_seq(url, '#') {
        Some((base, _)) => base,
        None => url,
    }
}

/// The URL `location.hash = fragment` navigates to.
pub open spec fn with_fragment(url: Seq<char>, fragment: Seq<char>) -> Seq<char> {
    if fragment.len() > 0 && fragment[0] == '#' {
        without_fragment(url) + fragment
    } else {
        without_fragment(url) + seq!['#'] + fragment
    }
}

fn contains_double_slash(url: &str) -> (r: bool)
    ensures
        r == has_double_slash(url@),
{
    let n = url.unicode_len();
    let mut i: usize = 0;
    while i < n && i + 1 < n
        invariant
            n == url@.len(),
            i <= n,
            forall|j: int| 0 <= j < i && j < n - 1 ==> !(#[trigger] url@[j] == '/' && url@[j + 1] == '/'),
        decreases n - i,
    {
        if url.get_char(i) == '/' && url.get_char(i + 1) == '/' {
            return true;
        }
        i = i + 1;
    }
    false
}

pub(crate) fn is_all_digits(s: &str) -> (r: bool)
    ensures
        r == all_digits(s@),
{
    let n = s.unicode_len();
    let mut i: usize = 0;
    while i < n
        invariant
            n == s@.len(),
            i <= n,
            forall|j: int| 0 <= j < i ==> is_ascii_digit(#[trigger] s@[j]),
        decreases n - i,
    {
        let c = s.get_char(i);
        if !('0' <= c && c <= '9') {
            return false;
        }
        i = i + 1;
    }
    true
}

/// `c` followed by `s`.
fn prefixed(c: char, s: &str) -> (r: String)
    ensures
        r@ == seq![c] + s@,
{
    let mut out = String::new();
    push_char(&mut out, c);
    out.append(s);
    assert(out@ =~= seq![c] + s@);
    out
}

impl UrlParts {
    /// Splits `url` into the pieces `location` reports.
    pub fn parse(url: &str) -> (parts: UrlParts)
        ensures
            parts@ == url_parts_of(url@),
    {
        let (scheme, rest) = match split_once(url, ':') {
            Some((scheme, rest)) => (scheme, rest),
            None => (String::new(), owned(url)),
        };
        let protocol = if scheme.unicode_len() == 0 {
            String::new()
        } else {
            let mut p = scheme;
            push_char(&mut p, ':');
            p
        };
        let rest_len = rest.unicode_len();
        let rest = if rest_len >= 2 && rest.get_char(0) == '/' && rest.get_char(1) == '/' {
            assert(rest@.take(2) =~= seq!['/', '/']);
            substring(rest.as_str(), 2, rest_len)
        } else {
            proof {
                if starts_with_seq(rest@, seq!['/', '/']) {
                    assert(rest@.take(2)[0] == '/');
                    assert(rest@.take(2)[1] == '/');
                }
            }
            rest
        };
        assert(rest@ == after_scheme(url@));
        let (rest, hash) = match split_once(rest.as_str(), '#') {
            Some((rest, hash)) => (rest, prefixed('#', hash.as_str())),
            None => (rest, String::new()),
        };
        let (rest, search) = match split_once(rest.as_str(), '?') {
            Some((rest, search)) => (rest, prefixed('?', search.as_str())),
            None => (rest, String::new()),
        };
        if contains_double_slash(url) {
            let (authority, path) = match split_once(rest.as_str(), '/') {
                Some((authority, path)) => (authority, prefixed('/', path.as_str())),
                None => {
                    let mut slash = String::new();
                    push_char(&mut slash, '/');
                    (rest, slash)
                },
            };
            let (hostname, port) = match rsplit_once(authority.as_str(), ':') {
                Some((host, port)) => if is_all_digits(port.as_str()) {
                    (host, port)
                } else {
                    (owned(authority.as_str()), String::new())
                },
                None => (owned(authority.as_str()), String::new()),
            };
            UrlParts { protocol, host: authority, hostname, port, pathname: path, search, hash }
        } else {
            UrlParts {
                protocol,
                host: String::new(),
                hostname: String::new(),
                port: String::new(),
                pathname: rest,
                search,
                hash,
            }
        }
    }
}

/// The origin `location.origin` reports: the scheme and the authority, or
/// `null` for a URL without an authority.
pub fn origin_of(url: &str) -> (r: String)
    ensures
        r@ == origin_seq(url@),
{
    let parts = UrlParts::parse(url);
    if parts.host.unicode_len() == 0 {
        let mut null = String::new();
        push_char(&mut null, 'n');
        push_char(&mut null, 'u');
        push_char(&mut null, 'l');
        push_char(&mut null, 'l');
        return null;
    }
    let mut out = parts.protocol;
    push_char(&mut out, '/');
    push_char(&mut out, '/');
    out.append(parts.host.as_str());
    assert(out@ =~= origin_seq(url@));
    out
}

/// The URL that assigning `fragment` to `location.hash` navigates to: the
/// current URL with its fragment replaced.
pub fn location_with_hash(url: &str, fragment: &str) -> (r: String)
    ensures
        r@ == with_fragment(url@, fragment@),
{
    let base = match split_once(url, '#') {
        Some((base, _)) => base,
        None => owned(url),
    };
    if fragment.unicode_len() > 0 && fragment.get_char(0) == '#' {
        concat(base.as_str(), fragment)
    } else {
        let mut out = base;
        push_char(&mut out, '#');
        out.append(fragment);
        out
    }
}

/// After `location.hash = fragment` the location reports that fragment as
/// its hash, with one leading `#`, for a URL whose scheme comes before any
/// `#`.
pub proof fn lemma_hash_reads_back(url: Seq<char>, fragment: Seq<char>)
    requires
        without_fragment(url).contains(':'),
    ensures
        url_parts_of(with_fragment(url, fragment)).hash == if fragment.len() > 0 && fragment[0] == '#' {
            fragment
        } else {
            seq!['#'] + fragment
        },
{
    let base = without_fragment(url);
    lemma_first_index_of(url, '#');
    assert(!base.contains('#')) by {
        if let Some(k) = first_index_of(url, '#') {
            assert(base == url.take(k));
        }
    }
    let tail = if fragment.len() > 0 && fragment[0] == '#' {
        fragment
    } else {
        seq!['#'] + fragment
    };
    assert(tail[0] == '#');
    let new_url = with_fragment(url, fragment);
    assert(new_url == base + tail);
    lemma_first_index_of_concat(base, tail, ':');
    lemma_first_index_of(base, ':');
    let i = first_index_of(base, ':')->0;
    assert(scheme_and_rest(new_url).1 =~= base.skip(i + 1) + tail);
    let a0 = base.skip(i + 1);
    let rest = a0 + tail;
    let a = if starts_with_seq(rest, seq!['/', '/']) {
        assert(rest.take(2)[0] == '/' && rest.take(2)[1] == '/');
        if a0.len() == 0 {
            assert(rest[0] == tail[0]);
        } else if a0.len() == 1 {
            assert(rest[1] == tail[0]);
        }
        a0.skip(2)
    } else {
        a0
    };
    assert(after_scheme(new_url) =~= a + tail);
    assert(!a.contains('#')) by {
        if a.contains('#') {
            let j = choose|j: int| 0 <= j < a.len() && a[j] == '#';
            if starts_with_seq(rest, seq!['/', '/']) {
                assert(base[i + 1 + 2 + j] == '#');
            } else {
                assert(base[i + 1 + j] == '#');
            }
        }
    }
    lemma_first_index_of_concat(a, tail, '#');
    assert(first_index_of(tail, '#') == Some(0int));
    assert((a + tail).skip(a.len() + 1int) =~= tail.skip(1));
    assert(seq!['#'] + tail.skip(1) =~= tail);
}

proof fn lemma_lacks_concat(x: Seq<char>, y: Seq<char>, c: char)
    requires
        !x.contains(c),
        !y.contains(c),
    ensures
        !(x + y).contains(c),
{
    if (x + y).contains(c) {
        let j = choose|j: int| 0 <= j < (x + y).len() && (x + y)[j] == c;
        if j < x.len() {
            assert(x[j] == c);
        } else {
            assert(y[j - x.len()] == c);
        }
    }
}

/// Splitting `x + y` at the first `c`, where `x` holds none and `y` is empty
/// or starts with `c`.
proof fn lemma_split_once_at_join(x: Seq<char>, y: Seq<char>, c: char)
    requires
        !x.contains(c),
        y.len() == 0 || y[0] == c,
    ensures
        split_once_seq(x + y, c) == if y.len() == 0 {
            None::<(Seq<char>, Seq<char>)>
        } else {
            Some((x, y.skip(1)))
        },
{
    lemma_first_index_of_concat(x, y, c);
    lemma_first_index_of(x + y, c);
    if y.len() == 0 {
        assert(x + y =~= x);
        lemma_first_index_of(x, c);
    } else {
        assert(first_index_of(y, c) == Some(0int));
        assert((x + y).take(x.len() as int) =~= x);
        assert((x + y).skip(x.len() + 1int) =~= y.skip(1));
    }
}

/// The pieces of a hierarchical URL `s://a p q h` are those pieces: the
/// scheme with its colon, the authority (split into host name and port at
/// its last colon when what follows is all digits), the path, the query
/// with its `?` and the fragment with its `#`.
pub proof fn lemma_url_shape(s: Seq<char>, a: Seq<char>, p: Seq<char>, q: Seq<char>, h: Seq<char>)
    requires
        s.len() > 0,
        !s.contains(':'),
        !s.contains('/'),
        !s.contains('?'),
        !s.contains('#'),
        !a.contains('/'),
        !a.contains('?'),
        !a.contains('#'),
        p.len() > 0 && p[0] == '/',
        !p.contains('?'),
        !p.contains('#'),
        q.len() == 0 || q[0] == '?',
        !q.contains('#'),
        h.len() == 0 || h[0] == '#',
    ensures
        url_parts_of(s + seq![':', '/', '/'] + a + p + q + h) == (UrlPartsView {
            protocol: s.push(':'),
            host: a,
            hostname: host_and_port(a).0,
            port: host_and_port(a).1,
            pathname: p,
            search: q,
            hash: h,
        }),
{
    let url = s + seq![':', '/', '/'] + a + p + q + h;
    let body = a + p + q + h;
    let rest = seq!['/', '/'] + body;
    let tail = seq![':'] + rest;
    assert(url =~= s + tail);
    // The scheme.
    lemma_split_once_at_join(s, tail, ':');
    assert(tail.skip(1) =~= rest);
    assert(scheme_and_rest(url) == (s, rest));
    // Hierarchical.
    assert(url[s.len() as int + 1] == '/' && url[s.len() as int + 2] == '/');
    assert(has_double_slash(url));
    assert(starts_with_seq(rest, seq!['/', '/'])) by {
        assert(rest.take(2) =~= seq!['/', '/']);
    }
    assert(rest.skip(2) =~= body);
    assert(after_scheme(url) == body);
    // The fragment.
    let ap = a + p;
    let apq = ap + q;
    lemma_lacks_concat(a, p, '#');
    lemma_lacks_concat(ap, q, '#');
    assert(body =~= apq + h);
    lemma_split_once_at_join(apq, h, '#');
    if h.len() > 0 {
        assert(seq!['#'] + h.skip(1) =~= h);
    } else {
        assert(apq + h =~= apq);
    }
    assert(fragment_split(url) == (apq, h));
    // The query.
    lemma_lacks_concat(a, p, '?');
    lemma_split_once_at_join(ap, q, '?');
    if q.len() > 0 {
        assert(seq!['?'] + q.skip(1) =~= q);
    } else {
        assert(ap + q =~= ap);
    }
    assert(query_split(url) == (ap, q));
    // The authority and the path.
    lemma_split_once_at_join(a, p, '/');
    assert(seq!['/'] + p.skip(1) =~= p);
    assert(authority_split(url) == (a, p));
    assert(s.push(':') =~= s.push(':'));
}

} // verus!
