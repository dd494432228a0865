//! Turning what was typed into the address bar into a URL: an address when it
//! parses as one, a bare host when it looks like one, and otherwise a search.
use vstd::prelude::*;

use crate::chars::{concat, push_char, trim, trim_seq};
use vstd::string::StringSliceAdditionalSpecFns;
use vstd::utf8::encode_utf8;

verus! {

/// The `url` crate's reading of `input` as an absolute URL: the serialised URL,
/// or the message of the error it reports.
pub uninterp spec fn parsed_url(input: Seq<char>) -> Result<Seq<char>, Seq<char>>;

/// Calls `url::Url::parse` on `input`.
///
/// The contract claims only that the outcome is a function of `input`, named
/// [`parsed_url`]: the serialised URL (`Url::as_str`) on success, the error's
/// `Display` text on failure. What the parser accepts is not stated.
#[verifier::external_body]
fn parse_url(input: &str) -> (r: Result<String, String>)
    ensures
        match r {
            Ok(url) => parsed_url(input@) == Ok::<Seq<char>, Seq<char>>(url@),
            Err(message) => parsed_url(input@) == Err::<Seq<char>, Seq<char>>(message@),
        },
{
    match url::Url::parse(input) {
        Ok(url) => Ok(url.as_str().to_string()),
        Err(error) => Err(error.to_string()),
    }
}

/// Why an input could not be turned into an address.
#[derive(Clone, Debug, PartialEq, Eq)]
pub enum NavigationError {
    BadAddress(String),
}

/// Is `b` left as it is by percent-encoding?
pub open spec fn is_unreserved(b: u8) -> bool {
    ||| ('A' as u8 <= b && b <= 'Z' as u8)
    ||| ('a' as u8 <= b && b <= 'z' as u8)
    ||| ('0' as u8 <= b && b <= '9' as u8)
    ||| b == '-' as u8
    ||| b == '_' as u8
    ||| b == '.' as u8
    ||| b == '~' as u8
}

/// An upper-case hexadecimal digit.
pub open spec fn hex_digit(d: u8) -> char {
    if d < 10 {
        (('0' as u8) + d) as char
    } else {
        (('A' as u8) + d - 10) as char
    }
}

/// One byte of a search term as it appears in a query string.
pub open spec fn encode_byte(b: u8) -> Seq<char> {
    if is_unreserved(b) {
        seq![b as char]
    } else if b == ' ' as u8 {
        seq!['+']
    } else {
        seq!['%', hex_digit(b / 16), hex_digit(b % 16)]
    }
}

/// Every byte encoded in turn.
pub open spec fn percent_encode_seq(bytes: Seq<u8>) -> Seq<char>
    decreases bytes.len(),
{
    if bytes.len() == 0 {
        Seq::empty()
    } else {
        percent_encode_seq(bytes.drop_last()) + encode_byte(bytes.last())
    }
}

/// A character that stands for itself in a query string.
pub open spec fn is_query_safe(c: char) -> bool {
    ||| ('A' <= c && c <= 'Z')
    ||| ('a' <= c && c <= 'z')
    ||| ('0' <= c && c <= '9')
    ||| c == '-' || c == '_' || c == '.' || c == '~' || c == '+' || c == '%'
}

/// An encoded search term holds only characters that stand for themselves
/// in a query string: letters, digits, `-_.~`, and the `+` and `%` of the
/// encoding, so nothing in it can end the query or start a fragment.
pub proof fn lemma_encoding_is_query_safe(bytes: Seq<u8>)
    ensures
        forall|i: int| 0 <= i < percent_encode_seq(bytes).len() ==> is_query_safe(#[trigger] percent_encode_seq(bytes)[i]),
    decreases bytes.len(),
{
    if bytes.len() > 0 {
        let prev = percent_encode_seq(bytes.drop_last());
        let b = bytes.last();
        lemma_encoding_is_query_safe(bytes.drop_last());
        let e = encode_byte(b);
        assert forall|j: int| 0 <= j < e.len() implies is_query_safe(#[trigger] e[j]) by {
            if !is_unreserved(b) && b != ' ' as u8 {
                assert(b / 16 < 16);
                assert(b % 16 < 16);
            }
        }
        assert forall|i: int| 0 <= i < percent_encode_seq(bytes).len() implies is_query_safe(
            #[trigger] percent_encode_seq(bytes)[i],
        ) by {
            if i < prev.len() {
                assert(percent_encode_seq(bytes)[i] == prev[i]);
            } else {
                assert(percent_encode_seq(bytes)[i] == e[i - prev.len()]);
            }
        }
    }
}

/// The value of an upper-case hexadecimal digit.
pub open spec fn hex_value(c: char) -> int {
    if '0' <= c && c <= '9' {
        c as int - '0' as int
    } else if 'A' <= c && c <= 'F' {
        c as int - 'A' as int + 10
    } else {
        0
    }
}

/// Reading a query-string encoding back into bytes: `+` is a space, `%HH`
/// the byte `HH`, any other character its own code.
pub open spec fn percent_decode_seq(s: Seq<char>) -> Seq<u8>
    decreases s.len(),
{
    if s.len() == 0 {
        Seq::empty()
    } else if s[0] == '+' {
        seq![32u8] + percent_decode_seq(s.drop_first())
    } else if s[0] == '%' && s.len() >= 3 {
        seq![(hex_value(s[1]) * 16 + hex_value(s[2])) as u8] + percent_decode_seq(s.skip(3))
    } else {
        seq![s[0] as u8] + percent_decode_seq(s.drop_first())
    }
}

/// The length of the encoding of `bytes`: one character for a byte left as
/// it is or a space, three for any other.
pub open spec fn encoded_len(bytes: Seq<u8>) -> nat
    decreases bytes.len(),
{
    if bytes.len() == 0 {
        0
    } else {
        encoded_len(bytes.drop_last()) + if is_unreserved(bytes.last()) || bytes.last() == 32u8 {
            1nat
        } else {
            3nat
        }
    }
}

proof fn lemma_percent_encode_concat(x: Seq<u8>, y: Seq<u8>)
    ensures
        percent_encode_seq(x + y) == percent_encode_seq(x) + percent_encode_seq(y),
    decreases y.len(),
{
    if y.len() == 0 {
        assert(x + y =~= x);
        assert(percent_encode_seq(y) =~= Seq::<char>::empty());
        assert(percent_encode_seq(x) + percent_encode_seq(y) =~= percent_encode_seq(x));
    } else {
        lemma_percent_encode_concat(x, y.drop_last());
        assert((x + y).drop_last() =~= x + y.drop_last());
        assert((x + y).last() == y.last());
        assert(percent_encode_seq(x + y) =~= percent_encode_seq(x) + percent_encode_seq(y));
    }
}

proof fn lemma_hex_round_trip(d: u8)
    requires
        d < 16,
    ensures
        hex_value(hex_digit(d)) == d,
{
}

proof fn lemma_decode_byte(b: u8, rest: Seq<char>)
    ensures
        percent_decode_seq(encode_byte(b) + rest) == seq![b] + percent_decode_seq(rest),
{
    let e = encode_byte(b);
    let whole = e + rest;
    if is_unreserved(b) {
        assert(whole[0] == b as char);
        assert(whole.drop_first() =~= rest);
        assert((b as char) as u8 == b);
    } else if b == ' ' as u8 {
        assert(whole[0] == '+');
        assert(whole.drop_first() =~= rest);
    } else {
        lemma_hex_round_trip(b / 16);
        lemma_hex_round_trip(b % 16);
        assert(whole[0] == '%');
        assert(whole[1] == hex_digit(b / 16));
        assert(whole[2] == hex_digit(b % 16));
        assert(whole.skip(3) =~= rest);
        assert((b / 16) * 16 + b % 16 == b);
    }
}

/// Decoding an encoded search term gives back its bytes, and the encoding
/// is one character for each byte left as it is or a space and three for
/// every other byte.
pub proof fn lemma_encoding_decodes_back(bytes: Seq<u8>)
    ensures
        percent_decode_seq(percent_encode_seq(bytes)) == bytes,
        percent_encode_seq(bytes).len() == encoded_len(bytes),
    decreases bytes.len(),
{
    if bytes.len() == 0 {
        assert(percent_encode_seq(bytes) =~= Seq::<char>::empty());
    } else {
        let rest = bytes.drop_first();
        lemma_encoding_decodes_back(rest);
        lemma_encoding_decodes_back(bytes.drop_last());
        assert(bytes =~= seq![bytes[0]] + rest);
        lemma_percent_encode_concat(seq![bytes[0]], rest);
        assert(seq![bytes[0]].drop_last() =~= Seq::<u8>::empty());
        assert(percent_encode_seq(Seq::<u8>::empty()) =~= Seq::<char>::empty());
        assert(percent_encode_seq(seq![bytes[0]]) =~= encode_byte(bytes[0]));
        lemma_decode_byte(bytes[0], percent_encode_seq(rest));
        assert(seq![bytes[0]] + rest =~= bytes);
    }
}

/// `s` with every `pattern` replaced by `with`, scanning from the front. An
/// empty pattern matches before every character and at the end.
pub open spec fn replace_all_seq(s: Seq<char>, pattern: Seq<char>, with: Seq<char>) -> Seq<char>
    decreases s.len(),
{
    if pattern.len() == 0 {
        if s.len() == 0 {
            with
        } else {
            with + seq![s[0]] + replace_all_seq(s.skip(1), pattern, with)
        }
    } else if s.len() == 0 {
        Seq::empty()
    } else if pattern.len() <= s.len() && s.take(pattern.len() as int) == pattern {
        with + replace_all_seq(s.skip(pattern.len() as int), pattern, with)
    } else {
        seq![s[0]] + replace_all_seq(s.skip(1), pattern, with)
    }
}

/// The search URL for `query`: `{}` in the template replaced by the encoded
/// query.
pub open spec fn search_url_seq(query: Seq<char>, template: Seq<char>) -> Seq<char> {
    replace_all_seq(template, seq!['{', '}'], percent_encode_seq(encode_utf8(query)))
}

/// A bare host: no space, and a dot somewhere.
pub open spec fn looks_like_host_seq(text: Seq<char>) -> bool {
    !text.contains(' ') && text.contains('.')
}

pub open spec fn https_prefix() -> Seq<char> {
    seq!['h', 't', 't', 'p', 's', ':', '/', '/']
}

/// What the address bar resolves `input` to: the URL, or the text of the
/// `BadAddress` error.
pub open spec fn resolve_seq(input: Seq<char>, search_template: Seq<char>) -> Result<
    Seq<char>,
    Seq<char>,
> {
    let trimmed = trim_seq(input);
    if trimmed.len() == 0 {
        Err(input)
    } else if parsed_url(trimmed) is Ok {
        parsed_url(trimmed)
    } else if looks_like_host_seq(trimmed) && parsed_url(https_prefix() + trimmed) is Ok {
        parsed_url(https_prefix() + trimmed)
    } else {
        parsed_url(search_url_seq(trimmed, search_template))
    }
}

fn hex_digit_char(d: u8) -> (c: char)
    requires
        d < 16,
    ensures
        c == hex_digit(d),
{
    if d < 10 {
        (('0' as u8) + d) as char
    } else {
        (('A' as u8) + d - 10) as char
    }
}

/// Percent-encodes a search term for a query string, byte by byte of its
/// UTF-8: unreserved bytes stay, a space becomes `+`, any other byte `%XX`.
pub fn urlencoding_encode(text: &str) -> (r: String)
    ensures
        r@ == percent_encode_seq(encode_utf8(text@)),
{
    let bytes = text.as_bytes();
    let mut out = String::new();
    let mut i: usize = 0;
    assert(bytes@.take(0) =~= Seq::<u8>::empty());
    while i < bytes.len()
        invariant
            bytes@ == text.spec_bytes(),
            i <= bytes@.len(),
            out@ == percent_encode_seq(bytes@.take(i as int)),
        decreases bytes@.len() - i,
    {
        let byte = bytes[i];
        let ghost before = out@;
        assert(bytes@.take(i + 1).drop_last() == bytes@.take(i as int));
        if (('A' as u8) <= byte && byte <= ('Z' as u8)) || (('a' as u8) <= byte && byte <= ('z' as u8)) || (('0' as u8) <= byte
            && byte <= ('9' as u8)) || byte == ('-' as u8) || byte == ('_' as u8) || byte == ('.' as u8) || byte == ('~' as u8) {
            push_char(&mut out, byte as char);
        } else if byte == (' ' as u8) {
            push_char(&mut out, '+');
        } else {
            push_char(&mut out, '%');
            push_char(&mut out, hex_digit_char(byte / 16));
            push_char(&mut out, hex_digit_char(byte % 16));
        }
        assert(out@ =~= before + encode_byte(byte));
        i = i + 1;
    }
    assert(bytes@.take(bytes@.len() as int) == bytes@);
    out
}

/// Does `pattern` occur in `s` at position `at`?
fn matches_at(s: &str, at: usize, pattern: &str) -> (r: bool)
    requires
        at <= s@.len(),
    ensures
        r == (pattern@.len() <= s@.skip(at as int).len() && s@.skip(at as int).take(
            pattern@.len() as int,
        ) == pattern@),
{
    let n = s.unicode_len();
    let m = pattern.unicode_len();
    if m > n - at {
        return false;
    }
    let mut j: usize = 0;
    while j < m
        invariant
            n == s@.len(),
            m == pattern@.len(),
            at + m <= n,
            j <= m,
            forall|k: int| 0 <= k < j ==> s@[at + k] == pattern@[k],
        decreases m - j,
    {
        if s.get_char(at + j) != pattern.get_char(j) {
            assert(s@.skip(at as int).take(m as int)[j as int] == s@[at + j]);
            return false;
        }
        j = j + 1;
    }
    assert(s@.skip(at as int).take(m as int) =~= pattern@);
    true
}

/// `str::replace`: every non-overlapping `pattern`, from the front, replaced
/// by `with`; an empty pattern puts `with` around every character.
pub fn replace_all(s: &str, pattern: &str, with: &str) -> (r: String)
    ensures
        r@ == replace_all_seq(s@, pattern@, with@),
{
    let n = s.unicode_len();
    let m = pattern.unicode_len();
    let mut out = String::new();
    let mut i: usize = 0;
    assert(s@.skip(0) == s@);
    while i < n
        invariant
            n == s@.len(),
            m == pattern@.len(),
            i <= n,
            out@ + replace_all_seq(s@.skip(i as int), pattern@, with@) == replace_all_seq(
                s@,
                pattern@,
                with@,
            ),
        decreases n - i,
    {
        let ghost before = out@;
        let ghost rest = s@.skip(i as int);
        if m == 0 {
            out.append(with);
            push_char(&mut out, s.get_char(i));
            assert(rest.skip(1) == s@.skip(i + 1));
            assert(out@ + replace_all_seq(s@.skip(i + 1), pattern@, with@) =~= before
                + replace_all_seq(rest, pattern@, with@));
            i = i + 1;
        } else if matches_at(s, i, pattern) {
            out.append(with);
            assert(rest.skip(m as int) == s@.skip(i + m));
            assert(out@ + replace_all_seq(s@.skip(i + m), pattern@, with@) =~= before
                + replace_all_seq(rest, pattern@, with@));
            i = i + m;
        } else {
            push_char(&mut out, s.get_char(i));
            assert(rest.skip(1) == s@.skip(i + 1));
            assert(out@ + replace_all_seq(s@.skip(i + 1), pattern@, with@) =~= before
                + replace_all_seq(rest, pattern@, with@));
            i = i + 1;
        }
    }
    assert(s@.skip(n as int) =~= Seq::<char>::empty());
    if m == 0 {
        out.append(with);
        assert(out@ =~= replace_all_seq(s@, pattern@, with@));
    }
    out
}

/// The URL a search for `query` goes to: `{}` in the template replaced by the
/// percent-encoded query.
pub fn search_url(query: &str, search_template: &str) -> (r: String)
    ensures
        r@ == search_url_seq(query@, search_template@),
{
    let encoded = urlencoding_encode(query);
    let mut pattern = String::new();
    push_char(&mut pattern, '{');
    push_char(&mut pattern, '}');
    assert(pattern@ =~= seq!['{', '}']);
    replace_all(search_template, pattern.as_str(), encoded.as_str())
}

/// Does the input look like a bare host, such as `example.com`?
pub fn looks_like_host(text: &str) -> (r: bool)
    ensures
        r == looks_like_host_seq(text@),
{
    let n = text.unicode_len();
    let mut has_dot = false;
    let mut i: usize = 0;
    while i < n
        invariant
            n == text@.len(),
            i <= n,
            forall|k: int| 0 <= k < i ==> text@[k] != ' ',
            has_dot == exists|k: int| 0 <= k < i && text@[k] == '.',
        decreases n - i,
    {
        let c = text.get_char(i);
        if c == ' ' {
            assert(text@.contains(' '));
            return false;
        }
        if c == '.' {
            has_dot = true;
        }
        i = i + 1;
    }
    has_dot
}

/// Resolves what was typed into the address bar.
///
/// Text that parses as a URL is that URL; a bare host with a dot gets
/// `https://`; anything else becomes a search through `search_template`.
pub fn resolve_input(input: &str, search_template: &str) -> (r: Result<String, NavigationError>)
    ensures
        match r {
            Ok(url) => resolve_seq(input@, search_template@) == Ok::<Seq<char>, Seq<char>>(url@),
            Err(NavigationError::BadAddress(message)) => resolve_seq(input@, search_template@)
                == Err::<Seq<char>, Seq<char>>(message@),
        },
{
    let trimmed = trim(input);
    if trimmed.unicode_len() == 0 {
        return Err(NavigationError::BadAddress(input.to_owned()));
    }
    if let Ok(url) = parse_url(trimmed.as_str()) {
        return Ok(url);
    }
    // A bare host with a dot is an address; anything else is a search.
    if looks_like_host(trimmed.as_str()) {
        let address = concat("https://", trimmed.as_str());
        proof {
            reveal_strlit("https://");
            assert("https://"@ =~= https_prefix());
        }
        if let Ok(url) = parse_url(address.as_str()) {
            return Ok(url);
        }
    }
    let query = search_url(trimmed.as_str(), search_template);
    match parse_url(query.as_str()) {
        Ok(url) => Ok(url),
        Err(message) => Err(NavigationError::BadAddress(message)),
    }
}

} // verus!
