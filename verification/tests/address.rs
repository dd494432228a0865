use wat::address::{looks_like_host, replace_all, resolve_input, search_url, urlencoding_encode, NavigationError};

#[test]
fn search_terms_are_encoded() {
    assert_eq!(urlencoding_encode("a b&c"), "a+b%26c");
    assert_eq!(urlencoding_encode("plain"), "plain");
}

#[test]
fn a_bare_host_becomes_an_address_and_a_phrase_becomes_a_search() {
    let search = "https://example.com/?q={}";
    assert_eq!(
        resolve_input("example.com", search).unwrap().as_str(),
        "https://example.com/"
    );
    assert_eq!(
        resolve_input("https://servo.org/", search).unwrap().as_str(),
        "https://servo.org/"
    );
    assert_eq!(
        resolve_input("hello world", search).unwrap().as_str(),
        "https://example.com/?q=hello+world"
    );
    // A single word with no dot is a search, not a host.
    assert_eq!(
        resolve_input("servo", search).unwrap().as_str(),
        "https://example.com/?q=servo"
    );
    assert!(resolve_input("   ", search).is_err());
}

#[test]
fn non_ascii_search_terms_are_encoded_byte_by_byte() {
    assert_eq!(urlencoding_encode("é"), "%C3%A9");
    assert_eq!(urlencoding_encode("~-_."), "~-_.");
    assert_eq!(urlencoding_encode("a/b?"), "a%2Fb%3F");
}

#[test]
fn the_search_template_gets_the_encoded_query() {
    assert_eq!(
        search_url("rust lang", "https://s.test/?q={}&lang={}"),
        "https://s.test/?q=rust+lang&lang=rust+lang"
    );
    assert_eq!(search_url("x", "no placeholder"), "no placeholder");
}

#[test]
fn hosts_have_a_dot_and_no_space() {
    assert!(looks_like_host("example.com"));
    assert!(!looks_like_host("servo"));
    assert!(!looks_like_host("a b.c"));
}

#[test]
fn blank_input_is_a_bad_address() {
    assert_eq!(
        resolve_input("   ", "https://s.test/?q={}"),
        Err(NavigationError::BadAddress("   ".to_string()))
    );
}

#[test]
fn a_template_that_is_not_a_url_is_reported() {
    match resolve_input("hello world", "not a url {}") {
        Err(NavigationError::BadAddress(message)) => assert!(!message.is_empty()),
        other => panic!("expected a bad address, got {other:?}"),
    }
}

#[test]
fn input_is_trimmed_before_parsing() {
    assert_eq!(
        resolve_input("  https://servo.org  ", "https://s.test/?q={}").unwrap(),
        "https://servo.org/"
    );
}

#[test]
fn an_encoded_term_cannot_break_out_of_the_query() {
    let encoded = urlencoding_encode("a b&c=d#e?f/g é");
    assert_eq!(encoded, "a+b%26c%3Dd%23e%3Ff%2Fg+%C3%A9");
    assert!(encoded
        .chars()
        .all(|c| c.is_ascii_alphanumeric() || "-_.~+%".contains(c)));
}

#[test]
fn encoded_length_is_one_or_three_per_byte() {
    let encoded = urlencoding_encode("a é/~");
    // 'a', '+', two bytes of 'é' at three each, '/' at three, '~'.
    assert_eq!(encoded, "a+%C3%A9%2F~");
    assert_eq!(encoded.len(), 1 + 1 + 3 + 3 + 3 + 1);
}

#[test]
fn replacing_works_as_str_replace_does() {
    assert_eq!(replace_all("a{}b{}", "{}", "x"), "axbx");
    assert_eq!(replace_all("ab", "", "-"), "ab".replace("", "-"));
    assert_eq!(replace_all("", "", "x"), "x");
    assert_eq!(replace_all("aaa", "aa", "b"), "ba");
}
