use wat::location::{location_with_hash, origin_of, UrlParts};

#[test]
fn url_parts_of_an_http_address() {
    let parts = UrlParts::parse("https://example.com:8443/a/b?q=1#top");
    assert_eq!(parts.protocol, "https:");
    assert_eq!(parts.host, "example.com:8443");
    assert_eq!(parts.hostname, "example.com");
    assert_eq!(parts.port, "8443");
    assert_eq!(parts.pathname, "/a/b");
    assert_eq!(parts.search, "?q=1");
    assert_eq!(parts.hash, "#top");
}

#[test]
fn url_parts_of_a_bare_host() {
    let parts = UrlParts::parse("http://example.com");
    assert_eq!(parts.host, "example.com");
    assert_eq!(parts.port, "");
    assert_eq!(parts.pathname, "/");
    assert_eq!(parts.search, "");
}

#[test]
fn url_parts_of_an_internal_page() {
    let parts = UrlParts::parse("about:home");
    assert_eq!(parts.protocol, "about:");
    assert_eq!(parts.host, "", "an about: URL has no authority");
    assert_eq!(parts.pathname, "home");
    assert_eq!(origin_of("about:home"), "null");
}

#[test]
fn origins_come_from_the_scheme_and_authority() {
    assert_eq!(origin_of("https://example.com/a"), "https://example.com");
    assert_eq!(
        origin_of("http://example.com:8080/a"),
        "http://example.com:8080"
    );
}

#[test]
fn a_port_that_is_not_numeric_stays_in_the_hostname() {
    let parts = UrlParts::parse("http://user:pw@example.com/x");
    assert_eq!(parts.host, "user:pw@example.com");
    assert_eq!(parts.hostname, "user:pw@example.com");
    assert_eq!(parts.port, "");
    let empty_port = UrlParts::parse("http://example.com:/x");
    assert_eq!(empty_port.hostname, "example.com");
    assert_eq!(empty_port.port, "");
}

#[test]
fn a_url_without_a_scheme_is_all_path() {
    let parts = UrlParts::parse("page.html?x#y");
    assert_eq!(parts.protocol, "");
    assert_eq!(parts.pathname, "page.html");
    assert_eq!(parts.search, "?x");
    assert_eq!(parts.hash, "#y");
}

#[test]
fn assigning_the_hash_replaces_the_fragment() {
    assert_eq!(
        location_with_hash("https://a.test/p#old", "new"),
        "https://a.test/p#new"
    );
    assert_eq!(
        location_with_hash("https://a.test/p", "#top"),
        "https://a.test/p#top"
    );
    assert_eq!(location_with_hash("about:home", ""), "about:home#");
}

#[test]
fn a_hash_that_was_set_reads_back() {
    for (url, fragment, expected) in [
        ("https://example.com/a?b#old", "top", "#top"),
        ("https://example.com/a", "#top", "#top"),
        ("about:home", "x#y", "#x#y"),
        ("https://example.com/#", "", "#"),
    ] {
        let moved = location_with_hash(url, fragment);
        assert_eq!(UrlParts::parse(&moved).hash, expected);
    }
}

#[test]
fn location_reports_the_pieces_of_the_url() {
    let href = "https://example.com/page?q=1#top";
    let parts = UrlParts::parse(href);
    assert_eq!(parts.protocol, "https:");
    assert_eq!(parts.host, "example.com");
    assert_eq!(parts.pathname, "/page");
    assert_eq!(parts.search, "?q=1");
    assert_eq!(parts.hash, "#top");
    assert_eq!(origin_of(href), "https://example.com");
}

#[test]
fn url_pieces_follow_the_shape_of_the_address() {
    let parts = UrlParts::parse("http://localhost:8080/a/b?x=1#y");
    assert_eq!(parts.protocol, "http:");
    assert_eq!(parts.host, "localhost:8080");
    assert_eq!(parts.hostname, "localhost");
    assert_eq!(parts.port, "8080");
    assert_eq!(parts.pathname, "/a/b");
    assert_eq!(parts.search, "?x=1");
    assert_eq!(parts.hash, "#y");
    let bare = UrlParts::parse("ftp://host:/p");
    assert_eq!(bare.hostname, "host");
    assert_eq!(bare.port, "");
}
