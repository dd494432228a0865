use wat::inline_style::{
    declarations, property, remove_property, serialise, set_property, split_once_top_level,
    split_top_level, to_camel_case, to_kebab_case,
};

fn pairs(items: &[(&str, &str)]) -> Vec<(String, String)> {
    items
        .iter()
        .map(|(name, value)| (name.to_string(), value.to_string()))
        .collect()
}

#[test]
fn declarations_are_split_and_normalised() {
    let parsed = declarations("Color: red; background : blue ;");
    assert_eq!(
        parsed,
        vec![
            ("color".to_string(), "red".to_string()),
            ("background".to_string(), "blue".to_string())
        ]
    );
}

#[test]
fn empty_and_malformed_declarations_are_dropped() {
    assert!(declarations("").is_empty());
    assert!(declarations(";;").is_empty());
    assert!(declarations("color").is_empty(), "no colon, no declaration");
    assert!(
        declarations("color:").is_empty(),
        "no value, no declaration"
    );
    assert_eq!(declarations("color: red; oops").len(), 1);
}

#[test]
fn a_semicolon_inside_a_url_or_a_string_does_not_split() {
    let parsed = declarations("background: url(a;b.png); color: red");
    assert_eq!(parsed.len(), 2);
    assert_eq!(parsed[0].1, "url(a;b.png)");
    let quoted = declarations("content: 'a;b'; color: red");
    assert_eq!(quoted.len(), 2);
    assert_eq!(quoted[0].1, "'a;b'");
}

#[test]
fn a_value_may_contain_a_colon() {
    let parsed = declarations("background: url(http://x/y.png)");
    assert_eq!(parsed[0].1, "url(http://x/y.png)");
}

#[test]
fn reading_a_property() {
    let text = "color: red; margin: 0";
    assert_eq!(property(text, "color").as_deref(), Some("red"));
    assert_eq!(property(text, "margin").as_deref(), Some("0"));
    assert_eq!(property(text, "padding"), None);
    // A duplicated property resolves to the last one, as the cascade does.
    assert_eq!(
        property("color: red; color: blue", "color").as_deref(),
        Some("blue")
    );
}

#[test]
fn setting_a_property_keeps_its_position() {
    assert_eq!(set_property("", "color", "red"), "color: red");
    assert_eq!(
        set_property("color: red; margin: 0", "color", "blue"),
        "color: blue; margin: 0"
    );
    assert_eq!(
        set_property("color: red", "margin", "0"),
        "color: red; margin: 0"
    );
}

#[test]
fn removing_a_property() {
    assert_eq!(
        remove_property("color: red; margin: 0", "color"),
        "margin: 0"
    );
    assert_eq!(remove_property("color: red", "margin"), "color: red");
    assert_eq!(remove_property("color: red", "color"), "");
}

#[test]
fn a_property_the_engine_does_not_know_round_trips() {
    let text = "-wat-future-thing: 3px";
    assert_eq!(
        set_property(text, "color", "red"),
        "-wat-future-thing: 3px; color: red"
    );
}

#[test]
fn case_conversion() {
    assert_eq!(to_kebab_case("backgroundColor"), "background-color");
    assert_eq!(to_kebab_case("color"), "color");
    assert_eq!(to_kebab_case("background-color"), "background-color");
    assert_eq!(to_kebab_case("--custom"), "--custom");
    assert_eq!(
        to_kebab_case("borderTopLeftRadius"),
        "border-top-left-radius"
    );

    assert_eq!(to_camel_case("background-color"), "backgroundColor");
    assert_eq!(to_camel_case("color"), "color");
    assert_eq!(to_camel_case("--custom"), "--custom");
    assert_eq!(
        to_camel_case("border-top-left-radius"),
        "borderTopLeftRadius"
    );
}

#[test]
fn conversion_round_trips() {
    for name in [
        "color",
        "background-color",
        "border-top-left-radius",
        "--brand",
    ] {
        assert_eq!(to_kebab_case(&to_camel_case(name)), name);
    }
}

#[test]
fn top_level_split_keeps_brackets_and_quotes_whole() {
    assert_eq!(
        split_top_level("a;b(c;d);'e;f';[g;h]", ';'),
        vec!["a", "b(c;d)", "'e;f'", "[g;h]"]
    );
    assert_eq!(split_top_level("", ';'), vec![""]);
    assert_eq!(split_top_level(";", ';'), vec!["", ""]);
    // A stray closing bracket does not make the depth negative.
    assert_eq!(split_top_level(");a", ';'), vec![")", "a"]);
}

#[test]
fn split_pieces_rejoin_to_the_text() {
    for text in ["a;b;c", "x(1;2);y", "'q;r';s", ";;", "plain"] {
        let joined = split_top_level(text, ';').join(";");
        assert_eq!(joined, text);
    }
}

#[test]
fn split_once_keeps_later_separators_in_the_rest() {
    assert_eq!(
        split_once_top_level("a:b:c", ':'),
        Some(("a".to_string(), "b:c".to_string()))
    );
    assert_eq!(split_once_top_level("abc", ':'), None);
    assert_eq!(
        split_once_top_level("url(a:b):c", ':'),
        Some(("url(a:b)".to_string(), "c".to_string()))
    );
}

#[test]
fn serialising_joins_declarations() {
    assert_eq!(serialise(&pairs(&[])), "");
    assert_eq!(
        serialise(&pairs(&[("color", "red"), ("margin", "0")])),
        "color: red; margin: 0"
    );
}

#[test]
fn setting_and_removing_reach_every_declaration_of_a_name() {
    assert_eq!(
        set_property("color: red; color: blue", "color", "green"),
        "color: green; color: green"
    );
    assert_eq!(
        remove_property("color: red; margin: 0; color: blue", "color"),
        "margin: 0"
    );
}

#[test]
fn names_are_trimmed_and_lower_cased_and_values_trimmed() {
    assert_eq!(
        declarations("  MARGIN-Top :  4px  "),
        pairs(&[("margin-top", "4px")])
    );
}

#[test]
fn setting_a_duplicated_property_sets_every_declaration() {
    let set = set_property("color: red; margin: 0; color: blue", "color", "green");
    assert_eq!(set, "color: green; margin: 0; color: green");
    assert_eq!(property(&set, "color").as_deref(), Some("green"));
}

#[test]
fn a_hyphenated_name_is_left_alone() {
    assert_eq!(to_kebab_case("--Brand"), "--Brand");
    assert_eq!(to_kebab_case("Background-Color"), "Background-Color");
}

#[test]
fn a_style_with_an_open_bracket_round_trips() {
    let parsed = declarations("a: (b");
    assert_eq!(parsed, pairs(&[("a", "(b")]));
    assert_eq!(declarations(&serialise(&parsed)), parsed);
}

#[test]
fn removing_from_a_style_with_an_open_bracket_keeps_the_rest() {
    let once = remove_property("x: 1; a: (b", "x");
    assert_eq!(declarations(&once), pairs(&[("a", "(b")]));
    assert_eq!(property(&once, "x"), None);
    assert_eq!(remove_property(&once, "x"), once);
}

#[test]
fn setting_an_open_value_in_place_reads_back() {
    let written = set_property("a: (b", "a", "red");
    assert_eq!(written, "a: red");
    assert_eq!(property(&written, "a"), Some("red".to_string()));
}

#[test]
fn top_level_separators_count_the_pieces() {
    let pieces = split_top_level("a;b(c;d);'e;f';g", ';');
    assert_eq!(pieces, vec!["a", "b(c;d)", "'e;f'", "g"]);
    assert_eq!(pieces.join(";"), "a;b(c;d);'e;f';g");
}
