use wat::class_list::{
    class_list_add, class_list_contains, class_list_remove, class_list_replace, class_list_toggle,
    class_tokens, class_value,
};

fn list(names: &[&str]) -> Vec<String> {
    names.iter().map(|n| n.to_string()).collect()
}

#[test]
fn the_attribute_splits_on_ascii_white_space() {
    assert_eq!(class_tokens("  card\tactive\nwide\r\n"), list(&["card", "active", "wide"]));
    assert_eq!(class_tokens(""), Vec::<String>::new());
    assert_eq!(class_tokens(" \t "), Vec::<String>::new());
    // Only ASCII white space separates; a no-break space is part of a name.
    assert_eq!(class_tokens("a\u{a0}b c"), list(&["a\u{a0}b", "c"]));
}

#[test]
fn the_list_is_written_joined_by_spaces() {
    let classes = list(&["card", "active"]);
    assert_eq!(class_value(&classes), "card active");
    assert_eq!(class_tokens(&class_value(&classes)), classes);
    assert_eq!(class_value(&Vec::new()), "");
}

#[test]
fn contains_finds_exact_names() {
    let classes = list(&["card", "active"]);
    assert!(class_list_contains(&classes, "card"));
    assert!(!class_list_contains(&classes, "car"));
}

#[test]
fn add_appends_missing_names_once() {
    let mut classes = list(&["card"]);
    class_list_add(&mut classes, &list(&["active", "card", "", "active", "wide"]));
    assert_eq!(classes, list(&["card", "active", "wide"]));
}

#[test]
fn remove_drops_every_copy() {
    let mut classes = list(&["a", "b", "a", "c"]);
    class_list_remove(&mut classes, &list(&["a", "x"]));
    assert_eq!(classes, list(&["b", "c"]));
}

#[test]
fn toggle_flips_or_forces() {
    let mut classes = list(&["a"]);
    assert!(class_list_toggle(&mut classes, "b", None));
    assert_eq!(classes, list(&["a", "b"]));
    assert!(!class_list_toggle(&mut classes, "b", None));
    assert_eq!(classes, list(&["a"]));
    assert!(class_list_toggle(&mut classes, "a", Some(true)));
    assert_eq!(classes, list(&["a"]));
    assert!(!class_list_toggle(&mut classes, "z", Some(false)));
    assert_eq!(classes, list(&["a"]));
    assert!(!class_list_toggle(&mut classes, "", None));
    assert_eq!(classes, list(&["a"]));
}

#[test]
fn replace_swaps_every_copy() {
    let mut classes = list(&["a", "b", "a"]);
    assert!(class_list_replace(&mut classes, "a", "z"));
    assert_eq!(classes, list(&["z", "b", "z"]));
    assert!(!class_list_replace(&mut classes, "q", "y"));
    assert_eq!(classes, list(&["z", "b", "z"]));
}

#[test]
fn class_list() {
    let classes = class_tokens("a b");
    assert_eq!(class_value(&classes), "a b");
    assert_eq!(classes.len(), 2);
    assert!(class_list_contains(&classes, "a"));
    assert!(!class_list_contains(&classes, "c"));
    assert_eq!(classes[0], "a");

    let mut added = class_tokens("a b");
    class_list_add(&mut added, &list(&["c"]));
    assert_eq!(class_value(&added), "a b c");

    let mut again = class_tokens("a b");
    class_list_add(&mut again, &list(&["a"]));
    assert_eq!(class_value(&again), "a b", "adding a class it already has changes nothing");

    let mut removed = class_tokens("a b");
    class_list_remove(&mut removed, &list(&["a"]));
    assert_eq!(class_value(&removed), "b");

    let mut toggled = class_tokens("a b");
    class_list_toggle(&mut toggled, "b", None);
    assert_eq!(class_value(&toggled), "a");

    let mut forced = class_tokens("a b");
    class_list_toggle(&mut forced, "c", Some(false));
    assert_eq!(class_value(&forced), "a b", "a forced toggle does not add");

    let mut replaced = class_tokens("a b");
    class_list_replace(&mut replaced, "a", "z");
    assert_eq!(class_value(&replaced), "z b");

    assert_eq!(class_value(&class_tokens("only")), "only");
}
