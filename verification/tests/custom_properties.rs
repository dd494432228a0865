use wat::custom_properties::{
    resolve_custom_properties, resolve_declarations, substitute_vars, substitute_with_depth,
    CssValue, CustomProperties, Declaration,
};

fn kw(s: &str) -> CssValue {
    CssValue::Keyword(s.to_string())
}

fn var(args: Vec<CssValue>) -> CssValue {
    CssValue::Function { name: "var".to_string(), args }
}

fn decl(name: &str, value: CssValue) -> Declaration {
    Declaration { name: name.to_string(), value, important: false }
}

#[test]
fn a_bound_variable_is_substituted() {
    let mut props = CustomProperties::new();
    props.set("--accent".to_string(), kw("red"));
    assert_eq!(substitute_vars(&var(vec![kw("--accent")]), &props), kw("red"));
    assert_eq!(props.get("--accent"), Some(&kw("red")));
    assert_eq!(props.get("--other"), None);
}

#[test]
fn an_unbound_variable_takes_its_fallback() {
    let props = CustomProperties::new();
    assert_eq!(substitute_vars(&var(vec![kw("--missing"), kw("blue")]), &props), kw("blue"));
    assert_eq!(
        substitute_vars(&var(vec![kw("--missing"), CssValue::Other(1), kw("solid")]), &props),
        CssValue::List(vec![CssValue::Other(1), kw("solid")])
    );
}

#[test]
fn an_unbound_variable_without_fallback_is_empty() {
    let props = CustomProperties::new();
    assert_eq!(substitute_vars(&var(vec![kw("--missing")]), &props), kw(""));
    assert_eq!(substitute_vars(&var(vec![]), &props), kw(""));
    assert_eq!(substitute_vars(&var(vec![CssValue::Other(3)]), &props), kw(""));
}

#[test]
fn a_variable_may_refer_to_another() {
    let mut props = CustomProperties::new();
    props.set("--base".to_string(), CssValue::Other(16));
    props.set("--size".to_string(), var(vec![kw("--base")]));
    assert_eq!(substitute_vars(&var(vec![kw("--size")]), &props), CssValue::Other(16));
}

#[test]
fn a_self_referential_variable_stops() {
    let mut props = CustomProperties::new();
    props.set("--loop".to_string(), var(vec![kw("--loop")]));
    assert_eq!(substitute_vars(&var(vec![kw("--loop")]), &props), kw(""));
}

#[test]
fn past_the_depth_limit_everything_is_empty() {
    let props = CustomProperties::new();
    assert_eq!(substitute_with_depth(&kw("red"), &props, 16), kw("red"));
    assert_eq!(substitute_with_depth(&kw("red"), &props, 17), kw(""));
}

#[test]
fn a_variable_holding_a_list_splices_into_the_list() {
    let mut props = CustomProperties::new();
    props.set(
        "--border".to_string(),
        CssValue::List(vec![CssValue::Other(1), kw("solid"), kw("red")]),
    );
    // `border: var(--border)` is a list of one value, which stands for it.
    assert_eq!(
        substitute_vars(&CssValue::List(vec![var(vec![kw("--border")])]), &props),
        CssValue::List(vec![CssValue::Other(1), kw("solid"), kw("red")])
    );
    assert_eq!(
        substitute_vars(&CssValue::List(vec![CssValue::Other(2), var(vec![kw("--border")])]), &props),
        CssValue::List(vec![CssValue::Other(2), CssValue::Other(1), kw("solid"), kw("red")])
    );
    // Inside commas it splices too.
    assert_eq!(
        substitute_vars(&CssValue::Commas(vec![var(vec![kw("--border")]), kw("x")]), &props),
        CssValue::Commas(vec![CssValue::Other(1), kw("solid"), kw("red"), kw("x")])
    );
}

#[test]
fn a_variable_works_inside_a_function() {
    let mut props = CustomProperties::new();
    props.set("--gap".to_string(), CssValue::Other(8));
    let calc = CssValue::Function {
        name: "calc".to_string(),
        args: vec![var(vec![kw("--gap")]), kw("*"), CssValue::Other(2)],
    };
    assert_eq!(
        substitute_vars(&calc, &props),
        CssValue::Function {
            name: "calc".to_string(),
            args: vec![CssValue::Other(8), kw("*"), CssValue::Other(2)],
        }
    );
}

#[test]
fn a_value_without_variables_is_unchanged() {
    let props = CustomProperties::new();
    let value = CssValue::Commas(vec![
        CssValue::List(vec![kw("a"), CssValue::Other(4)]),
        CssValue::Function { name: "rgb".to_string(), args: vec![CssValue::Other(1)] },
    ]);
    let expected = CssValue::Commas(vec![
        CssValue::List(vec![kw("a"), CssValue::Other(4)]),
        CssValue::Function { name: "rgb".to_string(), args: vec![CssValue::Other(1)] },
    ]);
    assert_eq!(substitute_vars(&value, &props), expected);
}

#[test]
fn later_custom_declarations_win_and_others_are_inherited() {
    let mut inherited = CustomProperties::new();
    inherited.set("--fg".to_string(), kw("black"));
    inherited.set("--bg".to_string(), kw("white"));
    let declarations = vec![
        decl("--fg", kw("red")),
        decl("color", var(vec![kw("--fg")])),
        decl("--fg", kw("green")),
        decl("--shade", var(vec![kw("--bg")])),
    ];
    let props = resolve_custom_properties(inherited, &declarations);
    assert_eq!(props.get("--fg"), Some(&kw("green")));
    assert_eq!(props.get("--bg"), Some(&kw("white")));
    assert_eq!(props.get("--shade"), Some(&kw("white")));
    assert_eq!(props.get("color"), None);
}

#[test]
fn ordinary_declarations_are_resolved_in_order() {
    let mut props = CustomProperties::new();
    props.set("--fg".to_string(), kw("red"));
    let declarations = vec![
        decl("--fg", kw("blue")),
        Declaration { name: "color".to_string(), value: var(vec![kw("--fg")]), important: true },
        decl("margin", CssValue::Other(0)),
    ];
    assert_eq!(
        resolve_declarations(&declarations, &props),
        vec![
            Declaration { name: "color".to_string(), value: kw("red"), important: true },
            decl("margin", CssValue::Other(0)),
        ]
    );
}
