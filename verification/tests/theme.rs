use wat::theme::{font_family_list, unknown_theme_message, preset, preset_names, Appearance, Preset};

#[test]
fn appearance_parsing() {
    assert_eq!(Appearance::parse("Dark"), Some(Appearance::Dark));
    assert_eq!(Appearance::parse("system"), Some(Appearance::Auto));
    assert_eq!(Appearance::parse("neon"), None);
}

#[test]
fn preset_lookup_is_case_insensitive() {
    assert!(preset("Liquid-Glass").is_some());
    assert!(preset("  flat  ").is_some());
    assert!(preset("nope").is_none());
}

#[test]
fn appearance_resolves_against_the_system() {
    assert!(Appearance::Auto.prefers_dark(true));
    assert!(!Appearance::Auto.prefers_dark(false));
    assert!(!Appearance::Light.prefers_dark(true));
    assert!(Appearance::Dark.prefers_dark(false));
    assert_eq!(Appearance::default(), Appearance::Auto);
    assert_eq!(Appearance::parse("  LIGHT "), Some(Appearance::Light));
}

#[test]
fn every_listed_preset_is_found_by_its_name() {
    let names = preset_names();
    assert_eq!(
        names,
        vec!["liquid-glass", "liquid-glass-dark", "liquid-glass-graphite", "flat"]
    );
    for name in names {
        assert_eq!(preset(name).expect("listed").name(), name);
    }
    assert_eq!(preset("LIQUID-GLASS-DARK"), Some(Preset::LiquidGlassDark));
}

#[test]
fn unknown_theme_names_list_the_presets() {
    let error = unknown_theme_message("does-not-exist");
    assert!(error.contains("liquid-glass"), "unhelpful error: {error}");
    assert_eq!(
        error,
        "unknown theme `does-not-exist`; available presets: liquid-glass, liquid-glass-dark, liquid-glass-graphite, flat"
    );
}

#[test]
fn appearance_overrides_the_system_preference() {
    assert!(!Appearance::Light.prefers_dark(true));
    assert!(Appearance::Dark.prefers_dark(false));
    assert!(Appearance::Auto.prefers_dark(true));
    assert!(!Appearance::Auto.prefers_dark(false));
}

#[test]
fn family_names_with_spaces_are_quoted() {
    let families: Vec<String> = ["Inter", "SF Pro Text", "sans-serif"].iter().map(|f| f.to_string()).collect();
    assert_eq!(font_family_list(&families), "Inter, \"SF Pro Text\", sans-serif");
    assert_eq!(font_family_list(&Vec::new()), "");
}
