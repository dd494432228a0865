//! Which variant of a theme to use, and the themes shipped with the browser.
use vstd::prelude::*;

use crate::chars::{
    concat, find_char, lemma_first_index_of, lower_seq, lowercase, owned, str_equal, trim, trim_seq,
};
use crate::inline_style::{join_seq, views};

verus! {

/// Which variant of a theme to use.
#[derive(Clone, Copy, Debug, PartialEq, Eq, Structural)]
pub enum Appearance {
    /// Follow the platform preference.
    Auto,
    Light,
    Dark,
}

impl Default for Appearance {
    fn default() -> (r: Appearance)
        ensures
            r == Appearance::Auto,
    {
        Appearance::Auto
    }
}

/// The appearance a setting names, compared after trimming and without regard
/// to ASCII case.
pub open spec fn appearance_named(text: Seq<char>) -> Option<Appearance> {
    let word = lower_seq(trim_seq(text));
    if word == "auto"@ || word == "system"@ {
        Some(Appearance::Auto)
    } else if word == "light"@ {
        Some(Appearance::Light)
    } else if word == "dark"@ {
        Some(Appearance::Dark)
    } else {
        None
    }
}

impl Appearance {
    /// Resolves to a concrete choice given the platform preference.
    pub fn prefers_dark(self, system_prefers_dark: bool) -> (r: bool)
        ensures
            r == match self {
                Appearance::Auto => system_prefers_dark,
                Appearance::Light => false,
                Appearance::Dark => true,
            },
    {
        match self {
            Appearance::Auto => system_prefers_dark,
            Appearance::Light => false,
            Appearance::Dark => true,
        }
    }

    pub fn parse(text: &str) -> (r: Option<Appearance>)
        ensures
            r == appearance_named(text@),
    {
        let trimmed = trim(text);
        let lower = lowercase(trimmed.as_str());
        let word = lower.as_str();
        if str_equal(word, "auto") || str_equal(word, "system") {
            Some(Appearance::Auto)
        } else if str_equal(word, "light") {
            Some(Appearance::Light)
        } else if str_equal(word, "dark") {
            Some(Appearance::Dark)
        } else {
            None
        }
    }
}

/// A theme shipped with the browser.
#[derive(Clone, Copy, Debug, PartialEq, Eq, Structural)]
pub enum Preset {
    /// The default theme.
    LiquidGlass,
    /// Liquid Glass pinned to dark.
    LiquidGlassDark,
    /// Liquid Glass with the colour removed.
    LiquidGlassGraphite,
    /// Opaque chrome, for slower devices or a plainer look.
    Flat,
}

/// The presets, in menu order.
pub open spec fn presets_in_order() -> Seq<Preset> {
    seq![Preset::LiquidGlass, Preset::LiquidGlassDark, Preset::LiquidGlassGraphite, Preset::Flat]
}

pub open spec fn preset_name_of(preset: Preset) -> Seq<char> {
    match preset {
        Preset::LiquidGlass => "liquid-glass"@,
        Preset::LiquidGlassDark => "liquid-glass-dark"@,
        Preset::LiquidGlassGraphite => "liquid-glass-graphite"@,
        Preset::Flat => "flat"@,
    }
}

/// The preset a name picks, compared after trimming and without regard to
/// ASCII case.
pub open spec fn preset_named(name: Seq<char>) -> Option<Preset> {
    let wanted = lower_seq(trim_seq(name));
    if wanted == "liquid-glass"@ {
        Some(Preset::LiquidGlass)
    } else if wanted == "liquid-glass-dark"@ {
        Some(Preset::LiquidGlassDark)
    } else if wanted == "liquid-glass-graphite"@ {
        Some(Preset::LiquidGlassGraphite)
    } else if wanted == "flat"@ {
        Some(Preset::Flat)
    } else {
        None
    }
}

impl Preset {
    /// The name the preset is listed and looked up under.
    pub fn name(self) -> (r: &'static str)
        ensures
            r@ == preset_name_of(self),
    {
        match self {
            Preset::LiquidGlass => "liquid-glass",
            Preset::LiquidGlassDark => "liquid-glass-dark",
            Preset::LiquidGlassGraphite => "liquid-glass-graphite",
            Preset::Flat => "flat",
        }
    }
}

/// The preset of that name.
pub fn preset(name: &str) -> (r: Option<Preset>)
    ensures
        r == preset_named(name@),
{
    let trimmed = trim(name);
    let lower = lowercase(trimmed.as_str());
    let wanted = lower.as_str();
    if str_equal(wanted, "liquid-glass") {
        Some(Preset::LiquidGlass)
    } else if str_equal(wanted, "liquid-glass-dark") {
        Some(Preset::LiquidGlassDark)
    } else if str_equal(wanted, "liquid-glass-graphite") {
        Some(Preset::LiquidGlassGraphite)
    } else if str_equal(wanted, "flat") {
        Some(Preset::Flat)
    } else {
        None
    }
}

/// Every preset name, in menu order.
pub fn preset_names() -> (r: Vec<&'static str>)
    ensures
        r@.len() == presets_in_order().len(),
        forall|i: int| 0 <= i < r@.len() ==> (#[trigger] r@[i])@ == preset_name_of(presets_in_order()[i]),
{
    let mut names = Vec::new();
    names.push(Preset::LiquidGlass.name());
    names.push(Preset::LiquidGlassDark.name());
    names.push(Preset::LiquidGlassGraphite.name());
    names.push(Preset::Flat.name());
    names
}

/// Every listed name finds its preset: looking up `preset_names()[i]` gives
/// the `i`-th preset.
pub proof fn lemma_listed_names_find_their_presets(preset: Preset)
    ensures
        preset_named(preset_name_of(preset)) == Some(preset),
{
    reveal_strlit("liquid-glass");
    reveal_strlit("liquid-glass-dark");
    reveal_strlit("liquid-glass-graphite");
    reveal_strlit("flat");
    let name = preset_name_of(preset);
    assert(trim_seq(name) == name) by {
        assert(!crate::chars::is_white_space(name[0]));
        assert(!crate::chars::is_white_space(name.last()));
    }
    assert(lower_seq(name) =~= name);
}

/// The names of the presets, in menu order.
pub open spec fn preset_name_list() -> Seq<Seq<char>> {
    presets_in_order().map_values(|p: Preset| preset_name_of(p))
}

/// What a theme name that is neither a preset nor a file is answered with:
/// the name, and every preset name.
pub open spec fn unknown_theme_seq(name: Seq<char>) -> Seq<char> {
    "unknown theme `"@ + name + "`; available presets: "@ + join_seq(preset_name_list(), ", "@)
}

/// The error for a theme name that is neither a preset nor a file.
pub fn unknown_theme_message(name: &str) -> (r: String)
    ensures
        r@ == unknown_theme_seq(name@),
{
    let names = preset_names();
    let mut list = String::new();
    let mut i: usize = 0;
    while i < names.len()
        invariant
            i <= names@.len(),
            names@.len() == presets_in_order().len(),
            forall|k: int| 0 <= k < names@.len() ==> (#[trigger] names@[k])@ == preset_name_of(presets_in_order()[k]),
            list@ == join_seq(preset_name_list().subrange(0, i as int), ", "@),
        decreases names@.len() - i,
    {
        let ghost done = preset_name_list().subrange(0, i + 1);
        proof {
            assert(done.drop_last() =~= preset_name_list().subrange(0, i as int));
            assert(done.last() == names@[i as int]@);
        }
        if i > 0 {
            list.append(", ");
        } else {
            assert(done =~= seq![names@[i as int]@]);
            assert(list@ =~= Seq::<char>::empty());
        }
        let ghost before = list@;
        list.append(names[i]);
        proof {
            if i == 0 {
                assert(list@ =~= names@[0]@);
            } else {
                assert(list@ =~= join_seq(done.drop_last(), ", "@) + ", "@ + done.last());
            }
        }
        i = i + 1;
    }
    assert(preset_name_list().subrange(0, i as int) =~= preset_name_list());
    let mut out = concat("unknown theme `", name);
    out.append("`; available presets: ");
    out.append(list.as_str());
    out
}

/// A font family as a CSS `font-family` list writes it: in double quotes
/// when its name holds a space.
pub open spec fn quoted_family(family: Seq<char>) -> Seq<char> {
    if family.contains(' ') {
        seq!['"'] + family + seq!['"']
    } else {
        family
    }
}

/// A `font-family` value: the families, each quoted as it needs, separated
/// by `, `.
pub open spec fn family_list_seq(families: Seq<Seq<char>>) -> Seq<char> {
    join_seq(families.map_values(|f: Seq<char>| quoted_family(f)), ", "@)
}

/// Writes a stack of font families as a CSS `font-family` value.
pub fn font_family_list(families: &Vec<String>) -> (r: String)
    ensures
        r@ == family_list_seq(views(families@)),
{
    let ghost all = views(families@).map_values(|f: Seq<char>| quoted_family(f));
    let mut out = String::new();
    let mut i: usize = 0;
    while i < families.len()
        invariant
            i <= families@.len(),
            all == views(families@).map_values(|f: Seq<char>| quoted_family(f)),
            out@ == join_seq(all.subrange(0, i as int), ", "@),
        decreases families@.len() - i,
    {
        let family = families[i].as_str();
        let found = find_char(family, ' ');
        proof {
            lemma_first_index_of(family@, ' ');
            if let Some(k) = found {
                assert(family@[k as int] == ' ');
            }
        }
        let has_space = match found {
            Some(_) => true,
            None => false,
        };
        let quoted = if has_space {
            let opened = concat("\"", family);
            concat(opened.as_str(), "\"")
        } else {
            owned(family)
        };
        proof {
            reveal_strlit("\"");
            assert(quoted@ =~= quoted_family(family@));
            assert(all[i as int] == quoted_family(family@));
        }
        let ghost done = all.subrange(0, i + 1);
        proof {
            assert(done.drop_last() =~= all.subrange(0, i as int));
            assert(done.last() == quoted@);
        }
        if i > 0 {
            out.append(", ");
        } else {
            assert(done =~= seq![quoted@]);
            assert(out@ =~= Seq::<char>::empty());
        }
        out.append(quoted.as_str());
        proof {
            if i == 0 {
                assert(out@ =~= quoted@);
            } else {
                assert(out@ =~= join_seq(done.drop_last(), ", "@) + ", "@ + done.last());
            }
        }
        i = i + 1;
    }
    assert(all.subrange(0, i as int) =~= all);
    out
}

/// The appearance settings, trimmed and in any ASCII case: `auto` and
/// `system` follow the platform, `light` and `dark` pin the variant; and a
/// pinned variant ignores the platform preference.
pub proof fn lemma_appearance_words(text: Seq<char>, system_prefers_dark: bool)
    ensures
        lower_seq(trim_seq(text)) == "auto"@ ==> appearance_named(text) == Some(Appearance::Auto),
        lower_seq(trim_seq(text)) == "system"@ ==> appearance_named(text) == Some(Appearance::Auto),
        lower_seq(trim_seq(text)) == "light"@ ==> appearance_named(text) == Some(Appearance::Light),
        lower_seq(trim_seq(text)) == "dark"@ ==> appearance_named(text) == Some(Appearance::Dark),
{
    reveal_strlit("auto");
    reveal_strlit("system");
    reveal_strlit("light");
    reveal_strlit("dark");
    assert("auto"@.len() == 4);
    assert("system"@.len() == 6);
    assert("light"@.len() == 5);
    assert("dark"@.len() == 4);
    assert("auto"@[0] != "dark"@[0]);
}

} // verus!
