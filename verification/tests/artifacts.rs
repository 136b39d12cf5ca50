use lumo_icons::templates::{cargo_template, icon_template, mod_entry};
use lumo_icons::generate::lib_template;
use lumo_icons::{IconStyle, IconStyleData};

#[test]
fn icon_template_emits_one_constant() {
    let frags = vec!["a".to_string(), "b".to_string()];
    let out = icon_template("star-bold", &frags);
    assert_eq!(
        out,
        "pub const STAR_BOLD: &crate::IconStyleData = &crate::IconStyleData([\"a\", \"b\"]);\n"
    );
}

#[test]
fn icon_template_escapes_quotes_and_backslashes() {
    let frags = vec!["a\"b\\c".to_string()];
    let out = icon_template("x", &frags);
    assert_eq!(
        out,
        "pub const X: &crate::IconStyleData = &crate::IconStyleData([\"a\\\"b\\\\c\"]);\n"
    );
}

#[test]
fn icon_template_with_no_styles_emits_empty_array() {
    let frags: Vec<String> = vec![];
    let out = icon_template("x", &frags);
    assert_eq!(out, "pub const X: &crate::IconStyleData = &crate::IconStyleData([]);\n");
}

#[test]
fn single_category_icon_uses_direct_flag_guard() {
    let out = mod_entry("star-bold", &vec!["uncategorized".to_string()]);
    assert_eq!(
        out,
        "#[cfg(feature = \"uncategorized\")]\n#[doc(hidden)]\nmod star_bold;\n#[cfg(feature = \"uncategorized\")]\n#[doc(hidden)]\npub use star_bold::*;\n"
    );
}

#[test]
fn multi_category_icon_uses_any_of_guard_naming_both_flags() {
    let out = mod_entry("star", &vec!["ui".to_string(), "core".to_string()]);
    assert_eq!(
        out,
        "#[cfg(any(feature = \"ui\", feature = \"core\"))]\n#[doc(hidden)]\nmod star;\n#[cfg(any(feature = \"ui\", feature = \"core\"))]\n#[doc(hidden)]\npub use star::*;\n"
    );
}

#[test]
fn manifest_declares_one_flag_per_category_plus_aggregate() {
    let feats = vec!["core".to_string(), "uncategorized".to_string()];
    let out = cargo_template(&feats);
    let expected = "[package]\nname = \"lumo-icons\"\nversion = \"0.8.0\"\ndescription = \"Lumo icons for leptos\"\nauthors = [\"James <lumo.trade>\"]\nreadme = \"README.md\"\nrepository = \"https://github.com/cornfoo/lumo-icons\"\nkeywords = [\"icons\", \"leptos\", \"lumo\"]\nedition = \"2021\"\nlicense = \"MIT\"\nexclude = [\"/core\"]\n\n[dependencies]\nleptos = { version = \"0.7.8\", features = [\"csr\", \"nightly\"] }\nserde_json = \"1\"\n\n[workspace]\nmembers = [\"xtask\"]\n\n[features]\ndefault = [\"all\"]\nall = [\n\t\"core\",\n\t\"uncategorized\"\n]\ncore = []\nuncategorized = []\n";
    assert_eq!(out, expected);
}

#[test]
fn library_source_indexes_styles_in_sorted_order() {
    let styles = vec!["bold".to_string(), "core".to_string()];
    let out = lib_template(&styles, 256);
    assert!(out.contains("pub enum IconStyle {\n    Bold,\n    Core,\n}"));
    assert!(out.contains("pub struct IconStyleData(pub [&'static str; 2]);"));
    assert!(out.contains("IconStyle::Bold => self.0[0],"));
    assert!(out.contains("IconStyle::Core => self.0[1],"));
    assert!(out.contains("default = Signal::stored(IconStyle::Bold)"));
    assert!(out.contains("viewBox=\"0 0 256 256\""));
}

#[test]
fn library_source_without_styles_defaults_to_regular() {
    let styles: Vec<String> = vec![];
    let out = lib_template(&styles, 256);
    assert!(out.contains("default = Signal::stored(IconStyle::Regular)"));
    assert!(out.contains("pub struct IconStyleData(pub [&'static str; 0]);"));
}

#[test]
fn icon_style_data_returns_the_fragment_at_each_slot() {
    let data = IconStyleData(["a", "b", "c", "d", "e", "f"]);
    assert_eq!(data.get(IconStyle::Core), "a");
    assert_eq!(data.get(IconStyle::Flags), "b");
    assert_eq!(data.get(IconStyle::Glass), "c");
    assert_eq!(data.get(IconStyle::MicroBold), "d");
    assert_eq!(data.get(IconStyle::SocialMedia), "e");
    assert_eq!(data.get(IconStyle::Ui), "f");
}
