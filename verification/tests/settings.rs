use vmiscope_gui::settings::{guides, row_limits, script_lang_of, timeouts, CodeLang, ScriptLang};

#[test]
fn presets_ascend_without_repeating() {
    assert!(row_limits().windows(2).all(|w| w[0].0 < w[1].0));
    assert!(timeouts().windows(2).all(|w| w[0].0 < w[1].0));
    assert!(guides().windows(2).all(|w| w[0].0 < w[1].0));
}

#[test]
fn each_preset_reads_as_its_value() {
    assert_eq!(row_limits()[1], (1_000, "1,000 rows"));
    assert_eq!(timeouts()[2], (60, "1 min"));
    assert_eq!(guides()[0], (80, "80 columns"));
}

#[test]
fn the_code_language_maps_one_for_one() {
    assert_eq!(script_lang_of(CodeLang::PowerShell), ScriptLang::PowerShell);
    assert_eq!(script_lang_of(CodeLang::VbScript), ScriptLang::VbScript);
}
