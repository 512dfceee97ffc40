//! The Settings view's presets and the code-language mapping.

use vstd::prelude::*;

verus! {

/// Row-cap presets. A list rather than a free number: WQL has no `TOP`, so
/// the cap is the only thing between `SELECT * FROM CIM_DataFile` and every
/// file on the machine.
pub fn row_limits() -> (r: [(usize, &'static str); 5])
    ensures
        forall|i: int, j: int| 0 <= i < j < 5 ==> r@[i].0 < r@[j].0,
        r@[0].0 == 500 && r@[1].0 == 1000 && r@[2].0 == 5000 && r@[3].0 == 20000 && r@[4].0 == 100000,
        r@[0].1@ == "500 rows"@ && r@[1].1@ == "1,000 rows"@ && r@[2].1@ == "5,000 rows"@
            && r@[3].1@ == "20,000 rows"@ && r@[4].1@ == "100,000 rows"@,
{
    [
        (500, "500 rows"),
        (1_000, "1,000 rows"),
        (5_000, "5,000 rows"),
        (20_000, "20,000 rows"),
        (100_000, "100,000 rows"),
    ]
}

/// Operation-timeout presets, in seconds.
pub fn timeouts() -> (r: [(u64, &'static str); 5])
    ensures
        forall|i: int, j: int| 0 <= i < j < 5 ==> r@[i].0 < r@[j].0,
        r@[0].0 == 10 && r@[1].0 == 30 && r@[2].0 == 60 && r@[3].0 == 120 && r@[4].0 == 300,
        r@[0].1@ == "10 s"@ && r@[1].1@ == "30 s"@ && r@[2].1@ == "1 min"@ && r@[3].1@ == "2 min"@
            && r@[4].1@ == "5 min"@,
{
    [(10, "10 s"), (30, "30 s"), (60, "1 min"), (120, "2 min"), (300, "5 min")]
}

/// Column-guide presets for the Code sub-tab.
pub fn guides() -> (r: [(u32, &'static str); 4])
    ensures
        forall|i: int, j: int| 0 <= i < j < 4 ==> r@[i].0 < r@[j].0,
        r@[0].0 == 80 && r@[1].0 == 100 && r@[2].0 == 120 && r@[3].0 == 160,
        r@[0].1@ == "80 columns"@ && r@[1].1@ == "100 columns"@ && r@[2].1@ == "120 columns"@
            && r@[3].1@ == "160 columns"@,
{
    [(80, "80 columns"), (100, "100 columns"), (120, "120 columns"), (160, "160 columns")]
}

/// The persisted code language.
#[derive(Clone, Copy, PartialEq, Eq, Debug, Structural)]
pub enum CodeLang {
    PowerShell,
    VbScript,
}

/// The app's live script generator.
#[derive(Clone, Copy, PartialEq, Eq, Debug, Structural)]
pub enum ScriptLang {
    PowerShell,
    VbScript,
}

/// Map the persisted code language onto the live generator, one for one.
pub fn script_lang_of(lang: CodeLang) -> (r: ScriptLang)
    ensures
        r == match lang {
            CodeLang::PowerShell => ScriptLang::PowerShell,
            CodeLang::VbScript => ScriptLang::VbScript,
        },
{
    match lang {
        CodeLang::PowerShell => ScriptLang::PowerShell,
        CodeLang::VbScript => ScriptLang::VbScript,
    }
}

} // verus!
