use vmiscope_gui::codeview::{classify_word, tint_line, Lang, Role};

fn roles(line: &str, lang: Lang) -> Vec<(String, Role)> {
    tint_line(line, lang)
        .into_iter()
        .map(|s| (s.text, s.role))
        .collect()
}

#[test]
fn tinting_never_loses_characters() {
    for (line, lang) in [
        (
            "SELECT Name FROM Win32_Process WHERE ProcessId = 42",
            Lang::Wql,
        ),
        (
            "$cim = New-CimSession -ComputerName 'DC01'  # connect",
            Lang::PowerShell,
        ),
        ("  [key, read] string Handle;", Lang::Mof),
        (
            "Set objWMI = GetObject(\"winmgmts:\") ' legacy",
            Lang::VbScript,
        ),
        ("", Lang::Plain),
    ] {
        let joined: String = tint_line(line, lang)
            .iter()
            .map(|s| s.text.as_str())
            .collect();
        assert_eq!(joined, line, "{lang:?} lost or invented characters");
    }
}

#[test]
fn a_comment_marker_inside_a_string_does_not_start_a_comment() {
    let spans = roles("WHERE Name = \"a # b\" AND x = 1", Lang::PowerShell);
    assert!(spans
        .iter()
        .any(|(t, r)| t == "\"a # b\"" && *r == Role::Str));
    assert!(
        !spans.iter().any(|(_, r)| *r == Role::Comment),
        "the # inside the literal opened a comment"
    );
}

#[test]
fn a_quote_inside_a_comment_does_not_open_a_string() {
    let spans = roles("# it's fine \"really", Lang::PowerShell);
    assert_eq!(spans.len(), 1);
    assert_eq!(spans[0].1, Role::Comment);
}

#[test]
fn an_unterminated_string_ends_at_the_line() {
    let spans = roles("SELECT * FROM x WHERE n = \"oops", Lang::Wql);
    let last = spans.last().expect("spans");
    assert_eq!(last.1, Role::Str);
    assert_eq!(last.0, "\"oops");
}

#[test]
fn doubled_quotes_stay_inside_the_literal() {
    let spans = roles("WHERE Name = \"say \"\"hi\"\"\"", Lang::Wql);
    assert!(spans
        .iter()
        .any(|(t, r)| *r == Role::Str && t.contains("hi")));
}

#[test]
fn keyword_casing_follows_the_language() {
    assert_eq!(classify_word("select", Lang::Wql), Role::Keyword);
    assert_eq!(classify_word("SELECT", Lang::Wql), Role::Keyword);
    assert_eq!(classify_word("Var", Lang::CSharp), Role::Plain);
    assert_eq!(classify_word("var", Lang::CSharp), Role::Keyword);
}

#[test]
fn numbers_are_numbers_and_identifiers_are_not() {
    assert_eq!(classify_word("42", Lang::Wql), Role::Number);
    assert_eq!(classify_word("10737418240", Lang::Wql), Role::Number);
    assert_eq!(classify_word("Win32_Process", Lang::Wql), Role::Plain);
    assert_eq!(classify_word("...", Lang::Wql), Role::Plain);
}

#[test]
fn each_language_names_its_comment_marker() {
    assert_eq!(Lang::Wql.line_comment(), Some("--"));
    assert_eq!(Lang::Plain.line_comment(), None);
    assert_eq!(Lang::PowerShell.line_comment(), Some("#"));
    assert_eq!(Lang::CSharp.line_comment(), Some("//"));
    assert_eq!(Lang::VbScript.line_comment(), Some("'"));
    assert_eq!(Lang::Wql.label(), "WQL");
    assert!(Lang::Wql.keywords().contains(&"SELECT"));
}
