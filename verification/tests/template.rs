use temper::manifest::Vars;
use temper::template::{scan, Lookup, Scan, TemplateError};

/// Renders with the host lookups answered by `host`.
fn render(input: &str, vars: &Vars, host: &dyn Fn(&Lookup) -> Result<String, String>) -> Result<String, String> {
    let mut out = String::new();
    let mut rest = input.to_string();
    loop {
        match scan(&rest, vars) {
            Scan::Done(s) => return Ok(out + &s),
            Scan::Failed(e) => return Err(e.message()),
            Scan::Call(text, call, after) => {
                out.push_str(&text);
                out.push_str(&host(&call)?);
                rest = after;
            },
        }
    }
}

fn no_host(_: &Lookup) -> Result<String, String> {
    Err("no host here".to_string())
}

#[test]
fn unknown_argless_function_errors() {
    assert!(render("{{ bogus_fn }}", &Vars::new(), &no_host).is_err());
}

#[test]
fn var_still_works_alongside_argless() {
    let mut vars = Vars::new();
    vars.insert("NAME".to_string(), "kira".to_string());
    assert_eq!(render("hi {{ var \"NAME\" }}", &vars, &no_host).unwrap(), "hi kira");
}

#[test]
fn text_without_expressions_is_kept_as_is() {
    assert!(matches!(scan("plain } text {", &Vars::new()), Scan::Done(s) if s == "plain } text {"));
}

#[test]
fn a_scan_stops_at_each_host_lookup() {
    let mut vars = Vars::new();
    vars.insert("U".to_string(), "me".to_string());
    match scan("a{{var \"U\"}}b{{ which \"git\" }}c{{ brew_prefix }}", &vars) {
        Scan::Call(text, Lookup::Which(arg), after) => {
            assert_eq!(text, "ameb");
            assert_eq!(arg, "git");
            assert_eq!(after, "c{{ brew_prefix }}");
        },
        other => panic!("{other:?}"),
    }
    let host = |c: &Lookup| match c {
        Lookup::Which(a) => Ok(format!("/usr/bin/{a}")),
        Lookup::BrewPrefix => Ok("/opt/homebrew".to_string()),
        Lookup::Env(a) => Err(format!("env: `{a}` is not set")),
    };
    assert_eq!(
        render("a{{var \"U\"}}b{{ which \"git\" }}c{{ brew_prefix }}", &vars, &host).unwrap(),
        "ameb/usr/bin/gitc/opt/homebrew"
    );
    assert_eq!(render("{{ env \"HOME\" }}", &vars, &host).unwrap_err(), "env: `HOME` is not set");
}

#[test]
fn each_template_failure_is_named() {
    let v = Vars::new();
    assert!(matches!(scan("x {{ var \"A\"", &v), Scan::Failed(TemplateError::Unterminated)));
    assert!(matches!(scan("{{ var A }}", &v), Scan::Failed(TemplateError::Unquoted(e)) if e == "var A"));
    assert!(matches!(scan("{{ echo \"A\" }}", &v), Scan::Failed(TemplateError::Unknown(f)) if f == "echo"));
    assert!(matches!(scan("{{ var \"A\" }}", &v), Scan::Failed(TemplateError::Undeclared(n)) if n == "A"));
    assert_eq!(TemplateError::Unterminated.message(), "unterminated `{{` in template");
    assert_eq!(
        TemplateError::Undeclared("A".to_string()).message(),
        "var: `A` is not declared in [vars]"
    );
}
