use temper::ui::{bold, cyan, dim, elide, green, red, width, yellow, Columns};

fn rows(pairs: &[(&str, &str)]) -> Vec<Vec<String>> {
    pairs.iter().map(|(a, b)| vec![a.to_string(), b.to_string(), String::new()]).collect()
}

/// The display column a substring starts at.
fn col_of(line: &str, needle: &str) -> Option<usize> {
    line.find(needle).map(|b| width(&line[..b]))
}

#[test]
fn colour_wraps_only_when_enabled() {
    assert_eq!(green("ok", true), "\u{1b}[1;32mok\u{1b}[0m");
    assert_eq!(green("ok", false), "ok");
    assert_eq!(red("x", true), "\u{1b}[1;31mx\u{1b}[0m");
    assert_eq!(yellow("x", true), "\u{1b}[1;33mx\u{1b}[0m");
    assert_eq!(cyan("x", true), "\u{1b}[1;36mx\u{1b}[0m");
    assert_eq!(bold("x", true), "\u{1b}[1mx\u{1b}[0m");
    assert_eq!(dim("x", false), "x");
}

#[test]
fn columns_align_to_the_widest_cell() {
    let r = rows(&[("zsh", "copy"), ("desktop-overrides", "exec"), ("ssh", "block")]);
    let c = Columns::measure(&r, 4, &[16, 0, 0], 2);
    let a = c.row(&["zsh", "copy", "~/.zshrc"], None);
    let b = c.row(&["ssh", "block", "~/.ssh/config"], None);
    assert_eq!(col_of(&a, "copy"), col_of(&b, "block"), "kind column not aligned:\n{a}\n{b}");
    assert_eq!(c.widths(), &vec![16, 5, 0]);
}

#[test]
fn a_long_name_is_capped_not_allowed_to_shove_everything_right() {
    let r = rows(&[("zsh", "copy"), ("an-absurdly-long-bundle-name", "exec")]);
    let c = Columns::measure(&r, 4, &[16, 0, 0], 2);
    let short = c.row(&["zsh", "copy", "~/.zshrc"], None);
    assert_eq!(col_of(&short, "copy"), Some(18), "{short:?}");
    let long = c.row(&["an-absurdly-long-bundle-name", "exec", "x"], None);
    assert!(long.starts_with("an-absurdly-lon…"), "{long:?}");
    assert_eq!(col_of(&long, "exec"), Some(18), "{long:?}");
}

#[test]
fn width_is_measured_in_display_columns_not_bytes() {
    let r = rows(&[("søg", "copy"), ("zsh", "copy")]);
    let c = Columns::measure(&r, 4, &[16, 0, 0], 2);
    let a = c.row(&["søg", "copy", "~/x"], None);
    let b = c.row(&["zsh", "copy", "~/x"], None);
    assert_eq!(col_of(&a, "copy"), col_of(&b, "copy"), "\n{a}\n{b}");
    assert_ne!(a.find("copy"), b.find("copy"));
}

#[test]
fn a_path_loses_its_head_a_name_loses_its_tail() {
    assert_eq!(elide("assets/scripts/retire-sesh-tap.sh", 12), "…sesh-tap.sh");
    assert_eq!(elide("desktop-overrides", 12), "desktop-ove…");
    assert_eq!(width(&elide("assets/scripts/x.sh", 12)), 12);
    assert_eq!(elide("~/.config/x", 40), "~/.config/x");
}

#[test]
fn redirected_output_is_never_shortened() {
    let r = rows(&[("zsh", "copy")]);
    let c = Columns::measure(&r, 4, &[16, 0, 0], 2);
    let long = "~/".to_string() + &"x/".repeat(200);
    assert!(c.row(&["zsh", "copy", &long], None).contains(&long));
    // …while on a narrow terminal the flex column gives way
    let squeezed = c.row(&["zsh", "copy", &long], Some(40));
    assert!(!squeezed.contains(&long));
    assert!(squeezed.ends_with("x/"), "{squeezed:?}");
    let parts = c.parts(&["zsh", "copy", "~/x"], None);
    assert_eq!(parts, vec![("zsh".to_string(), 2), ("copy".to_string(), 2), ("~/x".to_string(), 0)]);
}
