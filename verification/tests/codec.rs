use tamashii::hosts::add_domains;
use tamashii::hosts::get_blocked_domains;
use tamashii::hosts::normalize_domain;
use tamashii::hosts::remove_tamashii_block;
use tamashii::models::blocker_state_from;
use tamashii::unsupported;
use tamashii::watcher::Watcher;

const START: &str = "# === TAMASHII START ===";
const END: &str = "# === TAMASHII END ===";

fn strs(v: &[&str]) -> Vec<String> {
    v.iter().map(|s| s.to_string()).collect()
}

#[test]
fn apply_then_list_returns_expanded_set() {
    let content = "127.0.0.1 localhost\n# comment\n";
    let out = add_domains(content, &strs(&["Example.COM", "www.foo.org", "   ", "bar.net"]));
    let listed = get_blocked_domains(&out);
    assert_eq!(
        listed,
        strs(&[
            "example.com",
            "www.example.com",
            "www.foo.org",
            "bar.net",
            "www.bar.net"
        ])
    );
}

#[test]
fn apply_empty_equals_remove() {
    let content = format!("a\n{}\n127.0.0.1 x\n{}\nb\n", START, END);
    assert_eq!(
        add_domains(&content, &Vec::new()),
        remove_tamashii_block(&content)
    );
}

#[test]
fn reapply_leaves_one_section() {
    let content = "127.0.0.1 localhost\n";
    let once = add_domains(content, &strs(&["one.com"]));
    let twice = add_domains(&once, &strs(&["two.com"]));
    let direct = add_domains(&remove_tamashii_block(content), &strs(&["two.com"]));
    assert_eq!(twice, direct);
    assert_eq!(twice.matches(START).count(), 1);
    assert_eq!(twice.matches(END).count(), 1);
    assert_eq!(get_blocked_domains(&twice), strs(&["two.com", "www.two.com"]));
}

#[test]
fn strip_undoes_apply() {
    let content = "alpha\nbeta\n";
    let applied = add_domains(content, &strs(&["site.io"]));
    assert_eq!(remove_tamashii_block(&applied), "alpha\nbeta\n");
}

#[test]
fn strip_undoes_apply_modulo_trailing_newline() {
    let content = "alpha\nbeta";
    let applied = add_domains(content, &strs(&["site.io"]));
    assert_eq!(remove_tamashii_block(&applied), "alpha\nbeta\n");
}

#[test]
fn outside_lines_are_untouched() {
    let content = format!(
        "before one\nbefore two\n{}\n127.0.0.1 old.com\n{}\nafter one\nafter two\n",
        START, END
    );
    let removed = remove_tamashii_block(&content);
    assert_eq!(removed, "before one\nbefore two\nafter one\nafter two\n");
    let reapplied = add_domains(&content, &strs(&["new.org"]));
    assert!(reapplied.starts_with("before one\nbefore two\nafter one\nafter two\n"));
    assert_eq!(
        get_blocked_domains(&reapplied),
        strs(&["new.org", "www.new.org"])
    );
}

#[test]
fn strip_without_end_marker_removes_to_end() {
    let content = format!("keep\n{}\n127.0.0.1 x.com\ndangling\n", START);
    assert_eq!(remove_tamashii_block(&content), "keep\n");
}

#[test]
fn strip_without_any_marker_keeps_everything() {
    let content = "only\nordinary\nlines\n";
    assert_eq!(remove_tamashii_block(content), content);
}

#[test]
fn markers_match_up_to_surrounding_whitespace() {
    let content = format!("a\n  {}  \n127.0.0.1 x\n\t{}\nb\n", START, END);
    assert_eq!(remove_tamashii_block(&content), "a\nb\n");
}

#[test]
fn crlf_terminators_outside_section_are_preserved() {
    let content = format!("win line\r\n{}\r\n127.0.0.1 x\r\n{}\r\nlast\r\n", START, END);
    assert_eq!(remove_tamashii_block(&content), "win line\r\nlast\r\n");
}

#[test]
fn normalize_lowercases_and_trims() {
    let r = normalize_domain("  ExAmPle.Com\t").unwrap();
    assert_eq!(r.0, "example.com");
    assert_eq!(r.1, Some("www.example.com".to_string()));
}

#[test]
fn normalize_keeps_existing_www() {
    let r = normalize_domain("www.Example.com").unwrap();
    assert_eq!(r.0, "www.example.com");
    assert_eq!(r.1, None);
}

#[test]
fn normalize_drops_blank() {
    assert!(normalize_domain("   \t ").is_none());
    assert!(normalize_domain("").is_none());
}

#[test]
fn rendered_section_shape() {
    let out = add_domains("", &strs(&["a.com"]));
    assert_eq!(
        out,
        format!("\n{}\n127.0.0.1 a.com\n127.0.0.1 www.a.com\n{}\n", START, END)
    );
}

#[test]
fn all_blank_list_renders_empty_section() {
    let out = add_domains("x\n", &strs(&["  "]));
    assert_eq!(out, format!("x\n{}\n{}\n", START, END));
    assert_eq!(get_blocked_domains(&out), Vec::<String>::new());
}

#[test]
fn unsupported_platform_is_a_quiet_no_op() {
    assert!(unsupported::add_domains(&strs(&["x.com"])).is_ok());
    assert!(unsupported::remove_domains().is_ok());
    assert_eq!(unsupported::get_blocked_domains().unwrap(), Vec::<String>::new());
    assert!(!unsupported::is_admin());
}

#[test]
fn watcher_ticks_reapply_only_non_empty_sets() {
    let w = Watcher::new(strs(&["a.com", "b.com"]));
    assert_eq!(w.tick_domains().unwrap(), &strs(&["a.com", "b.com"]));
    let idle = Watcher::new(Vec::new());
    assert!(idle.tick_domains().is_none());
}

#[test]
fn blocker_state_reflects_domains() {
    let s = blocker_state_from(true, strs(&["a.com"]));
    assert!(s.is_active);
    assert!(s.is_admin);
    assert_eq!(s.blocked_domains, strs(&["a.com"]));
    let s2 = blocker_state_from(false, Vec::new());
    assert!(!s2.is_active);
    assert!(!s2.is_admin);
}
