use waysnap::{
    expand_self_closing_root, insert_before_closing_tag, installed_rc_xml, is_self_closing_root, keybind_snippet,
    minimal_rc_xml, parse_labwc_pid, patch_rc_xml, replace_waysnap_block, PidError,
};

const BLOCK: &str = "  <!-- waysnap: x -->\n  <!-- end waysnap -->\n";

#[test]
fn snippet_is_framed_by_markers() {
    let s = keybind_snippet("A");
    assert!(s.starts_with("  <!-- waysnap: window snapping keybindings (modifier=A) -->\n"));
    assert!(s.ends_with("  </keyboard>\n  <!-- end waysnap -->\n"));
    assert_eq!(s.matches("<!-- waysnap:").count(), 1);
    assert_eq!(s.matches("  <!-- end waysnap -->").count(), 1);
    assert_eq!(s.matches("A-").count(), 9);
    assert!(s.contains("<keybind key=\"A-f\">\n      <action name=\"ToggleMaximize\"/>"));
    assert!(s.contains("<keybind key=\"A-KP_7\">\n      <action name=\"SnapToEdge\" direction=\"up-left\"/>"));
}

#[test]
fn snippet_with_empty_modifier() {
    let s = keybind_snippet("");
    assert!(s.contains("(modifier=)"));
    assert!(s.contains("<keybind key=\"-Left\">"));
}

#[test]
fn minimal_rc_xml_exact() {
    assert_eq!(
        minimal_rc_xml("S"),
        "<?xml version=\"1.0\"?>\n<labwc_config>\n\nS\n</labwc_config>\n"
    );
}

#[test]
fn insert_exact_and_last_closing_tag() {
    assert_eq!(
        insert_before_closing_tag("<openbox_config></openbox_config></labwc_config>x", "S"),
        "<openbox_config></openbox_config>\nS</labwc_config>x"
    );
    assert_eq!(
        insert_before_closing_tag("<labwc_config></labwc_config></labwc_config>", "S"),
        "<labwc_config></labwc_config>\nS</labwc_config>"
    );
}

#[test]
fn insert_without_closing_tag_appends() {
    assert_eq!(insert_before_closing_tag("<root/>", "S"), "<root/>\nS");
    assert_eq!(insert_before_closing_tag("", "S"), "\nS");
}

#[test]
fn insert_keeps_non_ascii_text() {
    assert_eq!(insert_before_closing_tag("<a>é</labwc_config>", "S"), "<a>é\nS</labwc_config>");
}

#[test]
fn replace_exact() {
    let xml = "<labwc_config>\n  <!-- waysnap: old -->\n  <!-- end waysnap -->\n\n\n</labwc_config>\n";
    assert_eq!(
        replace_waysnap_block(xml, "NEW\n"),
        "<labwc_config>\n  NEW\n</labwc_config>\n"
    );
}

#[test]
fn replace_without_end_marker_inserts() {
    let xml = "<labwc_config>\n<!-- waysnap: half\n</labwc_config>\n";
    assert_eq!(
        replace_waysnap_block(xml, BLOCK),
        "<labwc_config>\n<!-- waysnap: half\n\n  <!-- waysnap: x -->\n  <!-- end waysnap -->\n</labwc_config>\n"
    );
}

#[test]
fn self_closing_detection_cases() {
    assert!(is_self_closing_root("<labwc_config/>"));
    assert!(!is_self_closing_root("<labwc_config></labwc_config>"));
    assert!(!is_self_closing_root("<other/>"));
    assert!(!is_self_closing_root(""));
}

#[test]
fn expand_keeps_trailing_text_trimmed() {
    assert_eq!(
        expand_self_closing_root("<?xml?>\n<labwc_config/>  <!-- c -->  \n", BLOCK),
        "<?xml?>\n<labwc_config>\n  <!-- waysnap: x -->\n  <!-- end waysnap -->\n</labwc_config>\n<!-- c -->\n"
    );
}

#[test]
fn expand_without_self_close_appends() {
    assert_eq!(
        expand_self_closing_root("<labwc_config", BLOCK),
        "<labwc_config\n  <!-- waysnap: x -->\n  <!-- end waysnap -->\n"
    );
}

#[test]
fn expand_result_is_not_self_closing() {
    let r = expand_self_closing_root("<openbox_config a=\"1\"/>", BLOCK);
    assert_eq!(
        r,
        "<openbox_config a=\"1\">\n  <!-- waysnap: x -->\n  <!-- end waysnap -->\n</openbox_config>\n"
    );
    assert!(!is_self_closing_root(&r));
}

#[test]
fn patch_dispatches_on_file_state() {
    // Normal root: insert before the closing tag.
    assert_eq!(
        patch_rc_xml("<labwc_config>\n</labwc_config>\n", "S\n"),
        "<labwc_config>\n\nS\n</labwc_config>\n"
    );
    // Self-closing root: expand it.
    assert_eq!(
        patch_rc_xml("<labwc_config/>", "S\n"),
        "<labwc_config>\nS\n</labwc_config>\n"
    );
    // Existing block: replace it.
    assert_eq!(
        patch_rc_xml("<labwc_config>\n<!-- waysnap: a -->  <!-- end waysnap -->\n</labwc_config>\n", "S\n"),
        "<labwc_config>\nS\n</labwc_config>\n"
    );
}

#[test]
fn reinstall_replaces_in_place() {
    let c = "<labwc_config>\n  <core/>\n</labwc_config>\n";
    let once = patch_rc_xml(c, BLOCK);
    assert_eq!(
        once,
        "<labwc_config>\n  <core/>\n\n  <!-- waysnap: x -->\n  <!-- end waysnap -->\n</labwc_config>\n"
    );
    let twice = patch_rc_xml(&once, BLOCK);
    assert_eq!(
        twice,
        "<labwc_config>\n  <core/>\n\n    <!-- waysnap: x -->\n  <!-- end waysnap -->\n</labwc_config>\n"
    );
    assert_eq!(twice.matches("<!-- waysnap:").count(), 1);
}

#[test]
fn reinstall_keybind_snippet_keeps_one_block() {
    let snip = keybind_snippet("W");
    let once = patch_rc_xml("<labwc_config>\n</labwc_config>\n", &snip);
    let twice = patch_rc_xml(&once, &snip);
    assert_eq!(twice.matches("<!-- waysnap:").count(), 1);
    assert_eq!(twice.matches("  <!-- end waysnap -->").count(), 1);
    assert!(twice.contains(&snip));
    assert!(twice.ends_with("  <!-- end waysnap -->\n</labwc_config>\n"));
}

#[test]
fn pid_accepts_positive_numbers() {
    assert_eq!(parse_labwc_pid("1234"), Ok(1234));
    assert_eq!(parse_labwc_pid(" 42\n"), Ok(42));
    assert_eq!(parse_labwc_pid("+7"), Ok(7));
    assert_eq!(parse_labwc_pid("007"), Ok(7));
    assert_eq!(parse_labwc_pid("2147483647"), Ok(2147483647));
    assert_eq!(parse_labwc_pid("\u{3000}99\u{a0}"), Ok(99));
}

#[test]
fn pid_rejects_non_numbers() {
    assert_eq!(parse_labwc_pid(""), Err(PidError::NotANumber));
    assert_eq!(parse_labwc_pid("   "), Err(PidError::NotANumber));
    assert_eq!(parse_labwc_pid("abc"), Err(PidError::NotANumber));
    assert_eq!(parse_labwc_pid("+"), Err(PidError::NotANumber));
    assert_eq!(parse_labwc_pid("-"), Err(PidError::NotANumber));
    assert_eq!(parse_labwc_pid("12a"), Err(PidError::NotANumber));
    assert_eq!(parse_labwc_pid("1 2"), Err(PidError::NotANumber));
    assert_eq!(parse_labwc_pid("+-3"), Err(PidError::NotANumber));
    assert_eq!(parse_labwc_pid("2147483648"), Err(PidError::NotANumber));
    assert_eq!(parse_labwc_pid("99999999999999999999"), Err(PidError::NotANumber));
    assert_eq!(parse_labwc_pid("-2147483649"), Err(PidError::NotANumber));
}

#[test]
fn pid_rejects_non_positive() {
    assert_eq!(parse_labwc_pid("0"), Err(PidError::NotPositive(0)));
    assert_eq!(parse_labwc_pid("-5"), Err(PidError::NotPositive(-5)));
    assert_eq!(parse_labwc_pid("-2147483648"), Err(PidError::NotPositive(-2147483648)));
}

#[test]
fn pid_agrees_with_std_parse() {
    for s in ["1", " 12 ", "-3", "+0", "x", "", "2147483647", "2147483648", "-2147483648", "٣"] {
        let expected = match s.trim().parse::<i32>() {
            Err(_) => Err(PidError::NotANumber),
            Ok(v) if v <= 0 => Err(PidError::NotPositive(v)),
            Ok(v) => Ok(v),
        };
        assert_eq!(parse_labwc_pid(s), expected, "input {:?}", s);
    }
}

#[test]
fn install_covers_missing_and_existing_files() {
    assert_eq!(
        installed_rc_xml(None, "S\n"),
        "<?xml version=\"1.0\"?>\n<labwc_config>\n\nS\n\n</labwc_config>\n"
    );
    assert_eq!(
        installed_rc_xml(Some("<openbox_config>\n</openbox_config>\n"), "S\n"),
        "<openbox_config>\n\nS\n</openbox_config>\n"
    );
}

#[test]
fn replace_block_with_unindented_end_comment() {
    let xml = "<labwc_config>\n<!-- waysnap: old -->\n<!-- end waysnap -->\n</labwc_config>\n";
    let result = replace_waysnap_block(xml, "S\n");
    assert!(result.contains("S\n"));
    assert!(!result.contains("old"));
    assert!(result.ends_with("</labwc_config>\n"));
    assert_eq!(result, "<labwc_config>\nS\n</labwc_config>\n");
}

#[test]
fn open_root_without_closing_tag_is_not_self_closing() {
    let xml = "<?xml version=\"1.0\"?>\n<labwc_config>\n";
    assert!(!is_self_closing_root(xml));
    assert!(!is_self_closing_root("<labwc_config>\n  <keyboard/>\n"));
    assert!(is_self_closing_root("<labwc_config a=\"b\" />\n"));
    // Such a file gets the snippet appended, not an expansion at an unrelated `/>`.
    assert_eq!(
        patch_rc_xml("<labwc_config>\n  <keyboard/>\n", "S\n"),
        "<labwc_config>\n  <keyboard/>\n\nS\n"
    );
}

#[test]
fn reinstall_other_modifier_replaces_block() {
    let once = patch_rc_xml("<labwc_config>\n</labwc_config>\n", &keybind_snippet("W"));
    let twice = patch_rc_xml(&once, &keybind_snippet("A"));
    assert_eq!(
        twice,
        format!("<labwc_config>\n\n  {}</labwc_config>\n", keybind_snippet("A"))
    );
    assert!(!twice.contains("W-Left"));
}

#[test]
fn snippet_is_w_snippet_with_modifier_substituted() {
    for m in ["", "A", "C-A", "Super"] {
        assert_eq!(keybind_snippet(m), keybind_snippet("W").replace("W", m));
        assert_eq!(keybind_snippet(m).len(), keybind_snippet("").len() + 10 * m.len());
    }
}

#[test]
fn end_comment_before_start_marker_is_not_the_block_end() {
    // A stray end comment, then the block with an indented end comment.
    assert_eq!(
        replace_waysnap_block(
            "<!-- end waysnap -->\n<!-- waysnap: old -->\n  <!-- end waysnap -->\n</labwc_config>\n",
            "S\n"
        ),
        "<!-- end waysnap -->\nS\n</labwc_config>\n"
    );
    // A start marker with only a stray end comment before it: insert.
    assert_eq!(
        replace_waysnap_block(
            "<labwc_config>\n<!-- end waysnap -->\n<!-- waysnap: old -->\n</labwc_config>\n",
            "S\n"
        ),
        "<labwc_config>\n<!-- end waysnap -->\n<!-- waysnap: old -->\n\nS\n</labwc_config>\n"
    );
}

#[test]
fn reinstall_with_stray_end_comment_before_block() {
    let a = "<labwc_config>\n<!-- end waysnap -->\n";
    let content = format!("{}{}</labwc_config>\n", a, keybind_snippet("W"));
    let result = replace_waysnap_block(&content, &keybind_snippet("A"));
    assert_eq!(result, format!("{}  {}</labwc_config>\n", a, keybind_snippet("A")));
    assert!(!result.contains("W-Left"));
}
