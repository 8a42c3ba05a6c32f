use waysnap::{
    expand_self_closing_root, insert_before_closing_tag, is_self_closing_root, keybind_snippet,
    minimal_rc_xml, replace_waysnap_block,
};

#[test]
fn snippet_contains_snap_to_edge() {
    let s = keybind_snippet("W");
    assert!(s.contains("SnapToEdge"));
    assert!(s.contains("W-Left"));
    assert!(s.contains("W-Right"));
    assert!(s.contains("W-Up"));
    assert!(s.contains("W-Down"));
    assert!(s.contains("direction=\"up-left\""));
    assert!(s.contains("direction=\"down-right\""));
}

#[test]
fn insert_into_minimal_xml() {
    let xml = "<?xml version=\"1.0\"?>\n<labwc_config>\n</labwc_config>\n";
    let snippet = "  <keyboard><keybind key=\"W-Left\"/></keyboard>\n";
    let result = insert_before_closing_tag(xml, snippet);
    assert!(result.contains(snippet));
    assert!(result.contains("</labwc_config>"));
    // The snippet must come before the closing tag.
    let pos_snippet = result.find(snippet).unwrap();
    let pos_close = result.find("</labwc_config>").unwrap();
    assert!(pos_snippet < pos_close);
}

#[test]
fn insert_into_openbox_compat_xml() {
    // labwc also accepts <openbox_config> with an explicit closing tag
    let xml = "<?xml version=\"1.0\"?>\n<openbox_config>\n</openbox_config>\n";
    let snippet = "  <keyboard><keybind key=\"W-Left\"/></keyboard>\n";
    let result = insert_before_closing_tag(xml, snippet);
    assert!(result.contains(snippet));
    assert!(result.contains("</openbox_config>"));
    let pos_snippet = result.find(snippet).unwrap();
    let pos_close = result.find("</openbox_config>").unwrap();
    assert!(pos_snippet < pos_close);
}

#[test]
fn detect_self_closing_root() {
    let self_closing =
        "<?xml version=\"1.0\"?>\n<openbox_config xmlns=\"http://openbox.org/3.4/rc\"/>";
    let normal = "<?xml version=\"1.0\"?>\n<openbox_config>\n</openbox_config>\n";
    assert!(is_self_closing_root(self_closing));
    assert!(!is_self_closing_root(normal));
}

#[test]
fn expand_self_closing_openbox_config() {
    let xml = "<?xml version=\"1.0\"?>\n<openbox_config xmlns=\"http://openbox.org/3.4/rc\"/>";
    let snippet = "  <!-- waysnap: test -->\n  <!-- end waysnap -->\n";
    let result = expand_self_closing_root(xml, snippet);
    assert!(result.contains("</openbox_config>"));
    assert!(result.contains(snippet));
    assert!(!result.contains("/>"));
    let pos_snippet = result.find(snippet).unwrap();
    let pos_close = result.find("</openbox_config>").unwrap();
    assert!(pos_snippet < pos_close);
}

#[test]
fn replace_existing_waysnap_block() {
    let xml = "<labwc_config>\n  <!-- waysnap: old -->\n  <keyboard/>\n  <!-- end waysnap -->\n</labwc_config>\n";
    let new_snippet = "  <!-- waysnap: new -->\n  <!-- end waysnap -->\n";
    let result = replace_waysnap_block(xml, new_snippet);
    assert!(result.contains("new"));
    assert!(!result.contains("old"));
}

#[test]
fn minimal_xml_is_valid_structure() {
    let s = minimal_rc_xml("  <!-- test -->\n");
    assert!(s.starts_with("<?xml"));
    assert!(s.contains("<labwc_config>"));
    assert!(s.contains("</labwc_config>"));
    assert!(s.contains("<!-- test -->"));
}
