//! Patching of labwc's `rc.xml`: inserting, replacing and wrapping the
//! waysnap keybinding block.
use vstd::prelude::*;
use vstd::string::*;

use crate::text::{
    chars_of, find, find_from, find_from_in, find_in, has_substr, has_substr_in, lemma_find,
    lemma_find_from, lemma_rfind, rfind, rfind_in, skip_newlines, strip_leading_newlines, trim,
    trim_range,
};

verus! {

// ---------------------------------------------------------------------------
// Markers
// ---------------------------------------------------------------------------

/// The comment that opens a waysnap block.
pub open spec fn start_marker() -> Seq<char> {
    "<!-- waysnap:"@
}

/// The comment that closes a waysnap block.
pub open spec fn end_marker() -> Seq<char> {
    "<!-- end waysnap -->"@
}

/// Closing tag of the native labwc root element.
pub open spec fn labwc_close() -> Seq<char> {
    "</labwc_config>"@
}

/// Closing tag of the OpenBox-compatible root element.
pub open spec fn openbox_close() -> Seq<char> {
    "</openbox_config>"@
}

/// Start of the native labwc root element.
pub open spec fn labwc_open() -> Seq<char> {
    "<labwc_config"@
}

/// Start of the OpenBox-compatible root element.
pub open spec fn openbox_open() -> Seq<char> {
    "<openbox_config"@
}

/// The end of a self-closing tag.
pub open spec fn self_close() -> Seq<char> {
    "/>"@
}

// ---------------------------------------------------------------------------
// Specifications
// ---------------------------------------------------------------------------

/// Where the snippet goes: the last `</labwc_config>`, or failing that the
/// last `</openbox_config>`.
pub open spec fn closing_tag_pos(c: Seq<char>) -> Option<nat> {
    match rfind(c, labwc_close()) {
        Some(p) => Some(p),
        None => rfind(c, openbox_close()),
    }
}

/// `c` with a newline and `snip` inserted just before its root closing tag,
/// or appended at the end when it has none.
pub open spec fn spec_insert_before_closing_tag(c: Seq<char>, snip: Seq<char>) -> Seq<char> {
    match closing_tag_pos(c) {
        Some(p) => c.subrange(0, p as int) + "\n"@ + snip + c.subrange(p as int, c.len() as int),
        None => c + "\n"@ + snip,
    }
}

/// Where the waysnap block ends: the first end comment at or after the
/// start marker at `s`.
pub open spec fn block_end_comment(c: Seq<char>, s: nat) -> Option<nat> {
    find_from(c, end_marker(), s)
}

/// `c` with the block replaced by `snip`: the text from the first start
/// marker to the end of the first end comment that follows it, and the
/// newlines right after that comment. The end comment is recognised with or
/// without indentation. Without a start marker, or without an end comment
/// after it, `snip` is inserted before the closing tag instead.
pub open spec fn spec_replace_waysnap_block(c: Seq<char>, snip: Seq<char>) -> Seq<char> {
    match find(c, start_marker()) {
        Some(s) => match block_end_comment(c, s) {
            Some(e) => c.subrange(0, s as int) + snip + strip_leading_newlines(
                c.subrange((e + end_marker().len()) as int, c.len() as int),
            ),
            None => spec_insert_before_closing_tag(c, snip),
        },
        None => spec_insert_before_closing_tag(c, snip),
    }
}

/// The root element is self-closing: there is no closing root tag, there is
/// an opening one, and that opening tag ends in `/>` (the first `>` after its
/// start is directly preceded by `/`).
pub open spec fn spec_is_self_closing_root(c: Seq<char>) -> bool {
    &&& !(has_substr(c, labwc_close()) || has_substr(c, openbox_close()))
    &&& (has_substr(c, openbox_open()) || has_substr(c, labwc_open()))
    &&& root_open_tag_self_closes(c)
}

/// The first `>` at or after the root tag's start is directly preceded by `/`.
pub open spec fn root_open_tag_self_closes(c: Seq<char>) -> bool {
    match find_from(c, ">"@, root_tag_start(c)) {
        Some(g) => g > 0 && c[g - 1] == '/',
        None => false,
    }
}

/// The root element is `<openbox_config`, else `<labwc_config`.
pub open spec fn root_is_openbox(c: Seq<char>) -> bool {
    has_substr(c, openbox_open())
}

/// Where the root tag starts (0 when it is absent).
pub open spec fn root_tag_start(c: Seq<char>) -> nat {
    match find(c, if root_is_openbox(c) { openbox_open() } else { labwc_open() }) {
        Some(i) => i,
        None => 0,
    }
}

/// The closing tag line written after the snippet.
pub open spec fn root_close_line(openbox: bool) -> Seq<char> {
    if openbox {
        "</openbox_config>\n"@
    } else {
        "</labwc_config>\n"@
    }
}

/// What followed the self-closing tag, trimmed, on a line of its own.
pub open spec fn trailer(after: Seq<char>) -> Seq<char> {
    if after.len() > 0 {
        after + "\n"@
    } else {
        Seq::empty()
    }
}

/// `c` with its self-closing root `<tag .../>` turned into
/// `<tag ...>\n` + `snip` + `</tag>\n`, followed by whatever came after the
/// `/>`, trimmed; without a `/>` after the root tag, `snip` is appended.
pub open spec fn spec_expand_self_closing_root(c: Seq<char>, snip: Seq<char>) -> Seq<char> {
    match find_from(c, self_close(), root_tag_start(c)) {
        Some(p) => c.subrange(0, p as int) + ">\n"@ + snip + root_close_line(root_is_openbox(c))
            + trailer(trim(c.subrange(p + 2int, c.len() as int))),
        None => c + "\n"@ + snip,
    }
}

/// A fresh `rc.xml` holding only `snip` inside a `<labwc_config>` root.
pub open spec fn spec_minimal_rc_xml(snip: Seq<char>) -> Seq<char> {
    "<?xml version=\"1.0\"?>\n<labwc_config>\n\n"@ + snip + "\n</labwc_config>\n"@
}

/// The new content of an existing `rc.xml`: replace an existing block, else
/// expand a self-closing root, else insert before the closing root tag.
pub open spec fn spec_patch_rc_xml(c: Seq<char>, snip: Seq<char>) -> Seq<char> {
    if has_substr(c, start_marker()) {
        spec_replace_waysnap_block(c, snip)
    } else if spec_is_self_closing_root(c) {
        spec_expand_self_closing_root(c, snip)
    } else {
        spec_insert_before_closing_tag(c, snip)
    }
}

// ---------------------------------------------------------------------------
// Executable functions
// ---------------------------------------------------------------------------

/// Inserts the snippet just before the root closing tag: the last
/// `</labwc_config>` (native labwc format), else the last
/// `</openbox_config>` (OpenBox format). Without either, the snippet is
/// appended at the end of the file.
pub fn insert_before_closing_tag(content: &str, snippet: &str) -> (r: String)
    ensures
        r@ == spec_insert_before_closing_tag(content@, snippet@),
{
    let cs = chars_of(content);
    let pos = match rfind_in(&cs, &chars_of("</labwc_config>")) {
        Some(p) => Some(p),
        None => rfind_in(&cs, &chars_of("</openbox_config>")),
    };
    let mut out = String::new();
    match pos {
        Some(p) => {
            proof {
                lemma_rfind(content@, labwc_close());
                lemma_rfind(content@, openbox_close());
            }
            out.append(content.substring_char(0, p));
            out.append("\n");
            out.append(snippet);
            out.append(content.substring_char(p, cs.len()));
        },
        None => {
            out.append(content);
            out.append("\n");
            out.append(snippet);
        },
    }
    out
}

/// Replaces the existing waysnap block — from the first `<!-- waysnap:` to
/// the end of the first `<!-- end waysnap -->` after it, and the newlines
/// right after that — by the snippet. Without a start marker, or without an
/// end comment after it, the snippet is inserted before the root closing tag
/// instead.
pub fn replace_waysnap_block(content: &str, snippet: &str) -> (r: String)
    ensures
        r@ == spec_replace_waysnap_block(content@, snippet@),
{
    let cs = chars_of(content);
    let n = cs.len();
    let end_pat = chars_of("<!-- end waysnap -->");
    let s = match find_in(&cs, &chars_of("<!-- waysnap:")) {
        Some(s) => s,
        None => return insert_before_closing_tag(content, snippet),
    };
    let e = match find_from_in(&cs, &end_pat, s) {
        Some(e) => e,
        None => return insert_before_closing_tag(content, snippet),
    };
    proof {
        lemma_find(content@, start_marker());
        lemma_find_from(content@, end_marker(), s as nat);
    }
    let rest = skip_newlines(&cs, e + end_pat.len());
    let mut out = String::new();
    out.append(content.substring_char(0, s));
    out.append(snippet);
    out.append(content.substring_char(rest, n));
    out
}

/// Whether the root element is self-closing (`<openbox_config ... />` or
/// `<labwc_config/>`): no closing root tag, an opening one, and that opening
/// tag ends in `/>`.
pub fn is_self_closing_root(content: &str) -> (r: bool)
    ensures
        r == spec_is_self_closing_root(content@),
{
    let cs = chars_of(content);
    let has_closing = has_substr_in(&cs, &chars_of("</labwc_config>")) || has_substr_in(
        &cs,
        &chars_of("</openbox_config>"),
    );
    if has_closing {
        return false;
    }
    let openbox = has_substr_in(&cs, &chars_of("<openbox_config"));
    if !openbox && !has_substr_in(&cs, &chars_of("<labwc_config")) {
        return false;
    }
    let open_pat = if openbox {
        chars_of("<openbox_config")
    } else {
        chars_of("<labwc_config")
    };
    let tag_start = match find_in(&cs, &open_pat) {
        Some(i) => i,
        None => 0,
    };
    match find_from_in(&cs, &chars_of(">"), tag_start) {
        Some(g) => {
            proof {
                lemma_find_from(content@, ">"@, tag_start as nat);
            }
            g > 0 && cs[g - 1] == '/'
        },
        None => false,
    }
}

/// Turns `<openbox_config ... />` into `<openbox_config ...>\n` + snippet +
/// `</openbox_config>\n` (likewise for `<labwc_config`); what followed the
/// `/>` is kept, trimmed, on a line of its own. Without a `/>` after the
/// root tag, the snippet is appended at the end.
pub fn expand_self_closing_root(content: &str, snippet: &str) -> (r: String)
    ensures
        r@ == spec_expand_self_closing_root(content@, snippet@),
{
    let cs = chars_of(content);
    let n = cs.len();
    let openbox = has_substr_in(&cs, &chars_of("<openbox_config"));
    let open_pat = if openbox {
        chars_of("<openbox_config")
    } else {
        chars_of("<labwc_config")
    };
    let tag_start = match find_in(&cs, &open_pat) {
        Some(i) => i,
        None => 0,
    };
    let mut out = String::new();
    match find_from_in(&cs, &chars_of("/>"), tag_start) {
        Some(p) => {
            proof {
                lemma_find_from(content@, self_close(), tag_start as nat);
                reveal_strlit("/>");
            }
            out.append(content.substring_char(0, p));
            out.append(">\n");
            out.append(snippet);
            if openbox {
                out.append("</openbox_config>\n");
            } else {
                out.append("</labwc_config>\n");
            }
            let (a, b) = trim_range(&cs, p + 2, n);
            if a < b {
                out.append(content.substring_char(a, b));
                out.append("\n");
            }
        },
        None => {
            out.append(content);
            out.append("\n");
            out.append(snippet);
        },
    }
    out
}

/// A minimal valid `rc.xml` holding only the snippet.
pub fn minimal_rc_xml(snippet: &str) -> (r: String)
    ensures
        r@ == spec_minimal_rc_xml(snippet@),
{
    let mut out = String::new();
    out.append("<?xml version=\"1.0\"?>\n<labwc_config>\n\n");
    out.append(snippet);
    out.append("\n</labwc_config>\n");
    out
}

/// The new content of an existing `rc.xml` that receives the snippet:
/// an existing waysnap block is replaced; a self-closing root is expanded
/// around the snippet; otherwise the snippet goes before the closing root tag.
pub fn patch_rc_xml(original: &str, snippet: &str) -> (r: String)
    ensures
        r@ == spec_patch_rc_xml(original@, snippet@),
{
    let cs = chars_of(original);
    if has_substr_in(&cs, &chars_of("<!-- waysnap:")) {
        replace_waysnap_block(original, snippet)
    } else if is_self_closing_root(original) {
        expand_self_closing_root(original, snippet)
    } else {
        insert_before_closing_tag(original, snippet)
    }
}

/// The content `rc.xml` gets from an install: a minimal file holding the
/// snippet when there was none, else the existing content patched.
pub open spec fn spec_installed_rc_xml(existing: Option<Seq<char>>, snip: Seq<char>) -> Seq<char> {
    match existing {
        Some(c) => spec_patch_rc_xml(c, snip),
        None => spec_minimal_rc_xml(snip),
    }
}

/// The content of `rc.xml` after installing the snippet, given its current
/// content (`None` when the file does not exist yet).
pub fn installed_rc_xml(existing: Option<&str>, snippet: &str) -> (r: String)
    ensures
        r@ == spec_installed_rc_xml(
            match existing {
                Some(c) => Some(c@),
                None => None,
            },
            snippet@,
        ),
{
    match existing {
        Some(c) => patch_rc_xml(c, snippet),
        None => minimal_rc_xml(snippet),
    }
}

} // verus!
