//! Properties of the library that hold for every input: what an install
//! leaves in `rc.xml`, what a second install does, and how `$LABWC_PID` is read.
use vstd::prelude::*;

use crate::pid::{spec_parse_labwc_pid, PidError};
use crate::rcxml::{
    block_end_comment, closing_tag_pos, end_marker, labwc_close, labwc_open, openbox_close, openbox_open,
    root_close_line, root_is_openbox, root_tag_start, self_close, spec_expand_self_closing_root,
    spec_insert_before_closing_tag, spec_installed_rc_xml, spec_is_self_closing_root,
    spec_minimal_rc_xml, spec_patch_rc_xml, spec_replace_waysnap_block, start_marker, trailer,
};
use crate::snippet::{
    angles_clear, keybind_body, keybind_piece, keybind_upto, last_piece, lemma_keybind_piece,
    spec_keybind_snippet,
};
use crate::text::{
    find, find_from, has_no_char, has_substr, is_whitespace, lemma_find, lemma_find_from,
    lemma_occurs_in_prefix,
    lemma_occurs_in_suffix, lemma_occurs_self, lemma_rfind, occurs_at, rfind,
    strip_leading_newlines, trim, trim_end, trim_start,
};

verus! {

/// `x` occurs in `a + x + b` right after `a`.
pub proof fn lemma_occurs_between(a: Seq<char>, x: Seq<char>, b: Seq<char>)
    ensures
        occurs_at(a + x + b, x, a.len() as int),
        has_substr(a + x + b, x),
{
    lemma_occurs_self(x);
    lemma_occurs_in_suffix(a, x, x, 0);
    lemma_occurs_in_prefix(a + x, b, x, a.len() as int);
}

/// Once patched, `rc.xml` holds the snippet, whichever way it was patched.
pub proof fn law_patch_holds_snippet(c: Seq<char>, snip: Seq<char>)
    ensures
        has_substr(spec_patch_rc_xml(c, snip), snip),
        has_substr(spec_replace_waysnap_block(c, snip), snip),
        has_substr(spec_expand_self_closing_root(c, snip), snip),
        has_substr(spec_insert_before_closing_tag(c, snip), snip),
{
    law_insert_holds_snippet(c, snip);
    law_expand_holds_snippet(c, snip);
    law_replace_holds_snippet(c, snip);
}

/// Inserting before the closing tag always leaves the snippet in the file.
pub proof fn law_insert_holds_snippet(c: Seq<char>, snip: Seq<char>)
    ensures
        has_substr(spec_insert_before_closing_tag(c, snip), snip),
{
    match closing_tag_pos(c) {
        Some(p) => {
            lemma_occurs_between(
                c.subrange(0, p as int) + "\n"@,
                snip,
                c.subrange(p as int, c.len() as int),
            );
        },
        None => {
            lemma_occurs_between(c + "\n"@, snip, Seq::empty());
            assert(c + "\n"@ + snip + Seq::<char>::empty() =~= c + "\n"@ + snip);
        },
    }
}

/// Expanding a self-closing root always leaves the snippet in the file.
pub proof fn law_expand_holds_snippet(c: Seq<char>, snip: Seq<char>)
    ensures
        has_substr(spec_expand_self_closing_root(c, snip), snip),
{
    match find_from(c, self_close(), root_tag_start(c)) {
        Some(p) => {
            let a = c.subrange(0, p as int) + ">\n"@;
            let b = root_close_line(root_is_openbox(c));
            let t = trailer(
                trim(c.subrange(p + 2int, c.len() as int)),
            );
            lemma_occurs_between(a, snip, b);
            lemma_occurs_in_prefix(a + snip + b, t, snip, a.len() as int);
        },
        None => {
            lemma_occurs_between(c + "\n"@, snip, Seq::empty());
            assert(c + "\n"@ + snip + Seq::<char>::empty() =~= c + "\n"@ + snip);
        },
    }
}

/// Replacing the waysnap block always leaves the snippet in the file.
pub proof fn law_replace_holds_snippet(c: Seq<char>, snip: Seq<char>)
    ensures
        has_substr(spec_replace_waysnap_block(c, snip), snip),
{
    law_insert_holds_snippet(c, snip);
    if let Some(s) = find(c, start_marker()) {
        if let Some(e) = block_end_comment(c, s) {
            lemma_occurs_between(
                c.subrange(0, s as int),
                snip,
                strip_leading_newlines(
                    c.subrange((e + end_marker().len()) as int, c.len() as int),
                ),
            );
        }
    }
}

/// A fresh `rc.xml` holds the snippet inside a `<labwc_config>` root.
pub proof fn law_minimal_holds_snippet(snip: Seq<char>)
    ensures
        has_substr(spec_minimal_rc_xml(snip), snip),
        has_substr(spec_minimal_rc_xml(snip), "<labwc_config>"@),
        has_substr(spec_minimal_rc_xml(snip), labwc_close()),
{
    let h = "<?xml version=\"1.0\"?>\n<labwc_config>\n\n"@;
    let t = "\n</labwc_config>\n"@;
    lemma_occurs_between(h, snip, t);
    reveal_strlit("<?xml version=\"1.0\"?>\n<labwc_config>\n\n");
    reveal_strlit("\n</labwc_config>\n");
    reveal_strlit("<labwc_config>");
    reveal_strlit("</labwc_config>");
    assert(occurs_at(h, "<labwc_config>"@, 22));
    lemma_occurs_in_prefix(h, snip + t, "<labwc_config>"@, 22);
    assert(h + snip + t =~= h + (snip + t));
    assert(occurs_at(t, labwc_close(), 1));
    lemma_occurs_in_suffix(h + snip, t, labwc_close(), 1);
}

/// Expanding a self-closing root whose `/>` is found leaves a root that is no
/// longer self-closing: its closing tag is now in the file.
pub proof fn law_expand_closes_root(c: Seq<char>, snip: Seq<char>)
    requires
        find_from(c, self_close(), root_tag_start(c)) is Some,
    ensures
        !spec_is_self_closing_root(spec_expand_self_closing_root(c, snip)),
{
    let p = find_from(c, self_close(), root_tag_start(c))->0;
    let a = c.subrange(0, p as int) + ">\n"@ + snip;
    let ob = root_is_openbox(c);
    let b = root_close_line(ob);
    let t = trailer(trim(c.subrange(p + 2int, c.len() as int)));
    assert(spec_expand_self_closing_root(c, snip) == a + b + t);
    reveal_strlit("</openbox_config>\n");
    reveal_strlit("</labwc_config>\n");
    reveal_strlit("</openbox_config>");
    reveal_strlit("</labwc_config>");
    if ob {
        assert(occurs_at(b, openbox_close(), 0));
        lemma_occurs_in_suffix(a, b, openbox_close(), 0);
        lemma_occurs_in_prefix(a + b, t, openbox_close(), a.len() as int);
    } else {
        assert(occurs_at(b, labwc_close(), 0));
        lemma_occurs_in_suffix(a, b, labwc_close(), 0);
        lemma_occurs_in_prefix(a + b, t, labwc_close(), a.len() as int);
    }
}

/// Inserting before the closing tag loses nothing of the file: taking the
/// newline and the snippet back out gives the original, and the closing tag
/// that was found now follows the snippet.
pub proof fn law_insert_keeps_content(c: Seq<char>, snip: Seq<char>)
    requires
        closing_tag_pos(c) is Some,
    ensures
        ({
            let p = closing_tag_pos(c)->0 as int;
            let r = spec_insert_before_closing_tag(c, snip);
            &&& r.subrange(0, p) + r.subrange(p + 1 + snip.len(), r.len() as int) == c
            &&& occurs_at(r, snip, p + 1)
            &&& (occurs_at(r, labwc_close(), p + 1 + snip.len()) || occurs_at(
                r,
                openbox_close(),
                p + 1 + snip.len(),
            ))
        }),
{
    let p = closing_tag_pos(c)->0 as int;
    let a = c.subrange(0, p);
    let b = c.subrange(p, c.len() as int);
    reveal_strlit("\n");
    lemma_rfind(c, labwc_close());
    lemma_rfind(c, openbox_close());
    let r = spec_insert_before_closing_tag(c, snip);
    assert(r == a + "\n"@ + snip + b);
    assert(r.subrange(0, p) =~= a);
    assert(r.subrange(p + 1 + snip.len(), r.len() as int) =~= b);
    assert(a + b =~= c);
    lemma_occurs_between(a + "\n"@, snip, b);
    let tag = if rfind(c, labwc_close()) is Some {
        labwc_close()
    } else {
        openbox_close()
    };
    assert(occurs_at(c, tag, p));
    assert(occurs_at(b, tag, 0)) by {
        assert forall|j: int| 0 <= j < tag.len() implies b[0 + j] == #[trigger] tag[j] by {
            assert(c[p + j] == tag[j]);
        }
    }
    lemma_occurs_in_suffix(a + "\n"@ + snip, b, tag, 0);
}

/// The keybinding block for any modifier opens with the start marker (after
/// its two-space indent) and closes with the end comment and a newline, so
/// that a later install recognises it and replaces it.
pub proof fn law_snippet_is_framed(m: Seq<char>)
    ensures
        ({
            let s = spec_keybind_snippet(m);
            &&& occurs_at(s, start_marker(), 2)
            &&& occurs_at(s, end_marker(), s.len() - end_marker().len() - 1)
            &&& s.last() == '\n'
            &&& s[0] == ' ' && s[1] == ' '
        }),
{
    let s = spec_keybind_snippet(m);
    let body = keybind_body(m);
    let head = keybind_piece(0);
    reveal_strlit("\n");
    lemma_keybind_piece(0);
    lemma_upto_starts_with_head(m, last_piece());
    assert(s =~= body + ("<!-- end waysnap -->"@ + "\n"@));
    assert(s[0] == body[0] && s[1] == body[1]);
    assert(occurs_at(body, start_marker(), 2)) by {
        assert forall|j: int| 0 <= j < start_marker().len() implies body[2 + j]
            == #[trigger] start_marker()[j] by {
            assert(head[2 + j] == start_marker()[j]);
        }
    }
    lemma_occurs_in_prefix(body, "<!-- end waysnap -->"@ + "\n"@, start_marker(), 2);
    lemma_occurs_between(body, end_marker(), "\n"@);
}

/// The pieces joined by a modifier begin with the first piece.
proof fn lemma_upto_starts_with_head(m: Seq<char>, k: int)
    ensures
        keybind_upto(m, k).len() >= keybind_piece(0).len(),
        forall|i: int|
            0 <= i < keybind_piece(0).len() ==> #[trigger] keybind_upto(m, k)[i] == keybind_piece(
                0,
            )[i],
    decreases k,
{
    if k > 0 {
        lemma_upto_starts_with_head(m, k - 1);
        let x = keybind_upto(m, k - 1);
        assert forall|i: int| 0 <= i < keybind_piece(0).len() implies #[trigger] keybind_upto(
            m,
            k,
        )[i] == keybind_piece(0)[i] by {
            assert(keybind_upto(m, k) == x + m + keybind_piece(k));
            assert((x + m + keybind_piece(k))[i] == x[i]);
        }
    }
}

/// `find_from` returns `i` when `pat` occurs at `i >= k` and at no index in
/// `[k, i)`.
pub proof fn lemma_find_from_is(s: Seq<char>, pat: Seq<char>, k: nat, i: int)
    requires
        k <= i,
        occurs_at(s, pat, i),
        forall|j: int| k <= j < i ==> !occurs_at(s, pat, j),
    ensures
        find_from(s, pat, k) == Some(i as nat),
{
    lemma_find_from(s, pat, k);
}

/// `find` returns `i` when `pat` occurs at `i` and at no earlier index.
pub proof fn lemma_find_is(s: Seq<char>, pat: Seq<char>, i: int)
    requires
        occurs_at(s, pat, i),
        forall|j: int| 0 <= j < i ==> !occurs_at(s, pat, j),
    ensures
        find(s, pat) == Some(i as nat),
{
    lemma_find(s, pat);
}

/// An occurrence in `a + rest` that ends within `a` is an occurrence in `a`.
proof fn lemma_occurs_within_prefix(a: Seq<char>, rest: Seq<char>, pat: Seq<char>, j: int)
    requires
        occurs_at(a + rest, pat, j),
        j + pat.len() <= a.len(),
    ensures
        occurs_at(a, pat, j),
{
    assert forall|k: int| 0 <= k < pat.len() implies a[j + k] == #[trigger] pat[k] by {
        assert((a + rest)[j + k] == pat[k]);
    }
}

/// A snippet shaped like a waysnap block: two spaces, then the start marker;
/// the first end comment comes last, followed only by a newline.
pub open spec fn is_block(b: Seq<char>) -> bool {
    &&& b.len() >= end_marker().len() + 1
    &&& b[0] == ' '
    &&& b[1] == ' '
    &&& occurs_at(b, start_marker(), 2)
    &&& find(b, end_marker()) == Some((b.len() - end_marker().len() - 1) as nat)
    &&& b.last() == '\n'
}

/// In `a + "\n" + tail`, an occurrence of a pattern without newlines that
/// starts no later than the inserted newline lies inside `a`.
proof fn lemma_no_occurrence_across_newline(a: Seq<char>, tail: Seq<char>, pat: Seq<char>, j: int)
    requires
        !has_substr(a, pat),
        forall|k: int| 0 <= k < pat.len() ==> pat[k] != '\n',
        0 <= j <= a.len(),
    ensures
        !occurs_at(a + "\n"@ + tail, pat, j),
{
    reveal_strlit("\n");
    let s = a + "\n"@ + tail;
    if occurs_at(s, pat, j) {
        if j + pat.len() <= a.len() {
            lemma_occurs_within_prefix(a, "\n"@ + tail, pat, j);
            assert(s =~= a + ("\n"@ + tail));
        } else {
            let k = a.len() - j;
            assert(s[j + k] == pat[k]);
        }
    }
}

/// The start marker does not occur in `a + "\n"` when it does not occur in `a`.
proof fn lemma_newline_adds_no_marker(a: Seq<char>)
    requires
        !has_substr(a, start_marker()),
    ensures
        !has_substr(a + "\n"@, start_marker()),
{
    reveal_strlit("\n");
    reveal_strlit("<!-- waysnap:");
    assert(a + "\n"@ =~= a + "\n"@ + Seq::<char>::empty());
    assert forall|j: int| !occurs_at(a + "\n"@, start_marker(), j) by {
        if 0 <= j <= a.len() {
            lemma_no_occurrence_across_newline(a, Seq::empty(), start_marker(), j);
        }
    }
}

/// Replacing a waysnap block that follows text holding no start marker: the
/// text before it stays, the two spaces in front of the old start marker
/// stay, the new snippet takes the block's place, and what followed the
/// block stays, less its leading newlines.
pub proof fn law_replace_installed_block(a: Seq<char>, b: Seq<char>, t: Seq<char>, new: Seq<char>)
    requires
        !has_substr(a, start_marker()),
        is_block(b),
    ensures
        spec_replace_waysnap_block(a + b + t, new) == a + "  "@ + new + strip_leading_newlines(t),
{
    reveal_strlit("<!-- waysnap:");
    reveal_strlit("<!-- end waysnap -->");
    reveal_strlit("  ");
    let c = a + b + t;
    let n = a.len() as int;
    // The first start marker of `c` is the block's own.
    let s0 = n + 2;
    lemma_occurs_in_suffix(a, b, start_marker(), 2);
    lemma_occurs_in_prefix(a + b, t, start_marker(), s0);
    assert forall|j: int| 0 <= j < s0 implies !occurs_at(c, start_marker(), j) by {
        if occurs_at(c, start_marker(), j) {
            if j + 13 <= n {
                assert(c =~= a + (b + t));
                lemma_occurs_within_prefix(a, b + t, start_marker(), j);
            } else if j < n {
                let k = n - j;
                assert(c[j + k] == start_marker()[k]);
                if k + 1 < 13 {
                    assert(c[j + k + 1] == start_marker()[k + 1]);
                }
            } else {
                assert(c[j + 0] == start_marker()[0]);
            }
        }
    }
    lemma_find_is(c, start_marker(), s0);
    // The first end comment after the start marker is the block's own.
    let kb = b.len() - 21;
    lemma_find(b, end_marker());
    let e0 = n + kb;
    assert(b[kb + 0] == end_marker()[0]);
    assert(kb >= 2);
    lemma_occurs_in_suffix(a, b, end_marker(), kb);
    lemma_occurs_in_prefix(a + b, t, end_marker(), e0);
    assert forall|j: int| s0 <= j < e0 implies !occurs_at(c, end_marker(), j) by {
        if occurs_at(c, end_marker(), j) {
            assert(occurs_at(b, end_marker(), j - n)) by {
                assert forall|m: int| 0 <= m < 20 implies b[j - n + m]
                    == #[trigger] end_marker()[m] by {
                    assert(c[j + m] == end_marker()[m]);
                }
            }
        }
    }
    lemma_find_from_is(c, end_marker(), s0 as nat, e0);
    // After the end comment come the block's newline, then `t`.
    let after = c.subrange(e0 + 20, c.len() as int);
    assert(after =~= seq!['\n'] + t);
    assert((seq!['\n'] + t).drop_first() =~= t);
    assert(strip_leading_newlines(after) == strip_leading_newlines(t));
    assert(c.subrange(0, s0) =~= a + "  "@);
}

/// Installing a block into a file that has none puts it, after a newline,
/// just before the root closing tag; installing it again replaces it where it
/// stands, and the rest of the file stays as it was. (The second install
/// keeps the two spaces that preceded the start marker in front of the new
/// block, so the block moves right by two spaces.)
pub proof fn law_reinstall_replaces_in_place(c: Seq<char>, b: Seq<char>)
    requires
        !has_substr(c, start_marker()),
        closing_tag_pos(c) is Some,
        is_block(b),
    ensures
        ({
            let p = closing_tag_pos(c)->0 as int;
            let once = spec_patch_rc_xml(c, b);
            &&& once == c.subrange(0, p) + "\n"@ + b + c.subrange(p, c.len() as int)
            &&& spec_patch_rc_xml(once, b) == c.subrange(0, p) + "\n  "@ + b + c.subrange(
                p,
                c.len() as int,
            )
        }),
{
    lemma_rfind(c, labwc_close());
    lemma_rfind(c, openbox_close());
    let p = closing_tag_pos(c)->0 as int;
    let a = c.subrange(0, p);
    let rest = c.subrange(p, c.len() as int);
    reveal_strlit("\n");
    reveal_strlit("  ");
    reveal_strlit("\n  ");
    reveal_strlit("</labwc_config>");
    reveal_strlit("</openbox_config>");
    // The file is not self-closing: its closing tag is there.
    assert(!spec_is_self_closing_root(c));
    let once = spec_patch_rc_xml(c, b);
    assert(once == a + "\n"@ + b + rest);
    // `a` holds no start marker, being a prefix of `c`.
    assert(a + rest =~= c);
    assert(!has_substr(a, start_marker())) by {
        if has_substr(a, start_marker()) {
            let j = choose|j: int| occurs_at(a, start_marker(), j);
            lemma_occurs_in_prefix(a, rest, start_marker(), j);
        }
    }
    lemma_newline_adds_no_marker(a);
    law_replace_installed_block(a + "\n"@, b, rest, b);
    lemma_occurs_in_suffix(a + "\n"@, b, start_marker(), 2);
    lemma_occurs_in_prefix(a + "\n"@ + b, rest, start_marker(), a.len() + 3int);
    assert(has_substr(once, start_marker()));
    assert(spec_patch_rc_xml(once, b) == spec_replace_waysnap_block(once, b));
    // The closing tag right after the block stops the stripping of newlines.
    let tag = if rfind(c, labwc_close()) is Some {
        labwc_close()
    } else {
        openbox_close()
    };
    assert(occurs_at(c, tag, p));
    assert(rest[0] == c[p + 0]);
    assert(c[p + 0] == tag[0]);
    assert(strip_leading_newlines(rest) == rest);
    assert(a + "\n"@ + "  "@ =~= a + "\n  "@);
}

proof fn lemma_angles_clear_concat(x: Seq<char>, y: Seq<char>)
    requires
        angles_clear(x),
        angles_clear(y),
    ensures
        angles_clear(x + y),
{
    assert forall|j: int| 0 <= j < (x + y).len() && #[trigger] (x + y)[j] == '<' implies j + 5 < (
    x + y).len() && (x + y)[j + 5] != 'e' by {
        if j < x.len() {
            assert(x[j] == '<');
        } else {
            assert(y[j - x.len()] == '<');
            assert((x + y)[j + 5] == y[j - x.len() + 5]);
        }
    }
}

/// No end comment can start in the pieces joined by a modifier without `<`.
proof fn lemma_upto_angles_clear(m: Seq<char>, k: int)
    requires
        has_no_char(m, '<'),
        0 <= k <= last_piece(),
    ensures
        angles_clear(keybind_upto(m, k)),
    decreases k,
{
    lemma_keybind_piece(k);
    if k > 0 {
        lemma_upto_angles_clear(m, k - 1);
        assert(angles_clear(m));
        lemma_angles_clear_concat(keybind_upto(m, k - 1), m);
        lemma_angles_clear_concat(keybind_upto(m, k - 1) + m, keybind_piece(k));
    }
}

/// For a modifier without `<`, the keybinding block is shaped like a waysnap
/// block: its only end comment is its last line.
pub proof fn law_snippet_is_block(m: Seq<char>)
    requires
        has_no_char(m, '<'),
    ensures
        is_block(spec_keybind_snippet(m)),
{
    law_snippet_is_framed(m);
    reveal_strlit("<!-- end waysnap -->");
    reveal_strlit("\n");
    lemma_upto_angles_clear(m, last_piece());
    let body = keybind_body(m);
    let s = spec_keybind_snippet(m);
    lemma_occurs_between(body, end_marker(), "\n"@);
    assert forall|j: int| 0 <= j < body.len() implies !occurs_at(s, end_marker(), j) by {
        if occurs_at(s, end_marker(), j) {
            assert(s[j + 0] == end_marker()[0]);
            assert(body[j] == '<');
            assert(s[j + 5] == end_marker()[5]);
            assert(s[j + 5] == body[j + 5]);
        }
    }
    lemma_find_is(s, end_marker(), body.len() as int);
}

/// Installing the block for a modifier over an installed block for another
/// modifier replaces it: the text before stays, the two spaces before the
/// old start marker stay, and the text after loses only its leading newlines.
pub proof fn law_reinstall_keybind_snippet(
    a: Seq<char>,
    t: Seq<char>,
    m1: Seq<char>,
    m2: Seq<char>,
)
    requires
        !has_substr(a, start_marker()),
        has_no_char(m1, '<'),
    ensures
        spec_replace_waysnap_block(a + spec_keybind_snippet(m1) + t, spec_keybind_snippet(m2))
            == a + "  "@ + spec_keybind_snippet(m2) + strip_leading_newlines(t),
{
    law_snippet_is_block(m1);
    law_replace_installed_block(a, spec_keybind_snippet(m1), t, spec_keybind_snippet(m2));
}

/// `s` with every `c` replaced by `r`.
pub open spec fn subst_char(s: Seq<char>, c: char, r: Seq<char>) -> Seq<char>
    decreases s.len(),
{
    if s.len() == 0 {
        Seq::empty()
    } else {
        subst_char(s.drop_last(), c, r) + if s.last() == c {
            r
        } else {
            seq![s.last()]
        }
    }
}

proof fn lemma_subst_concat(x: Seq<char>, y: Seq<char>, c: char, r: Seq<char>)
    ensures
        subst_char(x + y, c, r) == subst_char(x, c, r) + subst_char(y, c, r),
    decreases y.len(),
{
    if y.len() == 0 {
        assert(x + y =~= x);
        assert(subst_char(x, c, r) + subst_char(y, c, r) =~= subst_char(x, c, r));
    } else {
        assert((x + y).drop_last() =~= x + y.drop_last());
        assert((x + y).last() == y.last());
        lemma_subst_concat(x, y.drop_last(), c, r);
        let tail = if y.last() == c {
            r
        } else {
            seq![y.last()]
        };
        assert(subst_char(x, c, r) + subst_char(y.drop_last(), c, r) + tail =~= subst_char(x, c, r)
            + (subst_char(y.drop_last(), c, r) + tail));
    }
}

proof fn lemma_subst_absent(x: Seq<char>, c: char, r: Seq<char>)
    requires
        has_no_char(x, c),
    ensures
        subst_char(x, c, r) == x,
    decreases x.len(),
{
    if x.len() > 0 {
        assert(x.last() == x[x.len() - 1]);
        lemma_subst_absent(x.drop_last(), c, r);
        assert(x.drop_last() + seq![x.last()] =~= x);
    }
}

/// Replacing `W` in the pieces joined by `W` gives the pieces joined by `m`;
/// their length grows by one modifier length per join.
proof fn lemma_upto_subst(m: Seq<char>, k: int)
    requires
        0 <= k <= last_piece(),
    ensures
        subst_char(keybind_upto("W"@, k), 'W', m) == keybind_upto(m, k),
        keybind_upto(m, k).len() == keybind_upto(Seq::empty(), k).len() + k * m.len(),
    decreases k,
{
    lemma_keybind_piece(k);
    lemma_subst_absent(keybind_piece(k), 'W', m);
    if k > 0 {
        lemma_upto_subst(m, k - 1);
        reveal_strlit("W");
        assert(subst_char("W"@, 'W', m) == m) by {
            assert("W"@.len() == 1 && "W"@.last() == 'W');
            assert("W"@.drop_last() =~= Seq::<char>::empty());
            assert(subst_char(Seq::<char>::empty(), 'W', m) == Seq::<char>::empty());
            assert(Seq::<char>::empty() + m =~= m);
        }
        let x = keybind_upto("W"@, k - 1);
        lemma_subst_concat(x, "W"@, 'W', m);
        lemma_subst_concat(x + "W"@, keybind_piece(k), 'W', m);
        assert((k - 1) * m.len() + m.len() == k * m.len()) by (nonlinear_arith);
        assert(keybind_upto(Seq::empty(), k) =~= keybind_upto(Seq::empty(), k - 1)
            + keybind_piece(k));
    }
}

/// The keybinding block for any modifier is the block for `W` with every `W`
/// replaced by that modifier; it is ten modifier lengths longer than the
/// block for the empty modifier.
pub proof fn law_snippet_substitution(m: Seq<char>)
    ensures
        spec_keybind_snippet(m) == subst_char(spec_keybind_snippet("W"@), 'W', m),
        spec_keybind_snippet(m).len() == spec_keybind_snippet(Seq::empty()).len() + 10 * m.len(),
{
    reveal_strlit("<!-- end waysnap -->");
    reveal_strlit("\n");
    lemma_upto_subst(m, last_piece());
    let tail = "<!-- end waysnap -->"@ + "\n"@;
    assert(has_no_char(tail, 'W'));
    lemma_subst_absent(tail, 'W', m);
    lemma_subst_concat(keybind_body("W"@), tail, 'W', m);
    assert(spec_keybind_snippet("W"@) =~= keybind_body("W"@) + tail);
    assert(spec_keybind_snippet(m) =~= keybind_body(m) + tail);
}

/// `trim_end` keeps a prefix of its argument, ending in a non-whitespace
/// character unless it is empty.
proof fn lemma_trim_end_prefix(y: Seq<char>)
    ensures
        trim_end(y).len() <= y.len(),
        forall|i: int| 0 <= i < trim_end(y).len() ==> trim_end(y)[i] == y[i],
        trim_end(y).len() > 0 ==> !is_whitespace(trim_end(y).last()),
    decreases y.len(),
{
    if y.len() > 0 && is_whitespace(y.last()) {
        lemma_trim_end_prefix(y.drop_last());
        assert forall|i: int| 0 <= i < trim_end(y).len() implies trim_end(y)[i] == y[i] by {
            assert(y.drop_last()[i] == y[i]);
        }
    }
}

/// `trim_start` leaves a sequence that is empty or starts with a
/// non-whitespace character.
proof fn lemma_trim_start_result(s: Seq<char>)
    ensures
        trim_start(s).len() > 0 ==> !is_whitespace(trim_start(s)[0]),
    decreases s.len(),
{
    if s.len() > 0 && is_whitespace(s[0]) {
        lemma_trim_start_result(s.drop_first());
    }
}

/// Trimming twice is trimming once.
pub proof fn law_trim_idempotent(s: Seq<char>)
    ensures
        trim(trim(s)) == trim(s),
{
    let x = trim_start(s);
    let y = trim_end(x);
    lemma_trim_start_result(s);
    lemma_trim_end_prefix(x);
    if y.len() > 0 {
        assert(y[0] == x[0]);
    }
    assert(trim_start(y) == y);
    lemma_trim_end_prefix(y);
    assert(trim_end(y) == y);
}

/// Whitespace around the text of `$LABWC_PID` is ignored.
pub proof fn law_pid_ignores_surrounding_whitespace(s: Seq<char>)
    ensures
        spec_parse_labwc_pid(trim(s)) == spec_parse_labwc_pid(s),
{
    law_trim_idempotent(s);
}

/// Only a positive process id is ever handed out to be signalled.
pub proof fn law_pid_positive(s: Seq<char>)
    ensures
        spec_parse_labwc_pid(s) matches Ok(v) ==> v > 0,
{
}

/// Replacing an existing block keeps the text before its start marker as it
/// was, puts the snippet in the block's place, and keeps the text after the
/// end comment that closes it, less the newlines that directly followed it.
pub proof fn law_replace_keeps_surroundings(c: Seq<char>, snip: Seq<char>)
    requires
        find(c, start_marker()) is Some,
        block_end_comment(c, find(c, start_marker())->0) is Some,
    ensures
        ({
            let s = find(c, start_marker())->0 as int;
            let e = (block_end_comment(c, s as nat)->0 + end_marker().len()) as int;
            let r = spec_replace_waysnap_block(c, snip);
            &&& r.subrange(0, s) == c.subrange(0, s)
            &&& occurs_at(r, snip, s)
            &&& r.subrange(s + snip.len(), r.len() as int) == strip_leading_newlines(
                c.subrange(e, c.len() as int),
            )
        }),
{
    lemma_find(c, start_marker());
    let s = find(c, start_marker())->0 as int;
    lemma_find_from(c, end_marker(), s as nat);
    let e = (block_end_comment(c, s as nat)->0 + end_marker().len()) as int;
    let a = c.subrange(0, s);
    let t = strip_leading_newlines(c.subrange(e, c.len() as int));
    let r = spec_replace_waysnap_block(c, snip);
    assert(r == a + snip + t);
    assert(r.subrange(0, s) =~= a);
    assert(r.subrange(s + snip.len(), r.len() as int) =~= t);
    lemma_occurs_between(a, snip, t);
}

/// Whatever state `rc.xml` was in (absent, with a block, with a self-closing
/// root, or with a closing root tag), an install leaves the snippet in it.
pub proof fn law_install_holds_snippet(existing: Option<Seq<char>>, snip: Seq<char>)
    ensures
        has_substr(spec_installed_rc_xml(existing, snip), snip),
{
    match existing {
        Some(c) => law_patch_holds_snippet(c, snip),
        None => law_minimal_holds_snippet(snip),
    }
}

/// A self-closing root is expanded at its own `/>`: the first `/>` after the
/// root tag's start is the one that ends the root tag, so no other `/>` of
/// the file is taken for the root's end, and the expansion closes the root.
pub proof fn law_self_closing_root_expands_at_its_tag(c: Seq<char>, snip: Seq<char>)
    requires
        spec_is_self_closing_root(c),
    ensures
        ({
            let g = find_from(c, ">"@, root_tag_start(c))->0;
            &&& find_from(c, self_close(), root_tag_start(c)) == Some((g - 1) as nat)
            &&& !spec_is_self_closing_root(spec_expand_self_closing_root(c, snip))
        }),
{
    reveal_strlit(">");
    reveal_strlit("/>");
    reveal_strlit("<openbox_config");
    reveal_strlit("<labwc_config");
    let ts = root_tag_start(c);
    let pat = if root_is_openbox(c) {
        openbox_open()
    } else {
        labwc_open()
    };
    lemma_find(c, pat);
    assert(c[ts as int + 0] == pat[0]);
    lemma_find_from(c, ">"@, ts);
    let g = find_from(c, ">"@, ts)->0;
    assert(">"@[0] == '>');
    assert(c[g as int + 0] == ">"@[0]);
    assert(g > ts);
    assert(occurs_at(c, self_close(), g - 1)) by {
        assert forall|k: int| 0 <= k < 2 implies c[g - 1 + k] == #[trigger] self_close()[k] by {
            if k == 1 {
                assert(c[g as int + 0] == ">"@[0]);
            }
        }
    }
    assert forall|j: int| ts <= j < g - 1 implies !occurs_at(c, self_close(), j) by {
        if occurs_at(c, self_close(), j) {
            assert(c[j + 1] == self_close()[1]);
            assert(occurs_at(c, ">"@, j + 1));
        }
    }
    lemma_find_from(c, self_close(), ts);
    law_expand_closes_root(c, snip);
}

// ---------------------------------------------------------------------------
// Laws stated on the text itself, in the words of the `rc.xml` format
// ---------------------------------------------------------------------------

/// Installing into an existing `rc.xml` is patching its content.
pub proof fn law_install_is_patch(c: Seq<char>, snip: Seq<char>)
    ensures
        spec_installed_rc_xml(Some(c), snip) == spec_patch_rc_xml(c, snip),
{
}

/// Installing into a missing `rc.xml` writes an XML declaration and a
/// `<labwc_config>` root that holds the snippet and nothing else.
pub proof fn law_install_missing_file(snip: Seq<char>)
    ensures
        spec_installed_rc_xml(None, snip) == "<?xml version=\"1.0\"?>\n<labwc_config>\n\n"@ + snip
            + "\n</labwc_config>\n"@,
{
}

/// Installing into an `rc.xml` that holds a waysnap block — a
/// `<!-- waysnap:` comment and a `<!-- end waysnap -->` comment after it —
/// replaces that block where it stands: the text before the start marker is
/// kept, then comes the snippet, then the text after the end comment less
/// its leading newlines. No second block is added.
pub proof fn law_install_replaces_existing_block(c: Seq<char>, snip: Seq<char>, s: nat, e: nat)
    requires
        find(c, "<!-- waysnap:"@) == Some(s),
        find_from(c, "<!-- end waysnap -->"@, s) == Some(e),
    ensures
        spec_installed_rc_xml(Some(c), snip) == c.subrange(0, s as int) + snip
            + strip_leading_newlines(
            c.subrange((e + "<!-- end waysnap -->"@.len()) as int, c.len() as int),
        ),
{
    lemma_find(c, "<!-- waysnap:"@);
}

/// Where the root tag starts, read from the text: the first `<openbox_config`
/// if there is one, else the first `<labwc_config` (0 when neither is there).
pub open spec fn text_root_start(c: Seq<char>) -> nat {
    if has_substr(c, "<openbox_config"@) {
        match find(c, "<openbox_config"@) {
            Some(i) => i,
            None => 0,
        }
    } else {
        match find(c, "<labwc_config"@) {
            Some(i) => i,
            None => 0,
        }
    }
}

/// The closing tag line of the root, read from the text.
pub open spec fn text_root_close_line(c: Seq<char>) -> Seq<char> {
    if has_substr(c, "<openbox_config"@) {
        "</openbox_config>\n"@
    } else {
        "</labwc_config>\n"@
    }
}

/// The closing tag of the root, read from the text.
pub open spec fn text_root_close(c: Seq<char>) -> Seq<char> {
    if has_substr(c, "<openbox_config"@) {
        "</openbox_config>"@
    } else {
        "</labwc_config>"@
    }
}

/// The root is self-closing, read from the text: no `</labwc_config>` and no
/// `</openbox_config>`, a root tag, and the first `>` after the root tag's
/// start directly preceded by `/`.
pub open spec fn text_self_closing(c: Seq<char>) -> bool {
    &&& !has_substr(c, "</labwc_config>"@)
    &&& !has_substr(c, "</openbox_config>"@)
    &&& (has_substr(c, "<openbox_config"@) || has_substr(c, "<labwc_config"@))
    &&& match find_from(c, ">"@, text_root_start(c)) {
        Some(g) => g > 0 && c[g - 1] == '/',
        None => false,
    }
}

/// Expanding a root whose `/>` is found at `p` puts, in place of the `/>`,
/// the `>` that opens the root, a newline, the snippet, and the root's
/// closing tag on its own line; what followed the `/>` comes after, trimmed,
/// on a line of its own. So the snippet sits inside the root: right after the
/// opening tag and right before the closing one.
pub proof fn law_expand_puts_snippet_inside_root(c: Seq<char>, snip: Seq<char>, p: nat)
    requires
        find_from(c, "/>"@, text_root_start(c)) == Some(p),
    ensures
        ({
            let r = spec_expand_self_closing_root(c, snip);
            let t = trim(c.subrange(p + 2int, c.len() as int));
            &&& r == c.subrange(0, p as int) + ">\n"@ + snip + text_root_close_line(c) + (if t.len()
                > 0 {
                t + "\n"@
            } else {
                Seq::empty()
            })
            &&& occurs_at(r, snip, p + 2int)
            &&& occurs_at(r, text_root_close(c), p + 2int + snip.len())
        }),
{
    reveal_strlit(">\n");
    reveal_strlit("</openbox_config>\n");
    reveal_strlit("</labwc_config>\n");
    reveal_strlit("</openbox_config>");
    reveal_strlit("</labwc_config>");
    assert(text_root_start(c) == root_tag_start(c));
    reveal_strlit("/>");
    lemma_find_from(c, "/>"@, text_root_start(c));
    let r = spec_expand_self_closing_root(c, snip);
    let a = c.subrange(0, p as int) + ">\n"@;
    let cl = text_root_close_line(c);
    let tt = trailer(trim(c.subrange(p + 2int, c.len() as int)));
    assert(r == a + snip + cl + tt);
    lemma_occurs_between(a, snip, cl);
    lemma_occurs_in_prefix(a + snip + cl, tt, snip, a.len() as int);
    let tag = text_root_close(c);
    assert(occurs_at(cl, tag, 0));
    lemma_occurs_in_suffix(a + snip, cl, tag, 0);
    lemma_occurs_in_prefix(a + snip + cl, tt, tag, (a + snip).len() as int);
}

/// Patching an `rc.xml` without a waysnap block whose root is self-closing
/// (labwc or OpenBox root alike) expands that root around the snippet, at the
/// root's own `/>`: the result holds the snippet right before the root's
/// closing tag, and its root is no longer self-closing.
pub proof fn law_patch_expands_self_closing_root(c: Seq<char>, snip: Seq<char>)
    requires
        !has_substr(c, "<!-- waysnap:"@),
        text_self_closing(c),
    ensures
        ({
            let g = find_from(c, ">"@, text_root_start(c))->0;
            let r = spec_patch_rc_xml(c, snip);
            &&& r == spec_expand_self_closing_root(c, snip)
            &&& find_from(c, "/>"@, text_root_start(c)) == Some((g - 1) as nat)
            &&& occurs_at(r, snip, g + 1int)
            &&& occurs_at(r, text_root_close(c), g + 1int + snip.len())
            &&& !text_self_closing(r)
        }),
{
    law_self_closing_root_is_text(c);
    law_self_closing_root_expands_at_its_tag(c, snip);
    let g = find_from(c, ">"@, text_root_start(c))->0;
    assert(text_root_start(c) == root_tag_start(c));
    law_expand_puts_snippet_inside_root(c, snip, (g - 1) as nat);
    law_self_closing_root_is_text(spec_expand_self_closing_root(c, snip));
}

/// Self-closing detection is the reading of the text given by
/// `text_self_closing`, both ways.
pub proof fn law_self_closing_root_is_text(c: Seq<char>)
    ensures
        spec_is_self_closing_root(c) == text_self_closing(c),
{
    assert(text_root_start(c) == root_tag_start(c));
}

/// Under the conditions below, an occurrence in `x + r` lies in `r`.
proof fn lemma_occurs_past_prolog(x: Seq<char>, r: Seq<char>, pat: Seq<char>, j: int)
    requires
        !has_substr(x, pat),
        forall|k: int| 0 <= k < pat.len() ==> pat[k] != '\n',
        x.len() == 0 || x.last() == '\n',
        occurs_at(x + r, pat, j),
    ensures
        j >= x.len(),
        occurs_at(r, pat, j - x.len()),
{
    if j < x.len() {
        if j + pat.len() <= x.len() {
            lemma_occurs_within_prefix(x, r, pat, j);
        } else {
            let k = x.len() - 1 - j;
            assert((x + r)[j + k] == pat[k]);
            assert((x + r)[j + k] == x.last());
        }
    }
    assert forall|k: int| 0 <= k < pat.len() implies r[j - x.len() + k] == #[trigger] pat[k] by {
        assert((x + r)[j + k] == pat[k]);
    }
}

/// Under the conditions below, `x + r` holds `pat` exactly when `r` does,
/// and its first occurrence is that of `r`, shifted by `x`.
proof fn lemma_find_past_prolog(x: Seq<char>, r: Seq<char>, pat: Seq<char>)
    requires
        !has_substr(x, pat),
        forall|k: int| 0 <= k < pat.len() ==> pat[k] != '\n',
        x.len() == 0 || x.last() == '\n',
    ensures
        has_substr(x + r, pat) == has_substr(r, pat),
        match find(r, pat) {
            Some(i) => find(x + r, pat) == Some(i + x.len()),
            None => find(x + r, pat) is None,
        },
{
    lemma_find(r, pat);
    lemma_find(x + r, pat);
    if has_substr(x + r, pat) {
        let j = choose|j: int| occurs_at(x + r, pat, j);
        lemma_occurs_past_prolog(x, r, pat, j);
    }
    if let Some(i) = find(r, pat) {
        lemma_occurs_in_suffix(x, r, pat, i as int);
        assert forall|j: int| 0 <= j < i + x.len() implies !occurs_at(x + r, pat, j) by {
            if occurs_at(x + r, pat, j) {
                lemma_occurs_past_prolog(x, r, pat, j);
            }
        }
        lemma_find_is(x + r, pat, (i + x.len()) as int);
    }
}

/// Searching `x + r` from `k + x.len()` is searching `r` from `k`, shifted.
proof fn lemma_find_from_shift(x: Seq<char>, r: Seq<char>, pat: Seq<char>, k: nat)
    ensures
        match find_from(r, pat, k) {
            Some(i) => find_from(x + r, pat, k + x.len()) == Some(i + x.len()),
            None => find_from(x + r, pat, k + x.len()) is None,
        },
{
    lemma_find_from(r, pat, k);
    lemma_find_from(x + r, pat, k + x.len());
    assert forall|j: int| k + x.len() <= j && occurs_at(x + r, pat, j) implies occurs_at(
        r,
        pat,
        j - x.len(),
    ) by {
        assert forall|m: int| 0 <= m < pat.len() implies r[j - x.len() + m] == #[trigger] pat[m] by {
            assert((x + r)[j + m] == pat[m]);
        }
    }
    if let Some(i) = find_from(r, pat, k) {
        lemma_occurs_in_suffix(x, r, pat, i as int);
        lemma_find_from_is(x + r, pat, k + x.len(), (i + x.len()) as int);
    }
}

/// Text before the root — an XML declaration, comments — holding no root tag
/// and no closing root tag, and ending in a newline, does not change whether
/// the root is self-closing.
pub proof fn law_self_closing_ignores_prolog(x: Seq<char>, r: Seq<char>)
    requires
        !has_substr(x, "<openbox_config"@),
        !has_substr(x, "<labwc_config"@),
        !has_substr(x, "</labwc_config>"@),
        !has_substr(x, "</openbox_config>"@),
        x.len() == 0 || x.last() == '\n',
    ensures
        spec_is_self_closing_root(x + r) == spec_is_self_closing_root(r),
{
    reveal_strlit("<openbox_config");
    reveal_strlit("<labwc_config");
    reveal_strlit("</labwc_config>");
    reveal_strlit("</openbox_config>");
    reveal_strlit(">");
    law_self_closing_root_is_text(x + r);
    law_self_closing_root_is_text(r);
    lemma_find_past_prolog(x, r, "<openbox_config"@);
    lemma_find_past_prolog(x, r, "<labwc_config"@);
    lemma_find_past_prolog(x, r, "</labwc_config>"@);
    lemma_find_past_prolog(x, r, "</openbox_config>"@);
    let c = x + r;
    if has_substr(r, "<openbox_config"@) || has_substr(r, "<labwc_config"@) {
        let pat = if has_substr(r, "<openbox_config"@) {
            "<openbox_config"@
        } else {
            "<labwc_config"@
        };
        lemma_find(r, pat);
        let ts = text_root_start(r);
        assert(text_root_start(c) == ts + x.len());
        assert(r[ts as int + 0] == pat[0]);
        lemma_find_from_shift(x, r, ">"@, ts);
        lemma_find_from(r, ">"@, ts);
        if let Some(g) = find_from(r, ">"@, ts) {
            assert(r[g as int + 0] == ">"@[0]);
            assert(g > ts);
            assert(c[g + x.len() - 1] == r[g - 1]);
        }
    }
}

/// Pieces up to `j` are a prefix of pieces up to `k >= j`.
proof fn lemma_upto_prefix(m: Seq<char>, j: int, k: int, pat: Seq<char>, i: int)
    requires
        0 <= j <= k,
        occurs_at(keybind_upto(m, j), pat, i),
    ensures
        occurs_at(keybind_upto(m, k), pat, i),
    decreases k - j,
{
    if j < k {
        lemma_upto_prefix(m, j, k - 1, pat, i);
        lemma_occurs_in_prefix(keybind_upto(m, k - 1), m, pat, i);
        lemma_occurs_in_prefix(keybind_upto(m, k - 1) + m, keybind_piece(k), pat, i);
    }
}

/// If piece `k` ends with `a` and piece `k + 1` starts with `b`, the block
/// for `m` holds `a + m + b`.
proof fn lemma_join_occurs(m: Seq<char>, k: int, a: Seq<char>, b: Seq<char>)
    requires
        0 <= k < last_piece(),
        occurs_at(keybind_piece(k), a, keybind_piece(k).len() - a.len()),
        occurs_at(keybind_piece(k + 1), b, 0),
    ensures
        has_substr(spec_keybind_snippet(m), a + m + b),
{
    let x = keybind_upto(m, k);
    let p = keybind_piece(k);
    let y = keybind_upto(m, k + 1);
    assert(y == x + m + keybind_piece(k + 1));
    if k > 0 {
        lemma_occurs_in_suffix(keybind_upto(m, k - 1) + m, p, a, p.len() - a.len());
        assert(x == keybind_upto(m, k - 1) + m + p);
    }
    assert(occurs_at(x, a, x.len() - a.len()));
    let pos = x.len() - a.len();
    let w = a + m + b;
    assert forall|i: int| 0 <= i < w.len() implies y[pos + i] == #[trigger] w[i] by {
        if i < a.len() {
            assert(x[pos + i] == a[i]);
        } else if i < a.len() + m.len() {
        } else {
            assert(keybind_piece(k + 1)[0 + (i - a.len() - m.len())] == b[i - a.len() - m.len()]);
        }
    }
    assert(occurs_at(y, w, pos));
    lemma_upto_prefix(m, k + 1, last_piece(), w, pos);
    lemma_occurs_in_prefix(keybind_body(m), "<!-- end waysnap -->"@, w, pos);
    lemma_occurs_in_prefix(keybind_body(m) + "<!-- end waysnap -->"@, "\n"@, w, pos);
}

/// For every modifier `m`, the block names it in its opening comment and binds
/// `m`-Left, -Right, -Up and -Down to `SnapToEdge` towards left, right, up and
/// down, `m`-f to `ToggleMaximize`, and `m`-KP_7, -KP_9, -KP_1 and -KP_3 to
/// `SnapToEdge` towards up-left, up-right, down-left and down-right.
pub proof fn law_snippet_bindings(m: Seq<char>)
    ensures
        ({
            let s = spec_keybind_snippet(m);
            &&& has_substr(s, "(modifier="@ + m + ") -->"@)
            &&& has_substr(s, "<keybind key=\""@ + m + "-Left\">\n      <action name=\"SnapToEdge\" direction=\"left\"/>"@)
            &&& has_substr(s, "<keybind key=\""@ + m + "-Right\">\n      <action name=\"SnapToEdge\" direction=\"right\"/>"@)
            &&& has_substr(s, "<keybind key=\""@ + m + "-Up\">\n      <action name=\"SnapToEdge\" direction=\"up\"/>"@)
            &&& has_substr(s, "<keybind key=\""@ + m + "-Down\">\n      <action name=\"SnapToEdge\" direction=\"down\"/>"@)
            &&& has_substr(s, "<keybind key=\""@ + m + "-f\">\n      <action name=\"ToggleMaximize\"/>"@)
            &&& has_substr(s, "<keybind key=\""@ + m + "-KP_7\">\n      <action name=\"SnapToEdge\" direction=\"up-left\"/>"@)
            &&& has_substr(s, "<keybind key=\""@ + m + "-KP_9\">\n      <action name=\"SnapToEdge\" direction=\"up-right\"/>"@)
            &&& has_substr(s, "<keybind key=\""@ + m + "-KP_1\">\n      <action name=\"SnapToEdge\" direction=\"down-left\"/>"@)
            &&& has_substr(s, "<keybind key=\""@ + m + "-KP_3\">\n      <action name=\"SnapToEdge\" direction=\"down-right\"/>"@)
        }),
{
    lemma_keybind_piece(0);
    lemma_keybind_piece(1);
    lemma_join_occurs(m, 0, "(modifier="@, ") -->"@);
    lemma_keybind_piece(2);
    lemma_join_occurs(m, 1, "<keybind key=\""@, "-Left\">\n      <action name=\"SnapToEdge\" direction=\"left\"/>"@);
    lemma_keybind_piece(3);
    lemma_join_occurs(m, 2, "<keybind key=\""@, "-Right\">\n      <action name=\"SnapToEdge\" direction=\"right\"/>"@);
    lemma_keybind_piece(4);
    lemma_join_occurs(m, 3, "<keybind key=\""@, "-Up\">\n      <action name=\"SnapToEdge\" direction=\"up\"/>"@);
    lemma_keybind_piece(5);
    lemma_join_occurs(m, 4, "<keybind key=\""@, "-Down\">\n      <action name=\"SnapToEdge\" direction=\"down\"/>"@);
    lemma_keybind_piece(6);
    lemma_join_occurs(m, 5, "<keybind key=\""@, "-f\">\n      <action name=\"ToggleMaximize\"/>"@);
    lemma_keybind_piece(7);
    lemma_join_occurs(m, 6, "<keybind key=\""@, "-KP_7\">\n      <action name=\"SnapToEdge\" direction=\"up-left\"/>"@);
    lemma_keybind_piece(8);
    lemma_join_occurs(m, 7, "<keybind key=\""@, "-KP_9\">\n      <action name=\"SnapToEdge\" direction=\"up-right\"/>"@);
    lemma_keybind_piece(9);
    lemma_join_occurs(m, 8, "<keybind key=\""@, "-KP_1\">\n      <action name=\"SnapToEdge\" direction=\"down-left\"/>"@);
    lemma_keybind_piece(10);
    lemma_join_occurs(m, 9, "<keybind key=\""@, "-KP_3\">\n      <action name=\"SnapToEdge\" direction=\"down-right\"/>"@);
}

/// Inserting puts a newline and the snippet right before the last
/// `</labwc_config>`; failing that, before the last `</openbox_config>`;
/// failing both, at the end. Nothing of the file is lost.
pub proof fn law_insert_before_last_closing_tag(c: Seq<char>, snip: Seq<char>)
    ensures
        spec_insert_before_closing_tag(c, snip) == match rfind(c, "</labwc_config>"@) {
            Some(p) => c.subrange(0, p as int) + "\n"@ + snip + c.subrange(p as int, c.len() as int),
            None => match rfind(c, "</openbox_config>"@) {
                Some(p) => c.subrange(0, p as int) + "\n"@ + snip + c.subrange(
                    p as int,
                    c.len() as int,
                ),
                None => c + "\n"@ + snip,
            },
        },
        has_substr(c, "</labwc_config>"@) ==> {
            let p = rfind(c, "</labwc_config>"@)->0 as int;
            &&& occurs_at(c, "</labwc_config>"@, p)
            &&& forall|j: int| p < j ==> !occurs_at(c, "</labwc_config>"@, j)
        },
{
    lemma_rfind(c, "</labwc_config>"@);
}

/// Replacing the block: with a `<!-- waysnap:` comment and a
/// `<!-- end waysnap -->` comment after it, the text from the first start
/// marker to the end of the first end comment after it, and the newlines
/// right after that, give way to the snippet; without them, the snippet is
/// inserted before the closing root tag.
pub proof fn law_replace_on_text(c: Seq<char>, snip: Seq<char>)
    ensures
        spec_replace_waysnap_block(c, snip) == match find(c, "<!-- waysnap:"@) {
            Some(s) => match find_from(c, "<!-- end waysnap -->"@, s) {
                Some(e) => c.subrange(0, s as int) + snip + strip_leading_newlines(
                    c.subrange((e + "<!-- end waysnap -->"@.len()) as int, c.len() as int),
                ),
                None => spec_insert_before_closing_tag(c, snip),
            },
            None => spec_insert_before_closing_tag(c, snip),
        },
{
}

/// Text that starts and ends with a non-whitespace character is its own trim.
proof fn lemma_trim_of_unpadded(s: Seq<char>)
    requires
        s.len() > 0,
        !is_whitespace(s[0]),
        !is_whitespace(s.last()),
    ensures
        trim(s) == s,
{
    assert(trim_start(s) == s);
    assert(trim_end(s) == s);
}

/// A single digit other than `0` is read as that process id; `0` is refused
/// as not positive.
pub proof fn law_pid_single_digit(d: char)
    requires
        '0' <= d <= '9',
    ensures
        d == '0' ==> spec_parse_labwc_pid(seq![d]) == Err::<i32, PidError>(PidError::NotPositive(0)),
        d != '0' ==> spec_parse_labwc_pid(seq![d]) == Ok::<i32, PidError>((d as int - '0' as int) as i32),
{
    let s = seq![d];
    lemma_trim_of_unpadded(s);
    assert(s.drop_last() =~= Seq::<char>::empty());
    assert(crate::pid::digits_value(Seq::<char>::empty()) == 0);
    assert(s.last() == d);
    assert(crate::pid::digits_value(s) == d as int - '0' as int);
}

/// Writing one more digit after the text of a process id (with no whitespace
/// around it) reads as ten times that id plus the digit, while it fits.
pub proof fn law_pid_append_digit(s: Seq<char>, d: char, v: i32)
    requires
        s.len() > 0,
        !is_whitespace(s[0]),
        !is_whitespace(s.last()),
        spec_parse_labwc_pid(s) == Ok::<i32, PidError>(v),
        '0' <= d <= '9',
        v * 10 + (d as int - '0' as int) <= 2147483647,
    ensures
        spec_parse_labwc_pid(s.push(d)) == Ok::<i32, PidError>(
            (v * 10 + (d as int - '0' as int)) as i32,
        ),
{
    let t = s.push(d);
    lemma_trim_of_unpadded(s);
    lemma_trim_of_unpadded(t);
    let sign = crate::pid::has_sign(s);
    assert(crate::pid::has_sign(t) == sign);
    let ds = if sign {
        s.drop_first()
    } else {
        s
    };
    let dt = if sign {
        t.drop_first()
    } else {
        t
    };
    assert(dt =~= ds.push(d));
    assert(dt.drop_last() =~= ds);
    assert(crate::pid::all_digits(ds));
    assert(crate::pid::all_digits(dt)) by {
        assert forall|i: int| 0 <= i < dt.len() implies #[trigger] crate::pid::is_digit(dt[i]) by {
            if i < ds.len() {
                assert(dt[i] == ds[i]);
            }
        }
    }
    crate::pid::lemma_digits_value_nonneg(ds);
    assert(!(sign && s[0] == '-'));
}

/// A character other than a digit inside the trimmed text — anywhere but a
/// leading `+` or `-` — means the text names no process.
pub proof fn law_pid_rejects_non_digit(s: Seq<char>, i: int)
    requires
        0 <= i < trim(s).len(),
        !('0' <= trim(s)[i] <= '9'),
        i > 0 || !(trim(s)[0] == '+' || trim(s)[0] == '-'),
    ensures
        spec_parse_labwc_pid(s) == Err::<i32, PidError>(PidError::NotANumber),
{
    let t = trim(s);
    if crate::pid::has_sign(t) {
        assert(t.drop_first()[i - 1] == t[i]);
        assert(!crate::pid::is_digit(t.drop_first()[i - 1]));
    } else {
        assert(!crate::pid::is_digit(t[i]));
    }
}

} // verus!
