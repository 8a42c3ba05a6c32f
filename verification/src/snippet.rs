//! The labwc keybinding block that waysnap installs.
use vstd::prelude::*;
use vstd::string::*;

use crate::rcxml::start_marker;
use crate::text::{has_no_char, occurs_at};

verus! {

/// The fixed texts of the keybinding block, in order; the modifier stands
/// between each piece and the next. Piece 0 is the opening comment, the last
/// piece ends with the indent of the closing comment.
pub open spec fn keybind_piece(i: int) -> Seq<char> {
    if i == 0 {
        "  <!-- waysnap: window snapping keybindings (modifier="@
    } else if i == 1 {
        ") -->\n  <keyboard>\n    <!-- Half-screen snapping -->\n    <keybind key=\""@
    } else if i == 2 {
        "-Left\">\n      <action name=\"SnapToEdge\" direction=\"left\"/>\n    </keybind>\n    <keybind key=\""@
    } else if i == 3 {
        "-Right\">\n      <action name=\"SnapToEdge\" direction=\"right\"/>\n    </keybind>\n    <keybind key=\""@
    } else if i == 4 {
        "-Up\">\n      <action name=\"SnapToEdge\" direction=\"up\"/>\n    </keybind>\n    <keybind key=\""@
    } else if i == 5 {
        "-Down\">\n      <action name=\"SnapToEdge\" direction=\"down\"/>\n    </keybind>\n\n    <!-- Fullscreen toggle -->\n    <keybind key=\""@
    } else if i == 6 {
        "-f\">\n      <action name=\"ToggleMaximize\"/>\n    </keybind>\n\n    <!-- Quarter snapping (press two directional keys in sequence,\n         or use combine=\"yes\" with SnapToEdge) -->\n    <keybind key=\""@
    } else if i == 7 {
        "-KP_7\">\n      <action name=\"SnapToEdge\" direction=\"up-left\"/>\n    </keybind>\n    <keybind key=\""@
    } else if i == 8 {
        "-KP_9\">\n      <action name=\"SnapToEdge\" direction=\"up-right\"/>\n    </keybind>\n    <keybind key=\""@
    } else if i == 9 {
        "-KP_1\">\n      <action name=\"SnapToEdge\" direction=\"down-left\"/>\n    </keybind>\n    <keybind key=\""@
    } else {
        "-KP_3\">\n      <action name=\"SnapToEdge\" direction=\"down-right\"/>\n    </keybind>\n  </keyboard>\n  "@
    }
}

/// The number of the last piece.
pub open spec fn last_piece() -> int {
    10
}

/// Pieces `0..=k` of the block with the modifier `m` between each two.
pub open spec fn keybind_upto(m: Seq<char>, k: int) -> Seq<char>
    decreases k,
{
    if k <= 0 {
        keybind_piece(0)
    } else {
        keybind_upto(m, k - 1) + m + keybind_piece(k)
    }
}

/// The keybinding block for modifier prefix `m`, up to its closing comment:
/// the opening comment, then `SnapToEdge` bindings for the four halves
/// (arrows) and four quarters (keypad 7, 9, 1, 3), and `ToggleMaximize` on `f`.
pub open spec fn keybind_body(m: Seq<char>) -> Seq<char> {
    keybind_upto(m, last_piece())
}

/// The keybinding block for modifier prefix `m`: its body, then the closing
/// comment on a line of its own.
pub open spec fn spec_keybind_snippet(m: Seq<char>) -> Seq<char> {
    keybind_body(m) + "<!-- end waysnap -->"@ + "\n"@
}

/// Every `<` in `s` is followed, five characters on, by a character of `s`
/// other than `e`; so no `<!-- end waysnap -->` starts in `s`.
pub open spec fn angles_clear(s: Seq<char>) -> bool {
    forall|j: int| 0 <= j < s.len() && #[trigger] s[j] == '<' ==> j + 5 < s.len() && s[j + 5] != 'e'
}

/// No piece holds a `W`, and in none can an end comment start; the first
/// piece is two spaces and the start marker, then the rest of the comment;
/// each binding's piece opens with its key's suffix and action, and the piece
/// before it closes with the opening of the `<keybind key="` attribute.
pub proof fn lemma_keybind_piece(i: int)
    requires
        0 <= i <= last_piece(),
    ensures
        has_no_char(keybind_piece(i), 'W'),
        angles_clear(keybind_piece(i)),
        i == 0 ==> {
            &&& keybind_piece(0)[0] == ' '
            &&& keybind_piece(0)[1] == ' '
            &&& occurs_at(keybind_piece(0), start_marker(), 2)
        },
        i == 0 ==> occurs_at(
            keybind_piece(0),
            "(modifier="@,
            keybind_piece(0).len() - "(modifier="@.len(),
        ),
        1 <= i < last_piece() ==> occurs_at(
            keybind_piece(i),
            "<keybind key=\""@,
            keybind_piece(i).len() - "<keybind key=\""@.len(),
        ),
        i == 1 ==> occurs_at(keybind_piece(1), ") -->"@, 0),
        i == 2 ==> occurs_at(keybind_piece(2), "-Left\">\n      <action name=\"SnapToEdge\" direction=\"left\"/>"@, 0),
        i == 3 ==> occurs_at(keybind_piece(3), "-Right\">\n      <action name=\"SnapToEdge\" direction=\"right\"/>"@, 0),
        i == 4 ==> occurs_at(keybind_piece(4), "-Up\">\n      <action name=\"SnapToEdge\" direction=\"up\"/>"@, 0),
        i == 5 ==> occurs_at(keybind_piece(5), "-Down\">\n      <action name=\"SnapToEdge\" direction=\"down\"/>"@, 0),
        i == 6 ==> occurs_at(keybind_piece(6), "-f\">\n      <action name=\"ToggleMaximize\"/>"@, 0),
        i == 7 ==> occurs_at(keybind_piece(7), "-KP_7\">\n      <action name=\"SnapToEdge\" direction=\"up-left\"/>"@, 0),
        i == 8 ==> occurs_at(keybind_piece(8), "-KP_9\">\n      <action name=\"SnapToEdge\" direction=\"up-right\"/>"@, 0),
        i == 9 ==> occurs_at(keybind_piece(9), "-KP_1\">\n      <action name=\"SnapToEdge\" direction=\"down-left\"/>"@, 0),
        i == 10 ==> occurs_at(keybind_piece(10), "-KP_3\">\n      <action name=\"SnapToEdge\" direction=\"down-right\"/>"@, 0),
{
    reveal_strlit("<keybind key=\"");
    if i == 0 {
        reveal_strlit("<!-- waysnap:");
        reveal_strlit("(modifier=");
        reveal_strlit("  <!-- waysnap: window snapping keybindings (modifier=");
    } else if i == 1 {
        reveal_strlit(") -->");
        reveal_strlit(") -->\n  <keyboard>\n    <!-- Half-screen snapping -->\n    <keybind key=\"");
    } else if i == 2 {
        reveal_strlit("-Left\">\n      <action name=\"SnapToEdge\" direction=\"left\"/>");
        reveal_strlit("-Left\">\n      <action name=\"SnapToEdge\" direction=\"left\"/>\n    </keybind>\n    <keybind key=\"");
    } else if i == 3 {
        reveal_strlit("-Right\">\n      <action name=\"SnapToEdge\" direction=\"right\"/>");
        reveal_strlit("-Right\">\n      <action name=\"SnapToEdge\" direction=\"right\"/>\n    </keybind>\n    <keybind key=\"");
    } else if i == 4 {
        reveal_strlit("-Up\">\n      <action name=\"SnapToEdge\" direction=\"up\"/>");
        reveal_strlit("-Up\">\n      <action name=\"SnapToEdge\" direction=\"up\"/>\n    </keybind>\n    <keybind key=\"");
    } else if i == 5 {
        reveal_strlit("-Down\">\n      <action name=\"SnapToEdge\" direction=\"down\"/>");
        reveal_strlit("-Down\">\n      <action name=\"SnapToEdge\" direction=\"down\"/>\n    </keybind>\n\n    <!-- Fullscreen toggle -->\n    <keybind key=\"");
    } else if i == 6 {
        reveal_strlit("-f\">\n      <action name=\"ToggleMaximize\"/>");
        reveal_strlit("-f\">\n      <action name=\"ToggleMaximize\"/>\n    </keybind>\n\n    <!-- Quarter snapping (press two directional keys in sequence,\n         or use combine=\"yes\" with SnapToEdge) -->\n    <keybind key=\"");
    } else if i == 7 {
        reveal_strlit("-KP_7\">\n      <action name=\"SnapToEdge\" direction=\"up-left\"/>");
        reveal_strlit("-KP_7\">\n      <action name=\"SnapToEdge\" direction=\"up-left\"/>\n    </keybind>\n    <keybind key=\"");
    } else if i == 8 {
        reveal_strlit("-KP_9\">\n      <action name=\"SnapToEdge\" direction=\"up-right\"/>");
        reveal_strlit("-KP_9\">\n      <action name=\"SnapToEdge\" direction=\"up-right\"/>\n    </keybind>\n    <keybind key=\"");
    } else if i == 9 {
        reveal_strlit("-KP_1\">\n      <action name=\"SnapToEdge\" direction=\"down-left\"/>");
        reveal_strlit("-KP_1\">\n      <action name=\"SnapToEdge\" direction=\"down-left\"/>\n    </keybind>\n    <keybind key=\"");
    } else {
        reveal_strlit("-KP_3\">\n      <action name=\"SnapToEdge\" direction=\"down-right\"/>");
        reveal_strlit("-KP_3\">\n      <action name=\"SnapToEdge\" direction=\"down-right\"/>\n    </keybind>\n  </keyboard>\n  ");
    }
}

/// Generates the XML block of `SnapToEdge` keybindings for labwc, with the
/// given modifier prefix (typically `W`, Super/Logo).
///
/// Zones: halves (left, right, up, down), fullscreen (`ToggleMaximize`),
/// quarters (up-left, up-right, down-left, down-right).
pub fn keybind_snippet(modifier: &str) -> (r: String)
    ensures
        r@ == spec_keybind_snippet(modifier@),
{
    let mut out = String::new();
    out.append("  <!-- waysnap: window snapping keybindings (modifier=");
    out.append(modifier);
    out.append(") -->\n  <keyboard>\n    <!-- Half-screen snapping -->\n    <keybind key=\"");
    out.append(modifier);
    out.append("-Left\">\n      <action name=\"SnapToEdge\" direction=\"left\"/>\n    </keybind>\n    <keybind key=\"");
    out.append(modifier);
    out.append("-Right\">\n      <action name=\"SnapToEdge\" direction=\"right\"/>\n    </keybind>\n    <keybind key=\"");
    out.append(modifier);
    out.append("-Up\">\n      <action name=\"SnapToEdge\" direction=\"up\"/>\n    </keybind>\n    <keybind key=\"");
    out.append(modifier);
    out.append("-Down\">\n      <action name=\"SnapToEdge\" direction=\"down\"/>\n    </keybind>\n\n    <!-- Fullscreen toggle -->\n    <keybind key=\"");
    out.append(modifier);
    out.append("-f\">\n      <action name=\"ToggleMaximize\"/>\n    </keybind>\n\n    <!-- Quarter snapping (press two directional keys in sequence,\n         or use combine=\"yes\" with SnapToEdge) -->\n    <keybind key=\"");
    out.append(modifier);
    out.append("-KP_7\">\n      <action name=\"SnapToEdge\" direction=\"up-left\"/>\n    </keybind>\n    <keybind key=\"");
    out.append(modifier);
    out.append("-KP_9\">\n      <action name=\"SnapToEdge\" direction=\"up-right\"/>\n    </keybind>\n    <keybind key=\"");
    out.append(modifier);
    out.append("-KP_1\">\n      <action name=\"SnapToEdge\" direction=\"down-left\"/>\n    </keybind>\n    <keybind key=\"");
    out.append(modifier);
    out.append("-KP_3\">\n      <action name=\"SnapToEdge\" direction=\"down-right\"/>\n    </keybind>\n  </keyboard>\n  ");
    out.append("<!-- end waysnap -->");
    out.append("\n");
    proof {
        reveal_with_fuel(keybind_upto, 11);
    }
    out
}

} // verus!
