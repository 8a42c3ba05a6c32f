//! waysnap: window-snapping keybindings for the labwc Wayland compositor.
//!
//! The library computes the keybinding block, patches the text of labwc's
//! `rc.xml` so that it holds that block, and reads labwc's process id from
//! the text of `$LABWC_PID`. Reading and writing files, the environment and
//! signalling labwc are left to the caller.
pub mod laws;
pub mod pid;
pub mod rcxml;
pub mod snippet;
pub mod text;

pub use pid::{parse_labwc_pid, PidError};
pub use rcxml::{
    expand_self_closing_root, insert_before_closing_tag, installed_rc_xml, is_self_closing_root,
    minimal_rc_xml, patch_rc_xml, replace_waysnap_block,
};
pub use snippet::keybind_snippet;
