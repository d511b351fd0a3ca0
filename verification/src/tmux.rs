//! The verified core of the session snapshot tool: command construction,
//! the save-format codec, and the window merge.

use vstd::prelude::*;

use crate::text::seq_views;

pub mod command;
pub mod window;

verus! {

/// The file under the user's home directory that holds the snapshot.
pub fn file_name() -> (r: &'static str)
    ensures
        r@ == ".tmux-session-rust"@,
{
    ".tmux-session-rust"
}

/// The window names that are never restored.
pub fn excluded() -> (r: Vec<String>)
    ensures
        seq_views(r@) == seq!["SPOTIFY"@, "WIKI"@, "VPN"@],
{
    let mut v: Vec<String> = Vec::new();
    v.push(String::from_str("SPOTIFY"));
    v.push(String::from_str("WIKI"));
    v.push(String::from_str("VPN"));
    proof {
        assert(seq_views(v@) =~= seq!["SPOTIFY"@, "WIKI"@, "VPN"@]);
    }
    v
}

/// The program names that a restored pane may launch.
pub fn known_cmds() -> (r: Vec<String>)
    ensures
        seq_views(r@) == seq!["nvim"@],
{
    let mut v: Vec<String> = Vec::new();
    v.push(String::from_str("nvim"));
    proof {
        assert(seq_views(v@) =~= seq!["nvim"@]);
    }
    v
}

} // verus!
