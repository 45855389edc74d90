//! Verified core of a git-aware shell prompt segment.
//!
//! The library computes, from plain values handed in by a thin unverified
//! shell (environment strings, file contents, subprocess results), the
//! styled prompt line that summarizes the enclosing git repository:
//! repository and parent-repository names, branch or detached-commit
//! identifier, a staged/unstaged change badge, and the path of the working
//! directory relative to the repository root.  It renders the result twice,
//! as a plain terminal-title string and as an escape-sequence-laden prompt
//! string, optionally rewriting every escape run into a zero-width-delimited
//! form that line-editing shells measure correctly.

pub mod delimit;
pub mod gitpath;
pub mod head;
pub mod locate;
pub mod render;
pub mod segments;
pub mod status;
pub mod style;
pub mod text;
