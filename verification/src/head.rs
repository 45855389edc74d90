//! Classification of the repository's head reference content into a branch
//! name or a detached short commit identifier.

use vstd::prelude::*;

use crate::text::{starts_with_text, str_starts_with, trim, trim_start, trim_start_text, trim_text};

verus! {

/// The resolved head: a symbolic branch name, or the truncated identifier
/// of the commit a detached head points at.
pub enum HeadState {
    Branch(String),
    Detached(String),
}

impl HeadState {
    /// The branch name or short commit id this state carries.
    pub fn text(&self) -> (r: &String)
        ensures
            r@ == head_text(*self),
    {
        match self {
            HeadState::Branch(s) => s,
            HeadState::Detached(s) => s,
        }
    }
}

/// The text a head state contributes to the prompt.
pub open spec fn head_text(h: HeadState) -> Seq<char> {
    match h {
        HeadState::Branch(s) => s@,
        HeadState::Detached(s) => s@,
    }
}

/// The prefix marking a symbolic reference.
pub open spec fn ref_marker() -> Seq<char> {
    "ref:"@
}

/// The prefix marking a symbolic reference to a local branch head.
pub open spec fn heads_marker() -> Seq<char> {
    "ref: refs/heads/"@
}

/// Number of characters a detached head's raw commit id is truncated to.
pub const SHORT_ID_LEN: usize = 7;

/// Classify the trimmed content of a `HEAD` file.
///
/// Content beginning with `ref: refs/heads/` names a local branch: the
/// remainder is the branch.  Other content beginning with `ref:` names a
/// reference outside `refs/heads/`: the remainder after `ref:`, left-trimmed,
/// is used as the branch text.  Anything else is a raw commit id, truncated
/// to its first seven characters for a detached head.  `None` is returned
/// when such raw content is shorter than seven characters and cannot be
/// truncated; the caller treats that as corrupt repository metadata.
pub fn classify_head(content: &str) -> (r: Option<HeadState>)
    ensures
        ({
            let t = trim_text(content@);
            if starts_with_text(t, heads_marker()) {
                match r {
                    Some(HeadState::Branch(n)) => n@ == t.skip(heads_marker().len() as int),
                    _ => false,
                }
            } else if starts_with_text(t, ref_marker()) {
                match r {
                    Some(HeadState::Branch(n)) => n@ == trim_start_text(
                        t.skip(ref_marker().len() as int),
                    ),
                    _ => false,
                }
            } else if t.len() >= SHORT_ID_LEN {
                match r {
                    Some(HeadState::Detached(d)) => d@ == t.take(SHORT_ID_LEN as int),
                    _ => false,
                }
            } else {
                r is None
            }
        }),
{
    let t = trim(content);
    let tlen = t.unicode_len();
    if str_starts_with(t, "ref: refs/heads/") {
        proof {
            reveal_strlit("ref: refs/heads/");
        }
        let n = t.substring_char(16, tlen);
        proof {
            assert(n@ =~= t@.skip(16));
        }
        Some(HeadState::Branch(String::from_str(n)))
    } else if str_starts_with(t, "ref:") {
        proof {
            reveal_strlit("ref:");
        }
        let rest = t.substring_char(4, tlen);
        proof {
            assert(rest@ =~= t@.skip(4));
        }
        let n = trim_start(rest);
        Some(HeadState::Branch(String::from_str(n)))
    } else if tlen >= SHORT_ID_LEN {
        let d = t.substring_char(0, SHORT_ID_LEN);
        proof {
            assert(d@ =~= t@.take(SHORT_ID_LEN as int));
        }
        Some(HeadState::Detached(String::from_str(d)))
    } else {
        None
    }
}

} // verus!
