//! Working-tree change counts from the version-control tool's shortstat
//! probes, and the staged-preferred choice between them.

use vstd::prelude::*;

use crate::text::{digit_prefix, take_digit_prefix, trim_start, trim_start_text};

verus! {

/// At most one change badge is shown: the staged file count, or failing
/// that the unstaged one.  The count is kept as the digit run the probe
/// output began with.
pub enum ChangeStatus {
    Staged(String),
    Unstaged(String),
}

/// The file count one probe of the external tool yielded.
///
/// A probe counts only when the subprocess exited successfully (`success`),
/// wrote at least one output byte (`wrote_output`), and that output decoded
/// as text (`text` is present).  The count is the leading run of decimal
/// digits of the output after discarding leading whitespace; a run of length
/// zero still counts as a (degenerate) result, exactly as a failed probe
/// does not.
pub fn probe_count(success: bool, wrote_output: bool, text: &Option<String>) -> (r: Option<
    String,
>)
    ensures
        match text {
            Some(t) => {
                if success && wrote_output {
                    match r {
                        Some(d) => d@ == digit_prefix(trim_start_text(t@)),
                        None => false,
                    }
                } else {
                    r is None
                }
            },
            None => r is None,
        },
{
    if success && wrote_output {
        match text {
            Some(t) => Some(take_digit_prefix(trim_start(t.as_str()))),
            None => None,
        }
    } else {
        None
    }
}

/// The staged-preferred choice between the two probe results: a staged
/// count always wins; the unstaged count is reported only when the staged
/// probe yielded nothing; no badge when both yielded nothing.
pub fn choose_status(staged: Option<String>, unstaged: Option<String>) -> (r: Option<
    ChangeStatus,
>)
    ensures
        match staged {
            Some(c) => r == Some(ChangeStatus::Staged(c)),
            None => match unstaged {
                Some(c) => r == Some(ChangeStatus::Unstaged(c)),
                None => r is None,
            },
        },
{
    match staged {
        Some(c) => Some(ChangeStatus::Staged(c)),
        None => match unstaged {
            Some(c) => Some(ChangeStatus::Unstaged(c)),
            None => None,
        },
    }
}

} // verus!
