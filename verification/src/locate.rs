//! One step of the upward walk that locates the enclosing git repository.
//!
//! The walk itself performs filesystem probes, so an unverified shell
//! drives it: for each candidate directory it probes `<candidate>/.git`
//! and hands the outcome to [`locate_step`], which decides everything —
//! ascend, stop with a repository, stop with nothing, or report corrupt
//! metadata.

use vstd::prelude::*;

use crate::gitpath::{
    clone_components, clone_prefix, comps_view, find_parent_repo, git_name, join_path,
    joined_path, parent_repo_of,
};
use crate::text::{trim, trim_text};

verus! {

/// What the filesystem shows at `<candidate>/.git`.
pub enum GitProbe {
    /// No entry of that name.
    Missing,
    /// The entry is a directory: the repository holds its metadata directly.
    Directory,
    /// The entry is a file, the linked layout of worktrees and submodules:
    /// its full text content.
    FileContent(String),
    /// The entry is neither a file nor a directory.
    Other,
}

/// The decision taken after one probe.
pub enum LocateStep {
    /// No `.git` here: continue the walk at the candidate's parent.
    Ascend(Vec<String>),
    /// No `.git` here and the candidate is the root: there is no repository.
    Exhausted,
    /// A direct repository: its root and the metadata directory within it.
    Direct { repo: Vec<String>, gitdir: Vec<String> },
    /// A linked repository: its root, the resolved metadata directory the
    /// pointer file names, and the enclosing parent repository when the
    /// resolved path betrays one.
    Linked { repo: Vec<String>, gitdir: Vec<String>, parent: Option<Vec<String>> },
    /// The pointer file is too short to carry the fixed `gitdir: ` prefix:
    /// corrupt metadata, fatal.
    ShortPointer,
    /// The `.git` entry is neither a file nor a directory: fatal.
    BadEntry,
}

/// Number of characters of the fixed prefix a gitdir pointer file begins
/// with, discarded before the target path is read.
pub const POINTER_PREFIX_LEN: usize = 8;

/// Decide one step of the walk from what the probe of `<candidate>/.git`
/// showed.
///
/// A missing entry ascends, or exhausts the walk at the root.  A directory
/// ends the walk with a direct repository and no parent.  A file ends the
/// walk with a linked repository: the pointer target — the file content
/// after the fixed eight-character prefix, trimmed — is resolved against
/// the candidate, and the parent repository is everything before the
/// rightmost `.git` component of the resolved path.  Anything else is
/// corrupt metadata.
pub fn locate_step(candidate: &Vec<String>, probe: &GitProbe) -> (r: LocateStep)
    ensures
        ({
            let cand = comps_view(candidate@);
            match probe {
                GitProbe::Missing => {
                    if cand.len() > 0 {
                        match r {
                            LocateStep::Ascend(next) => comps_view(next@) == cand.drop_last(),
                            _ => false,
                        }
                    } else {
                        r is Exhausted
                    }
                },
                GitProbe::Directory => match r {
                    LocateStep::Direct { repo, gitdir } => comps_view(repo@) == cand
                        && comps_view(gitdir@) == cand.push(git_name()),
                    _ => false,
                },
                GitProbe::FileContent(c) => {
                    if c@.len() >= POINTER_PREFIX_LEN {
                        let target = joined_path(
                            cand,
                            trim_text(c@.skip(POINTER_PREFIX_LEN as int)),
                        );
                        match r {
                            LocateStep::Linked { repo, gitdir, parent } => comps_view(repo@)
                                == cand && comps_view(gitdir@) == target && (match parent {
                                Some(p) => parent_repo_of(target) == Some(comps_view(p@)),
                                None => parent_repo_of(target) is None,
                            }),
                            _ => false,
                        }
                    } else {
                        r is ShortPointer
                    }
                },
                GitProbe::Other => r is BadEntry,
            }
        }),
{
    match probe {
        GitProbe::Missing => {
            if candidate.len() > 0 {
                let next = clone_prefix(candidate, candidate.len() - 1);
                proof {
                    assert(comps_view(candidate@).take(candidate@.len() - 1) =~~= comps_view(
                        candidate@,
                    ).drop_last());
                }
                LocateStep::Ascend(next)
            } else {
                LocateStep::Exhausted
            }
        },
        GitProbe::Directory => {
            let repo = clone_components(candidate);
            let mut gitdir = clone_components(candidate);
            gitdir.push(String::from_str(".git"));
            proof {
                reveal_strlit(".git");
                assert(".git"@ =~= git_name());
                assert(comps_view(gitdir@) =~~= comps_view(candidate@).push(git_name()));
            }
            LocateStep::Direct { repo, gitdir }
        },
        GitProbe::FileContent(c) => {
            let clen = c.as_str().unicode_len();
            if clen < POINTER_PREFIX_LEN {
                LocateStep::ShortPointer
            } else {
                let tail = c.as_str().substring_char(POINTER_PREFIX_LEN, clen);
                proof {
                    assert(tail@ =~= c@.skip(POINTER_PREFIX_LEN as int));
                }
                let target = trim(tail);
                let gitdir = join_path(candidate, target);
                let parent = find_parent_repo(&gitdir);
                let repo = clone_components(candidate);
                LocateStep::Linked { repo, gitdir, parent }
            }
        },
        GitProbe::Other => LocateStep::BadEntry,
    }
}

} // verus!
