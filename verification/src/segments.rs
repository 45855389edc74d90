//! Composition of the ordered fragment list the renderer serializes.

use vstd::prelude::*;

use crate::gitpath::{
    after_prefix, components_eq, comps_view, joined_with_slashes, last_name, path_last_name,
    rel_path_string, relative_from,
};
use crate::head::{head_text, HeadState};
use crate::status::ChangeStatus;
use crate::style::{frags_view, Fragment, Style};
use crate::text::str_eq;

verus! {

/// The branch name whose badge is suppressed.
pub open spec fn master_name() -> Seq<char> {
    seq!['m', 'a', 's', 't', 'e', 'r']
}

/// The placeholder text of the fallback fragment: the shell's own
/// current-directory escape.
pub open spec fn fallback_text() -> Seq<char> {
    seq!['%', '~']
}

/// Fragments naming the parent repository, when it has a name: the name in
/// bold, then a separating slash.
pub open spec fn parent_piece(parent: Option<Seq<Seq<char>>>) -> Seq<(Seq<char>, Style)> {
    match parent {
        Some(p) => match last_name(p) {
            Some(n) => seq![(n, Style::Bold), (seq!['/'], Style::Default)],
            None => Seq::empty(),
        },
        None => Seq::empty(),
    }
}

/// The repository's own directory name, when it has one.
pub open spec fn name_piece(repo: Seq<Seq<char>>) -> Seq<(Seq<char>, Style)> {
    match last_name(repo) {
        Some(n) => seq![(n, Style::Default)],
        None => Seq::empty(),
    }
}

/// The branch badge: a separating colon and the branch or commit text in
/// red — except for `master`, which is suppressed.
pub open spec fn branch_piece(text: Seq<char>) -> Seq<(Seq<char>, Style)> {
    if text == master_name() {
        Seq::empty()
    } else {
        seq![(seq![':'], Style::Default), (text, Style::Red)]
    }
}

/// The change badge: `+` and the count in green bold for staged changes,
/// `*` and the count in red bold for unstaged ones, nothing otherwise.
pub open spec fn status_piece(status: Option<ChangeStatus>) -> Seq<(Seq<char>, Style)> {
    match status {
        Some(ChangeStatus::Staged(n)) => seq![
            (seq!['+'], Style::GreenBold),
            (n@, Style::GreenBold),
        ],
        Some(ChangeStatus::Unstaged(n)) => seq![
            (seq!['*'], Style::RedBold),
            (n@, Style::RedBold),
        ],
        None => Seq::empty(),
    }
}

/// The trailing working-directory suffix: a blue slash and the path of the
/// working directory relative to the repository root, suppressed when the
/// two coincide.
pub open spec fn rel_piece(repo: Seq<Seq<char>>, pwd: Seq<Seq<char>>) -> Seq<(Seq<char>, Style)> {
    if repo == pwd {
        Seq::empty()
    } else {
        match after_prefix(pwd, repo) {
            Some(rel) => seq![
                (seq!['/'], Style::Blue),
                (joined_with_slashes(rel), Style::Default),
            ],
            None => Seq::empty(),
        }
    }
}

/// The whole fragment list for a located repository, in order: parent
/// label, repository name, branch badge, change badge, subdirectory suffix.
pub open spec fn repo_fragments_model(
    repo: Seq<Seq<char>>,
    parent: Option<Seq<Seq<char>>>,
    head_txt: Seq<char>,
    status: Option<ChangeStatus>,
    pwd: Seq<Seq<char>>,
) -> Seq<(Seq<char>, Style)> {
    parent_piece(parent) + name_piece(repo) + branch_piece(head_txt) + status_piece(status)
        + rel_piece(repo, pwd)
}

/// The degenerate fragment list when no repository encloses the working
/// directory: the single current-directory placeholder in blue.
pub open spec fn fallback_model() -> Seq<(Seq<char>, Style)> {
    seq![(fallback_text(), Style::Blue)]
}

/// Outside any repository the whole output is the single placeholder
/// fragment: no repository name, no branch badge, no change badge.
pub proof fn lemma_fallback_degenerate()
    ensures
        fallback_model().len() == 1,
        fallback_model()[0] == (fallback_text(), Style::Blue),
{
}

/// The branch badge of `master` is suppressed; any other branch or commit
/// text yields the colon separator and the text in red.
pub proof fn lemma_branch_badge(text: Seq<char>)
    ensures
        text == master_name() ==> branch_piece(text) == Seq::<(Seq<char>, Style)>::empty(),
        text != master_name() ==> branch_piece(text) == seq![
            (seq![':'], Style::Default),
            (text, Style::Red),
        ],
{
}

/// With a staged count the fragments carry the `+` badge and no red-bold
/// fragment at all: the unstaged badge can never appear beside it.
pub proof fn lemma_staged_badge_exclusive(
    repo: Seq<Seq<char>>,
    parent: Option<Seq<Seq<char>>>,
    head_txt: Seq<char>,
    count: String,
    pwd: Seq<Seq<char>>,
)
    ensures
        ({
            let m = repo_fragments_model(
                repo,
                parent,
                head_txt,
                Some(ChangeStatus::Staged(count)),
                pwd,
            );
            (exists|k: int| 0 <= k < m.len() && #[trigger] m[k] == (seq!['+'], Style::GreenBold))
                && (forall|k: int| 0 <= k < m.len() ==> (#[trigger] m[k]).1 != Style::RedBold)
        }),
{
    let m = repo_fragments_model(repo, parent, head_txt, Some(ChangeStatus::Staged(count)), pwd);
    let lead = parent_piece(parent) + name_piece(repo) + branch_piece(head_txt);
    assert(m[lead.len() as int] == (seq!['+'], Style::GreenBold));
    assert forall|k: int| 0 <= k < m.len() implies (#[trigger] m[k]).1 != Style::RedBold by {
        assert(forall|k2: int|
            0 <= k2 < parent_piece(parent).len() ==> (#[trigger] parent_piece(parent)[k2]).1
                != Style::RedBold);
        assert(forall|k2: int|
            0 <= k2 < name_piece(repo).len() ==> (#[trigger] name_piece(repo)[k2]).1
                != Style::RedBold);
        assert(forall|k2: int|
            0 <= k2 < branch_piece(head_txt).len() ==> (#[trigger] branch_piece(head_txt)[k2]).1
                != Style::RedBold);
        assert(forall|k2: int|
            0 <= k2 < rel_piece(repo, pwd).len() ==> (#[trigger] rel_piece(repo, pwd)[k2]).1
                != Style::RedBold);
    }
}

/// With an unstaged count and no staged one the fragments carry the `*`
/// badge and no green-bold fragment at all.
pub proof fn lemma_unstaged_badge_exclusive(
    repo: Seq<Seq<char>>,
    parent: Option<Seq<Seq<char>>>,
    head_txt: Seq<char>,
    count: String,
    pwd: Seq<Seq<char>>,
)
    ensures
        ({
            let m = repo_fragments_model(
                repo,
                parent,
                head_txt,
                Some(ChangeStatus::Unstaged(count)),
                pwd,
            );
            (exists|k: int| 0 <= k < m.len() && #[trigger] m[k] == (seq!['*'], Style::RedBold))
                && (forall|k: int| 0 <= k < m.len() ==> (#[trigger] m[k]).1 != Style::GreenBold)
        }),
{
    let m = repo_fragments_model(
        repo,
        parent,
        head_txt,
        Some(ChangeStatus::Unstaged(count)),
        pwd,
    );
    let lead = parent_piece(parent) + name_piece(repo) + branch_piece(head_txt);
    assert(m[lead.len() as int] == (seq!['*'], Style::RedBold));
    assert forall|k: int| 0 <= k < m.len() implies (#[trigger] m[k]).1 != Style::GreenBold by {
        assert(forall|k2: int|
            0 <= k2 < parent_piece(parent).len() ==> (#[trigger] parent_piece(parent)[k2]).1
                != Style::GreenBold);
        assert(forall|k2: int|
            0 <= k2 < name_piece(repo).len() ==> (#[trigger] name_piece(repo)[k2]).1
                != Style::GreenBold);
        assert(forall|k2: int|
            0 <= k2 < branch_piece(head_txt).len() ==> (#[trigger] branch_piece(head_txt)[k2]).1
                != Style::GreenBold);
        assert(forall|k2: int|
            0 <= k2 < rel_piece(repo, pwd).len() ==> (#[trigger] rel_piece(repo, pwd)[k2]).1
                != Style::GreenBold);
    }
}

/// A working directory equal to the repository root gets no trailing
/// suffix; a proper subdirectory gets exactly the blue slash and its path
/// relative to the root.
pub proof fn lemma_rel_suffix(root: Seq<Seq<char>>, sub: Seq<Seq<char>>)
    ensures
        rel_piece(root, root) == Seq::<(Seq<char>, Style)>::empty(),
        sub.len() > 0 ==> rel_piece(root, root + sub) == seq![
            (seq!['/'], Style::Blue),
            (crate::gitpath::joined_with_slashes(sub), Style::Default),
        ],
{
    if sub.len() > 0 {
        crate::gitpath::lemma_after_prefix_extension(root, sub);
        assert(root + sub != root) by {
            assert((root + sub).len() != root.len());
        }
    }
}

/// The fallback fragment list, for a working directory outside any
/// repository.
pub fn fallback_fragments() -> (r: Vec<Fragment>)
    ensures
        frags_view(r@) == fallback_model(),
{
    let mut r: Vec<Fragment> = Vec::new();
    proof {
        reveal_strlit("%~");
        assert("%~"@ =~= fallback_text());
    }
    r.push(Fragment { text: String::from_str("%~"), style: Style::Blue });
    proof {
        assert(frags_view(r@) =~~= fallback_model());
    }
    r
}

/// The fragment list for a located repository.
///
/// Nothing is returned when the working directory does not lie under the
/// repository root, an inconsistency the caller treats as fatal: the walk
/// that located the repository only ever ascends from the working
/// directory.
#[verifier::rlimit(60)]
pub fn repo_fragments(
    repo: &Vec<String>,
    parent: &Option<Vec<String>>,
    head: &HeadState,
    status: &Option<ChangeStatus>,
    pwd: &Vec<String>,
) -> (r: Option<Vec<Fragment>>)
    ensures
        ({
            let parent_view = match parent {
                Some(p) => Some(comps_view(p@)),
                None => None,
            };
            if after_prefix(comps_view(pwd@), comps_view(repo@)) is Some {
                match r {
                    Some(fs) => frags_view(fs@) == repo_fragments_model(
                        comps_view(repo@),
                        parent_view,
                        head_text(*head),
                        *status,
                        comps_view(pwd@),
                    ),
                    None => false,
                }
            } else {
                r is None
            }
        }),
{
    let mut fs: Vec<Fragment> = Vec::new();
    match parent {
        Some(p) => {
            match path_last_name(p) {
                Some(n) => {
                    fs.push(Fragment { text: n, style: Style::Bold });
                    proof {
                        reveal_strlit("/");
                        assert("/"@ =~= seq!['/']);
                    }
                    fs.push(Fragment { text: String::from_str("/"), style: Style::Default });
                },
                None => {},
            }
        },
        None => {},
    }
    let ghost done_parent = frags_view(fs@);
    proof {
        let parent_view = match parent {
            Some(p) => Some(comps_view(p@)),
            None => None,
        };
        assert(done_parent =~~= parent_piece(parent_view));
    }
    match path_last_name(repo) {
        Some(n) => {
            fs.push(Fragment { text: n, style: Style::Default });
        },
        None => {},
    }
    let ghost done_name = frags_view(fs@);
    proof {
        assert(done_name =~~= done_parent + name_piece(comps_view(repo@)));
    }
    let btext = head.text();
    proof {
        reveal_strlit("master");
        assert("master"@ =~= master_name());
    }
    if !str_eq(btext.as_str(), "master") {
        proof {
            reveal_strlit(":");
            assert(":"@ =~= seq![':']);
        }
        fs.push(Fragment { text: String::from_str(":"), style: Style::Default });
        fs.push(Fragment { text: btext.clone(), style: Style::Red });
    }
    let ghost done_branch = frags_view(fs@);
    proof {
        assert(done_branch =~~= done_name + branch_piece(head_text(*head)));
    }
    match status {
        Some(ChangeStatus::Staged(n)) => {
            proof {
                reveal_strlit("+");
                assert("+"@ =~= seq!['+']);
            }
            fs.push(Fragment { text: String::from_str("+"), style: Style::GreenBold });
            fs.push(Fragment { text: n.clone(), style: Style::GreenBold });
        },
        Some(ChangeStatus::Unstaged(n)) => {
            proof {
                reveal_strlit("*");
                assert("*"@ =~= seq!['*']);
            }
            fs.push(Fragment { text: String::from_str("*"), style: Style::RedBold });
            fs.push(Fragment { text: n.clone(), style: Style::RedBold });
        },
        None => {},
    }
    let ghost done_status = frags_view(fs@);
    proof {
        assert(done_status =~~= done_branch + status_piece(*status));
    }
    if components_eq(repo, pwd) {
        proof {
            assert(comps_view(pwd@).take(comps_view(repo@).len() as int) =~~= comps_view(repo@));
        }
    } else {
        match relative_from(pwd, repo) {
            Some(rel) => {
                proof {
                    reveal_strlit("/");
                    assert("/"@ =~= seq!['/']);
                }
                fs.push(Fragment { text: String::from_str("/"), style: Style::Blue });
                fs.push(Fragment { text: rel_path_string(&rel), style: Style::Default });
            },
            None => {
                return None;
            },
        }
    }
    proof {
        assert(frags_view(fs@) =~~= done_status + rel_piece(comps_view(repo@), comps_view(pwd@)));
    }
    Some(fs)
}

} // verus!
