use git_prompt::gitpath::{
    abs_path_string, components_eq, iter_after, join_path, parse_components, path_last_name,
    rel_path_string, relative_from,
};
use git_prompt::head::{classify_head, HeadState};
use git_prompt::locate::{locate_step, GitProbe, LocateStep};
use git_prompt::status::{choose_status, probe_count, ChangeStatus};

fn comps(parts: &[&str]) -> Vec<String> {
    parts.iter().map(|p| p.to_string()).collect()
}

#[test]
fn head_branch_main() {
    match classify_head("ref: refs/heads/main\n") {
        Some(HeadState::Branch(n)) => assert_eq!(n, "main"),
        _ => panic!("expected a branch"),
    }
}

#[test]
fn head_branch_feature() {
    match classify_head("ref: refs/heads/feature-x\n") {
        Some(HeadState::Branch(n)) => assert_eq!(n, "feature-x"),
        _ => panic!("expected a branch"),
    }
}

#[test]
fn head_branch_outside_heads() {
    match classify_head("ref: refs/tags/v1.0\n") {
        Some(HeadState::Branch(n)) => assert_eq!(n, "refs/tags/v1.0"),
        _ => panic!("expected a branch"),
    }
}

#[test]
fn head_detached_truncates_to_seven() {
    match classify_head("a1b2c3d4e5f6a7b8c9d0e1f2a3b4c5d6e7f8a9b0\n") {
        Some(HeadState::Detached(d)) => assert_eq!(d, "a1b2c3d"),
        _ => panic!("expected a detached head"),
    }
}

#[test]
fn head_short_raw_content_is_rejected() {
    assert!(classify_head("abc\n").is_none());
}

#[test]
fn probe_counts_leading_digits() {
    let out = Some(" 3 files changed, 1 insertion(+)".to_string());
    assert_eq!(probe_count(true, true, &out), Some("3".to_string()));
}

#[test]
fn probe_failure_yields_nothing() {
    let out = Some(" 3 files changed".to_string());
    assert_eq!(probe_count(false, true, &out), None);
    assert_eq!(probe_count(true, false, &out), None);
    assert_eq!(probe_count(true, true, &None), None);
}

#[test]
fn staged_preferred_over_unstaged() {
    match choose_status(Some("3".to_string()), Some("5".to_string())) {
        Some(ChangeStatus::Staged(n)) => assert_eq!(n, "3"),
        _ => panic!("expected the staged count"),
    }
    match choose_status(None, Some("5".to_string())) {
        Some(ChangeStatus::Unstaged(n)) => assert_eq!(n, "5"),
        _ => panic!("expected the unstaged count"),
    }
    assert!(choose_status(None, None).is_none());
}

#[test]
fn parse_components_drops_empty_and_dot() {
    let c = parse_components("/home/u//./proj/");
    assert_eq!(c, comps(&["home", "u", "proj"]));
}

#[test]
fn join_path_resolves_relative_and_absolute() {
    let base = comps(&["repo", "sub"]);
    assert_eq!(
        join_path(&base, "../.git/modules/x"),
        comps(&["repo", "sub", "..", ".git", "modules", "x"])
    );
    assert_eq!(join_path(&base, "/other/.git"), comps(&["other", ".git"]));
}

#[test]
fn path_strings_round_out() {
    let p = comps(&["home", "u", "proj"]);
    assert_eq!(rel_path_string(&p), "home/u/proj");
    assert_eq!(abs_path_string(&p), "/home/u/proj");
}

#[test]
fn last_name_skips_dotdot_and_empty() {
    assert_eq!(path_last_name(&comps(&["a", "b"])), Some("b".to_string()));
    assert_eq!(path_last_name(&comps(&["a", ".."])), None);
    assert_eq!(path_last_name(&comps(&[])), None);
}

#[test]
fn iter_after_splits_off_prefix() {
    let v = comps(&["a", "b", "c"]);
    assert_eq!(iter_after(&v, &comps(&["a", "b"])), Some(comps(&["c"])));
    assert_eq!(iter_after(&v, &comps(&["a", "b", "c"])), Some(comps(&[])));
    assert_eq!(iter_after(&v, &comps(&["a", "x"])), None);
    assert_eq!(iter_after(&comps(&["a"]), &v), None);
}

#[test]
fn relative_from_matches_iter_after() {
    let pwd = comps(&["home", "u", "proj", "src"]);
    let repo = comps(&["home", "u", "proj"]);
    assert_eq!(relative_from(&pwd, &repo), Some(comps(&["src"])));
}

#[test]
fn walk_ascends_then_exhausts() {
    match locate_step(&comps(&["home", "u"]), &GitProbe::Missing) {
        LocateStep::Ascend(next) => assert_eq!(next, comps(&["home"])),
        _ => panic!("expected an ascent"),
    }
    assert!(matches!(locate_step(&comps(&[]), &GitProbe::Missing), LocateStep::Exhausted));
}

#[test]
fn direct_repository_stops_the_walk() {
    match locate_step(&comps(&["home", "u", "proj"]), &GitProbe::Directory) {
        LocateStep::Direct { repo, gitdir } => {
            assert_eq!(repo, comps(&["home", "u", "proj"]));
            assert_eq!(gitdir, comps(&["home", "u", "proj", ".git"]));
        },
        _ => panic!("expected a direct repository"),
    }
}

#[test]
fn linked_repository_resolves_parent() {
    let probe = GitProbe::FileContent("gitdir: /repo/.git/worktrees/feature\n".to_string());
    match locate_step(&comps(&["home", "u", "wt"]), &probe) {
        LocateStep::Linked { repo, gitdir, parent } => {
            assert_eq!(repo, comps(&["home", "u", "wt"]));
            assert_eq!(gitdir, comps(&["repo", ".git", "worktrees", "feature"]));
            assert_eq!(parent, Some(comps(&["repo"])));
            assert_eq!(abs_path_string(&comps(&["repo"])), "/repo");
        },
        _ => panic!("expected a linked repository"),
    }
}

#[test]
fn linked_repository_relative_pointer() {
    let probe = GitProbe::FileContent("gitdir: ../.git/modules/sub\n".to_string());
    match locate_step(&comps(&["top", "sub"]), &probe) {
        LocateStep::Linked { gitdir, parent, .. } => {
            assert_eq!(gitdir, comps(&["top", "sub", "..", ".git", "modules", "sub"]));
            assert_eq!(parent, Some(comps(&["top", "sub", ".."])));
        },
        _ => panic!("expected a linked repository"),
    }
}

#[test]
fn linked_repository_without_git_ancestor_has_no_parent() {
    let probe = GitProbe::FileContent("gitdir: /srv/bare-meta\n".to_string());
    match locate_step(&comps(&["home"]), &probe) {
        LocateStep::Linked { parent, .. } => assert!(parent.is_none()),
        _ => panic!("expected a linked repository"),
    }
}

#[test]
fn corrupt_metadata_is_fatal() {
    assert!(matches!(locate_step(&comps(&["a"]), &GitProbe::Other), LocateStep::BadEntry));
    let probe = GitProbe::FileContent("git".to_string());
    assert!(matches!(locate_step(&comps(&["a"]), &probe), LocateStep::ShortPointer));
}

#[test]
fn head_branch_with_empty_remainder() {
    match classify_head("ref: refs/heads/\n") {
        Some(HeadState::Branch(n)) => assert_eq!(n, ""),
        _ => panic!("expected a branch"),
    }
}

#[test]
fn repository_at_the_filesystem_root() {
    match locate_step(&comps(&[]), &GitProbe::Directory) {
        LocateStep::Direct { repo, gitdir } => {
            assert_eq!(repo, comps(&[]));
            assert_eq!(gitdir, comps(&[".git"]));
        },
        _ => panic!("expected a direct repository"),
    }
}

#[test]
fn parent_repository_at_the_filesystem_root() {
    let probe = GitProbe::FileContent("gitdir: /.git/worktrees/w\n".to_string());
    match locate_step(&comps(&["home"]), &probe) {
        LocateStep::Linked { parent, .. } => assert_eq!(parent, Some(comps(&[]))),
        _ => panic!("expected a linked repository"),
    }
}

#[test]
fn component_equality_is_exact() {
    assert!(components_eq(&comps(&["a", "b"]), &comps(&["a", "b"])));
    assert!(!components_eq(&comps(&["a", "b"]), &comps(&["a"])));
    assert!(!components_eq(&comps(&["a", "b"]), &comps(&["a", "c"])));
}
