use git_prompt::delimit::delimit_prompt;
use git_prompt::head::HeadState;
use git_prompt::render::{
    plain_of_fragments, render_prompt, show_dollar_suffix, styled_of_fragments,
    term_supports_title,
};
use git_prompt::segments::{fallback_fragments, repo_fragments};
use git_prompt::status::ChangeStatus;
use git_prompt::style::{Fragment, Style};

fn comps(parts: &[&str]) -> Vec<String> {
    parts.iter().map(|p| p.to_string()).collect()
}

fn frag(text: &str, style: Style) -> Fragment {
    Fragment { text: text.to_string(), style }
}

fn texts(fs: &[Fragment]) -> Vec<String> {
    fs.iter().map(|f| f.text.clone()).collect()
}

#[test]
fn fallback_prompt_has_no_repository_parts() {
    let fs = fallback_fragments();
    assert_eq!(texts(&fs), vec!["%~".to_string()]);
    assert_eq!(plain_of_fragments(&fs), "%~");
    assert_eq!(styled_of_fragments(&fs), "\u{1b}[34m%~\u{1b}[0m");
    let p = render_prompt(&fs, &None, false, true, false).unwrap();
    assert_eq!(p, "\u{1b}[34m%~\u{1b}[0m $ ");
}

#[test]
fn nonmaster_branch_shows_colon_and_red_text() {
    let repo = comps(&["home", "u", "proj"]);
    let fs = repo_fragments(
        &repo,
        &None,
        &HeadState::Branch("feature-x".to_string()),
        &None,
        &repo,
    )
    .unwrap();
    assert_eq!(
        texts(&fs),
        vec!["proj".to_string(), ":".to_string(), "feature-x".to_string()]
    );
    let styled = styled_of_fragments(&fs);
    assert!(styled.contains("\u{1b}[31mfeature-x\u{1b}[0m"));
}

#[test]
fn master_branch_is_suppressed() {
    let repo = comps(&["home", "u", "proj"]);
    let fs = repo_fragments(
        &repo,
        &None,
        &HeadState::Branch("master".to_string()),
        &None,
        &repo,
    )
    .unwrap();
    assert_eq!(texts(&fs), vec!["proj".to_string()]);
}

#[test]
fn detached_head_text_is_shown_like_a_branch() {
    let repo = comps(&["r"]);
    let fs = repo_fragments(
        &repo,
        &None,
        &HeadState::Detached("a1b2c3d".to_string()),
        &None,
        &repo,
    )
    .unwrap();
    assert_eq!(
        texts(&fs),
        vec!["r".to_string(), ":".to_string(), "a1b2c3d".to_string()]
    );
}

#[test]
fn staged_badge_wins_and_unstaged_never_appears_beside_it() {
    let repo = comps(&["r"]);
    let fs = repo_fragments(
        &repo,
        &None,
        &HeadState::Branch("master".to_string()),
        &Some(ChangeStatus::Staged("3".to_string())),
        &repo,
    )
    .unwrap();
    assert_eq!(texts(&fs), vec!["r".to_string(), "+".to_string(), "3".to_string()]);
    assert!(fs.iter().all(|f| f.text != "*"));
    let styled = styled_of_fragments(&fs);
    assert!(styled.contains("\u{1b}[1;32m+\u{1b}[0m\u{1b}[1;32m3\u{1b}[0m"));
    assert!(!styled.contains("\u{1b}[1;31m"));
}

#[test]
fn unstaged_badge_is_red_bold() {
    let repo = comps(&["r"]);
    let fs = repo_fragments(
        &repo,
        &None,
        &HeadState::Branch("master".to_string()),
        &Some(ChangeStatus::Unstaged("2".to_string())),
        &repo,
    )
    .unwrap();
    assert_eq!(texts(&fs), vec!["r".to_string(), "*".to_string(), "2".to_string()]);
    let styled = styled_of_fragments(&fs);
    assert!(styled.contains("\u{1b}[1;31m*\u{1b}[0m\u{1b}[1;31m2\u{1b}[0m"));
}

#[test]
fn parent_repository_name_leads_in_bold() {
    let repo = comps(&["home", "u", "wt"]);
    let fs = repo_fragments(
        &repo,
        &Some(comps(&["home", "u", "proj"])),
        &HeadState::Branch("master".to_string()),
        &None,
        &repo,
    )
    .unwrap();
    assert_eq!(
        texts(&fs),
        vec!["proj".to_string(), "/".to_string(), "wt".to_string()]
    );
    assert!(matches!(fs[0].style, Style::Bold));
}

#[test]
fn subdirectory_adds_exactly_one_slash_fragment() {
    let repo = comps(&["home", "u", "proj"]);
    let pwd = comps(&["home", "u", "proj", "src"]);
    let fs = repo_fragments(
        &repo,
        &None,
        &HeadState::Branch("master".to_string()),
        &None,
        &pwd,
    )
    .unwrap();
    assert_eq!(
        texts(&fs),
        vec!["proj".to_string(), "/".to_string(), "src".to_string()]
    );
    assert!(matches!(fs[1].style, Style::Blue));
}

#[test]
fn working_directory_outside_repo_is_fatal_for_the_builder() {
    let repo = comps(&["home", "u", "proj"]);
    let pwd = comps(&["home", "u", "other"]);
    let r = repo_fragments(
        &repo,
        &None,
        &HeadState::Branch("master".to_string()),
        &None,
        &pwd,
    );
    assert!(r.is_none());
}

#[test]
fn version_suffix_is_dim_before_the_trailing_space() {
    let fs = fallback_fragments();
    let p = render_prompt(&fs, &Some("v1.2.3".to_string()), false, false, false).unwrap();
    assert_eq!(p, "\u{1b}[34m%~\u{1b}[0m\u{1b}[2mv1.2.3\u{1b}[0m ");
}

#[test]
fn title_escape_wraps_the_plain_title() {
    let fs = vec![frag("proj", Style::Default), frag(":", Style::Default)];
    let p = render_prompt(&fs, &None, true, false, false).unwrap();
    assert_eq!(p, "proj: \u{1b}]2;proj:\u{7}");
}

#[test]
fn delimited_title_escape_gets_manual_markers() {
    let fs = vec![frag("p", Style::Default)];
    let p = render_prompt(&fs, &None, true, false, true).unwrap();
    assert_eq!(p, "p %{\u{1b}]2;p\u{7}%}");
}

#[test]
fn delimiting_wraps_each_escape_run() {
    let r = delimit_prompt("\u{1b}[31mred\u{1b}[0m plain").unwrap();
    assert_eq!(r, "%{\u{1b}[31m%}red%{\u{1b}[0m%} plain");
}

#[test]
fn delimiting_malformed_escape_is_fatal() {
    assert!(delimit_prompt("text \u{1b}[31").is_none());
}

#[test]
fn delimit_then_strip_restores_the_styled_prompt() {
    let repo = comps(&["home", "u", "proj"]);
    let pwd = comps(&["home", "u", "proj", "src"]);
    let fs = repo_fragments(
        &repo,
        &Some(comps(&["home", "u", "top"])),
        &HeadState::Branch("feature-x".to_string()),
        &Some(ChangeStatus::Staged("3".to_string())),
        &pwd,
    )
    .unwrap();
    let raw = render_prompt(&fs, &Some("v9".to_string()), false, true, false).unwrap();
    let delimited = render_prompt(&fs, &Some("v9".to_string()), false, true, true).unwrap();
    let stripped = delimited.replace("%{", "").replace("%}", "");
    assert_eq!(stripped, raw);
}

#[test]
fn nameless_roots_emit_no_name_fragments() {
    // repository at `/` and a parent whose path ends in `..`: neither has
    // a display name, so only the branch badge remains
    let fs = repo_fragments(
        &comps(&[]),
        &Some(comps(&["top", ".."])),
        &HeadState::Branch("dev".to_string()),
        &None,
        &comps(&[]),
    )
    .unwrap();
    assert_eq!(texts(&fs), vec![":".to_string(), "dev".to_string()]);
}

#[test]
fn terminal_family_gates_the_title() {
    assert!(term_supports_title(&Some("xterm-256color".to_string())));
    assert!(term_supports_title(&Some("xterm".to_string())));
    assert!(!term_supports_title(&Some("screen".to_string())));
    assert!(!term_supports_title(&None));
}

#[test]
fn dollar_suffix_only_away_from_home() {
    let home = comps(&["home", "u"]);
    assert!(!show_dollar_suffix(&Some(home.clone()), &comps(&["home", "u"])));
    assert!(show_dollar_suffix(&Some(home), &comps(&["home", "u", "proj"])));
    assert!(!show_dollar_suffix(&None, &comps(&["anywhere"])));
}
