//! Serialization of the fragment list: the plain terminal title, the
//! styled prompt, and the zero-width delimiting of escape runs.

use vstd::prelude::*;

use crate::delimit::{delimit_prompt, delimit_text, marker_close, marker_open};
use crate::gitpath::comps_view;
use crate::gitpath::components_eq;
use crate::style::{frags_view, style_prefix_str, style_suffix_str, styled_text, Fragment, Style};
use crate::text::{starts_with_text, str_starts_with};

verus! {

/// The styled serialization of a fragment list: each fragment's escape
/// prelude, its text, and its reset, in order.
pub open spec fn styled_frags(fs: Seq<(Seq<char>, Style)>) -> Seq<char>
    decreases fs.len(),
{
    if fs.len() == 0 {
        Seq::empty()
    } else {
        styled_text(fs[0].0, fs[0].1) + styled_frags(fs.skip(1))
    }
}

/// The plain serialization of a fragment list: the texts alone, in order.
pub open spec fn plain_frags(fs: Seq<(Seq<char>, Style)>) -> Seq<char>
    decreases fs.len(),
{
    if fs.len() == 0 {
        Seq::empty()
    } else {
        fs[0].0 + plain_frags(fs.skip(1))
    }
}

/// Appending a fragment extends the styled serialization at the end.
proof fn lemma_styled_frags_push(fs: Seq<(Seq<char>, Style)>, x: (Seq<char>, Style))
    ensures
        styled_frags(fs.push(x)) == styled_frags(fs) + styled_text(x.0, x.1),
    decreases fs.len(),
{
    if fs.len() == 0 {
        assert(fs.push(x)[0] == x);
        assert(fs.push(x).skip(1) =~= Seq::<(Seq<char>, Style)>::empty());
        assert(styled_frags(Seq::<(Seq<char>, Style)>::empty()) =~= Seq::<char>::empty());
        assert(styled_frags(fs.push(x)) =~= styled_text(x.0, x.1));
        assert(styled_frags(fs) + styled_text(x.0, x.1) =~= styled_text(x.0, x.1));
    } else {
        lemma_styled_frags_push(fs.skip(1), x);
        assert(fs.push(x).skip(1) =~= fs.skip(1).push(x));
        assert(styled_frags(fs.push(x)) =~= styled_frags(fs) + styled_text(x.0, x.1));
    }
}

/// Appending a fragment extends the plain serialization at the end.
proof fn lemma_plain_frags_push(fs: Seq<(Seq<char>, Style)>, x: (Seq<char>, Style))
    ensures
        plain_frags(fs.push(x)) == plain_frags(fs) + x.0,
    decreases fs.len(),
{
    if fs.len() == 0 {
        assert(fs.push(x)[0] == x);
        assert(fs.push(x).skip(1) =~= Seq::<(Seq<char>, Style)>::empty());
        assert(plain_frags(Seq::<(Seq<char>, Style)>::empty()) =~= Seq::<char>::empty());
        assert(plain_frags(fs.push(x)) =~= x.0);
        assert(plain_frags(fs) + x.0 =~= x.0);
    } else {
        lemma_plain_frags_push(fs.skip(1), x);
        assert(fs.push(x).skip(1) =~= fs.skip(1).push(x));
        assert(plain_frags(fs.push(x)) =~= plain_frags(fs) + x.0);
    }
}

/// The styled prompt text of a fragment list.
pub fn styled_of_fragments(fs: &Vec<Fragment>) -> (r: String)
    ensures
        r@ == styled_frags(frags_view(fs@)),
{
    let mut out = String::new();
    let mut k: usize = 0;
    while k < fs.len()
        invariant
            k <= fs@.len(),
            out@ == styled_frags(frags_view(fs@).take(k as int)),
        decreases fs@.len() - k,
    {
        out.append(style_prefix_str(fs[k].style));
        out.append(fs[k].text.as_str());
        out.append(style_suffix_str(fs[k].style));
        k += 1;
        proof {
            let views = frags_view(fs@);
            assert(views[k - 1] == fs@[k - 1]@);
            assert(views.take(k as int).drop_last() =~= views.take(k - 1));
            assert(views.take(k as int).last() == views[k - 1]);
            lemma_styled_frags_push(views.take(k - 1), views[k - 1]);
            assert(views.take(k - 1).push(views[k - 1]) =~= views.take(k as int));
        }
    }
    proof {
        assert(frags_view(fs@).take(fs@.len() as int) =~= frags_view(fs@));
    }
    out
}

/// The plain terminal-title text of a fragment list: the concatenation of
/// the texts with every style discarded, free of escape sequences as long
/// as the texts are.
pub fn plain_of_fragments(fs: &Vec<Fragment>) -> (r: String)
    ensures
        r@ == plain_frags(frags_view(fs@)),
{
    let mut out = String::new();
    let mut k: usize = 0;
    while k < fs.len()
        invariant
            k <= fs@.len(),
            out@ == plain_frags(frags_view(fs@).take(k as int)),
        decreases fs@.len() - k,
    {
        out.append(fs[k].text.as_str());
        k += 1;
        proof {
            let views = frags_view(fs@);
            assert(views[k - 1] == fs@[k - 1]@);
            assert(views.take(k as int).drop_last() =~= views.take(k - 1));
            assert(views.take(k as int).last() == views[k - 1]);
            lemma_plain_frags_push(views.take(k - 1), views[k - 1]);
            assert(views.take(k - 1).push(views[k - 1]) =~= views.take(k as int));
        }
    }
    proof {
        assert(frags_view(fs@).take(fs@.len() as int) =~= frags_view(fs@));
    }
    out
}

/// Outside any repository both renderings reduce to the placeholder: the
/// plain title is the placeholder text alone, and the styled prompt is
/// that text in blue — no repository name, branch badge or change badge.
pub proof fn lemma_fallback_render()
    ensures
        plain_frags(crate::segments::fallback_model()) == crate::segments::fallback_text(),
        styled_frags(crate::segments::fallback_model()) == styled_text(
            crate::segments::fallback_text(),
            Style::Blue,
        ),
{
    let m = crate::segments::fallback_model();
    assert(m.skip(1) =~= Seq::<(Seq<char>, Style)>::empty());
    assert(plain_frags(Seq::<(Seq<char>, Style)>::empty()) == Seq::<char>::empty());
    assert(styled_frags(Seq::<(Seq<char>, Style)>::empty()) == Seq::<char>::empty());
    assert(plain_frags(m) =~= crate::segments::fallback_text());
    assert(styled_frags(m) =~= styled_text(crate::segments::fallback_text(), Style::Blue));
}

/// The four characters opening a terminal-title escape.
pub open spec fn title_open() -> Seq<char> {
    seq!['\u{1b}', ']', '2', ';']
}

/// The bell character closing a terminal-title escape.
pub open spec fn title_close() -> Seq<char> {
    seq!['\u{7}']
}

/// The title-setting escape around the plain title.  Its introducer differs
/// from the one of style runs, so the delimiting pass leaves it alone: when
/// delimiting is on, the whole escape is wrapped in markers here.
pub open spec fn title_escape(title: Seq<char>, delimit: bool) -> Seq<char> {
    if delimit {
        marker_open() + title_open() + title + title_close() + marker_close()
    } else {
        title_open() + title + title_close()
    }
}

/// The optional runtime-version suffix, rendered dim.
pub open spec fn version_piece(version: Option<Seq<char>>) -> Seq<char> {
    match version {
        Some(v) => styled_text(v, Style::Dim),
        None => Seq::empty(),
    }
}

/// The prompt before any delimiting: the styled fragments, the dim version
/// suffix, a trailing space, the `$ ` suffix away from home, and the
/// title-setting escape on terminals that take one.
pub open spec fn assembled_prompt(
    fs: Seq<(Seq<char>, Style)>,
    version: Option<Seq<char>>,
    title_ok: bool,
    show_dollar: bool,
    delimit: bool,
) -> Seq<char> {
    styled_frags(fs) + version_piece(version) + seq![' '] + (if show_dollar {
        seq!['$', ' ']
    } else {
        Seq::empty()
    }) + (if title_ok {
        title_escape(plain_frags(fs), delimit)
    } else {
        Seq::empty()
    })
}

/// The final prompt: the assembled prompt, rewritten into its delimited
/// form when asked; nothing when delimiting meets a malformed escape run.
pub open spec fn final_prompt(
    fs: Seq<(Seq<char>, Style)>,
    version: Option<Seq<char>>,
    title_ok: bool,
    show_dollar: bool,
    delimit: bool,
) -> Option<Seq<char>> {
    let p = assembled_prompt(fs, version, title_ok, show_dollar, delimit);
    if delimit {
        delimit_text(p)
    } else {
        Some(p)
    }
}

/// Whether the terminal type names a family that takes a title escape.
pub fn term_supports_title(term: &Option<String>) -> (r: bool)
    ensures
        r == match term {
            Some(t) => starts_with_text(t@, "xterm"@),
            None => false,
        },
{
    match term {
        Some(t) => str_starts_with(t.as_str(), "xterm"),
        None => false,
    }
}

/// Whether the `$ ` suffix is owed: only when the home directory is known
/// and the working directory is not it.
pub fn show_dollar_suffix(home: &Option<Vec<String>>, pwd: &Vec<String>) -> (r: bool)
    ensures
        r == match home {
            Some(h) => comps_view(h@) != comps_view(pwd@),
            None => false,
        },
{
    match home {
        Some(h) => !components_eq(h, pwd),
        None => false,
    }
}

/// Serialize the fragment list into the final prompt string, or nothing
/// when delimiting meets a malformed escape run — a fatal styling bug the
/// caller reports.
pub fn render_prompt(
    fs: &Vec<Fragment>,
    version: &Option<String>,
    title_ok: bool,
    show_dollar: bool,
    delimit: bool,
) -> (r: Option<String>)
    ensures
        ({
            let v = match version {
                Some(x) => Some(x@),
                None => None,
            };
            match r {
                Some(t) => final_prompt(frags_view(fs@), v, title_ok, show_dollar, delimit)
                    == Some(t@),
                None => final_prompt(frags_view(fs@), v, title_ok, show_dollar, delimit)
                    is None,
            }
        }),
{
    let ghost v = match version {
        Some(x) => Some(x@),
        None => None,
    };
    let mut out = styled_of_fragments(fs);
    match version {
        Some(x) => {
            out.append(style_prefix_str(Style::Dim));
            out.append(x.as_str());
            out.append(style_suffix_str(Style::Dim));
        },
        None => {},
    }
    proof {
        assert(out@ =~= styled_frags(frags_view(fs@)) + version_piece(v));
    }
    proof {
        reveal_strlit(" ");
        reveal_strlit("$ ");
        reveal_strlit("%{");
        reveal_strlit("%}");
        reveal_strlit("\u{1b}]2;");
        reveal_strlit("\u{7}");
    }
    out.append(" ");
    if show_dollar {
        out.append("$ ");
    }
    let ghost before_title = styled_frags(frags_view(fs@)) + version_piece(v) + seq![' '] + (
    if show_dollar {
        seq!['$', ' ']
    } else {
        Seq::empty()
    });
    proof {
        assert(out@ =~= before_title);
    }
    if title_ok {
        let title = plain_of_fragments(fs);
        if delimit {
            out.append("%{");
        }
        out.append("\u{1b}]2;");
        out.append(title.as_str());
        out.append("\u{7}");
        if delimit {
            out.append("%}");
        }
        proof {
            assert(out@ =~= before_title + title_escape(plain_frags(frags_view(fs@)), delimit));
        }
    }
    proof {
        assert(out@ =~= assembled_prompt(frags_view(fs@), v, title_ok, show_dollar, delimit));
    }
    if delimit {
        delimit_prompt(out.as_str())
    } else {
        Some(out)
    }
}

} // verus!
