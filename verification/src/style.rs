//! The closed set of fragment styles and their escape-sequence renderings.

use vstd::prelude::*;

verus! {

/// The styles a prompt fragment can carry.
#[derive(Clone, Copy, PartialEq, Eq, Structural, Debug)]
pub enum Style {
    Default,
    Bold,
    Red,
    GreenBold,
    RedBold,
    Blue,
    Dim,
}

/// One piece of prompt text together with its style: the sole intermediate
/// representation between segment building and rendering.
pub struct Fragment {
    pub text: String,
    pub style: Style,
}

impl View for Fragment {
    type V = (Seq<char>, Style);

    open spec fn view(&self) -> (Seq<char>, Style) {
        (self.text@, self.style)
    }
}

/// The fragment sequence as text/style pairs.
pub open spec fn frags_view(fs: Seq<Fragment>) -> Seq<(Seq<char>, Style)> {
    fs.map_values(|f: Fragment| f@)
}

/// The escape prelude selecting a style; empty for the default style.
pub open spec fn style_prefix(st: Style) -> Seq<char> {
    match st {
        Style::Default => Seq::empty(),
        Style::Bold => "\x1b[1m"@,
        Style::Red => "\x1b[31m"@,
        Style::GreenBold => "\x1b[1;32m"@,
        Style::RedBold => "\x1b[1;31m"@,
        Style::Blue => "\x1b[34m"@,
        Style::Dim => "\x1b[2m"@,
    }
}

/// The escape run restoring the default rendition after a styled fragment;
/// empty for the default style, which emits no escapes at all.
pub open spec fn style_suffix(st: Style) -> Seq<char> {
    match st {
        Style::Default => Seq::empty(),
        _ => "\x1b[0m"@,
    }
}

/// The styled rendering of one fragment: prelude, text, reset.
pub open spec fn styled_text(t: Seq<char>, st: Style) -> Seq<char> {
    style_prefix(st) + t + style_suffix(st)
}

/// The escape prelude of `st` as a string slice.
pub fn style_prefix_str(st: Style) -> (r: &'static str)
    ensures
        r@ == style_prefix(st),
{
    proof {
        reveal_strlit("");
        assert(""@ =~= Seq::<char>::empty());
    }
    match st {
        Style::Default => "",
        Style::Bold => "\x1b[1m",
        Style::Red => "\x1b[31m",
        Style::GreenBold => "\x1b[1;32m",
        Style::RedBold => "\x1b[1;31m",
        Style::Blue => "\x1b[34m",
        Style::Dim => "\x1b[2m",
    }
}

/// The escape reset of `st` as a string slice.
pub fn style_suffix_str(st: Style) -> (r: &'static str)
    ensures
        r@ == style_suffix(st),
{
    proof {
        reveal_strlit("");
        assert(""@ =~= Seq::<char>::empty());
    }
    match st {
        Style::Default => "",
        _ => "\x1b[0m",
    }
}

} // verus!
