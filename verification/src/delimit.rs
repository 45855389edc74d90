//! The zero-width delimiting of escape runs, and its round-trip law.
//!
//! Line-editing shells miscount the width of a prompt that carries raw
//! escape sequences.  The delimiting transform rewrites the styled prompt:
//! every escape run — the two-character introducer through its terminating
//! `m` — is wrapped in a zero-width marker pair, and the surrounding text
//! is left untouched.  A run with no terminator is a fatal condition: it
//! marks an internal styling bug, not bad input data.

use vstd::prelude::*;

verus! {

/// The two-character introducer of a style escape run.
pub open spec fn esc_open() -> Seq<char> {
    seq!['\u{1b}', '[']
}

/// The opening zero-width marker.
pub open spec fn marker_open() -> Seq<char> {
    seq!['%', '{']
}

/// The closing zero-width marker.
pub open spec fn marker_close() -> Seq<char> {
    seq!['%', '}']
}

/// An escape introducer sits at position `k` of `s`.
pub open spec fn esc_at(s: Seq<char>, k: int) -> bool {
    0 <= k && k + 2 <= s.len() && s[k] == '\u{1b}' && s[k + 1] == '['
}

/// Index of the first escape introducer of `s`, or `s.len()` when none.
pub open spec fn find_esc(s: Seq<char>) -> nat
    decreases s.len(),
{
    if s.len() < 2 {
        s.len()
    } else if s[0] == '\u{1b}' && s[1] == '[' {
        0
    } else {
        (1 + find_esc(s.skip(1))) as nat
    }
}

/// Index of the first occurrence of `c` in `s`, or `s.len()` when none.
pub open spec fn find_char(s: Seq<char>, c: char) -> nat
    decreases s.len(),
{
    if s.len() == 0 {
        0
    } else if s[0] == c {
        0
    } else {
        (1 + find_char(s.skip(1), c)) as nat
    }
}

/// An introducer at `i` with none before it pins `find_esc`.
proof fn lemma_find_esc_found(s: Seq<char>, i: int)
    requires
        esc_at(s, i),
        forall|k: int| 0 <= k < i ==> !esc_at(s, k),
    ensures
        find_esc(s) == i,
    decreases i,
{
    if i == 0 {
    } else {
        assert(!esc_at(s, 0));
        assert forall|k: int| 0 <= k < i - 1 implies !esc_at(s.skip(1), k) by {
            assert(!esc_at(s, k + 1));
        }
        assert(esc_at(s.skip(1), i - 1));
        lemma_find_esc_found(s.skip(1), i - 1);
    }
}

/// No introducer anywhere pins `find_esc` to the length.
proof fn lemma_find_esc_none(s: Seq<char>)
    requires
        forall|k: int| !esc_at(s, k),
    ensures
        find_esc(s) == s.len(),
    decreases s.len(),
{
    if s.len() < 2 {
    } else {
        assert(!esc_at(s, 0));
        assert forall|k: int| !esc_at(s.skip(1), k) by {
            if 0 <= k && k + 2 <= s.skip(1).len() {
                assert(!esc_at(s, k + 1));
            }
        }
        lemma_find_esc_none(s.skip(1));
    }
}

/// What `find_esc` returns: in range, an introducer there, none before.
pub proof fn lemma_find_esc(s: Seq<char>)
    ensures
        find_esc(s) <= s.len(),
        find_esc(s) < s.len() ==> esc_at(s, find_esc(s) as int),
        forall|k: int| 0 <= k < find_esc(s) ==> !esc_at(s, k),
    decreases s.len(),
{
    if s.len() < 2 {
    } else if s[0] == '\u{1b}' && s[1] == '[' {
    } else {
        lemma_find_esc(s.skip(1));
        let i = find_esc(s) as int;
        assert forall|k: int| 0 <= k < i implies !esc_at(s, k) by {
            if k > 0 {
                assert(!esc_at(s.skip(1), k - 1));
            }
        }
        if i < s.len() {
            assert(esc_at(s.skip(1), i - 1));
        }
    }
}

/// `c` at `j` with no earlier occurrence pins `find_char`.
proof fn lemma_find_char_found(s: Seq<char>, c: char, j: int)
    requires
        0 <= j < s.len(),
        s[j] == c,
        forall|k: int| 0 <= k < j ==> s[k] != c,
    ensures
        find_char(s, c) == j,
    decreases j,
{
    if j > 0 {
        lemma_find_char_found(s.skip(1), c, j - 1);
    }
}

/// `c` absent from `s` pins `find_char` to the length.
proof fn lemma_find_char_none(s: Seq<char>, c: char)
    requires
        forall|k: int| 0 <= k < s.len() ==> s[k] != c,
    ensures
        find_char(s, c) == s.len(),
    decreases s.len(),
{
    if s.len() > 0 {
        lemma_find_char_none(s.skip(1), c);
    }
}

/// What `find_char` returns: in range, the character there, none before.
pub proof fn lemma_find_char(s: Seq<char>, c: char)
    ensures
        find_char(s, c) <= s.len(),
        find_char(s, c) < s.len() ==> s[find_char(s, c) as int] == c,
        forall|k: int| 0 <= k < find_char(s, c) ==> s[k] != c,
    decreases s.len(),
{
    if s.len() == 0 {
    } else if s[0] == c {
    } else {
        lemma_find_char(s.skip(1), c);
        let j = find_char(s, c) as int;
        assert forall|k: int| 0 <= k < j implies s[k] != c by {
            if k > 0 {
                assert(s.skip(1)[k - 1] != c);
            }
        }
    }
}

/// The delimited form of `s`: every escape run, introducer through its
/// terminating `m`, wrapped in a marker pair; nothing when some run has no
/// terminator before the next introducer or the end.
pub open spec fn delimit_text(s: Seq<char>) -> Option<Seq<char>>
    decreases s.len(),
{
    let i = find_esc(s) as int;
    if i + 2 > s.len() {
        Some(s)
    } else {
        let rest = s.skip(i + 2);
        let j = find_char(rest, 'm') as int;
        if j >= rest.len() {
            None
        } else if (find_esc(rest.take(j)) as int) < j {
            None
        } else {
            match delimit_text(rest.skip(j + 1)) {
                Some(t) => Some(
                    s.take(i) + marker_open() + esc_open() + rest.take(j + 1) + marker_close()
                        + t,
                ),
                None => None,
            }
        }
    }
}

/// The text with every marker pair removed, scanning left to right.
pub open spec fn strip_markers(s: Seq<char>) -> Seq<char>
    decreases s.len(),
{
    if s.len() == 0 {
        s
    } else if s.len() >= 2 && s[0] == '%' && (s[1] == '{' || s[1] == '}') {
        strip_markers(s.skip(2))
    } else {
        seq![s[0]] + strip_markers(s.skip(1))
    }
}

/// No marker pair occurs anywhere in `s`.
pub open spec fn marker_free(s: Seq<char>) -> bool {
    forall|k: int|
        0 <= k < s.len() - 1 ==> !((#[trigger] s[k]) == '%' && (s[k + 1] == '{' || s[k + 1]
            == '}'))
}

/// A contiguous part of a marker-free text is marker-free.
proof fn lemma_marker_free_subrange(s: Seq<char>, lo: int, hi: int)
    requires
        marker_free(s),
        0 <= lo <= hi <= s.len(),
    ensures
        marker_free(s.subrange(lo, hi)),
{
    let sub = s.subrange(lo, hi);
    assert forall|k: int|
        0 <= k < sub.len() - 1 implies !((#[trigger] sub[k]) == '%' && (sub[k + 1] == '{'
        || sub[k + 1] == '}')) by {
        assert(sub[k] == s[lo + k]);
        assert(sub[k + 1] == s[lo + k + 1]);
    }
}

/// Stripping walks over a marker-free prefix unchanged, as long as the
/// junction to the remainder forms no marker pair either.
proof fn lemma_strip_over_clean(a: Seq<char>, b: Seq<char>)
    requires
        marker_free(a),
        a.len() > 0 && b.len() > 0 ==> !(a.last() == '%' && (b[0] == '{' || b[0] == '}')),
    ensures
        strip_markers(a + b) == a + strip_markers(b),
    decreases a.len(),
{
    if a.len() == 0 {
        assert(a + b =~= b);
        assert(a + strip_markers(b) =~= strip_markers(b));
    } else {
        let s = a + b;
        assert(s[0] == a[0]);
        if s.len() >= 2 {
            assert(s[1] == (if a.len() >= 2 {
                a[1]
            } else {
                b[0]
            }));
            assert(!(s[0] == '%' && (s[1] == '{' || s[1] == '}')));
        }
        assert(s.skip(1) =~= a.skip(1) + b);
        assert forall|k: int|
            0 <= k < a.skip(1).len() - 1 implies !((#[trigger] a.skip(1)[k]) == '%' && (a.skip(
                1,
            )[k + 1] == '{' || a.skip(1)[k + 1] == '}')) by {
            assert(a.skip(1)[k] == a[k + 1]);
            assert(a.skip(1)[k + 1] == a[k + 2]);
        }
        lemma_strip_over_clean(a.skip(1), b);
        assert(strip_markers(s) =~= a + strip_markers(b));
    }
}

/// Stripping a marker-free text is the identity.
proof fn lemma_strip_clean(s: Seq<char>)
    requires
        marker_free(s),
    ensures
        strip_markers(s) == s,
{
    lemma_strip_over_clean(s, Seq::empty());
    assert(s + Seq::<char>::empty() =~= s);
    assert(s + strip_markers(Seq::<char>::empty()) =~= s);
}

/// Stripping removes a leading opening marker.
proof fn lemma_strip_marker_open(b: Seq<char>)
    ensures
        strip_markers(marker_open() + b) == strip_markers(b),
{
    let s = marker_open() + b;
    assert(s[0] == '%' && s[1] == '{');
    assert(s.skip(2) =~= b);
}

/// Stripping removes a leading closing marker.
proof fn lemma_strip_marker_close(b: Seq<char>)
    ensures
        strip_markers(marker_close() + b) == strip_markers(b),
{
    let s = marker_close() + b;
    assert(s[0] == '%' && s[1] == '}');
    assert(s.skip(2) =~= b);
}

/// Delimiting round-trip: removing the inserted zero-width markers from
/// the delimited form reproduces the styled text exactly.  It holds of
/// every text that carries no marker pair of its own — on one that already
/// contains `%{` or `%}` the stripping pass cannot tell those from the
/// inserted ones.
pub proof fn lemma_delimit_round_trip(s: Seq<char>)
    requires
        marker_free(s),
        delimit_text(s) is Some,
    ensures
        strip_markers(delimit_text(s)->Some_0) == s,
    decreases s.len(),
{
    lemma_find_esc(s);
    let i = find_esc(s) as int;
    if i + 2 > s.len() {
        lemma_strip_clean(s);
    } else {
        let rest = s.skip(i + 2);
        let j = find_char(rest, 'm') as int;
        lemma_find_char(rest, 'm');
        let t = delimit_text(rest.skip(j + 1))->Some_0;
        assert(rest.skip(j + 1) =~= s.subrange(i + j + 3, s.len() as int));
        lemma_marker_free_subrange(s, i + j + 3, s.len() as int);
        lemma_delimit_round_trip(rest.skip(j + 1));
        let run = esc_open() + rest.take(j + 1);
        let out = s.take(i) + marker_open() + run + marker_close() + t;
        assert(delimit_text(s)->Some_0 =~= out);
        // strip walks over the head text, skips the opening marker, walks
        // over the escape run, skips the closing marker, and recurses.
        lemma_marker_free_subrange(s, 0, i);
        assert(s.take(i) =~= s.subrange(0, i));
        let after_head = marker_open() + (run + (marker_close() + t));
        assert(out =~= s.take(i) + after_head);
        assert(after_head[0] == '%');
        lemma_strip_over_clean(s.take(i), after_head);
        lemma_strip_marker_open(run + (marker_close() + t));
        assert(marker_free(run)) by {
            assert(rest.take(j + 1) =~= s.subrange(i + 2, i + j + 3));
            lemma_marker_free_subrange(s, i + 2, i + j + 3);
            let sub = s.subrange(i + 2, i + j + 3);
            assert forall|k: int|
                0 <= k < run.len() - 1 implies !((#[trigger] run[k]) == '%' && (run[k + 1]
                == '{' || run[k + 1] == '}')) by {
                if k == 0 {
                    assert(run[0] == '\u{1b}');
                } else if k == 1 {
                    assert(run[1] == '[');
                } else {
                    assert(run[k] == sub[k - 2]);
                    assert(run[k + 1] == sub[k - 1]);
                }
            }
        }
        assert(run.last() == 'm');
        lemma_strip_over_clean(run, marker_close() + t);
        lemma_strip_marker_close(t);
        assert(strip_markers(out) =~= s.take(i) + (run + rest.skip(j + 1)));
        assert(s.take(i) + (run + rest.skip(j + 1)) =~= s);
    }
}

/// Index of the first escape introducer, or the character length when
/// there is none.
pub fn find_esc_index(s: &str) -> (r: usize)
    ensures
        r == find_esc(s@),
{
    let len = s.unicode_len();
    if len < 2 {
        return len;
    }
    let mut i: usize = 0;
    while i < len - 1
        invariant
            2 <= len,
            i <= len - 1,
            len == s@.len(),
            forall|k: int| 0 <= k < i ==> !esc_at(s@, k),
        decreases len - i,
    {
        if s.get_char(i) == '\u{1b}' && s.get_char(i + 1) == '[' {
            proof {
                lemma_find_esc_found(s@, i as int);
            }
            return i;
        }
        proof {
            assert(!esc_at(s@, i as int));
        }
        i += 1;
    }
    proof {
        assert(forall|k: int| !esc_at(s@, k));
        lemma_find_esc_none(s@);
    }
    len
}

/// Index of the first occurrence of `c`, or the character length when
/// there is none.
pub fn find_char_index(s: &str, c: char) -> (r: usize)
    ensures
        r == find_char(s@, c),
{
    let len = s.unicode_len();
    let mut i: usize = 0;
    while i < len
        invariant
            i <= len,
            len == s@.len(),
            forall|k: int| 0 <= k < i ==> s@[k] != c,
        decreases len - i,
    {
        if s.get_char(i) == c {
            proof {
                lemma_find_char_found(s@, c, i as int);
            }
            return i;
        }
        i += 1;
    }
    proof {
        lemma_find_char_none(s@, c);
    }
    len
}

/// The delimited form of the styled prompt, or nothing when an escape run
/// has no terminating `m`: the caller treats that as a fatal styling bug.
pub fn delimit_prompt(s: &str) -> (r: Option<String>)
    ensures
        match r {
            Some(t) => delimit_text(s@) == Some(t@),
            None => delimit_text(s@) is None,
        },
    decreases s@.len(),
{
    let len = s.unicode_len();
    let i = find_esc_index(s);
    if len < 2 || i > len - 2 {
        proof {
            lemma_find_esc(s@);
        }
        return Some(String::from_str(s));
    }
    let rest = s.substring_char(i + 2, len);
    proof {
        assert(rest@ =~= s@.skip(i + 2));
    }
    let restlen = len - (i + 2);
    let j = find_char_index(rest, 'm');
    if j >= restlen {
        return None;
    }
    let head = rest.substring_char(0, j);
    proof {
        assert(head@ =~= rest@.take(j as int));
    }
    let k = find_esc_index(head);
    if k < j {
        return None;
    }
    let tail = rest.substring_char(j + 1, restlen);
    proof {
        assert(tail@ =~= rest@.skip(j + 1));
    }
    match delimit_prompt(tail) {
        None => None,
        Some(t) => {
            let mut out = String::from_str(s.substring_char(0, i));
            out.append("%{");
            out.append("\u{1b}[");
            out.append(rest.substring_char(0, j + 1));
            out.append("%}");
            out.append(t.as_str());
            proof {
                reveal_strlit("%{");
                reveal_strlit("%}");
                reveal_strlit("\u{1b}[");
                assert(s@.subrange(0, i as int) =~= s@.take(i as int));
                assert(rest@.subrange(0, j + 1) =~= rest@.take(j + 1));
                assert(out@ =~= s@.take(i as int) + marker_open() + esc_open() + rest@.take(
                    j + 1,
                ) + marker_close() + t@);
            }
            Some(out)
        },
    }
}

} // verus!
