//! Filesystem paths modeled as their component lists.
//!
//! A path is held as the sequence of its components, in order, without the
//! leading root: splitting drops empty pieces and `.` and keeps `..`, as
//! component iteration of paths does.  The model carries everything the
//! locator logic reads: ancestry (a prefix of the components), the final
//! component's name, and the rightmost component equal to `.git`.

use vstd::prelude::*;

use crate::text::{str_eq, trim};

verus! {

/// The `.git` entry name.
pub open spec fn git_name() -> Seq<char> {
    seq!['.', 'g', 'i', 't']
}

/// The parent-directory component.
pub open spec fn dotdot() -> Seq<char> {
    seq!['.', '.']
}

/// Index of the first `/` in `s`, or `s.len()` when there is none.
pub open spec fn first_slash(s: Seq<char>) -> nat
    decreases s.len(),
{
    if s.len() == 0 {
        0
    } else if s[0] == '/' {
        0
    } else {
        (1 + first_slash(s.skip(1))) as nat
    }
}

/// A path piece that survives component splitting: non-empty and not `.`.
pub open spec fn keep_component(c: Seq<char>) -> bool {
    c.len() > 0 && c != seq!['.']
}

/// The components of the path text `s`: pieces between `/` separators,
/// with empty pieces and `.` dropped and `..` kept.
pub open spec fn path_components(s: Seq<char>) -> Seq<Seq<char>>
    decreases s.len(),
{
    let i = first_slash(s) as int;
    if i >= s.len() {
        if keep_component(s) {
            seq![s]
        } else {
            Seq::empty()
        }
    } else {
        let head = s.take(i);
        let rest = path_components(s.skip(i + 1));
        if keep_component(head) {
            seq![head] + rest
        } else {
            rest
        }
    }
}

/// `rel` resolved against the components of a base directory, as path
/// adjoining does it: an absolute right-hand side replaces the base.
pub open spec fn joined_path(base: Seq<Seq<char>>, rel: Seq<char>) -> Seq<Seq<char>> {
    if rel.len() > 0 && rel[0] == '/' {
        path_components(rel)
    } else {
        base + path_components(rel)
    }
}

/// The final component as a display name: none for an empty path or one
/// ending in `..`, as the name lookup of paths has it.
pub open spec fn last_name(p: Seq<Seq<char>>) -> Option<Seq<char>> {
    if p.len() == 0 {
        None
    } else if p.last() == dotdot() {
        None
    } else {
        Some(p.last())
    }
}

/// The enclosing repository a git metadata path betrays: everything before
/// the rightmost component equal to `.git`, or nothing when no component
/// is `.git`.
pub open spec fn parent_repo_of(p: Seq<Seq<char>>) -> Option<Seq<Seq<char>>>
    decreases p.len(),
{
    if p.len() == 0 {
        None
    } else if p.last() == git_name() {
        Some(p.drop_last())
    } else {
        parent_repo_of(p.drop_last())
    }
}

/// The remainder of `v` after the prefix `p`, when `p` is one.
pub open spec fn after_prefix(v: Seq<Seq<char>>, p: Seq<Seq<char>>) -> Option<Seq<Seq<char>>> {
    if p.len() <= v.len() && v.take(p.len() as int) == p {
        Some(v.skip(p.len() as int))
    } else {
        None
    }
}

/// The components joined with `/` separators, the text of a relative path.
pub open spec fn joined_with_slashes(p: Seq<Seq<char>>) -> Seq<char>
    decreases p.len(),
{
    if p.len() == 0 {
        Seq::empty()
    } else if p.len() == 1 {
        p[0]
    } else {
        joined_with_slashes(p.drop_last()) + seq!['/'] + p.last()
    }
}

/// The parent repository a resolved metadata path yields is everything
/// before its rightmost `.git` component: a metadata path such as
/// `repo/.git/worktrees/feature` names `repo` as the enclosing repository.
pub proof fn lemma_parent_repo_rightmost(p: Seq<Seq<char>>, i: int)
    requires
        0 <= i < p.len(),
        p[i] == git_name(),
        forall|k: int| i < k < p.len() ==> p[k] != git_name(),
    ensures
        parent_repo_of(p) == Some(p.take(i)),
    decreases p.len(),
{
    if i == p.len() - 1 {
        assert(p.drop_last() =~~= p.take(i));
    } else {
        assert(p.last() != git_name());
        assert(p.drop_last()[i] == p[i]);
        lemma_parent_repo_rightmost(p.drop_last(), i);
        assert(p.drop_last().take(i) =~~= p.take(i));
    }
}

/// A metadata path with no `.git` component anywhere yields no parent
/// repository.
pub proof fn lemma_parent_repo_absent(p: Seq<Seq<char>>)
    requires
        forall|k: int| 0 <= k < p.len() ==> p[k] != git_name(),
    ensures
        parent_repo_of(p) is None,
    decreases p.len(),
{
    if p.len() > 0 {
        lemma_parent_repo_absent(p.drop_last());
    }
}

/// A path below an ancestor splits off exactly the remaining components:
/// the working directory `root + sub` is `sub` relative to `root`.
pub proof fn lemma_after_prefix_extension(root: Seq<Seq<char>>, sub: Seq<Seq<char>>)
    ensures
        after_prefix(root + sub, root) == Some(sub),
{
    assert((root + sub).take(root.len() as int) =~~= root);
    assert((root + sub).skip(root.len() as int) =~~= sub);
}

/// The view of the component vector as a sequence of character sequences.
pub open spec fn comps_view(p: Seq<String>) -> Seq<Seq<char>> {
    p.map_values(|c: String| c@)
}

/// Mapping to views commutes with appending one component.
proof fn lemma_comps_view_push(s: Seq<String>, x: String)
    ensures
        comps_view(s.push(x)) =~~= comps_view(s).push(x@),
{
    assert forall|j: int| 0 <= j < s.len() + 1 implies comps_view(s.push(x))[j] == comps_view(
        s,
    ).push(x@)[j] by {
        if j < s.len() {
            assert(comps_view(s.push(x))[j] == s.push(x)[j]@);
            assert(comps_view(s)[j] == s[j]@);
        } else {
            assert(comps_view(s.push(x))[j] == s.push(x)[j]@);
        }
    }
}

/// A slash run of length `i` at the front of `s` pins `first_slash`.
proof fn lemma_first_slash_at(s: Seq<char>, i: int)
    requires
        0 <= i <= s.len(),
        forall|k: int| 0 <= k < i ==> s[k] != '/',
        i < s.len() ==> s[i] == '/',
    ensures
        first_slash(s) == i,
    decreases i,
{
    if i > 0 {
        lemma_first_slash_at(s.skip(1), i - 1);
    }
}

/// Split `s` into its components.
pub fn parse_components(s: &str) -> (r: Vec<String>)
    ensures
        comps_view(r@) == path_components(s@),
    decreases s@.len(),
{
    let len = s.unicode_len();
    let mut i: usize = 0;
    while i < len && s.get_char(i) != '/'
        invariant
            i <= len,
            len == s@.len(),
            forall|k: int| 0 <= k < i ==> s@[k] != '/',
        decreases len - i,
    {
        i += 1;
    }
    proof {
        lemma_first_slash_at(s@, i as int);
    }
    let head = s.substring_char(0, i);
    proof {
        assert(head@ =~= s@.take(i as int));
        reveal_strlit(".");
        assert("."@ =~= seq!['.']);
    }
    let keep = head.unicode_len() > 0 && !str_eq(head, ".");
    if i >= len {
        let mut r: Vec<String> = Vec::new();
        if keep {
            proof {
                assert(s@.take(i as int) =~= s@);
            }
            r.push(String::from_str(head));
            proof {
                assert(comps_view(r@) =~~= seq![s@]);
            }
        } else {
            proof {
                assert(s@.take(i as int) =~= s@);
                assert(comps_view(r@) =~~= Seq::<Seq<char>>::empty());
            }
        }
        r
    } else {
        let rest = s.substring_char(i + 1, len);
        proof {
            assert(rest@ =~= s@.skip(i + 1));
        }
        let tail = parse_components(rest);
        let mut r: Vec<String> = Vec::new();
        if keep {
            r.push(String::from_str(head));
        }
        let mut k: usize = 0;
        while k < tail.len()
            invariant
                k <= tail.len(),
                r@.len() == k + (if keep { 1int } else { 0int }),
                comps_view(tail@) == path_components(rest@),
                comps_view(tail@).len() == tail@.len(),
                rest@ == s@.skip(i + 1),
                head@ == s@.take(i as int),
                comps_view(r@) == (if keep {
                    seq![head@]
                } else {
                    Seq::<Seq<char>>::empty()
                }) + comps_view(tail@).take(k as int),
            decreases tail.len() - k,
        {
            let ghost prev = r@;
            r.push(tail[k].clone());
            k += 1;
            proof {
                assert(comps_view(tail@)[k - 1] == tail@[k - 1]@);
                lemma_comps_view_push(prev, r@[r@.len() - 1]);
                assert(comps_view(r@) =~~= (if keep {
                    seq![head@]
                } else {
                    Seq::<Seq<char>>::empty()
                }) + comps_view(tail@).take(k as int));
            }
        }
        proof {
            assert(comps_view(tail@).take(tail@.len() as int) =~~= comps_view(tail@));
            assert(comps_view(r@) =~~= path_components(s@));
        }
        r
    }
}

/// Clone the first `n` components of `p`.
pub fn clone_prefix(p: &Vec<String>, n: usize) -> (r: Vec<String>)
    requires
        n <= p@.len(),
    ensures
        comps_view(r@) == comps_view(p@).take(n as int),
{
    let mut r: Vec<String> = Vec::new();
    let mut k: usize = 0;
    while k < n
        invariant
            k <= n <= p@.len(),
            r@.len() == k,
            comps_view(r@) == comps_view(p@).take(k as int),
        decreases n - k,
    {
        r.push(p[k].clone());
        k += 1;
        proof {
            assert(comps_view(r@) =~~= comps_view(p@).take(k as int));
        }
    }
    r
}

/// Clone a whole component vector.
pub fn clone_components(p: &Vec<String>) -> (r: Vec<String>)
    ensures
        comps_view(r@) == comps_view(p@),
{
    let r = clone_prefix(p, p.len());
    proof {
        assert(comps_view(p@).take(p@.len() as int) =~~= comps_view(p@));
    }
    r
}

/// Component-for-component equality of two paths.
pub fn components_eq(a: &Vec<String>, b: &Vec<String>) -> (r: bool)
    ensures
        r == (comps_view(a@) == comps_view(b@)),
{
    if a.len() != b.len() {
        proof {
            assert(comps_view(a@).len() != comps_view(b@).len());
        }
        return false;
    }
    let mut k: usize = 0;
    while k < a.len()
        invariant
            k <= a@.len(),
            a@.len() == b@.len(),
            forall|j: int| 0 <= j < k ==> comps_view(a@)[j] == comps_view(b@)[j],
        decreases a@.len() - k,
    {
        if !str_eq(a[k].as_str(), b[k].as_str()) {
            proof {
                assert(comps_view(a@)[k as int] == a@[k as int]@);
                assert(comps_view(b@)[k as int] == b@[k as int]@);
            }
            return false;
        }
        k += 1;
    }
    proof {
        assert(comps_view(a@) =~~= comps_view(b@));
    }
    true
}

/// Resolve `rel` against the directory whose components are `base`.
pub fn join_path(base: &Vec<String>, rel: &str) -> (r: Vec<String>)
    ensures
        comps_view(r@) == joined_path(comps_view(base@), rel@),
{
    if rel.unicode_len() > 0 && rel.get_char(0) == '/' {
        parse_components(rel)
    } else {
        let mut r = clone_components(base);
        let mut tail = parse_components(rel);
        let ghost base_view = comps_view(base@);
        let ghost tail_view = comps_view(tail@);
        proof {
            assert(base_view.len() == base@.len());
            assert(tail_view.len() == tail@.len());
            assert(comps_view(r@) =~~= base_view + tail_view.take(0));
        }
        let mut k: usize = 0;
        while k < tail.len()
            invariant
                k <= tail@.len(),
                r@.len() == base@.len() + k,
                base_view.len() == base@.len(),
                tail_view.len() == tail@.len(),
                comps_view(tail@) == tail_view,
                comps_view(r@) == base_view + tail_view.take(k as int),
            decreases tail@.len() - k,
        {
            let ghost prev = r@;
            r.push(tail[k].clone());
            k += 1;
            proof {
                assert(comps_view(tail@)[k - 1] == tail@[k - 1]@);
                lemma_comps_view_push(prev, r@[r@.len() - 1]);
                assert(comps_view(r@) =~~= base_view + tail_view.take(k as int));
            }
        }
        proof {
            assert(tail_view.take(tail@.len() as int) =~~= tail_view);
            assert(comps_view(r@) =~~= joined_path(comps_view(base@), rel@));
        }
        r
    }
}

/// The display name of the final component, when it has one.
pub fn path_last_name(p: &Vec<String>) -> (r: Option<String>)
    ensures
        match r {
            Some(n) => last_name(comps_view(p@)) == Some(n@),
            None => last_name(comps_view(p@)) is None,
        },
{
    if p.len() == 0 {
        return None;
    }
    let last = &p[p.len() - 1];
    proof {
        reveal_strlit("..");
        assert(".."@ =~= dotdot());
    }
    if str_eq(last.as_str(), "..") {
        None
    } else {
        Some(last.clone())
    }
}

/// Everything before the rightmost `.git` component, when one exists.
pub fn find_parent_repo(p: &Vec<String>) -> (r: Option<Vec<String>>)
    ensures
        match r {
            Some(q) => parent_repo_of(comps_view(p@)) == Some(comps_view(q@)),
            None => parent_repo_of(comps_view(p@)) is None,
        },
{
    proof {
        reveal_strlit(".git");
        assert(".git"@ =~= git_name());
        assert(comps_view(p@).len() == p@.len());
    }
    let mut j: usize = p.len();
    proof {
        assert(comps_view(p@).take(p@.len() as int) =~~= comps_view(p@));
    }
    while j > 0
        invariant
            j <= p@.len(),
            comps_view(p@).len() == p@.len(),
            ".git"@ == git_name(),
            parent_repo_of(comps_view(p@)) == parent_repo_of(comps_view(p@).take(j as int)),
        decreases j,
    {
        if str_eq(p[j - 1].as_str(), ".git") {
            let r = clone_prefix(p, j - 1);
            proof {
                let v = comps_view(p@).take(j as int);
                assert(v.last() == comps_view(p@)[j - 1]);
                assert(comps_view(p@)[j - 1] == p@[j - 1]@);
                assert(v.last() == git_name());
                assert(v.drop_last() =~~= comps_view(p@).take(j - 1));
            }
            return Some(r);
        }
        proof {
            let v = comps_view(p@).take(j as int);
            assert(v.last() == comps_view(p@)[j - 1]);
            assert(comps_view(p@)[j - 1] == p@[j - 1]@);
            assert(v.last() != git_name());
            assert(v.drop_last() =~~= comps_view(p@).take(j - 1));
        }
        j -= 1;
    }
    proof {
        assert(comps_view(p@).take(0) =~~= Seq::<Seq<char>>::empty());
    }
    None
}

/// The remainder of `iter` once the leading `prefix` has been passed over,
/// or nothing when `prefix` is not a prefix of `iter`.
pub fn iter_after(iter: &Vec<String>, prefix: &Vec<String>) -> (r: Option<Vec<String>>)
    ensures
        match r {
            Some(q) => after_prefix(comps_view(iter@), comps_view(prefix@)) == Some(
                comps_view(q@),
            ),
            None => after_prefix(comps_view(iter@), comps_view(prefix@)) is None,
        },
{
    if prefix.len() > iter.len() {
        return None;
    }
    let mut k: usize = 0;
    while k < prefix.len()
        invariant
            k <= prefix@.len() <= iter@.len(),
            forall|j: int| 0 <= j < k ==> comps_view(iter@)[j] == comps_view(prefix@)[j],
        decreases prefix@.len() - k,
    {
        if !str_eq(iter[k].as_str(), prefix[k].as_str()) {
            proof {
                assert(comps_view(iter@)[k as int] == iter@[k as int]@);
                assert(comps_view(prefix@)[k as int] == prefix@[k as int]@);
                assert(comps_view(iter@).take(prefix@.len() as int)[k as int] != comps_view(
                    prefix@,
                )[k as int]);
            }
            return None;
        }
        k += 1;
    }
    proof {
        assert(comps_view(iter@).take(prefix@.len() as int) =~~= comps_view(prefix@));
    }
    let plen = prefix.len();
    let mut r: Vec<String> = Vec::new();
    let mut k: usize = plen;
    while k < iter.len()
        invariant
            plen <= k <= iter@.len(),
            r@.len() == k - plen,
            comps_view(r@) == comps_view(iter@).subrange(plen as int, k as int),
        decreases iter@.len() - k,
    {
        r.push(iter[k].clone());
        k += 1;
        proof {
            assert(comps_view(r@) =~~= comps_view(iter@).subrange(plen as int, k as int));
        }
    }
    proof {
        assert(comps_view(r@) =~~= comps_view(iter@).skip(plen as int));
    }
    Some(r)
}

/// The path of `to_path` relative to `from_path`, when `from_path` is an
/// ancestor (or the path itself).
pub fn relative_from(to_path: &Vec<String>, from_path: &Vec<String>) -> (r: Option<Vec<String>>)
    ensures
        match r {
            Some(q) => after_prefix(comps_view(to_path@), comps_view(from_path@)) == Some(
                comps_view(q@),
            ),
            None => after_prefix(comps_view(to_path@), comps_view(from_path@)) is None,
        },
{
    iter_after(to_path, from_path)
}

/// The components joined with `/`, the text of a relative path.
pub fn rel_path_string(p: &Vec<String>) -> (r: String)
    ensures
        r@ == joined_with_slashes(comps_view(p@)),
{
    let mut out = String::new();
    let mut k: usize = 0;
    proof {
        reveal_strlit("/");
    }
    while k < p.len()
        invariant
            k <= p@.len(),
            "/"@ == seq!['/'],
            out@ == joined_with_slashes(comps_view(p@).take(k as int)),
        decreases p@.len() - k,
    {
        if k > 0 {
            out.append("/");
        }
        out.append(p[k].as_str());
        k += 1;
        proof {
            let v = comps_view(p@).take(k as int);
            assert(v.drop_last() =~= comps_view(p@).take(k - 1));
            if k > 1 {
                assert(out@ =~= joined_with_slashes(v));
            } else {
                assert(out@ =~= v[0]);
            }
        }
    }
    proof {
        assert(comps_view(p@).take(p@.len() as int) =~~= comps_view(p@));
    }
    out
}

/// The absolute path text of the components: a leading `/` then the
/// components joined with `/`.
pub fn abs_path_string(p: &Vec<String>) -> (r: String)
    ensures
        r@ == seq!['/'] + joined_with_slashes(comps_view(p@)),
{
    proof {
        reveal_strlit("/");
    }
    let mut out = String::from_str("/");
    let rest = rel_path_string(p);
    out.append(rest.as_str());
    proof {
        assert(out@ =~= seq!['/'] + joined_with_slashes(comps_view(p@)));
    }
    out
}

} // verus!
