//! Archive paths: a sequence of name components with an absolute flag,
//! compared purely component-wise, plus the one-level-descendant test the
//! listing parser's backtracking depends on.

use vstd::prelude::*;
use crate::text::{find_slash, first_slash};

verus! {

/// The mathematical value of a path: its components and whether it is
/// anchored at the root.
#[verifier::ext_equal]
pub struct PathV {
    pub absolute: bool,
    pub comps: Seq<Seq<char>>,
}

impl PathV {
    /// The root path `/`.
    pub open spec fn root() -> PathV {
        PathV { absolute: true, comps: Seq::empty() }
    }

    /// A valid component: non-empty, without a separator.
    pub open spec fn wf_name(name: Seq<char>) -> bool {
        name.len() > 0 && forall|i: int| 0 <= i < name.len() ==> name[i] != '/'
    }

    /// All components are valid.
    pub open spec fn wf(self) -> bool {
        forall|i: int| 0 <= i < self.comps.len() ==> PathV::wf_name(#[trigger] self.comps[i])
    }

    /// The path extended by one more component.
    pub open spec fn join(self, name: Seq<char>) -> PathV {
        PathV { absolute: self.absolute, comps: self.comps.push(name) }
    }

    /// The root path itself, or the literal root line of a listing.
    pub open spec fn is_root(self) -> bool {
        self.absolute && self.comps.len() == 0
    }
}

/// The name under which `child` is a direct child of `parent`: the last
/// component of `child` when `child` extends `parent` by exactly one
/// component (and both are anchored the same way); nothing otherwise.
pub open spec fn spec_relative_child_name(parent: PathV, child: PathV) -> Option<Seq<char>> {
    if parent.absolute == child.absolute && child.comps.len() == parent.comps.len() + 1
        && child.comps.take(parent.comps.len() as int) == parent.comps {
        Some(child.comps.last())
    } else {
        None
    }
}

/// `first_slash` returns an in-range index, everything before it is not a
/// slash, and the character there (if in range) is a slash.
pub proof fn lemma_first_slash_bounds(s: Seq<char>, i: int)
    requires
        0 <= i <= s.len(),
    ensures
        i <= first_slash(s, i) <= s.len(),
        forall|m: int| i <= m < first_slash(s, i) ==> s[m] != '/',
        first_slash(s, i) < s.len() ==> s[first_slash(s, i)] == '/',
    decreases s.len() - i,
{
    if i < s.len() && s[i] != '/' {
        lemma_first_slash_bounds(s, i + 1);
    }
}

/// The components of `s` split on `/`, empty segments skipped.
pub open spec fn spec_split_comps(s: Seq<char>, i: int) -> Seq<Seq<char>>
    decreases s.len() - i + 1,
    when 0 <= i
    via spec_split_comps_decreases
{
    if i >= s.len() {
        Seq::empty()
    } else {
        let j = first_slash(s, i);
        if j > i {
            seq![s.subrange(i, j)] + spec_split_comps(s, j + 1)
        } else {
            spec_split_comps(s, i + 1)
        }
    }
}

#[via_fn]
proof fn spec_split_comps_decreases(s: Seq<char>, i: int) {
    if 0 <= i && i < s.len() {
        lemma_first_slash_bounds(s, i);
    }
}

/// The path a string denotes: absolute when it starts with `/`, with its
/// non-empty `/`-separated segments as components.
pub open spec fn spec_path_of(s: Seq<char>) -> PathV {
    PathV { absolute: s.len() > 0 && s[0] == '/', comps: spec_split_comps(s, 0) }
}

/// The character sequences of a sequence of strings.
pub open spec fn names_of(v: Seq<String>) -> Seq<Seq<char>> {
    v.map_values(|c: String| c@)
}

pub broadcast proof fn lemma_names_of_len(v: Seq<String>)
    ensures
        #[trigger] names_of(v).len() == v.len(),
{
}

pub broadcast proof fn lemma_names_of_index(v: Seq<String>, i: int)
    requires
        0 <= i < v.len(),
    ensures
        #[trigger] names_of(v)[i] == v[i]@,
{
}

pub broadcast group group_names_of {
    lemma_names_of_len,
    lemma_names_of_index,
}

/// A path through the archive tree, held as its components.
#[derive(Debug)]
pub struct H5Path {
    pub absolute: bool,
    pub comps: Vec<String>,
}

impl View for H5Path {
    type V = PathV;

    open spec fn view(&self) -> PathV {
        PathV { absolute: self.absolute, comps: names_of(self.comps@) }
    }
}

/// Components produced by splitting are valid names.
proof fn lemma_split_comps_wf(s: Seq<char>, i: int)
    requires
        0 <= i,
    ensures
        forall|k: int|
            0 <= k < spec_split_comps(s, i).len() ==> PathV::wf_name(
                #[trigger] spec_split_comps(s, i)[k],
            ),
    decreases s.len() - i,
{
    if i < s.len() {
        let j = first_slash(s, i);
        lemma_first_slash_bounds(s, i);
        if j > i {
            if j + 1 <= s.len() {
                lemma_split_comps_wf(s, j + 1);
            } else {
                assert(spec_split_comps(s, j + 1) =~= Seq::empty());
            }
            let c = s.subrange(i, j);
            assert forall|m: int| 0 <= m < c.len() implies c[m] != '/' by {
                assert(c[m] == s[i + m]);
            }
            let rest = spec_split_comps(s, j + 1);
            assert(spec_split_comps(s, i) == seq![c] + rest);
            assert forall|k: int| 0 <= k < spec_split_comps(s, i).len() implies PathV::wf_name(
                #[trigger] spec_split_comps(s, i)[k],
            ) by {
                if k == 0 {
                    assert(spec_split_comps(s, i)[k] == c);
                } else {
                    assert(spec_split_comps(s, i)[k] == rest[k - 1]);
                }
            }
        } else {
            lemma_split_comps_wf(s, i + 1);
        }
    }
}

impl H5Path {
    /// The root path `/`.
    pub fn root() -> (r: H5Path)
        ensures
            r@ == PathV::root(),
    {
        let r = H5Path { absolute: true, comps: Vec::new() };
        proof {
            assert(r@ =~~= PathV::root());
        }
        r
    }

    /// Splits a string into a path: component-wise, no filesystem access,
    /// no normalization beyond dropping empty segments.
    pub fn from_str(s: &str) -> (r: H5Path)
        ensures
            r@ == spec_path_of(s@),
            r@.wf(),
    {
        let n = s.unicode_len();
        let absolute = n > 0 && s.get_char(0) == '/';
        let mut comps: Vec<String> = Vec::new();
        let mut i: usize = 0;
        while i < n
            invariant
                0 <= i <= n,
                n == s@.len(),
                comps@.map_values(|c: String| c@) + spec_split_comps(s@, i as int)
                    =~= spec_split_comps(s@, 0),
            decreases n - i,
        {
            let j = find_slash(s, i);
            proof {
                lemma_first_slash_bounds(s@, i as int);
            }
            if j > i {
                let ghost c = s@.subrange(i as int, j as int);
                let ghost old_comps = comps@;
                let part = String::from_str(s.substring_char(i, j));
                comps.push(part);
                proof {
                    let f = |c2: String| c2@;
                    assert(comps@.map_values(f) =~= old_comps.map_values(f).push(c));
                    assert(spec_split_comps(s@, i as int) == seq![c] + spec_split_comps(
                        s@,
                        j + 1,
                    ));
                    assert(comps@.map_values(f) + spec_split_comps(s@, j + 1) =~= old_comps
                        .map_values(f) + spec_split_comps(s@, i as int));
                }
                if j < n {
                    i = j + 1;
                } else {
                    proof {
                        assert(spec_split_comps(s@, n as int) =~= Seq::empty());
                        assert(spec_split_comps(s@, j + 1) =~= Seq::empty());
                    }
                    i = n;
                }
            } else {
                i = i + 1;
            }
        }
        let r = H5Path { absolute, comps };
        proof {
            assert(r@ =~~= spec_path_of(s@));
            lemma_split_comps_wf(s@, 0);
        }
        r
    }

    /// True for the root path (absolute with no components).
    pub fn is_root(&self) -> (r: bool)
        ensures
            r == self@.is_root(),
    {
        self.absolute && self.comps.len() == 0
    }

    /// The number of components.
    pub fn depth(&self) -> (r: usize)
        ensures
            r == self@.comps.len(),
    {
        self.comps.len()
    }

    /// Appends a component.
    pub fn push(&mut self, name: String)
        ensures
            final(self)@ == old(self)@.join(name@),
    {
        self.comps.push(name);
        proof {
            assert(final(self)@ =~~= old(self)@.join(name@));
        }
    }

    /// Drops the last component; reports whether there was one to drop.
    pub fn pop(&mut self) -> (r: bool)
        ensures
            old(self)@.comps.len() == 0 ==> !r && final(self)@ == old(self)@,
            old(self)@.comps.len() > 0 ==> r && final(self)@ == (PathV {
                absolute: old(self)@.absolute,
                comps: old(self)@.comps.drop_last(),
            }),
    {
        if self.comps.len() == 0 {
            proof {
                assert(final(self)@ =~~= old(self)@);
            }
            false
        } else {
            self.comps.pop();
            proof {
                assert(final(self)@ =~~= (PathV {
                    absolute: old(self)@.absolute,
                    comps: old(self)@.comps.drop_last(),
                }));
            }
            true
        }
    }

    /// The final component, if any.
    pub fn file_name(&self) -> (r: Option<&String>)
        ensures
            self@.comps.len() == 0 ==> r is None,
            self@.comps.len() > 0 ==> (r matches Some(n) && n@ == self@.comps.last()),
    {
        if self.comps.len() == 0 {
            None
        } else {
            Some(&self.comps[self.comps.len() - 1])
        }
    }
}

/// The name under which `child` is a direct (one-level) descendant of
/// `parent`, or nothing if `child` does not extend `parent` by exactly one
/// component.
pub fn relative_child_name(parent: &H5Path, child: &H5Path) -> (r: Option<String>)
    ensures
        match r {
            Some(n) => spec_relative_child_name(parent@, child@) == Some(n@),
            None => spec_relative_child_name(parent@, child@) is None,
        },
{
    if parent.absolute != child.absolute {
        return None;
    }
    let pn = parent.comps.len();
    let cn = child.comps.len();
    if cn == 0 || cn - 1 != pn {
        return None;
    }
    let mut i: usize = 0;
    while i < pn
        invariant
            0 <= i <= pn,
            pn == parent.comps@.len(),
            cn == child.comps@.len() == pn + 1,
            forall|j: int| 0 <= j < i ==> child.comps@[j]@ == parent.comps@[j]@,
        decreases pn - i,
    {
        if !(child.comps[i] == parent.comps[i]) {
            proof {
                let cv = child@.comps;
                let pv = parent@.comps;
                assert(cv.take(pv.len() as int)[i as int] != pv[i as int]);
            }
            return None;
        }
        i = i + 1;
    }
    proof {
        assert(child@.comps.take(parent@.comps.len() as int) =~= parent@.comps);
    }
    Some(child.comps[pn].clone())
}

/// The round-trip law of `relative_child_name`: for well-formed paths it
/// answers `name` exactly when `child` is `parent` extended by the single
/// valid component `name`.
pub proof fn lemma_relative_child_name_round_trip(parent: PathV, child: PathV, name: Seq<char>)
    requires
        child.wf(),
    ensures
        spec_relative_child_name(parent, child) == Some(name) <==> (child == parent.join(name)
            && PathV::wf_name(name)),
{
    if spec_relative_child_name(parent, child) == Some(name) {
        assert(child.comps =~= parent.comps.push(name));
        assert(child =~~= parent.join(name));
        assert(PathV::wf_name(child.comps[child.comps.len() - 1]));
    }
    if child == parent.join(name) && PathV::wf_name(name) {
        assert(child.comps.take(parent.comps.len() as int) =~= parent.comps);
    }
}

} // verus!
