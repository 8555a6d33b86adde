//! The textual listing format: one record per line, `NAME<ws>Group` or
//! `NAME<ws>Dataset<ws>{d0, d1, ...}` (or `{SCALAR}`), with hierarchy
//! implied by full path prefixes in depth-first pre-order.

use vstd::prelude::*;
use crate::errors::H5Error;
use crate::path::{
    group_names_of, names_of, relative_child_name, spec_path_of, spec_relative_child_name,
    H5Path, PathV,
};
use crate::tree::{
    find_idx, lemma_find_idx, lemma_insert_at_locate_all, lemma_insert_at_wf,
    lemma_locate_drop_last, lemma_locate_obj_last, lemma_locate_snoc, lemma_locate_take,
    lemma_update_then_locate, lemma_upsert_child_found, locate_group_rel, locate_obj, obj_sig,
    update_rel, upsert, wf_obj, DatasetV, GroupV, H5Dataset, H5Group, H5Obj, ObjV,
};
use crate::text::{
    find_nonws, find_sep, find_ws, first_nonws, first_sep, first_ws, is_ws, parse_dec,
    spec_parse_dec, spec_starts_with_at, starts_with_at, str_eq,
};

verus! {

/// Bounds of `first_sep`: in range, no separator pair before it, and a pair
/// at it when in range (which leaves two characters of room).
pub proof fn lemma_first_sep_bounds(s: Seq<char>, i: int)
    requires
        0 <= i <= s.len(),
    ensures
        i <= first_sep(s, i) <= s.len(),
        first_sep(s, i) < s.len() ==> first_sep(s, i) + 1 < s.len(),
    decreases s.len() - i,
{
    if i < s.len() && !(s[i] == ',' && i + 1 < s.len() && s[i + 1] == ' ') {
        lemma_first_sep_bounds(s, i + 1);
    }
}

/// The dimension values of the comma-space separated tokens of `s[i..]`:
/// nothing if any token is empty, non-numeric, or too large.
pub open spec fn spec_shape_tokens(s: Seq<char>, i: int) -> Option<Seq<usize>>
    decreases s.len() - i + 1,
    when 0 <= i
    via spec_shape_tokens_decreases
{
    let j = first_sep(s, i);
    match spec_parse_dec(s.subrange(i, j)) {
        None => None,
        Some(v) => if j >= s.len() {
            Some(seq![v])
        } else {
            match spec_shape_tokens(s, j + 2) {
                Some(rest) => Some(seq![v] + rest),
                None => None,
            }
        },
    }
}

#[via_fn]
proof fn spec_shape_tokens_decreases(s: Seq<char>, i: int) {
    if 0 <= i <= s.len() {
        lemma_first_sep_bounds(s, i);
    }
}

/// What braced shape text parses to: `{SCALAR}` is the empty shape,
/// otherwise the brace-enclosed text must be comma-space separated decimal
/// dimensions.
pub open spec fn spec_parse_shape(s: Seq<char>) -> Result<Seq<usize>, H5Error> {
    if s.len() < 2 || s[0] != '{' || s.last() != '}' {
        Err(H5Error::MalformedShape)
    } else {
        let inner = s.subrange(1, s.len() - 1);
        if inner == "SCALAR"@ {
            Ok(Seq::empty())
        } else {
            match spec_shape_tokens(inner, 0) {
                Some(dims) => Ok(dims),
                None => Err(H5Error::MalformedShape),
            }
        }
    }
}

/// Parses braced shape text: `"{SCALAR}"` gives the empty shape,
/// `"{3, 224, 224}"` gives those dimensions, and anything else is a
/// `MalformedShape` error.
pub fn parse_shape_text(s: &str) -> (r: Result<Vec<usize>, H5Error>)
    ensures
        match spec_parse_shape(s@) {
            Ok(dims) => r matches Ok(v) && v@ == dims,
            Err(e) => r == Err::<Vec<usize>, H5Error>(e),
        },
{
    let n = s.unicode_len();
    if n < 2 || s.get_char(0) != '{' || s.get_char(n - 1) != '}' {
        return Err(H5Error::MalformedShape);
    }
    let inner = s.substring_char(1, n - 1);
    if str_eq(inner, "SCALAR") {
        let r: Vec<usize> = Vec::new();
        proof {
            assert(r@ =~= Seq::<usize>::empty());
        }
        return Ok(r);
    }
    let m = n - 2;
    proof {
        assert(inner@ == s@.subrange(1, s@.len() - 1));
    }
    let mut dims: Vec<usize> = Vec::new();
    proof {
        assert forall|rest: Seq<usize>| true implies Seq::<usize>::empty() + rest =~= rest by {}
    }
    let mut i: usize = 0;
    loop
        invariant
            0 <= i <= m,
            m == inner@.len(),
            inner@ == s@.subrange(1, s@.len() - 1),
            n == s@.len(),
            n >= 2,
            s@[0] == '{',
            s@.last() == '}',
            inner@ != "SCALAR"@,
            match spec_shape_tokens(inner@, i as int) {
                Some(rest) => spec_shape_tokens(inner@, 0) == Some(dims@ + rest),
                None => spec_shape_tokens(inner@, 0) is None,
            },
        decreases m - i,
    {
        let j = find_sep(inner, i);
        proof {
            lemma_first_sep_bounds(inner@, i as int);
        }
        match parse_dec(inner, i, j) {
            None => {
                return Err(H5Error::MalformedShape);
            },
            Some(v) => {
                dims.push(v);
                if j >= m {
                    proof {
                        assert(spec_shape_tokens(inner@, i as int) == Some(seq![v]));
                        assert(dims@ =~= dims@.drop_last() + seq![v]);
                        assert(spec_shape_tokens(inner@, 0) == Some(dims@));
                        assert(spec_parse_shape(s@) == Ok::<Seq<usize>, H5Error>(dims@));
                    }
                    return Ok(dims);
                }
                proof {
                    assert forall|rest: Seq<usize>| true implies dims@.drop_last() + (seq![v]
                        + rest) =~= dims@ + rest by {}
                }
                i = j + 2;
            },
        }
    }
}

/// A recognized listing line.
pub enum LineRecord {
    /// `NAME Group`, for a non-root name.
    GroupLine(H5Path),
    /// `NAME Dataset {...}` with its parsed shape.
    DatasetLine(H5Path, Vec<usize>),
}

/// What a line classifies to.
#[verifier::ext_equal]
pub enum RecV {
    /// Not a record (or the literal root group line).
    Skip,
    /// A group record with its path.
    GroupRec(PathV),
    /// A dataset record with its path and shape.
    DataRec(PathV, Seq<usize>),
    /// A dataset line that does not parse.
    Bad(H5Error),
}

/// Classification of a line that names a dataset (`k` is the position of
/// the `Dataset` keyword).
pub open spec fn spec_dataset_rec(s: Seq<char>, k: int) -> RecV {
    let p = spec_path_of(s.take(first_ws(s, 0)));
    let m = k + 7;
    if m >= s.len() || !is_ws(s[m]) {
        RecV::Bad(H5Error::MalformedShape)
    } else {
        let b = first_nonws(s, m);
        if b >= s.len() {
            RecV::Bad(H5Error::MalformedShape)
        } else {
            match spec_parse_shape(s.subrange(b, s.len() as int)) {
                Err(e) => RecV::Bad(e),
                Ok(dims) => if p.comps.len() == 0 {
                    RecV::Bad(H5Error::StructuralViolation)
                } else {
                    RecV::DataRec(p, dims)
                },
            }
        }
    }
}

/// Classification of a listing line: a record is a non-empty whitespace-free
/// name, whitespace, and a kind keyword; dataset records carry braced shape
/// text; everything else is ignored.
pub open spec fn spec_classify_line(s: Seq<char>) -> RecV {
    let w = first_ws(s, 0);
    if w == 0 || w >= s.len() {
        RecV::Skip
    } else {
        let k = first_nonws(s, w);
        if spec_starts_with_at(s, k, "Group"@) {
            if s.take(w) == "/"@ {
                RecV::Skip
            } else {
                RecV::GroupRec(spec_path_of(s.take(w)))
            }
        } else if spec_starts_with_at(s, k, "Dataset"@) {
            spec_dataset_rec(s, k)
        } else {
            RecV::Skip
        }
    }
}

/// Classifies one listing line: a record, nothing for an ignored line, or
/// an error for a dataset line that does not parse.
pub fn parse_line(line: &str) -> (r: Result<Option<LineRecord>, H5Error>)
    ensures
        match spec_classify_line(line@) {
            RecV::Skip => r matches Ok(o) && o is None,
            RecV::GroupRec(p) => r matches Ok(o) && o matches Some(rec) && rec matches
                LineRecord::GroupLine(hp) && hp@ == p,
            RecV::DataRec(p, dims) => r matches Ok(o) && o matches Some(rec) && rec matches
                LineRecord::DatasetLine(hp, ds) && hp@ == p && ds@ == dims,
            RecV::Bad(e) => r == Err::<Option<LineRecord>, H5Error>(e),
        },
{
    let n = line.unicode_len();
    let w = find_ws(line, 0);
    if w == 0 || w >= n {
        return Ok(None);
    }
    let k = find_nonws(line, w);
    if starts_with_at(line, k, "Group") {
        let name = line.substring_char(0, w);
        proof {
            assert(name@ == line@.take(w as int));
        }
        if str_eq(name, "/") {
            return Ok(None);
        }
        Ok(Some(LineRecord::GroupLine(H5Path::from_str(name))))
    } else if starts_with_at(line, k, "Dataset") {
        proof {
            reveal_strlit("Dataset");
        }
        let m = k + 7;
        if m >= n {
            return Err(H5Error::MalformedShape);
        }
        let c = line.get_char(m);
        if !(c == ' ' || c == '\t') {
            return Err(H5Error::MalformedShape);
        }
        let b = find_nonws(line, m);
        if b >= n {
            return Err(H5Error::MalformedShape);
        }
        let braced = line.substring_char(b, n);
        match parse_shape_text(braced) {
            Err(e) => Err(e),
            Ok(dims) => {
                let name = line.substring_char(0, w);
                proof {
                    assert(name@ == line@.take(w as int));
                }
                let p = H5Path::from_str(name);
                if p.depth() == 0 {
                    return Err(H5Error::StructuralViolation);
                }
                Ok(Some(LineRecord::DatasetLine(p, dims)))
            },
        }
    } else {
        Ok(None)
    }
}

/// The parser's cursor state: the tree built so far and the cursor path.
#[verifier::ext_equal]
pub struct ParseStV {
    pub root: GroupV,
    pub spath: Seq<Seq<char>>,
}

/// The cursor path at which a group line with path `p` is inserted: the
/// longest prefix of `spath` of which `p` is a direct child, or nothing if
/// even the root is not such a prefix.
pub open spec fn spec_ascend(spath: Seq<Seq<char>>, p: PathV) -> Option<Seq<Seq<char>>>
    decreases spath.len(),
{
    if spec_relative_child_name(PathV { absolute: true, comps: spath }, p) is Some {
        Some(spath)
    } else if spath.len() == 0 {
        None
    } else {
        spec_ascend(spath.drop_last(), p)
    }
}

/// The tree with `node` inserted among the children of the group at
/// `comps` (unchanged when that path does not resolve to a group).
pub open spec fn spec_insert_at(root: GroupV, comps: Seq<Seq<char>>, node: ObjV) -> GroupV {
    match locate_group_rel(root, comps, 0) {
        Some(g) => update_rel(
            root,
            comps,
            0,
            GroupV { name: g.name, children: upsert(g.children, node) },
        ),
        None => root,
    }
}

/// The parser's initial state: an empty root group, cursor at the root.
pub open spec fn spec_init_state() -> ParseStV {
    ParseStV { root: GroupV { name: "/"@, children: Seq::empty() }, spath: Seq::empty() }
}

/// One parser step: how one listing line transforms the state.
pub open spec fn spec_step(st: ParseStV, line: Seq<char>) -> Result<ParseStV, H5Error> {
    match spec_classify_line(line) {
        RecV::Skip => Ok(st),
        RecV::Bad(e) => Err(e),
        RecV::GroupRec(p) => match spec_ascend(st.spath, p) {
            None => Err(H5Error::StructuralViolation),
            Some(base) => {
                let name = p.comps.last();
                Ok(
                    ParseStV {
                        root: spec_insert_at(
                            st.root,
                            base,
                            ObjV::Group(GroupV { name, children: Seq::empty() }),
                        ),
                        spath: base.push(name),
                    },
                )
            },
        },
        RecV::DataRec(p, dims) => Ok(
            ParseStV {
                root: spec_insert_at(
                    st.root,
                    st.spath,
                    ObjV::Dataset(DatasetV { name: p.comps.last(), shape: dims }),
                ),
                spath: st.spath,
            },
        ),
    }
}

/// The state after the first `n` lines.
pub open spec fn spec_run(lines: Seq<Seq<char>>, n: int) -> Result<ParseStV, H5Error>
    decreases n,
    when 0 <= n
{
    if n <= 0 {
        Ok(spec_init_state())
    } else {
        match spec_run(lines, n - 1) {
            Err(e) => Err(e),
            Ok(st) => spec_step(st, lines[n - 1]),
        }
    }
}

/// What parsing a listing yields: the root group of the completed tree, or
/// the first error.
pub open spec fn spec_parse_listing(lines: Seq<Seq<char>>) -> Result<GroupV, H5Error> {
    match spec_run(lines, lines.len() as int) {
        Ok(st) => Ok(st.root),
        Err(e) => Err(e),
    }
}

/// Once a run has failed, every longer run fails the same way.
pub proof fn lemma_run_err_stable(lines: Seq<Seq<char>>, k: int, n: int)
    requires
        0 <= k <= n,
        spec_run(lines, k) is Err,
    ensures
        spec_run(lines, n) == spec_run(lines, k),
    decreases n - k,
{
    if k < n {
        lemma_run_err_stable(lines, k, n - 1);
    }
}

/// The backtracking step of the parser: pops the cursor until the group
/// line's path is a direct child of it, then inserts an empty group there
/// and descends onto it; fails when the cursor would pop past the root.
fn ascend_insert(root: &mut H5Group, spath: &mut H5Path, p: &H5Path) -> (r: Result<
    (),
    H5Error,
>)
    requires
        old(spath)@.absolute,
        old(root)@.name == "/"@,
        locate_group_rel(old(root)@, old(spath)@.comps, 0) is Some,
    ensures
        final(spath)@.absolute,
        final(root)@.name == old(root)@.name,
        match spec_ascend(old(spath)@.comps, p@) {
            Some(base) => {
                &&& r is Ok
                &&& final(root)@ == spec_insert_at(
                    old(root)@,
                    base,
                    ObjV::Group(GroupV { name: p@.comps.last(), children: Seq::empty() }),
                )
                &&& final(spath)@.comps == base.push(p@.comps.last())
                &&& locate_group_rel(final(root)@, final(spath)@.comps, 0) is Some
            },
            None => r == Err::<(), H5Error>(H5Error::StructuralViolation) && final(root)@
                == old(root)@ && final(spath)@.comps.len() == 0,
        },
    decreases old(spath)@.comps.len(),
{
    match relative_child_name(spath, p) {
        Some(name) => {
            let ghost base = spath@.comps;
            let ghost namev = name@;
            let ghost rootv = root@;
            let ghost nodev = ObjV::Group(GroupV { name: namev, children: Seq::empty() });
            let g = root.locate_group_mut(spath);
            let ghost g0 = (*g)@;
            g.insert_child(H5Obj::Group(H5Group::new(name.clone())));
            spath.push(name);
            proof {
                let newg = GroupV { name: g0.name, children: upsert(g0.children, nodev) };
                lemma_update_then_locate(rootv, base, 0, newg);
                lemma_locate_snoc(update_rel(rootv, base, 0, newg), base, namev, 0);
                lemma_upsert_child_found(g0.children, nodev);
            }
            Ok(())
        },
        None => {
            if spath.depth() == 0 {
                return Err(H5Error::StructuralViolation);
            }
            proof {
                lemma_locate_drop_last(root@, spath@.comps, 0);
            }
            spath.pop();
            ascend_insert(root, spath, p)
        },
    }
}

impl H5Group {
    /// Builds the archive tree from the lines of a listing: group lines
    /// are placed by backtracking over full path prefixes, dataset lines
    /// are inserted under the cursor group; lines that are no records are
    /// ignored. Fails with `MalformedShape` on bad shape text and with
    /// `StructuralViolation` when the listing is not a pre-order tree dump.
    pub fn parse(lines: &Vec<String>) -> (r: Result<H5Group, H5Error>)
        ensures
            match spec_parse_listing(names_of(lines@)) {
                Ok(gv) => r matches Ok(g) && g@ == gv,
                Err(e) => r == Err::<H5Group, H5Error>(e),
            },
    {
        broadcast use group_names_of;

        let mut root = H5Group::new(String::from_str("/"));
        let mut spath = H5Path::root();
        let n = lines.len();
        let mut idx: usize = 0;
        proof {
            assert(root@ =~~= spec_init_state().root);
            assert(spath@.comps =~= spec_init_state().spath);
        }
        while idx < n
            invariant
                0 <= idx <= n,
                n == lines@.len(),
                spath@.absolute,
                root@.name == "/"@,
                locate_group_rel(root@, spath@.comps, 0) is Some,
                spec_run(names_of(lines@), idx as int) == Ok::<ParseStV, H5Error>(
                    ParseStV { root: root@, spath: spath@.comps },
                ),
            decreases n - idx,
        {
            broadcast use group_names_of;

            let ghost lv = names_of(lines@);
            let ghost st0 = ParseStV { root: root@, spath: spath@.comps };
            let rec = parse_line(lines[idx].as_str());
            proof {
                assert(lv[idx as int] == lines@[idx as int]@);
            }
            match rec {
                Err(e) => {
                    proof {
                        assert(spec_run(lv, idx + 1) == Err::<ParseStV, H5Error>(e));
                        lemma_run_err_stable(lv, idx + 1, lv.len() as int);
                    }
                    return Err(e);
                },
                Ok(None) => {
                    proof {
                        assert(spec_step(st0, lv[idx as int]) == Ok::<ParseStV, H5Error>(st0));
                    }
                },
                Ok(Some(LineRecord::GroupLine(p))) => {
                    let res = ascend_insert(&mut root, &mut spath, &p);
                    match res {
                        Err(e) => {
                            proof {
                                assert(spec_run(lv, idx + 1) == Err::<ParseStV, H5Error>(e));
                                lemma_run_err_stable(lv, idx + 1, lv.len() as int);
                            }
                            return Err(e);
                        },
                        Ok(_) => {},
                    }
                },
                Ok(Some(LineRecord::DatasetLine(p, dims))) => {
                    proof {
                        assert(p@.comps.len() > 0);
                    }
                    let name = match p.file_name() {
                        Some(nm) => nm.clone(),
                        None => vstd::pervasive::unreached(),
                    };
                    let ghost spv = spath@.comps;
                    let ghost rootv = root@;
                    let ghost dsv = DatasetV { name: name@, shape: dims@ };
                    let g = root.locate_group_mut(&spath);
                    let ghost g0 = (*g)@;
                    g.insert_child(H5Obj::Dataset(H5Dataset { name, shape: dims }));
                    proof {
                        let newg = GroupV {
                            name: g0.name,
                            children: upsert(g0.children, ObjV::Dataset(dsv)),
                        };
                        lemma_update_then_locate(rootv, spv, 0, newg);
                    }
                },
            }
            idx = idx + 1;
        }
        proof {
            assert(spec_parse_listing(names_of(lines@)) == Ok::<GroupV, H5Error>(root@));
        }
        Ok(root)
    }
}

/// `a` is a prefix of `b`.
pub open spec fn is_prefix(a: Seq<Seq<char>>, b: Seq<Seq<char>>) -> bool {
    a.len() <= b.len() && b.take(a.len() as int) == a
}

/// The path a record line declares, if the line is a record.
pub open spec fn rec_path(line: Seq<char>) -> Option<Seq<Seq<char>>> {
    match spec_classify_line(line) {
        RecV::GroupRec(p) => Some(p.comps),
        RecV::DataRec(p, _) => Some(p.comps),
        _ => None::<Seq<Seq<char>>>,
    }
}

/// The cursor a well-formed pre-order listing prescribes after its first
/// `n` lines: group lines must name a direct child of a cursor prefix and
/// move the cursor to their path, dataset lines must name a direct child
/// of the cursor itself; nothing when a line breaks the discipline.
pub open spec fn wf_cursor(lines: Seq<Seq<char>>, n: int) -> Option<Seq<Seq<char>>>
    decreases n,
    when 0 <= n
{
    if n <= 0 {
        Some(Seq::empty())
    } else {
        match wf_cursor(lines, n - 1) {
            None => None,
            Some(s) => match spec_classify_line(lines[n - 1]) {
                RecV::Skip => Some(s),
                RecV::Bad(_) => None::<Seq<Seq<char>>>,
                RecV::GroupRec(p) => if p.absolute && p.comps.len() > 0 && is_prefix(
                    p.comps.drop_last(),
                    s,
                ) {
                    Some(p.comps)
                } else {
                    None
                },
                RecV::DataRec(p, _) => if p.absolute && p.comps.drop_last() == s {
                    Some(s)
                } else {
                    None
                },
            },
        }
    }
}

/// No path is declared by two record lines.
pub open spec fn listing_distinct(lines: Seq<Seq<char>>) -> bool {
    forall|i: int, j: int|
        0 <= i < j < lines.len() && (#[trigger] rec_path(lines[i])) is Some ==> rec_path(
            lines[i],
        ) != #[trigger] rec_path(lines[j])
}

/// A well-formed pre-order listing: a depth-first, ancestors-before-
/// descendants dump of a tree, with no path declared twice.
pub open spec fn listing_preorder_wf(lines: Seq<Seq<char>>) -> bool {
    &&& wf_cursor(lines, lines.len() as int) is Some
    &&& listing_distinct(lines)
}

/// Well-formedness of a listing prefix follows from that of any longer
/// prefix.
proof fn lemma_wf_cursor_prefix(lines: Seq<Seq<char>>, k: int, n: int)
    requires
        0 <= k <= n,
        wf_cursor(lines, n) is Some,
    ensures
        wf_cursor(lines, k) is Some,
    decreases n - k,
{
    if k < n {
        assert(wf_cursor(lines, n - 1) is Some);
        lemma_wf_cursor_prefix(lines, k, n - 1);
    }
}

/// When the group line's parent is a prefix of the cursor, the ascend loop
/// stops exactly at that parent.
proof fn lemma_ascend_prefix(s: Seq<Seq<char>>, p: PathV)
    requires
        p.absolute,
        p.comps.len() > 0,
        is_prefix(p.comps.drop_last(), s),
    ensures
        spec_ascend(s, p) == Some(p.comps.drop_last()),
    decreases s.len(),
{
    let parent = p.comps.drop_last();
    if parent.len() == s.len() {
        assert(s.take(s.len() as int) =~= s);
        assert(p.comps.take(s.len() as int) =~= parent);
        assert(spec_relative_child_name(PathV { absolute: true, comps: s }, p) is Some);
    } else {
        assert(spec_relative_child_name(PathV { absolute: true, comps: s }, p) is None);
        assert(s.drop_last().take(parent.len() as int) =~= s.take(parent.len() as int));
        lemma_ascend_prefix(s.drop_last(), p);
    }
}

/// Every record among the first `n` lines resolves in `root` to a node of
/// its declared kind, datasets with exactly their declared shape.
pub open spec fn records_resolved(lines: Seq<Seq<char>>, n: int, root: GroupV) -> bool {
    forall|i: int|
        0 <= i < n ==> match #[trigger] spec_classify_line(lines[i]) {
            RecV::GroupRec(p) => obj_sig(locate_obj(ObjV::Group(root), p.comps, 0)) == Some(
                None::<DatasetV>,
            ),
            RecV::DataRec(p, dims) => locate_obj(ObjV::Group(root), p.comps, 0) == Some(
                ObjV::Dataset(DatasetV { name: p.comps.last(), shape: dims }),
            ),
            _ => true,
        }
}

/// Every non-root path that resolves in `root` was declared by one of the
/// first `n` lines.
spec fn only_emitted(lines: Seq<Seq<char>>, n: int, root: GroupV) -> bool {
    forall|q: Seq<Seq<char>>|
        (#[trigger] locate_obj(ObjV::Group(root), q, 0)) is Some && q.len() > 0 ==> exists|i: int|
            0 <= i < n && rec_path(lines[i]) == Some(q)
}

/// The run of the parser over a well-formed pre-order prefix: it succeeds,
/// its cursor is the prescribed one and resolves to a group, and every
/// record seen so far resolves to its declared kind.
proof fn lemma_preorder_run(lines: Seq<Seq<char>>, n: int)
    requires
        0 <= n <= lines.len(),
        wf_cursor(lines, n) is Some,
        listing_distinct(lines),
    ensures
        spec_run(lines, n) is Ok,
        ({
            let st = spec_run(lines, n)->Ok_0;
            &&& st.spath == wf_cursor(lines, n)->Some_0
            &&& st.root.name == "/"@
            &&& locate_group_rel(st.root, st.spath, 0) is Some
            &&& records_resolved(lines, n, st.root)
            &&& only_emitted(lines, n, st.root)
        }),
    decreases n,
{
    if n == 0 {
        let st = spec_init_state();
        assert forall|q: Seq<Seq<char>>|
            (#[trigger] locate_obj(ObjV::Group(st.root), q, 0)) is Some && q.len()
                > 0 implies exists|i: int| 0 <= i < n && rec_path(lines[i]) == Some(q) by {
            lemma_find_idx(st.root.children, q[0]);
            assert(locate_obj(ObjV::Group(st.root), q, 0) is None);
        }
    } else {
        lemma_wf_cursor_prefix(lines, n - 1, n);
        lemma_preorder_run(lines, n - 1);
        let st = spec_run(lines, n - 1)->Ok_0;
        let line = lines[n - 1];
        match spec_classify_line(line) {
            RecV::Skip => {},
            RecV::Bad(_) => {
                assert(false);
            },
            RecV::GroupRec(p) => {
                lemma_group_step(lines, n, st, p);
            },
            RecV::DataRec(p, dims) => {
                lemma_dataset_step(lines, n, st, p, dims);
            },
        }
    }
}

/// One group-record step of the pre-order induction.
proof fn lemma_group_step(lines: Seq<Seq<char>>, n: int, st: ParseStV, p: PathV)
    requires
        0 < n <= lines.len(),
        wf_cursor(lines, n) is Some,
        listing_distinct(lines),
        spec_run(lines, n - 1) == Ok::<ParseStV, H5Error>(st),
        spec_classify_line(lines[n - 1]) == RecV::GroupRec(p),
        st.spath == wf_cursor(lines, n - 1)->Some_0,
        st.root.name == "/"@,
        locate_group_rel(st.root, st.spath, 0) is Some,
        records_resolved(lines, n - 1, st.root),
        only_emitted(lines, n - 1, st.root),
    ensures
        spec_run(lines, n) is Ok,
        ({
            let st2 = spec_run(lines, n)->Ok_0;
            &&& st2.spath == wf_cursor(lines, n)->Some_0
            &&& st2.root.name == "/"@
            &&& locate_group_rel(st2.root, st2.spath, 0) is Some
            &&& records_resolved(lines, n, st2.root)
            &&& only_emitted(lines, n, st2.root)
        }),
{
    let parent = p.comps.drop_last();
    let name = p.comps.last();
    let node = ObjV::Group(GroupV { name, children: Seq::empty() });
    lemma_ascend_prefix(st.spath, p);
    assert(parent.push(name) =~= p.comps);
    // The parent group exists: it is a prefix of the cursor.
    assert(st.spath.take(parent.len() as int) == parent);
    lemma_locate_take(st.root, st.spath, 0, parent.len() as int);
    let pg = locate_group_rel(st.root, parent, 0)->Some_0;
    // The inserted name is fresh: the full path was never declared before.
    lemma_locate_obj_last(st.root, p.comps, 0);
    assert(p.comps.take(p.comps.len() - 1) =~= parent);
    lemma_find_idx(pg.children, name);
    if find_idx(pg.children, name) >= 0 {
        assert(locate_obj(ObjV::Group(st.root), p.comps, 0) is Some);
        assert(rec_path(lines[n - 1]) == Some(p.comps));
        assert(false);
    }
    let newg = GroupV { name: pg.name, children: upsert(pg.children, node) };
    let root2 = update_rel(st.root, parent, 0, newg);
    assert(spec_insert_at(st.root, parent, node) == root2);
    let st2 = ParseStV { root: root2, spath: p.comps };
    assert(spec_step(st, lines[n - 1]) == Ok::<ParseStV, H5Error>(st2));
    // The new cursor resolves to the inserted empty group.
    lemma_update_then_locate(st.root, parent, 0, newg);
    lemma_locate_snoc(root2, parent, name, 0);
    lemma_upsert_child_found(pg.children, node);
    assert(locate_group_rel(root2, p.comps, 0) is Some);
    // The root keeps its name.
    assert(root2.name == "/"@) by {
        if parent.len() == 0 {
            assert(locate_group_rel(st.root, parent, 0) == Some(st.root));
        }
    }
    // Old records keep their kinds; the new record resolves to a group.
    assert forall|i: int|
        0 <= i < n implies match #[trigger] spec_classify_line(lines[i]) {
        RecV::GroupRec(pp) => obj_sig(locate_obj(ObjV::Group(root2), pp.comps, 0)) == Some(
            None::<DatasetV>,
        ),
        RecV::DataRec(pp, dims2) => locate_obj(ObjV::Group(root2), pp.comps, 0) == Some(
            ObjV::Dataset(DatasetV { name: pp.comps.last(), shape: dims2 }),
        ),
        _ => true,
    } by {
        if i == n - 1 {
            lemma_insert_at_locate_all(st.root, parent, 0, node, p.comps);
            assert(locate_obj(ObjV::Group(root2), p.comps, 0) == Some(node));
        } else {
            match spec_classify_line(lines[i]) {
                RecV::GroupRec(pp) => {
                    lemma_insert_at_locate_all(st.root, parent, 0, node, pp.comps);
                    if pp.comps.len() == parent.len() + 1 && (forall|m: int|
                        0 <= m < parent.len() ==> pp.comps[m] == parent[m]) && pp.comps.last()
                        == name {
                        assert(pp.comps =~= p.comps);
                        assert(rec_path(lines[i]) == Some(p.comps));
                        assert(rec_path(lines[n - 1]) == Some(p.comps));
                        assert(false);
                    }
                },
                RecV::DataRec(pp, dims2) => {
                    lemma_insert_at_locate_all(st.root, parent, 0, node, pp.comps);
                    if pp.comps.len() == parent.len() + 1 && (forall|m: int|
                        0 <= m < parent.len() ==> pp.comps[m] == parent[m]) && pp.comps.last()
                        == name {
                        assert(pp.comps =~= p.comps);
                        assert(rec_path(lines[i]) == Some(p.comps));
                        assert(rec_path(lines[n - 1]) == Some(p.comps));
                        assert(false);
                    }
                },
                _ => {},
            }
        }
    }
    // Everything that resolves now was declared by now.
    assert forall|q: Seq<Seq<char>>|
        (#[trigger] locate_obj(ObjV::Group(root2), q, 0)) is Some && q.len() > 0 implies exists|
        i: int,
    | 0 <= i < n && rec_path(lines[i]) == Some(q) by {
        lemma_insert_at_locate_all(st.root, parent, 0, node, q);
        if q.len() == parent.len() + 1 && (forall|m: int|
            0 <= m < parent.len() ==> q[m] == parent[m]) && q.last() == name {
            assert(q =~= p.comps);
            assert(rec_path(lines[n - 1]) == Some(q));
        } else {
            assert(locate_obj(ObjV::Group(st.root), q, 0) is Some);
        }
    }
}

/// One dataset-record step of the pre-order induction.
proof fn lemma_dataset_step(
    lines: Seq<Seq<char>>,
    n: int,
    st: ParseStV,
    p: PathV,
    dims: Seq<usize>,
)
    requires
        0 < n <= lines.len(),
        wf_cursor(lines, n) is Some,
        listing_distinct(lines),
        spec_run(lines, n - 1) == Ok::<ParseStV, H5Error>(st),
        spec_classify_line(lines[n - 1]) == RecV::DataRec(p, dims),
        st.spath == wf_cursor(lines, n - 1)->Some_0,
        st.root.name == "/"@,
        locate_group_rel(st.root, st.spath, 0) is Some,
        records_resolved(lines, n - 1, st.root),
        only_emitted(lines, n - 1, st.root),
    ensures
        spec_run(lines, n) is Ok,
        ({
            let st2 = spec_run(lines, n)->Ok_0;
            &&& st2.spath == wf_cursor(lines, n)->Some_0
            &&& st2.root.name == "/"@
            &&& locate_group_rel(st2.root, st2.spath, 0) is Some
            &&& records_resolved(lines, n, st2.root)
            &&& only_emitted(lines, n, st2.root)
        }),
{
    let name = p.comps.last();
    let node = ObjV::Dataset(DatasetV { name, shape: dims });
    // The cursor is exactly the dataset's parent.
    assert(p.comps.drop_last() == st.spath);
    assert(st.spath.push(name) =~= p.comps);
    let pg = locate_group_rel(st.root, st.spath, 0)->Some_0;
    // Freshness, as for groups.
    lemma_locate_obj_last(st.root, p.comps, 0);
    assert(p.comps.take(p.comps.len() - 1) =~= st.spath);
    lemma_find_idx(pg.children, name);
    if find_idx(pg.children, name) >= 0 {
        assert(locate_obj(ObjV::Group(st.root), p.comps, 0) is Some);
        assert(rec_path(lines[n - 1]) == Some(p.comps));
        assert(false);
    }
    let newg = GroupV { name: pg.name, children: upsert(pg.children, node) };
    let root2 = update_rel(st.root, st.spath, 0, newg);
    assert(spec_insert_at(st.root, st.spath, node) == root2);
    let st2 = ParseStV { root: root2, spath: st.spath };
    assert(spec_step(st, lines[n - 1]) == Ok::<ParseStV, H5Error>(st2));
    lemma_update_then_locate(st.root, st.spath, 0, newg);
    assert(locate_group_rel(root2, st.spath, 0) is Some);
    assert(root2.name == "/"@) by {
        if st.spath.len() == 0 {
            assert(locate_group_rel(st.root, st.spath, 0) == Some(st.root));
        }
    }
    assert forall|i: int|
        0 <= i < n implies match #[trigger] spec_classify_line(lines[i]) {
        RecV::GroupRec(pp) => obj_sig(locate_obj(ObjV::Group(root2), pp.comps, 0)) == Some(
            None::<DatasetV>,
        ),
        RecV::DataRec(pp, dims2) => locate_obj(ObjV::Group(root2), pp.comps, 0) == Some(
            ObjV::Dataset(DatasetV { name: pp.comps.last(), shape: dims2 }),
        ),
        _ => true,
    } by {
        if i == n - 1 {
            lemma_insert_at_locate_all(st.root, st.spath, 0, node, p.comps);
            assert(locate_obj(ObjV::Group(root2), p.comps, 0) == Some(node));
        } else {
            match spec_classify_line(lines[i]) {
                RecV::GroupRec(pp) => {
                    lemma_insert_at_locate_all(st.root, st.spath, 0, node, pp.comps);
                    if pp.comps.len() == st.spath.len() + 1 && (forall|m: int|
                        0 <= m < st.spath.len() ==> pp.comps[m] == st.spath[m])
                        && pp.comps.last() == name {
                        assert(pp.comps =~= p.comps);
                        assert(rec_path(lines[i]) == Some(p.comps));
                        assert(rec_path(lines[n - 1]) == Some(p.comps));
                        assert(false);
                    }
                },
                RecV::DataRec(pp, dims2) => {
                    lemma_insert_at_locate_all(st.root, st.spath, 0, node, pp.comps);
                    if pp.comps.len() == st.spath.len() + 1 && (forall|m: int|
                        0 <= m < st.spath.len() ==> pp.comps[m] == st.spath[m])
                        && pp.comps.last() == name {
                        assert(pp.comps =~= p.comps);
                        assert(rec_path(lines[i]) == Some(p.comps));
                        assert(rec_path(lines[n - 1]) == Some(p.comps));
                        assert(false);
                    }
                },
                _ => {},
            }
        }
    }
    assert forall|q: Seq<Seq<char>>|
        (#[trigger] locate_obj(ObjV::Group(root2), q, 0)) is Some && q.len() > 0 implies exists|
        i: int,
    | 0 <= i < n && rec_path(lines[i]) == Some(q) by {
        lemma_insert_at_locate_all(st.root, st.spath, 0, node, q);
        if q.len() == st.spath.len() + 1 && (forall|m: int|
            0 <= m < st.spath.len() ==> q[m] == st.spath[m]) && q.last() == name {
            assert(q =~= p.comps);
            assert(rec_path(lines[n - 1]) == Some(q));
        } else {
            assert(locate_obj(ObjV::Group(st.root), q, 0) is Some);
        }
    }
}

/// `spec_insert_at` preserves well-formedness and the root's name.
proof fn lemma_step_insert_wf(root: GroupV, comps: Seq<Seq<char>>, node: ObjV)
    requires
        wf_obj(ObjV::Group(root)),
        wf_obj(node),
    ensures
        wf_obj(ObjV::Group(spec_insert_at(root, comps, node))),
        spec_insert_at(root, comps, node).name == root.name,
{
    match locate_group_rel(root, comps, 0) {
        None => {},
        Some(g) => {
            lemma_insert_at_wf(root, comps, 0, node);
            if comps.len() == 0 {
                assert(locate_group_rel(root, comps, 0) == Some(root));
            }
        },
    }
}

proof fn lemma_run_wf(lines: Seq<Seq<char>>, n: int)
    requires
        0 <= n,
    ensures
        spec_run(lines, n) matches Ok(st) ==> wf_obj(ObjV::Group(st.root)) && st.root.name
            == "/"@,
    decreases n,
{
    if n > 0 {
        lemma_run_wf(lines, n - 1);
        match spec_run(lines, n - 1) {
            Err(_) => {},
            Ok(st) => {
                match spec_classify_line(lines[n - 1]) {
                    RecV::Skip => {},
                    RecV::Bad(_) => {},
                    RecV::GroupRec(p) => match spec_ascend(st.spath, p) {
                        None => {},
                        Some(base) => {
                            let node = ObjV::Group(
                                GroupV { name: p.comps.last(), children: Seq::empty() },
                            );
                            assert(wf_obj(node));
                            lemma_step_insert_wf(st.root, base, node);
                        },
                    },
                    RecV::DataRec(p, dims) => {
                        let node = ObjV::Dataset(DatasetV { name: p.comps.last(), shape: dims });
                        lemma_step_insert_wf(st.root, st.spath, node);
                    },
                }
            },
        }
    }
}

/// Every tree a parse returns is well-formed — within each group the child
/// names are unique, each child keyed by its own name — and its root is
/// called `/`, whatever the listing held.
pub proof fn lemma_parse_tree_wf(lines: Seq<Seq<char>>)
    ensures
        spec_parse_listing(lines) matches Ok(root) ==> wf_obj(ObjV::Group(root)) && root.name
            == "/"@,
{
    lemma_run_wf(lines, lines.len() as int);
}

/// For every well-formed pre-order listing, parsing succeeds and resolving
/// each emitted path in the resulting tree yields a node of the kind its
/// line declares — datasets carrying exactly their declared shape.
pub proof fn lemma_preorder_listing_parses(lines: Seq<Seq<char>>)
    requires
        listing_preorder_wf(lines),
    ensures
        spec_parse_listing(lines) is Ok,
        forall|i: int|
            0 <= i < lines.len() ==> match #[trigger] spec_classify_line(lines[i]) {
                RecV::GroupRec(p) => locate_obj(
                    ObjV::Group(spec_parse_listing(lines)->Ok_0),
                    p.comps,
                    0,
                ) matches Some(o) && o is Group,
                RecV::DataRec(p, dims) => locate_obj(
                    ObjV::Group(spec_parse_listing(lines)->Ok_0),
                    p.comps,
                    0,
                ) == Some(ObjV::Dataset(DatasetV { name: p.comps.last(), shape: dims })),
                _ => true,
            },
{
    lemma_preorder_run(lines, lines.len() as int);
    let root = spec_parse_listing(lines)->Ok_0;
    assert forall|i: int|
        0 <= i < lines.len() implies match #[trigger] spec_classify_line(lines[i]) {
        RecV::GroupRec(p) => locate_obj(ObjV::Group(root), p.comps, 0) matches Some(o) && o
            is Group,
        RecV::DataRec(p, dims) => locate_obj(ObjV::Group(root), p.comps, 0) == Some(
            ObjV::Dataset(DatasetV { name: p.comps.last(), shape: dims }),
        ),
        _ => true,
    } by {
        match spec_classify_line(lines[i]) {
            RecV::GroupRec(p) => {
                assert(obj_sig(locate_obj(ObjV::Group(root), p.comps, 0)) == Some(
                    None::<DatasetV>,
                ));
            },
            _ => {},
        }
    }
}

} // verus!
