//! The archive tree: groups owning named children, datasets carrying a
//! shape, and path lookup over both, mutable and immutable.

use vstd::prelude::*;
use crate::errors::H5Error;
use crate::path::{group_names_of, names_of, H5Path, PathV};
use crate::shape::{
    classify, kind_tag, spec_batch_count, spec_classify, spec_kind_tag, spec_resolution,
    spec_resolution_batch, spec_resolution_single, Resolution,
};
use crate::text::str_eq;

verus! {

/// The mathematical value of a group: its name and the values of its
/// children, in order.
#[verifier::ext_equal]
pub struct GroupV {
    pub name: Seq<char>,
    pub children: Seq<ObjV>,
}

/// The mathematical value of a dataset: its name and its shape.
#[verifier::ext_equal]
pub struct DatasetV {
    pub name: Seq<char>,
    pub shape: Seq<usize>,
}

/// The mathematical value of a node.
#[verifier::ext_equal]
pub enum ObjV {
    Group(GroupV),
    Dataset(DatasetV),
}

impl ObjV {
    /// The name of the node, whichever kind it is.
    pub open spec fn name(self) -> Seq<char> {
        match self {
            ObjV::Group(g) => g.name,
            ObjV::Dataset(d) => d.name,
        }
    }
}

/// Index of the first child called `name`, or -1 if there is none.
pub open spec fn find_idx(children: Seq<ObjV>, name: Seq<char>) -> int
    decreases children.len(),
{
    if children.len() == 0 {
        -1
    } else if children[0].name() == name {
        0
    } else {
        let r = find_idx(children.drop_first(), name);
        if r < 0 {
            -1
        } else {
            r + 1
        }
    }
}

/// `find_idx` names the first child with the given name, if any.
pub proof fn lemma_find_idx(children: Seq<ObjV>, name: Seq<char>)
    ensures
        -1 <= find_idx(children, name) < children.len(),
        find_idx(children, name) >= 0 ==> children[find_idx(children, name)].name() == name,
        forall|k: int|
            0 <= k < find_idx(children, name) ==> (#[trigger] children[k]).name() != name,
        find_idx(children, name) == -1 ==> forall|k: int|
            0 <= k < children.len() ==> (#[trigger] children[k]).name() != name,
    decreases children.len(),
{
    if children.len() > 0 && children[0].name() != name {
        let t = children.drop_first();
        lemma_find_idx(t, name);
        assert forall|k: int| 0 <= k < t.len() implies t[k] == children[k + 1] by {}
        let rt = find_idx(t, name);
        if rt < 0 {
            assert forall|k: int|
                0 <= k < children.len() implies (#[trigger] children[k]).name() != name by {
                if k > 0 {
                    assert(children[k] == t[k - 1]);
                }
            }
        } else {
            assert(find_idx(children, name) == rt + 1);
            assert(children[rt + 1] == t[rt]);
            assert forall|k: int|
                0 <= k < find_idx(children, name) implies (#[trigger] children[k]).name()
                != name by {
                if k > 0 {
                    assert(children[k] == t[k - 1]);
                }
            }
        }
    }
}

/// The child called `name`, if any.
pub open spec fn child_of(children: Seq<ObjV>, name: Seq<char>) -> Option<ObjV> {
    let j = find_idx(children, name);
    if j >= 0 {
        Some(children[j])
    } else {
        None
    }
}

/// `children` with `node` replacing the first child of the same name, or
/// appended if there is none: the insertion of an ordered keyed mapping.
pub open spec fn upsert(children: Seq<ObjV>, node: ObjV) -> Seq<ObjV> {
    let j = find_idx(children, node.name());
    if j >= 0 {
        children.update(j, node)
    } else {
        children.push(node)
    }
}

/// Walks `comps[i..]` from `node`: the node reached, or nothing if a
/// component misses or an interior node is a dataset.
pub open spec fn locate_obj(node: ObjV, comps: Seq<Seq<char>>, i: int) -> Option<ObjV>
    decreases comps.len() - i,
    when 0 <= i
{
    if i >= comps.len() {
        Some(node)
    } else {
        match node {
            ObjV::Dataset(_) => None,
            ObjV::Group(g) => match child_of(g.children, comps[i]) {
                Some(c) => locate_obj(c, comps, i + 1),
                None => None,
            },
        }
    }
}

/// Walks `comps[i..]` from group `g`, succeeding only on groups all the way.
pub open spec fn locate_group_rel(g: GroupV, comps: Seq<Seq<char>>, i: int) -> Option<GroupV>
    decreases comps.len() - i,
    when 0 <= i
{
    if i >= comps.len() {
        Some(g)
    } else {
        match child_of(g.children, comps[i]) {
            Some(ObjV::Group(c)) => locate_group_rel(c, comps, i + 1),
            _ => None,
        }
    }
}

/// `g` with the group at `comps[i..]` replaced by `newg` (unchanged when the
/// walk fails).
pub open spec fn update_rel(g: GroupV, comps: Seq<Seq<char>>, i: int, newg: GroupV) -> GroupV
    decreases comps.len() - i,
    when 0 <= i
{
    if i >= comps.len() {
        newg
    } else {
        let j = find_idx(g.children, comps[i]);
        if j >= 0 && g.children[j] is Group {
            GroupV {
                name: g.name,
                children: g.children.update(
                    j,
                    ObjV::Group(update_rel(g.children[j]->Group_0, comps, i + 1, newg)),
                ),
            }
        } else {
            g
        }
    }
}

/// Two children sequences with the same names at every index agree on
/// `find_idx`.
pub proof fn lemma_find_idx_same_names(a: Seq<ObjV>, b: Seq<ObjV>, m: Seq<char>)
    requires
        a.len() == b.len(),
        forall|k: int| 0 <= k < a.len() ==> (#[trigger] a[k]).name() == b[k].name(),
    ensures
        find_idx(a, m) == find_idx(b, m),
{
    lemma_find_idx(a, m);
    lemma_find_idx(b, m);
    let ra = find_idx(a, m);
    let rb = find_idx(b, m);
    if ra == -1 && rb >= 0 {
        assert(a[rb].name() == m);
    } else if rb == -1 && ra >= 0 {
        assert(b[ra].name() == m);
    } else if ra >= 0 && rb >= 0 {
        if ra < rb {
            assert(b[ra].name() == m);
        } else if rb < ra {
            assert(a[rb].name() == m);
        }
    }
}

/// After `upsert`, the inserted node is the child found under its name.
pub proof fn lemma_upsert_child_found(c: Seq<ObjV>, node: ObjV)
    ensures
        child_of(upsert(c, node), node.name()) == Some(node),
{
    let m = node.name();
    let j = find_idx(c, m);
    lemma_find_idx(c, m);
    if j >= 0 {
        lemma_find_idx(c.update(j, node), m);
        let r2 = find_idx(c.update(j, node), m);
        assert(c.update(j, node)[j].name() == m);
        if r2 < j {
            assert(c[r2].name() != m);
            assert(c.update(j, node)[r2] == c[r2]);
        }
    } else {
        lemma_find_idx(c.push(node), m);
        let r2 = find_idx(c.push(node), m);
        assert(c.push(node)[c.len() as int].name() == m);
        if 0 <= r2 < c.len() {
            assert(c.push(node)[r2] == c[r2]);
        }
    }
}

/// After `upsert`, children of other names are found as before.
pub proof fn lemma_upsert_child_other(c: Seq<ObjV>, node: ObjV, m: Seq<char>)
    requires
        m != node.name(),
    ensures
        child_of(upsert(c, node), m) == child_of(c, m),
{
    let j = find_idx(c, node.name());
    lemma_find_idx(c, node.name());
    lemma_find_idx(c, m);
    if j >= 0 {
        let c2 = c.update(j, node);
        assert forall|k: int| 0 <= k < c2.len() implies (#[trigger] c2[k]).name() == c[k].name()
            || (k == j && c2[k].name() == node.name()) by {}
        lemma_find_idx(c2, m);
        let r = find_idx(c, m);
        let r2 = find_idx(c2, m);
        if r >= 0 && (r2 == -1 || r2 > r) {
            assert(c2[r] == if r == j { node } else { c[r] });
            assert(r != j);
            assert(c2[r].name() == m);
        }
        if r2 >= 0 && (r == -1 || r > r2) {
            assert(c2[r2].name() == m);
            assert(r2 != j);
            assert(c[r2].name() == m);
        }
        if r >= 0 && r2 >= 0 && r == r2 {
            assert(c2[r2] == if r2 == j { node } else { c[r2] });
        }
    } else {
        let c2 = c.push(node);
        lemma_find_idx(c2, m);
        let r = find_idx(c, m);
        let r2 = find_idx(c2, m);
        if r >= 0 && (r2 == -1 || r2 > r) {
            assert(c2[r] == c[r]);
        }
        if r2 >= 0 && (r == -1 || r > r2) {
            if r2 < c.len() {
                assert(c[r2] == c2[r2]);
            } else {
                assert(c2[r2] == node);
            }
        }
        if r >= 0 && r2 == r {
            assert(c2[r] == c[r]);
        }
    }
}

/// Updating the group at a path and then walking the same path finds the
/// new group, provided the update keeps the group's own name.
pub proof fn lemma_update_then_locate(g: GroupV, comps: Seq<Seq<char>>, i: int, newg: GroupV)
    requires
        0 <= i,
        locate_group_rel(g, comps, i) is Some,
        newg.name == locate_group_rel(g, comps, i)->Some_0.name,
    ensures
        locate_group_rel(update_rel(g, comps, i, newg), comps, i) == Some(newg),
    decreases comps.len() - i,
{
    if i < comps.len() {
        let j = find_idx(g.children, comps[i]);
        lemma_find_idx(g.children, comps[i]);
        let c = g.children[j]->Group_0;
        lemma_update_then_locate(c, comps, i + 1, newg);
        let csub = update_rel(c, comps, i + 1, newg);
        let g2 = update_rel(g, comps, i, newg);
        assert(g2.children == g.children.update(j, ObjV::Group(csub)));
        assert(csub.name == c.name) by {
            if i + 1 >= comps.len() {
            }
        }
        assert forall|k: int|
            0 <= k < g2.children.len() implies (#[trigger] g2.children[k]).name()
            == g.children[k].name() by {
            if k != j {
                assert(g2.children[k] == g.children[k]);
            }
        }
        lemma_find_idx_same_names(g2.children, g.children, comps[i]);
        assert(g2.children[j] == ObjV::Group(csub));
    }
}

/// Walking a path extended by one component is walking the path and then
/// looking up the extra component.
pub proof fn lemma_locate_snoc(g: GroupV, comps: Seq<Seq<char>>, x: Seq<char>, i: int)
    requires
        0 <= i <= comps.len(),
    ensures
        locate_group_rel(g, comps.push(x), i) == (match locate_group_rel(g, comps, i) {
            Some(pg) => match child_of(pg.children, x) {
                Some(ObjV::Group(c)) => Some(c),
                _ => None::<GroupV>,
            },
            None => None::<GroupV>,
        }),
    decreases comps.len() - i,
{
    if i == comps.len() {
        assert(comps.push(x)[i] == x);
    } else {
        assert(comps.push(x)[i] == comps[i]);
        match child_of(g.children, comps[i]) {
            Some(c) => {
                if c is Group {
                    lemma_locate_snoc(c->Group_0, comps, x, i + 1);
                }
            },
            None => {},
        }
    }
}

/// A group-walk that succeeds also succeeds on the path less its last
/// component.
pub proof fn lemma_locate_drop_last(g: GroupV, comps: Seq<Seq<char>>, i: int)
    requires
        0 <= i <= comps.len() - 1,
        locate_group_rel(g, comps, i) is Some,
    ensures
        locate_group_rel(g, comps.drop_last(), i) is Some,
    decreases comps.len() - i,
{
    if i < comps.len() - 1 {
        assert(comps.drop_last()[i] == comps[i]);
        match child_of(g.children, comps[i]) {
            Some(c) => {
                if c is Group {
                    lemma_locate_drop_last(c->Group_0, comps, i + 1);
                }
            },
            None => {},
        }
    }
}

/// A group-walk that succeeds also succeeds on every prefix of the path.
pub proof fn lemma_locate_take(g: GroupV, comps: Seq<Seq<char>>, i: int, k: int)
    requires
        0 <= i <= k <= comps.len(),
        locate_group_rel(g, comps, i) is Some,
    ensures
        locate_group_rel(g, comps.take(k), i) is Some,
    decreases comps.len() - i,
{
    if i < k {
        assert(comps.take(k)[i] == comps[i]);
        match child_of(g.children, comps[i]) {
            Some(c) => {
                if c is Group {
                    lemma_locate_take(c->Group_0, comps, i + 1, k);
                }
            },
            None => {},
        }
    } else {
        assert(locate_group_rel(g, comps.take(k), i) is Some);
    }
}

/// The signature of a lookup result: whether a node was found, and for a
/// dataset which one; all that distinguishes declared node kinds.
pub open spec fn obj_sig(o: Option<ObjV>) -> Option<Option<DatasetV>> {
    match o {
        None => None,
        Some(ObjV::Group(_)) => Some(None),
        Some(ObjV::Dataset(d)) => Some(Some(d)),
    }
}

/// An object-walk over a non-empty path is a group-walk to the path's
/// parent followed by one child lookup.
pub proof fn lemma_locate_obj_last(g: GroupV, q: Seq<Seq<char>>, i: int)
    requires
        0 <= i < q.len(),
    ensures
        locate_obj(ObjV::Group(g), q, i) == (match locate_group_rel(
            g,
            q.take(q.len() - 1),
            i,
        ) {
            Some(pg) => child_of(pg.children, q.last()),
            None => None::<ObjV>,
        }),
    decreases q.len() - i,
{
    if i == q.len() - 1 {
        assert(locate_group_rel(g, q.take(q.len() - 1), i) == Some(g));
        match child_of(g.children, q[i]) {
            Some(c) => {
                assert(locate_obj(ObjV::Group(g), q, i) == locate_obj(c, q, i + 1));
            },
            None => {},
        }
    } else {
        assert(q.take(q.len() - 1)[i] == q[i]);
        match child_of(g.children, q[i]) {
            Some(c) => {
                if c is Group {
                    lemma_locate_obj_last(c->Group_0, q, i + 1);
                } else {
                    assert(locate_obj(c, q, i + 1) is None);
                }
            },
            None => {},
        }
    }
}

/// Where an insert lands and what it leaves alone: after inserting a fresh
/// child `node` into the group at `base[i..]`, the path `base[i..] + [name]`
/// finds exactly `node`, and every other walk finds a node of the same
/// signature as before (datasets exactly as they were).
pub proof fn lemma_insert_at_locate_all(
    root: GroupV,
    base: Seq<Seq<char>>,
    i: int,
    node: ObjV,
    q: Seq<Seq<char>>,
)
    requires
        0 <= i <= base.len(),
        i <= q.len(),
        locate_group_rel(root, base, i) is Some,
        find_idx(locate_group_rel(root, base, i)->Some_0.children, node.name()) == -1,
        node matches ObjV::Group(ng) ==> ng.children.len() == 0,
    ensures
        ({
            let g = locate_group_rel(root, base, i)->Some_0;
            let root2 = update_rel(
                root,
                base,
                i,
                GroupV { name: g.name, children: upsert(g.children, node) },
            );
            let is_new_path = q.len() == base.len() + 1 && (forall|m: int|
                i <= m < base.len() ==> q[m] == base[m]) && q.last() == node.name();
            &&& is_new_path ==> locate_obj(ObjV::Group(root2), q, i) == Some(node)
            &&& !is_new_path ==> obj_sig(locate_obj(ObjV::Group(root2), q, i)) == obj_sig(
                locate_obj(ObjV::Group(root), q, i),
            )
        }),
    decreases base.len() - i,
{
    let g = locate_group_rel(root, base, i)->Some_0;
    let newg = GroupV { name: g.name, children: upsert(g.children, node) };
    let root2 = update_rel(root, base, i, newg);
    lemma_find_idx(g.children, node.name());
    if i == base.len() {
        // The insertion happens right here: root2 == newg.
        assert(root2 == newg);
        assert(g == root);
        if i == q.len() {
            // q ends at the modified group itself: still a group.
            assert(locate_obj(ObjV::Group(root2), q, i) == Some(ObjV::Group(root2)));
        } else {
            lemma_find_idx(root.children, q[i]);
            lemma_find_idx(newg.children, q[i]);
            if q[i] == node.name() {
                lemma_upsert_child_found(root.children, node);
                assert(child_of(root.children, q[i]) is None);
                if i == q.len() - 1 {
                    assert(locate_obj(ObjV::Group(root2), q, i) == locate_obj(node, q, i + 1));
                    assert(locate_obj(ObjV::Group(root2), q, i) == Some(node));
                } else {
                    // A longer path through the fresh leafless node fails
                    // now as it failed before.
                    assert(locate_obj(ObjV::Group(root2), q, i) == locate_obj(node, q, i + 1));
                    match node {
                        ObjV::Group(ng) => {
                            assert(locate_obj(node, q, i + 1) is None);
                        },
                        ObjV::Dataset(_) => {
                            assert(locate_obj(node, q, i + 1) is None);
                        },
                    }
                }
            } else {
                lemma_upsert_child_other(root.children, node, q[i]);
                match child_of(root.children, q[i]) {
                    Some(c) => {
                        assert(child_of(newg.children, q[i]) == Some(c));
                        assert(locate_obj(ObjV::Group(root2), q, i) == locate_obj(c, q, i + 1));
                        assert(locate_obj(ObjV::Group(root), q, i) == locate_obj(c, q, i + 1));
                    },
                    None => {},
                }
            }
        }
    } else {
        let j = find_idx(root.children, base[i]);
        lemma_find_idx(root.children, base[i]);
        let c = root.children[j]->Group_0;
        let csub = update_rel(c, base, i + 1, newg);
        assert(root2.children == root.children.update(j, ObjV::Group(csub)));
        assert(csub.name == c.name) by {
            if i + 1 == base.len() {
                assert(locate_group_rel(c, base, i + 1) == Some(c));
            }
        }
        assert forall|m: int|
            0 <= m < root2.children.len() implies (#[trigger] root2.children[m]).name()
            == root.children[m].name() by {
            if m != j {
                assert(root2.children[m] == root.children[m]);
            }
        }
        if i == q.len() {
            assert(locate_obj(ObjV::Group(root2), q, i) == Some(ObjV::Group(root2)));
        } else {
            lemma_find_idx_same_names(root2.children, root.children, q[i]);
            let jq = find_idx(root.children, q[i]);
            lemma_find_idx(root.children, q[i]);
            if jq < 0 {
                assert(child_of(root2.children, q[i]) is None);
            } else if jq != j {
                assert(root2.children[jq] == root.children[jq]);
                assert(child_of(root2.children, q[i]) == child_of(root.children, q[i]));
            } else {
                // The walk follows the updated child.
                assert(q[i] == base[i]);
                assert(child_of(root.children, q[i]) == Some(ObjV::Group(c)));
                assert(child_of(root2.children, q[i]) == Some(ObjV::Group(csub)));
                lemma_insert_at_locate_all(c, base, i + 1, node, q);
            }
        }
    }
}

/// Well-formedness of a node: within every group the child names are
/// unique, so each child is found under exactly its own name.
pub open spec fn wf_obj(node: ObjV) -> bool
    decreases node,
{
    match node {
        ObjV::Dataset(_) => true,
        ObjV::Group(g) => {
            &&& forall|a: int, b: int|
                0 <= a < b < g.children.len() ==> (#[trigger] g.children[a]).name() != (
                #[trigger] g.children[b]).name()
            &&& forall|a: int| 0 <= a < g.children.len() ==> wf_obj(#[trigger] g.children[a])
        },
    }
}

/// `upsert` keeps child names unique.
pub proof fn lemma_upsert_names_unique(c: Seq<ObjV>, node: ObjV)
    requires
        forall|a: int, b: int|
            0 <= a < b < c.len() ==> (#[trigger] c[a]).name() != (#[trigger] c[b]).name(),
    ensures
        forall|a: int, b: int|
            0 <= a < b < upsert(c, node).len() ==> (#[trigger] upsert(c, node)[a]).name() != (
            #[trigger] upsert(c, node)[b]).name(),
{
    let j = find_idx(c, node.name());
    lemma_find_idx(c, node.name());
    let c2 = upsert(c, node);
    assert forall|a: int, b: int|
        0 <= a < b < c2.len() implies (#[trigger] c2[a]).name() != (#[trigger] c2[b]).name() by {
        if j >= 0 {
            if a != j {
                assert(c2[a] == c[a]);
            }
            if b != j {
                assert(c2[b] == c[b]);
            }
            if a == j {
                assert(c2[a].name() == c[j].name());
            }
            if b == j {
                assert(c2[b].name() == c[j].name());
            }
        } else {
            if b < c.len() {
                assert(c2[a] == c[a]);
                assert(c2[b] == c[b]);
            } else {
                assert(c2[a] == c[a]);
                assert(c2[b] == node);
            }
        }
    }
}

/// Inserting a well-formed node into the group at a path keeps the whole
/// tree well-formed.
pub proof fn lemma_insert_at_wf(root: GroupV, comps: Seq<Seq<char>>, i: int, node: ObjV)
    requires
        0 <= i,
        wf_obj(ObjV::Group(root)),
        wf_obj(node),
        locate_group_rel(root, comps, i) is Some,
    ensures
        ({
            let g = locate_group_rel(root, comps, i)->Some_0;
            wf_obj(
                ObjV::Group(
                    update_rel(
                        root,
                        comps,
                        i,
                        GroupV { name: g.name, children: upsert(g.children, node) },
                    ),
                ),
            )
        }),
    decreases comps.len() - i,
{
    let g = locate_group_rel(root, comps, i)->Some_0;
    let newg = GroupV { name: g.name, children: upsert(g.children, node) };
    // Lets the well-formedness hypothesis unfold onto `root`'s children.
    assert(ObjV::Group(root)->Group_0 == root);
    if i >= comps.len() {
        lemma_upsert_names_unique(root.children, node);
        lemma_find_idx(root.children, node.name());
        let c2 = upsert(root.children, node);
        assert forall|a: int| 0 <= a < c2.len() implies wf_obj(#[trigger] c2[a]) by {
            let j = find_idx(root.children, node.name());
            if j >= 0 {
                if a != j {
                    assert(c2[a] == root.children[a]);
                } else {
                    assert(c2[a] == node);
                }
            } else {
                if a < root.children.len() {
                    assert(c2[a] == root.children[a]);
                } else {
                    assert(c2[a] == node);
                }
            }
        }
    } else {
        let j = find_idx(root.children, comps[i]);
        lemma_find_idx(root.children, comps[i]);
        let c = root.children[j]->Group_0;
        assert(wf_obj(root.children[j]));
        lemma_insert_at_wf(c, comps, i + 1, node);
        let csub = update_rel(c, comps, i + 1, newg);
        assert(csub.name == c.name) by {
            if i + 1 == comps.len() {
                assert(locate_group_rel(c, comps, i + 1) == Some(c));
            }
        }
        let root2 = update_rel(root, comps, i, newg);
        assert(root2.children == root.children.update(j, ObjV::Group(csub)));
        assert forall|a: int, b: int|
            0 <= a < b < root2.children.len() implies (#[trigger] root2.children[a]).name()
            != (#[trigger] root2.children[b]).name() by {
            if a != j {
                assert(root2.children[a] == root.children[a]);
            } else {
                assert(root2.children[a].name() == root.children[j].name());
            }
            if b != j {
                assert(root2.children[b] == root.children[b]);
            } else {
                assert(root2.children[b].name() == root.children[j].name());
            }
        }
        assert forall|a: int| 0 <= a < root2.children.len() implies wf_obj(
            #[trigger] root2.children[a],
        ) by {
            if a != j {
                assert(root2.children[a] == root.children[a]);
            }
        }
    }
}

/// Resolution of a path against a group, with the root-skip rule: an
/// absolute path may only be traced from the root group.
pub open spec fn spec_resolve_group(g: GroupV, p: PathV) -> Result<GroupV, H5Error> {
    if p.absolute && g.name != "/"@ {
        Err(H5Error::InvalidOperation)
    } else {
        match locate_group_rel(g, p.comps, 0) {
            Some(r) => Ok(r),
            None => Err(H5Error::NotFound),
        }
    }
}

/// Resolution of a path against a node, with the root-skip rule.
pub open spec fn spec_resolve_obj(node: ObjV, p: PathV) -> Result<ObjV, H5Error> {
    if p.absolute && node.name() != "/"@ {
        Err(H5Error::InvalidOperation)
    } else {
        match locate_obj(node, p.comps, 0) {
            Some(r) => Ok(r),
            None => Err(H5Error::NotFound),
        }
    }
}

/// A group: an interior node of the archive tree.
#[derive(Debug)]
pub struct H5Group {
    pub name: String,
    pub children: Vec<H5Obj>,
}

/// A dataset: a leaf describing a multi-dimensional array's shape.
#[derive(Debug)]
pub struct H5Dataset {
    pub name: String,
    pub shape: Vec<usize>,
}

/// A node of the archive tree.
#[derive(Debug)]
pub enum H5Obj {
    Group(H5Group),
    Dataset(H5Dataset),
}

/// The value of a node.
pub open spec fn view_obj(node: H5Obj) -> ObjV
    decreases node,
{
    match node {
        H5Obj::Group(g) => ObjV::Group(
            GroupV { name: g.name@, children: view_children(g.children@) },
        ),
        H5Obj::Dataset(d) => ObjV::Dataset(DatasetV { name: d.name@, shape: d.shape@ }),
    }
}

/// The values of a sequence of nodes.
pub open spec fn view_children(s: Seq<H5Obj>) -> Seq<ObjV>
    decreases s,
{
    if s.len() == 0 {
        Seq::empty()
    } else {
        view_children(s.drop_last()).push(view_obj(s.last()))
    }
}

pub broadcast proof fn lemma_view_children_len(s: Seq<H5Obj>)
    ensures
        #[trigger] view_children(s).len() == s.len(),
    decreases s,
{
    if s.len() > 0 {
        lemma_view_children_len(s.drop_last());
    }
}

pub broadcast proof fn lemma_view_children_index(s: Seq<H5Obj>, i: int)
    requires
        0 <= i < s.len(),
    ensures
        #[trigger] view_children(s)[i] == view_obj(s[i]),
    decreases s,
{
    lemma_view_children_len(s);
    if s.len() > 0 && i < s.len() - 1 {
        lemma_view_children_index(s.drop_last(), i);
    }
}

pub broadcast proof fn lemma_view_children_push(s: Seq<H5Obj>, node: H5Obj)
    ensures
        #[trigger] view_children(s.push(node)) == view_children(s).push(view_obj(node)),
{
    assert(s.push(node).drop_last() =~= s);
    assert(s.push(node).last() == node);
}

pub broadcast proof fn lemma_view_children_update(s: Seq<H5Obj>, j: int, node: H5Obj)
    requires
        0 <= j < s.len(),
    ensures
        #[trigger] view_children(s.update(j, node)) == view_children(s).update(
            j,
            view_obj(node),
        ),
{
    broadcast use lemma_view_children_len, lemma_view_children_index;

    assert forall|k: int| 0 <= k < s.len() implies view_children(s.update(j, node))[k]
        == view_children(s).update(j, view_obj(node))[k] by {
        if k == j {
            assert(s.update(j, node)[k] == node);
        } else {
            assert(s.update(j, node)[k] == s[k]);
        }
    }
    assert(view_children(s.update(j, node)) =~= view_children(s).update(j, view_obj(node)));
}

pub broadcast group group_tree_view {
    lemma_view_children_len,
    lemma_view_children_index,
    lemma_view_children_push,
    lemma_view_children_update,
}

impl View for H5Obj {
    type V = ObjV;

    open spec fn view(&self) -> ObjV {
        view_obj(*self)
    }
}

impl View for H5Group {
    type V = GroupV;

    open spec fn view(&self) -> GroupV {
        GroupV { name: self.name@, children: view_children(self.children@) }
    }
}

impl View for H5Dataset {
    type V = DatasetV;

    open spec fn view(&self) -> DatasetV {
        DatasetV { name: self.name@, shape: self.shape@ }
    }
}

/// Whether `spec_is_group` holds: the path is empty, or it resolves from
/// `g` (under the root-skip rule) to a parent group holding a group child of
/// the final name.
pub open spec fn spec_is_group(g: GroupV, p: PathV) -> bool {
    if p.comps.len() == 0 {
        true
    } else if p.absolute && g.name != "/"@ {
        false
    } else {
        match locate_group_rel(g, p.comps.take(p.comps.len() - 1), 0) {
            Some(pg) => match child_of(pg.children, p.comps.last()) {
                Some(ObjV::Group(_)) => true,
                _ => false,
            },
            None => false,
        }
    }
}

impl H5Obj {
    /// The name of the node.
    pub fn name(&self) -> (r: &str)
        ensures
            r@ == self@.name(),
    {
        match self {
            H5Obj::Group(g) => g.name.as_str(),
            H5Obj::Dataset(d) => d.name.as_str(),
        }
    }

    /// Walks `comps[i..]` from this node.
    fn locate_from<'a>(&'a self, comps: &Vec<String>, i: usize) -> (r: Result<
        &'a H5Obj,
        H5Error,
    >)
        requires
            i <= comps@.len(),
        ensures
            match locate_obj(self@, names_of(comps@), i as int) {
                Some(v) => r matches Ok(o) && o@ == v,
                None => r == Err::<&'a H5Obj, H5Error>(H5Error::NotFound),
            },
        decreases comps@.len() - i,
    {
        broadcast use group_names_of;

        if i == comps.len() {
            return Ok(self);
        }
        match self {
            H5Obj::Dataset(_) => Err(H5Error::NotFound),
            H5Obj::Group(g) => {
                let jo = g.child_index(comps[i].as_str());
                proof {
                    lemma_find_idx(g@.children, names_of(comps@)[i as int]);
                    lemma_view_children_len(g.children@);
                }
                match jo {
                    Some(j) => {
                        proof {
                            lemma_view_children_index(g.children@, j as int);
                        }
                        g.children[j].locate_from(comps, i + 1)
                    },
                    None => Err(H5Error::NotFound),
                }
            },
        }
    }

    /// Resolves `path` from this node: absolute paths only from the root
    /// node, then a component-wise walk through groups; the final node may
    /// be of either kind.
    pub fn locate<'a>(&'a self, path: &H5Path) -> (r: Result<&'a H5Obj, H5Error>)
        ensures
            match spec_resolve_obj(self@, path@) {
                Ok(v) => r matches Ok(o) && o@ == v,
                Err(e) => r == Err::<&'a H5Obj, H5Error>(e),
            },
    {
        if path.absolute && !str_eq(self.name(), "/") {
            return Err(H5Error::InvalidOperation);
        }
        self.locate_from(&path.comps, 0)
    }

    /// Resolves `path` like `locate`, but answers only when the node found
    /// is a group.
    pub fn locate_group<'a>(&'a self, path: &H5Path) -> (r: Option<&'a H5Group>)
        ensures
            match spec_resolve_obj(self@, path@) {
                Ok(v) => if v is Group {
                    r matches Some(g) && g@ == v->Group_0
                } else {
                    r is None
                },
                Err(_) => r is None,
            },
    {
        match self.locate(path) {
            Ok(o) => match o {
                H5Obj::Group(g) => Some(g),
                H5Obj::Dataset(_) => None,
            },
            Err(_) => None,
        }
    }

    /// Whether the node is a group.
    pub fn is_group(&self) -> (r: bool)
        ensures
            r == (self@ is Group),
    {
        match self {
            H5Obj::Group(_) => true,
            H5Obj::Dataset(_) => false,
        }
    }

    /// Whether the node is a dataset.
    pub fn is_dataset(&self) -> (r: bool)
        ensures
            r == (self@ is Dataset),
    {
        match self {
            H5Obj::Group(_) => false,
            H5Obj::Dataset(_) => true,
        }
    }
}

impl H5Group {
    /// An empty group of the given name.
    pub fn new(name: String) -> (r: H5Group)
        ensures
            r@ == (GroupV { name: name@, children: Seq::empty() }),
    {
        let r = H5Group { name, children: Vec::new() };
        proof {
            assert(r@ =~~= (GroupV { name: r.name@, children: Seq::empty() }));
        }
        r
    }

    /// The index of the child called `name`, or nothing.
    pub fn child_index(&self, name: &str) -> (r: Option<usize>)
        ensures
            ({
                let j = find_idx(self@.children, name@);
                &&& r matches Some(u) ==> j == u as int
                &&& r is None ==> j < 0
            }),
    {
        let n = self.children.len();
        proof {
            lemma_view_children_len(self.children@);
        }
        let mut i: usize = 0;
        while i < n
            invariant
                0 <= i <= n,
                n == self.children@.len(),
                view_children(self.children@).len() == n,
                forall|k: int| 0 <= k < i ==> view_children(self.children@)[k].name() != name@,
            decreases n - i,
        {
            proof {
                lemma_view_children_index(self.children@, i as int);
            }
            let cn = match &self.children[i] {
                H5Obj::Group(g) => g.name.as_str(),
                H5Obj::Dataset(d) => d.name.as_str(),
            };
            if str_eq(cn, name) {
                proof {
                    lemma_find_idx(self@.children, name@);
                }
                return Some(i);
            }
            i = i + 1;
        }
        proof {
            lemma_find_idx(self@.children, name@);
        }
        None
    }

    /// Inserts `node` among the children, replacing a child of the same name
    /// if one exists.
    pub fn insert_child(&mut self, node: H5Obj)
        ensures
            final(self)@.name == old(self)@.name,
            final(self)@.children == upsert(old(self)@.children, node@),
    {
        broadcast use group_tree_view;

        proof {
            lemma_find_idx(old(self)@.children, node@.name());
        }
        let jo = self.child_index(node.name());
        match jo {
            Some(j) => {
                self.children.set(j, node);
            },
            None => {
                self.children.push(node);
            },
        }
    }

    /// Walks `comps[i..to]` from this group, through groups only.
    fn locate_group_from<'a>(&'a self, comps: &Vec<String>, i: usize, to: usize) -> (r: Result<
        &'a H5Group,
        H5Error,
    >)
        requires
            i <= to <= comps@.len(),
        ensures
            match locate_group_rel(self@, names_of(comps@).take(to as int), i as int) {
                Some(v) => r matches Ok(g) && g@ == v,
                None => r == Err::<&'a H5Group, H5Error>(H5Error::NotFound),
            },
        decreases to - i,
    {
        broadcast use group_names_of;

        if i == to {
            return Ok(self);
        }
        let jo = self.child_index(comps[i].as_str());
        proof {
            lemma_find_idx(self@.children, names_of(comps@).take(to as int)[i as int]);
            lemma_view_children_len(self.children@);
        }
        match jo {
            Some(j) => {
                proof {
                    lemma_view_children_index(self.children@, j as int);
                }
                match &self.children[j] {
                    H5Obj::Group(g) => g.locate_group_from(comps, i + 1, to),
                    H5Obj::Dataset(_) => Err(H5Error::NotFound),
                }
            },
            None => Err(H5Error::NotFound),
        }
    }

    /// Resolves `path` to a group: absolute paths only from the root group,
    /// then a component-wise walk in which every node reached must be a
    /// group.
    pub fn locate_group<'a>(&'a self, path: &H5Path) -> (r: Result<&'a H5Group, H5Error>)
        ensures
            match spec_resolve_group(self@, path@) {
                Ok(v) => r matches Ok(g) && g@ == v,
                Err(e) => r == Err::<&'a H5Group, H5Error>(e),
            },
    {
        if path.absolute && !str_eq(self.name.as_str(), "/") {
            return Err(H5Error::InvalidOperation);
        }
        proof {
            assert(names_of(path.comps@).take(path.comps@.len() as int) =~= names_of(
                path.comps@,
            ));
        }
        self.locate_group_from(&path.comps, 0, path.comps.len())
    }

    /// Walks `comps[i..]` from this group for mutation.
    fn locate_group_mut_from<'a>(&'a mut self, comps: &Vec<String>, i: usize) -> (r:
        &'a mut H5Group)
        requires
            i <= comps@.len(),
            locate_group_rel(old(self)@, names_of(comps@), i as int) is Some,
        ensures
            Some((*r)@) == locate_group_rel(old(self)@, names_of(comps@), i as int),
            final(self)@ == update_rel(old(self)@, names_of(comps@), i as int, final(r)@),
        decreases comps@.len() - i,
    {
        broadcast use group_names_of, group_tree_view;

        if i == comps.len() {
            return self;
        }
        let jo = self.child_index(comps[i].as_str());
        proof {
            lemma_find_idx(old(self)@.children, names_of(comps@)[i as int]);
            lemma_view_children_len(self.children@);
        }
        let j = match jo {
            Some(j) => j,
            None => {
                proof {
                    assert(false);
                }
                0
            },
        };
        proof {
            lemma_view_children_index(self.children@, j as int);
        }
        match &mut self.children[j] {
            H5Obj::Group(g) => g.locate_group_mut_from(comps, i + 1),
            H5Obj::Dataset(_) => vstd::pervasive::unreached(),
        }
    }

    /// Resolves `path` to a group for mutation: the path must resolve (test
    /// with `locate_group` first). After the borrow expires the tree is the
    /// old tree with the located subtree replaced by whatever the caller
    /// left behind.
    pub fn locate_group_mut<'a>(&'a mut self, path: &H5Path) -> (r: &'a mut H5Group)
        requires
            spec_resolve_group(old(self)@, path@) is Ok,
        ensures
            Some((*r)@) == locate_group_rel(old(self)@, path@.comps, 0),
            final(self)@ == update_rel(old(self)@, path@.comps, 0, final(r)@),
    {
        self.locate_group_mut_from(&path.comps, 0)
    }

    /// True when `path` is the root path or resolves from this group to a
    /// group.
    pub fn is_group(&self, path: &H5Path) -> (r: bool)
        ensures
            r == spec_is_group(self@, path@),
    {
        broadcast use group_names_of;

        let n = path.depth();
        if n == 0 {
            return true;
        }
        if path.absolute && !str_eq(self.name.as_str(), "/") {
            return false;
        }
        match self.locate_group_from(&path.comps, 0, n - 1) {
            Ok(pg) => {
                let jo = pg.child_index(path.comps[n - 1].as_str());
                proof {
                    lemma_find_idx(pg@.children, path@.comps.last());
                    lemma_view_children_len(pg.children@);
                }
                match jo {
                    Some(j) => {
                        proof {
                            lemma_view_children_index(pg.children@, j as int);
                        }
                        match &pg.children[j] {
                            H5Obj::Group(_) => true,
                            H5Obj::Dataset(_) => false,
                        }
                    },
                    None => false,
                }
            },
            Err(_) => false,
        }
    }
}

impl H5Dataset {
    /// The short textual tag of the dataset's kind.
    pub fn format(&self) -> (r: String)
        ensures
            r@ == spec_kind_tag(spec_classify(self@.shape)),
    {
        String::from_str(kind_tag(classify(&self.shape)))
    }

    /// The display resolution derived from the shape, when its rank allows
    /// one (rank 2 to 4).
    pub fn resolution(&self) -> (r: Option<Resolution>)
        ensures
            r == spec_resolution(self@.shape),
    {
        let d = self.shape.len();
        if d >= 2 && d <= 3 {
            Some(Resolution { width: self.shape[d - 1], height: self.shape[d - 2] })
        } else if d == 4 {
            Some(Resolution { width: self.shape[d - 2], height: self.shape[d - 3] })
        } else {
            None
        }
    }

    /// The resolution under the single-image (height, width, channels?)
    /// convention.
    pub fn resolution_single_image(&self) -> (r: Option<Resolution>)
        ensures
            r == spec_resolution_single(self@.shape),
    {
        let d = self.shape.len();
        if d >= 2 && d <= 3 {
            Some(Resolution { width: self.shape[1], height: self.shape[0] })
        } else {
            None
        }
    }

    /// The resolution under the batch (batch, height, width, channels?)
    /// convention.
    pub fn resolution_batch_images(&self) -> (r: Option<Resolution>)
        ensures
            r == spec_resolution_batch(self@.shape),
    {
        let d = self.shape.len();
        if d >= 3 && d <= 4 {
            Some(Resolution { width: self.shape[2], height: self.shape[1] })
        } else {
            None
        }
    }

    /// The leading batch count, for batch-shaped datasets: the pagination
    /// upper bound.
    pub fn batch_count(&self) -> (r: Option<usize>)
        ensures
            r == spec_batch_count(self@.shape),
    {
        let d = self.shape.len();
        if d >= 3 && d <= 4 {
            Some(self.shape[0])
        } else {
            None
        }
    }
}

} // verus!
