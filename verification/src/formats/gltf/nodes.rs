//! The scene nodes that a glTF node tree becomes.
//!
//! A glTF node becomes one scene node carrying its transform; a node whose
//! mesh has several primitives becomes a node with one child per primitive.
//! Transforms are floating point and stay with the caller: each placed node
//! names the glTF node whose transform it carries.

use vstd::prelude::*;
use crate::error::{is_invalid_data, IoError, IoResult};
use crate::text::{decimal, push_decimal, with_decimal};

verus! {

/// What the tree conversion reads of a glTF node.
pub struct NodeLinks {
    /// The node's name, if it has one.
    pub name: Option<String>,
    /// The index of the node's mesh, if it has one.
    pub mesh: Option<usize>,
    /// The indices of the node's children, in order.
    pub children: Vec<usize>,
}

/// A scene node produced from a glTF node tree.
pub struct PlacedNode {
    /// The glTF node whose transform this node carries; `None` for the
    /// node of one primitive under a node with several primitives.
    pub source: Option<usize>,
    /// The node's name.
    pub name: String,
    /// The geometry the node shows, if any.
    pub geometry: Option<usize>,
    /// The node's material, if any.
    pub material: Option<usize>,
    /// The position of the node's parent in the produced list; `None` for
    /// the node of the tree's root.
    pub parent: Option<usize>,
}

/// The content of a [`PlacedNode`].
pub struct PlacedModel {
    pub source: Option<usize>,
    pub name: Seq<char>,
    pub geometry: Option<usize>,
    pub material: Option<usize>,
    pub parent: Option<usize>,
}

impl PlacedNode {
    /// The node's content, with its name as characters.
    pub open spec fn model(self) -> PlacedModel {
        PlacedModel {
            source: self.source,
            name: self.name@,
            geometry: self.geometry,
            material: self.material,
            parent: self.parent,
        }
    }
}

/// The contents of a list of placed nodes.
pub open spec fn placed_models(s: Seq<PlacedNode>) -> Seq<PlacedModel> {
    s.map_values(|p: PlacedNode| p.model())
}

/// What converting a node tree comes to: the placed nodes, or the first
/// node index met in depth-first order that names no node, or a node met
/// again below itself (a cycle, which has no finite tree).
pub enum TreeOutcome {
    Placed(Seq<PlacedModel>),
    Invalid(nat),
    Cyclic(nat),
}

/// The name of glTF node `i`: its own, or `node_` and its index.
pub open spec fn node_label(nodes: Seq<NodeLinks>, i: int) -> Seq<char> {
    match nodes[i].name {
        Some(s) => s@,
        None => "node_"@ + decimal(i as nat),
    }
}

/// The nodes that glTF node `i` itself becomes when it is placed at
/// position `p` under `parent`: one node with its mesh's only primitive;
/// one node with a child per primitive for a mesh of several (or none);
/// one empty node without a mesh or with an unknown one.
pub open spec fn own_nodes(
    nodes: Seq<NodeLinks>,
    prims: Seq<Vec<(usize, Option<usize>)>>,
    i: int,
    p: nat,
    parent: Option<usize>,
) -> Seq<PlacedModel> {
    let name = node_label(nodes, i);
    let bare = PlacedModel {
        source: Some(i as usize),
        name,
        geometry: None,
        material: None,
        parent,
    };
    match nodes[i].mesh {
        Some(m) => if m < prims.len() {
            let ps = prims[m as int]@;
            if ps.len() == 1 {
                seq![PlacedModel { geometry: Some(ps[0].0), material: ps[0].1, ..bare }]
            } else {
                seq![bare] + Seq::new(
                    ps.len(),
                    |k: int|
                        PlacedModel {
                            source: None,
                            name: name + "_primitive_"@ + decimal(k as nat),
                            geometry: Some(ps[k].0),
                            material: ps[k].1,
                            parent: Some(p as usize),
                        },
                )
            }
        } else {
            seq![bare]
        },
        None => seq![bare],
    }
}

/// The conversion of glTF node `i` placed at position `p` under `parent`,
/// with `fuel` levels of nesting left before a cycle is declared.
pub open spec fn node_outcome(
    nodes: Seq<NodeLinks>,
    prims: Seq<Vec<(usize, Option<usize>)>>,
    i: nat,
    parent: Option<usize>,
    p: nat,
    fuel: nat,
) -> TreeOutcome
    decreases fuel, 0nat,
{
    if i >= nodes.len() {
        TreeOutcome::Invalid(i)
    } else if fuel == 0 {
        TreeOutcome::Cyclic(i)
    } else {
        let head = own_nodes(nodes, prims, i as int, p, parent);
        match children_outcome(
            nodes,
            prims,
            nodes[i as int].children@,
            0,
            p,
            p + head.len(),
            (fuel - 1) as nat,
        ) {
            TreeOutcome::Placed(rest) => TreeOutcome::Placed(head + rest),
            other => other,
        }
    }
}

/// The conversion of the children `cs[k..]` under the node at position
/// `parent`, placed from position `p` on.
pub open spec fn children_outcome(
    nodes: Seq<NodeLinks>,
    prims: Seq<Vec<(usize, Option<usize>)>>,
    cs: Seq<usize>,
    k: nat,
    parent: nat,
    p: nat,
    fuel: nat,
) -> TreeOutcome
    decreases fuel, cs.len() - k,
{
    if k >= cs.len() {
        TreeOutcome::Placed(Seq::empty())
    } else {
        match node_outcome(nodes, prims, cs[k as int] as nat, Some(parent as usize), p, fuel) {
            TreeOutcome::Placed(a) => match children_outcome(
                nodes,
                prims,
                cs,
                k + 1,
                parent,
                p + a.len(),
                fuel,
            ) {
                TreeOutcome::Placed(b) => TreeOutcome::Placed(a + b),
                other => other,
            },
            other => other,
        }
    }
}

/// The conversion of the tree under glTF node `root`. A tree can nest no
/// deeper than there are nodes; going deeper means a node lies below
/// itself.
pub open spec fn tree_outcome(
    nodes: Seq<NodeLinks>,
    prims: Seq<Vec<(usize, Option<usize>)>>,
    root: nat,
) -> TreeOutcome {
    node_outcome(nodes, prims, root, None, 0, nodes.len())
}

/// The result that a conversion outcome is returned as.
pub open spec fn outcome_result<T>(o: TreeOutcome, r: IoResult<T>) -> bool {
    match o {
        TreeOutcome::Placed(_) => r is Ok,
        TreeOutcome::Invalid(k) => r is Err && is_invalid_data(r->Err_0, "invalid node "@ + decimal(k)),
        TreeOutcome::Cyclic(k) => r is Err && is_invalid_data(r->Err_0, "cyclic node "@ + decimal(k)),
    }
}

/// The name of glTF node `i`.
fn label_of(nodes: &[NodeLinks], i: usize) -> (r: String)
    requires
        i < nodes@.len(),
    ensures
        r@ == node_label(nodes@, i as int),
{
    match &nodes[i].name {
        Some(s) => s.clone(),
        None => with_decimal("node_", i as u64),
    }
}

/// Append the nodes that glTF node `i` itself becomes.
fn push_own_nodes(
    nodes: &[NodeLinks],
    prims: &[Vec<(usize, Option<usize>)>],
    i: usize,
    parent: Option<usize>,
    out: &mut Vec<PlacedNode>,
)
    requires
        i < nodes@.len(),
    ensures
        placed_models(final(out)@) == placed_models(old(out)@) + own_nodes(
            nodes@,
            prims@,
            i as int,
            old(out)@.len(),
            parent,
        ),
{
    let ghost before = placed_models(out@);
    let p = out.len();
    let name = label_of(nodes, i);
    let mut single: Option<(usize, Option<usize>)> = None;
    let mut many: Option<&Vec<(usize, Option<usize>)>> = None;
    if let Some(m) = nodes[i].mesh {
        if m < prims.len() {
            if prims[m].len() == 1 {
                single = Some(prims[m][0]);
            } else {
                many = Some(&prims[m]);
            }
        }
    }
    match single {
        Some((g, mat)) => {
            out.push(
                PlacedNode {
                    source: Some(i),
                    name,
                    geometry: Some(g),
                    material: mat,
                    parent,
                },
            );
            proof {
                assert(placed_models(out@) =~= before + own_nodes(nodes@, prims@, i as int, p as nat, parent));
            }
        },
        None => {
            let prefix = name.clone();
            out.push(
                PlacedNode { source: Some(i), name, geometry: None, material: None, parent },
            );
            proof {
                assert(placed_models(out@) =~= before + seq![
                    PlacedModel {
                        source: Some(i),
                        name: node_label(nodes@, i as int),
                        geometry: None,
                        material: None,
                        parent,
                    },
                ]);
            }
            if let Some(ps) = many {
                let ghost head = placed_models(out@);
                let mut k: usize = 0;
                while k < ps.len()
                    invariant
                        k <= ps@.len(),
                        prefix@ == node_label(nodes@, i as int),
                        p < out@.len(),
                        placed_models(out@) == head + Seq::new(
                            k as nat,
                            |j: int|
                                PlacedModel {
                                    source: None,
                                    name: prefix@ + "_primitive_"@ + decimal(j as nat),
                                    geometry: Some(ps@[j].0),
                                    material: ps@[j].1,
                                    parent: Some(p),
                                },
                        ),
                    decreases ps@.len() - k,
                {
                    let mut child_name = prefix.clone();
                    child_name.append("_primitive_");
                    push_decimal(&mut child_name, k as u64);
                    let ghost old_models = placed_models(out@);
                    out.push(
                        PlacedNode {
                            source: None,
                            name: child_name,
                            geometry: Some(ps[k].0),
                            material: ps[k].1,
                            parent: Some(p),
                        },
                    );
                    proof {
                        assert(placed_models(out@) =~= old_models.push(
                            PlacedModel {
                                source: None,
                                name: prefix@ + "_primitive_"@ + decimal(k as nat),
                                geometry: Some(ps@[k as int].0),
                                material: ps@[k as int].1,
                                parent: Some(p),
                            },
                        ));
                    }
                    k += 1;
                }
                proof {
                    assert(placed_models(out@) =~= before + own_nodes(nodes@, prims@, i as int, p as nat, parent));
                }
            } else {
                proof {
                    assert(placed_models(out@) =~= before + own_nodes(nodes@, prims@, i as int, p as nat, parent));
                }
            }
        },
    }
}

/// Place glTF node `i` and the tree below it under `parent`, appending to
/// `out`, with `fuel` levels of nesting left.
fn place_node(
    nodes: &[NodeLinks],
    prims: &[Vec<(usize, Option<usize>)>],
    i: usize,
    parent: Option<usize>,
    fuel: usize,
    out: &mut Vec<PlacedNode>,
) -> (r: IoResult<()>)
    ensures
        outcome_result(
            node_outcome(nodes@, prims@, i as nat, parent, old(out)@.len(), fuel as nat),
            r,
        ),
        node_outcome(nodes@, prims@, i as nat, parent, old(out)@.len(), fuel as nat) matches TreeOutcome::Placed(
            s,
        ) ==> placed_models(final(out)@) == placed_models(old(out)@) + s,
    decreases fuel, 0nat,
{
    if i >= nodes.len() {
        return Err(IoError::InvalidData(with_decimal("invalid node ", i as u64)));
    }
    if fuel == 0 {
        return Err(IoError::InvalidData(with_decimal("cyclic node ", i as u64)));
    }
    let p = out.len();
    push_own_nodes(nodes, prims, i, parent, out);
    let ghost mid = placed_models(out@);
    let r = place_children(nodes, prims, &nodes[i].children, 0, p, fuel - 1, out);
    proof {
        let head = own_nodes(nodes@, prims@, i as int, p as nat, parent);
        assert(mid.len() == p + head.len());
        if let TreeOutcome::Placed(rest) = children_outcome(
            nodes@,
            prims@,
            nodes@[i as int].children@,
            0,
            p as nat,
            (p + head.len()) as nat,
            (fuel - 1) as nat,
        ) {
            assert(placed_models(out@) =~= placed_models(old(out)@) + (head + rest));
        }
    }
    r
}

/// Place the children `cs[k..]` under the node at position `parent`,
/// appending to `out`.
fn place_children(
    nodes: &[NodeLinks],
    prims: &[Vec<(usize, Option<usize>)>],
    cs: &Vec<usize>,
    k: usize,
    parent: usize,
    fuel: usize,
    out: &mut Vec<PlacedNode>,
) -> (r: IoResult<()>)
    requires
        k <= cs@.len(),
    ensures
        outcome_result(
            children_outcome(nodes@, prims@, cs@, k as nat, parent as nat, old(out)@.len(), fuel as nat),
            r,
        ),
        children_outcome(nodes@, prims@, cs@, k as nat, parent as nat, old(out)@.len(), fuel as nat) matches TreeOutcome::Placed(
            s,
        ) ==> placed_models(final(out)@) == placed_models(old(out)@) + s,
    decreases fuel, cs@.len() - k,
{
    if k >= cs.len() {
        proof {
            assert(placed_models(out@) =~= placed_models(out@) + Seq::<PlacedModel>::empty());
        }
        return Ok(());
    }
    let ghost start = out@;
    let r = place_node(nodes, prims, cs[k], Some(parent), fuel, out);
    if r.is_err() {
        return r;
    }
    let ghost mid = out@;
    let r2 = place_children(nodes, prims, cs, k + 1, parent, fuel, out);
    proof {
        if let TreeOutcome::Placed(a) = node_outcome(
            nodes@,
            prims@,
            cs@[k as int] as nat,
            Some(parent),
            start.len(),
            fuel as nat,
        ) {
            assert(placed_models(mid).len() == mid.len());
            assert(mid.len() == start.len() + a.len());
            if let TreeOutcome::Placed(b) = children_outcome(
                nodes@,
                prims@,
                cs@,
                (k + 1) as nat,
                parent as nat,
                mid.len(),
                fuel as nat,
            ) {
                assert(placed_models(out@) =~= placed_models(start) + (a + b));
            }
        }
    }
    r2
}

/// Convert the node tree under glTF node `root` into scene nodes, in the
/// order they are added to a scene: each node before its primitives and
/// children, children in order. The first node is the root's and has no
/// parent; every other node's parent is a position in the list. An index
/// that names no node is an error, as is a node that lies below itself.
pub fn node_tree(nodes: &[NodeLinks], mesh_prims: &[Vec<(usize, Option<usize>)>], root: usize) -> (r:
    IoResult<Vec<PlacedNode>>)
    ensures
        outcome_result(tree_outcome(nodes@, mesh_prims@, root as nat), r),
        tree_outcome(nodes@, mesh_prims@, root as nat) matches TreeOutcome::Placed(s) ==> r matches Ok(
            v,
        ) && placed_models(v@) == s,
{
    let mut out: Vec<PlacedNode> = Vec::new();
    let r = place_node(nodes, mesh_prims, root, None, nodes.len(), &mut out);
    proof {
        assert(placed_models(Seq::<PlacedNode>::empty()) =~= Seq::<PlacedModel>::empty());
        if let TreeOutcome::Placed(s) = tree_outcome(nodes@, mesh_prims@, root as nat) {
            assert(Seq::<PlacedModel>::empty() + s =~= s);
        }
    }
    match r {
        Ok(()) => Ok(out),
        Err(e) => Err(e),
    }
}

/// Whether some node lists node `i` among its children.
pub open spec fn has_parent(nodes: Seq<NodeLinks>, i: int) -> bool {
    exists|j: int, k: int|
        0 <= j < nodes.len() && 0 <= k < nodes[j].children@.len() && #[trigger] nodes[j].children@[k]
            == i
}

/// The nodes among the first `n` that no node lists as a child, in order.
pub open spec fn orphans(nodes: Seq<NodeLinks>, n: int) -> Seq<usize>
    decreases n,
{
    if n <= 0 {
        Seq::empty()
    } else if has_parent(nodes, n - 1) {
        orphans(nodes, n - 1)
    } else {
        orphans(nodes, n - 1).push((n - 1) as usize)
    }
}

/// The root nodes to convert: the node list of the document's chosen
/// scene (`scene`), where the document has that scene, else every node
/// that is nobody's child.
pub fn hierarchy_roots(nodes: &[NodeLinks], scene: Option<&Vec<usize>>) -> (r: Vec<usize>)
    ensures
        match scene {
            Some(v) => r@ == v@,
            None => r@ == orphans(nodes@, nodes@.len() as int),
        },
{
    if let Some(v) = scene {
        return v.clone();
    }
    let n = nodes.len();
    let mut flags: Vec<bool> = Vec::new();
    let mut i: usize = 0;
    while i < n
        invariant
            i <= n,
            flags@.len() == i,
            forall|q: int| 0 <= q < i ==> !#[trigger] flags@[q],
        decreases n - i,
    {
        flags.push(false);
        i += 1;
    }
    let mut j: usize = 0;
    while j < n
        invariant
            j <= n,
            n == nodes@.len(),
            flags@.len() == n,
            forall|q: int|
                0 <= q < n ==> (#[trigger] flags@[q] <==> exists|a: int, k: int|
                    0 <= a < j && 0 <= k < nodes@[a].children@.len() && #[trigger] nodes@[a].children@[k]
                        == q),
        decreases n - j,
    {
        let cs = &nodes[j].children;
        let mut k: usize = 0;
        while k < cs.len()
            invariant
                j < n,
                n == nodes@.len(),
                cs@ == nodes@[j as int].children@,
                k <= cs@.len(),
                flags@.len() == n,
                forall|q: int|
                    0 <= q < n ==> (#[trigger] flags@[q] <==> (exists|a: int, b: int|
                        0 <= a < j && 0 <= b < nodes@[a].children@.len()
                            && #[trigger] nodes@[a].children@[b] == q) || (exists|b: int|
                        0 <= b < k && #[trigger] cs@[b] == q)),
            decreases cs@.len() - k,
        {
            let c = cs[k];
            if c < n {
                flags.set(c, true);
            }
            proof {
                assert forall|q: int| 0 <= q < n implies (#[trigger] flags@[q] <==> (exists|a: int, b: int|
                    0 <= a < j && 0 <= b < nodes@[a].children@.len()
                        && #[trigger] nodes@[a].children@[b] == q) || (exists|b: int|
                    0 <= b < k + 1 && #[trigger] cs@[b] == q)) by {
                    if cs@[k as int] == q {
                        assert(cs@[k as int] == q);
                    }
                }
            }
            k += 1;
        }
        proof {
            assert forall|q: int| 0 <= q < n implies (#[trigger] flags@[q] <==> exists|a: int, b: int|
                0 <= a < j + 1 && 0 <= b < nodes@[a].children@.len() && #[trigger] nodes@[a].children@[b]
                    == q) by {
                if flags@[q] {
                    if exists|b: int| 0 <= b < k && #[trigger] cs@[b] == q {
                        let b = choose|b: int| 0 <= b < k && #[trigger] cs@[b] == q;
                        assert(nodes@[j as int].children@[b] == q);
                    }
                } else {
                    if exists|a: int, b: int|
                        0 <= a < j + 1 && 0 <= b < nodes@[a].children@.len()
                            && #[trigger] nodes@[a].children@[b] == q {
                        let (a, b) = choose|a: int, b: int|
                            0 <= a < j + 1 && 0 <= b < nodes@[a].children@.len()
                                && #[trigger] nodes@[a].children@[b] == q;
                        if a == j {
                            assert(cs@[b] == q);
                        }
                    }
                }
            }
        }
        j += 1;
    }
    let mut r: Vec<usize> = Vec::new();
    let mut i: usize = 0;
    while i < n
        invariant
            i <= n,
            n == nodes@.len(),
            flags@.len() == n,
            forall|q: int| 0 <= q < n ==> (#[trigger] flags@[q] <==> has_parent(nodes@, q)),
            r@ == orphans(nodes@, i as int),
        decreases n - i,
    {
        if !flags[i] {
            r.push(i);
        }
        i += 1;
    }
    r
}

} // verus!
