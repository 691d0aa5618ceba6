use crate::error::BevyBlenderError;
use vstd::prelude::*;

verus! {

/// The label of the material that stands in for a missing one.
pub const MISSING_MATERIAL: &'static str = "bevy_blender_missing_material";

/// An object record: its name, what it shows and its parent, each by name.
/// Its world matrix stays with the caller, under the same index.
#[derive(Debug)]
pub struct SceneObject {
    /// The object's name, kind prefix included (`"OBSuzanne"`).
    pub name: String,
    /// The name of its mesh data (`"MESuzanne"`).
    pub mesh_name: String,
    /// The name of the material in its mesh's first slot, if there is one.
    pub material_name: Option<String>,
    /// Whether that material is described by a node graph.
    pub material_uses_nodes: bool,
    /// The name of its parent object, if it has one.
    pub parent_name: Option<String>,
}

/// How a resolved object is placed relative to its parent in the engine.
#[derive(Debug)]
pub enum Placement<T> {
    /// The transform given by the caller.
    Given(T),
    /// The world matrix of `object`, converted to the engine's axes.
    World { object: usize },
    /// `inverse(world of parent_object) * own world`, converted to the
    /// engine's axes.
    Local { parent_object: usize },
}

/// What the engine needs to show one object: mesh and material by label,
/// and its placement.
#[derive(Debug)]
pub struct BlenderObjectBundle<T> {
    pub mesh: String,
    pub material: String,
    pub transform: Placement<T>,
}

/// One object of a resolved hierarchy.
#[derive(Debug)]
pub struct ObjectNode<T> {
    /// The object's index among the scene's objects.
    pub object: usize,
    /// The position of its parent's node in the resolved list.
    pub parent: Option<usize>,
    pub bundle: BlenderObjectBundle<T>,
}

/// The label `<file>#<name>` under which a file's record is published.
pub open spec fn label_of(file: Seq<char>, name: Seq<char>) -> Seq<char> {
    file + "#"@ + name
}

/// The label of an object's material: the one in its first slot, else the
/// stand-in.
pub open spec fn material_label_of(file: Seq<char>, o: SceneObject) -> Seq<char> {
    match o.material_name {
        Some(n) => label_of(file, n@),
        None => label_of(file, MISSING_MATERIAL@),
    }
}

/// The label of the material of a single object's bundle: the one in its
/// first slot where that material is flat, else the stand-in.
pub open spec fn flat_material_label_of(file: Seq<char>, o: SceneObject) -> Seq<char> {
    match o.material_name {
        Some(n) => if o.material_uses_nodes {
            label_of(file, MISSING_MATERIAL@)
        } else {
            label_of(file, n@)
        },
        None => label_of(file, MISSING_MATERIAL@),
    }
}

/// Object `j` names object `parent` as its parent.
pub open spec fn is_child_of(objs: Seq<SceneObject>, parent: int, j: int) -> bool {
    match objs[j].parent_name {
        Some(p) => p@ == objs[parent].name@,
        None => false,
    }
}

/// `k` is the first object named `name`.
pub open spec fn is_first_named(objs: Seq<SceneObject>, name: Seq<char>, k: int) -> bool {
    &&& 0 <= k < objs.len()
    &&& objs[k].name@ == name
    &&& forall|j: int| 0 <= j < k ==> (#[trigger] objs[j].name@) != name
}

/// A resolved node in the abstract: the object's index and, for all but
/// the root, the position of its parent's node and the parent's object.
pub type NodeSpec = (int, Option<(int, int)>);

/// The nodes of the subtree under object `i`, in pre-order, laid out from
/// position `start`. `path` holds the objects above it: an object already
/// on the path is not entered again, and no path grows longer than the
/// number of objects.
pub open spec fn subtree(
    objs: Seq<SceneObject>,
    path: Seq<usize>,
    i: int,
    parent: Option<(int, int)>,
    start: int,
) -> Seq<NodeSpec>
    decreases objs.len() - path.len(), 0int, 0int,
{
    if path.len() < objs.len() {
        seq![(i, parent)] + children(objs, path.push(i as usize), i, 0, start, start + 1)
    } else {
        seq![(i, parent)]
    }
}

/// The subtrees of the children of object `i` from object `j` on, in
/// object order; `i`'s node stands at position `pos`.
pub open spec fn children(
    objs: Seq<SceneObject>,
    path: Seq<usize>,
    i: int,
    j: int,
    pos: int,
    start: int,
) -> Seq<NodeSpec>
    decreases objs.len() - path.len(), 1int, objs.len() - j,
{
    if j < 0 || j >= objs.len() {
        seq![]
    } else if is_child_of(objs, i, j) && !path.contains(j as usize) {
        let s = subtree(objs, path, j, Some((pos, i)), start);
        s + children(objs, path, i, j + 1, pos, start + s.len())
    } else {
        children(objs, path, i, j + 1, pos, start)
    }
}

/// The abstract form of a resolved node.
pub open spec fn node_spec<T>(n: ObjectNode<T>) -> NodeSpec {
    (
        n.object as int,
        match n.parent {
            None => None,
            Some(p) => Some(
                (
                    p as int,
                    match n.bundle.transform {
                        Placement::Local { parent_object } => parent_object as int,
                        _ => -1,
                    },
                ),
            ),
        },
    )
}

/// The node's mesh and material labels are those of its object.
pub open spec fn labels_agree<T>(objs: Seq<SceneObject>, file: Seq<char>, n: ObjectNode<T>) -> bool {
    &&& n.object < objs.len()
    &&& n.bundle.mesh@ == label_of(file, objs[n.object as int].mesh_name@)
    &&& n.bundle.material@ == material_label_of(file, objs[n.object as int])
}

/// The label `<file>#<name>`.
pub fn asset_label(file: &str, name: &str) -> (r: String)
    ensures
        r@ == label_of(file@, name@),
{
    let mut r = String::from_str(file);
    r.append("#");
    r.append(name);
    r
}

fn bundle_for<T>(objs: &Vec<SceneObject>, file: &str, k: usize, transform: Placement<T>) -> (r:
    BlenderObjectBundle<T>)
    requires
        k < objs@.len(),
    ensures
        r.mesh@ == label_of(file@, objs@[k as int].mesh_name@),
        r.material@ == material_label_of(file@, objs@[k as int]),
        r.transform == transform,
{
    let o = &objs[k];
    let mesh = asset_label(file, o.mesh_name.as_str());
    let material = match &o.material_name {
        Some(n) => asset_label(file, n.as_str()),
        None => asset_label(file, MISSING_MATERIAL),
    };
    BlenderObjectBundle { mesh, material, transform }
}

/// The first object with the given name, if any.
pub fn get_object_by_name(objs: &Vec<SceneObject>, name: &String) -> (r: Option<usize>)
    ensures
        match r {
            Some(k) => is_first_named(objs@, name@, k as int),
            None => forall|j: int| 0 <= j < objs@.len() ==> (#[trigger] objs@[j].name@) != name@,
        },
{
    for k in 0..objs.len()
        invariant
            forall|j: int| 0 <= j < k ==> (#[trigger] objs@[j].name@) != name@,
    {
        if objs[k].name == *name {
            return Some(k);
        }
    }
    None
}

fn is_child(objs: &Vec<SceneObject>, i: usize, j: usize) -> (r: bool)
    requires
        i < objs@.len(),
        j < objs@.len(),
    ensures
        r == is_child_of(objs@, i as int, j as int),
{
    match &objs[j].parent_name {
        Some(p) => *p == objs[i].name,
        None => false,
    }
}

fn on_path(path: &Vec<usize>, j: usize) -> (r: bool)
    ensures
        r == path@.contains(j),
{
    for k in 0..path.len()
        invariant
            forall|x: int| 0 <= x < k ==> path@[x] != j,
    {
        if path[k] == j {
            return true;
        }
    }
    false
}

/// The abstract form of the nodes from position `from` on.
pub open spec fn nodes_from<T>(out: Seq<ObjectNode<T>>, from: int) -> Seq<NodeSpec> {
    out.subrange(from, out.len() as int).map_values(|n: ObjectNode<T>| node_spec(n))
}

/// Appends to `out`, in object order, the subtree of each child of object
/// `i` that is not on `path` (which holds `i`); `i`'s node stands at
/// position `pos`.
fn resolve_children<T>(
    objs: &Vec<SceneObject>,
    file: &str,
    path: &mut Vec<usize>,
    i: usize,
    pos: usize,
    out: &mut Vec<ObjectNode<T>>,
)
    requires
        i < objs@.len(),
    ensures
        final(path)@ == old(path)@,
        final(out)@.len() >= old(out)@.len(),
        final(out)@.subrange(0, old(out)@.len() as int) == old(out)@,
        nodes_from(final(out)@, old(out)@.len() as int) == children(
            objs@,
            old(path)@,
            i as int,
            0,
            pos as int,
            old(out)@.len() as int,
        ),
        forall|k: int|
            old(out)@.len() <= k < final(out)@.len() ==> labels_agree(
                objs@,
                file@,
                #[trigger] final(out)@[k],
            ),
    decreases objs@.len() - path@.len(),
{
    let ghost path0 = path@;
    let ghost out0 = out@;
    let ghost total = children(objs@, path0, i as int, 0, pos as int, out0.len() as int);
    proof {
        assert(nodes_from(out@, out0.len() as int) =~= seq![]);
        assert(out@.subrange(0, out0.len() as int) =~= out0);
    }
    for j in 0..objs.len()
        invariant
            i < objs@.len(),
            path@ == path0,
            old(path)@ == path0,
            out@.len() >= out0.len(),
            out@.subrange(0, out0.len() as int) == out0,
            nodes_from(out@, out0.len() as int) + children(
                objs@,
                path0,
                i as int,
                j as int,
                pos as int,
                out@.len() as int,
            ) == total,
            forall|k: int|
                out0.len() <= k < out@.len() ==> labels_agree(objs@, file@, #[trigger] out@[k]),
        decreases objs@.len() - j,
    {
        let ghost mid = out@;
        if is_child(objs, i, j) && !on_path(path, j) {
            let start = out.len();
            let bundle = bundle_for(objs, file, j, Placement::Local { parent_object: i });
            out.push(ObjectNode { object: j, parent: Some(pos), bundle });
            let ghost pushed = out@;
            if path.len() < objs.len() {
                path.push(j);
                resolve_children(objs, file, path, j, start, out);
                path.pop();
                proof {
                    assert(path@ =~= path0);
                }
            }
            proof {
                let sub = subtree(objs@, path0, j as int, Some((pos as int, i as int)), start as int);
                assert(out@.subrange(0, pushed.len() as int) == pushed);
                assert(pushed.subrange(0, mid.len() as int) =~= mid);
                assert(nodes_from(out@, start as int) =~= sub) by {
                    assert(node_spec(pushed[start as int]) == (j as int, Some((pos as int, i as int))));
                    if path0.len() < objs@.len() {
                        assert(nodes_from(out@, start as int) =~= seq![node_spec(pushed[start as int])]
                            + nodes_from(out@, start + 1));
                    } else {
                        assert(out@ == pushed);
                    }
                }
                assert(nodes_from(out@, out0.len() as int) =~= nodes_from(mid, out0.len() as int) + sub) by {
                    assert(out@.subrange(0, mid.len() as int) =~= mid);
                }
                assert(out@.subrange(0, out0.len() as int) =~= out0) by {
                    assert(out@.subrange(0, mid.len() as int) =~= mid);
                }
                assert forall|k: int| out0.len() <= k < out@.len() implies labels_agree(
                    objs@,
                    file@,
                    #[trigger] out@[k],
                ) by {
                    if k < mid.len() {
                        assert(out@.subrange(0, mid.len() as int)[k] == mid[k]);
                    } else if k == start {
                        assert(out@.subrange(0, pushed.len() as int)[k] == pushed[k]);
                    }
                }
            }
        }
    }
    proof {
        assert(children(objs@, path0, i as int, objs@.len() as int, pos as int, out@.len() as int) == Seq::<NodeSpec>::empty());
        assert(nodes_from(out@, out0.len() as int) + Seq::<NodeSpec>::empty() =~= nodes_from(out@, out0.len() as int));
    }
}

/// The name under which object `name` is stored: with its kind prefix.
pub open spec fn object_key(name: Seq<char>) -> Seq<char> {
    "OB"@ + name
}

/// The resolved hierarchy in the abstract: the root alone, or the root and,
/// with `with_children`, the subtrees of its descendants in pre-order.
pub open spec fn resolved_tree(objs: Seq<SceneObject>, root: int, with_children: bool) -> Seq<
    NodeSpec,
> {
    if with_children {
        subtree(objs, seq![], root, None, 0)
    } else {
        seq![(root, None)]
    }
}

fn object_key_of(name: &str) -> (r: String)
    ensures
        r@ == object_key(name@),
{
    let mut r = String::from_str("OB");
    r.append(name);
    r
}

impl<T> BlenderObjectBundle<T> {
    /// The bundle of object `object_name`, placed by its own world matrix,
    /// or `MissingAsset` where the scene holds no such object. Its material
    /// is the one in the first slot where that one is flat, else the
    /// stand-in.
    pub fn new_from_blend(objs: &Vec<SceneObject>, blender_file: &str, object_name: &str) -> (r:
        Result<Self, BevyBlenderError>)
        ensures
            match r {
                Ok(b) => exists|k: int|
                    {
                        &&& is_first_named(objs@, object_key(object_name@), k)
                        &&& b.mesh@ == label_of(blender_file@, objs@[k].mesh_name@)
                        &&& b.material@ == flat_material_label_of(blender_file@, objs@[k])
                        &&& b.transform == Placement::<T>::World { object: k as usize }
                    },
                Err(BevyBlenderError::MissingAsset { asset_name, blend_file }) => {
                    &&& forall|j: int|
                        0 <= j < objs@.len() ==> (#[trigger] objs@[j].name@) != object_key(
                            object_name@,
                        )
                    &&& asset_name@ == object_name@
                    &&& blend_file@ == blender_file@
                },
                Err(_) => false,
            },
    {
        let key = object_key_of(object_name);
        match get_object_by_name(objs, &key) {
            Some(k) => {
                let o = &objs[k];
                let material = match &o.material_name {
                    Some(n) => if o.material_uses_nodes {
                        asset_label(blender_file, MISSING_MATERIAL)
                    } else {
                        asset_label(blender_file, n.as_str())
                    },
                    None => asset_label(blender_file, MISSING_MATERIAL),
                };
                Ok(
                    BlenderObjectBundle {
                        mesh: asset_label(blender_file, o.mesh_name.as_str()),
                        material,
                        transform: Placement::World { object: k },
                    },
                )
            },
            None => Err(
                BevyBlenderError::MissingAsset {
                    asset_name: String::from_str(object_name),
                    blend_file: String::from_str(blender_file),
                },
            ),
        }
    }
}

/// Resolves object `root_object_name` and, with `spawn_children`, all its
/// descendants into a list of nodes in pre-order, the root first.
///
/// The root is placed by `parent_transform` where one is given, else by its
/// own world matrix; every other object relative to its parent's world
/// matrix (also under a given root transform). An object is not entered
/// again below itself. A missing root gives `MissingAsset` and no nodes.
pub fn spawn_blender_object<T>(
    objs: &Vec<SceneObject>,
    blender_file: &str,
    root_object_name: &str,
    spawn_children: bool,
    parent_transform: Option<T>,
) -> (r: Result<Vec<ObjectNode<T>>, BevyBlenderError>)
    ensures
        match r {
            Ok(nodes) => {
                &&& nodes@.len() > 0
                &&& is_first_named(objs@, object_key(root_object_name@), nodes@[0].object as int)
                &&& nodes@.map_values(|n: ObjectNode<T>| node_spec(n)) == resolved_tree(
                    objs@,
                    nodes@[0].object as int,
                    spawn_children,
                )
                &&& forall|k: int|
                    0 <= k < nodes@.len() ==> labels_agree(objs@, blender_file@, #[trigger] nodes@[k])
                &&& nodes@[0].bundle.transform == match parent_transform {
                    Some(t) => Placement::Given(t),
                    None => Placement::World { object: nodes@[0].object },
                }
            },
            Err(BevyBlenderError::MissingAsset { asset_name, blend_file }) => {
                &&& forall|j: int|
                    0 <= j < objs@.len() ==> (#[trigger] objs@[j].name@) != object_key(
                        root_object_name@,
                    )
                &&& asset_name@ == root_object_name@
                &&& blend_file@ == blender_file@
            },
            Err(_) => false,
        },
{
    let key = object_key_of(root_object_name);
    let root = match get_object_by_name(objs, &key) {
        Some(k) => k,
        None => {
            return Err(
                BevyBlenderError::MissingAsset {
                    asset_name: String::from_str(root_object_name),
                    blend_file: String::from_str(blender_file),
                },
            );
        },
    };
    let transform = match parent_transform {
        Some(t) => Placement::Given(t),
        None => Placement::World { object: root },
    };
    let bundle = bundle_for(objs, blender_file, root, transform);
    let mut out: Vec<ObjectNode<T>> = Vec::new();
    out.push(ObjectNode { object: root, parent: None, bundle });
    let ghost first = out@;
    if spawn_children {
        let mut path: Vec<usize> = Vec::new();
        path.push(root);
        resolve_children(objs, blender_file, &mut path, root, 0, &mut out);
        proof {
            assert(seq![].push(root) =~= path@);
            assert(out@.subrange(0, 1) == first);
            assert(out@.map_values(|n: ObjectNode<T>| node_spec(n)) =~= seq![node_spec(first[0])]
                + nodes_from(out@, 1));
            assert forall|k: int| 0 <= k < out@.len() implies labels_agree(
                objs@,
                blender_file@,
                #[trigger] out@[k],
            ) by {
                if k == 0 {
                    assert(out@.subrange(0, 1)[0] == first[0]);
                }
            }
        }
    }
    proof {
        assert(out@[0] == first[0]) by {
            assert(out@.subrange(0, 1)[0] == out@[0]);
        }
        if !spawn_children {
            assert(out@.map_values(|n: ObjectNode<T>| node_spec(n)) =~= seq![node_spec(first[0])]);
        }
    }
    Ok(out)
}

/// Node `k` of `s`, laid out from position `start`, names an object and,
/// unless it is a root, a parent: either `outer` or an earlier node of `s`,
/// whose object is the one it records and is named as the parent of its own.
pub open spec fn link_ok(
    objs: Seq<SceneObject>,
    s: Seq<NodeSpec>,
    start: int,
    outer: Option<(int, int)>,
    k: int,
) -> bool {
    &&& 0 <= s[k].0 < objs.len()
    &&& match s[k].1 {
        None => outer is None && k == 0,
        Some(pp) => {
            &&& 0 <= pp.1 < objs.len()
            &&& is_child_of(objs, pp.1, s[k].0)
            &&& (Some(pp) == outer || (start <= pp.0 < start + k && s[pp.0 - start].0 == pp.1))
        },
    }
}

/// Every node of `s` is linked as `link_ok` says.
pub open spec fn linked(
    objs: Seq<SceneObject>,
    s: Seq<NodeSpec>,
    start: int,
    outer: Option<(int, int)>,
) -> bool {
    forall|k: int| 0 <= k < s.len() ==> #[trigger] link_ok(objs, s, start, outer, k)
}

proof fn lemma_linked_concat(
    objs: Seq<SceneObject>,
    a: Seq<NodeSpec>,
    b: Seq<NodeSpec>,
    start: int,
    outer: Option<(int, int)>,
)
    requires
        outer is Some,
        linked(objs, a, start, outer),
        linked(objs, b, start + a.len(), outer),
    ensures
        linked(objs, a + b, start, outer),
{
    let c = a + b;
    assert forall|k: int| 0 <= k < c.len() implies #[trigger] link_ok(objs, c, start, outer, k) by {
        if k < a.len() {
            assert(link_ok(objs, a, start, outer, k));
            assert(c[k] == a[k]);
            match a[k].1 {
                Some(pp) => {
                    if Some(pp) != outer {
                        assert(c[pp.0 - start] == a[pp.0 - start]);
                    }
                },
                None => {},
            }
        } else {
            let kb = k - a.len();
            assert(link_ok(objs, b, start + a.len(), outer, kb));
            assert(c[k] == b[kb]);
            match b[kb].1 {
                Some(pp) => {
                    if Some(pp) != outer {
                        assert(c[pp.0 - start] == b[pp.0 - start - a.len()]);
                    }
                },
                None => {},
            }
        }
    }
}

proof fn lemma_subtree_linked(
    objs: Seq<SceneObject>,
    path: Seq<usize>,
    i: int,
    parent: Option<(int, int)>,
    start: int,
)
    requires
        0 <= i < objs.len(),
        match parent {
            None => true,
            Some(pp) => 0 <= pp.1 < objs.len() && is_child_of(objs, pp.1, i),
        },
    ensures
        subtree(objs, path, i, parent, start).len() >= 1,
        subtree(objs, path, i, parent, start)[0] == (i, parent),
        linked(objs, subtree(objs, path, i, parent, start), start, parent),
    decreases objs.len() - path.len(), 0int, 0int,
{
    let s = subtree(objs, path, i, parent, start);
    let head: Seq<NodeSpec> = seq![(i, parent)];
    assert(link_ok(objs, head, start, parent, 0));
    if path.len() < objs.len() {
        let rest = children(objs, path.push(i as usize), i, 0, start, start + 1);
        lemma_children_linked(objs, path.push(i as usize), i, 0, start, start + 1);
        assert forall|k: int| 0 <= k < s.len() implies #[trigger] link_ok(objs, s, start, parent, k) by {
            if k == 0 {
                assert(s[0] == head[0]);
            } else {
                assert(s[k] == rest[k - 1]);
                assert(link_ok(objs, rest, start + 1, Some((start, i)), k - 1));
                match rest[k - 1].1 {
                    Some(pp) => {
                        if Some(pp) == Some((start, i)) {
                            assert(s[0].0 == i);
                        } else {
                            assert(s[pp.0 - start] == rest[pp.0 - start - 1]);
                        }
                    },
                    None => {},
                }
            }
        }
    } else {
        assert(s =~= head);
    }
}

proof fn lemma_children_linked(
    objs: Seq<SceneObject>,
    path: Seq<usize>,
    i: int,
    j: int,
    pos: int,
    start: int,
)
    requires
        0 <= i < objs.len(),
    ensures
        linked(objs, children(objs, path, i, j, pos, start), start, Some((pos, i))),
    decreases objs.len() - path.len(), 1int, objs.len() - j,
{
    let c = children(objs, path, i, j, pos, start);
    if j < 0 || j >= objs.len() {
        assert(c.len() == 0);
    } else if is_child_of(objs, i, j) && !path.contains(j as usize) {
        let s = subtree(objs, path, j, Some((pos, i)), start);
        lemma_subtree_linked(objs, path, j, Some((pos, i)), start);
        lemma_children_linked(objs, path, i, j + 1, pos, start + s.len());
        lemma_linked_concat(objs, s, children(objs, path, i, j + 1, pos, start + s.len()), start, Some((pos, i)));
    } else {
        lemma_children_linked(objs, path, i, j + 1, pos, start);
    }
}

/// Node `k` of `t` has a parent node before it, whose object is the parent
/// object it records and is named as the parent of its own object.
pub open spec fn parent_before(objs: Seq<SceneObject>, t: Seq<NodeSpec>, k: int) -> bool {
    match t[k].1 {
        Some(pp) => 0 <= pp.0 < k && t[pp.0].0 == pp.1 && is_child_of(objs, pp.1, t[k].0),
        None => false,
    }
}

/// The resolved hierarchy is a tree laid out parents first: the root comes
/// first and has no parent; every other node names an earlier node as its
/// parent, that node's object is the one its placement is relative to, and
/// that object is the one its own object names as parent.
pub proof fn lemma_resolved_tree_linked(objs: Seq<SceneObject>, root: int, with_children: bool)
    requires
        0 <= root < objs.len(),
    ensures
        resolved_tree(objs, root, with_children).len() >= 1,
        resolved_tree(objs, root, with_children)[0] == (root, None::<(int, int)>),
        forall|k: int|
            0 < k < resolved_tree(objs, root, with_children).len() ==> #[trigger] parent_before(
                objs,
                resolved_tree(objs, root, with_children),
                k,
            ),
{
    let t = resolved_tree(objs, root, with_children);
    if with_children {
        lemma_subtree_linked(objs, seq![], root, None, 0);
        assert forall|k: int| 0 < k < t.len() implies #[trigger] parent_before(objs, t, k) by {
            assert(link_ok(objs, t, 0, None, k));
        }
    }
}

/// No object on the path is entered again: an object not on `path` roots a
/// subtree none of whose nodes is on `path`, and the subtrees below it avoid
/// it as well, so no object appears below itself.
pub proof fn lemma_subtree_avoids_path(
    objs: Seq<SceneObject>,
    path: Seq<usize>,
    i: int,
    parent: Option<(int, int)>,
    start: int,
)
    requires
        0 <= i < objs.len(),
        !path.contains(i as usize),
    ensures
        forall|k: int|
            0 <= k < subtree(objs, path, i, parent, start).len() ==> !path.contains(
                (#[trigger] subtree(objs, path, i, parent, start)[k]).0 as usize,
            ),
        path.len() < objs.len() ==> forall|k: int|
            0 <= k < children(objs, path.push(i as usize), i, 0, start, start + 1).len()
                ==> !path.push(i as usize).contains(
                (#[trigger] children(objs, path.push(i as usize), i, 0, start, start + 1)[k]).0 as usize,
            ),
    decreases objs.len() - path.len(), 0int, 0int,
{
    let s = subtree(objs, path, i, parent, start);
    if path.len() < objs.len() {
        let p2 = path.push(i as usize);
        let rest = children(objs, p2, i, 0, start, start + 1);
        lemma_children_avoid_path(objs, p2, i, 0, start, start + 1);
        assert forall|k: int| 0 <= k < s.len() implies !path.contains(
            (#[trigger] s[k]).0 as usize,
        ) by {
            if k > 0 {
                assert(s[k] == rest[k - 1]);
                if path.contains(s[k].0 as usize) {
                    let w = choose|w: int| 0 <= w < path.len() && path[w] == s[k].0 as usize;
                    assert(p2[w] == path[w]);
                }
            }
        }
    }
}

proof fn lemma_children_avoid_path(
    objs: Seq<SceneObject>,
    path: Seq<usize>,
    i: int,
    j: int,
    pos: int,
    start: int,
)
    ensures
        forall|k: int|
            0 <= k < children(objs, path, i, j, pos, start).len() ==> !path.contains(
                (#[trigger] children(objs, path, i, j, pos, start)[k]).0 as usize,
            ),
    decreases objs.len() - path.len(), 1int, objs.len() - j,
{
    let c = children(objs, path, i, j, pos, start);
    if j < 0 || j >= objs.len() {
        assert(c.len() == 0);
    } else if is_child_of(objs, i, j) && !path.contains(j as usize) {
        let s = subtree(objs, path, j, Some((pos, i)), start);
        let rest = children(objs, path, i, j + 1, pos, start + s.len());
        assert(c == s + rest);
        lemma_subtree_avoids_path(objs, path, j, Some((pos, i)), start);
        lemma_children_avoid_path(objs, path, i, j + 1, pos, start + s.len());
        assert forall|k: int| 0 <= k < c.len() implies !path.contains((#[trigger] c[k]).0 as usize) by {
            if k < s.len() {
                assert(c[k] == s[k]);
            } else {
                assert(c[k] == rest[k - s.len()]);
            }
        }
    } else {
        lemma_children_avoid_path(objs, path, i, j + 1, pos, start);
        assert(c == children(objs, path, i, j + 1, pos, start));
    }
}

} // verus!
