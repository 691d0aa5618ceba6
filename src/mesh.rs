use crate::error::BevyBlenderError;
use crate::triangulate::{ear_clip, lemma_ear_clip, triangulate, Tri};
use vstd::prelude::*;

verus! {

/// One face descriptor of a mesh record: its loop is
/// `loop_start .. loop_start + loop_count` of the loop array.
#[derive(Debug)]
pub struct FaceRecord {
    pub loop_start: i32,
    pub loop_count: i32,
}

/// The topology of a mesh record as read from the file.
#[derive(Debug)]
pub struct MeshRecord {
    /// The kind of the record (`"Mesh"` for a mesh).
    pub kind: String,
    /// The record's name, kind prefix included (`"MESuzanne"`).
    pub name: String,
    /// The face descriptors, in file order.
    pub faces: Vec<FaceRecord>,
    /// For each loop, the vertex that it references.
    pub loop_vertices: Vec<i32>,
    /// How many loops, counted from the first, carry a UV value.
    pub uv_loop_count: usize,
    /// The number of vertices.
    pub vertex_count: usize,
}

/// Where a mesh's vertex normals come from.
#[derive(PartialEq, Eq, Structural, Clone, Copy, Debug)]
pub enum NormalSource {
    /// The file stores a packed normal with each vertex.
    Embedded,
    /// The file stores none: they are summed from the face normals.
    Computed,
}

/// The index structure of a reconstructed mesh. Positions, normals and UVs
/// are laid out one per vertex of the record.
#[derive(Debug)]
pub struct MeshTopology {
    /// Each face's loop of vertex indices.
    pub face_loops: Vec<Vec<u32>>,
    /// The triangle list: each triangle `(a, b, c)` cut from a face is
    /// written as `c, a, b`, and each such triple twice in a row. The
    /// doubled triple is kept on purpose, for consumers that expect this
    /// layout; a reader that wants each triangle once takes every other
    /// triple.
    pub indices: Vec<u32>,
    /// For each face, the vertices `(first, second, last)` of its loop. Where
    /// normals are computed, the face normal is the cross product of the
    /// closing edge `last -> first` with the first edge `first -> second`,
    /// and each vertex sums the normals of the faces whose loops hold it.
    pub corners: Vec<Tri>,
    /// For each vertex, the loop whose UV it takes, if any (the last loop
    /// that references it); a vertex without one takes `(0, 0)`.
    pub uv_sources: Vec<Option<usize>>,
    /// Where the vertex normals come from.
    pub normal_source: NormalSource,
}

impl NormalSource {
    /// Files of major version 2 and below store normals; later ones do not.
    pub open spec fn spec_for_version(version: (u8, u8, u8)) -> NormalSource {
        if version.0 <= 2 {
            NormalSource::Embedded
        } else {
            NormalSource::Computed
        }
    }

    /// The normal source of a file of the given version.
    pub fn for_version(version: (u8, u8, u8)) -> (r: NormalSource)
        ensures
            r == Self::spec_for_version(version),
    {
        if version.0 <= 2 {
            NormalSource::Embedded
        } else {
            NormalSource::Computed
        }
    }
}

/// A face lies within `n_loops` loops and has at least three of them.
pub open spec fn face_in_range(f: FaceRecord, n_loops: int) -> bool {
    0 <= f.loop_start && 3 <= f.loop_count && f.loop_start + f.loop_count <= n_loops
}

/// Every face of the record lies within its loops.
pub open spec fn faces_in_range(m: MeshRecord) -> bool {
    forall|k: int|
        0 <= k < m.faces@.len() ==> face_in_range(
            #[trigger] m.faces@[k],
            m.loop_vertices@.len() as int,
        )
}

/// Every loop of the record references an existing vertex.
pub open spec fn loops_in_range(m: MeshRecord) -> bool {
    forall|k: int|
        0 <= k < m.loop_vertices@.len() ==> 0 <= #[trigger] m.loop_vertices@[k] < m.vertex_count
}

/// The UV values belong to existing loops.
pub open spec fn uvs_in_range(m: MeshRecord) -> bool {
    m.uv_loop_count <= m.loop_vertices@.len()
}

/// The record's faces, loops and UV loops are all in range.
pub open spec fn well_formed(m: MeshRecord) -> bool {
    faces_in_range(m) && loops_in_range(m) && uvs_in_range(m)
}

/// The record is a mesh that can be reconstructed.
pub open spec fn mesh_ok(m: MeshRecord) -> bool {
    m.kind@ == "Mesh"@ && well_formed(m)
}

/// `t` is the reconstruction of `m` for a file of version `version`.
pub open spec fn topology_of(m: MeshRecord, version: (u8, u8, u8), t: MeshTopology) -> bool {
    &&& t.face_loops@.map_values(|l: Vec<u32>| l@) == mesh_face_loops(m)
    &&& t.indices@ == mesh_indices(mesh_face_loops(m))
    &&& forall|k: int| 0 <= k < t.indices@.len() ==> #[trigger] t.indices@[k] < m.vertex_count
    &&& t.indices@.len() % 6 == 0
    &&& t.corners@ == mesh_face_loops(m).map_values(|l: Seq<u32>| corners_of(l))
    &&& t.uv_sources@ == uv_sources_of(m)
    &&& t.normal_source == NormalSource::spec_for_version(version)
}

/// The loop of face `f`: the vertices of its loops, in order.
pub open spec fn face_loop_of(loops: Seq<i32>, f: FaceRecord) -> Seq<u32> {
    loops.subrange(f.loop_start as int, f.loop_start + f.loop_count).map_values(|v: i32| v as u32)
}

/// The loops of all faces of the record, in face order.
pub open spec fn mesh_face_loops(m: MeshRecord) -> Seq<Seq<u32>> {
    m.faces@.map_values(|f: FaceRecord| face_loop_of(m.loop_vertices@, f))
}

/// The corner vertices `(first, second, last)` of a face loop.
pub open spec fn corners_of(l: Seq<u32>) -> Tri {
    (l[0], l[1], l[l.len() - 1])
}

/// The six indices written for one triangle `(a, b, c)`.
pub open spec fn tri_entry(t: Tri) -> Seq<u32> {
    seq![t.2, t.0, t.1, t.2, t.0, t.1]
}

/// The indices written for a list of triangles, in order.
pub open spec fn tri_indices(ts: Seq<Tri>) -> Seq<u32>
    decreases ts.len(),
{
    if ts.len() == 0 {
        seq![]
    } else {
        tri_indices(ts.drop_last()) + tri_entry(ts.last())
    }
}

/// The index buffer of a list of face loops: each face's triangles in turn.
pub open spec fn mesh_indices(face_loops: Seq<Seq<u32>>) -> Seq<u32>
    decreases face_loops.len(),
{
    if face_loops.len() == 0 {
        seq![]
    } else {
        mesh_indices(face_loops.drop_last()) + tri_indices(ear_clip(face_loops.last(), 0))
    }
}

/// The last of the first `n` loops that references vertex `v`, if any.
pub open spec fn last_writer(loops: Seq<i32>, n: int, v: int) -> Option<usize>
    decreases n,
{
    if n <= 0 {
        None
    } else if loops[n - 1] == v {
        Some((n - 1) as usize)
    } else {
        last_writer(loops, n - 1, v)
    }
}

/// The UV source of every vertex of the record.
pub open spec fn uv_sources_of(m: MeshRecord) -> Seq<Option<usize>> {
    Seq::new(m.vertex_count as nat, |v: int| last_writer(m.loop_vertices@, m.uv_loop_count as int, v))
}

/// The first field of the record that is out of shape, if any.
pub open spec fn malformed_field(m: MeshRecord) -> Option<Seq<char>> {
    if !faces_in_range(m) {
        Some("mpoly"@)
    } else if !loops_in_range(m) {
        Some("mloop"@)
    } else if !uvs_in_range(m) {
        Some("mloopuv"@)
    } else {
        None
    }
}

/// `e` is the error that reconstructing `m` reports: `InvalidInstanceType`
/// for a record of another kind, else `MalformedRecord` naming the first
/// field out of shape.
pub open spec fn mesh_error_of(m: MeshRecord, e: BevyBlenderError) -> bool {
    match e {
        BevyBlenderError::InvalidInstanceType { expected, found } => {
            &&& m.kind@ != "Mesh"@
            &&& expected@ == "Mesh"@
            &&& found@ == m.kind@
        },
        BevyBlenderError::MalformedRecord { record, field } => {
            &&& m.kind@ == "Mesh"@
            &&& malformed_field(m) == Some(field@)
            &&& record@ == m.name@
        },
        _ => false,
    }
}

/// Every triangle contributes six indices.
pub proof fn lemma_tri_indices_len(ts: Seq<Tri>)
    ensures
        tri_indices(ts).len() == 6 * ts.len(),
    decreases ts.len(),
{
    if ts.len() > 0 {
        lemma_tri_indices_len(ts.drop_last());
    }
}

/// A face loop of `L >= 3` vertices contributes `L - 2` triangles and so
/// `6 * (L - 2)` indices; the index buffer of any list of such loops has a
/// length that is a multiple of six.
pub proof fn lemma_index_count(face_loops: Seq<Seq<u32>>)
    requires
        forall|k: int| 0 <= k < face_loops.len() ==> (#[trigger] face_loops[k]).len() >= 3,
    ensures
        forall|k: int|
            0 <= k < face_loops.len() ==> tri_indices(ear_clip(#[trigger] face_loops[k], 0)).len()
                == 6 * (face_loops[k].len() - 2),
        mesh_indices(face_loops).len() % 6 == 0,
    decreases face_loops.len(),
{
    assert forall|k: int| 0 <= k < face_loops.len() implies tri_indices(
        ear_clip(#[trigger] face_loops[k], 0),
    ).len() == 6 * (face_loops[k].len() - 2) by {
        lemma_ear_clip(face_loops[k], 0);
        lemma_tri_indices_len(ear_clip(face_loops[k], 0));
    }
    if face_loops.len() > 0 {
        let init = face_loops.drop_last();
        assert forall|k: int| 0 <= k < init.len() implies (#[trigger] init[k]).len() >= 3 by {
            assert(init[k] == face_loops[k]);
        }
        lemma_index_count(init);
        let last = face_loops.last();
        assert(last == face_loops[face_loops.len() - 1]);
        let n = tri_indices(ear_clip(last, 0)).len();
        assert(n == 6 * (last.len() - 2));
        assert(mesh_indices(face_loops).len() == mesh_indices(init).len() + n);
        assert((mesh_indices(init).len() + 6 * (last.len() - 2)) % 6 == 0) by (nonlinear_arith)
            requires
                mesh_indices(init).len() % 6 == 0,
                last.len() >= 3,
        ;
    }
}

proof fn lemma_tri_indices_bound(ts: Seq<Tri>, n: int)
    requires
        forall|k: int|
            0 <= k < ts.len() ==> {
                let t = #[trigger] ts[k];
                t.0 < n && t.1 < n && t.2 < n
            },
    ensures
        forall|k: int| 0 <= k < tri_indices(ts).len() ==> #[trigger] tri_indices(ts)[k] < n,
    decreases ts.len(),
{
    if ts.len() > 0 {
        let init = ts.drop_last();
        assert forall|k: int| 0 <= k < init.len() implies {
            let t = #[trigger] init[k];
            t.0 < n && t.1 < n && t.2 < n
        } by {
            assert(init[k] == ts[k]);
        }
        lemma_tri_indices_bound(init, n);
        let t = ts[ts.len() - 1];
        assert(t.0 < n && t.1 < n && t.2 < n);
        let r = tri_indices(ts);
        assert forall|k: int| 0 <= k < r.len() implies #[trigger] r[k] < n by {
            if k < tri_indices(init).len() {
                assert(r[k] == tri_indices(init)[k]);
            } else {
                assert(r[k] == tri_entry(t)[k - tri_indices(init).len()]);
            }
        }
    }
}

/// Every index written for a list of face loops names one of their vertices,
/// so it is below any bound on those.
pub proof fn lemma_indices_bound(face_loops: Seq<Seq<u32>>, n: int)
    requires
        forall|k: int| 0 <= k < face_loops.len() ==> (#[trigger] face_loops[k]).len() >= 3,
        forall|k: int, j: int|
            0 <= k < face_loops.len() && 0 <= j < face_loops[k].len() ==> #[trigger] face_loops[k][j]
                < n,
    ensures
        forall|k: int|
            0 <= k < mesh_indices(face_loops).len() ==> #[trigger] mesh_indices(face_loops)[k] < n,
    decreases face_loops.len(),
{
    if face_loops.len() > 0 {
        let init = face_loops.drop_last();
        assert forall|k: int| 0 <= k < init.len() implies (#[trigger] init[k]).len() >= 3 by {
            assert(init[k] == face_loops[k]);
        }
        assert forall|k: int, j: int| 0 <= k < init.len() && 0 <= j < init[k].len() implies #[trigger] init[k][j]
            < n by {
            assert(init[k] == face_loops[k]);
        }
        lemma_indices_bound(init, n);
        let last = face_loops[face_loops.len() - 1];
        let ts = ear_clip(last, 0);
        lemma_ear_clip(last, 0);
        assert forall|k: int| 0 <= k < ts.len() implies {
            let t = #[trigger] ts[k];
            t.0 < n && t.1 < n && t.2 < n
        } by {
            let t = ts[k];
            let j0 = choose|j: int| 0 <= j < last.len() && last[j] == t.0;
            let j1 = choose|j: int| 0 <= j < last.len() && last[j] == t.1;
            let j2 = choose|j: int| 0 <= j < last.len() && last[j] == t.2;
            assert(face_loops[face_loops.len() - 1][j0] < n);
            assert(face_loops[face_loops.len() - 1][j1] < n);
            assert(face_loops[face_loops.len() - 1][j2] < n);
        }
        lemma_tri_indices_bound(ts, n);
        let r = mesh_indices(face_loops);
        assert forall|k: int| 0 <= k < r.len() implies #[trigger] r[k] < n by {
            if k < mesh_indices(init).len() {
                assert(r[k] == mesh_indices(init)[k]);
            } else {
                assert(r[k] == tri_indices(ts)[k - mesh_indices(init).len()]);
            }
        }
    }
}

/// The face loops of a well-formed record have three or more vertices, each
/// below the vertex count.
pub proof fn lemma_face_loops_in_range(m: MeshRecord)
    requires
        well_formed(m),
    ensures
        forall|k: int| 0 <= k < mesh_face_loops(m).len() ==> (#[trigger] mesh_face_loops(m)[k]).len() >= 3,
        forall|k: int, j: int|
            0 <= k < mesh_face_loops(m).len() && 0 <= j < mesh_face_loops(m)[k].len()
                ==> #[trigger] mesh_face_loops(m)[k][j] < m.vertex_count,
{
    let fl = mesh_face_loops(m);
    assert forall|k: int| 0 <= k < fl.len() implies (#[trigger] fl[k]).len() >= 3 by {
        assert(face_in_range(m.faces@[k], m.loop_vertices@.len() as int));
    }
    assert forall|k: int, j: int| 0 <= k < fl.len() && 0 <= j < fl[k].len() implies #[trigger] fl[k][j]
        < m.vertex_count by {
        let f = m.faces@[k];
        assert(face_in_range(f, m.loop_vertices@.len() as int));
        let v = m.loop_vertices@[f.loop_start + j];
        assert(0 <= v < m.vertex_count);
        assert(fl[k][j] == v as u32);
    }
}

fn face_ok(f: &FaceRecord, n_loops: usize) -> (r: bool)
    ensures
        r == face_in_range(*f, n_loops as int),
{
    f.loop_start >= 0 && f.loop_count >= 3 && (f.loop_start as u64) + (f.loop_count as u64)
        <= n_loops as u64
}

fn faces_ok(m: &MeshRecord) -> (r: bool)
    ensures
        r == faces_in_range(*m),
{
    let n_loops = m.loop_vertices.len();
    for k in 0..m.faces.len()
        invariant
            n_loops == m.loop_vertices@.len(),
            forall|j: int| 0 <= j < k ==> face_in_range(#[trigger] m.faces@[j], n_loops as int),
    {
        if !face_ok(&m.faces[k], n_loops) {
            return false;
        }
    }
    true
}

fn loops_ok(m: &MeshRecord) -> (r: bool)
    ensures
        r == loops_in_range(*m),
{
    for k in 0..m.loop_vertices.len()
        invariant
            forall|j: int| 0 <= j < k ==> 0 <= #[trigger] m.loop_vertices@[j] < m.vertex_count,
    {
        let v = m.loop_vertices[k];
        if v < 0 || v as usize >= m.vertex_count {
            return false;
        }
    }
    true
}

/// The loop of one face, as vertex indices.
fn face_loop(loops: &Vec<i32>, f: &FaceRecord) -> (r: Vec<u32>)
    requires
        face_in_range(*f, loops@.len() as int),
    ensures
        r@ == face_loop_of(loops@, *f),
{
    let start = f.loop_start as usize;
    let end = start + f.loop_count as usize;
    let mut r: Vec<u32> = Vec::new();
    for k in start..end
        invariant
            start == f.loop_start,
            end == f.loop_start + f.loop_count,
            end <= loops@.len(),
            r@ =~= loops@.subrange(start as int, k as int).map_values(|v: i32| v as u32),
    {
        r.push(loops[k] as u32);
        proof {
            assert(loops@.subrange(start as int, k + 1).map_values(|v: i32| v as u32) =~= loops@.subrange(
                start as int,
                k as int,
            ).map_values(|v: i32| v as u32).push(loops@[k as int] as u32));
        }
    }
    r
}

proof fn lemma_tri_indices_push(ts: Seq<Tri>, t: Tri)
    ensures
        tri_indices(ts.push(t)) == tri_indices(ts) + tri_entry(t),
{
    assert(ts.push(t).drop_last() =~= ts);
}

/// Appends the six indices of each triangle in turn.
fn push_tri_indices(indices: &mut Vec<u32>, tris: &Vec<Tri>)
    ensures
        final(indices)@ == old(indices)@ + tri_indices(tris@),
{
    let ghost start = indices@;
    for k in 0..tris.len()
        invariant
            indices@ == start + tri_indices(tris@.take(k as int)),
    {
        let (a, b, c) = tris[k];
        indices.push(c);
        indices.push(a);
        indices.push(b);
        indices.push(c);
        indices.push(a);
        indices.push(b);
        proof {
            lemma_tri_indices_push(tris@.take(k as int), tris@[k as int]);
            assert(tris@.take(k as int).push(tris@[k as int]) =~= tris@.take(k + 1));
            assert(indices@ =~= start + tri_indices(tris@.take(k + 1)));
        }
    }
    proof {
        assert(tris@.take(tris@.len() as int) =~= tris@);
    }
}

/// For each vertex, the last loop among those carrying a UV that references
/// it.
fn uv_sources(m: &MeshRecord) -> (r: Vec<Option<usize>>)
    requires
        loops_in_range(*m),
        uvs_in_range(*m),
    ensures
        r@ == uv_sources_of(*m),
{
    let mut r: Vec<Option<usize>> = Vec::new();
    for v in 0..m.vertex_count
        invariant
            r@.len() == v,
            forall|j: int| 0 <= j < v ==> r@[j] == None::<usize>,
    {
        r.push(None);
    }
    for i in 0..m.uv_loop_count
        invariant
            loops_in_range(*m),
            uvs_in_range(*m),
            r@.len() == m.vertex_count,
            forall|v: int|
                0 <= v < m.vertex_count ==> r@[v] == last_writer(m.loop_vertices@, i as int, v),
    {
        let v = m.loop_vertices[i] as usize;
        r.set(v, Some(i));
    }
    proof {
        assert(r@ =~= uv_sources_of(*m));
    }
    r
}

/// Reconstructs the index structure of a mesh record: the face loops, the
/// triangle list, the UV source of each vertex and where its normals come
/// from.
///
/// A record of another kind is refused with `InvalidInstanceType`; a mesh
/// whose faces, loops or UV loops are out of range with `MalformedRecord`,
/// naming the first such field.
pub fn instance_to_mesh(m: &MeshRecord, blend_version: (u8, u8, u8)) -> (r: Result<
    MeshTopology,
    BevyBlenderError,
>)
    ensures
        match r {
            Ok(t) => mesh_ok(*m) && topology_of(*m, blend_version, t),
            Err(e) => mesh_error_of(*m, e),
        },
{
    let expected = String::from_str("Mesh");
    if m.kind != expected {
        return Err(BevyBlenderError::InvalidInstanceType { expected, found: m.kind.clone() });
    }
    let field = if !faces_ok(m) {
        Some("mpoly")
    } else if !loops_ok(m) {
        Some("mloop")
    } else if m.uv_loop_count > m.loop_vertices.len() {
        Some("mloopuv")
    } else {
        None
    };
    proof {
        reveal_strlit("mpoly");
        reveal_strlit("mloop");
        reveal_strlit("mloopuv");
    }
    if let Some(f) = field {
        return Err(BevyBlenderError::MalformedRecord { record: m.name.clone(), field: String::from_str(f) });
    }
    let ghost all_loops = mesh_face_loops(*m);
    let mut face_loops: Vec<Vec<u32>> = Vec::new();
    let mut indices: Vec<u32> = Vec::new();
    let mut corners: Vec<Tri> = Vec::new();
    for k in 0..m.faces.len()
        invariant
            well_formed(*m),
            all_loops == mesh_face_loops(*m),
            corners@ =~= all_loops.take(k as int).map_values(|l: Seq<u32>| corners_of(l)),
            face_loops@.map_values(|l: Vec<u32>| l@) =~= all_loops.take(k as int),
            indices@ == mesh_indices(all_loops.take(k as int)),
    {
        let l = face_loop(&m.loop_vertices, &m.faces[k]);
        let tris = triangulate(&l);
        push_tri_indices(&mut indices, &tris);
        corners.push((l[0], l[1], l[l.len() - 1]));
        face_loops.push(l);
        proof {
            assert(all_loops.take(k + 1).drop_last() =~= all_loops.take(k as int));
            assert(face_loops@.map_values(|l: Vec<u32>| l@) =~= all_loops.take(k + 1));
            assert(corners@ =~= all_loops.take(k + 1).map_values(|l: Seq<u32>| corners_of(l)));
        }
    }
    proof {
        assert(all_loops.take(m.faces@.len() as int) =~= all_loops);
        lemma_face_loops_in_range(*m);
        lemma_indices_bound(all_loops, m.vertex_count as int);
        lemma_index_count(all_loops);
    }
    Ok(MeshTopology {
        face_loops,
        indices,
        corners,
        uv_sources: uv_sources(m),
        normal_source: NormalSource::for_version(blend_version),
    })
}

} // verus!
