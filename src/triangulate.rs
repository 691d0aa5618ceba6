use vstd::prelude::*;

verus! {

/// One triangle, as three vertex indices.
pub type Tri = (u32, u32, u32);

/// The position after `k` in a loop of length `len`, wrapping to the start.
pub open spec fn next_pos(k: int, len: int) -> int {
    if k + 1 >= len {
        0
    } else {
        k + 1
    }
}

/// The triangles that ear clipping cuts from the loop `l`, starting at the
/// cursor `cursor`.
///
/// While more than three vertices remain, the vertex under the cursor (taken
/// as the first one once the cursor has run off the end), its successor and
/// the successor's successor form one ear; the successor is removed and the
/// cursor moves to the position it held. A cursor outside the loop stands
/// for its first vertex. The last three vertices, in order,
/// form the final triangle.
pub open spec fn ear_clip(l: Seq<u32>, cursor: int) -> Seq<Tri>
    decreases l.len(),
{
    if l.len() <= 3 {
        seq![(l[0], l[1], l[2])]
    } else {
        let a = if 0 <= cursor < l.len() { cursor } else { 0 };
        let b = next_pos(a, l.len() as int);
        let c = next_pos(b, l.len() as int);
        seq![(l[a], l[b], l[c])] + ear_clip(l.remove(b), b)
    }
}

/// Whether `v` occurs in the loop `l`.
pub open spec fn in_loop(l: Seq<u32>, v: u32) -> bool {
    exists|k: int| 0 <= k < l.len() && l[k] == v
}

/// Whether the three vertices of `t` are pairwise distinct.
pub open spec fn distinct_tri(t: Tri) -> bool {
    t.0 != t.1 && t.1 != t.2 && t.0 != t.2
}

/// Removing a position keeps every remaining vertex in the loop, and keeps
/// a loop free of repeated vertices free of them.
proof fn lemma_remove_keeps(l: Seq<u32>, b: int)
    requires
        0 <= b < l.len(),
    ensures
        forall|v: u32| in_loop(l.remove(b), v) ==> in_loop(l, v),
        l.no_duplicates() ==> l.remove(b).no_duplicates(),
{
    let r = l.remove(b);
    assert forall|v: u32| in_loop(r, v) implies in_loop(l, v) by {
        let k = choose|k: int| 0 <= k < r.len() && r[k] == v;
        if k < b {
            assert(l[k] == v);
        } else {
            assert(l[k + 1] == v);
        }
    }
    if l.no_duplicates() {
        assert forall|x: int, y: int| 0 <= x < r.len() && 0 <= y < r.len() && x != y implies r[x]
            != r[y] by {
            let lx = if x < b { x } else { x + 1 };
            let ly = if y < b { y } else { y + 1 };
            assert(r[x] == l[lx]);
            assert(r[y] == l[ly]);
        }
    }
}

/// Ear clipping a loop of `L >= 3` vertices gives `L - 2` triangles, each
/// made of vertices of the loop; where the loop repeats no vertex, the three
/// vertices of every triangle are pairwise distinct.
pub proof fn lemma_ear_clip(l: Seq<u32>, cursor: int)
    requires
        l.len() >= 3,
    ensures
        ear_clip(l, cursor).len() == l.len() - 2,
        forall|k: int|
            0 <= k < ear_clip(l, cursor).len() ==> {
                let t = #[trigger] ear_clip(l, cursor)[k];
                in_loop(l, t.0) && in_loop(l, t.1) && in_loop(l, t.2)
            },
        l.no_duplicates() ==> forall|k: int|
            0 <= k < ear_clip(l, cursor).len() ==> distinct_tri(#[trigger] ear_clip(l, cursor)[k]),
    decreases l.len(),
{
    let r = ear_clip(l, cursor);
    if l.len() <= 3 {
        assert(in_loop(l, l[0]) && in_loop(l, l[1]) && in_loop(l, l[2]));
    } else {
        let a = if 0 <= cursor < l.len() { cursor } else { 0 };
        let b = next_pos(a, l.len() as int);
        let c = next_pos(b, l.len() as int);
        let rest = l.remove(b);
        lemma_ear_clip(rest, b);
        lemma_remove_keeps(l, b);
        assert(in_loop(l, l[a]) && in_loop(l, l[b]) && in_loop(l, l[c]));
        assert forall|k: int| 0 <= k < r.len() implies {
            let t = #[trigger] r[k];
            in_loop(l, t.0) && in_loop(l, t.1) && in_loop(l, t.2)
        } by {
            if k > 0 {
                assert(r[k] == ear_clip(rest, b)[k - 1]);
            }
        }
        if l.no_duplicates() {
            assert forall|k: int| 0 <= k < r.len() implies distinct_tri(#[trigger] r[k]) by {
                if k > 0 {
                    assert(r[k] == ear_clip(rest, b)[k - 1]);
                }
            }
        }
    }
}

/// Splits a face loop of three or more vertices into triangles by ear
/// clipping. No convexity test is made: the cut is purely topological.
pub fn triangulate(face_loop: &Vec<u32>) -> (r: Vec<Tri>)
    requires
        face_loop@.len() >= 3,
    ensures
        r@ == ear_clip(face_loop@, 0),
{
    let mut rest: Vec<u32> = face_loop.clone();
    let mut out: Vec<Tri> = Vec::new();
    let mut i: usize = 0;
    proof {
        assert(rest@ =~= face_loop@);
    }
    while rest.len() > 3
        invariant
            rest@.len() >= 3,
            i <= rest@.len(),
            out@ + ear_clip(rest@, i as int) == ear_clip(face_loop@, 0),
        decreases rest@.len(),
    {
        let ghost before = rest@;
        let ghost cursor = i as int;
        if i >= rest.len() {
            i = 0;
        }
        let a = rest[i];
        i = i + 1;
        if i >= rest.len() {
            i = 0;
        }
        let b = rest[i];
        let mut j: usize = i + 1;
        if j >= rest.len() {
            j = 0;
        }
        let c = rest[j];
        out.push((a, b, c));
        rest.remove(i);
        proof {
            assert(ear_clip(before, cursor) == seq![(a, b, c)] + ear_clip(rest@, i as int));
            assert((out@.drop_last() + seq![(a, b, c)]) + ear_clip(rest@, i as int) =~= out@.drop_last()
                + ear_clip(before, cursor));
        }
    }
    out.push((rest[0], rest[1], rest[2]));
    proof {
        assert(out@ =~= out@.drop_last() + ear_clip(rest@, i as int));
    }
    out
}

} // verus!
