use vstd::prelude::*;

use core::ops::Range;

verus! {

/// A run of the index buffer drawn with one material.
#[derive(Debug)]
pub struct SubMesh {
    pub range: Range<usize>,
    pub material: usize,
}

impl Clone for SubMesh {
    fn clone(&self) -> (s: Self)
        ensures
            s == *self,
    {
        SubMesh { range: self.range.start..self.range.end, material: self.material }
    }
}

impl SubMesh {
    pub fn new(range: Range<usize>, material: usize) -> (s: Self)
        ensures
            s.range == range,
            s.material == material,
    {
        SubMesh { range, material }
    }
}

/// The geometry of one mesh of a model file, as far as index assembly
/// needs it: how many vertices it has, its faces as lists of vertex
/// indices local to the mesh, and its material slot.
#[derive(Debug)]
pub struct MeshSource {
    pub vertex_count: usize,
    pub faces: Vec<Vec<u32>>,
    pub material: usize,
}

/// The meshes of a model joined into one index buffer, with one sub-mesh
/// per source mesh.
pub struct MergedGeometry {
    pub indices: Vec<u32>,
    pub sub_meshes: Vec<SubMesh>,
}

/// The faces' indices one after another.
pub open spec fn concat_faces(faces: Seq<Vec<u32>>) -> Seq<u32>
    decreases faces.len(),
{
    if faces.len() == 0 {
        Seq::empty()
    } else {
        concat_faces(faces.drop_last()) + faces.last()@
    }
}

/// Where the vertices of mesh `k` start in the joined vertex buffer: the
/// vertex counts before it, each taken as a `u32`.
pub open spec fn vertex_offset(meshes: Seq<MeshSource>, k: nat) -> int
    decreases k,
{
    if k == 0 {
        0
    } else {
        vertex_offset(meshes, (k - 1) as nat) + (#[verifier::truncate] (meshes[k - 1].vertex_count as u32))
    }
}

/// The indices of mesh `k`, moved to where its vertices start.
pub open spec fn mesh_indices_at(meshes: Seq<MeshSource>, k: nat) -> Seq<u32> {
    concat_faces(meshes[k as int].faces@).map_values(
        |i: u32| (i + vertex_offset(meshes, k)) as u32,
    )
}

/// The joined index buffer of the first `k` meshes.
pub open spec fn merged_indices(meshes: Seq<MeshSource>, k: nat) -> Seq<u32>
    decreases k,
{
    if k == 0 {
        Seq::empty()
    } else {
        merged_indices(meshes, (k - 1) as nat) + mesh_indices_at(meshes, (k - 1) as nat)
    }
}

/// The sub-mesh of mesh `k`: its run of the joined index buffer and its
/// material.
pub open spec fn merged_sub_mesh(meshes: Seq<MeshSource>, k: int) -> SubMesh {
    SubMesh {
        range: Range {
            start: merged_indices(meshes, k as nat).len() as usize,
            end: merged_indices(meshes, (k + 1) as nat).len() as usize,
        },
        material: meshes[k].material,
    }
}

/// Joining stays within `u32`: no running vertex offset and no moved index
/// passes `u32::MAX`.
pub open spec fn merge_fits(meshes: Seq<MeshSource>) -> bool {
    &&& forall|k: int|
        0 <= k < meshes.len() ==> #[trigger] vertex_offset(meshes, (k + 1) as nat) <= u32::MAX
    &&& forall|k: int, i: int|
        0 <= k < meshes.len() && 0 <= i < concat_faces(meshes[k].faces@).len() ==> #[trigger] concat_faces(
            meshes[k].faces@,
        )[i] + vertex_offset(meshes, k as nat) <= u32::MAX
}

/// Joins the meshes' faces into one index buffer, moving each mesh's
/// indices past the vertices of the meshes before it, and records one
/// sub-mesh per mesh.
pub fn merge_meshes(meshes: &Vec<MeshSource>) -> (r: MergedGeometry)
    requires
        merge_fits(meshes@),
    ensures
        r.indices@ == merged_indices(meshes@, meshes@.len()),
        r.sub_meshes@ == Seq::new(meshes@.len(), |k: int| merged_sub_mesh(meshes@, k)),
{
    let mut indices: Vec<u32> = Vec::new();
    let mut sub_meshes: Vec<SubMesh> = Vec::new();
    let mut v_offset: u32 = 0;
    let mut k: usize = 0;
    while k < meshes.len()
        invariant
            k <= meshes@.len(),
            merge_fits(meshes@),
            v_offset == vertex_offset(meshes@, k as nat),
            indices@ == merged_indices(meshes@, k as nat),
            sub_meshes@ == Seq::new(k as nat, |j: int| merged_sub_mesh(meshes@, j)),
        decreases meshes@.len() - k,
    {
        let mesh = &meshes[k];
        let ghost moved = mesh_indices_at(meshes@, k as nat);
        let ghost all = concat_faces(mesh.faces@);
        let start = indices.len();
        let mut f: usize = 0;
        while f < mesh.faces.len()
            invariant
                k < meshes@.len(),
                *mesh == meshes@[k as int],
                merge_fits(meshes@),
                v_offset == vertex_offset(meshes@, k as nat),
                all == concat_faces(mesh.faces@),
                f <= mesh.faces@.len(),
                start == merged_indices(meshes@, k as nat).len(),
                indices@ == merged_indices(meshes@, k as nat) + concat_faces(
                    mesh.faces@.take(f as int),
                ).map_values(|i: u32| (i + v_offset) as u32),
            decreases mesh.faces@.len() - f,
        {
            let face = &mesh.faces[f];
            let ghost before = indices@;
            let ghost done = concat_faces(mesh.faces@.take(f as int));
            proof {
                lemma_concat_step(mesh.faces@, f as int);
                lemma_concat_prefix(mesh.faces@, f + 1, mesh.faces@.len() as int);
                assert(mesh.faces@.take(mesh.faces@.len() as int) =~= mesh.faces@);
                assert forall|j: int| 0 <= j < face@.len() implies all[done.len() + j]
                    == #[trigger] face@[j] by {
                    assert(concat_faces(mesh.faces@.take(f + 1))[done.len() + j] == face@[j]);
                }
            }
            let mut i: usize = 0;
            while i < face.len()
                invariant
                    k < meshes@.len(),
                    *mesh == meshes@[k as int],
                    f < mesh.faces@.len(),
                    *face == mesh.faces@[f as int],
                    merge_fits(meshes@),
                    v_offset == vertex_offset(meshes@, k as nat),
                    all == concat_faces(mesh.faces@),
                    done == concat_faces(mesh.faces@.take(f as int)),
                    done.len() + face@.len() <= all.len(),
                    forall|j: int| 0 <= j < face@.len() ==> all[done.len() + j] == #[trigger] face@[j],
                    i <= face@.len(),
                    indices@ == before + face@.take(i as int).map_values(
                        |x: u32| (x + v_offset) as u32,
                    ),
                decreases face@.len() - i,
            {
                proof {
                    let at = done.len() + i as int;
                    assert(0 <= at < concat_faces(meshes@[k as int].faces@).len());
                    assert(concat_faces(meshes@[k as int].faces@)[at] + vertex_offset(
                        meshes@,
                        k as nat,
                    ) <= u32::MAX);
                    assert(all[done.len() + i as int] == face@[i as int]);
                    assert(all[done.len() + i as int] + vertex_offset(meshes@, k as nat)
                        <= u32::MAX);
                }
                let moved_index = face[i] + v_offset;
                indices.push(moved_index);
                assert(face@.take(i + 1).map_values(|x: u32| (x + v_offset) as u32) =~= face@.take(
                    i as int,
                ).map_values(|x: u32| (x + v_offset) as u32).push(moved_index));
                i = i + 1;
            }
            assert(face@.take(face@.len() as int) =~= face@);
            assert(concat_faces(mesh.faces@.take(f + 1)) =~= done + face@);
            assert(indices@ =~= merged_indices(meshes@, k as nat) + concat_faces(
                mesh.faces@.take(f + 1),
            ).map_values(|x: u32| (x + v_offset) as u32));
            f = f + 1;
        }
        assert(mesh.faces@.take(mesh.faces@.len() as int) =~= mesh.faces@);
        assert(indices@ =~= merged_indices(meshes@, (k + 1) as nat));
        let end = indices.len();
        sub_meshes.push(SubMesh::new(start..end, mesh.material));
        assert(sub_meshes@ =~= Seq::new((k + 1) as nat, |j: int| merged_sub_mesh(meshes@, j)));
        assert(vertex_offset(meshes@, (k + 1) as nat) <= u32::MAX);
        v_offset = v_offset + #[verifier::truncate] (mesh.vertex_count as u32);
        k = k + 1;
    }
    MergedGeometry { indices, sub_meshes }
}

/// Each mesh's faces only name its own vertices.
pub open spec fn faces_in_range(meshes: Seq<MeshSource>) -> bool {
    forall|k: int, i: int|
        0 <= k < meshes.len() && 0 <= i < concat_faces(meshes[k].faces@).len() ==> #[trigger] concat_faces(
            meshes[k].faces@,
        )[i] < meshes[k].vertex_count
}

/// The sub-meshes cover the joined index buffer in order, without gaps or
/// overlaps: the first starts at 0, each ends where the next starts, and
/// the last ends at the buffer's end.
pub proof fn lemma_sub_meshes_tile(meshes: Seq<MeshSource>)
    requires
        merged_indices(meshes, meshes.len()).len() <= usize::MAX,
    ensures
        meshes.len() > 0 ==> merged_sub_mesh(meshes, 0).range.start == 0,
        forall|k: int|
            0 <= k < meshes.len() - 1 ==> #[trigger] merged_sub_mesh(meshes, k).range.end
                == merged_sub_mesh(meshes, k + 1).range.start,
        forall|k: int|
            0 <= k < meshes.len() ==> #[trigger] merged_sub_mesh(meshes, k).range.start
                <= merged_sub_mesh(meshes, k).range.end,
        meshes.len() > 0 ==> merged_sub_mesh(meshes, meshes.len() - 1).range.end == merged_indices(
            meshes,
            meshes.len(),
        ).len(),
{
    assert forall|k: int| 0 <= k <= meshes.len() implies #[trigger] merged_indices(
        meshes,
        k as nat,
    ).len() <= merged_indices(meshes, meshes.len()).len() by {
        lemma_merged_len_monotone(meshes, k as nat, meshes.len());
    }
    assert forall|k: int| 0 <= k < meshes.len() implies #[trigger] merged_sub_mesh(
        meshes,
        k,
    ).range.start <= merged_sub_mesh(meshes, k).range.end by {
        lemma_merged_len_monotone(meshes, k as nat, (k + 1) as nat);
        lemma_merged_len_monotone(meshes, (k + 1) as nat, meshes.len());
    }
}

proof fn lemma_merged_len_monotone(meshes: Seq<MeshSource>, a: nat, b: nat)
    requires
        a <= b,
    ensures
        merged_indices(meshes, a).len() <= merged_indices(meshes, b).len(),
    decreases b - a,
{
    if a < b {
        lemma_merged_len_monotone(meshes, a, (b - 1) as nat);
    }
}

/// When every mesh's faces name only its own vertices, every index of the
/// joined buffer names a vertex of the joined vertex buffer (whose length
/// is `vertex_offset(meshes, meshes.len())`).
pub proof fn lemma_merged_indices_in_range(meshes: Seq<MeshSource>, k: nat)
    requires
        k <= meshes.len(),
        merge_fits(meshes),
        faces_in_range(meshes),
        forall|m: int| 0 <= m < meshes.len() ==> #[trigger] meshes[m].vertex_count <= u32::MAX,
    ensures
        forall|i: int|
            0 <= i < merged_indices(meshes, k).len() ==> #[trigger] merged_indices(meshes, k)[i]
                < vertex_offset(meshes, k),
    decreases k,
{
    if k > 0 {
        let j = (k - 1) as nat;
        lemma_merged_indices_in_range(meshes, j);
        let prev = merged_indices(meshes, j);
        let own = mesh_indices_at(meshes, j);
        let all = merged_indices(meshes, k);
        assert(vertex_offset(meshes, ((j as int) + 1) as nat) <= u32::MAX);
        assert(meshes[j as int].vertex_count <= u32::MAX);
        assert forall|i: int| 0 <= i < all.len() implies #[trigger] all[i] < vertex_offset(
            meshes,
            k,
        ) by {
            if i < prev.len() {
                assert(all[i] == prev[i]);
                lemma_vertex_offset_monotone(meshes, j, k);
            } else {
                let at = i - prev.len();
                assert(all[i] == own[at]);
                let raw = concat_faces(meshes[j as int].faces@)[at];
                assert(raw + vertex_offset(meshes, j) <= u32::MAX);
                assert(raw < meshes[j as int].vertex_count);
                assert(own[at] == (raw + vertex_offset(meshes, j)) as u32);
                lemma_vertex_offset_monotone(meshes, 0, j);
            }
        }
    }
}

/// The indices of mesh `k` refer only to its own vertices in the joined
/// vertex buffer: its run of the joined index buffer lies between where its
/// vertices start and where the next mesh's vertices start.
pub proof fn lemma_mesh_indices_use_own_vertices(meshes: Seq<MeshSource>, k: nat)
    requires
        k < meshes.len(),
        merge_fits(meshes),
        faces_in_range(meshes),
        forall|m: int| 0 <= m < meshes.len() ==> #[trigger] meshes[m].vertex_count <= u32::MAX,
    ensures
        forall|i: int|
            merged_indices(meshes, k).len() <= i < merged_indices(meshes, (k + 1) as nat).len()
                ==> vertex_offset(meshes, k) <= #[trigger] merged_indices(meshes, (k + 1) as nat)[i]
                < vertex_offset(meshes, (k + 1) as nat),
        forall|i: int|
            0 <= i < merged_indices(meshes, k).len() ==> #[trigger] merged_indices(
                meshes,
                (k + 1) as nat,
            )[i] == merged_indices(meshes, k)[i],
{
    let prev = merged_indices(meshes, k);
    let own = mesh_indices_at(meshes, k);
    let all = merged_indices(meshes, (k + 1) as nat);
    assert(vertex_offset(meshes, ((k as int) + 1) as nat) <= u32::MAX);
    assert(meshes[k as int].vertex_count <= u32::MAX);
    lemma_vertex_offset_monotone(meshes, 0, k);
    assert forall|i: int| prev.len() <= i < all.len() implies vertex_offset(meshes, k)
        <= #[trigger] all[i] < vertex_offset(meshes, (k + 1) as nat) by {
        let at = i - prev.len();
        assert(all[i] == own[at]);
        let raw = concat_faces(meshes[k as int].faces@)[at];
        assert(raw + vertex_offset(meshes, k) <= u32::MAX);
        assert(raw < meshes[k as int].vertex_count);
        assert(own[at] == (raw + vertex_offset(meshes, k)) as u32);
    }
}

proof fn lemma_vertex_offset_monotone(meshes: Seq<MeshSource>, a: nat, b: nat)
    requires
        a <= b,
    ensures
        vertex_offset(meshes, a) <= vertex_offset(meshes, b),
    decreases b - a,
{
    if a < b {
        lemma_vertex_offset_monotone(meshes, a, (b - 1) as nat);
    }
}

/// The indices of the first `m` faces begin the indices of the first `n`
/// faces, for `m <= n`.
proof fn lemma_concat_prefix(faces: Seq<Vec<u32>>, m: int, n: int)
    requires
        0 <= m <= n <= faces.len(),
    ensures
        concat_faces(faces.take(m)).len() <= concat_faces(faces.take(n)).len(),
        forall|j: int|
            0 <= j < concat_faces(faces.take(m)).len() ==> #[trigger] concat_faces(faces.take(m))[j]
                == concat_faces(faces.take(n))[j],
    decreases n - m,
{
    if m < n {
        lemma_concat_prefix(faces, m, n - 1);
        lemma_concat_step(faces, n - 1);
    }
}

/// Taking one more face appends its indices.
proof fn lemma_concat_step(faces: Seq<Vec<u32>>, n: int)
    requires
        0 <= n < faces.len(),
    ensures
        concat_faces(faces.take(n + 1)) == concat_faces(faces.take(n)) + faces[n]@,
{
    assert(faces.take(n + 1).drop_last() =~= faces.take(n));
}

} // verus!
