//! The mesh buffer: parallel attribute arrays, a triangle index list, and
//! the operations that combine buffers.
//!
//! A buffer is a value: each operation consumes its receiver and returns a
//! new buffer, or spends it into a renderable [`Mesh`]. Length mismatches
//! and unsupported sinks are contract violations reported as [`MeshError`]
//! values, never repaired silently.

use vstd::prelude::*;
use crate::fx::{COORD_MAX, s_cap};
use crate::vec3::{Vec3, UV2, v3t, t3_bounded};
use crate::transform::{AffineTransform, t_wf, s_apply_point, s_apply_vector};

verus! {

/// A caller broke a buffer contract.
#[derive(Clone, Copy, PartialEq, Eq, Structural, Debug)]
pub enum MeshError {
    /// Normal count differs from position count.
    NormalCountMismatch,
    /// Texture coordinate count differs from position count.
    UvCountMismatch,
    /// The sink mesh is not a plain triangle list.
    UnsupportedTopology,
    /// The sink mesh has positions but no normals.
    MissingNormals,
    /// The sink mesh expects texture coordinates but the buffer has none.
    MissingUv,
}

/// How a renderable mesh's indices are to be read.
#[derive(Clone, Copy, PartialEq, Eq, Structural, Debug)]
pub enum Topology {
    TriangleList,
    LineList,
    PointList,
}

/// Vertex positions, parallel normals, triangle indices, and optional
/// parallel texture coordinates.
#[derive(Debug)]
pub struct MeshBuffer {
    pub positions: Vec<Vec3>,
    pub normals: Vec<Vec3>,
    pub indices: Vec<u32>,
    pub uv: Option<Vec<UV2>>,
}

/// A renderable mesh resource: attribute arrays that may each be absent,
/// and an index list, under a declared topology.
#[derive(Debug)]
pub struct Mesh {
    pub topology: Topology,
    pub positions: Option<Vec<Vec3>>,
    pub normals: Option<Vec<Vec3>>,
    pub uv: Option<Vec<UV2>>,
    pub indices: Option<Vec<u32>>,
}

/// Structural soundness of a buffer: parallel attribute lengths, whole
/// triangles, and every index in range.
pub open spec fn buf_wf(b: MeshBuffer) -> bool {
    &&& b.normals@.len() == b.positions@.len()
    &&& (b.uv matches Some(uv) ==> uv@.len() == b.positions@.len())
    &&& b.indices@.len() % 3 == 0
    &&& forall|i: int|
        0 <= i < b.indices@.len() ==> (#[trigger] b.indices@[i]) < b.positions@.len()
}

/// Every coordinate of the buffer lies in the representable range.
pub open spec fn buf_in_range(b: MeshBuffer) -> bool {
    &&& forall|i: int|
        0 <= i < b.positions@.len() ==> t3_bounded(
            v3t(#[trigger] b.positions@[i]),
            COORD_MAX as int,
        )
    &&& forall|i: int|
        0 <= i < b.normals@.len() ==> t3_bounded(v3t(#[trigger] b.normals@[i]), COORD_MAX as int)
}

/// Two meshes hold the same topology and the same attribute values.
pub open spec fn mesh_like(a: Mesh, b: Mesh) -> bool {
    &&& a.topology == b.topology
    &&& (a.positions is Some <==> b.positions is Some)
    &&& (a.positions matches Some(x) ==> b.positions matches Some(y) && x@ == y@)
    &&& (a.normals is Some <==> b.normals is Some)
    &&& (a.normals matches Some(x) ==> b.normals matches Some(y) && x@ == y@)
    &&& (a.uv is Some <==> b.uv is Some)
    &&& (a.uv matches Some(x) ==> b.uv matches Some(y) && x@ == y@)
    &&& (a.indices is Some <==> b.indices is Some)
    &&& (a.indices matches Some(x) ==> b.indices matches Some(y) && x@ == y@)
}

/// The sink had no positions and the buffer's attributes became the
/// sink's, indices unshifted; absent buffer texture coordinates leave the
/// sink's unchanged.
pub open spec fn merged_into_fresh(b: MeshBuffer, m0: Mesh, m1: Mesh) -> bool {
    &&& (m1.positions matches Some(p) && p@ == b.positions@)
    &&& (m1.normals matches Some(n) && n@ == b.normals@)
    &&& (m1.indices matches Some(ix) && ix@ == b.indices@)
    &&& (b.uv is None ==> (m1.uv is Some <==> m0.uv is Some))
    &&& (b.uv is None ==> (m0.uv matches Some(u0) ==> (m1.uv matches Some(u) && u@ == u0@)))
    &&& (b.uv matches Some(bu) ==> (m1.uv matches Some(mu) && mu@ == bu@))
}

/// The sink had positions and the buffer was appended after them, its
/// indices shifted by the sink's previous vertex count; buffer texture
/// coordinates are appended only where the sink expects them.
pub open spec fn merged_into_grown(b: MeshBuffer, m0: Mesh, m1: Mesh) -> bool {
    &&& (m0.positions matches Some(p0) ==> {
        let off = p0@.len() as int;
        &&& (m1.positions matches Some(p) && p@ == p0@ + b.positions@)
        &&& (m0.normals matches Some(n0) ==> m1.normals matches Some(n) && n@ == n0@
            + b.normals@)
        &&& (m0.indices matches Some(i0) ==> (m1.indices matches Some(ix) && ix@.len()
            == i0@.len() + b.indices@.len() && (forall|j: int|
            0 <= j < i0@.len() ==> ix@[j] == #[trigger] i0@[j]) && (forall|j: int|
            0 <= j < b.indices@.len() ==> ix@[i0@.len() + j] == (#[trigger] b.indices@[j])
                + off)))
        &&& (m0.indices is None ==> (m1.indices matches Some(ix) && ix@.len()
            == b.indices@.len() && (forall|j: int|
            0 <= j < b.indices@.len() ==> #[trigger] ix@[j] == b.indices@[j] + off)))
        &&& (m0.uv matches Some(u0) ==> (b.uv matches Some(bu) && m1.uv matches Some(u) && u@
            == u0@ + bu@))
        &&& (m0.uv is None ==> m1.uv is None)
    })
}

/// Structural soundness of a renderable mesh: normals and texture
/// coordinates parallel its positions, whole triangles, every index in
/// range.
pub open spec fn mesh_wf(m: Mesh) -> bool {
    &&& (m.positions matches Some(p) ==> (m.normals matches Some(n) && n@.len() == p@.len()))
    &&& (m.positions matches Some(p) ==> (m.uv matches Some(u) ==> u@.len() == p@.len()))
    &&& (m.positions matches Some(p) ==> (m.indices matches Some(ix) ==> ix@.len() % 3 == 0 && (
    forall|i: int| 0 <= i < ix@.len() ==> (#[trigger] ix@[i]) < p@.len())))
}

/// When a buffer may be appended into a sink mesh: the sink is a plain
/// triangle list, and if it already has positions then it also has
/// normals, and it expects texture coordinates only if the buffer brings
/// them.
pub open spec fn mesh_accepts(m: Mesh, b: MeshBuffer) -> bool {
    &&& m.topology == Topology::TriangleList
    &&& (m.positions is Some ==> m.normals is Some)
    &&& (m.positions is Some && m.uv is Some ==> b.uv is Some)
}

/// Append one vector list onto another.
pub(crate) fn extend_vec3(dst: &mut Vec<Vec3>, src: &Vec<Vec3>)
    ensures
        final(dst)@ == old(dst)@ + src@,
{
    let mut i: usize = 0;
    while i < src.len()
        invariant
            0 <= i <= src@.len(),
            dst@ == old(dst)@ + src@.take(i as int),
        decreases src@.len() - i,
    {
        dst.push(src[i]);
        i = i + 1;
        proof {
            assert(src@.take(i as int) == src@.take(i - 1).push(src@[i - 1]));
        }
    }
    proof {
        assert(src@.take(src@.len() as int) == src@);
    }
}

/// Append one texture coordinate list onto another.
pub(crate) fn extend_uv(dst: &mut Vec<UV2>, src: &Vec<UV2>)
    ensures
        final(dst)@ == old(dst)@ + src@,
{
    let mut i: usize = 0;
    while i < src.len()
        invariant
            0 <= i <= src@.len(),
            dst@ == old(dst)@ + src@.take(i as int),
        decreases src@.len() - i,
    {
        dst.push(src[i]);
        i = i + 1;
        proof {
            assert(src@.take(i as int) == src@.take(i - 1).push(src@[i - 1]));
        }
    }
    proof {
        assert(src@.take(src@.len() as int) == src@);
    }
}

/// Append an index list, shifting every index by `offset`.
fn extend_indices_offset(dst: &mut Vec<u32>, src: &Vec<u32>, offset: u32)
    requires
        forall|i: int| 0 <= i < src@.len() ==> (#[trigger] src@[i]) + offset <= u32::MAX,
    ensures
        final(dst)@.len() == old(dst)@.len() + src@.len(),
        forall|i: int| 0 <= i < old(dst)@.len() ==> final(dst)@[i] == #[trigger] old(dst)@[i],
        forall|i: int|
            0 <= i < src@.len() ==> final(dst)@[old(dst)@.len() + i] == (#[trigger] src@[i])
                + offset,
{
    let mut i: usize = 0;
    while i < src.len()
        invariant
            0 <= i <= src@.len(),
            forall|j: int| 0 <= j < src@.len() ==> (#[trigger] src@[j]) + offset <= u32::MAX,
            dst@.len() == old(dst)@.len() + i,
            forall|j: int| 0 <= j < old(dst)@.len() ==> dst@[j] == #[trigger] old(dst)@[j],
            forall|j: int|
                0 <= j < i ==> dst@[old(dst)@.len() + j] == (#[trigger] src@[j]) + offset,
        decreases src@.len() - i,
    {
        dst.push(src[i] + offset);
        i = i + 1;
    }
}

impl MeshBuffer {
    /// A buffer from parallel positions and normals and a triangle index
    /// list; rejected when the attribute lengths differ.
    pub fn new(positions: Vec<Vec3>, normals: Vec<Vec3>, indices: Vec<u32>) -> (r: Result<
        MeshBuffer,
        MeshError,
    >)
        ensures
            r is Ok <==> positions@.len() == normals@.len(),
            r matches Ok(b) ==> b.positions@ == positions@ && b.normals@ == normals@
                && b.indices@ == indices@ && b.uv is None,
            r matches Err(e) ==> e == MeshError::NormalCountMismatch,
    {
        if positions.len() != normals.len() {
            return Err(MeshError::NormalCountMismatch);
        }
        Ok(MeshBuffer { positions, normals, indices, uv: None })
    }

    /// The empty buffer.
    pub fn empty() -> (r: MeshBuffer)
        ensures
            r.positions@.len() == 0,
            r.normals@.len() == 0,
            r.indices@.len() == 0,
            r.uv is None,
            buf_wf(r),
            buf_in_range(r),
    {
        MeshBuffer { positions: Vec::new(), normals: Vec::new(), indices: Vec::new(), uv: None }
    }

    /// The same buffer carrying the given texture coordinates; rejected
    /// when their count differs from the position count.
    pub fn with_uv(self, uv: Vec<UV2>) -> (r: Result<MeshBuffer, MeshError>)
        ensures
            r is Ok <==> uv@.len() == self.positions@.len(),
            r matches Ok(b) ==> b.positions@ == self.positions@ && b.normals@ == self.normals@
                && b.indices@ == self.indices@ && (b.uv matches Some(u) && u@ == uv@),
            r matches Err(e) ==> e == MeshError::UvCountMismatch,
    {
        if uv.len() != self.positions.len() {
            return Err(MeshError::UvCountMismatch);
        }
        Ok(MeshBuffer { positions: self.positions, normals: self.normals, indices: self.indices, uv: Some(uv) })
    }

    /// A new buffer with every position mapped as a point and every
    /// normal mapped as a direction under the given transform.
    pub fn transform_by(self, tf: AffineTransform) -> (r: MeshBuffer)
        requires
            t_wf(tf),
            buf_in_range(self),
        ensures
            r.positions@.len() == self.positions@.len(),
            forall|i: int|
                0 <= i < self.positions@.len() ==> v3t(#[trigger] r.positions@[i])
                    == s_apply_point(tf, v3t(self.positions@[i])),
            r.normals@.len() == self.normals@.len(),
            forall|i: int|
                0 <= i < self.normals@.len() ==> v3t(#[trigger] r.normals@[i]) == s_apply_vector(
                    tf,
                    v3t(self.normals@[i]),
                ),
            r.indices@ == self.indices@,
            (r.uv is Some <==> self.uv is Some),
            (r.uv matches Some(u) ==> self.uv matches Some(su) && u@ == su@),
            buf_in_range(r),
            buf_wf(self) ==> buf_wf(r),
    {
        let mut positions: Vec<Vec3> = Vec::new();
        let mut i: usize = 0;
        while i < self.positions.len()
            invariant
                t_wf(tf),
                buf_in_range(self),
                0 <= i <= self.positions@.len(),
                positions@.len() == i,
                forall|j: int|
                    0 <= j < i ==> v3t(#[trigger] positions@[j]) == s_apply_point(
                        tf,
                        v3t(self.positions@[j]),
                    ),
                forall|j: int|
                    0 <= j < i ==> t3_bounded(v3t(#[trigger] positions@[j]), COORD_MAX as int),
            decreases self.positions@.len() - i,
        {
            positions.push(tf.apply_point(self.positions[i]));
            i = i + 1;
        }
        let mut normals: Vec<Vec3> = Vec::new();
        let mut k: usize = 0;
        while k < self.normals.len()
            invariant
                t_wf(tf),
                buf_in_range(self),
                0 <= k <= self.normals@.len(),
                normals@.len() == k,
                forall|j: int|
                    0 <= j < k ==> v3t(#[trigger] normals@[j]) == s_apply_vector(
                        tf,
                        v3t(self.normals@[j]),
                    ),
                forall|j: int|
                    0 <= j < k ==> t3_bounded(v3t(#[trigger] normals@[j]), COORD_MAX as int),
            decreases self.normals@.len() - k,
        {
            normals.push(tf.apply_vector(self.normals[k]));
            k = k + 1;
        }
        MeshBuffer { positions, normals, indices: self.indices, uv: self.uv }
    }

    /// The concatenation of two buffers: the other's attributes follow
    /// this buffer's, its indices shifted by this buffer's position
    /// count, and texture coordinates kept only when both sides have
    /// them.
    pub fn merge_with(self, other: MeshBuffer) -> (r: MeshBuffer)
        requires
            buf_wf(self),
            buf_wf(other),
            self.positions@.len() + other.positions@.len() <= u32::MAX,
        ensures
            r.positions@ == self.positions@ + other.positions@,
            r.normals@ == self.normals@ + other.normals@,
            r.indices@.len() == self.indices@.len() + other.indices@.len(),
            forall|i: int|
                0 <= i < self.indices@.len() ==> r.indices@[i] == #[trigger] self.indices@[i],
            forall|i: int|
                0 <= i < other.indices@.len() ==> r.indices@[self.indices@.len() + i]
                    == (#[trigger] other.indices@[i]) + self.positions@.len(),
            (r.uv is Some <==> (self.uv is Some && other.uv is Some)),
            (r.uv matches Some(u) ==> self.uv matches Some(a) && other.uv matches Some(b) && u@
                == a@ + b@),
            buf_wf(r),
            buf_in_range(self) && buf_in_range(other) ==> buf_in_range(r),
    {
        let offset: u32 = self.positions.len() as u32;
        let mut positions = self.positions;
        let mut normals = self.normals;
        let mut indices = self.indices;
        extend_indices_offset(&mut indices, &other.indices, offset);
        extend_vec3(&mut positions, &other.positions);
        extend_vec3(&mut normals, &other.normals);
        let uv: Option<Vec<UV2>> = match (self.uv, other.uv) {
            (Some(mut a), Some(b)) => {
                extend_uv(&mut a, &b);
                Some(a)
            },
            _ => None,
        };
        let r = MeshBuffer { positions, normals, indices, uv };
        proof {
            assert forall|i: int| 0 <= i < r.indices@.len() implies (#[trigger] r.indices@[i])
                < r.positions@.len() by {
                if i < self.indices@.len() {
                    assert(self.indices@[i] < self.positions@.len());
                } else {
                    assert(r.indices@[i] == other.indices@[i - self.indices@.len()]
                        + self.positions@.len());
                }
            }
            assert(r.indices@.len() % 3 == 0) by {
                vstd::arithmetic::div_mod::lemma_add_mod_noop(
                    self.indices@.len() as int,
                    other.indices@.len() as int,
                    3,
                );
            }
        }
        r
    }

    /// Append this buffer into a renderable mesh, shifting indices by the
    /// sink's current vertex count. Rejected, with the sink untouched,
    /// when the sink is not a triangle list, has positions without
    /// normals, or expects texture coordinates the buffer lacks; texture
    /// coordinates the sink does not expect are dropped.
    pub fn merge_into(self, mesh: &mut Mesh) -> (r: Result<(), MeshError>)
        requires
            buf_wf(self),
            (old(mesh).positions matches Some(p) ==> p@.len() + self.positions@.len()
                <= u32::MAX),
        ensures
            r is Ok <==> mesh_accepts(*old(mesh), self),
            r is Err ==> mesh_like(*final(mesh), *old(mesh)),
            r matches Err(e) ==> (e == MeshError::UnsupportedTopology <==> old(mesh).topology
                != Topology::TriangleList),
            final(mesh).topology == old(mesh).topology,
            r is Ok && old(mesh).positions is None ==> merged_into_fresh(
                self,
                *old(mesh),
                *final(mesh),
            ),
            r is Ok && old(mesh).positions is Some ==> merged_into_grown(
                self,
                *old(mesh),
                *final(mesh),
            ),
    {
        match mesh.topology {
            Topology::TriangleList => {},
            _ => {
                return Err(MeshError::UnsupportedTopology);
            },
        }
        if mesh.positions.is_some() {
            if mesh.normals.is_none() {
                return Err(MeshError::MissingNormals);
            }
            if mesh.uv.is_some() && self.uv.is_none() {
                return Err(MeshError::MissingUv);
            }
            let offset: u32 = match &mesh.positions {
                Some(p) => p.len() as u32,
                None => vstd::pervasive::unreached(),
            };
            match &mut mesh.indices {
                Some(ix) => extend_indices_offset(ix, &self.indices, offset),
                None => {
                    let mut ix: Vec<u32> = Vec::new();
                    extend_indices_offset(&mut ix, &self.indices, offset);
                    mesh.indices = Some(ix);
                },
            }
            match &mut mesh.positions {
                Some(p) => extend_vec3(p, &self.positions),
                None => vstd::pervasive::unreached(),
            }
            match &mut mesh.normals {
                Some(n) => extend_vec3(n, &self.normals),
                None => vstd::pervasive::unreached(),
            }
            match &mut mesh.uv {
                Some(u) => {
                    match &self.uv {
                        Some(bu) => extend_uv(u, bu),
                        None => vstd::pervasive::unreached(),
                    }
                },
                None => {},
            }
        } else {
            mesh.positions = Some(self.positions);
            mesh.normals = Some(self.normals);
            if let Some(uv) = self.uv {
                mesh.uv = Some(uv);
            }
            mesh.indices = Some(self.indices);
        }
        Ok(())
    }

    /// Spend this buffer as a standalone renderable triangle-list mesh
    /// owning its attribute arrays.
    pub fn into_mesh(self) -> (r: Mesh)
        ensures
            r.topology == Topology::TriangleList,
            buf_wf(self) ==> mesh_wf(r),
            r.positions matches Some(p) && p@ == self.positions@,
            r.normals matches Some(n) && n@ == self.normals@,
            r.indices matches Some(ix) && ix@ == self.indices@,
            (r.uv is Some <==> self.uv is Some),
            (r.uv matches Some(u) ==> self.uv matches Some(su) && u@ == su@),
    {
        Mesh {
            topology: Topology::TriangleList,
            positions: Some(self.positions),
            normals: Some(self.normals),
            uv: self.uv,
            indices: Some(self.indices),
        }
    }
}

impl Mesh {
    /// An empty triangle-list mesh with no attributes yet.
    pub fn new_triangle_list() -> (r: Mesh)
        ensures
            r.topology == Topology::TriangleList,
            r.positions is None,
            r.normals is None,
            r.uv is None,
            r.indices is None,
    {
        Mesh { topology: Topology::TriangleList, positions: None, normals: None, uv: None, indices: None }
    }
}

} // verus!
