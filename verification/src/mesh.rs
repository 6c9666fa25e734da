//! Triangle meshes as the renderer consumes them: one vertex and one normal per
//! triangle corner. Coordinates are IEEE-754 single-precision values held by
//! their bit patterns, so that the mesh logic is exact integer logic; the
//! front end converts them from and to `f32` (`to_bits` / `from_bits`).
use vstd::prelude::*;
use crate::float_bits::{is_nan, le, less, lt, is_zero, zero};
use crate::config::{lower, lower_equals};
use crate::text::{decimal_digits, int_error_text, extension_of, file_extension, push_all, push_decimal, same_text, string_from_chars};
use crate::threemf::{parses_all, parses_consistently, threemf_raw_outcome};
use crate::readers::{load_obj, obj_data, obj_models_of, read_stl, stl_read_of, ObjModel};

verus! {

/// A mesh vertex; each coordinate is the bit pattern of an `f32`.
#[derive(Clone, Copy, Debug, PartialEq, Eq)]
pub struct Vertex {
    pub position: [u32; 3],
}

/// A vertex normal; each component is the bit pattern of an `f32`.
#[derive(Clone, Copy, Debug, PartialEq, Eq)]
pub struct Normal {
    pub normal: [u32; 3],
}

/// A triangle as model files store it: a face normal and three corners.
#[derive(Clone, Copy, Debug, PartialEq, Eq)]
pub struct Triangle {
    pub normal: [u32; 3],
    pub vertices: [[u32; 3]; 3],
}

/// No coordinate of `p` is NaN.
pub open spec fn finite_point(p: [u32; 3]) -> bool {
    !is_nan(p[0]) && !is_nan(p[1]) && !is_nan(p[2])
}

/// The normal vector is `(0, 0, 0)` as `f32` comparison sees it (zeros of either sign).
pub open spec fn is_zero_vector(n: [u32; 3]) -> bool {
    is_zero(n[0]) && is_zero(n[1]) && is_zero(n[2])
}

/// One axis of a box after meeting a coordinate `v`: `v` lowers the minimum when it
/// is smaller, otherwise raises the maximum when it is larger.
pub open spec fn expand_axis(lo: u32, hi: u32, v: u32) -> (u32, u32) {
    if lt(v, lo) {
        (v, hi)
    } else if lt(hi, v) {
        (lo, v)
    } else {
        (lo, hi)
    }
}

/// Axis-aligned bounds of the vertices seen so far.
#[derive(Clone, Copy, Debug, PartialEq, Eq)]
pub struct BoundingBox {
    pub min: [u32; 3],
    pub max: [u32; 3],
}

impl BoundingBox {
    /// On every axis the minimum is at most the maximum (neither is NaN).
    pub open spec fn ordered(self) -> bool {
        forall|i: int| 0 <= i < 3 ==> le(#[trigger] self.min[i], self.max[i])
    }

    /// `p` lies inside the box on every axis.
    pub open spec fn contains(self, p: [u32; 3]) -> bool {
        forall|i: int| 0 <= i < 3 ==> le(#[trigger] self.min[i], p[i]) && le(p[i], self.max[i])
    }

    /// `next` is this box after `expand(v)`.
    pub open spec fn expands_to(self, v: [u32; 3], next: BoundingBox) -> bool {
        forall|i: int| 0 <= i < 3 ==> (#[trigger] next.min[i], next.max[i]) == expand_axis(self.min[i], self.max[i], v[i])
    }

    /// This box after `expand(v)`.
    pub open spec fn expanded(self, v: [u32; 3]) -> BoundingBox {
        BoundingBox {
            min: [expand_axis(self.min[0], self.max[0], v[0]).0, expand_axis(self.min[1], self.max[1], v[1]).0,
                expand_axis(self.min[2], self.max[2], v[2]).0],
            max: [expand_axis(self.min[0], self.max[0], v[0]).1, expand_axis(self.min[1], self.max[1], v[1]).1,
                expand_axis(self.min[2], self.max[2], v[2]).1],
        }
    }

    /// The degenerate box of a single vertex.
    pub fn new(vert: &[u32; 3]) -> (b: BoundingBox)
        ensures
            b.min == *vert,
            b.max == *vert,
    {
        BoundingBox { min: *vert, max: *vert }
    }

    /// Grows the box to take in `vert`. A coordinate smaller than the minimum
    /// replaces it; otherwise a coordinate larger than the maximum replaces that.
    /// NaN coordinates compare false and change nothing.
    pub fn expand(&mut self, vert: &[u32; 3])
        ensures
            old(self).expands_to(*vert, *final(self)),
            *final(self) == old(self).expanded(*vert),
    {
        let (l0, h0) = expand_axis_exec(self.min[0], self.max[0], vert[0]);
        let (l1, h1) = expand_axis_exec(self.min[1], self.max[1], vert[1]);
        let (l2, h2) = expand_axis_exec(self.min[2], self.max[2], vert[2]);
        let ghost before = *self;
        self.min = [l0, l1, l2];
        self.max = [h0, h1, h2];
        assert forall|i: int| 0 <= i < 3 implies (#[trigger] self.min[i], self.max[i]) == expand_axis(before.min[i], before.max[i], vert[i]) by {
            if i == 0 {} else if i == 1 {} else {}
        }
        assert(self.min =~= before.expanded(*vert).min);
        assert(self.max =~= before.expanded(*vert).max);
    }
}

fn expand_axis_exec(lo: u32, hi: u32, v: u32) -> (r: (u32, u32))
    ensures
        r == expand_axis(lo, hi, v),
{
    if less(v, lo) {
        (v, hi)
    } else if less(hi, v) {
        (lo, v)
    } else {
        (lo, hi)
    }
}

/// A box made from one vertex without NaN coordinates is ordered and holds it.
pub proof fn lemma_new_box_contains(v: [u32; 3])
    requires
        finite_point(v),
    ensures
        (BoundingBox { min: v, max: v }).ordered(),
        (BoundingBox { min: v, max: v }).contains(v),
{
    let b = BoundingBox { min: v, max: v };
    assert forall|i: int| 0 <= i < 3 implies le(#[trigger] b.min[i], b.max[i]) by {
        if i == 0 {} else if i == 1 {} else {}
    }
    assert forall|i: int| 0 <= i < 3 implies le(#[trigger] b.min[i], v[i]) && le(v[i], b.max[i]) by {
        if i == 0 {} else if i == 1 {} else {}
    }
}

/// Expanding an ordered box by a vertex without NaN coordinates keeps it ordered,
/// makes it hold that vertex, and keeps every point it held before.
pub proof fn lemma_expand_contains(b: BoundingBox, v: [u32; 3], next: BoundingBox, w: [u32; 3])
    requires
        b.ordered(),
        finite_point(v),
        b.expands_to(v, next),
    ensures
        next.ordered(),
        next.contains(v),
        b.contains(w) ==> next.contains(w),
{
    assert forall|i: int| 0 <= i < 3 implies le(#[trigger] next.min[i], next.max[i]) && le(next.min[i], v[i]) && le(v[i], next.max[i]) by {
        assert(le(b.min[i], b.max[i]));
        assert((next.min[i], next.max[i]) == expand_axis(b.min[i], b.max[i], v[i]));
    }
    if b.contains(w) {
        assert forall|i: int| 0 <= i < 3 implies le(#[trigger] next.min[i], w[i]) && le(w[i], next.max[i]) by {
            assert(le(b.min[i], w[i]) && le(w[i], b.max[i]));
            assert((next.min[i], next.max[i]) == expand_axis(b.min[i], b.max[i], v[i]));
        }
    }
}

/// A NaN coordinate leaves its axis of the box as it was.
pub proof fn lemma_expand_ignores_nan(b: BoundingBox, v: [u32; 3], next: BoundingBox, i: int)
    requires
        b.expands_to(v, next),
        0 <= i < 3,
        is_nan(v[i]),
    ensures
        next.min[i] == b.min[i],
        next.max[i] == b.max[i],
{
    assert((next.min[i], next.max[i]) == expand_axis(b.min[i], b.max[i], v[i]));
}

/// Every bound of the expanded box is the old bound or the new coordinate.
pub proof fn lemma_expand_bounds_attained(b: BoundingBox, v: [u32; 3], next: BoundingBox, i: int)
    requires
        b.expands_to(v, next),
        0 <= i < 3,
    ensures
        next.min[i] == b.min[i] || next.min[i] == v[i],
        next.max[i] == b.max[i] || next.max[i] == v[i],
{
    assert((next.min[i], next.max[i]) == expand_axis(b.min[i], b.max[i], v[i]));
}

/// The corners of a triangle list, three per triangle in order.
pub open spec fn triangle_corners(tris: Seq<Triangle>) -> Seq<Vertex> {
    Seq::new(3 * tris.len(), |k: int| Vertex { position: tris[k / 3].vertices[k % 3] })
}

/// The box `b` grown by each vertex of `vs` in turn.
pub open spec fn bounds_over(b: BoundingBox, vs: Seq<Vertex>) -> BoundingBox
    decreases vs.len(),
{
    if vs.len() == 0 {
        b
    } else {
        bounds_over(b, vs.drop_last()).expanded(vs.last().position)
    }
}

/// `ns` holds, for each triangle of `tris`, three copies of its normal: the stored
/// one where it is used, otherwise one that `face_normal` returns for the triangle.
pub open spec fn normals_for<F: Fn(&Triangle) -> Normal>(
    ns: Seq<Normal>,
    tris: Seq<Triangle>,
    recalc_normals: bool,
    face_normal: F,
) -> bool {
    &&& ns.len() == 3 * tris.len()
    &&& forall|t: int| 0 <= t < tris.len() ==> normals_of_triangle(ns, t, #[trigger] tris[t], recalc_normals, face_normal)
}

/// Entries `3t`, `3t + 1`, `3t + 2` of `ns` are one normal for triangle `tri`: its
/// stored normal where that is used, otherwise one that `face_normal` returns for it.
pub open spec fn normals_of_triangle<F: Fn(&Triangle) -> Normal>(
    ns: Seq<Normal>,
    t: int,
    tri: Triangle,
    recalc_normals: bool,
    face_normal: F,
) -> bool {
    &&& ns[3 * t + 1] == ns[3 * t]
    &&& ns[3 * t + 2] == ns[3 * t]
    &&& uses_stored_normal(tri, recalc_normals) ==> ns[3 * t] == (Normal { normal: tri.normal })
    &&& !uses_stored_normal(tri, recalc_normals) ==> face_normal.ensures((&tri,), ns[3 * t])
}

/// Every triangle of `tris` has its stored normal used.
pub open spec fn all_use_stored_normals(tris: Seq<Triangle>, recalc_normals: bool) -> bool {
    forall|t: int| 0 <= t < tris.len() ==> uses_stored_normal(#[trigger] tris[t], recalc_normals)
}

/// `m` is the mesh built from `tris` in order, with bounds starting at the first
/// corner of the first triangle and `model_had_normals` starting true.
pub open spec fn built_from_triangles<F: Fn(&Triangle) -> Normal>(
    m: Mesh,
    tris: Seq<Triangle>,
    recalc_normals: bool,
    face_normal: F,
) -> bool {
    &&& tris.len() > 0
    &&& m.vertices@ == triangle_corners(tris)
    &&& normals_for(m.normals@, tris, recalc_normals, face_normal)
    &&& m.indices@ == Seq::<usize>::empty()
    &&& m.bounds == bounds_over(BoundingBox { min: tris[0].vertices[0], max: tris[0].vertices[0] }, triangle_corners(tris))
    &&& m.model_had_normals == all_use_stored_normals(tris, recalc_normals)
    &&& m.wf()
}

/// `r` is a `Read` error whose message is `m`.
pub open spec fn is_read_error(r: Result<Mesh, MeshError>, m: Seq<char>) -> bool {
    r matches Err(MeshError::Read(s)) && s@ == m
}

/// `r` is what reading the STL file `bytes` gives: the reader's failure to
/// start as `Read`; an error before any triangle as `UnreadableFirstTriangle`
/// and a later one as `Read`, each with the reader's message; no triangle at all
/// as `NoTriangles`; otherwise the mesh of the triangles, with bounds starting
/// at the first corner of the first triangle.
pub open spec fn stl_outcome<F: Fn(&Triangle) -> Normal>(
    r: Result<Mesh, MeshError>,
    bytes: Seq<u8>,
    recalc_normals: bool,
    face_normal: F,
) -> bool {
    match stl_read_of(bytes) {
        Err(m) => is_read_error(r, m),
        Ok((tris, err)) => match err {
            Some(m) => if tris.len() == 0 {
                r matches Err(MeshError::UnreadableFirstTriangle(s)) && s@ == m
            } else {
                is_read_error(r, m)
            },
            None => if tris.len() == 0 {
                r matches Err(MeshError::NoTriangles)
            } else {
                r matches Ok(mesh) && built_from_triangles(mesh, tris, recalc_normals, face_normal)
            },
        },
    }
}

/// Why a model file gave no mesh.
#[derive(Debug)]
pub enum MeshError {
    /// The file's reader failed, with its message.
    Read(String),
    /// An STL file that yields no triangle at all.
    NoTriangles,
    /// An STL file whose first triangle cannot be read, with the reader's message.
    UnreadableFirstTriangle(String),
    /// An OBJ file without models.
    EmptyModel,
    /// An OBJ file whose first model has no complete position.
    EmptyMesh,
    /// An OBJ model whose indices do not come in threes or point past its
    /// positions or (present) normals.
    BadObjIndex,
    /// A 3MF vertex coordinate that is not a number, with the parser's message.
    InvalidCoordinate(String),
    /// A 3MF triangle corner that is not a vertex index.
    InvalidIndex(crate::text::IntError),
    /// A 3MF file without a triangle over known vertices.
    NoMeshData,
    /// A 3MF mesh with a triangle that names a vertex the mesh does not have.
    BadTriangleIndex,
}

/// The OBJ model data: positions, normals and corner indices.
pub type ObjData = (Seq<u32>, Seq<u32>, Seq<u32>);

/// The point at `index` of a flat coordinate list.
pub open spec fn obj_point(coords: Seq<u32>, index: u32) -> [u32; 3] {
    [coords[3 * index], coords[3 * index + 1], coords[3 * index + 2]]
}

/// Every corner index of the model points at a complete position (and at a
/// complete normal when the model has normals), and the indices come in threes.
pub open spec fn obj_model_indexable(m: ObjData) -> bool {
    &&& m.2.len() % 3 == 0
    &&& forall|k: int|
        0 <= k < m.2.len() ==> {
            &&& 3 * #[trigger] m.2[k] + 2 < m.0.len()
            &&& m.1.len() > 0 ==> 3 * m.2[k] + 2 < m.1.len()
        }
}

/// Triangle `t` of an OBJ model, with the zero vector as its stored normal.
pub open spec fn obj_triangle(m: ObjData, t: int) -> Triangle {
    Triangle {
        normal: [0, 0, 0],
        vertices: [obj_point(m.0, m.2[3 * t]), obj_point(m.0, m.2[3 * t + 1]), obj_point(m.0, m.2[3 * t + 2])],
    }
}

/// The triangles of an OBJ model.
pub open spec fn obj_triangles(m: ObjData) -> Seq<Triangle> {
    Seq::new(m.2.len() / 3, |t: int| obj_triangle(m, t))
}

/// The normals of an OBJ model's corners: the model's own per-corner normals when
/// it has any, otherwise one computed face normal per triangle.
pub open spec fn obj_model_normals<F: Fn(&Triangle) -> Normal>(ns: Seq<Normal>, m: ObjData, face_normal: F) -> bool {
    if m.1.len() > 0 {
        ns == Seq::new(m.2.len(), |k: int| Normal { normal: obj_point(m.1, m.2[k]) })
    } else {
        normals_for(ns, obj_triangles(m), true, face_normal)
    }
}

/// The corners of all models, in order.
pub open spec fn obj_vertices(ms: Seq<ObjData>) -> Seq<Vertex>
    decreases ms.len(),
{
    if ms.len() == 0 {
        Seq::empty()
    } else {
        obj_vertices(ms.drop_last()) + triangle_corners(obj_triangles(ms.last()))
    }
}

/// The normals of all models, in order.
pub open spec fn obj_normals<F: Fn(&Triangle) -> Normal>(ns: Seq<Normal>, ms: Seq<ObjData>, face_normal: F) -> bool
    decreases ms.len(),
{
    if ms.len() == 0 {
        ns.len() == 0
    } else {
        let k = 3 * obj_triangles(ms.last()).len();
        &&& ns.len() >= k
        &&& obj_normals(ns.take(ns.len() - k), ms.drop_last(), face_normal)
        &&& obj_model_normals(ns.skip(ns.len() - k), ms.last(), face_normal)
    }
}

/// `r` is what building the mesh of OBJ models `ms` gives: no models is
/// `EmptyModel`, a first model without a complete position is `EmptyMesh`, a
/// model that is not indexable is `BadObjIndex`, and otherwise the mesh of the
/// models.
pub open spec fn obj_outcome<F: Fn(&Triangle) -> Normal>(r: Result<Mesh, MeshError>, ms: Seq<ObjData>, face_normal: F) -> bool {
    &&& ms.len() == 0 ==> (r matches Err(MeshError::EmptyModel))
    &&& ms.len() > 0 && ms[0].0.len() < 3 ==> (r matches Err(MeshError::EmptyMesh))
    &&& ms.len() > 0 && ms[0].0.len() >= 3 && !(forall|i: int| 0 <= i < ms.len() ==> obj_model_indexable(#[trigger] ms[i]))
        ==> (r matches Err(MeshError::BadObjIndex))
    &&& ms.len() > 0 && ms[0].0.len() >= 3 && (forall|i: int| 0 <= i < ms.len() ==> obj_model_indexable(#[trigger] ms[i]))
        ==> (r matches Ok(m) && built_from_obj(m, ms, face_normal))
}

/// `r` is what reading the OBJ file `bytes` gives: the reader's failure as
/// `Read` with its message, otherwise the outcome for the models it read.
pub open spec fn obj_file_outcome<F: Fn(&Triangle) -> Normal>(r: Result<Mesh, MeshError>, bytes: Seq<u8>, face_normal: F) -> bool {
    match obj_models_of(bytes) {
        Err(m) => is_read_error(r, m),
        Ok(ms) => obj_outcome(r, ms, face_normal),
    }
}

/// `m` is the mesh of the OBJ models `ms`: their corners in order, bounds
/// starting at the first position of the first model, the models' normals, and
/// `model_had_normals` left true.
pub open spec fn built_from_obj<F: Fn(&Triangle) -> Normal>(m: Mesh, ms: Seq<ObjData>, face_normal: F) -> bool {
    &&& m.vertices@ == obj_vertices(ms)
    &&& obj_normals(m.normals@, ms, face_normal)
    &&& m.indices@ == Seq::<usize>::empty()
    &&& m.bounds == bounds_over(
        BoundingBox { min: [ms[0].0[0], ms[0].0[1], ms[0].0[2]], max: [ms[0].0[0], ms[0].0[1], ms[0].0[2]] },
        obj_vertices(ms),
    )
    &&& m.model_had_normals
    &&& m.wf()
}

proof fn lemma_normals_for_push<F: Fn(&Triangle) -> Normal>(
    ns: Seq<Normal>,
    tris: Seq<Triangle>,
    t: Triangle,
    n: Normal,
    recalc_normals: bool,
    face_normal: F,
)
    requires
        normals_for(ns, tris, recalc_normals, face_normal),
        uses_stored_normal(t, recalc_normals) ==> n == (Normal { normal: t.normal }),
        !uses_stored_normal(t, recalc_normals) ==> face_normal.ensures((&t,), n),
    ensures
        normals_for(ns + seq![n, n, n], tris.push(t), recalc_normals, face_normal),
{
    let ns2 = ns + seq![n, n, n];
    let tris2 = tris.push(t);
    assert forall|u: int| 0 <= u < tris2.len() implies normals_of_triangle(ns2, u, #[trigger] tris2[u], recalc_normals, face_normal) by {
        if u < tris.len() {
            assert(tris2[u] == tris[u]);
            assert(ns2[3 * u] == ns[3 * u]);
            assert(ns2[3 * u + 1] == ns[3 * u + 1]);
            assert(ns2[3 * u + 2] == ns[3 * u + 2]);
            assert(normals_of_triangle(ns, u, tris[u], recalc_normals, face_normal));
        } else {
            assert(tris2[u] == t);
            assert(ns2[3 * u] == n);
            assert(ns2[3 * u + 1] == n);
            assert(ns2[3 * u + 2] == n);
        }
    }
}


/// Whether every corner index of `m` is in range and the indices come in threes.
fn obj_indices_in_range(m: &ObjModel) -> (b: bool)
    ensures
        b == obj_model_indexable(m@),
{
    if m.indices.len() % 3 != 0 {
        return false;
    }
    let np = m.positions.len() / 3;
    let nn = m.normals.len() / 3;
    let mut k: usize = 0;
    while k < m.indices.len()
        invariant
            k <= m.indices.len(),
            np == m.positions.len() / 3,
            nn == m.normals.len() / 3,
            forall|j: int|
                0 <= j < k ==> {
                    &&& 3 * #[trigger] m.indices@[j] + 2 < m.positions@.len()
                    &&& m.normals@.len() > 0 ==> 3 * m.indices@[j] + 2 < m.normals@.len()
                },
        decreases m.indices.len() - k,
    {
        let ix = m.indices[k] as usize;
        if ix >= np || (m.normals.len() > 0 && ix >= nn) {
            assert(!(3 * m.indices@[k as int] + 2 < m.positions@.len() && (m.normals@.len() > 0 ==> 3 * m.indices@[k as int] + 2 < m.normals@.len())));
            return false;
        }
        k = k + 1;
    }
    true
}

proof fn lemma_bounds_over_concat(b: BoundingBox, s: Seq<Vertex>, t: Seq<Vertex>)
    ensures
        bounds_over(b, s + t) == bounds_over(bounds_over(b, s), t),
    decreases t.len(),
{
    if t.len() == 0 {
        assert(s + t =~= s);
    } else {
        assert((s + t).drop_last() =~= s + t.drop_last());
        lemma_bounds_over_concat(b, s, t.drop_last());
    }
}

proof fn lemma_triangle_corners_push(tris: Seq<Triangle>, t: Triangle)
    ensures
        triangle_corners(tris.push(t)) == triangle_corners(tris) + corners(t),
{
    let l = triangle_corners(tris.push(t));
    let r = triangle_corners(tris) + corners(t);
    assert forall|k: int| 0 <= k < l.len() implies l[k] == r[k] by {
        if k < 3 * tris.len() {
            assert(k / 3 < tris.len()) by (nonlinear_arith) requires 0 <= k < 3 * tris.len();
        } else {
            let j = k - 3 * tris.len();
            assert(k / 3 == tris.len() && k % 3 == j) by (nonlinear_arith)
                requires k == 3 * tris.len() + j, 0 <= j < 3;
        }
    }
    assert(l =~= r);
}

proof fn lemma_bounds_over_corners(b: BoundingBox, vs: Seq<Vertex>, t: Triangle)
    ensures
        bounds_over(b, vs + corners(t)) == bounds_over(b, vs).expanded(t.vertices[0]).expanded(t.vertices[1]).expanded(
            t.vertices[2],
        ),
{
    let s3 = vs + corners(t);
    let s2 = vs + seq![Vertex { position: t.vertices[0] }, Vertex { position: t.vertices[1] }];
    let s1 = vs + seq![Vertex { position: t.vertices[0] }];
    assert(s3.drop_last() =~= s2);
    assert(s2.drop_last() =~= s1);
    assert(s1.drop_last() =~= vs);
    assert(bounds_over(b, s1) == bounds_over(b, vs).expanded(t.vertices[0]));
    assert(bounds_over(b, s2) == bounds_over(b, s1).expanded(t.vertices[1]));
    assert(bounds_over(b, s3) == bounds_over(b, s2).expanded(t.vertices[2]));
}

/// The mesh: one vertex and one normal per triangle corner (so both lists hold
/// three entries per triangle), unused vertex indices, and the bounds of the vertices.
#[derive(Clone, Debug)]
pub struct Mesh {
    pub vertices: Vec<Vertex>,
    pub normals: Vec<Normal>,
    pub indices: Vec<usize>,
    pub bounds: BoundingBox,
    /// Every triangle so far carried its own normal (none was recalculated).
    pub model_had_normals: bool,
}

/// The three corners of a triangle as mesh vertices.
pub open spec fn corners(tri: Triangle) -> Seq<Vertex> {
    seq![Vertex { position: tri.vertices[0] }, Vertex { position: tri.vertices[1] }, Vertex { position: tri.vertices[2] }]
}

/// The normal that a triangle's own data supplies is used: recalculation was not
/// forced and the stored normal is not the zero vector.
pub open spec fn uses_stored_normal(tri: Triangle, recalc_normals: bool) -> bool {
    !recalc_normals && !is_zero_vector(tri.normal)
}

/// `face_normal` accepts every triangle.
pub open spec fn total_on_triangles<F: Fn(&Triangle) -> Normal>(face_normal: F) -> bool {
    forall|t: &Triangle| #[trigger] face_normal.requires((t,))
}

impl Mesh {
    /// Both corner lists hold three entries per triangle.
    pub open spec fn wf(&self) -> bool {
        &&& self.vertices.len() == self.normals.len()
        &&& self.vertices.len() % 3 == 0
    }

    /// An empty mesh whose bounds start at `first`.
    pub fn starting_at(first: &[u32; 3], model_had_normals: bool) -> (m: Mesh)
        ensures
            m.vertices@ == Seq::<Vertex>::empty(),
            m.normals@ == Seq::<Normal>::empty(),
            m.indices@ == Seq::<usize>::empty(),
            m.bounds == (BoundingBox { min: *first, max: *first }),
            m.model_had_normals == model_had_normals,
            m.wf(),
    {
        Mesh {
            vertices: Vec::new(),
            normals: Vec::new(),
            indices: Vec::new(),
            bounds: BoundingBox::new(first),
            model_had_normals,
        }
    }

    /// Appends a triangle: its three corners, with the bounds grown to each in
    /// turn, and three copies of one normal. The triangle's stored normal is used
    /// unless recalculation is forced or it is the zero vector; then
    /// `face_normal` computes it and the mesh no longer counts as having had normals.
    pub fn process_tri<F: Fn(&Triangle) -> Normal>(&mut self, tri: &Triangle, recalc_normals: bool, face_normal: &F)
        requires
            total_on_triangles(*face_normal),
        ensures
            final(self).vertices@ == old(self).vertices@ + corners(*tri),
            final(self).bounds == old(self).bounds.expanded(tri.vertices[0]).expanded(tri.vertices[1]).expanded(
                tri.vertices[2],
            ),
            final(self).indices@ == old(self).indices@,
            final(self).model_had_normals == (old(self).model_had_normals && uses_stored_normal(*tri, recalc_normals)),
            ({
                let n = final(self).normals@[old(self).normals@.len() as int];
                &&& final(self).normals@ == old(self).normals@ + seq![n, n, n]
                &&& uses_stored_normal(*tri, recalc_normals) ==> n == Normal { normal: tri.normal }
                &&& !uses_stored_normal(*tri, recalc_normals) ==> face_normal.ensures((tri,), n)
            }),
            old(self).wf() ==> final(self).wf(),
    {
        let ghost old_vertices = self.vertices@;
        let ghost old_normals = self.normals@;
        self.bounds.expand(&tri.vertices[0]);
        self.vertices.push(Vertex { position: tri.vertices[0] });
        self.bounds.expand(&tri.vertices[1]);
        self.vertices.push(Vertex { position: tri.vertices[1] });
        self.bounds.expand(&tri.vertices[2]);
        self.vertices.push(Vertex { position: tri.vertices[2] });
        assert(self.vertices@ =~= old_vertices + corners(*tri));
        let n: Normal;
        if recalc_normals || (zero(tri.normal[0]) && zero(tri.normal[1]) && zero(tri.normal[2])) {
            self.model_had_normals = false;
            assert(face_normal.requires((tri,)));
            n = face_normal(tri);
        } else {
            n = Normal { normal: tri.normal };
        }
        self.normals.push(n);
        self.normals.push(n);
        self.normals.push(n);
        assert(self.normals@ =~= old_normals + seq![n, n, n]);
    }

    /// Appends the triangles of `tris` in order, as `process_tri` does.
    pub fn add_triangles<F: Fn(&Triangle) -> Normal>(&mut self, tris: &Vec<Triangle>, recalc_normals: bool, face_normal: &F)
        requires
            total_on_triangles(*face_normal),
        ensures
            final(self).vertices@ == old(self).vertices@ + triangle_corners(tris@),
            final(self).bounds == bounds_over(old(self).bounds, triangle_corners(tris@)),
            final(self).indices@ == old(self).indices@,
            final(self).model_had_normals == (old(self).model_had_normals && all_use_stored_normals(tris@, recalc_normals)),
            final(self).normals@.subrange(0, old(self).normals@.len() as int) == old(self).normals@,
            normals_for(final(self).normals@.skip(old(self).normals@.len() as int), tris@, recalc_normals, *face_normal),
            old(self).wf() ==> final(self).wf(),
    {
        let ghost v0 = self.vertices@;
        let ghost n0 = self.normals@;
        let ghost b0 = self.bounds;
        let ghost h0 = self.model_had_normals;
        let ghost wf0 = self.wf();
        assert(tris@.take(0) =~= Seq::<Triangle>::empty());
        assert(triangle_corners(tris@.take(0)) =~= Seq::<Vertex>::empty());
        assert(self.vertices@ =~= v0 + triangle_corners(tris@.take(0)));
        assert(self.normals@.skip(n0.len() as int) =~= Seq::<Normal>::empty());
        let mut i: usize = 0;
        while i < tris.len()
            invariant
                i <= tris.len(),
                total_on_triangles(*face_normal),
                self.vertices@ == v0 + triangle_corners(tris@.take(i as int)),
                self.bounds == bounds_over(b0, triangle_corners(tris@.take(i as int))),
                self.indices@ == old(self).indices@,
                self.model_had_normals == (h0 && all_use_stored_normals(tris@.take(i as int), recalc_normals)),
                self.normals@.len() >= n0.len(),
                self.normals@.subrange(0, n0.len() as int) == n0,
                normals_for(self.normals@.skip(n0.len() as int), tris@.take(i as int), recalc_normals, *face_normal),
                wf0 ==> self.wf(),
                v0 == old(self).vertices@,
                n0 == old(self).normals@,
                b0 == old(self).bounds,
                h0 == old(self).model_had_normals,
                wf0 == old(self).wf(),
            decreases tris.len() - i,
        {
            let ghost before = *self;
            let ghost done = tris@.take(i as int);
            self.process_tri(&tris[i], recalc_normals, face_normal);
            proof {
                let t = tris@[i as int];
                let next = tris@.take(i + 1);
                assert(next =~= done.push(t));
                lemma_triangle_corners_push(done, t);
                lemma_bounds_over_corners(b0, triangle_corners(done), t);
                assert(self.vertices@ =~= v0 + triangle_corners(next));
                let ns_old = before.normals@.skip(n0.len() as int);
                let ns = self.normals@.skip(n0.len() as int);
                let n = self.normals@[before.normals@.len() as int];
                assert(ns =~= ns_old + seq![n, n, n]);
                lemma_normals_for_push(ns_old, done, t, n, recalc_normals, *face_normal);
                assert(normals_for(ns, next, recalc_normals, *face_normal));
                assert(self.normals@.subrange(0, n0.len() as int) =~= n0);
                assert(self.model_had_normals == (h0 && all_use_stored_normals(next, recalc_normals))) by {
                    if all_use_stored_normals(next, recalc_normals) {
                        assert forall|u: int| 0 <= u < done.len() implies uses_stored_normal(#[trigger] done[u], recalc_normals) by {
                            assert(next[u] == done[u]);
                        }
                        assert(next[i as int] == t);
                    }
                    if all_use_stored_normals(done, recalc_normals) && uses_stored_normal(t, recalc_normals) {
                        assert forall|u: int| 0 <= u < next.len() implies uses_stored_normal(#[trigger] next[u], recalc_normals) by {
                            if u < done.len() {
                                assert(next[u] == done[u]);
                            }
                        }
                    }
                }
            }
            i = i + 1;
        }
        assert(tris@.take(tris.len() as int) =~= tris@);
    }

    /// Reads a mesh from the bytes of an STL file (ASCII or binary). The bounds
    /// start at the first corner of the first triangle. A file that yields no
    /// first triangle is `NoTriangles` or `UnreadableFirstTriangle`; an error
    /// later in the file is `Read`.
    pub fn from_stl<F: Fn(&Triangle) -> Normal>(bytes: &[u8], recalc_normals: bool, face_normal: &F) -> (r: Result<Mesh, MeshError>)
        requires
            total_on_triangles(*face_normal),
        ensures
            stl_outcome(r, bytes@, recalc_normals, *face_normal),
    {
        match read_stl(bytes) {
            Err(message) => Err(MeshError::Read(message)),
            Ok((tris, err)) => {
                if tris.len() == 0 {
                    match err {
                        Some(message) => Err(MeshError::UnreadableFirstTriangle(message)),
                        None => Err(MeshError::NoTriangles),
                    }
                } else {
                    match err {
                        Some(message) => Err(MeshError::Read(message)),
                        None => {
                            let mut mesh = Mesh::starting_at(&tris[0].vertices[0], true);
                            mesh.add_triangles(&tris, recalc_normals, face_normal);
                            assert(mesh.normals@.skip(0) =~= mesh.normals@);
                            Ok(mesh)
                        },
                    }
                }
            },
        }
    }

    /// Appends the corners of `tri`, growing the bounds to each in turn.
    fn push_corners(&mut self, tri: &Triangle)
        ensures
            final(self).vertices@ == old(self).vertices@ + corners(*tri),
            final(self).bounds == old(self).bounds.expanded(tri.vertices[0]).expanded(tri.vertices[1]).expanded(
                tri.vertices[2],
            ),
            final(self).normals == old(self).normals,
            final(self).indices == old(self).indices,
            final(self).model_had_normals == old(self).model_had_normals,
    {
        let ghost old_vertices = self.vertices@;
        self.bounds.expand(&tri.vertices[0]);
        self.vertices.push(Vertex { position: tri.vertices[0] });
        self.bounds.expand(&tri.vertices[1]);
        self.vertices.push(Vertex { position: tri.vertices[1] });
        self.bounds.expand(&tri.vertices[2]);
        self.vertices.push(Vertex { position: tri.vertices[2] });
        assert(self.vertices@ =~= old_vertices + corners(*tri));
    }

    /// Appends the triangles of one OBJ model whose indices are all in range.
    #[verifier::spinoff_prover]
    #[verifier::rlimit(40)]
    fn add_obj_model<F: Fn(&Triangle) -> Normal>(&mut self, model: &ObjModel, face_normal: &F)
        requires
            total_on_triangles(*face_normal),
            obj_model_indexable(model@),
        ensures
            final(self).vertices@ == old(self).vertices@ + triangle_corners(obj_triangles(model@)),
            final(self).bounds == bounds_over(old(self).bounds, triangle_corners(obj_triangles(model@))),
            final(self).indices@ == old(self).indices@,
            final(self).model_had_normals == old(self).model_had_normals,
            final(self).normals@.subrange(0, old(self).normals@.len() as int) == old(self).normals@,
            obj_model_normals(final(self).normals@.skip(old(self).normals@.len() as int), model@, *face_normal),
            old(self).wf() ==> final(self).wf(),
    {
        let ghost m = model@;
        let ghost tris = obj_triangles(m);
        let ghost v0 = self.vertices@;
        let ghost n0 = self.normals@;
        let ghost b0 = self.bounds;
        let ghost wf0 = self.wf();
        let idx = &model.indices;
        let p = &model.positions;
        let n = &model.normals;
        let count = idx.len() / 3;
        let plen = p.len();
        let nlen = n.len();
        assert(tris.take(0) =~= Seq::<Triangle>::empty());
        assert(triangle_corners(tris.take(0)) =~= Seq::<Vertex>::empty());
        assert(self.vertices@ =~= v0 + triangle_corners(tris.take(0)));
        assert(self.normals@.skip(n0.len() as int) =~= Seq::<Normal>::empty());
        let mut t: usize = 0;
        while t < count
            invariant
                m == model@,
                p@ == m.0,
                plen == p.len(),
                nlen == n.len(),
                n@ == m.1,
                idx@ == m.2,
                tris == obj_triangles(m),
                count == tris.len(),
                idx.len() == 3 * count,
                obj_model_indexable(m),
                total_on_triangles(*face_normal),
                t <= count,
                self.vertices@ == v0 + triangle_corners(tris.take(t as int)),
                self.bounds == bounds_over(b0, triangle_corners(tris.take(t as int))),
                self.indices@ == old(self).indices@,
                self.model_had_normals == old(self).model_had_normals,
                self.normals@.len() == n0.len() + 3 * t,
                self.normals@.subrange(0, n0.len() as int) == n0,
                n@.len() > 0 ==> self.normals@.skip(n0.len() as int) == Seq::new(3 * t as nat, |k: int| Normal { normal: obj_point(m.1, m.2[k]) }),
                n@.len() == 0 ==> normals_for(self.normals@.skip(n0.len() as int), tris.take(t as int), true, *face_normal),
                wf0 ==> self.wf(),
                v0 == old(self).vertices@,
                n0 == old(self).normals@,
                b0 == old(self).bounds,
                wf0 == old(self).wf(),
            decreases count - t,
        {
            let ghost before = *self;
            let ghost done = tris.take(t as int);
            let j = 3 * t;
            let i0 = idx[j] as usize;
            let i1 = idx[j + 1] as usize;
            let i2 = idx[j + 2] as usize;
            assert(i0 == m.2[j as int] && i1 == m.2[j + 1] && i2 == m.2[j + 2]);
            assert(plen == m.0.len() && nlen == m.1.len());
            assert(3 * m.2[j as int] + 2 < m.0.len());
            assert(3 * m.2[j + 1] + 2 < m.0.len());
            assert(3 * m.2[j + 2] + 2 < m.0.len());
            let a = [p[3 * i0], p[3 * i0 + 1], p[3 * i0 + 2]];
            let b = [p[3 * i1], p[3 * i1 + 1], p[3 * i1 + 2]];
            let c = [p[3 * i2], p[3 * i2 + 1], p[3 * i2 + 2]];
            let tri = Triangle { normal: [0, 0, 0], vertices: [a, b, c] };
            assert(tri.vertices =~= tris[t as int].vertices);
            assert(tri.normal =~= tris[t as int].normal);
            assert(tri == tris[t as int]);
            self.push_corners(&tri);
            proof {
                let next = tris.take(t + 1);
                assert(next =~= done.push(tri));
                lemma_triangle_corners_push(done, tri);
                lemma_bounds_over_corners(b0, triangle_corners(done), tri);
            }
            if n.len() > 0 {
                assert(3 * m.2[j as int] + 2 < m.1.len());
                assert(3 * m.2[j + 1] + 2 < m.1.len());
                assert(3 * m.2[j + 2] + 2 < m.1.len());
                let na = Normal { normal: [n[3 * i0], n[3 * i0 + 1], n[3 * i0 + 2]] };
                let nb = Normal { normal: [n[3 * i1], n[3 * i1 + 1], n[3 * i1 + 2]] };
                let nc = Normal { normal: [n[3 * i2], n[3 * i2 + 1], n[3 * i2 + 2]] };
                self.normals.push(na);
                self.normals.push(nb);
                self.normals.push(nc);
                proof {
                    let want = Seq::new(3 * (t + 1) as nat, |k: int| Normal { normal: obj_point(m.1, m.2[k]) });
                    let have = self.normals@.skip(n0.len() as int);
                    assert forall|k: int| 0 <= k < want.len() implies have[k] == want[k] by {
                        if k < 3 * t {
                            assert(have[k] == before.normals@.skip(n0.len() as int)[k]);
                        } else if k == 3 * t {
                            assert(na.normal =~= obj_point(m.1, m.2[k]));
                        } else if k == 3 * t + 1 {
                            assert(nb.normal =~= obj_point(m.1, m.2[k]));
                        } else {
                            assert(nc.normal =~= obj_point(m.1, m.2[k]));
                        }
                    }
                    assert(have =~= want);
                }
            } else {
                let nn = face_normal(&tri);
                self.normals.push(nn);
                self.normals.push(nn);
                self.normals.push(nn);
                proof {
                    let ns_old = before.normals@.skip(n0.len() as int);
                    assert(self.normals@.skip(n0.len() as int) =~= ns_old + seq![nn, nn, nn]);
                    lemma_normals_for_push(ns_old, done, tri, nn, true, *face_normal);
                }
            }
            assert(self.normals@.subrange(0, n0.len() as int) =~= n0);
            t = t + 1;
        }
        assert(tris.take(count as int) =~= tris);
    }

    /// Builds the mesh of OBJ models: every triangle of every model in order,
    /// with the model's per-corner normals where it has normals and a computed
    /// face normal otherwise; the bounds start at the first position of the first
    /// model. No models is `EmptyModel`, a first model without a complete position
    /// is `EmptyMesh`, and a model with corner indices out of range (or not in
    /// threes) is `BadObjIndex`.
    pub fn from_obj_models<F: Fn(&Triangle) -> Normal>(models: &Vec<ObjModel>, face_normal: &F) -> (r: Result<Mesh, MeshError>)
        requires
            total_on_triangles(*face_normal),
        ensures
            ({
                let ms = obj_data(models@);
                &&& ms.len() == 0 ==> (r matches Err(MeshError::EmptyModel))
                &&& ms.len() > 0 && ms[0].0.len() < 3 ==> (r matches Err(MeshError::EmptyMesh))
                &&& ms.len() > 0 && ms[0].0.len() >= 3 && !(forall|i: int| 0 <= i < ms.len() ==> obj_model_indexable(#[trigger] ms[i]))
                    ==> (r matches Err(MeshError::BadObjIndex))
                &&& ms.len() > 0 && ms[0].0.len() >= 3 && (forall|i: int| 0 <= i < ms.len() ==> obj_model_indexable(#[trigger] ms[i]))
                    ==> (r matches Ok(m) && built_from_obj(m, ms, *face_normal))
            }),
    {
        let ghost ms = obj_data(models@);
        if models.len() == 0 {
            return Err(MeshError::EmptyModel);
        }
        assert(ms[0] == models@[0]@);
        if models[0].positions.len() < 3 {
            return Err(MeshError::EmptyMesh);
        }
        let mut i: usize = 0;
        while i < models.len()
            invariant
                ms == obj_data(models@),
                i <= models.len(),
                ms.len() > 0 && ms[0].0.len() >= 3,
                forall|j: int| 0 <= j < i ==> obj_model_indexable(#[trigger] ms[j]),
            decreases models.len() - i,
        {
            assert(ms[i as int] == models@[i as int]@);
            if !obj_indices_in_range(&models[i]) {
                assert(!obj_model_indexable(ms[i as int]));
                return Err(MeshError::BadObjIndex);
            }
            i = i + 1;
        }
        let p = &models[0].positions;
        let first = [p[0], p[1], p[2]];
        let mut mesh = Mesh::starting_at(&first, true);
        let ghost start = mesh.bounds;
        let mut i: usize = 0;
        assert(ms.take(0) =~= Seq::<ObjData>::empty());
        while i < models.len()
            invariant
                ms == obj_data(models@),
                forall|j: int| 0 <= j < ms.len() ==> obj_model_indexable(#[trigger] ms[j]),
                total_on_triangles(*face_normal),
                i <= models.len(),
                mesh.vertices@ == obj_vertices(ms.take(i as int)),
                obj_normals(mesh.normals@, ms.take(i as int), *face_normal),
                mesh.bounds == bounds_over(start, obj_vertices(ms.take(i as int))),
                mesh.indices@ == Seq::<usize>::empty(),
                mesh.model_had_normals,
                mesh.wf(),
            decreases models.len() - i,
        {
            let ghost before = mesh;
            assert(ms[i as int] == models[i as int]@);
            mesh.add_obj_model(&models[i], face_normal);
            proof {
                let next = ms.take(i + 1);
                assert(next.drop_last() =~= ms.take(i as int));
                assert(next.last() == ms[i as int]);
                let k = 3 * obj_triangles(next.last()).len();
                let ns = mesh.normals@;
                assert(ns.take(ns.len() - k) =~= before.normals@);
                lemma_bounds_over_concat(start, obj_vertices(ms.take(i as int)), triangle_corners(obj_triangles(ms[i as int])));
            }
            i = i + 1;
        }
        assert(ms.take(models.len() as int) =~= ms);
        assert(start == (BoundingBox { min: [ms[0].0[0], ms[0].0[1], ms[0].0[2]], max: [ms[0].0[0], ms[0].0[1], ms[0].0[2]] }));
        Ok(mesh)
    }

    /// Reads a mesh from the bytes of an OBJ file (see `from_obj_models`); a
    /// failure of the OBJ reader is `Read`. All normals come from the file or are
    /// computed per face, whatever `_recalc_normals` says.
    pub fn from_obj<F: Fn(&Triangle) -> Normal>(bytes: &[u8], _recalc_normals: bool, face_normal: &F) -> (r: Result<Mesh, MeshError>)
        requires
            total_on_triangles(*face_normal),
        ensures
            obj_file_outcome(r, bytes@, *face_normal),
    {
        match load_obj(bytes) {
            Err(message) => Err(MeshError::Read(message)),
            Ok(models) => Mesh::from_obj_models(&models, face_normal),
        }
    }
}

/// The model file formats that can be read.
#[derive(Clone, Copy, Debug, PartialEq, Eq)]
pub enum ModelFormat {
    Obj,
    Stl,
    ThreeMf,
}

/// The model format a file extension names, ignoring ASCII case.
pub open spec fn model_format_for(ext: Seq<char>) -> Option<ModelFormat> {
    let l = lower(ext);
    if l == seq!['o', 'b', 'j'] {
        Some(ModelFormat::Obj)
    } else if l == seq!['s', 't', 'l'] {
        Some(ModelFormat::Stl)
    } else if l == seq!['3', 'm', 'f'] {
        Some(ModelFormat::ThreeMf)
    } else {
        None
    }
}

/// The model format of a file extension: `obj`, `stl` or `3mf` in any case;
/// `None` for formats that are not supported.
pub fn model_format(ext: &str) -> (f: Option<ModelFormat>)
    ensures
        f == model_format_for(ext@),
{
    proof {
        reveal_strlit("obj");
        reveal_strlit("stl");
        reveal_strlit("3mf");
        assert("obj"@ =~= seq!['o', 'b', 'j']);
        assert("stl"@ =~= seq!['s', 't', 'l']);
        assert("3mf"@ =~= seq!['3', 'm', 'f']);
    }
    if lower_equals(ext, "obj") {
        Some(ModelFormat::Obj)
    } else if lower_equals(ext, "stl") {
        Some(ModelFormat::Stl)
    } else if lower_equals(ext, "3mf") {
        Some(ModelFormat::ThreeMf)
    } else {
        None
    }
}

impl Mesh {
    /// Reads a mesh from the contents of a model file of the given format.
    pub fn from_model_bytes<F: Fn(&Triangle) -> Normal, P: Fn(&str) -> Result<u32, String>>(
        format: ModelFormat,
        bytes: &[u8],
        recalc_normals: bool,
        face_normal: &F,
        parse_coordinate: &P,
    ) -> (r: Result<Mesh, MeshError>)
        requires
            total_on_triangles(*face_normal),
            parses_consistently(*parse_coordinate),
            parses_all(*parse_coordinate),
        ensures
            match format {
                ModelFormat::Stl => {
                    stl_outcome(r, bytes@, recalc_normals, *face_normal)
                },
                ModelFormat::Obj => obj_file_outcome(r, bytes@, *face_normal),
                ModelFormat::ThreeMf => threemf_raw_outcome(r, bytes@, *parse_coordinate, *face_normal),
            },
    {
        match format {
            ModelFormat::Stl => Mesh::from_stl(bytes, recalc_normals, face_normal),
            ModelFormat::Obj => Mesh::from_obj(bytes, recalc_normals, face_normal),
            ModelFormat::ThreeMf => Mesh::from_3mf_raw(bytes, recalc_normals, face_normal, parse_coordinate),
        }
    }
}

/// The format in which a model is read: standard input (`-`) is STL; a file by
/// its extension (`obj`, `stl`, `3mf` in any case); `None` for a file whose
/// format is not supported.
pub open spec fn load_format_of(model_filename: Seq<char>) -> Option<ModelFormat> {
    if model_filename == seq!['-'] {
        Some(ModelFormat::Stl)
    } else {
        match extension_of(model_filename) {
            Some(e) => model_format_for(e),
            None => None,
        }
    }
}

/// Decides how to read a model named on the command line (see `load_format_of`).
pub fn load_format(model_filename: &str) -> (f: Option<ModelFormat>)
    ensures
        f == load_format_of(model_filename@),
{
    proof {
        reveal_strlit("-");
        assert("-"@ =~= seq!['-']);
    }
    if same_text(model_filename, "-") {
        Some(ModelFormat::Stl)
    } else {
        match file_extension(model_filename) {
            Some(e) => model_format(e.as_str()),
            None => None,
        }
    }
}

proof fn lemma_expand_axis(lo: u32, hi: u32, v: u32, w: u32)
    requires
        le(lo, hi),
    ensures
        le(expand_axis(lo, hi, v).0, expand_axis(lo, hi, v).1),
        le(lo, w) && le(w, hi) ==> le(expand_axis(lo, hi, v).0, w) && le(w, expand_axis(lo, hi, v).1),
        !is_nan(v) ==> le(expand_axis(lo, hi, v).0, v) && le(v, expand_axis(lo, hi, v).1),
{
}

/// Growing an ordered box by a list of vertices keeps it ordered, keeps every
/// point it held, and makes it hold each vertex that has no NaN coordinate.
pub proof fn lemma_bounds_over_contains(b: BoundingBox, vs: Seq<Vertex>, w: [u32; 3])
    requires
        b.ordered(),
    ensures
        bounds_over(b, vs).ordered(),
        b.contains(w) ==> bounds_over(b, vs).contains(w),
        forall|k: int| 0 <= k < vs.len() && finite_point(vs[k].position) ==> bounds_over(b, vs).contains(
            #[trigger] vs[k].position,
        ),
    decreases vs.len(),
{
    if vs.len() > 0 {
        let prev = bounds_over(b, vs.drop_last());
        let v = vs.last().position;
        lemma_bounds_over_contains(b, vs.drop_last(), w);
        let next = prev.expanded(v);
        assert forall|i: int| 0 <= i < 3 implies (#[trigger] next.min[i], next.max[i]) == expand_axis(
            prev.min[i],
            prev.max[i],
            v[i],
        ) by {
            if i == 0 {} else if i == 1 {} else {}
        }
        assert forall|u: [u32; 3]| prev.contains(u) implies #[trigger] next.contains(u) by {
            assert forall|i: int| 0 <= i < 3 implies le(#[trigger] next.min[i], u[i]) && le(u[i], next.max[i]) by {
                assert(le(prev.min[i], prev.max[i]));
                lemma_expand_axis(prev.min[i], prev.max[i], v[i], u[i]);
                assert(le(prev.min[i], u[i]) && le(u[i], prev.max[i]));
            }
        }
        assert forall|i: int| 0 <= i < 3 implies le(#[trigger] next.min[i], next.max[i]) by {
            assert(le(prev.min[i], prev.max[i]));
            lemma_expand_axis(prev.min[i], prev.max[i], v[i], v[i]);
        }
        if finite_point(v) {
            assert forall|i: int| 0 <= i < 3 implies le(#[trigger] next.min[i], v[i]) && le(v[i], next.max[i]) by {
                assert(le(prev.min[i], prev.max[i]));
                lemma_expand_axis(prev.min[i], prev.max[i], v[i], v[i]);
                assert(!is_nan(v[i])) by {
                    if i == 0 {} else if i == 1 {} else {}
                }
            }
        }
        assert forall|k: int| 0 <= k < vs.len() && finite_point(vs[k].position) implies next.contains(
            #[trigger] vs[k].position,
        ) by {
            if k < vs.len() - 1 {
                assert(vs.drop_last()[k] == vs[k]);
                assert(prev.contains(vs[k].position));
            }
        }
        assert(b.contains(w) ==> prev.contains(w));
    }
}

/// The bounds of a mesh built from triangles whose first corner has no NaN
/// coordinate hold every vertex of the mesh that has none.
pub proof fn lemma_mesh_bounds_hold_vertices<F: Fn(&Triangle) -> Normal>(
    m: Mesh,
    tris: Seq<Triangle>,
    recalc_normals: bool,
    face_normal: F,
    k: int,
)
    requires
        built_from_triangles(m, tris, recalc_normals, face_normal),
        finite_point(tris[0].vertices[0]),
        0 <= k < m.vertices@.len(),
        finite_point(m.vertices@[k].position),
    ensures
        m.bounds.ordered(),
        m.bounds.contains(m.vertices@[k].position),
{
    let first = tris[0].vertices[0];
    lemma_new_box_contains(first);
    lemma_bounds_over_contains(BoundingBox { min: first, max: first }, triangle_corners(tris), first);
}

/// The bounds of a mesh built from OBJ models whose first position has no NaN
/// coordinate hold every vertex of the mesh that has none.
pub proof fn lemma_obj_mesh_bounds_hold_vertices<F: Fn(&Triangle) -> Normal>(
    m: Mesh,
    ms: Seq<ObjData>,
    face_normal: F,
    k: int,
)
    requires
        built_from_obj(m, ms, face_normal),
        finite_point([ms[0].0[0], ms[0].0[1], ms[0].0[2]]),
        0 <= k < m.vertices@.len(),
        finite_point(m.vertices@[k].position),
    ensures
        m.bounds.ordered(),
        m.bounds.contains(m.vertices@[k].position),
{
    let first = [ms[0].0[0], ms[0].0[1], ms[0].0[2]];
    lemma_new_box_contains(first);
    lemma_bounds_over_contains(BoundingBox { min: first, max: first }, obj_vertices(ms), first);
}

/// The mesh's size line by line: `Verts: <n>`, `Norms: <n>`, `Indices: <n>`,
/// then an empty line.
pub open spec fn mesh_summary(vertices: nat, normals: nat, indices: nat) -> Seq<char> {
    seq!['V', 'e', 'r', 't', 's', ':', ' '] + decimal_digits(vertices) + seq!['\n', 'N', 'o', 'r', 'm', 's', ':', ' ']
        + decimal_digits(normals) + seq!['\n', 'I', 'n', 'd', 'i', 'c', 'e', 's', ':', ' '] + decimal_digits(indices)
        + seq!['\n', '\n']
}

impl Mesh {
    /// The numbers of vertices, normals and indices, as the mesh is displayed.
    pub fn summary(&self) -> (s: String)
        ensures
            s@ == mesh_summary(self.vertices@.len(), self.normals@.len(), self.indices@.len()),
    {
        let mut out: Vec<char> = Vec::new();
        push_all(&mut out, &vec!['V', 'e', 'r', 't', 's', ':', ' ']);
        push_decimal(self.vertices.len() as u128, &mut out);
        push_all(&mut out, &vec!['\n', 'N', 'o', 'r', 'm', 's', ':', ' ']);
        push_decimal(self.normals.len() as u128, &mut out);
        push_all(&mut out, &vec!['\n', 'I', 'n', 'd', 'i', 'c', 'e', 's', ':', ' ']);
        push_decimal(self.indices.len() as u128, &mut out);
        push_all(&mut out, &vec!['\n', '\n']);
        string_from_chars(&out)
    }
}

/// With recalculation forced, every triangle of the mesh gets a computed face
/// normal on all three corners, and the mesh does not count as having had normals.
pub proof fn lemma_recalc_computes_normals<F: Fn(&Triangle) -> Normal>(
    m: Mesh,
    tris: Seq<Triangle>,
    face_normal: F,
    t: int,
)
    requires
        built_from_triangles(m, tris, true, face_normal),
        0 <= t < tris.len(),
    ensures
        face_normal.ensures((&tris[t],), m.normals@[3 * t]),
        m.normals@[3 * t + 1] == m.normals@[3 * t],
        m.normals@[3 * t + 2] == m.normals@[3 * t],
        !m.model_had_normals,
{
    assert(normals_of_triangle(m.normals@, t, tris[t], true, face_normal));
    assert(!uses_stored_normal(tris[t], true));
}

/// Without forced recalculation, a triangle whose stored normal is not the
/// zero vector keeps that normal on all three corners.
pub proof fn lemma_stored_normals_kept<F: Fn(&Triangle) -> Normal>(
    m: Mesh,
    tris: Seq<Triangle>,
    face_normal: F,
    t: int,
)
    requires
        built_from_triangles(m, tris, false, face_normal),
        0 <= t < tris.len(),
        !is_zero_vector(tris[t].normal),
    ensures
        m.normals@[3 * t] == (Normal { normal: tris[t].normal }),
        m.normals@[3 * t + 1] == (Normal { normal: tris[t].normal }),
        m.normals@[3 * t + 2] == (Normal { normal: tris[t].normal }),
{
    assert(normals_of_triangle(m.normals@, t, tris[t], false, face_normal));
}

impl MeshError {
    /// The message reported for this error: the reader's own message where
    /// there is one, otherwise a fixed text.
    pub fn message(&self) -> (s: String)
        ensures
            s@ == match self {
                MeshError::Read(m) => m@,
                MeshError::NoTriangles => "STL file has no triangles"@,
                MeshError::UnreadableFirstTriangle(m) => m@,
                MeshError::EmptyModel => "Empty Model"@,
                MeshError::EmptyMesh => "Empty Mesh"@,
                MeshError::BadObjIndex => "OBJ face index out of range"@,
                MeshError::InvalidCoordinate(m) => m@,
                MeshError::InvalidIndex(e) => int_error_text(*e),
                MeshError::NoMeshData => "No mesh data found in 3MF file"@,
                MeshError::BadTriangleIndex => "3MF triangle refers to a missing vertex"@,
            },
    {
        match self {
            MeshError::Read(m) => m.clone(),
            MeshError::NoTriangles => "STL file has no triangles".to_owned(),
            MeshError::UnreadableFirstTriangle(m) => m.clone(),
            MeshError::EmptyModel => "Empty Model".to_owned(),
            MeshError::EmptyMesh => "Empty Mesh".to_owned(),
            MeshError::BadObjIndex => "OBJ face index out of range".to_owned(),
            MeshError::InvalidCoordinate(m) => m.clone(),
            MeshError::InvalidIndex(e) => e.message().to_owned(),
            MeshError::NoMeshData => "No mesh data found in 3MF file".to_owned(),
            MeshError::BadTriangleIndex => "3MF triangle refers to a missing vertex".to_owned(),
        }
    }
}

/// `face_normal` gives one normal for each triangle.
pub open spec fn deterministic_normals<F: Fn(&Triangle) -> Normal>(face_normal: F) -> bool {
    forall|t: &Triangle, n1: Normal, n2: Normal|
        #[trigger] face_normal.ensures((t,), n1) && #[trigger] face_normal.ensures((t,), n2) ==> n1 == n2
}

/// Two meshes hold the same vertices, normals, indices, bounds and flag.
pub open spec fn same_mesh(a: Mesh, b: Mesh) -> bool {
    &&& a.vertices@ == b.vertices@
    &&& a.normals@ == b.normals@
    &&& a.indices@ == b.indices@
    &&& a.bounds == b.bounds
    &&& a.model_had_normals == b.model_had_normals
}

/// Two reading results say the same: equal meshes, `Read` errors with equal
/// messages, or the same other error.
pub open spec fn same_result(a: Result<Mesh, MeshError>, b: Result<Mesh, MeshError>) -> bool {
    match (a, b) {
        (Ok(x), Ok(y)) => same_mesh(x, y),
        (Err(MeshError::Read(x)), Err(MeshError::Read(y))) => x@ == y@,
        (Err(x), Err(y)) => x == y,
        _ => false,
    }
}

/// With a face-normal computation that gives one normal per triangle, the mesh
/// built from a list of triangles is determined by the list.
pub proof fn lemma_built_from_triangles_unique<F: Fn(&Triangle) -> Normal>(
    a: Mesh,
    b: Mesh,
    tris: Seq<Triangle>,
    recalc_normals: bool,
    face_normal: F,
)
    requires
        built_from_triangles(a, tris, recalc_normals, face_normal),
        built_from_triangles(b, tris, recalc_normals, face_normal),
        deterministic_normals(face_normal),
    ensures
        same_mesh(a, b),
{
    assert forall|k: int| 0 <= k < a.normals@.len() implies a.normals@[k] == b.normals@[k] by {
        let t = k / 3;
        assert(0 <= t < tris.len() && (k == 3 * t || k == 3 * t + 1 || k == 3 * t + 2)) by (nonlinear_arith)
            requires
                0 <= k < 3 * tris.len(),
                t == k / 3,
        ;
        assert(normals_of_triangle(a.normals@, t, tris[t], recalc_normals, face_normal));
        assert(normals_of_triangle(b.normals@, t, tris[t], recalc_normals, face_normal));
        if !uses_stored_normal(tris[t], recalc_normals) {
            assert(face_normal.ensures((&tris[t],), a.normals@[3 * t]));
            assert(face_normal.ensures((&tris[t],), b.normals@[3 * t]));
        }
    }
    assert(a.normals@ =~= b.normals@);
}

/// The corners of OBJ models are the corners of each model's triangles,
/// model after model: the concatenation, in order, of every model's corners.
pub proof fn lemma_obj_vertices_concatenate(ms: Seq<ObjData>)
    ensures
        obj_vertices(ms) == ms.map_values(|m: ObjData| triangle_corners(obj_triangles(m))).flatten(),
    decreases ms.len(),
{
    let per = ms.map_values(|m: ObjData| triangle_corners(obj_triangles(m)));
    per.lemma_flatten_and_flatten_alt_are_equivalent();
    if ms.len() > 0 {
        lemma_obj_vertices_concatenate(ms.drop_last());
        let rest = ms.drop_last().map_values(|m: ObjData| triangle_corners(obj_triangles(m)));
        assert(per.drop_last() =~= rest);
        rest.lemma_flatten_and_flatten_alt_are_equivalent();
        assert(per.last() == triangle_corners(obj_triangles(ms.last())));
    } else {
        assert(per.flatten_alt() =~= Seq::<Vertex>::empty());
    }
}

/// The number of corners of OBJ models is three per triangle over all models.
pub proof fn lemma_obj_vertex_count(ms: Seq<ObjData>)
    ensures
        obj_vertices(ms).len() == 3 * obj_triangle_total(ms),
    decreases ms.len(),
{
    if ms.len() > 0 {
        lemma_obj_vertex_count(ms.drop_last());
    }
}

/// The number of triangles of all OBJ models.
pub open spec fn obj_triangle_total(ms: Seq<ObjData>) -> nat
    decreases ms.len(),
{
    if ms.len() == 0 {
        0
    } else {
        obj_triangle_total(ms.drop_last()) + ms.last().2.len() / 3
    }
}

proof fn lemma_bounds_over_attained(b: BoundingBox, vs: Seq<Vertex>, i: int)
    requires
        0 <= i < 3,
    ensures
        bounds_over(b, vs).min[i] == b.min[i] || exists|k: int|
            0 <= k < vs.len() && bounds_over(b, vs).min[i] == #[trigger] vs[k].position[i],
        bounds_over(b, vs).max[i] == b.max[i] || exists|k: int|
            0 <= k < vs.len() && bounds_over(b, vs).max[i] == #[trigger] vs[k].position[i],
    decreases vs.len(),
{
    if vs.len() > 0 {
        let prev = bounds_over(b, vs.drop_last());
        let v = vs.last().position;
        let next = prev.expanded(v);
        lemma_bounds_over_attained(b, vs.drop_last(), i);
        assert((next.min[i], next.max[i]) == expand_axis(prev.min[i], prev.max[i], v[i])) by {
            if i == 0 {} else if i == 1 {} else {}
        }
        assert(vs[vs.len() - 1].position[i] == v[i]);
        if exists|k: int| 0 <= k < vs.drop_last().len() && prev.min[i] == #[trigger] vs.drop_last()[k].position[i] {
            let k = choose|k: int| 0 <= k < vs.drop_last().len() && prev.min[i] == #[trigger] vs.drop_last()[k].position[i];
            assert(vs[k] == vs.drop_last()[k]);
        }
        if exists|k: int| 0 <= k < vs.drop_last().len() && prev.max[i] == #[trigger] vs.drop_last()[k].position[i] {
            let k = choose|k: int| 0 <= k < vs.drop_last().len() && prev.max[i] == #[trigger] vs.drop_last()[k].position[i];
            assert(vs[k] == vs.drop_last()[k]);
        }
    }
}

/// The bounds of a mesh built from triangles are tight: on every axis the
/// minimum and the maximum are each a coordinate of some vertex of the mesh.
pub proof fn lemma_mesh_bounds_attained<F: Fn(&Triangle) -> Normal>(
    m: Mesh,
    tris: Seq<Triangle>,
    recalc_normals: bool,
    face_normal: F,
    i: int,
)
    requires
        built_from_triangles(m, tris, recalc_normals, face_normal),
        0 <= i < 3,
    ensures
        exists|k: int| 0 <= k < m.vertices@.len() && m.bounds.min[i] == #[trigger] m.vertices@[k].position[i],
        exists|k: int| 0 <= k < m.vertices@.len() && m.bounds.max[i] == #[trigger] m.vertices@[k].position[i],
{
    let vs = triangle_corners(tris);
    let first = tris[0].vertices[0];
    lemma_bounds_over_attained(BoundingBox { min: first, max: first }, vs, i);
    assert(vs[0].position == first);
}

} // verus!
