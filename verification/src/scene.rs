use vstd::prelude::*;
use std::sync::Arc;

use crate::texture::Texture;

verus! {

/// One triangle of a model: three corners, a base colour and an optional texture.
///
/// The corner type `V` is left to the caller: positions, normals and texture
/// coordinates are floating-point data that the rasterizer owns.
#[derive(Clone)]
pub struct Triangle<V> {
    pub vertices: [V; 3],
    pub color: [u8; 4],
    pub texture: Option<Arc<Texture>>,
}

/// The triangles of a loaded model, in the order the loader produced them.
#[derive(Clone)]
pub struct Scene<V> {
    pub triangles: Vec<Triangle<V>>,
}

impl<V> Scene<V> {
    /// A scene with no triangles.
    pub fn new() -> (scene: Self)
        ensures
            scene.triangles@.len() == 0,
    {
        Scene { triangles: Vec::new() }
    }
}

/// The colour of a material and its texture, if it has one.
pub type MaterialData = ([u8; 4], Option<Arc<Texture>>);

/// Colour of a face whose material is missing.
pub const DEFAULT_MATERIAL_COLOR: [u8; 4] = [198, 202, 210, 255];

/// The material given to a face that names none that exists: a light grey with no
/// texture.
pub fn default_material_data() -> (m: MaterialData)
    ensures
        m.0 == DEFAULT_MATERIAL_COLOR,
        m.1 is None,
{
    (DEFAULT_MATERIAL_COLOR, None)
}

/// `tris` holds the corner indices of every whole triangle of the index list
/// `indices`, three by three; a trailing part of a triangle is dropped.
pub open spec fn is_triangle_list(indices: Seq<u32>, tris: Seq<[u32; 3]>) -> bool {
    &&& tris.len() == indices.len() / 3
    &&& forall|k: int|
        0 <= k < tris.len() ==> #[trigger] tris[k] == [
            indices[3 * k],
            indices[3 * k + 1],
            indices[3 * k + 2],
        ]
}

/// Groups an index list into triangles, three indices each.
pub fn triangle_indices(indices: &[u32]) -> (tris: Vec<[u32; 3]>)
    ensures
        is_triangle_list(indices@, tris@),
{
    let len = indices.len();
    let n = len / 3;
    let mut tris: Vec<[u32; 3]> = Vec::new();
    let mut k: usize = 0;
    while k < n
        invariant
            n == len / 3,
            len == indices@.len(),
            k <= n,
            tris@.len() == k,
            forall|j: int|
                0 <= j < k ==> #[trigger] tris@[j] == [
                    indices@[3 * j],
                    indices@[3 * j + 1],
                    indices@[3 * j + 2],
                ],
        decreases n - k,
    {
        let i = 3 * k;
        tris.push([indices[i], indices[i + 1], indices[i + 2]]);
        k = k + 1;
    }
    tris
}

/// The index list of a mesh that comes without one: every vertex once, in order.
/// The count is taken as a `u32`, as glTF indices are.
pub fn sequential_indices(vertex_count: usize) -> (indices: Vec<u32>)
    ensures
        indices@.len() == vertex_count as u32,
        forall|i: int| 0 <= i < indices@.len() ==> #[trigger] indices@[i] == i,
{
    let n: u32 = vertex_count as u32;
    let mut indices: Vec<u32> = Vec::new();
    let mut i: u32 = 0;
    while i < n
        invariant
            i <= n,
            n == vertex_count as u32,
            indices@.len() == i,
            forall|j: int| 0 <= j < i ==> #[trigger] indices@[j] == j,
        decreases n - i,
    {
        indices.push(i);
        i = i + 1;
    }
    indices
}

/// The material of face `face_index` of a mesh that gives one material index per
/// face: the index it names, where both that face's entry and that material exist.
pub open spec fn face_material_of(
    face_material: Seq<u32>,
    face_index: int,
    material_count: int,
) -> Option<int> {
    if 0 <= face_index < face_material.len() && face_material[face_index] < material_count {
        Some(face_material[face_index] as int)
    } else {
        None
    }
}

/// Looks up the material index of a face; `None` sends the face to the default
/// material.
pub fn face_material_index(face_material: &[u32], face_index: usize, material_count: usize) -> (res:
    Option<usize>)
    ensures
        res matches Some(i) ==> face_material_of(face_material@, face_index as int, material_count as int)
            == Some(i as int),
        res is None ==> face_material_of(
            face_material@,
            face_index as int,
            material_count as int,
        ) is None,
{
    if face_index < face_material.len() {
        let m = face_material[face_index] as usize;
        if m < material_count {
            return Some(m);
        }
    }
    None
}

/// Read back in order, the corners of the triangles are the index list itself, up to
/// its last whole triangle.
pub proof fn lemma_triangles_cover_indices(indices: Seq<u32>, tris: Seq<[u32; 3]>)
    requires
        is_triangle_list(indices, tris),
    ensures
        forall|j: int| 0 <= j < 3 * tris.len() ==> #[trigger] tris[j / 3][j % 3] == indices[j],
{
    assert forall|j: int| 0 <= j < 3 * tris.len() implies #[trigger] tris[j / 3][j % 3]
        == indices[j] by {
        let k = j / 3;
        assert(j == 3 * k + j % 3);
        assert(tris[k] == [indices[3 * k], indices[3 * k + 1], indices[3 * k + 2]]);
    }
}

/// The three values of item `index` of a flat list of triples, if the list holds it.
pub fn read_triple<T: Copy>(data: &[T], index: usize) -> (res: Option<[T; 3]>)
    requires
        3 * index + 2 <= usize::MAX,
    ensures
        res is Some <==> 3 * index + 2 < data@.len(),
        res matches Some(v) ==> v == [data@[3 * index], data@[3 * index + 1], data@[3 * index + 2]],
{
    let i = 3 * index;
    if i + 2 < data.len() {
        Some([data[i], data[i + 1], data[i + 2]])
    } else {
        None
    }
}

/// The two values of item `index` of a flat list of pairs, if the list holds it.
pub fn read_pair<T: Copy>(data: &[T], index: usize) -> (res: Option<[T; 2]>)
    requires
        2 * index + 1 <= usize::MAX,
    ensures
        res is Some <==> 2 * index + 1 < data@.len(),
        res matches Some(v) ==> v == [data@[2 * index], data@[2 * index + 1]],
{
    let i = 2 * index;
    if i + 1 < data.len() {
        Some([data[i], data[i + 1]])
    } else {
        None
    }
}


/// Every face whose entry names a material that exists — the last face included —
/// gets exactly that material; a face without an entry, or naming a material past
/// the end of the list, gets none (and so the default material).
pub proof fn lemma_face_gets_named_material(
    face_material: Seq<u32>,
    face_index: int,
    material_count: int,
)
    ensures
        0 <= face_index < face_material.len() && face_material[face_index] < material_count
            ==> face_material_of(face_material, face_index, material_count) == Some(
            face_material[face_index] as int,
        ),
        (face_index < 0 || face_index >= face_material.len()) ==> face_material_of(
            face_material,
            face_index,
            material_count,
        ) is None,
        0 <= face_index < face_material.len() && face_material[face_index] >= material_count
            ==> face_material_of(face_material, face_index, material_count) is None,
{
}

} // verus!
