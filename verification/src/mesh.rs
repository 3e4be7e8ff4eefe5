//! Surface geometry: vertices on the block lattice, faces and meshes.

use vstd::prelude::*;

verus! {

/// One corner of a face. Positions are corners of the block lattice, so the
/// block at `(x, y, z)` spans from `(x, y, z)` to `(x + 1, y + 1, z + 1)`.
/// Texture coordinates count blocks along the two sides of the face, and
/// `tex_id` selects the texture by block identifier.
#[derive(Debug, Clone, Copy, PartialEq, Eq)]
pub struct Vertex {
    pub pos: (i64, i64, i64),
    pub tex_coord: (u32, u32),
    pub tex_id: u32,
}

impl Vertex {
    pub fn new(pos: (i64, i64, i64), tex_coord: (u32, u32), tex_id: u32) -> (r: Self)
        ensures
            r == (Vertex { pos, tex_coord, tex_id }),
    {
        Self { pos, tex_coord, tex_id }
    }

    /// Whether the vertex lies on the lattice of one chunk, its faces
    /// included.
    pub open spec fn is_local(self) -> bool {
        0 <= self.pos.0 <= 32 && 0 <= self.pos.1 <= 32 && 0 <= self.pos.2 <= 32
    }

    /// The vertex moved by an offset.
    pub open spec fn translated(self, dx: int, dy: int, dz: int) -> Vertex {
        Vertex {
            pos: ((self.pos.0 + dx) as i64, (self.pos.1 + dy) as i64, (self.pos.2 + dz) as i64),
            tex_coord: self.tex_coord,
            tex_id: self.tex_id,
        }
    }
}

/// The vertex at a lattice corner with the given texture coordinates.
pub open spec fn corner(x: int, y: int, z: int, tu: int, tv: int, id: u32) -> Vertex {
    Vertex { pos: (x as i64, y as i64, z as i64), tex_coord: (tu as u32, tv as u32), tex_id: id }
}

/// The four corners of the rectangular face that starts at the block
/// `(x, y, z)` and looks in direction `dir`, `w` blocks wide and `h` blocks
/// high. The face lies on the side of the block that the direction points
/// to; its sides run along the two other axes, in ascending axis order.
/// Directions are numbered `+x, -x, +y, -y, +z, -z`. Any other direction has
/// no corners.
pub open spec fn face_vertices(x: int, y: int, z: int, dir: int, id: u32, w: int, h: int) -> Seq<
    Vertex,
> {
    if dir == 0 {
        seq![
            corner(x + 1, y, z, 0, h, id),
            corner(x + 1, y + w, z, w, h, id),
            corner(x + 1, y + w, z + h, w, 0, id),
            corner(x + 1, y, z + h, 0, 0, id),
        ]
    } else if dir == 1 {
        seq![
            corner(x, y + w, z, 0, h, id),
            corner(x, y, z, w, h, id),
            corner(x, y, z + h, w, 0, id),
            corner(x, y + w, z + h, 0, 0, id),
        ]
    } else if dir == 2 {
        seq![
            corner(x + w, y + 1, z, w, h, id),
            corner(x, y + 1, z, 0, h, id),
            corner(x, y + 1, z + h, 0, 0, id),
            corner(x + w, y + 1, z + h, w, 0, id),
        ]
    } else if dir == 3 {
        seq![
            corner(x + w, y, z + h, w, 0, id),
            corner(x, y, z + h, 0, 0, id),
            corner(x, y, z, 0, h, id),
            corner(x + w, y, z, w, h, id),
        ]
    } else if dir == 4 {
        seq![
            corner(x, y, z + 1, w, 0, id),
            corner(x + w, y, z + 1, 0, 0, id),
            corner(x + w, y + h, z + 1, 0, h, id),
            corner(x, y + h, z + 1, w, h, id),
        ]
    } else if dir == 5 {
        seq![
            corner(x + w, y, z, w, 0, id),
            corner(x, y, z, w, h, id),
            corner(x, y + h, z, 0, h, id),
            corner(x + w, y + h, z, 0, 0, id),
        ]
    } else {
        Seq::empty()
    }
}

/// The two triangles of a face, as indices into its four corners.
pub open spec fn face_indices() -> Seq<u32> {
    seq![0u32, 1u32, 2u32, 2u32, 3u32, 0u32]
}

/// The corners and triangle indices of one rectangular face.
pub fn generate_face(origin: (i64, i64, i64), dir: usize, texture_id: u32, width: u32, height: u32) -> (r:
    (Vec<Vertex>, Vec<u32>))
    requires
        origin.0 + width <= i64::MAX,
        origin.1 + width <= i64::MAX,
        origin.0 < i64::MAX,
        origin.1 + height <= i64::MAX,
        origin.2 + height <= i64::MAX,
        origin.1 < i64::MAX,
        origin.2 < i64::MAX,
    ensures
        r.0@ == face_vertices(
            origin.0 as int,
            origin.1 as int,
            origin.2 as int,
            dir as int,
            texture_id,
            width as int,
            height as int,
        ),
        r.1@ == face_indices(),
{
    let x = origin.0;
    let y = origin.1;
    let z = origin.2;
    let w: i64 = width as i64;
    let h: i64 = height as i64;
    let id = texture_id;
    let uv0: (u32, u32) = (0, 0);
    let uv1: (u32, u32) = (width, 0);
    let uv2: (u32, u32) = (width, height);
    let uv3: (u32, u32) = (0, height);
    let vertices = if dir == 0 {
        vec![
            Vertex::new((x + 1, y, z), uv3, id),
            Vertex::new((x + 1, y + w, z), uv2, id),
            Vertex::new((x + 1, y + w, z + h), uv1, id),
            Vertex::new((x + 1, y, z + h), uv0, id),
        ]
    } else if dir == 1 {
        vec![
            Vertex::new((x, y + w, z), uv3, id),
            Vertex::new((x, y, z), uv2, id),
            Vertex::new((x, y, z + h), uv1, id),
            Vertex::new((x, y + w, z + h), uv0, id),
        ]
    } else if dir == 2 {
        vec![
            Vertex::new((x + w, y + 1, z), uv2, id),
            Vertex::new((x, y + 1, z), uv3, id),
            Vertex::new((x, y + 1, z + h), uv0, id),
            Vertex::new((x + w, y + 1, z + h), uv1, id),
        ]
    } else if dir == 3 {
        vec![
            Vertex::new((x + w, y, z + h), uv1, id),
            Vertex::new((x, y, z + h), uv0, id),
            Vertex::new((x, y, z), uv3, id),
            Vertex::new((x + w, y, z), uv2, id),
        ]
    } else if dir == 4 {
        vec![
            Vertex::new((x, y, z + 1), uv1, id),
            Vertex::new((x + w, y, z + 1), uv0, id),
            Vertex::new((x + w, y + h, z + 1), uv3, id),
            Vertex::new((x, y + h, z + 1), uv2, id),
        ]
    } else if dir == 5 {
        vec![
            Vertex::new((x + w, y, z), uv1, id),
            Vertex::new((x, y, z), uv2, id),
            Vertex::new((x, y + h, z), uv3, id),
            Vertex::new((x + w, y + h, z), uv0, id),
        ]
    } else {
        Vec::new()
    };
    let indices: Vec<u32> = vec![0, 1, 2, 2, 3, 0];
    proof {
        assert(vertices@ =~= face_vertices(
            origin.0 as int,
            origin.1 as int,
            origin.2 as int,
            dir as int,
            texture_id,
            width as int,
            height as int,
        ));
        assert(indices@ =~= face_indices());
    }
    (vertices, indices)
}

/// The geometry of one chunk: a vertex list, a triangle index list, and a
/// flag that tells the renderer to upload it again.
pub struct Mesh {
    pub vertices: Vec<Vertex>,
    pub indices: Vec<u32>,
    pub index_count: u32,
    pub is_dirty: bool,
}

impl Mesh {
    /// Whether the recorded index count is the length of the index list.
    pub open spec fn wf(&self) -> bool {
        self.index_count == self.indices@.len()
    }

    /// A mesh of the given geometry, not yet uploaded.
    pub fn new(vertices: Vec<Vertex>, indices: Vec<u32>) -> (r: Self)
        requires
            indices@.len() <= u32::MAX,
        ensures
            r.vertices@ == vertices@,
            r.indices@ == indices@,
            r.index_count == indices@.len(),
            r.is_dirty,
    {
        Self { index_count: indices.len() as u32, vertices, indices, is_dirty: true }
    }

    /// Replaces the geometry wholesale and marks the mesh for upload.
    pub fn update(&mut self, vertices: Vec<Vertex>, indices: Vec<u32>)
        requires
            indices@.len() <= u32::MAX,
        ensures
            final(self).vertices@ == vertices@,
            final(self).indices@ == indices@,
            final(self).index_count == indices@.len(),
            final(self).is_dirty,
    {
        self.index_count = indices.len() as u32;
        self.vertices = vertices;
        self.indices = indices;
        self.is_dirty = true;
    }
}

} // verus!
