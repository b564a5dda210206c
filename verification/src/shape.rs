//! Vector shapes: vertices whose coordinates are small expression programs
//! evaluated against the window size, and index lists forming triangles.

use vstd::prelude::*;

verus! {

/// An RGBA color, one byte per channel.
#[derive(Clone, Copy, PartialEq, Eq, Structural, Debug)]
pub struct Color {
    pub r: u8,
    pub g: u8,
    pub b: u8,
    pub a: u8,
}

/// One opcode of a coordinate expression: push a constant (in thousandths),
/// load the window width or height, or combine the two topmost values.
#[derive(Clone, Copy, PartialEq, Eq, Structural, Debug)]
pub enum CoordOp {
    ConstMilli(i64),
    LoadWidth,
    LoadHeight,
    Add,
    Sub,
    Mul,
}

/// A coordinate expression: a small stack program.
pub type SExprCode = Vec<CoordOp>;

/// One vertex of a shape: the two coordinate programs and the color.
#[derive(Debug)]
pub struct ShapeVertex {
    x: SExprCode,
    y: SExprCode,
    color: Color,
}

impl ShapeVertex {
    /// The coordinate programs and color of the vertex.
    pub closed spec fn parts(self) -> (Seq<CoordOp>, Seq<CoordOp>, Color) {
        (self.x@, self.y@, self.color)
    }

    /// A vertex from its two coordinate programs and color.
    pub fn new(x: SExprCode, y: SExprCode, color: Color) -> (r: ShapeVertex)
        ensures
            r.parts() == (x@, y@, color),
    {
        ShapeVertex { x, y, color }
    }
}

/// A shape: vertices plus the triangle index list over them.
#[derive(Debug)]
pub struct VectorShape {
    pub verts: Vec<ShapeVertex>,
    pub indices: Vec<u16>,
}

impl VectorShape {
    /// An empty shape.
    pub fn new() -> (r: VectorShape)
        ensures
            r.verts@.len() == 0,
            r.indices@.len() == 0,
    {
        VectorShape { verts: Vec::new(), indices: Vec::new() }
    }

    /// Appends a filled axis-aligned box: four corner vertices spanning the
    /// two coordinate pairs, and the six indices of its two triangles,
    /// offset past the vertices already present.
    pub fn add_filled_box(
        &mut self,
        x1: SExprCode,
        y1: SExprCode,
        x2: SExprCode,
        y2: SExprCode,
        color: Color,
    )
        requires
            old(self).verts@.len() + 4 <= u16::MAX,
        ensures
            final(self).verts@.len() == old(self).verts@.len() + 4,
            final(self).indices@.len() == old(self).indices@.len() + 6,
            final(self).verts@.subrange(0, old(self).verts@.len() as int) == old(self).verts@,
            final(self).indices@.subrange(0, old(self).indices@.len() as int) == old(
                self,
            ).indices@,
            final(self).verts@[old(self).verts@.len() as int].parts() == (x1@, y1@, color),
            final(self).verts@[old(self).verts@.len() as int + 1].parts() == (x2@, y1@, color),
            final(self).verts@[old(self).verts@.len() as int + 2].parts() == (x1@, y2@, color),
            final(self).verts@[old(self).verts@.len() as int + 3].parts() == (x2@, y2@, color),
            ({
                let i = old(self).verts@.len() as u16;
                let n = old(self).indices@.len() as int;
                final(self).indices@.subrange(n, n + 6) == seq![
                    i,
                    (i + 2) as u16,
                    (i + 1) as u16,
                    (i + 1) as u16,
                    (i + 2) as u16,
                    (i + 3) as u16,
                ]
            }),
    {
        let ghost old_verts = self.verts@;
        let ghost old_indices = self.indices@;
        let i = self.verts.len() as u16;
        let v0 = ShapeVertex { x: copy_code(&x1), y: copy_code(&y1), color };
        let v1 = ShapeVertex { x: copy_code(&x2), y: copy_code(&y1), color };
        let v2 = ShapeVertex { x: copy_code(&x1), y: copy_code(&y2), color };
        let v3 = ShapeVertex { x: x2, y: y2, color };
        self.verts.push(v0);
        self.verts.push(v1);
        self.verts.push(v2);
        self.verts.push(v3);
        self.indices.push(i);
        self.indices.push(i + 2);
        self.indices.push(i + 1);
        self.indices.push(i + 1);
        self.indices.push(i + 2);
        self.indices.push(i + 3);
        proof {
            assert(self.verts@.subrange(0, old_verts.len() as int) =~= old_verts);
            assert(self.indices@.subrange(0, old_indices.len() as int) =~= old_indices);
            assert(self.indices@.subrange(old_indices.len() as int, old_indices.len() as int + 6) =~= seq![
                i,
                (i + 2) as u16,
                (i + 1) as u16,
                (i + 1) as u16,
                (i + 2) as u16,
                (i + 3) as u16,
            ]);
        }
    }
}

/// An opcode-for-opcode copy of a coordinate program.
pub fn copy_code(v: &SExprCode) -> (r: SExprCode)
    ensures
        r@ == v@,
{
    let mut out: Vec<CoordOp> = Vec::new();
    let mut k: usize = 0;
    while k < v.len()
        invariant
            0 <= k <= v@.len(),
            out@ == v@.subrange(0, k as int),
        decreases v@.len() - k,
    {
        out.push(v[k]);
        proof {
            assert(out@ =~= v@.subrange(0, k + 1));
        }
        k = k + 1;
    }
    proof {
        assert(v@.subrange(0, v@.len() as int) =~= v@);
    }
    out
}

} // verus!
