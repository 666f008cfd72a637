//! A grid of 16-bit intensities, and its RGBA image for a texture.

use vstd::prelude::*;

use crate::samples::grey_of;

verus! {

/// The intensities of a list of rows, row after row.
pub open spec fn flatten_rows(rows: Seq<Vec<u16>>) -> Seq<u16>
    decreases rows.len(),
{
    if rows.len() == 0 {
        Seq::empty()
    } else {
        flatten_rows(rows.drop_last()) + rows.last()@
    }
}

/// Four bytes per intensity: three equal grey channels and an opaque alpha.
pub open spec fn grey_rgba_of(values: Seq<u16>) -> Seq<u8>
    decreases values.len(),
{
    if values.len() == 0 {
        Seq::empty()
    } else {
        let g = grey_of(values.last());
        grey_rgba_of(values.drop_last()) + seq![g, g, g, 255u8]
    }
}

/// An image of `dy` rows of `dx` intensities each.
pub struct TextureDisplay {
    pub dx: usize,
    pub dy: usize,
    pub image_buffer: Vec<Vec<u16>>,
}

impl TextureDisplay {
    /// A display of `dy` rows of `dx` zero intensities.
    pub fn new(dx: usize, dy: usize) -> (r: TextureDisplay)
        ensures
            r.dx == dx,
            r.dy == dy,
            r.image_buffer@.len() == dy,
            forall|i: int| 0 <= i < dy ==> (#[trigger] r.image_buffer@[i])@ == Seq::new(dx as nat, |j: int| 0u16),
    {
        let mut image_buffer: Vec<Vec<u16>> = Vec::new();
        let mut i: usize = 0;
        while i < dy
            invariant
                i <= dy,
                image_buffer@.len() == i,
                forall|k: int| 0 <= k < i ==> (#[trigger] image_buffer@[k])@ == Seq::new(dx as nat, |j: int| 0u16),
            decreases dy - i,
        {
            let mut row: Vec<u16> = Vec::new();
            let mut j: usize = 0;
            while j < dx
                invariant
                    j <= dx,
                    row@ == Seq::new(j as nat, |k: int| 0u16),
                decreases dx - j,
            {
                row.push(0);
                j = j + 1;
                assert(row@ =~= Seq::new(j as nat, |k: int| 0u16));
            }
            image_buffer.push(row);
            i = i + 1;
        }
        TextureDisplay { dx, dy, image_buffer }
    }

    /// The RGBA bytes of the image: each intensity's high byte as a grey
    /// level, row after row.
    pub fn rgba_pixels(&self) -> (r: Vec<u8>)
        ensures
            r@ == grey_rgba_of(flatten_rows(self.image_buffer@)),
    {
        let rows = &self.image_buffer;
        let mut out: Vec<u8> = Vec::new();
        let mut r: usize = 0;
        while r < rows.len()
            invariant
                r <= rows@.len(),
                out@ == grey_rgba_of(flatten_rows(rows@.take(r as int))),
            decreases rows@.len() - r,
        {
            let row = &rows[r];
            let ghost done = flatten_rows(rows@.take(r as int));
            let mut c: usize = 0;
            while c < row.len()
                invariant
                    c <= row@.len(),
                    out@ == grey_rgba_of(done + row@.take(c as int)),
                decreases row@.len() - c,
            {
                let g = (row[c] / 256) as u8;
                proof {
                    assert((done + row@.take(c + 1)).drop_last() =~= done + row@.take(c as int));
                }
                out.push(g);
                out.push(g);
                out.push(g);
                out.push(255);
                proof {
                    assert(out@ =~= grey_rgba_of(done + row@.take(c + 1)));
                }
                c = c + 1;
            }
            proof {
                assert(row@.take(c as int) =~= row@);
                assert(rows@.take(r + 1).drop_last() =~= rows@.take(r as int));
                assert(flatten_rows(rows@.take(r + 1)) == done + rows@[r as int]@);
            }
            r = r + 1;
        }
        proof {
            assert(rows@.take(r as int) =~= rows@);
        }
        out
    }
}

impl Default for TextureDisplay {
    /// An empty display: no width or height, and one empty row.
    fn default() -> (r: TextureDisplay)
        ensures
            r.dx == 0,
            r.dy == 0,
            r.image_buffer@.len() == 1,
            r.image_buffer@[0]@.len() == 0,
    {
        let mut image_buffer: Vec<Vec<u16>> = Vec::new();
        image_buffer.push(Vec::new());
        TextureDisplay { dx: 0, dy: 0, image_buffer }
    }
}

} // verus!
