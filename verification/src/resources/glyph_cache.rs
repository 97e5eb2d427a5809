use vstd::prelude::*;

verus! {

/// Where the next glyph goes in a glyph atlas texture: glyphs are laid out
/// left to right in rows one point size high; a glyph that does not fit in
/// the rest of the row starts a new row, and one that does not fit below
/// the last row starts a new texture.
pub struct AtlasCursor {
    texture_width: u32,
    texture_height: u32,
    line_height: u32,
    x: u32,
    y: u32,
}

/// Where a glyph of size `gw` x `gh` is placed from cursor (`x`, `y`): the
/// offset of the glyph and whether a new texture is started.
pub open spec fn placement(
    width: u32,
    height: u32,
    line: u32,
    x: u32,
    y: u32,
    gw: u32,
    gh: u32,
) -> (u32, u32, bool) {
    if x + gw > width {
        if y + line + gh > height {
            (0, 0, true)
        } else {
            (0, (y + line) as u32, false)
        }
    } else {
        (x, y, false)
    }
}

impl AtlasCursor {
    pub closed spec fn width(&self) -> u32 {
        self.texture_width
    }

    pub closed spec fn height(&self) -> u32 {
        self.texture_height
    }

    pub closed spec fn line(&self) -> u32 {
        self.line_height
    }

    /// The offset that has not been used yet.
    pub closed spec fn offset(&self) -> (u32, u32) {
        (self.x, self.y)
    }

    /// A cursor at the start of a texture of 16 x 16 glyph cells of
    /// `point_size` pixels.
    pub fn new(point_size: u32) -> (c: Self)
        requires
            point_size as int * 16 <= u32::MAX,
        ensures
            c.width() == point_size * 16,
            c.height() == point_size * 16,
            c.line() == point_size,
            c.offset() == (0u32, 0u32),
    {
        AtlasCursor {
            texture_width: point_size * 16,
            texture_height: point_size * 16,
            line_height: point_size,
            x: 0,
            y: 0,
        }
    }

    /// The size of the atlas texture.
    pub fn texture_size(&self) -> (s: (u32, u32))
        ensures
            s == (self.width(), self.height()),
    {
        (self.texture_width, self.texture_height)
    }

    /// The offset that has not been used yet.
    pub fn current_offset(&self) -> (o: (u32, u32))
        ensures
            o == self.offset(),
    {
        (self.x, self.y)
    }

    /// Places a glyph of size `gw` x `gh`: returns its offset and whether
    /// it starts a new texture; the cursor moves just right of it.
    pub fn place(&mut self, gw: u32, gh: u32) -> (r: (u32, u32, bool))
        requires
            old(self).offset().0 + gw <= u32::MAX,
            old(self).offset().0 + gw > old(self).width() ==> old(self).offset().1 + old(self).line() + gh
                <= u32::MAX,
        ensures
            r == placement(
                old(self).width(),
                old(self).height(),
                old(self).line(),
                old(self).offset().0,
                old(self).offset().1,
                gw,
                gh,
            ),
            final(self).offset() == ((r.0 + gw) as u32, r.1),
            final(self).width() == old(self).width(),
            final(self).height() == old(self).height(),
            final(self).line() == old(self).line(),
    {
        let mut new_texture = false;
        if self.x + gw > self.texture_width {
            self.x = 0;
            self.y = self.y + self.line_height;
            if self.y + gh > self.texture_height {
                self.x = 0;
                self.y = 0;
                new_texture = true;
            }
        }
        let placed = (self.x, self.y, new_texture);
        self.x = self.x + gw;
        placed
    }
}

/// A glyph no wider than the atlas always fits in its row: its right edge
/// is inside the texture.
pub proof fn lemma_placement_fits_row(width: u32, height: u32, line: u32, x: u32, y: u32, gw: u32, gh: u32)
    requires
        gw <= width,
    ensures
        placement(width, height, line, x, y, gw, gh).0 + gw <= width,
{
}

/// The alpha of a rasterized pixel: the mean of its three color bytes.
pub open spec fn coverage_alpha_spec(p: Seq<u8>) -> Seq<u8> {
    Seq::new(
        p.len(),
        |i: int|
            if (i + 1) % 4 == 0 && i >= 3 {
                ((p[i - 1] as int + p[i - 2] as int + p[i - 3] as int) / 3) as u8
            } else {
                p[i]
            },
    )
}

/// Replaces the fourth byte of each RGBA pixel with the mean of the three
/// color bytes before it (subpixel coverage becomes opacity).
pub fn coverage_alpha(pixels: &[u8]) -> (r: Vec<u8>)
    ensures
        r@ == coverage_alpha_spec(pixels@),
{
    let mut r: Vec<u8> = Vec::new();
    let mut i: usize = 0;
    while i < pixels.len()
        invariant
            i <= pixels@.len(),
            r@.len() == i,
            forall|k: int| 0 <= k < i ==> #[trigger] r@[k] == coverage_alpha_spec(pixels@)[k],
        decreases pixels@.len() - i,
    {
        if (i + 1) % 4 == 0 {
            let sum: u32 = pixels[i - 1] as u32 + pixels[i - 2] as u32 + pixels[i - 3] as u32;
            r.push((sum / 3) as u8);
        } else {
            r.push(pixels[i]);
        }
        i = i + 1;
    }
    proof {
        assert(r@ =~= coverage_alpha_spec(pixels@));
    }
    r
}

} // verus!
