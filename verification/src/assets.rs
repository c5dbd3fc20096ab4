//! Immutable sprite and style-map assets, stored once and referenced by
//! handle. An asset never changes after it is added; entities share assets
//! freely through their handles.

use vstd::prelude::*;

use crate::cells::Color;

verus! {

/// An immutable glyph block: a `width` x `height` grid, row-major, where a
/// `None` cell is transparent and lets layers beneath show through.
pub struct Sprite {
    pub width: usize,
    pub height: usize,
    pub cells: Vec<Option<char>>,
}

/// One style-map cell: an explicit color wins; `None` inherits.
#[derive(Clone, Copy, Debug)]
pub struct CellStyle {
    pub fg: Option<Color>,
    pub bg: Option<Color>,
}

pub open spec fn no_style() -> CellStyle {
    CellStyle { fg: None, bg: None }
}

/// An immutable per-cell color overlay, aligned cell by cell to the sprite
/// it decorates but assignable independently of it.
pub struct StyleMap {
    pub width: usize,
    pub height: usize,
    pub cells: Vec<CellStyle>,
}

impl Sprite {
    pub open spec fn wf(self) -> bool {
        self.cells@.len() == self.width * self.height
    }

    /// The glyph at local coordinates; transparent outside the grid.
    pub open spec fn glyph_at(self, dx: int, dy: int) -> Option<char> {
        if 0 <= dx < self.width && 0 <= dy < self.height {
            self.cells@[dy * self.width + dx]
        } else {
            None
        }
    }

    /// Builds a sprite, refusing a cell grid whose length does not match the
    /// announced dimensions.
    pub fn new(width: usize, height: usize, cells: Vec<Option<char>>) -> (r: Option<Sprite>)
        ensures
            match r {
                Some(s) => s.wf() && s.width == width && s.height == height && s.cells@
                    == cells@,
                None => cells@.len() != width * height,
            },
    {
        let n = cells.len();
        if width != 0 && height > usize::MAX / width {
            proof {
                lemma_product_exceeds(width as int, height as int, usize::MAX as int);
                assert(n <= usize::MAX);
            }
            None
        } else {
            proof {
                if width != 0 {
                    lemma_product_bounded(width as int, height as int, usize::MAX as int);
                }
            }
            let need: usize = width * height;
            if n == need {
                Some(Sprite { width, height, cells })
            } else {
                None
            }
        }
    }
}

impl StyleMap {
    pub open spec fn wf(self) -> bool {
        self.cells@.len() == self.width * self.height
    }

    /// The style at local coordinates; no style outside the grid.
    pub open spec fn style_at(self, dx: int, dy: int) -> CellStyle {
        if 0 <= dx < self.width && 0 <= dy < self.height {
            self.cells@[dy * self.width + dx]
        } else {
            no_style()
        }
    }

    /// Builds a style map, refusing a cell grid whose length does not match
    /// the announced dimensions.
    pub fn new(width: usize, height: usize, cells: Vec<CellStyle>) -> (r: Option<StyleMap>)
        ensures
            match r {
                Some(m) => m.wf() && m.width == width && m.height == height && m.cells@
                    == cells@,
                None => cells@.len() != width * height,
            },
    {
        let n = cells.len();
        if width != 0 && height > usize::MAX / width {
            proof {
                lemma_product_exceeds(width as int, height as int, usize::MAX as int);
                assert(n <= usize::MAX);
            }
            None
        } else {
            proof {
                if width != 0 {
                    lemma_product_bounded(width as int, height as int, usize::MAX as int);
                }
            }
            let need: usize = width * height;
            if n == need {
                Some(StyleMap { width, height, cells })
            } else {
                None
            }
        }
    }
}

/// If `h` exceeds `m / w` then `w * h` exceeds `m`.
proof fn lemma_product_exceeds(w: int, h: int, m: int)
    requires
        w >= 1,
        m >= 0,
        h > m / w,
    ensures
        w * h > m,
{
    assert(h >= m / w + 1);
    assert(w * (m / w) + m % w == m) by {
        vstd::arithmetic::div_mod::lemma_fundamental_div_mod(m, w);
    }
    assert(m % w < w) by {
        vstd::arithmetic::div_mod::lemma_mod_bound(m, w);
    }
    assert(w * h >= w * (m / w + 1)) by (nonlinear_arith)
        requires
            w >= 1,
            h >= m / w + 1,
    ;
    assert(w * (m / w + 1) == w * (m / w) + w) by (nonlinear_arith);
}

/// If `h` stays within `m / w` then `w * h` stays within `m`.
proof fn lemma_product_bounded(w: int, h: int, m: int)
    requires
        w >= 1,
        0 <= h,
        m >= 0,
        h <= m / w,
    ensures
        w * h <= m,
{
    assert(w * (m / w) + m % w == m) by {
        vstd::arithmetic::div_mod::lemma_fundamental_div_mod(m, w);
    }
    assert(m % w >= 0) by {
        vstd::arithmetic::div_mod::lemma_mod_bound(m, w);
    }
    assert(w * h <= w * (m / w)) by (nonlinear_arith)
        requires
            w >= 1,
            0 <= h,
            h <= m / w,
    ;
}

/// The asset store: handle-addressed, append-only, immutable entries.
pub struct AssetStore {
    pub sprites: Vec<Sprite>,
    pub styles: Vec<StyleMap>,
}

impl AssetStore {
    pub open spec fn wf(self) -> bool {
        &&& forall|i: int| 0 <= i < self.sprites@.len() ==> (#[trigger] self.sprites@[i]).wf()
        &&& forall|i: int| 0 <= i < self.styles@.len() ==> (#[trigger] self.styles@[i]).wf()
    }

    pub fn new() -> (r: AssetStore)
        ensures
            r.wf(),
            r.sprites@.len() == 0,
            r.styles@.len() == 0,
    {
        AssetStore { sprites: Vec::new(), styles: Vec::new() }
    }

    /// Adds a sprite and returns its handle.
    pub fn add_sprite(&mut self, s: Sprite) -> (h: usize)
        requires
            old(self).wf(),
            s.wf(),
            old(self).sprites@.len() < usize::MAX,
        ensures
            final(self).wf(),
            h == old(self).sprites@.len(),
            final(self).sprites@ == old(self).sprites@.push(s),
            final(self).styles@ == old(self).styles@,
    {
        let h = self.sprites.len();
        self.sprites.push(s);
        h
    }

    /// Adds a style map and returns its handle.
    pub fn add_style(&mut self, m: StyleMap) -> (h: usize)
        requires
            old(self).wf(),
            m.wf(),
            old(self).styles@.len() < usize::MAX,
        ensures
            final(self).wf(),
            h == old(self).styles@.len(),
            final(self).styles@ == old(self).styles@.push(m),
            final(self).sprites@ == old(self).sprites@,
    {
        let h = self.styles.len();
        self.styles.push(m);
        h
    }
}

} // verus!
