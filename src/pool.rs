//! A bounded pool of scratch surfaces sized to the render target.

use vstd::prelude::*;
use crate::surface::Surface;

verus! {

/// Hands out transparent scratch surfaces of one size, at most `limit` of
/// them at a time.
pub struct SurfacePool {
    width: usize,
    height: usize,
    limit: usize,
    in_use: usize,
}

impl SurfacePool {
    #[verifier::type_invariant]
    spec fn well_formed(&self) -> bool {
        &&& self.width * self.height <= usize::MAX
        &&& self.in_use <= self.limit
    }

    /// Width of the surfaces handed out.
    pub closed spec fn spec_width(&self) -> nat {
        self.width as nat
    }

    /// Height of the surfaces handed out.
    pub closed spec fn spec_height(&self) -> nat {
        self.height as nat
    }

    /// How many surfaces are handed out and not yet given back.
    pub closed spec fn in_use(&self) -> nat {
        self.in_use as nat
    }

    /// How many surfaces may be out at once.
    pub closed spec fn limit(&self) -> nat {
        self.limit as nat
    }

    /// Whether one more surface can be handed out.
    pub open spec fn available(&self) -> bool {
        self.in_use() < self.limit()
    }

    /// The pool after one surface is given back.
    pub closed spec fn released(self) -> SurfacePool {
        SurfacePool { in_use: (self.in_use - 1) as usize, ..self }
    }

    /// A pool of at most `limit` surfaces of `width` by `height` pixels, or
    /// `None` where `width * height` does not fit in `usize`.
    pub fn new(width: usize, height: usize, limit: usize) -> (r: Option<SurfacePool>)
        ensures
            r is Some <==> width * height <= usize::MAX,
            r matches Some(p) ==> {
                &&& p.spec_width() == width
                &&& p.spec_height() == height
                &&& p.in_use() == 0
                &&& p.available() == (limit > 0)
            },
    {
        match width.checked_mul(height) {
            Some(_) => Some(SurfacePool { width, height, limit, in_use: 0 }),
            None => None,
        }
    }

    /// A transparent surface of the pool's size, or `None` when `limit`
    /// surfaces are already out.
    pub fn acquire(&mut self) -> (r: Option<Surface>)
        ensures
            r is Some <==> old(self).available(),
            final(self).spec_width() == old(self).spec_width(),
            final(self).spec_height() == old(self).spec_height(),
            final(self).limit() == old(self).limit(),
            r matches Some(s) ==> {
                &&& s.spec_width() == old(self).spec_width()
                &&& s.spec_height() == old(self).spec_height()
                &&& s@ == Seq::new(s@.len(), |i: int| 0u32)
                &&& final(self).in_use() == old(self).in_use() + 1
                &&& final(self).released() == *old(self)
            },
            r is None ==> *final(self) == *old(self),
    {
        proof {
            use_type_invariant(&*self);
        }
        if self.in_use >= self.limit {
            return None;
        }
        let s = Surface::new(self.width, self.height);
        match s {
            Some(s) => {
                self.in_use = self.in_use + 1;
                Some(s)
            },
            None => None,
        }
    }

    /// Width of the surfaces handed out.
    pub fn width(&self) -> (r: usize)
        ensures
            r == self.spec_width(),
    {
        self.width
    }

    /// Height of the surfaces handed out.
    pub fn height(&self) -> (r: usize)
        ensures
            r == self.spec_height(),
    {
        self.height
    }

    /// Gives back a surface that `acquire` handed out.
    pub fn release(&mut self, surface: Surface)
        requires
            old(self).in_use() > 0,
        ensures
            *final(self) == old(self).released(),
    {
        proof {
            use_type_invariant(&*self);
        }
        self.in_use = self.in_use - 1;
    }
}

} // verus!
