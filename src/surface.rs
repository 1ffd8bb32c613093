//! Raster surfaces of premultiplied ARGB pixels and the whole-surface
//! compositing operations.

use vstd::prelude::*;
use crate::pixel::{
    blend_dst_in, blend_dst_out, blend_xor, dst_in_px, dst_in_seq, dst_out_px, dst_out_seq,
    lemma_scale, lemma_xor_premultiplied, luminance_px, luminance_seq, luminance_to_alpha, premultiplied, xor_px, xor_seq,
};

verus! {

/// A `width` by `height` raster of premultiplied ARGB pixels, row by row.
pub struct Surface {
    width: usize,
    height: usize,
    data: Vec<u32>,
}

impl View for Surface {
    type V = Seq<u32>;

    closed spec fn view(&self) -> Seq<u32> {
        self.data@
    }
}

impl Surface {
    #[verifier::type_invariant]
    spec fn well_formed(&self) -> bool {
        &&& self.data@.len() == self.width * self.height
        &&& forall|i: int| 0 <= i < self.data@.len() ==> premultiplied(#[trigger] self.data@[i])
    }

    /// Width in pixels.
    pub closed spec fn spec_width(&self) -> nat {
        self.width as nat
    }

    /// Height in pixels.
    pub closed spec fn spec_height(&self) -> nat {
        self.height as nat
    }

    /// Whether `other` has the same width and height.
    pub open spec fn same_size(&self, other: &Surface) -> bool {
        self.spec_width() == other.spec_width() && self.spec_height() == other.spec_height()
    }

    /// A transparent surface, or `None` where `width * height` does not fit
    /// in `usize`.
    pub fn new(width: usize, height: usize) -> (r: Option<Surface>)
        ensures
            r is Some <==> width * height <= usize::MAX,
            r matches Some(s) ==> {
                &&& s.spec_width() == width
                &&& s.spec_height() == height
                &&& s@ == Seq::new((width * height) as nat, |i: int| 0u32)
            },
    {
        let n = match width.checked_mul(height) {
            Some(n) => n,
            None => return None,
        };
        let mut data: Vec<u32> = Vec::new();
        let mut i: usize = 0;
        while i < n
            invariant
                i <= n,
                n == width * height,
                data@ == Seq::new(i as nat, |k: int| 0u32),
            decreases n - i,
        {
            data.push(0);
            i = i + 1;
        }
        proof {
            assert(premultiplied(0u32));
        }
        Some(Surface { width, height, data })
    }

    /// Width in pixels.
    pub fn width(&self) -> (r: usize)
        ensures
            r == self.spec_width(),
    {
        self.width
    }

    /// Height in pixels.
    pub fn height(&self) -> (r: usize)
        ensures
            r == self.spec_height(),
    {
        self.height
    }

    /// The pixels, row by row.
    pub fn pixels(&self) -> (r: &[u32])
        ensures
            r@ == self@,
    {
        self.data.as_slice()
    }

    /// The number of pixels is the width times the height, and each is
    /// premultiplied.
    pub fn check_well_formed(&self)
        ensures
            self@.len() == self.spec_width() * self.spec_height(),
            forall|i: int| 0 <= i < self@.len() ==> premultiplied(#[trigger] self@[i]),
    {
        proof {
            use_type_invariant(self);
        }
    }

    /// Replaces the pixels with `data` where it holds `width * height`
    /// premultiplied pixels; otherwise leaves the surface as it is.
    pub fn set_pixels(&mut self, data: Vec<u32>) -> (accepted: bool)
        ensures
            accepted == (data@.len() == old(self).spec_width() * old(self).spec_height()
                && forall|i: int| 0 <= i < data@.len() ==> premultiplied(#[trigger] data@[i])),
            accepted ==> final(self)@ == data@,
            !accepted ==> final(self)@ == old(self)@,
            final(self).same_size(old(self)),
    {
        proof {
            use_type_invariant(&*self);
        }
        if data.len() != self.data.len() {
            return false;
        }
        let mut i: usize = 0;
        while i < data.len()
            invariant
                i <= data@.len(),
                forall|k: int| 0 <= k < i ==> premultiplied(#[trigger] data@[k]),
            decreases data@.len() - i,
        {
            let p = data[i];
            if !(p / 0x10000 % 0x100 <= p / 0x100_0000 && p / 0x100 % 0x100 <= p / 0x100_0000 && p
                % 0x100 <= p / 0x100_0000) {
                return false;
            }
            i = i + 1;
        }
        self.data = data;
        true
    }

    /// Sets every pixel to `p`.
    pub fn fill(&mut self, p: u32)
        requires
            premultiplied(p),
        ensures
            final(self)@ == Seq::new(old(self)@.len(), |i: int| p),
            final(self).same_size(old(self)),
    {
        proof {
            use_type_invariant(&*self);
        }
        let n = self.data.len();
        let mut out: Vec<u32> = Vec::new();
        let mut i: usize = 0;
        while i < n
            invariant
                i <= n,
                n == self.data@.len(),
                n == old(self)@.len(),
                self.width == old(self).width,
                self.height == old(self).height,
                out@.len() == i,
                forall|k: int| 0 <= k < i ==> out@[k] == p,
            decreases n - i,
        {
            out.push(p);
            i = i + 1;
        }
        assert(out@ =~= Seq::new(old(self)@.len(), |i: int| p));
        self.data = out;
    }

    /// Destination-out compositing of `src` onto this surface: each pixel is
    /// kept in proportion to what the same pixel of `src` leaves uncovered.
    pub fn composite_dst_out(&mut self, src: &Surface)
        requires
            old(self).same_size(src),
        ensures
            final(self)@ == dst_out_seq(src@, old(self)@),
            final(self).same_size(old(self)),
    {
        proof {
            use_type_invariant(&*self);
            use_type_invariant(src);
        }
        let n = self.data.len();
        let mut out: Vec<u32> = Vec::new();
        let mut i: usize = 0;
        while i < n
            invariant
                i <= n,
                n == self.data@.len(),
                n == old(self)@.len(),
                n == src@.len(),
                self.width == old(self).width,
                self.height == old(self).height,
                out@.len() == i,
                forall|k: int| 0 <= k < i ==> out@[k] == dst_out_px(src@[k], old(self)@[k]),
                self.data@ == old(self)@,
                forall|k: int| 0 <= k < n ==> premultiplied(#[trigger] self.data@[k]),
                forall|k: int| 0 <= k < i ==> premultiplied(#[trigger] out@[k]),
            decreases n - i,
        {
            let p = blend_dst_out(src.data[i], self.data[i]);
            proof {
                lemma_scale(self.data@[i as int], 256 - crate::pixel::alpha_of(src.data@[i as int]));
            }
            out.push(p);
            i = i + 1;
        }
        self.data = out;
        assert(self.data@ =~= dst_out_seq(src@, old(self)@));
    }

    /// Destination-in compositing of `src` onto this surface: each pixel is
    /// kept in proportion to what the same pixel of `src` covers.
    pub fn composite_dst_in(&mut self, src: &Surface)
        requires
            old(self).same_size(src),
        ensures
            final(self)@ == dst_in_seq(src@, old(self)@),
            final(self).same_size(old(self)),
    {
        proof {
            use_type_invariant(&*self);
            use_type_invariant(src);
        }
        let n = self.data.len();
        let mut out: Vec<u32> = Vec::new();
        let mut i: usize = 0;
        while i < n
            invariant
                i <= n,
                n == self.data@.len(),
                n == old(self)@.len(),
                n == src@.len(),
                self.width == old(self).width,
                self.height == old(self).height,
                out@.len() == i,
                forall|k: int| 0 <= k < i ==> out@[k] == dst_in_px(src@[k], old(self)@[k]),
                self.data@ == old(self)@,
                forall|k: int| 0 <= k < n ==> premultiplied(#[trigger] self.data@[k]),
                forall|k: int| 0 <= k < i ==> premultiplied(#[trigger] out@[k]),
            decreases n - i,
        {
            let p = blend_dst_in(src.data[i], self.data[i]);
            proof {
                crate::pixel::lemma_channels(src.data@[i as int]);
                lemma_scale(self.data@[i as int], crate::pixel::alpha_of(src.data@[i as int]) + 1);
            }
            out.push(p);
            i = i + 1;
        }
        self.data = out;
        assert(self.data@ =~= dst_in_seq(src@, old(self)@));
    }

    /// Masks this surface by `layer`: the layer is turned into alpha by its
    /// luminance, then composited destination-in onto this surface.
    pub fn composite_mask(&mut self, layer: &mut Surface)
        requires
            old(self).same_size(old(layer)),
        ensures
            final(layer)@ == luminance_seq(old(layer)@),
            final(self)@ == dst_in_seq(luminance_seq(old(layer)@), old(self)@),
            final(self).same_size(old(self)),
            final(layer).same_size(old(layer)),
    {
        layer.image_to_mask();
        self.composite_dst_in(layer);
    }

    /// Exclusive-or compositing of `src` onto this surface.
    pub fn composite_xor(&mut self, src: &Surface)
        requires
            old(self).same_size(src),
        ensures
            final(self)@ == xor_seq(src@, old(self)@),
            final(self).same_size(old(self)),
    {
        proof {
            use_type_invariant(&*self);
            use_type_invariant(src);
        }
        let n = self.data.len();
        let mut out: Vec<u32> = Vec::new();
        let mut i: usize = 0;
        while i < n
            invariant
                i <= n,
                n == self.data@.len(),
                n == old(self)@.len(),
                n == src@.len(),
                self.width == old(self).width,
                self.height == old(self).height,
                out@.len() == i,
                forall|k: int| 0 <= k < i ==> out@[k] == xor_px(src@[k], old(self)@[k]),
                self.data@ == old(self)@,
                forall|k: int| 0 <= k < n ==> premultiplied(#[trigger] self.data@[k]),
                forall|k: int| 0 <= k < i ==> premultiplied(#[trigger] out@[k]),
                forall|k: int| 0 <= k < n ==> premultiplied(#[trigger] src.data@[k]),
            decreases n - i,
        {
            let p = blend_xor(src.data[i], self.data[i]);
            proof {
                lemma_xor_premultiplied(src.data@[i as int], self.data@[i as int]);
            }
            out.push(p);
            i = i + 1;
        }
        self.data = out;
        assert(self.data@ =~= xor_seq(src@, old(self)@));
    }

    /// Turns the surface into an alpha mask in place: each pixel becomes
    /// black, with the luminance of its colour as alpha.
    pub fn image_to_mask(&mut self)
        ensures
            final(self)@ == luminance_seq(old(self)@),
            final(self).same_size(old(self)),
    {
        proof {
            use_type_invariant(&*self);
        }
        let n = self.data.len();
        let mut out: Vec<u32> = Vec::new();
        let mut i: usize = 0;
        while i < n
            invariant
                i <= n,
                n == self.data@.len(),
                n == old(self)@.len(),
                self.width == old(self).width,
                self.height == old(self).height,
                out@.len() == i,
                forall|k: int| 0 <= k < i ==> out@[k] == luminance_px(old(self)@[k]),
                self.data@ == old(self)@,
                forall|k: int| 0 <= k < n ==> premultiplied(#[trigger] self.data@[k]),
                forall|k: int| 0 <= k < i ==> premultiplied(#[trigger] out@[k]),
            decreases n - i,
        {
            let p = luminance_to_alpha(self.data[i]);
            out.push(p);
            i = i + 1;
        }
        self.data = out;
        assert(self.data@ =~= luminance_seq(old(self)@));
    }
}

} // verus!
