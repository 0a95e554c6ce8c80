//! The state that a stream carries from one pixel to the next.

use crate::pixel::Pixel;
use vstd::prelude::*;

verus! {

/// The mathematical value of a [`State`]: what the contracts of this crate
/// speak of.
pub struct CodecState {
    /// The 64 cache slots.
    pub cache: Seq<Pixel>,
    /// The pixel that was last put on, or taken from, the stream.
    pub prev: Pixel,
    /// While encoding, the length of the run that has not been written yet.
    /// While decoding, the number of pixels still owed by the last run chunk.
    pub run: nat,
}

impl CodecState {
    /// The state that every stream starts in: a cache of 64 transparent
    /// black pixels, opaque black as the previous pixel, and no run.
    pub open spec fn initial() -> CodecState {
        CodecState {
            cache: Seq::new(64, |i: int| Pixel { r: 0, g: 0, b: 0, a: 0 }),
            prev: Pixel::opaque_black(),
            run: 0,
        }
    }

    /// This state with `pixel` written to its cache slot.
    pub open spec fn insert(self, pixel: Pixel) -> CodecState {
        CodecState { cache: self.cache.update(pixel.slot(), pixel), ..self }
    }

    /// Whether `pixel` is the one held in its cache slot.
    pub open spec fn holds(self, pixel: Pixel) -> bool {
        self.cache[pixel.slot()] == pixel
    }
}

/// What is carried from pixel to pixel while an image is decoded or encoded:
/// created fresh for each image, and never shared between two.
pub struct State {
    /// A cache of previously seen pixels, indexed by their hash value.
    pub cache: [Pixel; 64],
    /// The previously decoded/encoded pixel.
    pub prev_pixel: Pixel,
    /// Length of the current run (if any).
    pub run_count: u8,
}

impl View for State {
    type V = CodecState;

    open spec fn view(&self) -> CodecState {
        CodecState { cache: self.cache@, prev: self.prev_pixel, run: self.run_count as nat }
    }
}

impl State {
    /// The state at the start of a stream.
    pub fn new() -> (state: Self)
        ensures
            state@ == CodecState::initial(),
    {
        let state = State {
            cache: [Pixel { r: 0, g: 0, b: 0, a: 0 };64],
            prev_pixel: Pixel::default(),
            run_count: 0,
        };
        assert(state@.cache =~= CodecState::initial().cache);
        state
    }

    /// Inserts the given pixel into the cache. Overwrites any pixel that was
    /// previously cached at the computed index.
    pub fn cache_insert(&mut self, pixel: Pixel)
        ensures
            final(self)@ == old(self)@.insert(pixel),
    {
        let index: usize = pixel.qoi_hash();
        self.cache[index] = pixel;
    }

    /// Checks if the given pixel matches the cached pixel at the computed index
    /// and returns the index. If there is no match, the given pixel is inserted,
    /// overwriting the pixel that was previously cached, and the index is not
    /// returned.
    pub fn cache_match_or_replace(&mut self, pixel: Pixel) -> (hit: Option<usize>)
        ensures
            old(self)@.holds(pixel) ==> hit == Some(pixel.slot() as usize) && final(self)@ == old(
                self,
            )@,
            !old(self)@.holds(pixel) ==> hit.is_none() && final(self)@ == old(self)@.insert(pixel),
    {
        let index: usize = pixel.qoi_hash();
        let other_pixel: Pixel = self.cache[index];

        if other_pixel == pixel {
            return Some(index);
        }
        self.cache[index] = pixel;

        None
    }
}

} // verus!
