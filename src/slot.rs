//! A single-image cell holding the best decoded data available for one item.
//!
//! Readers get an `Arc` that stays valid whatever later writes do; `upgrade`
//! only ever raises the quality held, and `set`/`clear` are the only ways to
//! lower it.
use vstd::prelude::*;

use crate::config::{memory_estimate, rank, QualityTier};
use std::path::PathBuf;
use std::sync::Arc;

verus! {

#[verifier::external_type_specification]
#[verifier::external_body]
pub struct ExPathBuf(PathBuf);

/// Relies on `PathBuf`'s `Clone`, which copies the path.
pub assume_specification[ <PathBuf as Clone>::clone ](p: &PathBuf) -> PathBuf;

/// Relies on `Arc::clone`, which hands out another pointer to the same value.
#[verifier::external_body]
fn share(a: &Arc<ImageData>) -> (r: Arc<ImageData>)
    ensures
        r == *a,
{
    Arc::clone(a)
}

/// Decoded image data ready for display.
#[derive(Debug)]
pub struct ImageData {
    /// RGBA pixel data, row-major.
    pub pixels: Vec<u8>,
    /// Width in pixels.
    pub width: u32,
    /// Height in pixels.
    pub height: u32,
    /// Quality tier this was decoded at.
    pub quality: QualityTier,
}

impl ImageData {
    pub fn new(pixels: Vec<u8>, width: u32, height: u32, quality: QualityTier) -> (r: Self)
        ensures
            r.pixels == pixels,
            r.width == width,
            r.height == height,
            r.quality == quality,
    {
        ImageData { pixels, width, height, quality }
    }

    /// Memory size in bytes.
    pub fn memory_size(&self) -> (r: usize)
        ensures
            r == self.pixels@.len(),
    {
        self.pixels.len()
    }
}

/// Immutable metadata about an image.
#[derive(Debug, Clone)]
pub struct ImageMeta {
    /// Path to the image file.
    pub path: PathBuf,
    /// Original width (0 while unknown).
    pub original_width: u32,
    /// Original height (0 while unknown).
    pub original_height: u32,
}

impl ImageMeta {
    pub fn new(path: PathBuf, width: u32, height: u32) -> (r: Self)
        ensures
            r.path == path,
            r.original_width == width,
            r.original_height == height,
    {
        ImageMeta { path, original_width: width, original_height: height }
    }

    /// Bytes of the image at full resolution, RGBA.
    pub fn full_memory_estimate(&self) -> (r: usize)
        requires
            self.original_width * self.original_height * 4 <= usize::MAX,
        ensures
            r == self.original_width * self.original_height * 4,
    {
        assert(0 <= (self.original_width as int) * (self.original_height as int)) by (nonlinear_arith);
        (self.original_width as usize) * (self.original_height as usize) * 4
    }

    /// Bytes of the image at a tier.
    pub fn memory_for_tier(&self, tier: QualityTier) -> (r: usize)
        requires
            memory_estimate(tier, self.original_width, self.original_height) <= usize::MAX,
        ensures
            r == memory_estimate(tier, self.original_width, self.original_height),
    {
        tier.estimate_memory(self.original_width, self.original_height)
    }
}

/// The generation after `g`; the counter wraps around at its bound.
pub open spec fn next_generation(g: u64) -> u64 {
    if g == u64::MAX {
        0
    } else {
        (g + 1) as u64
    }
}

/// Whether data of quality `new` replaces what a slot holds, under `upgrade`.
pub open spec fn is_upgrade(held: Option<QualityTier>, new: QualityTier) -> bool {
    match held {
        None => true,
        Some(q) => rank(new) > rank(q),
    }
}

/// What `upgrade(data)` does to slot `o`, giving `f` and `r`: when `o` is
/// empty or holds a lower quality, `f` holds `data` (same metadata, next
/// generation) and `r` is true; otherwise nothing changes and `r` is false.
pub open spec fn upgraded(o: ImageSlot, f: ImageSlot, data: Arc<ImageData>, r: bool) -> bool {
    &&& r == is_upgrade(o.quality_of(), data.quality)
    &&& r ==> f.held() == Some(data) && f.meta_of() == o.meta_of() && f.spec_generation()
        == next_generation(o.spec_generation())
    &&& !r ==> f == o
    &&& o.quality_of() matches Some(q) ==> (f.quality_of() matches Some(q2) && rank(q2) >= rank(q))
}

/// Over any run of `upgrade` calls on one slot, once the slot holds data its
/// quality never drops: every later state holds at least the same quality.
pub proof fn lemma_upgrades_never_lower_quality(
    states: Seq<ImageSlot>,
    data: Seq<Arc<ImageData>>,
    accepted: Seq<bool>,
    i: int,
    j: int,
)
    requires
        states.len() == data.len() + 1,
        accepted.len() == data.len(),
        forall|k: int|
            0 <= k < data.len() ==> upgraded(states[k], states[k + 1], #[trigger] data[k], accepted[k]),
        0 <= i <= j < states.len(),
        states[i].quality_of() is Some,
    ensures
        states[j].quality_of() matches Some(q) && rank(q) >= rank(states[i].quality_of()->Some_0),
    decreases j - i,
{
    if j > i {
        lemma_upgrades_never_lower_quality(states, data, accepted, i, j - 1);
        assert(upgraded(states[j - 1], states[j], data[j - 1], accepted[j - 1]));
    }
}

/// A cell holding the current best decoded data for one image.
pub struct ImageSlot {
    data: Option<Arc<ImageData>>,
    /// Metadata about this image, fixed at creation.
    pub meta: ImageMeta,
    generation: u64,
}

impl ImageSlot {
    /// The data the slot holds.
    pub closed spec fn held(&self) -> Option<Arc<ImageData>> {
        self.data
    }

    /// The slot's metadata.
    pub closed spec fn meta_of(&self) -> ImageMeta {
        self.meta
    }

    /// Number of writes made to the slot, wrapping.
    pub closed spec fn spec_generation(&self) -> u64 {
        self.generation
    }

    /// Quality of the data held, if any.
    pub open spec fn quality_of(&self) -> Option<QualityTier> {
        match self.held() {
            Some(d) => Some(d.quality),
            None => None,
        }
    }

    /// Bytes held by the slot.
    pub open spec fn memory_of(&self) -> nat {
        match self.held() {
            Some(d) => d.pixels@.len(),
            None => 0,
        }
    }

    /// Creates an empty slot.
    pub fn new(meta: ImageMeta) -> (r: Self)
        ensures
            r.held() is None,
            r.meta_of() == meta,
            r.spec_generation() == 0,
    {
        ImageSlot { data: None, meta, generation: 0 }
    }

    /// The data held, as a new handle that stays valid after later writes.
    pub fn read(&self) -> (r: Option<Arc<ImageData>>)
        ensures
            r == self.held(),
    {
        match &self.data {
            Some(d) => Some(share(d)),
            None => None,
        }
    }

    /// Quality of the data held, without taking a handle to it.
    pub fn current_quality(&self) -> (r: Option<QualityTier>)
        ensures
            r == self.quality_of(),
    {
        match &self.data {
            Some(d) => Some(d.quality),
            None => None,
        }
    }

    /// Whether the slot holds data at or above `min_quality`.
    pub fn has_quality(&self, min_quality: QualityTier) -> (r: bool)
        ensures
            r == (self.quality_of() matches Some(q) && rank(q) >= rank(min_quality)),
    {
        match self.current_quality() {
            Some(q) => q.level() >= min_quality.level(),
            None => false,
        }
    }

    /// Whether the slot holds nothing.
    pub fn is_empty(&self) -> (r: bool)
        ensures
            r == (self.held() is None),
    {
        self.data.is_none()
    }

    /// Installs `new_data` when the slot is empty or holds a lower quality;
    /// otherwise leaves the slot as it is. Returns whether it installed.
    pub fn upgrade(&mut self, new_data: Arc<ImageData>) -> (r: bool)
        ensures
            upgraded(*old(self), *final(self), new_data, r),
    {
        if let Some(current) = self.current_quality() {
            if new_data.quality.level() <= current.level() {
                return false;
            }
        }
        self.data = Some(new_data);
        self.generation = self.generation.wrapping_add(1);
        true
    }

    /// Installs `new_data` whatever its quality (used to evict or replace).
    pub fn set(&mut self, new_data: Option<Arc<ImageData>>)
        ensures
            final(self).held() == new_data,
            final(self).spec_generation() == next_generation(old(self).spec_generation()),
            final(self).meta_of() == old(self).meta_of(),
    {
        self.data = new_data;
        self.generation = self.generation.wrapping_add(1);
    }

    /// Empties the slot.
    pub fn clear(&mut self)
        ensures
            final(self).held() is None,
            final(self).quality_of() is None,
            final(self).memory_of() == 0,
            final(self).spec_generation() == next_generation(old(self).spec_generation()),
            old(self).spec_generation() < u64::MAX ==> final(self).spec_generation()
                == old(self).spec_generation() + 1,
            final(self).meta_of() == old(self).meta_of(),
    {
        self.set(None);
    }

    /// Current generation, for change detection.
    pub fn generation(&self) -> (r: u64)
        ensures
            r == self.spec_generation(),
    {
        self.generation
    }

    /// Bytes held by the slot.
    pub fn memory_used(&self) -> (r: usize)
        ensures
            r == self.memory_of(),
    {
        match &self.data {
            Some(d) => d.memory_size(),
            None => 0,
        }
    }
}

} // verus!
