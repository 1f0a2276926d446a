//! Tunable parameters and the quality tiers that images are decoded at.
use vstd::prelude::*;

use crate::state::Direction;
use std::time::Duration;

verus! {

/// Relies on `Duration::from_millis`, which only builds a value.
pub assume_specification[ core::time::Duration::from_millis ](millis: u64) -> Duration;

/// Relies on `Duration`'s `Clone`, which is its `Copy`: the clone is the same value.
pub assume_specification[ <core::time::Duration as Clone>::clone ](d: &Duration) -> (r: Duration)
    ensures
        r == *d,
;

/// Quality tier for image loading, ordered from lowest to highest quality.
#[derive(Debug, Clone, Copy, PartialEq, Eq, PartialOrd, Ord, Hash, Structural)]
pub enum QualityTier {
    /// Thumbnail: 256 px largest dimension.
    Thumbnail,
    /// Preview: 1024 px largest dimension.
    Preview,
    /// Full: original resolution.
    Full,
}

/// Position of a tier in the quality order.
pub open spec fn rank(q: QualityTier) -> nat {
    match q {
        QualityTier::Thumbnail => 0,
        QualityTier::Preview => 1,
        QualityTier::Full => 2,
    }
}

/// Largest dimension of a tier; `None` means unbounded.
pub open spec fn max_dim_of(q: QualityTier) -> Option<u32> {
    match q {
        QualityTier::Thumbnail => Some(256u32),
        QualityTier::Preview => Some(1024u32),
        QualityTier::Full => None,
    }
}

/// `x * max_dim / max_original`, rounded to the nearest integer, halves up.
pub open spec fn scale_round(x: int, max_dim: int, max_original: int) -> int {
    (2 * x * max_dim + max_original) / (2 * max_original)
}

pub open spec fn at_least_one(x: int) -> int {
    if x < 1 {
        1
    } else {
        x
    }
}

/// Dimensions an image of `width` x `height` takes at tier `q`: unchanged when
/// it already fits, else scaled down so that its larger side is the tier's bound.
pub open spec fn target_dims(q: QualityTier, width: u32, height: u32) -> (int, int) {
    let max_original: int = if width >= height {
        width as int
    } else {
        height as int
    };
    match max_dim_of(q) {
        None => (width as int, height as int),
        Some(m) => if max_original <= m {
            (width as int, height as int)
        } else {
            (
                at_least_one(scale_round(width as int, m as int, max_original)),
                at_least_one(scale_round(height as int, m as int, max_original)),
            )
        },
    }
}

/// Bytes of an RGBA image at tier `q`.
pub open spec fn memory_estimate(q: QualityTier, width: u32, height: u32) -> int {
    target_dims(q, width, height).0 * target_dims(q, width, height).1 * 4
}

proof fn lemma_scale_round_bounds(x: int, m: int, mo: int)
    requires
        0 <= x <= mo,
        0 < m < mo,
    ensures
        0 <= scale_round(x, m, mo) <= m,
        scale_round(x, m, mo) <= x,
{
    assert(2 * x * m + mo < (2 * m + 1) * (2 * mo)) by (nonlinear_arith)
        requires
            0 <= x <= mo,
            0 < m < mo,
    ;
    assert(2 * x * m + mo < (x + 1) * (2 * mo)) by (nonlinear_arith)
        requires
            0 <= x <= mo,
            0 < m < mo,
    ;
    assert(0 <= 2 * x * m + mo) by (nonlinear_arith)
        requires
            0 <= x,
            0 < m,
            0 < mo,
    ;
    let n = 2 * x * m + mo;
    let d = 2 * mo;
    assert(n / d < 2 * m + 1) by {
        vstd::arithmetic::div_mod::lemma_div_by_multiple_is_strongly_ordered(n, (2 * m + 1) * d, 2 * m + 1, d);
        vstd::arithmetic::div_mod::lemma_div_by_multiple((2 * m + 1), d);
    }
    assert(n / d < x + 1) by {
        vstd::arithmetic::div_mod::lemma_div_by_multiple_is_strongly_ordered(n, (x + 1) * d, x + 1, d);
        vstd::arithmetic::div_mod::lemma_div_by_multiple(x + 1, d);
    }
    assert(n / d <= m) by {
        // n < (2m + 1) * d  and  n <= 2 * m * mo + mo < (m + 1) * d
        assert(n < (m + 1) * d) by (nonlinear_arith)
            requires
                n == 2 * x * m + mo,
                d == 2 * mo,
                0 <= x <= mo,
                0 < m < mo,
        ;
        vstd::arithmetic::div_mod::lemma_div_by_multiple_is_strongly_ordered(n, (m + 1) * d, m + 1, d);
        vstd::arithmetic::div_mod::lemma_div_by_multiple(m + 1, d);
    }
    vstd::arithmetic::div_mod::lemma_div_pos_is_pos(n, d);
}

impl QualityTier {
    /// Position of this tier in the quality order, as a number.
    pub fn level(self) -> (r: u8)
        ensures
            r == rank(self),
    {
        match self {
            QualityTier::Thumbnail => 0,
            QualityTier::Preview => 1,
            QualityTier::Full => 2,
        }
    }

    /// Maximum dimension for this tier (`None` = unlimited).
    pub fn max_dimension(self) -> (r: Option<u32>)
        ensures
            r == max_dim_of(self),
    {
        match self {
            QualityTier::Thumbnail => Some(256),
            QualityTier::Preview => Some(1024),
            QualityTier::Full => None,
        }
    }

    /// Target dimensions keeping the aspect ratio; scales down, never up.
    pub fn target_dimensions(self, width: u32, height: u32) -> (r: (u32, u32))
        ensures
            r.0 == target_dims(self, width, height).0,
            r.1 == target_dims(self, width, height).1,
            width > 0 ==> r.0 <= width,
            height > 0 ==> r.1 <= height,
            max_dim_of(self) matches Some(m) ==> r.0 <= m && r.1 <= m,
    {
        match self.max_dimension() {
            None => (width, height),
            Some(max_dim) => {
                let max_original: u32 = if width >= height {
                    width
                } else {
                    height
                };
                if max_original <= max_dim {
                    (width, height)
                } else {
                    proof {
                        lemma_scale_round_bounds(width as int, max_dim as int, max_original as int);
                        lemma_scale_round_bounds(height as int, max_dim as int, max_original as int);
                    }
                    let new_w = scaled(width, max_dim, max_original);
                    let new_h = scaled(height, max_dim, max_original);
                    let w: u32 = if new_w < 1 {
                        1
                    } else {
                        new_w
                    };
                    let h: u32 = if new_h < 1 {
                        1
                    } else {
                        new_h
                    };
                    (w, h)
                }
            },
        }
    }

    /// Estimated bytes of an RGBA image at this tier.
    pub fn estimate_memory(self, width: u32, height: u32) -> (r: usize)
        requires
            memory_estimate(self, width, height) <= usize::MAX,
        ensures
            r == memory_estimate(self, width, height),
    {
        let (w, h) = self.target_dimensions(width, height);
        assert((w as int) * (h as int) * 4 == memory_estimate(self, width, height));
        assert(0 <= (w as int) * (h as int)) by (nonlinear_arith)
            requires
                0 <= w,
                0 <= h,
        ;
        let area = (w as usize) * (h as usize);
        area * 4
    }

    /// All tiers, from lowest to highest quality.
    pub fn all() -> (r: [QualityTier; 3])
        ensures
            r@ == seq![QualityTier::Thumbnail, QualityTier::Preview, QualityTier::Full],
    {
        let r = [QualityTier::Thumbnail, QualityTier::Preview, QualityTier::Full];
        assert(r@ =~= seq![QualityTier::Thumbnail, QualityTier::Preview, QualityTier::Full]);
        r
    }
}

/// `x * max_dim / max_original`, rounded half up, for `x <= max_original`.
fn scaled(x: u32, max_dim: u32, max_original: u32) -> (r: u32)
    requires
        x <= max_original,
        0 < max_dim < max_original,
        max_dim <= 1024,
    ensures
        r == scale_round(x as int, max_dim as int, max_original as int),
{
    proof {
        lemma_scale_round_bounds(x as int, max_dim as int, max_original as int);
    }
    let x64 = x as u64;
    let m64 = max_dim as u64;
    let mo64 = max_original as u64;
    assert(2 * x64 * m64 <= 2 * 0xffff_ffff * 1024) by (nonlinear_arith)
        requires
            x64 <= 0xffff_ffff,
            m64 <= 1024,
    ;
    let num = 2 * x64 * m64 + mo64;
    let r = num / (2 * mo64);
    r as u32
}

/// Input handling parameters.
#[derive(Debug, Clone)]
pub struct InputConfig {
    /// How long a key is held before it repeats; a shorter press is a click.
    pub hold_threshold: Duration,
    /// Interval between repeats while a key is held past the threshold.
    pub repeat_interval: Duration,
}

impl Default for InputConfig {
    fn default() -> Self {
        InputConfig {
            hold_threshold: Duration::from_millis(150),
            repeat_interval: Duration::from_millis(60),
        }
    }
}

/// Preloading strategy parameters.
#[derive(Debug, Clone)]
pub struct PreloadConfig {
    /// Images to preload ahead when moving forward.
    pub ahead_forward: usize,
    /// Images to preload behind when moving forward.
    pub behind_forward: usize,
    /// Images to preload ahead when moving backward.
    pub ahead_backward: usize,
    /// Images to preload behind when moving backward.
    pub behind_backward: usize,
    /// Images to preload each way when the direction is unknown.
    pub symmetric_range: usize,
    /// Distance up to which images are loaded at full quality.
    pub full_quality_count: usize,
    /// Further distance, past the full-quality band, loaded at preview quality.
    pub preview_quality_count: usize,
    /// How long to wait when idle before checking for work.
    pub idle_poll_interval: Duration,
    /// Maximum parallel decode tasks (0 = use all cores).
    pub max_parallel_tasks: usize,
}

impl Default for PreloadConfig {
    fn default() -> (r: Self)
        ensures
            r.ahead_forward == 30,
            r.behind_forward == 3,
            r.ahead_backward == 3,
            r.behind_backward == 30,
            r.symmetric_range == 15,
            r.full_quality_count == 5,
            r.preview_quality_count == 10,
            r.max_parallel_tasks == 0,
    {
        PreloadConfig {
            ahead_forward: 30,
            behind_forward: 3,
            ahead_backward: 3,
            behind_backward: 30,
            symmetric_range: 15,
            full_quality_count: 5,
            preview_quality_count: 10,
            idle_poll_interval: Duration::from_millis(1),
            max_parallel_tasks: 0,
        }
    }
}

/// Ranges (ahead, behind) scanned for a direction of travel.
pub open spec fn ranges_for(c: PreloadConfig, direction: Direction) -> (usize, usize) {
    match direction {
        Direction::Forward => (c.ahead_forward, c.behind_forward),
        Direction::Backward => (c.ahead_backward, c.behind_backward),
        Direction::Unknown => (c.symmetric_range, c.symmetric_range),
    }
}

/// Tier wanted at `distance` from the current image: full quality nearby,
/// preview in the next band, thumbnail beyond.
pub open spec fn quality_for(c: PreloadConfig, distance: int) -> QualityTier {
    if distance <= c.full_quality_count {
        QualityTier::Full
    } else if distance <= c.full_quality_count + c.preview_quality_count {
        QualityTier::Preview
    } else {
        QualityTier::Thumbnail
    }
}

/// Distance past which cached images are evicted.
pub open spec fn keep_range_of(c: PreloadConfig) -> int {
    if c.ahead_forward >= c.behind_backward {
        c.ahead_forward + 5
    } else {
        c.behind_backward + 5
    }
}

impl PreloadConfig {
    /// Preload range (ahead, behind) for a direction of travel.
    pub fn range_for_direction(&self, direction: Direction) -> (r: (usize, usize))
        ensures
            r == ranges_for(*self, direction),
    {
        match direction {
            Direction::Forward => (self.ahead_forward, self.behind_forward),
            Direction::Backward => (self.ahead_backward, self.behind_backward),
            Direction::Unknown => (self.symmetric_range, self.symmetric_range),
        }
    }

    /// Quality tier for a distance from the current image.
    pub fn quality_for_distance(&self, distance: usize) -> (r: QualityTier)
        ensures
            r == quality_for(*self, distance as int),
    {
        if distance <= self.full_quality_count {
            QualityTier::Full
        } else if distance - self.full_quality_count <= self.preview_quality_count {
            QualityTier::Preview
        } else {
            QualityTier::Thumbnail
        }
    }

    /// Total range kept in memory (for eviction).
    pub fn total_range(&self) -> (r: usize)
        requires
            keep_range_of(*self) <= usize::MAX,
        ensures
            r == keep_range_of(*self),
    {
        let m = if self.ahead_forward >= self.behind_backward {
            self.ahead_forward
        } else {
            self.behind_backward
        };
        m + 5
    }
}

/// Rendering parameters.
#[derive(Debug, Clone)]
pub struct RenderConfig {
    /// Default window width.
    pub default_width: u32,
    /// Default window height.
    pub default_height: u32,
    /// Background color (RGBA).
    pub background_color: [u8; 4],
}

impl Default for RenderConfig {
    fn default() -> (r: Self)
        ensures
            r.default_width == 1280,
            r.default_height == 720,
            r.background_color@ == seq![0u8, 0u8, 0u8, 255u8],
    {
        let r = RenderConfig { default_width: 1280, default_height: 720, background_color: [0, 0, 0, 255] };
        assert(r.background_color@ =~= seq![0u8, 0u8, 0u8, 255u8]);
        r
    }
}

} // verus!
