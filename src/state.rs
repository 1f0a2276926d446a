//! State that drives the viewer: key input, what is shown, and the navigation
//! state shared with the preloader.
use vstd::prelude::*;

use crate::config::{InputConfig, QualityTier};
use crate::store::{add_mod, sub_mod};
use std::time::{Duration, Instant};
use vstd::string::StringExecFns;

verus! {

#[verifier::external_type_specification]
#[verifier::external_body]
pub struct ExInstant(Instant);

/// Relies on `Instant::now`, the time of the monotonic clock.
pub assume_specification[ Instant::now ]() -> Instant;

/// Relies on `Instant::duration_since`, the time from `earlier` to `self`
/// (zero when `earlier` is later).
pub assume_specification[ Instant::duration_since ](this: &Instant, earlier: Instant) -> Duration;

/// Relies on `Duration::as_nanos`, a duration's length in nanoseconds.
pub assume_specification[ Duration::as_nanos ](d: &Duration) -> u128;

/// Input state for the navigation keys, telling a click from a hold.
///
/// A press released before the hold threshold navigates once, on release; a
/// press held past it navigates at once and then repeats at an interval.
#[derive(Debug)]
pub struct InputState {
    right_held: bool,
    left_held: bool,
    /// Home key pressed (single shot).
    pub home_pressed: bool,
    /// End key pressed (single shot).
    pub end_pressed: bool,
    press_start: Option<Instant>,
    press_direction: i32,
    in_repeat_mode: bool,
    last_repeat: Instant,
    pending_click: Option<i32>,
}

impl InputState {
    pub closed spec fn spec_home_pressed(&self) -> bool {
        self.home_pressed
    }

    pub closed spec fn spec_end_pressed(&self) -> bool {
        self.end_pressed
    }

    pub closed spec fn spec_right_held(&self) -> bool {
        self.right_held
    }

    pub closed spec fn spec_left_held(&self) -> bool {
        self.left_held
    }

    /// Whether a press is being timed.
    pub closed spec fn spec_pressing(&self) -> bool {
        self.press_start is Some
    }

    /// Direction of the press being timed: 1 right, -1 left, 0 none.
    pub closed spec fn spec_press_direction(&self) -> i32 {
        self.press_direction
    }

    pub closed spec fn spec_in_repeat_mode(&self) -> bool {
        self.in_repeat_mode
    }

    /// Click waiting to be reported, with its direction.
    pub closed spec fn spec_pending_click(&self) -> Option<i32> {
        self.pending_click
    }

    /// Equal apart from the one-shot keys.
    pub open spec fn same_press(&self, other: &InputState) -> bool {
        &&& self.spec_right_held() == other.spec_right_held()
        &&& self.spec_left_held() == other.spec_left_held()
        &&& self.spec_pressing() == other.spec_pressing()
        &&& self.spec_press_direction() == other.spec_press_direction()
        &&& self.spec_in_repeat_mode() == other.spec_in_repeat_mode()
        &&& self.spec_pending_click() == other.spec_pending_click()
    }

    pub fn new() -> (r: Self)
        ensures
            !r.spec_right_held(),
            !r.spec_left_held(),
            !r.spec_home_pressed(),
            !r.spec_end_pressed(),
            !r.spec_pressing(),
            r.spec_press_direction() == 0,
            !r.spec_in_repeat_mode(),
            r.spec_pending_click() is None,
    {
        InputState {
            right_held: false,
            left_held: false,
            home_pressed: false,
            end_pressed: false,
            press_start: None,
            press_direction: 0,
            in_repeat_mode: false,
            last_repeat: Instant::now(),
            pending_click: None,
        }
    }

    /// Called when the right key changes state.
    pub fn set_right(&mut self, pressed: bool)
        ensures
            final(self).spec_right_held() == pressed,
            final(self).spec_left_held() == old(self).spec_left_held(),
            final(self).spec_home_pressed() == old(self).spec_home_pressed(),
            final(self).spec_end_pressed() == old(self).spec_end_pressed(),
            pressed && !old(self).spec_right_held() ==> final(self).started_press(1),
            !pressed && old(self).spec_right_held() ==> final(self).ended_press(old(self), 1),
            pressed == old(self).spec_right_held() ==> final(self).same_press(old(self)),
    {
        if pressed && !self.right_held {
            self.start_press(1);
        } else if !pressed && self.right_held {
            self.end_press(1);
        }
        self.right_held = pressed;
    }

    /// Called when the left key changes state.
    pub fn set_left(&mut self, pressed: bool)
        ensures
            final(self).spec_left_held() == pressed,
            final(self).spec_right_held() == old(self).spec_right_held(),
            final(self).spec_home_pressed() == old(self).spec_home_pressed(),
            final(self).spec_end_pressed() == old(self).spec_end_pressed(),
            pressed && !old(self).spec_left_held() ==> final(self).started_press(-1i32),
            !pressed && old(self).spec_left_held() ==> final(self).ended_press(old(self), -1i32),
            pressed == old(self).spec_left_held() ==> final(self).same_press(old(self)),
    {
        if pressed && !self.left_held {
            self.start_press(-1);
        } else if !pressed && self.left_held {
            self.end_press(-1);
        }
        self.left_held = pressed;
    }

    /// A press in `direction` is being timed, from scratch.
    pub open spec fn started_press(&self, direction: i32) -> bool {
        &&& self.spec_pressing()
        &&& self.spec_press_direction() == direction
        &&& !self.spec_in_repeat_mode()
        &&& self.spec_pending_click() is None
    }

    /// `self` is `before` after releasing the key of `direction`: when that was
    /// the press being timed, a click is queued unless it had begun repeating,
    /// and timing stops; otherwise nothing changes.
    pub open spec fn ended_press(&self, before: &InputState, direction: i32) -> bool {
        if before.spec_press_direction() == direction {
            &&& !self.spec_pressing()
            &&& self.spec_press_direction() == 0
            &&& !self.spec_in_repeat_mode()
            &&& self.spec_pending_click() == if before.spec_in_repeat_mode() {
                before.spec_pending_click()
            } else {
                Some(direction)
            }
        } else {
            &&& self.spec_pressing() == before.spec_pressing()
            &&& self.spec_press_direction() == before.spec_press_direction()
            &&& self.spec_in_repeat_mode() == before.spec_in_repeat_mode()
            &&& self.spec_pending_click() == before.spec_pending_click()
        }
    }

    fn start_press(&mut self, direction: i32)
        ensures
            final(self).started_press(direction),
            final(self).right_held == old(self).right_held,
            final(self).left_held == old(self).left_held,
            final(self).spec_home_pressed() == old(self).spec_home_pressed(),
            final(self).spec_end_pressed() == old(self).spec_end_pressed(),
    {
        self.press_start = Some(Instant::now());
        self.press_direction = direction;
        self.in_repeat_mode = false;
        self.pending_click = None;
    }

    fn end_press(&mut self, direction: i32)
        ensures
            final(self).ended_press(old(self), direction),
            final(self).right_held == old(self).right_held,
            final(self).left_held == old(self).left_held,
            final(self).spec_home_pressed() == old(self).spec_home_pressed(),
            final(self).spec_end_pressed() == old(self).spec_end_pressed(),
    {
        if self.press_direction == direction {
            if !self.in_repeat_mode {
                self.pending_click = Some(direction);
            }
            self.press_start = None;
            self.press_direction = 0;
            self.in_repeat_mode = false;
        }
    }

    /// Navigation to perform now: `Some(i32::MIN)` for Home, `Some(i32::MAX)`
    /// for End, `Some(1)` / `Some(-1)` for a step, `None` for nothing.
    ///
    /// The one-shot keys come first, then a queued click; otherwise a held key
    /// navigates as `advance_hold` decides from the time it has been held.
    pub fn process(&mut self, config: &InputConfig) -> (r: Option<i32>)
        ensures
            old(self).spec_home_pressed() ==> r == Some(i32::MIN) && !final(self).spec_home_pressed()
                && final(self).spec_end_pressed() == old(self).spec_end_pressed() && final(self).same_press(
                old(self),
            ),
            !old(self).spec_home_pressed() && old(self).spec_end_pressed() ==> r == Some(i32::MAX)
                && !final(self).spec_end_pressed() && !final(self).spec_home_pressed() && final(self).same_press(
                old(self),
            ),
            !old(self).spec_home_pressed() && !old(self).spec_end_pressed() ==> {
                &&& final(self).spec_home_pressed() == old(self).spec_home_pressed()
                &&& final(self).spec_end_pressed() == old(self).spec_end_pressed()
                &&& final(self).spec_right_held() == old(self).spec_right_held()
                &&& final(self).spec_left_held() == old(self).spec_left_held()
                &&& final(self).spec_pressing() == old(self).spec_pressing()
                &&& final(self).spec_press_direction() == old(self).spec_press_direction()
                &&& final(self).spec_pending_click() is None
                &&& old(self).spec_pending_click() matches Some(d) ==> r == Some(d)
                    && final(self).spec_in_repeat_mode() == old(self).spec_in_repeat_mode()
                &&& old(self).spec_pending_click() is None && !old(self).spec_pressing() ==> r is None
                    && final(self).spec_in_repeat_mode() == old(self).spec_in_repeat_mode()
                &&& old(self).spec_pending_click() is None && old(self).spec_pressing() ==> (r is None
                    || r == Some(old(self).spec_press_direction()))
                    && (final(self).spec_in_repeat_mode() <==> old(self).spec_in_repeat_mode() || r
                    is Some)
            },
    {
        let now = Instant::now();
        if self.home_pressed {
            self.home_pressed = false;
            return Some(i32::MIN);
        }
        if self.end_pressed {
            self.end_pressed = false;
            return Some(i32::MAX);
        }
        if let Some(dir) = self.pending_click.take() {
            return Some(dir);
        }
        let start = match self.press_start {
            Some(s) => s,
            None => return None,
        };
        let held = now.duration_since(start).as_nanos();
        let since_last = now.duration_since(self.last_repeat).as_nanos();
        let threshold = config.hold_threshold.as_nanos();
        let interval = config.repeat_interval.as_nanos();
        self.advance_hold(now, held >= threshold, since_last >= interval)
    }

    /// What a key held at `now` does: before repeat mode, once held past the
    /// threshold it enters repeat mode and navigates; in repeat mode it
    /// navigates when the repeat interval has passed since the last one.
    pub fn advance_hold(&mut self, now: Instant, held_past_threshold: bool, repeat_due: bool) -> (r:
        Option<i32>)
        ensures
            !old(self).spec_in_repeat_mode() ==> if held_past_threshold {
                r == Some(old(self).spec_press_direction()) && final(self).spec_in_repeat_mode()
            } else {
                r is None && !final(self).spec_in_repeat_mode()
            },
            old(self).spec_in_repeat_mode() ==> final(self).spec_in_repeat_mode() && if repeat_due {
                r == Some(old(self).spec_press_direction())
            } else {
                r is None
            },
            final(self).spec_right_held() == old(self).spec_right_held(),
            final(self).spec_left_held() == old(self).spec_left_held(),
            final(self).spec_home_pressed() == old(self).spec_home_pressed(),
            final(self).spec_end_pressed() == old(self).spec_end_pressed(),
            final(self).spec_pressing() == old(self).spec_pressing(),
            final(self).spec_press_direction() == old(self).spec_press_direction(),
            final(self).spec_pending_click() == old(self).spec_pending_click(),
    {
        if !self.in_repeat_mode {
            if held_past_threshold {
                self.in_repeat_mode = true;
                self.last_repeat = now;
                return Some(self.press_direction);
            }
            return None;
        }
        if repeat_due {
            self.last_repeat = now;
            return Some(self.press_direction);
        }
        None
    }

    /// Whether any navigation is active (for control flow).
    pub fn is_navigating(&self) -> (r: bool)
        ensures
            r == (self.spec_right_held() || self.spec_left_held() || self.spec_home_pressed()
                || self.spec_end_pressed() || self.spec_pending_click() is Some),
    {
        self.right_held || self.left_held || self.home_pressed || self.end_pressed
            || self.pending_click.is_some()
    }
}

impl Default for InputState {
    fn default() -> Self {
        Self::new()
    }
}

/// `(a + b) mod total`, for `total > 0`.
pub open spec fn wrap(a: int, b: int, total: int) -> int {
    (a + b) % total
}

/// What the viewer is currently showing.
#[derive(Debug, Clone)]
pub struct ViewState {
    /// Current image index.
    pub current_index: usize,
    /// Total number of images.
    pub total_images: usize,
    /// Window width.
    pub window_width: u32,
    /// Window height.
    pub window_height: u32,
    /// Whether a render is needed.
    pub needs_render: bool,
    /// Quality last rendered (for upgrade detection).
    pub last_render_quality: Option<QualityTier>,
}

/// Decimal digit for `d < 10`.
pub open spec fn digit(d: int) -> char {
    if d == 0 {
        '0'
    } else if d == 1 {
        '1'
    } else if d == 2 {
        '2'
    } else if d == 3 {
        '3'
    } else if d == 4 {
        '4'
    } else if d == 5 {
        '5'
    } else if d == 6 {
        '6'
    } else if d == 7 {
        '7'
    } else if d == 8 {
        '8'
    } else {
        '9'
    }
}

/// Decimal notation of `n`, without leading zeros.
pub open spec fn decimal(n: nat) -> Seq<char>
    decreases n,
{
    if n < 10 {
        seq![digit(n as int)]
    } else {
        decimal(n / 10).push(digit((n % 10) as int))
    }
}

/// The title for `filename`, shown as image `position` of `total`, followed by `suffix`.
pub open spec fn title_text(filename: Seq<char>, position: nat, total: nat, suffix: Seq<char>) -> Seq<
    char,
> {
    seq!['F', 'i', 'v', ' ', '-', ' '] + filename + seq![' ', '['] + decimal(position) + seq!['/']
        + decimal(total) + seq![']'] + suffix
}

/// The suffix that marks the quality last shown.
pub open spec fn quality_suffix(q: Option<QualityTier>) -> Seq<char> {
    match q {
        Some(QualityTier::Thumbnail) => seq![' ', '[', 'l', 'o', 'a', 'd', 'i', 'n', 'g', '.', '.', '.', ']'],
        Some(QualityTier::Preview) => seq![' ', '[', 'p', 'r', 'e', 'v', 'i', 'e', 'w', ']'],
        _ => Seq::empty(),
    }
}

/// Relies on `usize`'s `ToString`, which writes the number in decimal.
#[verifier::external_body]
fn decimal_text(n: usize) -> (r: String)
    ensures
        r@ == decimal(n as nat),
{
    n.to_string()
}

/// The title for `filename`, shown as image `position` of `total`, followed by `suffix`.
fn compose_title(filename: &str, position: usize, total: usize, suffix: &str) -> (r: String)
    ensures
        r@ == title_text(filename@, position as nat, total as nat, suffix@),
{
    let mut r = "Fiv - ".to_owned();
    r.append(filename);
    r.append(" [");
    let p = decimal_text(position);
    r.append(p.as_str());
    r.append("/");
    let t = decimal_text(total);
    r.append(t.as_str());
    r.append("]");
    r.append(suffix);
    proof {
        reveal_strlit("Fiv - ");
        reveal_strlit(" [");
        reveal_strlit("/");
        reveal_strlit("]");
        assert(r@ =~= title_text(filename@, position as nat, total as nat, suffix@));
    }
    r
}

impl ViewState {
    pub fn new(total_images: usize, window_width: u32, window_height: u32) -> (r: Self)
        ensures
            r.current_index == 0,
            r.total_images == total_images,
            r.window_width == window_width,
            r.window_height == window_height,
            r.needs_render,
            r.last_render_quality is None,
    {
        ViewState {
            current_index: 0,
            total_images,
            window_width,
            window_height,
            needs_render: true,
            last_render_quality: None,
        }
    }

    /// Moves by `delta` with wrap-around; `i32::MIN` goes to the first image
    /// and `i32::MAX` to the last. Does nothing when there are no images.
    pub fn navigate(&mut self, delta: i32)
        ensures
            old(self).total_images == 0 ==> *final(self) == *old(self),
            old(self).total_images > 0 ==> {
                &&& final(self).current_index == if delta == i32::MIN {
                    0
                } else if delta == i32::MAX {
                    old(self).total_images - 1
                } else {
                    wrap(old(self).current_index as int, delta as int, old(self).total_images as int)
                }
                &&& final(self).needs_render
                &&& final(self).last_render_quality is None
                &&& final(self).total_images == old(self).total_images
                &&& final(self).window_width == old(self).window_width
                &&& final(self).window_height == old(self).window_height
            },
    {
        let total = self.total_images;
        if total == 0 {
            return;
        }
        if delta == i32::MIN {
            self.current_index = 0;
        } else if delta == i32::MAX {
            self.current_index = total - 1;
        } else {
            let c = self.current_index % total;
            let ghost ci = self.current_index as int;
            let ghost ti = total as int;
            if delta >= 0 {
                let d = (delta as usize) % total;
                let n = add_mod(c, d, total);
                proof {
                    vstd::arithmetic::div_mod::lemma_add_mod_noop(ci, delta as int, ti);
                }
                self.current_index = n;
            } else {
                let back = (-delta) as usize;
                let b = back % total;
                let n = sub_mod(c, b, total);
                proof {
                    vstd::arithmetic::div_mod::lemma_sub_mod_noop(ci, back as int, ti);
                }
                self.current_index = n;
            }
        }
        self.needs_render = true;
        self.last_render_quality = None;
    }

    /// Updates the window size; a zero dimension is ignored.
    pub fn resize(&mut self, width: u32, height: u32)
        ensures
            width > 0 && height > 0 ==> final(self).window_width == width
                && final(self).window_height == height && final(self).needs_render,
            !(width > 0 && height > 0) ==> *final(self) == *old(self),
            final(self).current_index == old(self).current_index,
            final(self).total_images == old(self).total_images,
            final(self).last_render_quality == old(self).last_render_quality,
            width > 0 && height > 0 ==> final(self).needs_render,
    {
        if width > 0 && height > 0 {
            self.window_width = width;
            self.window_height = height;
            self.needs_render = true;
        }
    }

    /// Marks that a better quality is available.
    pub fn signal_quality_upgrade(&mut self)
        ensures
            *final(self) == (ViewState { needs_render: true, ..*old(self) }),
    {
        self.needs_render = true;
    }

    /// Marks a render done at `quality`.
    pub fn render_complete(&mut self, quality: QualityTier)
        ensures
            *final(self) == (ViewState {
                needs_render: false,
                last_render_quality: Some(quality),
                ..*old(self)
            }),
    {
        self.needs_render = false;
        self.last_render_quality = Some(quality);
    }

    /// Whether the last render was below full quality.
    pub fn needs_quality_upgrade(&self) -> (r: bool)
        ensures
            r == (self.last_render_quality matches Some(q) && q != QualityTier::Full),
    {
        match self.last_render_quality {
            Some(q) => q != QualityTier::Full,
            None => false,
        }
    }

    /// Window title for the image named `filename`.
    pub fn title(&self, filename: &str) -> (r: String)
        requires
            self.current_index < usize::MAX,
        ensures
            self.total_images == 0 ==> r@ == seq![
                'F', 'i', 'v', ' ', '-', ' ', 'N', 'o', ' ', 'i', 'm', 'a', 'g', 'e', 's', ' ', 'f', 'o', 'u', 'n', 'd',
            ],
            self.total_images > 0 ==> r@ == title_text(
                filename@,
                (self.current_index + 1) as nat,
                self.total_images as nat,
                quality_suffix(self.last_render_quality),
            ),
    {
        let suffix = match self.last_render_quality {
            Some(QualityTier::Thumbnail) => " [loading...]",
            Some(QualityTier::Preview) => " [preview]",
            _ => "",
        };
        proof {
            reveal_strlit(" [loading...]");
            reveal_strlit(" [preview]");
            reveal_strlit("");
        }
        if self.total_images == 0 {
            proof {
                reveal_strlit("Fiv - No images found");
            }
            "Fiv - No images found".to_owned()
        } else {
            compose_title(filename, self.current_index + 1, self.total_images, suffix)
        }
    }
}

/// Navigation direction for predictive loading.
#[derive(Debug, Clone, Copy, PartialEq, Eq, Structural)]
pub enum Direction {
    Forward,
    Backward,
    Unknown,
}

/// Direction of a move from `prev` to `index` among `total` positions: a step
/// to the next or previous position (with wrap-around) is Forward or Backward,
/// a longer jump goes by the raw indices, and no move is Unknown.
pub open spec fn direction_of_move(prev: int, index: int, total: int) -> Direction {
    if total == 0 || prev == index {
        Direction::Unknown
    } else if index == (prev + 1) % total {
        Direction::Forward
    } else if index == (prev + total - 1) % total {
        Direction::Backward
    } else if index > prev {
        Direction::Forward
    } else {
        Direction::Backward
    }
}

/// Navigation state shared between the viewer, which moves, and the
/// preloader, which reads the position and direction.
pub struct SharedState {
    current_index: usize,
    previous_index: usize,
    generation: usize,
    direction: Direction,
    shutdown: bool,
    total: usize,
}

impl SharedState {
    pub closed spec fn spec_current(&self) -> usize {
        self.current_index
    }

    pub closed spec fn spec_previous(&self) -> usize {
        self.previous_index
    }

    /// Number of moves made, wrapping.
    pub closed spec fn spec_generation(&self) -> usize {
        self.generation
    }

    pub closed spec fn spec_direction(&self) -> Direction {
        self.direction
    }

    pub closed spec fn spec_shutdown(&self) -> bool {
        self.shutdown
    }

    pub closed spec fn spec_total(&self) -> usize {
        self.total
    }

    pub fn new() -> (r: Self)
        ensures
            r.spec_current() == 0,
            r.spec_previous() == 0,
            r.spec_generation() == 0,
            r.spec_direction() == Direction::Unknown,
            !r.spec_shutdown(),
            r.spec_total() == 0,
    {
        SharedState {
            current_index: 0,
            previous_index: 0,
            generation: 0,
            direction: Direction::Unknown,
            shutdown: false,
            total: 0,
        }
    }

    /// Sets the number of images.
    pub fn set_total(&mut self, total: usize)
        ensures
            final(self).spec_total() == total,
            final(self).spec_current() == old(self).spec_current(),
            final(self).spec_previous() == old(self).spec_previous(),
            final(self).spec_generation() == old(self).spec_generation(),
            final(self).spec_direction() == old(self).spec_direction(),
            final(self).spec_shutdown() == old(self).spec_shutdown(),
    {
        self.total = total;
    }

    /// Moves to `index`, recording where from and in which direction.
    pub fn set_current(&mut self, index: usize)
        ensures
            final(self).spec_current() == index,
            final(self).spec_previous() == old(self).spec_current(),
            final(self).spec_direction() == direction_of_move(
                old(self).spec_current() as int,
                index as int,
                old(self).spec_total() as int,
            ),
            final(self).spec_generation() == (if old(self).spec_generation() == usize::MAX {
                0
            } else {
                old(self).spec_generation() + 1
            }),
            final(self).spec_total() == old(self).spec_total(),
            final(self).spec_shutdown() == old(self).spec_shutdown(),
    {
        let prev = self.current_index;
        let total = self.total;
        let dir = if total == 0 || prev == index {
            Direction::Unknown
        } else {
            let p = prev % total;
            let next = if p + 1 == total {
                0
            } else {
                p + 1
            };
            let before = if p == 0 {
                total - 1
            } else {
                p - 1
            };
            proof {
                let pi = prev as int;
                let ti = total as int;
                let q = pi / ti;
                vstd::arithmetic::div_mod::lemma_fundamental_div_mod(pi, ti);
                assert(pi == q * ti + p) by (nonlinear_arith)
                    requires
                        pi == ti * q + p,
                ;
                assert(pi + 1 == (q + 1) * ti + (p + 1 - ti)) by (nonlinear_arith)
                    requires
                        pi == q * ti + p,
                ;
                assert(pi + ti - 1 == (q + 1) * ti + (p - 1)) by (nonlinear_arith)
                    requires
                        pi == q * ti + p,
                ;
                if p + 1 == ti {
                    vstd::arithmetic::div_mod::lemma_fundamental_div_mod_converse(pi + 1, ti, q + 1, 0);
                } else {
                    vstd::arithmetic::div_mod::lemma_fundamental_div_mod_converse(pi + 1, ti, q, p + 1);
                }
                if p == 0 {
                    vstd::arithmetic::div_mod::lemma_fundamental_div_mod_converse(pi + ti - 1, ti, q, ti - 1);
                } else {
                    vstd::arithmetic::div_mod::lemma_fundamental_div_mod_converse(pi + ti - 1, ti, q + 1, p - 1);
                }
                assert((pi + 1) % ti == next);
                assert((pi + ti - 1) % ti == before);
            }
            if index == next {
                Direction::Forward
            } else if index == before {
                Direction::Backward
            } else if index > prev {
                Direction::Forward
            } else {
                Direction::Backward
            }
        };
        self.previous_index = prev;
        self.current_index = index;
        self.direction = dir;
        self.generation = self.generation.wrapping_add(1);
    }

    /// Current index.
    pub fn current(&self) -> (r: usize)
        ensures
            r == self.spec_current(),
    {
        self.current_index
    }

    /// Direction of the last move.
    pub fn direction(&self) -> (r: Direction)
        ensures
            r == self.spec_direction(),
    {
        self.direction
    }

    /// Asks the preloader to stop; it stays set.
    pub fn shutdown(&mut self)
        ensures
            final(self).spec_shutdown(),
            final(self).spec_current() == old(self).spec_current(),
            final(self).spec_previous() == old(self).spec_previous(),
            final(self).spec_generation() == old(self).spec_generation(),
            final(self).spec_direction() == old(self).spec_direction(),
            final(self).spec_total() == old(self).spec_total(),
    {
        self.shutdown = true;
    }

    /// Whether a shutdown was asked for.
    pub fn is_shutdown(&self) -> (r: bool)
        ensures
            r == self.spec_shutdown(),
    {
        self.shutdown
    }
}

impl Default for SharedState {
    fn default() -> (r: Self)
        ensures
            r.spec_current() == 0,
            r.spec_direction() == Direction::Unknown,
            !r.spec_shutdown(),
            r.spec_total() == 0,
    {
        Self::new()
    }
}

} // verus!
