//! The two animations: a dot that runs to and fro along the strip.

use vstd::prelude::*;

use crate::color::{Color, Rgb8};
use crate::delay::millis_to_ticks;
use crate::NUM_LEDS;

verus! {

/// How long, in milliseconds, the guest shows each frame of a `Chase`.
pub const CHASE_DELAY_MS: u32 = 50;

/// How long, in milliseconds, each frame of a `Cylon` is shown.
pub const CYLON_DELAY_MS: u64 = 25;

/// The same time in ticks.
pub const CYLON_TICKS: u64 = 25_000;

/// How many frames a `Cylon` takes to run to and fro once: twice the way from one end of
/// the strip to the other.
pub const CYLON_PERIOD: usize = 198;

/// The dot of a `Chase`.
pub open spec fn chase_dot() -> Color {
    Color { r: 50, g: 0, b: 0 }
}

/// What a `Chase` shows around the dot.
pub open spec fn chase_background() -> Color {
    Color { r: 50, g: 50, b: 50 }
}

/// Where the dot of a `Chase` over `n` LEDs stands in frame number `k`: it runs through
/// all LEDs from front to back, then through all of them from back to front, and again.
pub open spec fn chase_position(n: int, k: int) -> int {
    let p = k % (2 * n);
    if p < n {
        p
    } else {
        2 * n - 1 - p
    }
}

/// A frame of a `Chase` over `n` LEDs with the dot at `position`.
pub open spec fn chase_frame(n: int, position: int) -> Seq<Color> {
    Seq::new(
        n as nat,
        |i: int|
            if i == position {
                chase_dot()
            } else {
                chase_background()
            },
    )
}

/// What the guest does next.
#[derive(Debug)]
pub enum ChaseStep {
    /// Shows this frame.
    Write(Vec<Color>),
    /// Lets so many milliseconds pass.
    Delay(u32),
}

/// What the guest does next, in the abstract.
pub enum ChaseStepView {
    Write(Seq<Color>),
    Delay(u32),
}

impl View for ChaseStep {
    type V = ChaseStepView;

    open spec fn view(&self) -> ChaseStepView {
        match self {
            ChaseStep::Write(colors) => ChaseStepView::Write(colors@),
            ChaseStep::Delay(ms) => ChaseStepView::Delay(*ms),
        }
    }
}

/// How far a `Chase` is.
pub struct ChaseView {
    /// The number of LEDs.
    pub leds: int,
    /// The number of the current frame within one run to and fro.
    pub phase: int,
    /// The current frame is on the strip, and only its delay is due.
    pub shown: bool,
}

/// What is done next when a `Chase` is so far.
pub open spec fn chase_step(c: ChaseView) -> ChaseStepView {
    if c.shown {
        ChaseStepView::Delay(CHASE_DELAY_MS)
    } else {
        ChaseStepView::Write(chase_frame(c.leds, chase_position(c.leds, c.phase)))
    }
}

/// How far a `Chase` is one step later: the next frame comes after the delay.
pub open spec fn chase_next(c: ChaseView) -> ChaseView {
    if c.shown {
        ChaseView { phase: (c.phase + 1) % (2 * c.leds), shown: false, ..c }
    } else {
        ChaseView { shown: true, ..c }
    }
}

/// Where a `Chase` over `n` LEDs starts.
pub open spec fn chase_start(n: int) -> ChaseView {
    ChaseView { leds: n, phase: 0, shown: false }
}

/// How far a `Chase` over `n` LEDs is after so many steps.
pub open spec fn chase_after(n: int, steps: nat) -> ChaseView
    decreases steps,
{
    if steps == 0 {
        chase_start(n)
    } else {
        chase_next(chase_after(n, (steps - 1) as nat))
    }
}

/// The animation of the guest: a red dot on white that touches each end twice.
pub struct Chase {
    leds: usize,
    position: usize,
    forward: bool,
    shown: bool,
}

impl View for Chase {
    type V = ChaseView;

    closed spec fn view(&self) -> ChaseView {
        ChaseView {
            leds: self.leds as int,
            phase: if self.forward {
                self.position as int
            } else {
                2 * self.leds - 1 - self.position
            },
            shown: self.shown,
        }
    }
}

impl Chase {
    pub closed spec fn wf(&self) -> bool {
        self.position < self.leds
    }

    /// Starts the animation. A strip without LEDs shows none.
    pub fn new(led_amount: u32) -> (r: Option<Chase>)
        ensures
            r is Some <==> led_amount > 0,
            r matches Some(c) ==> c.wf() && c@ == chase_start(led_amount as int),
    {
        if led_amount == 0 {
            None
        } else {
            Some(Chase { leds: led_amount as usize, position: 0, forward: true, shown: false })
        }
    }

    fn frame(&self) -> (colors: Vec<Color>)
        requires
            self.wf(),
        ensures
            colors@ == chase_frame(self@.leds, chase_position(self@.leds, self@.phase)),
    {
        let white = Color { r: 50, g: 50, b: 50 };
        let red = Color { r: 50, g: 0, b: 0 };
        let mut colors: Vec<Color> = vec![white; self.leds];
        colors[self.position] = red;
        proof {
            let n = self@.leds;
            let k = self@.phase;
            assert(0 <= k < 2 * n);
            assert(k % (2 * n) == k) by (nonlinear_arith)
                requires
                    0 <= k < 2 * n,
            ;
            assert(chase_position(n, k) == self.position);
        }
        assert(colors@ =~= chase_frame(self@.leds, self.position as int));
        colors
    }

    fn advance(&mut self)
        requires
            old(self).wf(),
        ensures
            final(self).wf(),
            final(self)@ == (ChaseView {
                phase: (old(self)@.phase + 1) % (2 * old(self)@.leds),
                ..old(self)@
            }),
    {
        proof {
            let n = self@.leds;
            let k = self@.phase + 1;
            assert(0 <= k <= 2 * n);
            if k < 2 * n {
                assert(k % (2 * n) == k) by (nonlinear_arith)
                    requires
                        0 <= k < 2 * n,
                ;
            } else {
                assert(k % (2 * n) == 0) by (nonlinear_arith)
                    requires
                        k == 2 * n,
                        n > 0,
                ;
            }
        }
        if self.forward {
            if self.position + 1 < self.leds {
                self.position = self.position + 1;
            } else {
                self.forward = false;
            }
        } else {
            if self.position > 0 {
                self.position = self.position - 1;
            } else {
                self.forward = true;
            }
        }
    }

    /// Says what to do next: to show a frame, and after each frame to let its time pass.
    pub fn step(&mut self) -> (step: ChaseStep)
        requires
            old(self).wf(),
        ensures
            final(self).wf(),
            step@ == chase_step(old(self)@),
            final(self)@ == chase_next(old(self)@),
    {
        if self.shown {
            self.shown = false;
            self.advance();
            ChaseStep::Delay(CHASE_DELAY_MS)
        } else {
            self.shown = true;
            ChaseStep::Write(self.frame())
        }
    }
}

proof fn chase_after_frames(n: int, k: nat)
    requires
        0 < n,
    ensures
        chase_after(n, 2 * k) == (ChaseView { leds: n, phase: k as int % (2 * n), shown: false }),
    decreases k,
{
    let m = 2 * n;
    if k == 0 {
        vstd::arithmetic::div_mod::lemma_small_mod(0, m as nat);
    } else {
        let j = (k - 1) as nat;
        chase_after_frames(n, j);
        assert(chase_after(n, 2 * j + 1) == chase_next(chase_after(n, 2 * j)));
        assert(chase_after(n, 2 * k) == chase_next(chase_after(n, 2 * j + 1)));
        vstd::arithmetic::div_mod::lemma_add_mod_noop_right(1, j as int, m);
    }
}

/// Frames and delays alternate strictly, for ever, and also where the dot turns: frame
/// number `k` is written, then its delay passes, then frame number `k + 1` is written.
pub proof fn chase_alternates(n: int, k: nat)
    requires
        0 < n,
    ensures
        chase_step(chase_after(n, 2 * k)) == ChaseStepView::Write(
            chase_frame(n, chase_position(n, k as int)),
        ),
        chase_step(chase_after(n, 2 * k + 1)) == ChaseStepView::Delay(CHASE_DELAY_MS),
{
    chase_after_frames(n, k);
    assert(chase_after(n, 2 * k + 1) == chase_next(chase_after(n, 2 * k)));
    vstd::arithmetic::div_mod::lemma_mod_twice(k as int, 2 * n);
}

/// In one run to and fro the dot stands exactly twice on each LED, once on either way, and
/// never beside the strip.
pub proof fn chase_visits_each_led_twice(n: int, k: int, led: int)
    requires
        0 < n,
        0 <= k < 2 * n,
        0 <= led < n,
    ensures
        0 <= chase_position(n, k) < n,
        chase_position(n, k) == led <==> (k == led || k == 2 * n - 1 - led),
{
    assert(k % (2 * n) == k) by (nonlinear_arith)
        requires
            0 <= k < 2 * n,
    ;
}

/// From one frame to the next the dot moves by one LED, or stays where it turns.
pub proof fn chase_moves_by_one(n: int, k: int)
    requires
        0 < n,
        0 <= k,
    ensures
        -1 <= chase_position(n, k + 1) - chase_position(n, k) <= 1,
        chase_position(n, k + 2 * n) == chase_position(n, k),
{
    let m = 2 * n;
    let p = k % m;
    vstd::arithmetic::div_mod::lemma_mod_bound(k, m);
    vstd::arithmetic::div_mod::lemma_fundamental_div_mod(k, m);
    let q = k / m;
    if p + 1 < m {
        assert((k + 1) % m == p + 1) by {
            assert(k + 1 == q * m + (p + 1)) by (nonlinear_arith)
                requires
                    k == m * q + p,
            ;
            vstd::arithmetic::div_mod::lemma_fundamental_div_mod_converse(k + 1, m, q, p + 1);
        }
    } else {
        assert((k + 1) % m == 0) by {
            assert(k + 1 == (q + 1) * m + 0) by (nonlinear_arith)
                requires
                    k == m * q + p,
                    p + 1 == m,
            ;
            vstd::arithmetic::div_mod::lemma_fundamental_div_mod_converse(k + 1, m, q + 1, 0);
        }
    }
    assert((k + m) % m == p) by {
        vstd::arithmetic::div_mod::lemma_mod_add_multiples_vanish(k, m);
    }
}

/// The dot of a `Cylon`: red.
pub open spec fn cylon_dot() -> Rgb8 {
    Rgb8 { r: 100, g: 0, b: 0 }
}

/// What a `Cylon` shows around the dot: a dim white.
pub open spec fn cylon_background() -> Rgb8 {
    Rgb8 { r: 5, g: 5, b: 5 }
}

/// Where the dot of a `Cylon` stands in frame number `k`: it runs from the first LED to the
/// last and back, and is on each end LED only once.
pub open spec fn cylon_position(k: int) -> int {
    let p = k % CYLON_PERIOD as int;
    if p < NUM_LEDS {
        p
    } else {
        CYLON_PERIOD - p
    }
}

/// A frame of a `Cylon` with the dot at `position`.
pub open spec fn cylon_frame(position: int) -> Seq<Rgb8> {
    Seq::new(
        NUM_LEDS as nat,
        |i: int|
            if i == position {
                cylon_dot()
            } else {
                cylon_background()
            },
    )
}

/// What the animation without a guest does next.
#[derive(Debug)]
pub enum CylonStep {
    /// Shows this frame.
    Write(Vec<Rgb8>),
    /// Lets so many ticks pass.
    Wait(u64),
}

/// What the animation without a guest does next, in the abstract.
pub enum CylonStepView {
    Write(Seq<Rgb8>),
    Wait(u64),
}

impl View for CylonStep {
    type V = CylonStepView;

    open spec fn view(&self) -> CylonStepView {
        match self {
            CylonStep::Write(leds) => CylonStepView::Write(leds@),
            CylonStep::Wait(ticks) => CylonStepView::Wait(*ticks),
        }
    }
}

/// How far a `Cylon` is.
pub struct CylonView {
    /// The number of the current frame within one run to and fro.
    pub phase: int,
    /// The current frame is on the strip, and only its time has to pass.
    pub shown: bool,
}

/// What is done next when a `Cylon` is so far.
pub open spec fn cylon_step(c: CylonView) -> CylonStepView {
    if c.shown {
        CylonStepView::Wait(CYLON_TICKS)
    } else {
        CylonStepView::Write(cylon_frame(cylon_position(c.phase)))
    }
}

/// How far a `Cylon` is one step later.
pub open spec fn cylon_next(c: CylonView) -> CylonView {
    if c.shown {
        CylonView { phase: (c.phase + 1) % CYLON_PERIOD as int, shown: false }
    } else {
        CylonView { shown: true, ..c }
    }
}

/// Where a `Cylon` starts.
pub open spec fn cylon_start() -> CylonView {
    CylonView { phase: 0, shown: false }
}

/// How far a `Cylon` is after so many steps.
pub open spec fn cylon_after(steps: nat) -> CylonView
    decreases steps,
{
    if steps == 0 {
        cylon_start()
    } else {
        cylon_next(cylon_after((steps - 1) as nat))
    }
}

/// The animation without a guest: a red dot that bounces between the two ends of a white
/// strip.
pub struct Cylon {
    position: i32,
    moving_forward: bool,
    shown: bool,
}

impl View for Cylon {
    type V = CylonView;

    closed spec fn view(&self) -> CylonView {
        CylonView {
            phase: if self.moving_forward {
                self.position as int
            } else {
                CYLON_PERIOD - self.position
            },
            shown: self.shown,
        }
    }
}

impl Cylon {
    pub closed spec fn wf(&self) -> bool {
        if self.moving_forward {
            0 <= self.position < NUM_LEDS - 1
        } else {
            0 < self.position < NUM_LEDS
        }
    }

    /// Starts the animation.
    pub fn new() -> (c: Cylon)
        ensures
            c.wf(),
            c@ == cylon_start(),
    {
        Cylon { position: 0, moving_forward: true, shown: false }
    }

    fn frame(&self) -> (leds: Vec<Rgb8>)
        requires
            self.wf(),
        ensures
            leds@ == cylon_frame(cylon_position(self@.phase)),
    {
        let mut leds: Vec<Rgb8> = vec![Rgb8::new(5, 5, 5); NUM_LEDS];
        leds[self.position as usize] = Rgb8::new(100, 0, 0);
        assert(cylon_position(self@.phase) == self.position);
        assert(leds@ =~= cylon_frame(self.position as int));
        leds
    }

    fn advance(&mut self)
        requires
            old(self).wf(),
        ensures
            final(self).wf(),
            final(self)@ == (CylonView {
                phase: (old(self)@.phase + 1) % CYLON_PERIOD as int,
                ..old(self)@
            }),
    {
        if self.moving_forward {
            self.position = self.position + 1;
            if self.position >= NUM_LEDS as i32 - 1 {
                self.moving_forward = false;
            }
        } else {
            self.position = self.position - 1;
            if self.position <= 0 {
                self.moving_forward = true;
            }
        }
    }

    /// Says what to do next: to show a frame, and after each frame to let its time pass.
    pub fn step(&mut self) -> (step: CylonStep)
        requires
            old(self).wf(),
        ensures
            final(self).wf(),
            step@ == cylon_step(old(self)@),
            final(self)@ == cylon_next(old(self)@),
    {
        if self.shown {
            self.shown = false;
            self.advance();
            CylonStep::Wait(millis_to_ticks(CYLON_DELAY_MS))
        } else {
            self.shown = true;
            CylonStep::Write(self.frame())
        }
    }
}

proof fn cylon_after_frames(k: nat)
    ensures
        cylon_after(2 * k) == (CylonView { phase: k as int % CYLON_PERIOD as int, shown: false }),
    decreases k,
{
    if k > 0 {
        let j = (k - 1) as nat;
        cylon_after_frames(j);
        assert(cylon_after(2 * j + 1) == cylon_next(cylon_after(2 * j)));
        assert(cylon_after(2 * k) == cylon_next(cylon_after(2 * j + 1)));
    }
}

/// Frames and pauses alternate strictly, for ever: frame number `k` is written, then its
/// time passes, then frame number `k + 1` is written.
pub proof fn cylon_alternates(k: nat)
    ensures
        cylon_step(cylon_after(2 * k)) == CylonStepView::Write(
            cylon_frame(cylon_position(k as int)),
        ),
        cylon_step(cylon_after(2 * k + 1)) == CylonStepView::Wait(CYLON_TICKS),
{
    cylon_after_frames(k);
    assert(cylon_after(2 * k + 1) == cylon_next(cylon_after(2 * k)));
}

/// The dot never leaves the strip, moves by exactly one LED from frame to frame, and turns
/// only at the ends.
pub proof fn cylon_bounces(k: int)
    requires
        0 <= k,
    ensures
        CYLON_PERIOD == 2 * (NUM_LEDS - 1),
        0 <= cylon_position(k) < NUM_LEDS,
        cylon_position(k + 1) - cylon_position(k) == 1 || cylon_position(k + 1) - cylon_position(k)
            == -1,
        0 < cylon_position(k + 1) < NUM_LEDS - 1 ==> cylon_position(k + 2) - cylon_position(k + 1)
            == cylon_position(k + 1) - cylon_position(k),
        cylon_position(k + CYLON_PERIOD) == cylon_position(k),
{
}

/// What the guest does, step for step: in every second step it writes a frame with one red dot
/// on white, and in between it lets 50 milliseconds pass. The dot goes over the LEDs in their
/// order, then back over them, and so on.
pub proof fn chase_runs_to_and_fro(n: int, k: nat, i: int)
    requires
        0 < n,
        0 <= i < n,
    ensures
        chase_step(chase_after(n, 2 * k + 1)) == ChaseStepView::Delay(50),
        ({
            let m = k as int % (2 * n);
            let dot = if m < n {
                m
            } else {
                2 * n - 1 - m
            };
            &&& chase_step(chase_after(n, 2 * k)) matches ChaseStepView::Write(frame)
            &&& frame.len() == n
            &&& frame[i] == (if i == dot {
                Color { r: 50, g: 0, b: 0 }
            } else {
                Color { r: 50, g: 50, b: 50 }
            })
        }),
{
    chase_alternates(n, k);
}

/// What is shown without a guest, step for step: in every second step a frame of a hundred LEDs
/// with one red dot on white, and in between a pause of 25 milliseconds. The dot goes from the
/// first LED to the last and back, and touches each end once.
pub proof fn cylon_runs_to_and_fro(k: nat, i: int)
    requires
        0 <= i < 100,
    ensures
        cylon_step(cylon_after(2 * k + 1)) == CylonStepView::Wait(25_000),
        ({
            let m = k as int % 198;
            let dot = if m < 100 {
                m
            } else {
                198 - m
            };
            &&& cylon_step(cylon_after(2 * k)) matches CylonStepView::Write(frame)
            &&& frame.len() == 100
            &&& frame[i] == (if i == dot {
                Rgb8 { r: 100, g: 0, b: 0 }
            } else {
                Rgb8 { r: 5, g: 5, b: 5 }
            })
        }),
{
    cylon_alternates(k);
}

/// What the contracts say of a step is said of the frame, or the time, that it hands out.
pub proof fn steps_are_seen_as_they_are(chase: ChaseStep, cylon: CylonStep)
    ensures
        match chase {
            ChaseStep::Write(colors) => chase@ == ChaseStepView::Write(colors@),
            ChaseStep::Delay(ms) => chase@ == ChaseStepView::Delay(ms),
        },
        match cylon {
            CylonStep::Write(leds) => cylon@ == CylonStepView::Write(leds@),
            CylonStep::Wait(ticks) => cylon@ == CylonStepView::Wait(ticks),
        },
{
}

} // verus!
