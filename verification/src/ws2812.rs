//! The LED strip as guests see it: frames of colours, written through a handle.

use vstd::prelude::*;

use crate::color::{black, Color, Rgb8};
use crate::delay::micros_to_ticks;
use crate::strip_table::{StripError, StripTable};
use crate::NUM_LEDS;

verus! {

/// How long, in microseconds, the line rests after a frame for the LEDs to show it.
pub const LATCH_MICROS: u64 = 55;

/// Shows frames on an LED strip.
pub trait LedDriver: Sized {
    /// Every frame that was handed to the driver, the first one first. What of its state
    /// tells them is the driver's own affair.
    closed spec fn frames(&self) -> Seq<Seq<Rgb8>> {
        arbitrary::<spec_fn(Self) -> Seq<Seq<Rgb8>>>()(*self)
    }

    /// Shows a frame, one colour for each LED.
    fn write_colors(&mut self, colors: &[Rgb8])
        ensures
            final(self).frames() == old(self).frames().push(colors@),
    ;
}

/// What LED number `i` shows of the colours that a guest writes: its own colour, or black
/// where the guest gave too few.
pub open spec fn led(colors: Seq<Color>, i: int) -> Rgb8 {
    if i < colors.len() {
        Rgb8 { r: colors[i].r, g: colors[i].g, b: colors[i].b }
    } else {
        black()
    }
}

/// The frame for the whole strip that a guest's colours make. Colours beyond the end of
/// the strip are dropped.
pub open spec fn frame_spec(colors: Seq<Color>) -> Seq<Rgb8> {
    Seq::new(NUM_LEDS as nat, |i: int| led(colors, i))
}

/// Makes the frame for the whole strip out of a guest's colours.
pub fn frame(colors: &[Color]) -> (leds: Vec<Rgb8>)
    ensures
        leds@ == frame_spec(colors@),
{
    let mut leds: Vec<Rgb8> = Vec::new();
    let mut i: usize = 0;
    while i < NUM_LEDS
        invariant
            i <= NUM_LEDS,
            leds@.len() == i,
            forall|j: int| 0 <= j < i ==> leds@[j] == led(colors@, j),
        decreases NUM_LEDS - i,
    {
        if i < colors.len() {
            let c: Color = colors[i];
            leds.push(Rgb8::new(c.r, c.g, c.b));
        } else {
            leds.push(Rgb8::default());
        }
        i = i + 1;
    }
    assert(leds@ =~= frame_spec(colors@));
    leds
}

/// For how many ticks the line rests after a frame.
pub fn latch_ticks() -> (ticks: u64)
    ensures
        ticks == LATCH_MICROS,
{
    micros_to_ticks(LATCH_MICROS)
}

/// The host's side of the LED strip: the handles that guests hold, and the driver.
pub struct Ws2812Ctx<D> {
    pub table: StripTable,
    pub driver: D,
}

/// Gives the host's LED strip out of a larger state.
pub trait Ws2812View<D> {
    fn ws2812_ctx(&mut self) -> &mut Ws2812Ctx<D>;
}

/// How a request through the handle `rep` is answered, when `handles` are the handles that
/// stand for a strip.
pub open spec fn handle_answer(handles: Set<u32>, rep: u32) -> Result<(), StripError> {
    if handles.contains(rep) {
        Ok(())
    } else {
        Err(StripError::NotPresent)
    }
}

impl<D: LedDriver> Ws2812Ctx<D> {
    /// Shows a guest's colours on the strip that the handle `rep` stands for.
    pub fn write(&mut self, rep: u32, colors: Vec<Color>)
        requires
            old(self).table@.contains(rep),
        ensures
            final(self).table == old(self).table,
            final(self).driver.frames() == old(self).driver.frames().push(frame_spec(colors@)),
    {
        let leds: Vec<Rgb8> = frame(colors.as_slice());
        self.driver.write_colors(leds.as_slice());
    }

    /// Shows a guest's colours where the handle `rep` stands for a strip; does nothing where
    /// it does not.
    pub fn try_write(&mut self, rep: u32, colors: Vec<Color>) -> (r: Result<(), StripError>)
        ensures
            final(self).table == old(self).table,
            r == handle_answer(old(self).table@, rep),
            match r {
                Ok(_) => final(self).driver.frames() == old(self).driver.frames().push(
                    frame_spec(colors@),
                ),
                Err(_) => final(self).driver == old(self).driver,
            },
    {
        match self.table.get(rep) {
            Ok(_) => {
                self.write(rep, colors);
                Ok(())
            },
            Err(e) => Err(e),
        }
    }

    /// Takes back the handle `rep`.
    pub fn drop(&mut self, rep: u32) -> (r: Result<(), StripError>)
        ensures
            final(self).driver == old(self).driver,
            final(self).table@ == old(self).table@.remove(rep),
            final(self).table.limit() == old(self).table.limit(),
            r == handle_answer(old(self).table@, rep),
    {
        match self.table.delete(rep) {
            Ok(_) => Ok(()),
            Err(e) => Err(e),
        }
    }
}

/// Every frame for the strip has one colour for each LED.
pub proof fn frame_fills_strip(colors: Seq<Color>)
    ensures
        frame_spec(colors).len() == NUM_LEDS,
{
}

/// Colours beyond the end of the strip make no difference.
pub proof fn frame_ignores_excess(colors: Seq<Color>, more: Seq<Color>)
    requires
        colors.len() >= NUM_LEDS,
    ensures
        frame_spec(colors + more) == frame_spec(colors),
{
    assert(frame_spec(colors + more) =~= frame_spec(colors));
}

/// Filling a guest's colours up with black makes no difference.
pub proof fn frame_pads_with_black(colors: Seq<Color>, n: nat)
    ensures
        frame_spec(colors + Seq::new(n, |i: int| Color { r: 0, g: 0, b: 0 })) == frame_spec(colors),
{
    assert(frame_spec(colors + Seq::new(n, |i: int| Color { r: 0, g: 0, b: 0 })) =~= frame_spec(
        colors,
    ));
}

/// A handle answers from the moment it was made, and no longer once it was taken back; what
/// becomes of one handle is nothing to the others.
pub proof fn handle_answers_until_taken_back(handles: Set<u32>, rep: u32, other: u32)
    ensures
        handle_answer(handles.insert(rep), rep) is Ok,
        handle_answer(handles.remove(rep), rep) == Err::<(), StripError>(StripError::NotPresent),
        other != rep ==> handle_answer(handles.insert(rep), other) == handle_answer(handles, other),
        other != rep ==> handle_answer(handles.remove(rep), other) == handle_answer(handles, other),
{
}

/// LED number `i` of the hundred shows the red, green and blue of the guest's colour number
/// `i`, and is off where the guest gave no such colour.
pub proof fn each_led_shows_its_own_color(colors: Seq<Color>, i: int)
    requires
        0 <= i < 100,
    ensures
        frame_spec(colors).len() == 100,
        i < colors.len() ==> {
            &&& frame_spec(colors)[i].r == colors[i].r
            &&& frame_spec(colors)[i].g == colors[i].g
            &&& frame_spec(colors)[i].b == colors[i].b
        },
        i >= colors.len() ==> {
            &&& frame_spec(colors)[i].r == 0
            &&& frame_spec(colors)[i].g == 0
            &&& frame_spec(colors)[i].b == 0
        },
{
}

/// Changing one of a guest's colours changes that LED and no other.
pub proof fn one_color_changes_one_led(colors: Seq<Color>, k: int, color: Color, i: int)
    requires
        0 <= k < colors.len(),
        0 <= i < 100,
        i != k,
    ensures
        frame_spec(colors.update(k, color))[i] == frame_spec(colors)[i],
        k < 100 ==> frame_spec(colors.update(k, color))[k] == (Rgb8 {
            r: color.r,
            g: color.g,
            b: color.b,
        }),
{
}

/// A request is granted exactly through the handles that stand for a strip; any other is told
/// that there is none.
pub proof fn only_strip_handles_answer(handles: Set<u32>, rep: u32)
    ensures
        handle_answer(handles, rep) is Ok <==> handles.contains(rep),
        handle_answer(handles, rep) is Err ==> handle_answer(handles, rep)->Err_0
            == StripError::NotPresent,
{
}

} // verus!
