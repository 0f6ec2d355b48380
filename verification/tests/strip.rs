use pulley_leds::color::{Color, Rgb8};
use pulley_leds::delay::{DelayCtx, DelayView};
use pulley_leds::fifo::{tx_full, txf_addr, FifoStep, Transfer, PIO0_BASE, PIO0_FSTAT};
use pulley_leds::strip_table::{ActiveStrip, StripError, StripTable};
use pulley_leds::worker::HostState;
use pulley_leds::ws2812::{frame, latch_ticks, LedDriver, Ws2812Ctx, Ws2812View};
use pulley_leds::NUM_LEDS;

struct Recorder(Vec<Vec<Rgb8>>);

impl LedDriver for Recorder {
    fn write_colors(&mut self, colors: &[Rgb8]) {
        self.0.push(colors.to_vec());
    }
}

fn gray(n: u8) -> Color {
    Color { r: n, g: n, b: n }
}

#[test]
fn words_are_green_red_blue() {
    assert_eq!(Rgb8::new(0x12, 0x34, 0x56).grb_word(), 0x3412_5600);
    assert_eq!(Rgb8::new(255, 255, 255).grb_word(), 0xffff_ff00);
    assert_eq!(Rgb8::default().grb_word(), 0);
    assert_ne!(Rgb8::new(1, 0, 0).grb_word(), Rgb8::new(0, 1, 0).grb_word());
}

#[test]
fn short_frame_is_filled_with_black() {
    let leds = frame(&[Color { r: 1, g: 2, b: 3 }]);
    assert_eq!(leds.len(), NUM_LEDS);
    assert_eq!(leds[0], Rgb8::new(1, 2, 3));
    assert!(leds[1..].iter().all(|c| *c == Rgb8::default()));
    assert_eq!(frame(&[]), vec![Rgb8::default(); 100]);
}

#[test]
fn long_frame_is_cut() {
    let colors: Vec<Color> = (0..150).map(gray).collect();
    let leds = frame(&colors);
    assert_eq!(leds.len(), 100);
    assert_eq!(leds[99], Rgb8::new(99, 99, 99));
    assert_eq!(frame(&colors[..100]), leds);
}

#[test]
fn guest_writes_through_its_handle() {
    let (mut state, rep) = HostState::new(Recorder(Vec::new()));
    let ctx = state.ws2812_ctx();
    ctx.write(rep, vec![gray(7); 3]);
    assert_eq!(ctx.try_write(rep, vec![gray(8)]), Ok(()));
    assert_eq!(ctx.driver.0.len(), 2);
    assert_eq!(ctx.driver.0[0], frame(&[gray(7); 3]));
    assert_eq!(ctx.driver.0[1], frame(&[gray(8)]));
}

#[test]
fn handle_that_stands_for_nothing_is_refused() {
    let (mut state, rep) = HostState::new(Recorder(Vec::new()));
    let ctx = state.ws2812_ctx();
    assert_eq!(ctx.try_write(rep + 1, vec![gray(1)]), Err(StripError::NotPresent));
    assert_eq!(ctx.drop(rep + 1), Err(StripError::NotPresent));
    assert_eq!(ctx.drop(rep), Ok(()));
    assert_eq!(ctx.drop(rep), Err(StripError::NotPresent));
    assert_eq!(ctx.try_write(rep, vec![gray(1)]), Err(StripError::NotPresent));
    assert!(ctx.driver.0.is_empty());
}

#[test]
fn handles_are_apart_from_each_other() {
    let mut table = StripTable::new();
    let a = table.push(ActiveStrip).unwrap();
    let b = table.push(ActiveStrip).unwrap();
    assert_ne!(a, b);
    assert_eq!(table.get(a), Ok(ActiveStrip));
    assert_eq!(table.delete(a), Ok(ActiveStrip));
    assert_eq!(table.get(a), Err(StripError::NotPresent));
    assert_eq!(table.get(b), Ok(ActiveStrip));
    let c = table.push(ActiveStrip).unwrap();
    assert_ne!(b, c);
    let mut ctx = Ws2812Ctx { table, driver: Recorder(Vec::new()) };
    assert_eq!(ctx.try_write(c, vec![]), Ok(()));
    assert_eq!(ctx.driver.0, vec![vec![Rgb8::default(); 100]]);
}

#[test]
fn table_takes_a_million_handles() {
    let mut table = StripTable::new();
    for _ in 0..1_000_000 {
        assert!(table.push(ActiveStrip).is_ok());
    }
    assert_eq!(table.push(ActiveStrip), Err(StripError::Full));
    assert_eq!(table.delete(17), Ok(ActiveStrip));
    assert_eq!(table.push(ActiveStrip), Ok(17));
}

#[test]
fn delays_in_ticks() {
    let (mut state, _) = HostState::new(Recorder(Vec::new()));
    assert_eq!(state.delay_ctx().delay_ms(50), 50_000);
    assert_eq!(DelayCtx.delay_ms(0), 0);
    assert_eq!(DelayCtx.delay_ms(u32::MAX), 4_294_967_295_000);
    assert_eq!(latch_ticks(), 55);
}

#[test]
fn queue_registers() {
    assert_eq!(PIO0_BASE, 0x5020_0000);
    assert_eq!(PIO0_FSTAT, PIO0_BASE + 4);
    assert_eq!(txf_addr(0), 0x5020_0010);
    assert_eq!(txf_addr(1), 0x5020_0014);
    assert_eq!(txf_addr(3), 0x5020_001c);
    assert!(tx_full(0x0002_0000, 1));
    assert!(!tx_full(0x0001_0000, 1));
    assert!(!tx_full(0xfffd_ffff, 1));
    assert!(tx_full(0x8000_0000, 15));
}

#[test]
fn words_go_out_in_order_when_there_is_room() {
    let colors = [Rgb8::new(1, 2, 3), Rgb8::new(4, 5, 6)];
    let mut transfer = Transfer::new(1, &colors);
    let full = 1 << 17;
    assert_eq!(transfer.step(full), FifoStep::Wait);
    assert_eq!(
        transfer.step(0),
        FifoStep::Send { addr: 0x5020_0014, word: 0x0201_0300 }
    );
    assert_eq!(transfer.step(full), FifoStep::Wait);
    assert_eq!(
        transfer.step(1 << 16),
        FifoStep::Send { addr: 0x5020_0014, word: 0x0504_0600 }
    );
    assert_eq!(transfer.step(0), FifoStep::Done);
    assert_eq!(transfer.step(full), FifoStep::Done);
}

#[test]
fn empty_frame_is_done_at_once() {
    assert_eq!(Transfer::new(0, &[]).step(0), FifoStep::Done);
}

#[test]
fn no_look_is_needed_for_an_empty_frame() {
    assert!(Transfer::new(0, &[]).is_done());
}

#[test]
fn no_look_is_needed_after_the_last_word() {
    let mut transfer = Transfer::new(0, &[Rgb8::new(1, 2, 3), Rgb8::new(4, 5, 6)]);
    let mut sent = Vec::new();
    let mut looks = vec![0u32, 1 << 16, 1 << 16, 0].into_iter();
    while !transfer.is_done() {
        if let FifoStep::Send { addr, word } = transfer.step(looks.next().unwrap()) {
            assert_eq!(addr, 0x5020_0010);
            sent.push(word);
        }
    }
    assert_eq!(sent, vec![0x02_01_03_00, 0x05_04_06_00]);
    assert!(looks.next().is_none());
}

#[test]
fn a_color_reads_off_its_word() {
    let word = Rgb8::new(0x12, 0x34, 0x56).grb_word();
    assert_eq!(word >> 24, 0x34);
    assert_eq!((word >> 16) & 0xff, 0x12);
    assert_eq!((word >> 8) & 0xff, 0x56);
    assert_eq!(word & 0xff, 0);
}

#[test]
fn host_takes_a_million_handles_in_all() {
    let (mut state, _) = HostState::new(Recorder(Vec::new()));
    let table = &mut state.ws2812_ctx().table;
    for _ in 0..999_999 {
        assert!(table.push(ActiveStrip).is_ok());
    }
    assert_eq!(table.push(ActiveStrip), Err(StripError::Full));
}
