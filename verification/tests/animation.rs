use pulley_leds::animation::{Chase, ChaseStep, Cylon, CylonStep};
use pulley_leds::color::{Color, Rgb8};

fn chase_dot(frame: &[Color]) -> usize {
    let dots: Vec<usize> = (0..frame.len())
        .filter(|i| frame[*i] == Color { r: 50, g: 0, b: 0 })
        .collect();
    assert_eq!(dots.len(), 1);
    assert!(frame
        .iter()
        .all(|c| *c == Color { r: 50, g: 0, b: 0 } || *c == Color { r: 50, g: 50, b: 50 }));
    dots[0]
}

fn cylon_dot(frame: &[Rgb8]) -> usize {
    assert_eq!(frame.len(), 100);
    let dots: Vec<usize> = (0..100).filter(|i| frame[*i] == Rgb8::new(100, 0, 0)).collect();
    assert_eq!(dots.len(), 1);
    assert_eq!(frame.iter().filter(|c| **c == Rgb8::new(5, 5, 5)).count(), 99);
    dots[0]
}

/// Shows one frame and lets its time pass.
fn chase_show(chase: &mut Chase) -> Vec<Color> {
    let frame = match chase.step() {
        ChaseStep::Write(frame) => frame,
        ChaseStep::Delay(_) => panic!("a delay where a frame is due"),
    };
    match chase.step() {
        ChaseStep::Write(_) => panic!("a frame where a delay is due"),
        ChaseStep::Delay(ms) => assert_eq!(ms, 50),
    }
    frame
}

/// Shows one frame and lets its time pass.
fn cylon_show(cylon: &mut Cylon) -> Vec<Rgb8> {
    let frame = match cylon.step() {
        CylonStep::Write(frame) => frame,
        CylonStep::Wait(_) => panic!("a pause where a frame is due"),
    };
    match cylon.step() {
        CylonStep::Write(_) => panic!("a frame where a pause is due"),
        CylonStep::Wait(ticks) => assert_eq!(ticks, 25_000),
    }
    frame
}

#[test]
fn chase_touches_each_end_twice() {
    let mut chase = Chase::new(4).unwrap();
    let mut positions = Vec::new();
    for _ in 0..18 {
        let frame = chase_show(&mut chase);
        assert_eq!(frame.len(), 4);
        positions.push(chase_dot(&frame));
    }
    assert_eq!(positions, vec![0, 1, 2, 3, 3, 2, 1, 0, 0, 1, 2, 3, 3, 2, 1, 0, 0, 1]);
}

#[test]
fn chase_on_one_led_stays() {
    let mut chase = Chase::new(1).unwrap();
    for _ in 0..5 {
        assert_eq!(chase_dot(&chase_show(&mut chase)), 0);
    }
}

#[test]
fn chase_needs_an_led() {
    assert!(Chase::new(0).is_none());
}

#[test]
fn chase_pauses_after_each_frame() {
    let mut chase = Chase::new(2).unwrap();
    let steps: Vec<bool> = (0..12)
        .map(|_| match chase.step() {
            ChaseStep::Write(frame) => {
                assert_eq!(frame.len(), 2);
                true
            }
            ChaseStep::Delay(ms) => {
                assert_eq!(ms, 50);
                false
            }
        })
        .collect();
    for k in 0..12usize {
        assert_eq!(steps[k], k % 2 == 0);
    }
}

#[test]
fn cylon_touches_each_end_once() {
    let mut cylon = Cylon::new();
    for k in 0..500usize {
        let p = k % 198;
        let expected = if p < 100 { p } else { 198 - p };
        assert_eq!(cylon_dot(&cylon_show(&mut cylon)), expected);
    }
}

#[test]
fn cylon_is_a_red_dot_on_white() {
    let frame = cylon_show(&mut Cylon::new());
    assert_eq!(frame[0], Rgb8::new(100, 0, 0));
    assert_eq!(frame[1], Rgb8::new(5, 5, 5));
    assert_eq!(frame[99], Rgb8::new(5, 5, 5));
}
