use evogrid::draw::{clear_pixels, draw_pixel, draw_rect, draw_round, draw_star, visualize_map};
use evogrid::policy::Decision;
use evogrid::world::{Animal, make_shelter};

const WH: usize = 500;
const SCREEN_BYTES: usize = 4 * 500 * 500;

fn base(x: usize, y: usize) -> usize {
    4 * (x * WH + y)
}

#[test]
fn draw_pixel_writes_exactly_four_bytes() {
    let mut screen = vec![9u8; SCREEN_BYTES];
    let before = screen.clone();
    draw_pixel(&mut screen, 3, 7, 1, 2, 3, 4);
    let b = base(3, 7);
    assert_eq!(&screen[b..b + 4], &[1, 2, 3, 4]);
    for (t, v) in screen.iter().enumerate() {
        if t < b || t > b + 3 {
            assert_eq!(*v, before[t]);
        }
    }
}

#[test]
fn draw_pixel_ignores_offscreen_coordinates() {
    let mut screen = vec![9u8; SCREEN_BYTES];
    let before = screen.clone();
    draw_pixel(&mut screen, -1, 7, 1, 2, 3, 4);
    draw_pixel(&mut screen, 3, -7, 1, 2, 3, 4);
    draw_pixel(&mut screen, 500, 0, 1, 2, 3, 4);
    draw_pixel(&mut screen, 0, 500, 1, 2, 3, 4);
    assert_eq!(screen, before);
}

#[test]
fn draw_rect_paints_the_filled_square() {
    let mut screen = vec![0u8; SCREEN_BYTES];
    // diameter 3: half 2, so offsets -1..=1 around the center
    draw_rect(&mut screen, 10, 10, 3, 5, 6, 7, 8);
    for x in 9..=11usize {
        for y in 9..=11usize {
            assert_eq!(&screen[base(x, y)..base(x, y) + 4], &[5, 6, 7, 8]);
        }
    }
    assert_eq!(&screen[base(8, 10)..base(8, 10) + 4], &[0, 0, 0, 0]);
    assert_eq!(&screen[base(12, 10)..base(12, 10) + 4], &[0, 0, 0, 0]);
}

#[test]
fn draw_round_stays_inside_the_disc() {
    let mut screen = vec![0u8; SCREEN_BYTES];
    // diameter 5: half 3; corners at distance squared 8 fall inside 9,
    // so this small disc fills its bounding square except nothing: check
    // the center and the frame just outside the bounding square.
    draw_round(&mut screen, 20, 20, 5, 1, 1, 1, 1);
    assert_eq!(&screen[base(20, 20)..base(20, 20) + 4], &[1, 1, 1, 1]);
    assert_eq!(&screen[base(20, 22)..base(20, 22) + 4], &[1, 1, 1, 1]);
    assert_eq!(&screen[base(23, 20)..base(23, 20) + 4], &[0, 0, 0, 0]);
    assert_eq!(&screen[base(17, 17)..base(17, 17) + 4], &[0, 0, 0, 0]);
}

#[test]
fn draw_star_stays_inside_its_bounding_box() {
    let mut screen = vec![0u8; SCREEN_BYTES];
    draw_star(&mut screen, 50, 50, 2, 2, 2, 2);
    assert_eq!(&screen[base(50, 50)..base(50, 50) + 4], &[2, 2, 2, 2]);
    for (t, v) in screen.iter().enumerate() {
        let px = (t / 4) / WH;
        let py = (t / 4) % WH;
        if px + 5 < 50 || px > 56 || py + 5 < 50 || py > 56 {
            assert_eq!(*v, 0);
        }
    }
}

#[test]
fn clear_pixels_blanks_the_window_area() {
    let mut screen = vec![7u8; SCREEN_BYTES + 16];
    clear_pixels(&mut screen);
    for t in 0..SCREEN_BYTES {
        assert_eq!(screen[t], 0);
    }
    for t in SCREEN_BYTES..SCREEN_BYTES + 16 {
        assert_eq!(screen[t], 7);
    }
}

#[test]
fn visualize_map_keeps_the_buffer_length() {
    let mut screen = vec![0u8; SCREEN_BYTES];
    let ve = vec![make_shelter((3, 3))];
    let va = vec![Animal {
        alive: true,
        hp: 10,
        ability: 5,
        lifetime: 0,
        position: (25, 25),
        view_distance: 5,
        next_decision: Decision::Wait,
    }];
    visualize_map(&ve, &va, &mut screen);
    assert_eq!(screen.len(), SCREEN_BYTES);
    // the shelter is a rect of its cell's size at the cell center
    let c = base(35, 35);
    assert_eq!(&screen[c..c + 4], &[0, 0xff, 0, 0x7f]);
}
