use gradient_generator::blend::BlendMode;
use gradient_generator::pixels::{buffer_len, render, shade_row, uses_parallel, Rgba8};
use gradient_generator::ramp::{bounding_stops, segment_indices, select_stops, stop_at};
use gradient_generator::table::{neighbor_indices, table_size, wrap_index, TABLE_BITS, TABLE_SIZE};

const SLOTS: [[f64; 4]; 8] = [
    [1.0, 0.4, 0.2, 1.0],
    [0.2, 0.2, 0.3, 1.0],
    [0.6, 0.8, 0.9, 1.0],
    [0.1, 0.1, 0.1, 1.0],
    [0.5, 0.5, 0.5, 1.0],
    [0.3, 0.0, 0.7, 1.0],
    [0.9, 0.9, 0.0, 1.0],
    [0.0, 1.0, 0.0, 1.0],
];
const BLANK: [f64; 4] = [0.0, 0.0, 0.0, 0.0];

fn pattern(x: u32, y: u32) -> Rgba8 {
    Rgba8 {
        r: (x % 256) as u8,
        g: (y % 256) as u8,
        b: ((x * 7 + y * 13) % 251) as u8,
        a: 255,
    }
}

#[test]
fn mode_names_resolve() {
    assert_eq!(BlendMode::from_string("smooth"), BlendMode::Smooth);
    assert_eq!(BlendMode::from_string("radial"), BlendMode::Radial);
    assert_eq!(BlendMode::from_string("angular"), BlendMode::Angular);
    assert_eq!(BlendMode::from_string("diamond"), BlendMode::Diamond);
    assert_eq!(BlendMode::from_string("vortex"), BlendMode::Vortex);
}

#[test]
fn unknown_mode_falls_back_to_smooth() {
    assert_eq!(BlendMode::from_string("spiral"), BlendMode::Smooth);
    assert_eq!(BlendMode::from_string(""), BlendMode::Smooth);
    assert_eq!(BlendMode::from_string("Radial"), BlendMode::Smooth);
    assert_eq!(BlendMode::from_string("radial "), BlendMode::Smooth);
    assert_eq!(BlendMode::from_string("vort"), BlendMode::Smooth);
}

#[test]
fn engine_table_size() {
    assert_eq!(table_size(TABLE_BITS), TABLE_SIZE);
    assert_eq!(table_size(0), 1);
    assert_eq!(table_size(4), 16);
}

#[test]
fn wrap_index_masks_into_table() {
    assert_eq!(wrap_index(5, TABLE_BITS), 5);
    assert_eq!(wrap_index(8192, TABLE_BITS), 0);
    assert_eq!(wrap_index(8192 + 5, TABLE_BITS), 5);
    assert_eq!(wrap_index(usize::MAX, TABLE_BITS), 8191);
    assert_eq!(wrap_index(37, 4), 5);
    assert_eq!(wrap_index(12345, 0), 0);
}

#[test]
fn neighbor_indices_wrap_at_table_end() {
    assert_eq!(neighbor_indices(0, TABLE_BITS), (0, 1));
    assert_eq!(neighbor_indices(100, TABLE_BITS), (100, 101));
    assert_eq!(neighbor_indices(8191, TABLE_BITS), (8191, 0));
    assert_eq!(neighbor_indices(8192, TABLE_BITS), (0, 1));
    assert_eq!(neighbor_indices(usize::MAX, TABLE_BITS), (8191, 0));
    assert_eq!(neighbor_indices(15, 4), (15, 0));
}

#[test]
fn stop_at_reads_slots_and_blank() {
    assert_eq!(stop_at(&SLOTS, 0, BLANK), SLOTS[0]);
    assert_eq!(stop_at(&SLOTS, 7, BLANK), SLOTS[7]);
    assert_eq!(stop_at(&SLOTS, 8, BLANK), BLANK);
    assert_eq!(stop_at(&SLOTS, 1000, BLANK), BLANK);
}

#[test]
fn select_stops_takes_first_slots() {
    let stops = select_stops(&SLOTS, 4, BLANK);
    assert_eq!(stops, vec![SLOTS[0], SLOTS[1], SLOTS[2], SLOTS[3]]);
    let all = select_stops(&SLOTS, 8, BLANK);
    assert_eq!(all, SLOTS.to_vec());
}

#[test]
fn select_stops_past_last_slot_is_blank() {
    let stops = select_stops(&SLOTS, 10, BLANK);
    assert_eq!(stops.len(), 10);
    assert_eq!(stops[7], SLOTS[7]);
    assert_eq!(stops[8], BLANK);
    assert_eq!(stops[9], BLANK);
}

#[test]
fn select_stops_empty_keeps_first_slot() {
    assert_eq!(select_stops(&SLOTS, 0, BLANK), vec![SLOTS[0]]);
    assert_eq!(select_stops(&SLOTS, 1, BLANK), vec![SLOTS[0]]);
}

#[test]
fn segment_indices_clamp_to_last_stop() {
    assert_eq!(segment_indices(0, 4), (0, 1));
    assert_eq!(segment_indices(2, 4), (2, 3));
    assert_eq!(segment_indices(3, 4), (3, 3));
    assert_eq!(segment_indices(9, 4), (3, 3));
    assert_eq!(segment_indices(0, 1), (0, 0));
    assert_eq!(segment_indices(usize::MAX, 2), (1, 1));
}

#[test]
fn bounding_stops_pick_segment_ends() {
    let stops = select_stops(&SLOTS, 4, BLANK);
    assert_eq!(bounding_stops(&stops, 0), (SLOTS[0], SLOTS[1]));
    assert_eq!(bounding_stops(&stops, 1), (SLOTS[1], SLOTS[2]));
    assert_eq!(bounding_stops(&stops, 3), (SLOTS[3], SLOTS[3]));
}

#[test]
fn single_stop_everywhere() {
    let stops = select_stops(&SLOTS, 1, BLANK);
    for segment in [0usize, 1, 2, 7, 100, usize::MAX] {
        assert_eq!(bounding_stops(&stops, segment), (SLOTS[0], SLOTS[0]));
    }
}

#[test]
fn buffer_len_counts_four_bytes_per_pixel() {
    assert_eq!(buffer_len(0, 0), Some(0));
    assert_eq!(buffer_len(0, 100), Some(0));
    assert_eq!(buffer_len(2, 2), Some(16));
    assert_eq!(buffer_len(1920, 1080), Some(1920 * 1080 * 4));
    assert_eq!(buffer_len(u32::MAX, u32::MAX), None);
}

#[test]
fn parallel_threshold() {
    assert!(!uses_parallel(512, 512));
    assert!(uses_parallel(513, 512));
    assert!(uses_parallel(1024, 1024));
    assert!(!uses_parallel(0, 0));
    assert!(!uses_parallel(64, 64));
}

#[test]
fn render_empty_image() {
    assert!(render(0, 0, &pattern).is_empty());
    assert!(render(5, 0, &pattern).is_empty());
    assert!(render(0, 5, &pattern).is_empty());
}

#[test]
fn render_two_by_two_row_major() {
    let buf = render(2, 2, &pattern);
    assert_eq!(
        buf,
        vec![0, 0, 0, 255, 1, 0, 7, 255, 0, 1, 13, 255, 1, 1, 20, 255]
    );
}

#[test]
fn shade_row_left_to_right() {
    let row = shade_row(3, 3, &pattern);
    assert_eq!(row, vec![0, 3, 39, 255, 1, 3, 46, 255, 2, 3, 53, 255]);
}

fn rows_joined(width: u32, height: u32) -> Vec<u8> {
    let mut buf = Vec::new();
    for y in 0..height {
        buf.extend_from_slice(&shade_row(y, width, &pattern));
    }
    buf
}

#[test]
fn rows_match_render_small() {
    assert_eq!(rows_joined(64, 64), render(64, 64, &pattern));
    assert_eq!(rows_joined(7, 3), render(7, 3, &pattern));
}

#[test]
fn rows_match_render_large() {
    assert_eq!(rows_joined(1024, 1024), render(1024, 1024, &pattern));
}

#[test]
fn render_is_deterministic() {
    assert_eq!(render(33, 17, &pattern), render(33, 17, &pattern));
}

#[test]
fn render_places_every_pixel() {
    let (w, h) = (13u32, 9u32);
    let buf = render(w, h, &pattern);
    assert_eq!(buf.len(), (w * h * 4) as usize);
    for y in 0..h {
        for x in 0..w {
            let i = ((y * w + x) * 4) as usize;
            let p = pattern(x, y);
            assert_eq!(&buf[i..i + 4], &[p.r, p.g, p.b, p.a]);
        }
    }
}
