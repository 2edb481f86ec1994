use rt_graph::view::product;
use rt_graph::{Config, Controls, Patch, PointStyle, View, ViewMode};

fn small() -> Config {
    Config {
        base_zoom_x: 2,
        max_zoom_x: 1,
        graph_width: 10,
        graph_height: 4,
        windows_to_store: 100,
        point_style: PointStyle::Point,
    }
}

fn view(zoom_x: u32, last_drawn_t: u32, last_drawn_x: u32, mode: ViewMode) -> View {
    View { zoom_x, last_drawn_t, last_drawn_x, min_t: 0, max_t: 0, mode }
}

#[test]
fn default_config_has_the_documented_values() {
    let c = Config::default();
    assert_eq!(c.base_zoom_x, 1000);
    assert_eq!(c.max_zoom_x, 1);
    assert_eq!(c.graph_width, 800);
    assert_eq!(c.graph_height, 200);
    assert_eq!(c.windows_to_store, 100);
    assert_eq!(c.point_style, PointStyle::Point);
    assert!(c.is_valid());
}

#[test]
fn config_is_valid_when_zoom_limits_are_in_order() {
    assert!(Config { max_zoom_x: 5, base_zoom_x: 5, ..small() }.is_valid());
    assert!(!Config { max_zoom_x: 0, base_zoom_x: 5, ..small() }.is_valid());
    assert!(!Config { max_zoom_x: 6, base_zoom_x: 5, ..small() }.is_valid());
}

#[test]
fn discard_start_is_keep_window_before_latest() {
    let c = Config::default();
    // keep window = 100 * 800 * 1000
    assert_eq!(c.discard_start(79_999_999), 0);
    assert_eq!(c.discard_start(80_000_000), 0);
    assert_eq!(c.discard_start(80_000_001), 1);
    assert_eq!(c.discard_start(u32::MAX), 4_214_967_295);
    let huge = Config { windows_to_store: u32::MAX, graph_width: u32::MAX, base_zoom_x: u32::MAX, ..c };
    assert_eq!(huge.discard_start(u32::MAX), 0);
    let none = Config { windows_to_store: 0, ..c };
    assert_eq!(none.discard_start(17), 17);
}

#[test]
fn product_does_not_overflow() {
    assert_eq!(product(u32::MAX, u32::MAX), 18_446_744_065_119_617_025);
    assert_eq!(product(800, 1000), 800_000);
}

#[test]
fn default_view_is_zoomed_out_and_following() {
    let v = View::default_from_config(&small());
    assert_eq!(v, view(2, 0, 0, ViewMode::Following));
}

#[test]
fn redraw_covers_one_window_before_last_drawn_t() {
    let c = Config::default();
    let mut v = view(1000, 1_000_000, 0, ViewMode::Following);
    let p = v.redraw(&c);
    assert_eq!(
        p,
        Some(Patch { t0: 200_000, t1: 1_000_000, width: 800, height: 200, x: 0, shift: 0 })
    );
    assert_eq!(v.last_drawn_x, 800);
    assert_eq!(v.last_drawn_t, 1_000_000);
}

#[test]
fn redraw_at_half_the_zoom_covers_half_the_span() {
    let c = Config::default();
    let mut v = view(1000, 1_000_000, 0, ViewMode::Following);
    let before = v.redraw(&c).unwrap();
    v.set_zoom_x(&c, 500);
    let after = v.redraw(&c).unwrap();
    assert_eq!(after.t0, 1_000_000 - 800 * 500);
    assert_eq!(after.t1, 1_000_000);
    assert_eq!(after.t1 - after.t0, (before.t1 - before.t0) / 2);
}

#[test]
fn redraw_near_the_start_of_time_is_narrow() {
    let c = Config::default();
    let mut v = view(1000, 1500, 0, ViewMode::Following);
    assert_eq!(
        v.redraw(&c),
        Some(Patch { t0: 0, t1: 1500, width: 1, height: 200, x: 799, shift: 0 })
    );
    assert_eq!(v.last_drawn_x, 800);
    let mut v = view(1000, 1500, 0, ViewMode::Scrolled);
    assert_eq!(
        v.redraw(&c),
        Some(Patch { t0: 0, t1: 1500, width: 1, height: 200, x: 0, shift: 0 })
    );
    assert_eq!(v.last_drawn_x, 1);
}

#[test]
fn redraw_of_less_than_a_pixel_draws_nothing() {
    let c = Config::default();
    let mut v = view(1000, 999, 17, ViewMode::Following);
    assert_eq!(v.redraw(&c), None);
    assert_eq!(v, view(1000, 999, 17, ViewMode::Following));
}

#[test]
fn set_zoom_is_clamped_to_the_limits() {
    let c = Config { base_zoom_x: 1000, max_zoom_x: 10, ..small() };
    let mut v = view(1000, 5, 3, ViewMode::Scrolled);
    v.set_zoom_x(&c, 500);
    assert_eq!(v, view(500, 5, 3, ViewMode::Scrolled));
    v.set_zoom_x(&c, 5000);
    assert_eq!(v.zoom_x, 1000);
    v.set_zoom_x(&c, 9);
    assert_eq!(v.zoom_x, 10);
    v.set_zoom_x(&c, 0);
    assert_eq!(v.zoom_x, 10);
    v.set_zoom_x(&c, 10);
    assert_eq!(v.zoom_x, 10);
    v.set_zoom_x(&c, 1000);
    assert_eq!(v.zoom_x, 1000);
}

#[test]
fn set_follow_snaps_to_the_latest_time() {
    let mut v = view(2, 8, 4, ViewMode::Scrolled);
    v.set_follow(100);
    assert_eq!(v, view(2, 100, 4, ViewMode::Following));
}

#[test]
fn scroll_pins_the_window_and_snaps_to_whole_pixels() {
    let c = Config { base_zoom_x: 3, ..small() };
    let mut v = view(3, 90, 7, ViewMode::Following);
    // end = min(20 + 10 * 3, 100) = 50, snapped down to 48
    v.scroll(&c, 20, 100);
    assert_eq!(v, view(3, 48, 0, ViewMode::Scrolled));
    // end = min(80 + 30, 100) = 100, snapped down to 99
    v.scroll(&c, 80, 100);
    assert_eq!(v, view(3, 99, 0, ViewMode::Scrolled));
}

#[test]
fn scroll_to_within_one_unit_of_the_live_edge_follows() {
    let c = small();
    let mut v = view(2, 0, 0, ViewMode::Scrolled);
    v.scroll(&c, 98, 100);
    assert_eq!(v.mode, ViewMode::Scrolled);
    v.scroll(&c, 99, 100);
    assert_eq!(v.mode, ViewMode::Following);
    assert_eq!(v.last_drawn_t, 100);
    v.scroll(&c, 100, 100);
    assert_eq!(v.mode, ViewMode::Following);
    v.scroll(&c, u32::MAX, 100);
    assert_eq!(v.mode, ViewMode::Following);
    assert_eq!(v.last_drawn_t, 100);
    v.scroll(&c, 0, 0);
    assert_eq!(v.mode, ViewMode::Following);
    assert_eq!(v.last_drawn_t, 0);
}

#[test]
fn advance_when_following_draws_against_the_right_edge() {
    let c = small();
    let mut v = view(2, 0, 0, ViewMode::Following);
    let p = v.advance(&c, 7, 7, true);
    // width = floor((7 - 0) / 2) = 3, new_t = 0 + 3 * 2
    assert_eq!(p, Some(Patch { t0: 0, t1: 6, width: 3, height: 4, x: 7, shift: 3 }));
    assert_eq!(
        v,
        View { zoom_x: 2, last_drawn_t: 6, last_drawn_x: 10, min_t: 7, max_t: 7, mode: ViewMode::Following }
    );
}

#[test]
fn advance_is_clamped_to_the_width_of_the_graph() {
    let c = small();
    let mut v = view(2, 10, 10, ViewMode::Following);
    let p = v.advance(&c, 1, 1000, true);
    assert_eq!(p, Some(Patch { t0: 10, t1: 30, width: 10, height: 4, x: 0, shift: 10 }));
    assert_eq!(v.last_drawn_t, 30);
    assert_eq!(v.last_drawn_x, 10);
}

#[test]
fn advance_without_new_data_only_refreshes_the_span() {
    let c = small();
    let mut v = view(2, 0, 0, ViewMode::Following);
    assert_eq!(v.advance(&c, 3, 50, false), None);
    assert_eq!(
        v,
        View { zoom_x: 2, last_drawn_t: 0, last_drawn_x: 0, min_t: 3, max_t: 50, mode: ViewMode::Following }
    );
}

#[test]
fn advance_of_less_than_a_pixel_waits() {
    let c = small();
    let mut v = view(2, 6, 10, ViewMode::Following);
    assert_eq!(v.advance(&c, 1, 7, true), None);
    assert_eq!(v.last_drawn_t, 6);
    assert_eq!(v.max_t, 7);
    assert_eq!(
        v.advance(&c, 1, 8, true),
        Some(Patch { t0: 6, t1: 8, width: 1, height: 4, x: 9, shift: 1 })
    );
    assert_eq!(v.last_drawn_t, 8);
}

#[test]
fn advance_when_scrolled_appends_where_drawing_left_off() {
    let c = small();
    let mut v = view(2, 8, 4, ViewMode::Scrolled);
    assert_eq!(
        v.advance(&c, 1, 14, true),
        Some(Patch { t0: 8, t1: 14, width: 3, height: 4, x: 4, shift: 0 })
    );
    assert_eq!(v.last_drawn_t, 14);
    assert_eq!(v.last_drawn_x, 7);
}

#[test]
fn advance_when_scrolled_may_reach_past_the_right_edge() {
    let c = small();
    let mut v = view(2, 14, 7, ViewMode::Scrolled);
    assert_eq!(
        v.advance(&c, 1, 30, true),
        Some(Patch { t0: 14, t1: 30, width: 8, height: 4, x: 7, shift: 0 })
    );
    assert_eq!(v.last_drawn_t, 30);
    assert_eq!(v.last_drawn_x, 10);
}

#[test]
fn advance_when_scrolled_and_full_draws_nothing() {
    let c = small();
    let mut v = view(2, 14, 10, ViewMode::Scrolled);
    assert_eq!(v.advance(&c, 1, 300, true), None);
    assert_eq!(v.last_drawn_t, 14);
    assert_eq!(v.last_drawn_x, 10);
    assert_eq!(v.max_t, 300);
}

#[test]
fn time_at_counts_back_from_the_drawn_edge() {
    let v = view(2, 20, 10, ViewMode::Following);
    assert_eq!(v.time_at(10), 20);
    assert_eq!(v.time_at(25), 20);
    assert_eq!(v.time_at(9), 18);
    assert_eq!(v.time_at(1), 2);
    assert_eq!(v.time_at(0), 0);
    let v = view(1000, 20, 10, ViewMode::Following);
    assert_eq!(v.time_at(9), 0);
}

#[test]
fn controls_when_following_stand_at_the_latest_sample() {
    let c = Config { base_zoom_x: 4, max_zoom_x: 1, ..small() };
    let v = View { zoom_x: 4, last_drawn_t: 96, last_drawn_x: 10, min_t: 30, max_t: 100, mode: ViewMode::Following };
    assert_eq!(
        v.controls(&c),
        Controls {
            lower: 30,
            upper: 100,
            page_size: 40,
            value: 100,
            zoom_in: true,
            zoom_out: false,
            follow: false
        }
    );
}

#[test]
fn controls_when_scrolled_stand_at_the_start_of_the_window() {
    let c = Config { base_zoom_x: 4, max_zoom_x: 1, ..small() };
    let v = View { zoom_x: 1, last_drawn_t: 60, last_drawn_x: 10, min_t: 30, max_t: 100, mode: ViewMode::Scrolled };
    assert_eq!(
        v.controls(&c),
        Controls {
            lower: 30,
            upper: 100,
            page_size: 10,
            value: 50,
            zoom_in: false,
            zoom_out: true,
            follow: true
        }
    );
    let v = View { zoom_x: 2, last_drawn_t: 8, ..v };
    let k = v.controls(&c);
    assert_eq!(k.value, -12);
    assert!(k.zoom_in && k.zoom_out);
    let wide = Config { graph_width: u32::MAX, base_zoom_x: u32::MAX, ..c };
    let v = View { zoom_x: u32::MAX, last_drawn_t: 0, ..v };
    assert_eq!(v.controls(&wide).page_size, 18_446_744_065_119_617_025);
    assert_eq!(v.controls(&wide).value, -18_446_744_065_119_617_025);
}
