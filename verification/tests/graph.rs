use rt_graph::signal::SubscriptionId;
use std::{cell::RefCell, rc::Rc};
use rt_graph::{
    render_patch, Color, Config, Controls, Error, Graph, Patch, Point, PointStyle, View, ViewMode,
};

type G = Graph<Box<dyn Fn(&View)>>;

fn pt(t: u32, vs: &[u16]) -> Point {
    Point { t, vs: vs.to_vec() }
}

fn small() -> Config {
    Config {
        base_zoom_x: 2,
        max_zoom_x: 1,
        graph_width: 10,
        graph_height: 4,
        windows_to_store: 3,
        point_style: PointStyle::Point,
    }
}

fn times(g: &G) -> Vec<u32> {
    g.store().query_range(0, u32::MAX).unwrap().iter().map(|p| p.t()).collect()
}

#[test]
fn new_graph_is_empty_zoomed_out_and_following() {
    let g = G::new(small(), 2).unwrap();
    assert_eq!(g.view(), View::default_from_config(&small()));
    assert_eq!(g.config(), small());
    assert_eq!(g.width(), 10);
    assert_eq!(g.height(), 4);
    assert_eq!(g.base_zoom_x(), 2);
    assert_eq!(g.max_zoom_x(), 1);
    assert_eq!(g.last_t(), 0);
    assert_eq!(g.first_t(), 0);
    assert_eq!(g.store().val_len(), 2);
}

#[test]
fn new_graph_refuses_zoom_limits_out_of_order() {
    assert!(matches!(
        G::new(Config { max_zoom_x: 0, ..small() }, 1),
        Err(Error::String(_))
    ));
    assert!(matches!(
        G::new(Config { max_zoom_x: 3, base_zoom_x: 2, ..small() }, 1),
        Err(Error::String(_))
    ));
}

#[test]
fn zoom_change_triggers_full_redraw_of_half_the_span() {
    let mut g = G::new(Config::default(), 1).unwrap();
    g.tick(&[pt(1_000_000, &[1])]).unwrap();
    assert_eq!(
        g.set_follow(),
        Some(Patch { t0: 200_000, t1: 1_000_000, width: 800, height: 200, x: 0, shift: 0 })
    );
    assert_eq!(g.view().zoom_x, 1000);
    let last_drawn_t = g.view().last_drawn_t;
    assert_eq!(last_drawn_t, 1_000_000);
    let p = g.set_zoom_x(500).unwrap();
    assert_eq!(p.t0, last_drawn_t - 800 * 500);
    assert_eq!(p.t1, last_drawn_t);
    assert_eq!(p, Patch { t0: 600_000, t1: 1_000_000, width: 800, height: 200, x: 0, shift: 0 });
    assert_eq!(g.view().zoom_x, 500);
}

#[test]
fn tick_ingests_and_plans_the_new_patch() {
    let mut g = G::new(small(), 1).unwrap();
    let p = g.tick(&[pt(3, &[1]), pt(7, &[2])]).unwrap();
    assert_eq!(p, Some(Patch { t0: 0, t1: 6, width: 3, height: 4, x: 7, shift: 3 }));
    assert_eq!(times(&g), vec![3, 7]);
    assert_eq!(
        g.view(),
        View { zoom_x: 2, last_drawn_t: 6, last_drawn_x: 10, min_t: 3, max_t: 7, mode: ViewMode::Following }
    );
    assert_eq!(g.tick(&[]).unwrap(), None);
    assert_eq!(
        g.tick(&[pt(8, &[3])]).unwrap(),
        Some(Patch { t0: 6, t1: 8, width: 1, height: 4, x: 9, shift: 1 })
    );
    assert_eq!(g.tick(&[pt(9, &[4])]).unwrap(), None);
    assert_eq!(g.view().last_drawn_t, 8);
    assert_eq!(g.view().max_t, 9);
}

#[test]
fn tick_discards_what_is_older_than_the_keep_window() {
    let mut g = G::new(small(), 1).unwrap();
    g.tick(&[pt(7, &[1]), pt(39, &[2]), pt(40, &[3])]).unwrap();
    assert_eq!(times(&g), vec![7, 39, 40]);
    // keep window = 3 * 10 * 2 = 60: at 100 everything before 40 goes
    g.tick(&[pt(100, &[4])]).unwrap();
    assert_eq!(times(&g), vec![40, 100]);
    assert_eq!(g.view().min_t, 40);
    assert_eq!(g.view().max_t, 100);
    assert_eq!(g.first_t(), 40);
    assert_eq!(g.last_t(), 100);
}

#[test]
fn tick_keep_window_is_measured_at_base_zoom() {
    let mut g = G::new(small(), 1).unwrap();
    g.tick(&[pt(39, &[2]), pt(40, &[3])]).unwrap();
    g.set_zoom_x(1);
    g.tick(&[pt(100, &[4])]).unwrap();
    assert_eq!(times(&g), vec![40, 100]);
}

#[test]
fn tick_with_a_late_point_reports_invalid_order_and_keeps_the_view() {
    let mut g = G::new(small(), 1).unwrap();
    g.tick(&[pt(7, &[1])]).unwrap();
    let before = g.view();
    assert_eq!(g.tick(&[pt(9, &[2]), pt(9, &[3])]), Err(Error::InvalidOrder));
    assert_eq!(g.view(), before);
    assert_eq!(times(&g), vec![7, 9]);
    assert_eq!(g.last_t(), 9);
    // the next tick goes on from there
    assert_eq!(
        g.tick(&[pt(11, &[4])]).unwrap(),
        Some(Patch { t0: 6, t1: 10, width: 2, height: 4, x: 8, shift: 2 })
    );
}

#[test]
fn tick_with_a_wrong_channel_count_reports_channel_mismatch() {
    let mut g = G::new(small(), 2).unwrap();
    assert_eq!(g.tick(&[pt(9, &[2])]), Err(Error::ChannelMismatch));
    assert_eq!(g.last_t(), 0);
    assert!(times(&g).is_empty());
}

#[test]
fn scroll_pins_the_view_and_redraws() {
    let mut g = G::new(Config { windows_to_store: 100, ..small() }, 1).unwrap();
    g.tick(&[pt(100, &[1])]).unwrap();
    assert_eq!(
        g.scroll(20),
        Some(Patch { t0: 20, t1: 40, width: 10, height: 4, x: 0, shift: 0 })
    );
    assert_eq!(g.view().mode, ViewMode::Scrolled);
    assert_eq!(g.view().last_drawn_t, 40);
    assert_eq!(g.view().last_drawn_x, 10);
    // the window is full: new data does not move it
    assert_eq!(g.tick(&[pt(110, &[1])]).unwrap(), None);
    assert_eq!(g.view().last_drawn_t, 40);
    assert_eq!(g.view().max_t, 110);
    // an odd position snaps down to a whole pixel
    assert_eq!(
        g.scroll(3),
        Some(Patch { t0: 2, t1: 22, width: 10, height: 4, x: 0, shift: 0 })
    );
}

#[test]
fn scrolled_view_fills_up_to_the_right_edge() {
    let mut g = G::new(Config { windows_to_store: 100, ..small() }, 1).unwrap();
    g.tick(&[pt(9, &[1])]).unwrap();
    assert_eq!(g.scroll(0), Some(Patch { t0: 0, t1: 8, width: 4, height: 4, x: 0, shift: 0 }));
    assert_eq!(g.view().mode, ViewMode::Scrolled);
    assert_eq!(g.view().last_drawn_x, 4);
    assert_eq!(
        g.tick(&[pt(14, &[1])]).unwrap(),
        Some(Patch { t0: 8, t1: 14, width: 3, height: 4, x: 4, shift: 0 })
    );
    assert_eq!(
        g.tick(&[pt(30, &[1])]).unwrap(),
        Some(Patch { t0: 14, t1: 30, width: 8, height: 4, x: 7, shift: 0 })
    );
    assert_eq!(g.view().last_drawn_x, 10);
    assert_eq!(g.tick(&[pt(50, &[1])]).unwrap(), None);
}

#[test]
fn scroll_to_the_live_edge_follows_again() {
    let mut g = G::new(Config { windows_to_store: 100, ..small() }, 1).unwrap();
    g.tick(&[pt(100, &[1])]).unwrap();
    g.scroll(20);
    assert_eq!(
        g.scroll(99),
        Some(Patch { t0: 80, t1: 100, width: 10, height: 4, x: 0, shift: 0 })
    );
    assert_eq!(g.view().mode, ViewMode::Following);
}

#[test]
fn set_follow_snaps_to_the_latest_sample() {
    let mut g = G::new(Config { windows_to_store: 100, ..small() }, 1).unwrap();
    g.tick(&[pt(101, &[1])]).unwrap();
    g.scroll(20);
    assert_eq!(
        g.set_follow(),
        Some(Patch { t0: 81, t1: 101, width: 10, height: 4, x: 0, shift: 0 })
    );
    assert_eq!(g.view().mode, ViewMode::Following);
    assert_eq!(g.view().last_drawn_t, 101);
}

#[test]
fn set_zoom_is_clamped() {
    let mut g = G::new(Config { base_zoom_x: 8, max_zoom_x: 2, ..small() }, 1).unwrap();
    g.set_zoom_x(100);
    assert_eq!(g.view().zoom_x, 8);
    g.set_zoom_x(1);
    assert_eq!(g.view().zoom_x, 2);
    g.set_zoom_x(4);
    assert_eq!(g.view().zoom_x, 4);
}

#[test]
fn redraw_graph_plans_the_window_before_the_drawn_edge() {
    let mut g = G::new(small(), 1).unwrap();
    assert_eq!(g.redraw_graph(), None);
    g.tick(&[pt(7, &[1])]).unwrap();
    assert_eq!(
        g.redraw_graph(),
        Some(Patch { t0: 0, t1: 6, width: 3, height: 4, x: 7, shift: 0 })
    );
}

#[test]
fn render_draws_the_patch_over_the_whole_range_of_values() {
    let mut g = G::new(Config { point_style: PointStyle::Cross, ..small() }, 2).unwrap();
    let p = g.tick(&[pt(2, &[0, 40000]), pt(5, &[65535, 20000])]).unwrap().unwrap();
    assert_eq!(p, Patch { t0: 0, t1: 4, width: 2, height: 4, x: 8, shift: 2 });
    let cols = [Color(1, 2, 3), Color(4, 5, 6)];
    let got = g.render(&p, &cols, Color(9, 9, 9)).unwrap();
    let want =
        render_patch(g.store(), &cols, 2, 4, 0, 4, 0, u16::MAX, PointStyle::Cross, Color(9, 9, 9))
            .unwrap();
    assert_eq!(got, want);
    assert_eq!(got.len(), 2 * 4 * 4);
    // point 2 lies in column 1; 40000 has level 2, row 2: the cross sets
    // (0, 1), (1, 2) and (0, 3) inside the patch; value 0 mirrors to row 4
    // and its cross reaches (0, 3)
    let px = |x: usize, y: usize| &got[4 * (2 * y + x)..4 * (2 * y + x) + 4];
    assert_eq!(px(0, 1), &[4, 5, 6, 255]);
    assert_eq!(px(1, 2), &[4, 5, 6, 255]);
    assert_eq!(px(0, 3), &[4, 5, 6, 255]);
    assert_eq!(px(1, 1), &[9, 9, 9, 255]);
    assert_eq!(px(0, 0), &[9, 9, 9, 255]);
}

#[test]
fn render_refuses_an_empty_palette() {
    let mut g = G::new(small(), 1).unwrap();
    let p = g.tick(&[pt(7, &[1])]).unwrap().unwrap();
    assert_eq!(g.render(&p, &[], Color(0, 0, 0)), Err(Error::RenderInvariantViolation));
}

#[test]
fn position_maps_to_the_first_point_at_or_after_its_time() {
    let mut g = G::new(Config { windows_to_store: 100, ..small() }, 1).unwrap();
    let ps: Vec<Point> = (1..=10u32).map(|i| pt(2 * i, &[i as u16])).collect();
    g.tick(&ps).unwrap();
    assert_eq!(g.view().last_drawn_t, 20);
    assert_eq!(g.view().last_drawn_x, 10);
    assert_eq!(g.drawing_area_pos_to_point(9, 0).unwrap().t(), 18);
    assert_eq!(g.drawing_area_pos_to_point(10, 3).unwrap().t(), 20);
    assert_eq!(g.drawing_area_pos_to_point(500, 0).unwrap().t(), 20);
    let p = g.drawing_area_pos_to_point(0, 0).unwrap();
    assert_eq!(p.t(), 2);
    assert_eq!(p.vals(), &[1]);
}

#[test]
fn position_far_from_any_point_maps_to_nothing() {
    let mut g = G::new(Config { windows_to_store: 100, ..small() }, 1).unwrap();
    g.tick(&[pt(2, &[1]), pt(100, &[2])]).unwrap();
    assert_eq!(g.view().last_drawn_t, 20);
    // column 2 shows time 4; the next point is 96 units on, ten pixels are 20
    assert!(g.drawing_area_pos_to_point(2, 0).is_none());
    assert_eq!(g.drawing_area_pos_to_point(0, 0).unwrap().t(), 2);
}

#[test]
fn position_on_an_empty_graph_maps_to_nothing() {
    let g = G::new(small(), 1).unwrap();
    assert!(g.drawing_area_pos_to_point(3, 0).is_none());
}

#[test]
fn controls_mirror_the_view() {
    let mut g = G::new(Config { base_zoom_x: 4, windows_to_store: 100, ..small() }, 1).unwrap();
    g.tick(&[pt(30, &[1]), pt(100, &[1])]).unwrap();
    assert_eq!(
        g.controls(),
        Controls {
            lower: 30,
            upper: 100,
            page_size: 40,
            value: 100,
            zoom_in: true,
            zoom_out: false,
            follow: false
        }
    );
    g.set_zoom_x(1);
    g.scroll(50);
    assert_eq!(g.view().last_drawn_t, 60);
    assert_eq!(
        g.controls(),
        Controls {
            lower: 30,
            upper: 100,
            page_size: 10,
            value: 50,
            zoom_in: false,
            zoom_out: true,
            follow: true
        }
    );
    g.set_zoom_x(4);
    g.scroll(0);
    assert_eq!(g.view().last_drawn_t, 40);
    assert_eq!(g.controls().value, 0);
    g.set_zoom_x(2);
    g.scroll(0);
    let mut h = G::new(Config { base_zoom_x: 4, windows_to_store: 100, ..small() }, 1).unwrap();
    h.tick(&[pt(9, &[1])]).unwrap();
    h.scroll(0);
    assert_eq!(h.view().last_drawn_t, 8);
    assert_eq!(h.controls().value, 8 - 40);
}

#[test]
fn subscribers_are_told_of_the_view_after_each_change() {
    let mut g = G::new(Config { windows_to_store: 100, ..small() }, 1).unwrap();
    let seen: Rc<RefCell<Vec<View>>> = Rc::new(RefCell::new(Vec::new()));
    let sc = seen.clone();
    assert!(g.can_connect());
    let id = g.connect(Box::new(move |v| sc.borrow_mut().push(*v)));
    assert_eq!(id, SubscriptionId(0));
    assert!(seen.borrow().is_empty());

    g.tick(&[pt(7, &[1])]).unwrap();
    assert_eq!(*seen.borrow(), vec![g.view()]);
    assert_eq!(seen.borrow()[0].last_drawn_t, 6);

    g.set_zoom_x(1);
    assert_eq!(seen.borrow().len(), 2);
    assert_eq!(seen.borrow()[1], g.view());
    assert_eq!(seen.borrow()[1].zoom_x, 1);

    g.scroll(0);
    assert_eq!(seen.borrow().len(), 3);
    assert_eq!(seen.borrow()[2].mode, ViewMode::Scrolled);

    g.set_follow();
    assert_eq!(seen.borrow().len(), 4);
    assert_eq!(seen.borrow()[3].mode, ViewMode::Following);
    assert_eq!(seen.borrow()[3], g.view());

    g.redraw_graph();
    assert_eq!(seen.borrow().len(), 5);

    // a refused batch changes no view and tells nobody
    assert_eq!(g.tick(&[pt(7, &[1])]), Err(Error::InvalidOrder));
    assert_eq!(seen.borrow().len(), 5);

    g.disconnect(id);
    g.tick(&[pt(20, &[1])]).unwrap();
    assert_eq!(seen.borrow().len(), 5);
}

#[test]
fn subscribers_are_told_in_the_order_in_which_they_connected() {
    let mut g = G::new(small(), 1).unwrap();
    let log: Rc<RefCell<Vec<u8>>> = Rc::new(RefCell::new(Vec::new()));
    let mut ids = Vec::new();
    for k in 0..3u8 {
        let l = log.clone();
        ids.push(g.connect(Box::new(move |_| l.borrow_mut().push(k))));
    }
    g.tick(&[]).unwrap();
    assert_eq!(*log.borrow(), vec![0, 1, 2]);
    g.disconnect(ids[1]);
    g.tick(&[]).unwrap();
    assert_eq!(*log.borrow(), vec![0, 1, 2, 0, 2]);
}
