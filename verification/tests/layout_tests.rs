use workspace_core::geometry::LayoutRect;
use workspace_core::layout::natural_layout;
use workspace_core::model::Window;

fn window(id: u64, w: i32, h: i32) -> Window {
    let mut win = Window::new_with_layer(id, id + 100);
    win.w = w;
    win.h = h;
    win
}

fn rects_overlap(a: &LayoutRect, b: &LayoutRect) -> bool {
    !(a.x + a.width <= b.x || b.x + b.width <= a.x || a.y + a.height <= b.y || b.y + b.height
        <= a.y)
}

#[test]
fn four_equal_windows_tile_the_box() {
    let windows = vec![
        window(1, 500, 300),
        window(2, 500, 300),
        window(3, 500, 300),
        window(4, 500, 300),
    ];
    let area = LayoutRect::new(0, 0, 1000, 600);
    let placed = natural_layout(&windows, &area);
    assert_eq!(placed.len(), 4);
    for k in 0..4 {
        assert_eq!(placed[k].0, windows[k].id);
    }
    // a 2 by 2 grid of 500 by 300 cells, each window filling its cell
    assert_eq!(placed[0].1, LayoutRect::new(0, 0, 500, 300));
    assert_eq!(placed[1].1, LayoutRect::new(500, 0, 500, 300));
    assert_eq!(placed[2].1, LayoutRect::new(0, 300, 500, 300));
    assert_eq!(placed[3].1, LayoutRect::new(500, 300, 500, 300));
    let mut union_area: i64 = 0;
    for p in 0..placed.len() {
        let r = &placed[p].1;
        assert!(r.x >= 0 && r.y >= 0);
        assert!(r.x + r.width <= 1000 && r.y + r.height <= 600);
        union_area += (r.width as i64) * (r.height as i64);
        for q in 0..placed.len() {
            if p != q {
                assert!(!rects_overlap(&placed[p].1, &placed[q].1));
            }
        }
    }
    assert!(union_area <= 1000 * 600);
}

#[test]
fn single_window_is_centred() {
    let windows = vec![window(9, 100, 100)];
    let area = LayoutRect::new(0, 0, 1000, 600);
    let placed = natural_layout(&windows, &area);
    assert_eq!(placed.len(), 1);
    assert_eq!(placed[0].0, 9);
    assert_eq!(placed[0].1, LayoutRect::new(450, 250, 100, 100));
}

#[test]
fn no_windows_no_rectangles() {
    let windows: Vec<Window> = Vec::new();
    let area = LayoutRect::new(0, 0, 1000, 600);
    let placed = natural_layout(&windows, &area);
    assert_eq!(placed.len(), 0);
}

#[test]
fn wide_window_shrinks_to_aspect_fit() {
    // one 2000 by 300 window in a 1000 by 600 box: scale one half
    let windows = vec![window(3, 2000, 300)];
    let area = LayoutRect::new(0, 0, 1000, 600);
    let placed = natural_layout(&windows, &area);
    assert_eq!(placed.len(), 1);
    assert_eq!(placed[0].1, LayoutRect::new(0, 225, 1000, 150));
}

#[test]
fn offset_box_keeps_rectangles_inside() {
    let windows = vec![window(1, 400, 400), window(2, 400, 400), window(3, 400, 400)];
    let area = LayoutRect::new(100, 250, 800, 520);
    let placed = natural_layout(&windows, &area);
    assert_eq!(placed.len(), 3);
    for p in 0..placed.len() {
        let r = &placed[p].1;
        assert!(r.x >= 100 && r.y >= 250);
        assert!(r.x + r.width <= 900 && r.y + r.height <= 770);
        for q in 0..placed.len() {
            if p != q {
                assert!(!rects_overlap(&placed[p].1, &placed[q].1));
            }
        }
    }
}
