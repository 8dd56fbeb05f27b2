//! The workspace façade: the single owner of the workspace state store,
//! the two gesture accumulators, the memoized exposé layout and the app
//! switcher state. The compositor's input layer drives it with plain
//! values and applies the returned frames to its scene graph.
//!
//! A show-all gesture is driven in steps: [`Workspace::expose_show_all_update`]
//! folds one drag delta into the accumulator and yields the raw progress;
//! the caller may shape that progress with an easing curve for display;
//! [`Workspace::ensure_expose_layout`] computes (once per gesture) the
//! exposé tiling; [`Workspace::show_all_frame`] turns the shaped progress
//! into concrete layer positions; [`Workspace::clear_expose_layout`]
//! drops the memoized tiling when the gesture ends. Show-desktop needs no
//! easing and is a single call.

use vstd::prelude::*;

use crate::dock::DockModel;
use crate::geometry::LayoutRect;
use crate::geometry::dim;
use crate::geometry::fit_scale;
use crate::geometry::fit_scale_permille;
use crate::geometry::interp_permille;
use crate::geometry::interpolate_permille;
use crate::gesture::GestureState;
use crate::gesture::SHOW_ALL_TRANSITION_MS;
use crate::gesture::SHOW_DESKTOP_TRANSITION_MS;
use crate::gesture::gesture_update_post;
use crate::gesture::progress_of;
use crate::ingest::icon_requests_after;
use crate::ingest::ingest_post;
use crate::ingest::windows_after;
use crate::layout::natural_layout;
use crate::model::Application;
use crate::model::Window;
use crate::model::WindowElementInfo;
use crate::model::WindowViewBaseModel;
use crate::model::WorkspaceModel;
use crate::model::apply_app_info_post;
use crate::model::find_app;
use crate::model::find_window;
use crate::model::lookup_app_windows;
use crate::model::minimize_post;
use crate::model::unminimize_post;
use crate::model::update_window_post;
use crate::switcher::AppSwitcherModel;

verus! {

/// Animated move-and-scale order for one window layer.
#[derive(Clone, Copy, Debug, PartialEq, Eq, Structural)]
pub struct WindowTarget {
    pub id: u64,
    pub layer: u64,
    pub x: i32,
    pub y: i32,
    pub scale_permille: i32,
}

/// Move order for one window layer.
#[derive(Clone, Copy, Debug, PartialEq, Eq, Structural)]
pub struct WindowPosition {
    pub id: u64,
    pub layer: u64,
    pub x: i32,
    pub y: i32,
}

/// One selectable window tile of the exposé overlay.
#[derive(Debug)]
pub struct WindowSelection {
    pub x: i32,
    pub y: i32,
    pub w: i32,
    pub h: i32,
    pub visible: bool,
    pub window_title: String,
    pub index: usize,
}

/// The exposé overlay's state: the tiles and the highlighted one.
#[derive(Debug)]
pub struct WindowSelectorState {
    pub rects: Vec<WindowSelection>,
    pub current_selection: Option<usize>,
}

/// Everything one show-all progress step asks of the scene graph.
#[derive(Debug)]
pub struct ShowAllFrame {
    /// Workspace-selector strip position.
    pub selector_y: i32,
    /// Workspace-selector strip opacity, per-mille.
    pub selector_opacity_permille: i32,
    /// Dock strip position.
    pub dock_y: i32,
    /// Per-window move-and-scale orders.
    pub targets: Vec<WindowTarget>,
    /// Exposé overlay state.
    pub selector_state: WindowSelectorState,
    /// Whether the orders are applied with an eased transition.
    pub animated: bool,
    /// Transition duration when animated, in milliseconds.
    pub duration_ms: u64,
}

/// Everything one show-desktop progress step asks of the scene graph.
#[derive(Debug)]
pub struct ShowDesktopFrame {
    /// Per-window move orders, sliding each window off-screen.
    pub targets: Vec<WindowPosition>,
    /// Progress after this step, per-mille.
    pub progress: i64,
    /// Whether the orders are applied with an eased transition.
    pub animated: bool,
    /// Transition duration when animated, in milliseconds.
    pub duration_ms: u64,
}

// ---------------------------------------------------------------------------
// Spec: visible windows, memoized layout lookups, frame rows
// ---------------------------------------------------------------------------

/// The windows of the current frame that take part in a gesture: listed,
/// cached, and not minimized — in list order.
pub open spec fn visible_windows_of(ids: Seq<u64>, cache: Seq<Window>) -> Seq<Window>
    decreases ids.len(),
{
    if ids.len() == 0 {
        Seq::empty()
    } else {
        let prev = visible_windows_of(ids.drop_last(), cache);
        match find_window(cache, ids.last()) {
            Some(w) => if !w.is_minimized {
                prev.push(w)
            } else {
                prev
            },
            None => prev,
        }
    }
}

/// There are no more visible windows than listed surface ids.
pub proof fn lemma_visible_windows_len(ids: Seq<u64>, cache: Seq<Window>)
    ensures
        visible_windows_of(ids, cache).len() <= ids.len(),
    decreases ids.len(),
{
    if ids.len() > 0 {
        lemma_visible_windows_len(ids.drop_last(), cache);
    }
}

/// First rectangle assigned to the surface id in the memoized layout.
pub open spec fn bin_lookup(bin: Seq<(u64, LayoutRect)>, id: u64) -> Option<LayoutRect>
    decreases bin.len(),
{
    if bin.len() == 0 {
        None
    } else if bin[0].0 == id {
        Some(bin[0].1)
    } else {
        bin_lookup(bin.drop_first(), id)
    }
}

proof fn lemma_bin_lookup_skip(bin: Seq<(u64, LayoutRect)>, id: u64, i: int)
    requires
        0 <= i <= bin.len(),
        forall|j: int| 0 <= j < i ==> bin[j].0 != id,
    ensures
        bin_lookup(bin, id) == bin_lookup(bin.skip(i), id),
    decreases i,
{
    if i > 0 {
        lemma_bin_lookup_skip(bin, id, i - 1);
        assert(bin.skip(i - 1)[0] == bin[i - 1]);
        assert(bin.skip(i - 1).drop_first() =~= bin.skip(i));
    } else {
        assert(bin.skip(0) =~= bin);
    }
}

/// Linear search of the memoized layout.
pub fn bin_find(bin: &Vec<(u64, LayoutRect)>, id: u64) -> (r: Option<LayoutRect>)
    ensures
        r == bin_lookup(bin@, id),
{
    let mut i: usize = 0;
    while i < bin.len()
        invariant
            0 <= i <= bin@.len(),
            forall|j: int| 0 <= j < i ==> bin@[j].0 != id,
        decreases bin@.len() - i,
    {
        if bin[i].0 == id {
            proof {
                lemma_bin_lookup_skip(bin@, id, i as int);
                assert(bin@.skip(i as int)[0] == bin@[i as int]);
            }
            return Some(bin[i].1);
        }
        i += 1;
    }
    proof {
        lemma_bin_lookup_skip(bin@, id, bin@.len() as int);
        assert(bin@.skip(bin@.len() as int) =~= Seq::<(u64, LayoutRect)>::empty());
    }
    None
}

/// The show-all order for one window headed to its assigned rectangle at
/// per-mille progress `t`: position interpolated from the window's own,
/// scale interpolated from full size down to the aspect-preserving fit —
/// a window never scales up past its natural size.
pub open spec fn show_all_target_ok(tg: WindowTarget, w: Window, r: LayoutRect, t: int) -> bool {
    &&& tg.id == w.id
    &&& tg.layer == w.base_layer
    &&& tg.x == interp_permille(w.x as int, r.x as int, t)
    &&& tg.y == interp_permille(w.y as int, r.y as int, t)
    &&& tg.scale_permille == interp_permille(
        1000,
        fit_scale_permille(dim(w.w as int), dim(w.h as int), dim(r.width as int), dim(r.height as int)),
        t,
    )
}

/// The exposé tile for one window: the assigned rectangle's corner, the
/// window's size at its fitted scale, and its position in the overlay.
pub open spec fn selection_ok(s: WindowSelection, w: Window, r: LayoutRect, index: int) -> bool {
    let scale = fit_scale_permille(
        dim(w.w as int),
        dim(w.h as int),
        dim(r.width as int),
        dim(r.height as int),
    );
    &&& s.x == r.x
    &&& s.y == r.y
    &&& s.w == dim(w.w as int) * scale / 1000
    &&& s.h == dim(w.h as int) * scale / 1000
    &&& s.visible
    &&& s.window_title == w.title
    &&& s.index == index
}

/// The show-all frame rows: one target and one tile per visible window
/// that the memoized layout assigned a rectangle, in window order.
pub open spec fn show_all_rows_ok(
    tgs: Seq<WindowTarget>,
    sels: Seq<WindowSelection>,
    wins: Seq<Window>,
    bin: Seq<(u64, LayoutRect)>,
    t: int,
) -> bool
    decreases wins.len(),
{
    if wins.len() == 0 {
        tgs.len() == 0 && sels.len() == 0
    } else {
        match bin_lookup(bin, wins.last().id) {
            Some(r) => {
                &&& tgs.len() > 0
                &&& sels.len() == tgs.len()
                &&& show_all_target_ok(tgs.last(), wins.last(), r, t)
                &&& selection_ok(sels.last(), wins.last(), r, tgs.len() - 1)
                &&& show_all_rows_ok(tgs.drop_last(), sels.drop_last(), wins.drop_last(), bin, t)
            },
            None => show_all_rows_ok(tgs, sels, wins.drop_last(), bin, t),
        }
    }
}

/// The show-desktop order for one window at per-mille progress `t`: its
/// position interpolated toward fully off-screen, translated by its own
/// negative size.
pub open spec fn show_desktop_target_ok(tg: WindowPosition, w: Window, t: int) -> bool {
    &&& tg.id == w.id
    &&& tg.layer == w.base_layer
    &&& tg.x == interp_permille(w.x as int, -dim(w.w as int), t)
    &&& tg.y == interp_permille(w.y as int, -dim(w.h as int), t)
}

/// The show-desktop frame rows: one order per visible window, in order.
pub open spec fn show_desktop_rows_ok(tgs: Seq<WindowPosition>, wins: Seq<Window>, t: int) -> bool
    decreases wins.len(),
{
    if wins.len() == 0 {
        tgs.len() == 0
    } else {
        &&& tgs.len() > 0
        &&& show_desktop_target_ok(tgs.last(), wins.last(), t)
        &&& show_desktop_rows_ok(tgs.drop_last(), wins.drop_last(), t)
    }
}

/// The bounding box the exposé tiling fills: the workspace-selector strip
/// stays above it, the dock below it.
pub open spec fn expose_area(screen_w: i32, screen_h: i32) -> LayoutRect {
    LayoutRect {
        x: 0,
        y: WORKSPACE_SELECTOR_HEIGHT,
        width: screen_w,
        height: if screen_h > 270 {
            (screen_h - 270) as i32
        } else {
            0
        },
    }
}

/// Height of the workspace-selector strip, in pixels. The exposé tiling
/// leaves 270 pixels for the strip and ten pixels of padding above and
/// below it.
pub const WORKSPACE_SELECTOR_HEIGHT: i32 = 250;

/// Dock strip position when hidden, in pixels.
pub const DOCK_HIDDEN_Y: i32 = -20;

/// Dock strip position when show-all is fully engaged, in pixels.
pub const DOCK_SHOWN_Y: i32 = 250;

/// Workspace-selector strip position when hidden, in pixels.
pub const SELECTOR_HIDDEN_Y: i32 = -200;

// ---------------------------------------------------------------------------
// The façade
// ---------------------------------------------------------------------------

/// The workspace: state store, gestures, exposé memo, switcher and dock.
#[derive(Debug)]
pub struct Workspace {
    pub model: WorkspaceModel,
    pub app_switcher: AppSwitcherModel,
    pub dock: DockModel,
    pub show_all_gesture: GestureState,
    pub show_desktop_gesture: GestureState,
    /// Exposé layout memoized for the duration of one show-all gesture;
    /// empty between gestures.
    pub expose_bin: Vec<(u64, LayoutRect)>,
}

impl Workspace {
    pub open spec fn wf(self) -> bool {
        &&& self.model.wf()
        &&& self.app_switcher.wf()
    }

    /// Everything but the state store agrees between the two states.
    pub open spec fn same_views(pre: Workspace, post: Workspace) -> bool {
        &&& post.app_switcher == pre.app_switcher
        &&& post.dock == pre.dock
        &&& post.show_all_gesture == pre.show_all_gesture
        &&& post.show_desktop_gesture == pre.show_desktop_gesture
        &&& post.expose_bin == pre.expose_bin
    }

    /// A fresh workspace: empty store, idle gestures, hidden switcher.
    pub fn new() -> (w: Workspace)
        ensures
            w.wf(),
            w.model.version == 0,
            w.model.windows_cache@.len() == 0,
            w.model.applications_cache@.len() == 0,
            w.model.zindex_application_list@.len() == 0,
            w.model.application_list@.len() == 0,
            w.model.windows_list@.len() == 0,
            w.model.minimized_windows@.len() == 0,
            w.show_all_gesture.is_idle(),
            w.show_desktop_gesture.is_idle(),
            w.expose_bin@.len() == 0,
            !w.app_switcher.active,
    {
        Workspace {
            model: WorkspaceModel::new(),
            app_switcher: AppSwitcherModel::new(),
            dock: DockModel::new(),
            show_all_gesture: GestureState::new(),
            show_desktop_gesture: GestureState::new(),
            expose_bin: Vec::new(),
        }
    }

    /// Whether show-all is settled on.
    pub fn get_show_all(&self) -> (r: bool)
        ensures
            r == self.show_all_gesture.settled,
    {
        self.show_all_gesture.settled
    }

    /// Whether show-desktop is settled on.
    pub fn get_show_desktop(&self) -> (r: bool)
        ensures
            r == self.show_desktop_gesture.settled,
    {
        self.show_desktop_gesture.settled
    }

    /// Record the workspace width and broadcast one notification.
    pub fn set_size(&mut self, width: i32)
        requires
            old(self).model.version < u64::MAX,
        ensures
            final(self).model == (WorkspaceModel {
                width,
                version: (old(self).model.version + 1) as u64,
                ..old(self).model
            }),
            Workspace::same_views(*old(self), *final(self)),
    {
        self.model.width = width;
        self.model.version = self.model.version + 1;
    }

    /// Patch one window's geometry from a fresh per-frame report; no
    /// notification.
    pub fn update_window(&mut self, id: u64, st: &WindowViewBaseModel)
        requires
            old(self).wf(),
        ensures
            final(self).wf(),
            update_window_post(old(self).model, id, *st, final(self).model),
            Workspace::same_views(*old(self), *final(self)),
    {
        self.model.update_window(id, st);
    }

    /// One full resynchronization pass; see
    /// [`WorkspaceModel::update_with_window_elements`]. Returns the app
    /// ids whose icons should be resolved asynchronously.
    pub fn update_with_window_elements(&mut self, elements: &Vec<WindowElementInfo>) -> (icon_requests:
        Vec<String>)
        requires
            old(self).wf(),
            old(self).model.version < u64::MAX,
            windows_after(elements@).no_duplicates(),
        ensures
            final(self).wf(),
            ingest_post(old(self).model, elements@, final(self).model),
            crate::model::views_of(icon_requests@) == icon_requests_after(
                old(self).model.applications_cache@,
                elements@,
            ),
            Workspace::same_views(*old(self), *final(self)),
    {
        self.model.update_with_window_elements(elements)
    }

    /// Publish one asynchronous desktop-entry resolution; see
    /// [`WorkspaceModel::apply_app_info`].
    pub fn apply_app_info(
        &mut self,
        app_id: &String,
        desktop_name: Option<String>,
        icon_path: Option<String>,
        icon: Option<u64>,
    ) -> (changed: bool)
        requires
            old(self).wf(),
            old(self).model.version < u64::MAX,
        ensures
            final(self).wf(),
            apply_app_info_post(
                old(self).model,
                app_id@,
                desktop_name,
                icon_path,
                icon,
                final(self).model,
                changed,
            ),
            Workspace::same_views(*old(self), *final(self)),
    {
        self.model.apply_app_info(app_id, desktop_name, icon_path, icon)
    }

    /// Mark a window minimized; see [`WorkspaceModel::minimize_window`].
    pub fn minimize_window(&mut self, id: u64) -> (changed: bool)
        requires
            old(self).wf(),
            old(self).model.version < u64::MAX,
        ensures
            final(self).wf(),
            minimize_post(old(self).model, id, final(self).model),
            changed == match find_window(old(self).model.windows_cache@, id) {
                Some(w) => !w.is_minimized,
                None => false,
            },
            Workspace::same_views(*old(self), *final(self)),
    {
        self.model.minimize_window(id)
    }

    /// Restore a minimized window; see
    /// [`WorkspaceModel::unminimize_window`].
    pub fn unminimize_window(&mut self, id: u64) -> (changed: bool)
        requires
            old(self).wf(),
            old(self).model.version < u64::MAX,
        ensures
            final(self).wf(),
            unminimize_post(old(self).model, id, final(self).model),
            changed == match find_window(old(self).model.windows_cache@, id) {
                Some(w) => w.is_minimized,
                None => false,
            },
            Workspace::same_views(*old(self), *final(self)),
    {
        self.model.unminimize_window(id)
    }

    /// The ordered surface ids of the given application.
    pub fn get_app_windows(&self, app_id: &String) -> (r: Vec<u64>)
        ensures
            r@ == lookup_app_windows(self.model.app_windows_map@, app_id@),
    {
        self.model.get_app_windows(app_id)
    }

    /// The current application, if any.
    pub fn get_current_app(&self) -> (r: Option<Application>)
        requires
            self.wf(),
        ensures
            match r {
                Some(a) => {
                    &&& self.model.zindex_application_list@.len() > 0
                    &&& find_app(
                        self.model.applications_cache@,
                        self.model.zindex_application_list@[self.model.current_application as int]@,
                    ) == Some(a)
                },
                None => self.model.zindex_application_list@.len() == 0,
            },
    {
        self.model.get_current_app()
    }

    /// The ordered surface ids of the current application.
    pub fn get_current_app_windows(&self) -> (r: Vec<u64>)
        requires
            self.wf(),
        ensures
            self.model.zindex_application_list@.len() > 0 ==> r@ == lookup_app_windows(
                self.model.app_windows_map@,
                self.model.zindex_application_list@[self.model.current_application as int]@,
            ),
            self.model.zindex_application_list@.len() == 0 ==> r@ =~= Seq::<u64>::empty(),
    {
        self.model.get_current_app_windows()
    }

    /// The cached window for a surface id.
    pub fn get_window_for_surface(&self, id: u64) -> (r: Option<Window>)
        ensures
            r == find_window(self.model.windows_cache@, id),
    {
        self.model.get_window_for_surface(id)
    }

    /// Whether the cursor position falls within the dock's rendered
    /// bounds, as last reported by the scene graph.
    pub fn is_cursor_over_dock(&self, dock_bounds: &LayoutRect, x: i32, y: i32) -> (r: bool)
        ensures
            r == dock_bounds.spec_contains(x as int, y as int),
    {
        dock_bounds.contains(x, y)
    }

    /// Fold one show-all drag delta into the accumulator; on the end of
    /// the gesture the hysteresis rule settles the state. Returns the raw
    /// progress, which the caller may shape for display.
    pub fn expose_show_all_update(&mut self, delta: i64, end_gesture: bool) -> (progress: i64)
        ensures
            gesture_update_post(
                old(self).show_all_gesture,
                delta as int,
                end_gesture,
                final(self).show_all_gesture,
            ),
            progress == progress_of(final(self).show_all_gesture.counter as int),
            0 <= progress <= 1000,
            final(self).model == old(self).model,
            final(self).app_switcher == old(self).app_switcher,
            final(self).dock == old(self).dock,
            final(self).show_desktop_gesture == old(self).show_desktop_gesture,
            final(self).expose_bin == old(self).expose_bin,
    {
        self.show_all_gesture.update(delta, end_gesture)
    }

    /// Compute the exposé tiling for the currently visible windows, once
    /// per gesture: a memoized layout is kept as it is.
    pub fn ensure_expose_layout(&mut self, screen_w: i32, screen_h: i32)
        requires
            0 <= screen_w <= 0x40000000,
            0 <= screen_h <= 0x40000000,
            old(self).model.windows_list@.len() <= 0x40000000,
        ensures
            old(self).expose_bin@.len() > 0 ==> *final(self) == *old(self),
            old(self).expose_bin@.len() == 0 ==> ({
                let vis = visible_windows_of(
                    old(self).model.windows_list@,
                    old(self).model.windows_cache@,
                );
                let area = expose_area(screen_w, screen_h);
                &&& final(self).expose_bin@.len() == vis.len()
                &&& (forall|k: int|
                    0 <= k < vis.len() ==> (#[trigger] final(self).expose_bin@[k]).0 == vis[k].id)
                &&& (forall|k: int|
                    0 <= k < vis.len() ==> (#[trigger] final(self).expose_bin@[k]).1.well_sized()
                        && final(self).expose_bin@[k].1.inside(area))
                &&& (forall|p: int, q: int|
                    0 <= p < vis.len() && 0 <= q < vis.len() && p != q ==> (#[trigger] final(self)
                        .expose_bin@[p]).1.disjoint_from((#[trigger] final(self).expose_bin@[q]).1))
                &&& final(self).model == old(self).model
                &&& final(self).app_switcher == old(self).app_switcher
                &&& final(self).dock == old(self).dock
                &&& final(self).show_all_gesture == old(self).show_all_gesture
                &&& final(self).show_desktop_gesture == old(self).show_desktop_gesture
            }),
    {
        if self.expose_bin.len() > 0 {
            return ;
        }
        let mut vis: Vec<Window> = Vec::new();
        let n = self.model.windows_list.len();
        proof {
            assert(self.model.windows_list@.take(0) =~= Seq::<u64>::empty());
            assert(vis@ =~= visible_windows_of(
                self.model.windows_list@.take(0),
                self.model.windows_cache@,
            ));
        }
        let mut i: usize = 0;
        while i < n
            invariant
                0 <= i <= n,
                n == self.model.windows_list@.len(),
                *self == *old(self),
                vis@ == visible_windows_of(
                    self.model.windows_list@.take(i as int),
                    self.model.windows_cache@,
                ),
            decreases n - i,
        {
            proof {
                assert(self.model.windows_list@.take(i as int + 1).drop_last()
                    =~= self.model.windows_list@.take(i as int));
                assert(self.model.windows_list@.take(i as int + 1).last()
                    == self.model.windows_list@[i as int]);
            }
            let id = self.model.windows_list[i];
            match self.model.find_window_index(id) {
                Some(wi) => {
                    if !self.model.windows_cache[wi].is_minimized {
                        vis.push(self.model.windows_cache[wi].clone());
                    }
                },
                None => {},
            }
            i += 1;
        }
        proof {
            assert(self.model.windows_list@.take(n as int) =~= self.model.windows_list@);
        }
        // 250 pixels for the selector strip, ten of padding above and below
        let area = LayoutRect {
            x: 0,
            y: WORKSPACE_SELECTOR_HEIGHT,
            width: screen_w,
            height: if screen_h > 270 {
                screen_h - 270
            } else {
                0
            },
        };
        proof {
            assert(area == expose_area(screen_w, screen_h));
            lemma_visible_windows_len(self.model.windows_list@, self.model.windows_cache@);
        }
        let bin = natural_layout(&vis, &area);
        self.expose_bin = bin;
    }

    /// Turn a (possibly eased) show-all progress into scene orders: the
    /// selector strip and the dock slide in, and every visible window
    /// with an assigned exposé rectangle moves and scales toward it.
    /// Mid-gesture frames apply without animation for one-to-one
    /// tracking; the frame of an ended gesture animates.
    pub fn show_all_frame(&self, eased_permille: i64, end_gesture: bool) -> (frame: ShowAllFrame)
        requires
            0 <= eased_permille <= 1000,
        ensures
            frame.selector_y == interp_permille(SELECTOR_HIDDEN_Y as int, 0, eased_permille as int),
            frame.selector_opacity_permille == interp_permille(0, 1000, eased_permille as int),
            frame.dock_y == interp_permille(
                DOCK_HIDDEN_Y as int,
                DOCK_SHOWN_Y as int,
                eased_permille as int,
            ),
            show_all_rows_ok(
                frame.targets@,
                frame.selector_state.rects@,
                visible_windows_of(self.model.windows_list@, self.model.windows_cache@),
                self.expose_bin@,
                eased_permille as int,
            ),
            frame.selector_state.current_selection is None,
            frame.animated == end_gesture,
            frame.duration_ms == SHOW_ALL_TRANSITION_MS,
    {
        let t = eased_permille as i32;
        let selector_y = interpolate_permille(SELECTOR_HIDDEN_Y, 0, t);
        let selector_opacity = interpolate_permille(0, 1000, t);
        let dock_y = interpolate_permille(DOCK_HIDDEN_Y, DOCK_SHOWN_Y, t);
        let mut targets: Vec<WindowTarget> = Vec::new();
        let mut rects: Vec<WindowSelection> = Vec::new();
        let n = self.model.windows_list.len();
        proof {
            assert(self.model.windows_list@.take(0) =~= Seq::<u64>::empty());
        }
        let mut i: usize = 0;
        while i < n
            invariant
                0 <= i <= n,
                n == self.model.windows_list@.len(),
                0 <= t <= 1000,
                t == eased_permille,
                rects@.len() == targets@.len(),
                show_all_rows_ok(
                    targets@,
                    rects@,
                    visible_windows_of(
                        self.model.windows_list@.take(i as int),
                        self.model.windows_cache@,
                    ),
                    self.expose_bin@,
                    t as int,
                ),
            decreases n - i,
        {
            let ghost vis_prev = visible_windows_of(
                self.model.windows_list@.take(i as int),
                self.model.windows_cache@,
            );
            proof {
                assert(self.model.windows_list@.take(i as int + 1).drop_last()
                    =~= self.model.windows_list@.take(i as int));
                assert(self.model.windows_list@.take(i as int + 1).last()
                    == self.model.windows_list@[i as int]);
            }
            let id = self.model.windows_list[i];
            match self.model.find_window_index(id) {
                Some(wi) => {
                    if !self.model.windows_cache[wi].is_minimized {
                        let w = &self.model.windows_cache[wi];
                        proof {
                            let vis1 = visible_windows_of(
                                self.model.windows_list@.take(i as int + 1),
                                self.model.windows_cache@,
                            );
                            assert(vis1 == vis_prev.push(self.model.windows_cache@[wi as int]));
                            assert(vis1.drop_last() =~= vis_prev);
                            assert(vis1.last() == self.model.windows_cache@[wi as int]);
                        }
                        match bin_find(&self.expose_bin, id) {
                            Some(rect) => {
                                let ww: i32 = if w.w > 0 {
                                    w.w
                                } else {
                                    0
                                };
                                let wh: i32 = if w.h > 0 {
                                    w.h
                                } else {
                                    0
                                };
                                let rw: i32 = if rect.width > 0 {
                                    rect.width
                                } else {
                                    0
                                };
                                let rh: i32 = if rect.height > 0 {
                                    rect.height
                                } else {
                                    0
                                };
                                let scale = fit_scale(ww, wh, rw, rh);
                                let tx = interpolate_permille(w.x, rect.x, t);
                                let ty = interpolate_permille(w.y, rect.y, t);
                                let tscale = interpolate_permille(1000, scale, t);
                                proof {
                                    assert(0 <= (ww as int) * (scale as int)) by (nonlinear_arith)
                                        requires ww >= 0 && scale >= 0;
                                    assert((ww as int) * (scale as int) <= (ww as int) * 1000)
                                        by (nonlinear_arith)
                                        requires ww >= 0 && scale <= 1000;
                                    vstd::arithmetic::div_mod::lemma_div_is_ordered(
                                        (ww as int) * (scale as int),
                                        (ww as int) * 1000,
                                        1000,
                                    );
                                    vstd::arithmetic::div_mod::lemma_div_by_multiple(
                                        ww as int,
                                        1000,
                                    );
                                    assert(0 <= (wh as int) * (scale as int)) by (nonlinear_arith)
                                        requires wh >= 0 && scale >= 0;
                                    assert((wh as int) * (scale as int) <= (wh as int) * 1000)
                                        by (nonlinear_arith)
                                        requires wh >= 0 && scale <= 1000;
                                    vstd::arithmetic::div_mod::lemma_div_is_ordered(
                                        (wh as int) * (scale as int),
                                        (wh as int) * 1000,
                                        1000,
                                    );
                                    vstd::arithmetic::div_mod::lemma_div_by_multiple(
                                        wh as int,
                                        1000,
                                    );
                                }
                                let sw: i32 = ((ww as i64) * (scale as i64) / 1000) as i32;
                                let sh: i32 = ((wh as i64) * (scale as i64) / 1000) as i32;
                                let index = targets.len();
                                let ghost tgs_prev = targets@;
                                let ghost sels_prev = rects@;
                                targets.push(
                                    WindowTarget {
                                        id: w.id,
                                        layer: w.base_layer,
                                        x: tx,
                                        y: ty,
                                        scale_permille: tscale,
                                    },
                                );
                                rects.push(
                                    WindowSelection {
                                        x: rect.x,
                                        y: rect.y,
                                        w: sw,
                                        h: sh,
                                        visible: true,
                                        window_title: w.title.clone(),
                                        index,
                                    },
                                );
                                proof {
                                    assert(targets@.drop_last() =~= tgs_prev);
                                    assert(rects@.drop_last() =~= sels_prev);
                                }
                            },
                            None => {},
                        }
                    }
                },
                None => {},
            }
            i += 1;
        }
        proof {
            assert(self.model.windows_list@.take(n as int) =~= self.model.windows_list@);
        }
        ShowAllFrame {
            selector_y,
            selector_opacity_permille: selector_opacity,
            dock_y,
            targets,
            selector_state: WindowSelectorState { rects, current_selection: None },
            animated: end_gesture,
            duration_ms: SHOW_ALL_TRANSITION_MS,
        }
    }

    /// Fold one show-desktop drag delta into the accumulator — settling
    /// by the hysteresis rule when the gesture ends — and slide every
    /// visible window toward fully off-screen at the new progress.
    /// Mid-gesture frames apply without animation; the frame of an ended
    /// gesture animates.
    pub fn expose_show_desktop(&mut self, delta: i64, end_gesture: bool) -> (frame: ShowDesktopFrame)
        ensures
            gesture_update_post(
                old(self).show_desktop_gesture,
                delta as int,
                end_gesture,
                final(self).show_desktop_gesture,
            ),
            frame.progress == progress_of(final(self).show_desktop_gesture.counter as int),
            show_desktop_rows_ok(
                frame.targets@,
                visible_windows_of(
                    old(self).model.windows_list@,
                    old(self).model.windows_cache@,
                ),
                frame.progress as int,
            ),
            frame.animated == end_gesture,
            frame.duration_ms == SHOW_DESKTOP_TRANSITION_MS,
            final(self).model == old(self).model,
            final(self).app_switcher == old(self).app_switcher,
            final(self).dock == old(self).dock,
            final(self).show_all_gesture == old(self).show_all_gesture,
            final(self).expose_bin == old(self).expose_bin,
    {
        let progress = self.show_desktop_gesture.update(delta, end_gesture);
        let t = progress as i32;
        let mut targets: Vec<WindowPosition> = Vec::new();
        let n = self.model.windows_list.len();
        proof {
            assert(self.model.windows_list@.take(0) =~= Seq::<u64>::empty());
        }
        let mut i: usize = 0;
        while i < n
            invariant
                0 <= i <= n,
                n == self.model.windows_list@.len(),
                0 <= t <= 1000,
                self.model == old(self).model,
                show_desktop_rows_ok(
                    targets@,
                    visible_windows_of(
                        self.model.windows_list@.take(i as int),
                        self.model.windows_cache@,
                    ),
                    t as int,
                ),
            decreases n - i,
        {
            proof {
                assert(self.model.windows_list@.take(i as int + 1).drop_last()
                    =~= self.model.windows_list@.take(i as int));
                assert(self.model.windows_list@.take(i as int + 1).last()
                    == self.model.windows_list@[i as int]);
            }
            let ghost vis_prev = visible_windows_of(
                self.model.windows_list@.take(i as int),
                self.model.windows_cache@,
            );
            let id = self.model.windows_list[i];
            match self.model.find_window_index(id) {
                Some(wi) => {
                    if !self.model.windows_cache[wi].is_minimized {
                        let w = &self.model.windows_cache[wi];
                        proof {
                            let vis1 = visible_windows_of(
                                self.model.windows_list@.take(i as int + 1),
                                self.model.windows_cache@,
                            );
                            assert(vis1 == vis_prev.push(self.model.windows_cache@[wi as int]));
                            assert(vis1.drop_last() =~= vis_prev);
                            assert(vis1.last() == self.model.windows_cache@[wi as int]);
                        }
                        let ww: i32 = if w.w > 0 {
                            w.w
                        } else {
                            0
                        };
                        let wh: i32 = if w.h > 0 {
                            w.h
                        } else {
                            0
                        };
                        let tx = interpolate_permille(w.x, -ww, t);
                        let ty = interpolate_permille(w.y, -wh, t);
                        let ghost tgs_prev = targets@;
                        targets.push(WindowPosition { id: w.id, layer: w.base_layer, x: tx, y: ty });
                        proof {
                            assert(targets@.drop_last() =~= tgs_prev);
                        }
                    }
                },
                None => {},
            }
            i += 1;
        }
        proof {
            assert(self.model.windows_list@.take(n as int) =~= self.model.windows_list@);
        }
        ShowDesktopFrame {
            targets,
            progress,
            animated: end_gesture,
            duration_ms: SHOW_DESKTOP_TRANSITION_MS,
        }
    }

    /// Drop the memoized exposé layout; called when a show-all gesture
    /// ends.
    pub fn clear_expose_layout(&mut self)
        ensures
            final(self).expose_bin@.len() == 0,
            final(self).model == old(self).model,
            final(self).app_switcher == old(self).app_switcher,
            final(self).dock == old(self).dock,
            final(self).show_all_gesture == old(self).show_all_gesture,
            final(self).show_desktop_gesture == old(self).show_desktop_gesture,
    {
        self.expose_bin = Vec::new();
    }
}

} // verus!
