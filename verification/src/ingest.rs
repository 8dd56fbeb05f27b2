//! The full resynchronization pass: ingesting the compositor's current
//! window-element list into the [`WorkspaceModel`].
//!
//! The pass rebuilds the per-frame structures (z-index app order, window
//! list, app-to-window index) from scratch, upserts the additive caches,
//! maintains the most-recently-used app ordering, and finally drops stale
//! entries from the MRU list and the minimized list. Everything the pass
//! produces is specified as a fold over the input sequence, so that the
//! ingestion laws (idempotence, ordering, MRU stability, de-duplication)
//! can be stated and proved against those folds.

use vstd::prelude::*;

use crate::model::AppWindows;
use crate::model::Application;
use crate::model::Window;
use crate::model::WindowElementInfo;
use crate::model::WorkspaceModel;
use crate::model::app_identifiers;
use crate::model::find_app;
use crate::model::find_window;
use crate::model::id_list_contains;
use crate::model::lemma_find_app_none_iff;
use crate::model::lemma_find_app_push;
use crate::model::lemma_find_window_at;
use crate::model::lemma_find_window_none_iff;
use crate::model::lemma_find_window_push;
use crate::model::lemma_find_window_update_other;
use crate::model::lemma_lookup_app_windows_at;
use crate::model::lemma_lookup_app_windows_push;
use crate::model::lemma_lookup_app_windows_update_other;
use crate::model::lookup_app_windows;
use crate::model::map_app_ids;
use crate::model::string_list_contains;
use crate::model::string_list_position;
use crate::model::views_of;
use crate::model::window_ids;

verus! {

// ---------------------------------------------------------------------------
// Folds over the input sequence
// ---------------------------------------------------------------------------

/// The app id of an element, when the element resolves to one.
pub open spec fn elem_app(e: WindowElementInfo) -> Option<Seq<char>> {
    match e.app_id {
        Some(a) => Some(a@),
        None => None,
    }
}

/// Whether the element resolves to an app id.
pub open spec fn resolvable(e: WindowElementInfo) -> bool {
    elem_app(e) is Some
}

/// First-seen app order of the pass: the app index order.
pub open spec fn zindex_after(elems: Seq<WindowElementInfo>) -> Seq<Seq<char>>
    decreases elems.len(),
{
    if elems.len() == 0 {
        Seq::empty()
    } else {
        let prev = zindex_after(elems.drop_last());
        match elem_app(elems.last()) {
            Some(a) => if prev.contains(a) {
                prev
            } else {
                prev.push(a)
            },
            None => prev,
        }
    }
}

/// Surface ids of the resolvable elements, in input order.
pub open spec fn windows_after(elems: Seq<WindowElementInfo>) -> Seq<u64>
    decreases elems.len(),
{
    if elems.len() == 0 {
        Seq::empty()
    } else {
        let prev = windows_after(elems.drop_last());
        if resolvable(elems.last()) {
            prev.push(elems.last().id)
        } else {
            prev
        }
    }
}

/// Surface ids of the elements resolving to app `a`, in input order.
pub open spec fn app_windows_after(elems: Seq<WindowElementInfo>, a: Seq<char>) -> Seq<u64>
    decreases elems.len(),
{
    if elems.len() == 0 {
        Seq::empty()
    } else {
        let prev = app_windows_after(elems.drop_last(), a);
        if elem_app(elems.last()) == Some(a) {
            prev.push(elems.last().id)
        } else {
            prev
        }
    }
}

/// The app id of the last resolvable element, if any.
pub open spec fn last_resolvable_app(elems: Seq<WindowElementInfo>) -> Option<Seq<char>>
    decreases elems.len(),
{
    if elems.len() == 0 {
        None
    } else {
        match elem_app(elems.last()) {
            Some(a) => Some(a),
            None => last_resolvable_app(elems.drop_last()),
        }
    }
}

/// The MRU app list during the pass: an app seen for the first time —
/// and absent from the list — moves to the front.
pub open spec fn app_list_during(elems: Seq<WindowElementInfo>, init: Seq<Seq<char>>) -> Seq<
    Seq<char>,
>
    decreases elems.len(),
{
    if elems.len() == 0 {
        init
    } else {
        let prev = app_list_during(elems.drop_last(), init);
        match elem_app(elems.last()) {
            Some(a) => if prev.contains(a) {
                prev
            } else {
                prev.insert(0, a)
            },
            None => prev,
        }
    }
}

/// The block of newly-arrived apps that the pass prepends to the MRU list.
pub open spec fn mru_front(elems: Seq<WindowElementInfo>, init: Seq<Seq<char>>) -> Seq<Seq<char>>
    decreases elems.len(),
{
    if elems.len() == 0 {
        Seq::empty()
    } else {
        let prev = mru_front(elems.drop_last(), init);
        match elem_app(elems.last()) {
            Some(a) => if init.contains(a) || prev.contains(a) {
                prev
            } else {
                prev.insert(0, a)
            },
            None => prev,
        }
    }
}

/// The entries of `s` that occur in `keep`, in order.
pub open spec fn kept_strings(s: Seq<Seq<char>>, keep: Seq<Seq<char>>) -> Seq<Seq<char>> {
    s.filter(|a: Seq<char>| keep.contains(a))
}

/// The ids of `s` that occur in `keep`, in order.
pub open spec fn kept_ids(s: Seq<u64>, keep: Seq<u64>) -> Seq<u64> {
    s.filter(|x: u64| keep.contains(x))
}

/// Whether the cached application under this id already has an icon.
pub open spec fn app_has_icon(apps: Seq<Application>, a: Seq<char>) -> bool {
    match find_app(apps, a) {
        Some(x) => x.icon is Some,
        None => false,
    }
}

/// One icon-resolution request is scheduled for every resolvable element
/// whose application has no icon yet.
pub open spec fn icon_requests_after(apps: Seq<Application>, elems: Seq<WindowElementInfo>) -> Seq<
    Seq<char>,
>
    decreases elems.len(),
{
    if elems.len() == 0 {
        Seq::empty()
    } else {
        let prev = icon_requests_after(apps, elems.drop_last());
        match elem_app(elems.last()) {
            Some(a) => if app_has_icon(apps, a) {
                prev
            } else {
                prev.push(a)
            },
            None => prev,
        }
    }
}

/// How the pass upserts one window: identity and geometry from the latest
/// report, presentation flags and layer preserved from the cache when the
/// surface was already known.
pub open spec fn ingested_window_ok(
    pre_cache: Seq<Window>,
    e: WindowElementInfo,
    w: Window,
) -> bool {
    &&& w.id == e.id
    &&& Some(w.app_id@) == elem_app(e)
    &&& w.title == e.state.title
    &&& w.x == e.state.x
    &&& w.y == e.state.y
    &&& w.w == e.state.w
    &&& w.h == e.state.h
    &&& match find_window(pre_cache, e.id) {
        Some(p) => {
            &&& w.is_fullscreen == p.is_fullscreen
            &&& w.is_maximized == p.is_maximized
            &&& w.is_minimized == p.is_minimized
            &&& w.base_layer == p.base_layer
        },
        None => {
            &&& !w.is_fullscreen
            &&& !w.is_maximized
            &&& !w.is_minimized
            &&& w.base_layer == e.layer
        },
    }
}

/// Everything one resynchronization pass guarantees, as a relation
/// between the state before, the input sequence, and the state after.
pub open spec fn ingest_post(
    pre: WorkspaceModel,
    elems: Seq<WindowElementInfo>,
    post: WorkspaceModel,
) -> bool {
    &&& views_of(post.zindex_application_list@) == zindex_after(elems)
    &&& post.windows_list@ == windows_after(elems)
    &&& (forall|a: Seq<char>|
        lookup_app_windows(post.app_windows_map@, a) == app_windows_after(elems, a))
    &&& (match last_resolvable_app(elems) {
        Some(a) => {
            &&& (post.current_application as int) < zindex_after(elems).len()
            &&& zindex_after(elems)[post.current_application as int] == a
        },
        None => post.current_application == pre.current_application,
    })
    &&& views_of(post.application_list@) == kept_strings(
        app_list_during(elems, views_of(pre.application_list@)),
        zindex_after(elems),
    )
    &&& post.minimized_windows@ == kept_ids(pre.minimized_windows@, windows_after(elems))
    &&& (forall|o: u64|
        !windows_after(elems).contains(o) ==> find_window(post.windows_cache@, o) == find_window(
            pre.windows_cache@,
            o,
        ))
    &&& (forall|k: int|
        0 <= k < elems.len() && resolvable(elems[k]) ==> match find_window(
            post.windows_cache@,
            (#[trigger] elems[k]).id,
        ) {
            Some(w) => ingested_window_ok(pre.windows_cache@, elems[k], w),
            None => false,
        })
    &&& (forall|o: Seq<char>|
        find_app(pre.applications_cache@, o) is Some ==> find_app(post.applications_cache@, o)
            == find_app(pre.applications_cache@, o))
    &&& (forall|o: Seq<char>|
        find_app(pre.applications_cache@, o) is None && zindex_after(elems).contains(o)
            ==> match find_app(post.applications_cache@, o) {
            Some(a) => a.is_placeholder(o),
            None => false,
        })
    &&& (forall|o: Seq<char>|
        find_app(pre.applications_cache@, o) is None && !zindex_after(elems).contains(o)
            ==> find_app(post.applications_cache@, o) is None)
    &&& post.width == pre.width
    &&& post.version == pre.version + 1
}

// ---------------------------------------------------------------------------
// Structural lemmas about the folds
// ---------------------------------------------------------------------------

/// The z-index fold only appends.
pub proof fn lemma_zindex_after_extends(elems: Seq<WindowElementInfo>)
    requires
        elems.len() > 0,
    ensures
        zindex_after(elems.drop_last()).is_prefix_of(zindex_after(elems)),
{
    let prev = zindex_after(elems.drop_last());
    match elem_app(elems.last()) {
        Some(a) => {
            if !prev.contains(a) {
                assert(prev.is_prefix_of(prev.push(a)));
            } else {
                assert(prev.is_prefix_of(prev));
            }
        },
        None => {
            assert(prev.is_prefix_of(prev));
        },
    }
}

/// The z-index fold never records a duplicate app.
pub proof fn lemma_zindex_after_no_duplicates(elems: Seq<WindowElementInfo>)
    ensures
        zindex_after(elems).no_duplicates(),
    decreases elems.len(),
{
    if elems.len() > 0 {
        lemma_zindex_after_no_duplicates(elems.drop_last());
        let prev = zindex_after(elems.drop_last());
        match elem_app(elems.last()) {
            Some(a) => {
                if !prev.contains(a) {
                    assert forall|p: int, q: int|
                        0 <= p < q < prev.push(a).len() implies prev.push(a)[p] != prev.push(
                        a,
                    )[q] by {
                        if q < prev.len() {
                        } else {
                            assert(prev.push(a)[q] == a);
                            assert(prev.contains(prev[p]));
                        }
                    }
                }
            },
            None => {},
        }
    }
}

/// A prefix of a duplicate-free id sequence is duplicate-free.
pub proof fn lemma_prefix_no_duplicates(s: Seq<u64>, t: Seq<u64>)
    requires
        s.is_prefix_of(t),
        t.no_duplicates(),
    ensures
        s.no_duplicates(),
{
    assert forall|p: int, q: int| 0 <= p < q < s.len() implies s[p] != s[q] by {
        assert(s[p] == t[p] && s[q] == t[q]);
    }
}

/// The window-id fold over a prefix of the input is a prefix of the fold
/// over the whole input.
pub proof fn lemma_windows_after_take_prefix(elems: Seq<WindowElementInfo>, i: int)
    requires
        0 <= i <= elems.len(),
    ensures
        windows_after(elems.take(i)).is_prefix_of(windows_after(elems)),
    decreases elems.len() - i,
{
    if i == elems.len() {
        assert(elems.take(i) =~= elems);
        assert(windows_after(elems).is_prefix_of(windows_after(elems)));
    } else {
        lemma_windows_after_take_prefix(elems, i + 1);
        let t1 = elems.take(i + 1);
        assert(t1.drop_last() =~= elems.take(i));
        assert(t1.last() == elems[i]);
        let prev = windows_after(elems.take(i));
        if resolvable(elems[i]) {
            assert(windows_after(t1) == prev.push(elems[i].id));
            assert(prev.is_prefix_of(prev.push(elems[i].id)));
        } else {
            assert(windows_after(t1) == prev);
        }
        assert(prev.is_prefix_of(windows_after(t1)));
    }
}

impl WorkspaceModel {
    /// Upsert one reported window: identity and geometry from the report,
    /// presentation flags and layer preserved when the surface is already
    /// known in `pre_cache` (the cache as the pass found it).
    fn ingest_window(&mut self, e: &WindowElementInfo, Ghost(pre_cache): Ghost<Seq<Window>>)
        requires
            resolvable(*e),
            window_ids(old(self).windows_cache@).no_duplicates(),
            find_window(old(self).windows_cache@, e.id) == find_window(pre_cache, e.id),
        ensures
            window_ids(final(self).windows_cache@).no_duplicates(),
            match find_window(final(self).windows_cache@, e.id) {
                Some(w) => ingested_window_ok(pre_cache, *e, w),
                None => false,
            },
            forall|o: u64|
                o != e.id ==> find_window(final(self).windows_cache@, o) == find_window(
                    old(self).windows_cache@,
                    o,
                ),
            crate::model::same_except_windows(*old(self), *final(self)),
            final(self).minimized_windows == old(self).minimized_windows,
            final(self).version == old(self).version,
    {
        let found = self.find_window_index(e.id);
        let app_id = match &e.app_id {
            Some(a) => a.clone(),
            None => String::new(),
        };
        let new_w = match found {
            Some(wi) => {
                let w = &self.windows_cache[wi];
                Window {
                    id: e.id,
                    app_id,
                    title: e.state.title.clone(),
                    x: e.state.x,
                    y: e.state.y,
                    w: e.state.w,
                    h: e.state.h,
                    is_fullscreen: w.is_fullscreen,
                    is_maximized: w.is_maximized,
                    is_minimized: w.is_minimized,
                    base_layer: w.base_layer,
                }
            },
            None => Window {
                id: e.id,
                app_id,
                title: e.state.title.clone(),
                x: e.state.x,
                y: e.state.y,
                w: e.state.w,
                h: e.state.h,
                is_fullscreen: false,
                is_maximized: false,
                is_minimized: false,
                base_layer: e.layer,
            },
        };
        proof {
            assert(ingested_window_ok(pre_cache, *e, new_w));
        }
        let ghost cur_cache = self.windows_cache@;
        match found {
            Some(wi) => {
                self.windows_cache.set(wi, new_w);
                proof {
                    assert(window_ids(self.windows_cache@) =~= window_ids(cur_cache));
                    assert(forall|j: int| 0 <= j < wi ==> self.windows_cache@[j].id != e.id);
                    lemma_find_window_at(self.windows_cache@, e.id, wi as int);
                    assert forall|o: u64| o != e.id implies find_window(self.windows_cache@, o)
                        == find_window(cur_cache, o) by {
                        lemma_find_window_update_other(cur_cache, wi as int, new_w, o);
                    }
                }
            },
            None => {
                self.windows_cache.push(new_w);
                proof {
                    lemma_find_window_none_iff(cur_cache, e.id);
                    assert(window_ids(self.windows_cache@) =~= window_ids(cur_cache).push(e.id));
                    assert forall|p: int, q: int|
                        0 <= p < q < window_ids(self.windows_cache@).len() implies window_ids(
                        self.windows_cache@,
                    )[p] != window_ids(self.windows_cache@)[q] by {
                        if q < window_ids(cur_cache).len() {
                            assert(window_ids(self.windows_cache@)[p] == window_ids(cur_cache)[p]);
                            assert(window_ids(self.windows_cache@)[q] == window_ids(cur_cache)[q]);
                        } else {
                            assert(window_ids(self.windows_cache@)[q] == e.id);
                            assert(window_ids(self.windows_cache@)[p] == window_ids(cur_cache)[p]);
                            assert(window_ids(cur_cache).contains(window_ids(cur_cache)[p]));
                        }
                    }
                    assert(find_window(self.windows_cache@, e.id) == Some(new_w)) by {
                        lemma_find_window_push(cur_cache, new_w, e.id);
                    }
                    assert forall|o: u64| o != e.id implies find_window(self.windows_cache@, o)
                        == find_window(cur_cache, o) by {
                        lemma_find_window_push(cur_cache, new_w, o);
                    }
                }
            },
        }
    }

    /// Ensure the application entry exists, creating the placeholder on
    /// first sight, and report whether the application already has an
    /// icon, judged against `pre_apps` (the cache as the pass found it).
    fn ingest_app(&mut self, app_id: &String, Ghost(pre_apps): Ghost<Seq<Application>>) -> (has_icon:
        bool)
        requires
            app_identifiers(old(self).applications_cache@).no_duplicates(),
            match find_app(old(self).applications_cache@, app_id@) {
                Some(a) => match find_app(pre_apps, app_id@) {
                    Some(p) => a == p,
                    None => a.is_placeholder(app_id@),
                },
                None => find_app(pre_apps, app_id@) is None,
            },
        ensures
            has_icon == app_has_icon(pre_apps, app_id@),
            app_identifiers(final(self).applications_cache@).no_duplicates(),
            forall|o: Seq<char>|
                o != app_id@ ==> find_app(final(self).applications_cache@, o) == find_app(
                    old(self).applications_cache@,
                    o,
                ),
            match find_app(final(self).applications_cache@, app_id@) {
                Some(a) => {
                    if find_app(old(self).applications_cache@, app_id@) is Some {
                        Some(a) == find_app(old(self).applications_cache@, app_id@)
                    } else {
                        a.is_placeholder(app_id@)
                    }
                },
                None => false,
            },
            final(self).windows_cache == old(self).windows_cache,
            final(self).app_windows_map == old(self).app_windows_map,
            final(self).zindex_application_list == old(self).zindex_application_list,
            final(self).application_list == old(self).application_list,
            final(self).windows_list == old(self).windows_list,
            final(self).minimized_windows == old(self).minimized_windows,
            final(self).current_application == old(self).current_application,
            final(self).width == old(self).width,
            final(self).version == old(self).version,
    {
        match self.find_app_index(app_id) {
            Some(ai) => self.applications_cache[ai].icon.is_some(),
            None => {
                let ph = Application::new(app_id.as_str());
                let ghost cur_apps = self.applications_cache@;
                self.applications_cache.push(ph);
                proof {
                    lemma_find_app_none_iff(cur_apps, app_id@);
                    assert(app_identifiers(self.applications_cache@) =~= app_identifiers(
                        cur_apps,
                    ).push(app_id@));
                    assert forall|p: int, q: int|
                        0 <= p < q < app_identifiers(self.applications_cache@).len() implies
                        app_identifiers(self.applications_cache@)[p] != app_identifiers(
                        self.applications_cache@,
                    )[q] by {
                        if q < app_identifiers(cur_apps).len() {
                            assert(app_identifiers(self.applications_cache@)[p] == app_identifiers(
                                cur_apps,
                            )[p]);
                            assert(app_identifiers(self.applications_cache@)[q] == app_identifiers(
                                cur_apps,
                            )[q]);
                        } else {
                            assert(app_identifiers(self.applications_cache@)[q] == app_id@);
                            assert(app_identifiers(self.applications_cache@)[p] == app_identifiers(
                                cur_apps,
                            )[p]);
                            assert(app_identifiers(cur_apps).contains(
                                app_identifiers(cur_apps)[p],
                            ));
                        }
                    }
                    assert(find_app(self.applications_cache@, app_id@) == Some(ph)) by {
                        lemma_find_app_push(cur_apps, ph, app_id@);
                    }
                    assert forall|o: Seq<char>| o != app_id@ implies find_app(
                        self.applications_cache@,
                        o,
                    ) == find_app(cur_apps, o) by {
                        lemma_find_app_push(cur_apps, ph, o);
                    }
                }
                false
            },
        }
    }

    /// Register the app in the z-index order of the pass and return its
    /// app index.
    fn ingest_zindex(&mut self, app_id: &String) -> (ix: usize)
        ensures
            views_of(final(self).zindex_application_list@) == if views_of(
                old(self).zindex_application_list@,
            ).contains(app_id@) {
                views_of(old(self).zindex_application_list@)
            } else {
                views_of(old(self).zindex_application_list@).push(app_id@)
            },
            (ix as int) < final(self).zindex_application_list@.len(),
            final(self).zindex_application_list@[ix as int]@ == app_id@,
            final(self).windows_cache == old(self).windows_cache,
            final(self).applications_cache == old(self).applications_cache,
            final(self).app_windows_map == old(self).app_windows_map,
            final(self).application_list == old(self).application_list,
            final(self).windows_list == old(self).windows_list,
            final(self).minimized_windows == old(self).minimized_windows,
            final(self).current_application == old(self).current_application,
            final(self).width == old(self).width,
            final(self).version == old(self).version,
    {
        let ghost z_before = views_of(self.zindex_application_list@);
        match string_list_position(&self.zindex_application_list, app_id) {
            Some(ix) => {
                proof {
                    assert(z_before[ix as int] == self.zindex_application_list@[ix as int]@);
                    assert(z_before.contains(app_id@));
                }
                ix
            },
            None => {
                let ix = self.zindex_application_list.len();
                self.zindex_application_list.push(app_id.clone());
                proof {
                    assert(views_of(self.zindex_application_list@) =~= z_before.push(app_id@));
                }
                ix
            },
        }
    }

    /// Move a newly arrived app to the front of the MRU list.
    fn ingest_mru(&mut self, app_id: &String)
        ensures
            views_of(final(self).application_list@) == if views_of(
                old(self).application_list@,
            ).contains(app_id@) {
                views_of(old(self).application_list@)
            } else {
                views_of(old(self).application_list@).insert(0, app_id@)
            },
            views_of(old(self).application_list@).no_duplicates() ==> views_of(
                final(self).application_list@,
            ).no_duplicates(),
            final(self).windows_cache == old(self).windows_cache,
            final(self).applications_cache == old(self).applications_cache,
            final(self).app_windows_map == old(self).app_windows_map,
            final(self).zindex_application_list == old(self).zindex_application_list,
            final(self).windows_list == old(self).windows_list,
            final(self).minimized_windows == old(self).minimized_windows,
            final(self).current_application == old(self).current_application,
            final(self).width == old(self).width,
            final(self).version == old(self).version,
    {
        let ghost list_before = views_of(self.application_list@);
        if !string_list_contains(&self.application_list, app_id) {
            self.application_list.insert(0, app_id.clone());
            proof {
                assert(views_of(self.application_list@) =~= list_before.insert(0, app_id@));
                if list_before.no_duplicates() {
                    assert forall|p: int, q: int|
                        0 <= p < q < views_of(self.application_list@).len() implies views_of(
                        self.application_list@,
                    )[p] != views_of(self.application_list@)[q] by {
                        if p == 0 {
                            assert(views_of(self.application_list@)[0] == app_id@);
                            assert(views_of(self.application_list@)[q] == list_before[q - 1]);
                            assert(list_before.contains(list_before[q - 1]));
                        } else {
                            assert(views_of(self.application_list@)[p] == list_before[p - 1]);
                            assert(views_of(self.application_list@)[q] == list_before[q - 1]);
                        }
                    }
                }
            }
        }
    }

    /// Append one window id to the app's entry in the app-to-window index,
    /// creating the entry when the app is new to the pass.
    fn ingest_map(&mut self, app_id: &String, wid: u64)
        requires
            map_app_ids(old(self).app_windows_map@).no_duplicates(),
        ensures
            lookup_app_windows(final(self).app_windows_map@, app_id@) == lookup_app_windows(
                old(self).app_windows_map@,
                app_id@,
            ).push(wid),
            forall|o: Seq<char>|
                o != app_id@ ==> lookup_app_windows(final(self).app_windows_map@, o)
                    == lookup_app_windows(old(self).app_windows_map@, o),
            map_app_ids(final(self).app_windows_map@) == if map_app_ids(
                old(self).app_windows_map@,
            ).contains(app_id@) {
                map_app_ids(old(self).app_windows_map@)
            } else {
                map_app_ids(old(self).app_windows_map@).push(app_id@)
            },
            map_app_ids(final(self).app_windows_map@).no_duplicates(),
            final(self).windows_cache == old(self).windows_cache,
            final(self).applications_cache == old(self).applications_cache,
            final(self).zindex_application_list == old(self).zindex_application_list,
            final(self).application_list == old(self).application_list,
            final(self).windows_list == old(self).windows_list,
            final(self).minimized_windows == old(self).minimized_windows,
            final(self).current_application == old(self).current_application,
            final(self).width == old(self).width,
            final(self).version == old(self).version,
    {
        let ghost map_before = self.app_windows_map@;
        match self.find_app_windows_index(app_id) {
            Some(mi) => {
                let mut new_windows = self.app_windows_map[mi].windows.clone();
                proof {
                    assert(new_windows@ =~= map_before[mi as int].windows@);
                }
                new_windows.push(wid);
                let entry = AppWindows { app_id: app_id.clone(), windows: new_windows };
                self.app_windows_map.set(mi, entry);
                proof {
                    assert(map_app_ids(self.app_windows_map@) =~= map_app_ids(map_before));
                    assert(map_app_ids(map_before)[mi as int] == app_id@);
                    assert(map_app_ids(map_before).contains(app_id@));
                    assert(forall|j: int|
                        0 <= j < mi ==> self.app_windows_map@[j].app_id@ != app_id@);
                    lemma_lookup_app_windows_at(self.app_windows_map@, app_id@, mi as int);
                    assert forall|o: Seq<char>| o != app_id@ implies lookup_app_windows(
                        self.app_windows_map@,
                        o,
                    ) == lookup_app_windows(map_before, o) by {
                        lemma_lookup_app_windows_update_other(map_before, mi as int, entry, o);
                    }
                }
            },
            None => {
                let mut wl: Vec<u64> = Vec::new();
                wl.push(wid);
                let entry = AppWindows { app_id: app_id.clone(), windows: wl };
                self.app_windows_map.push(entry);
                proof {
                    assert(map_app_ids(self.app_windows_map@) =~= map_app_ids(map_before).push(
                        app_id@,
                    ));
                    assert forall|p: int, q: int|
                        0 <= p < q < map_app_ids(self.app_windows_map@).len() implies map_app_ids(
                        self.app_windows_map@,
                    )[p] != map_app_ids(self.app_windows_map@)[q] by {
                        if q < map_app_ids(map_before).len() {
                            assert(map_app_ids(self.app_windows_map@)[p] == map_app_ids(
                                map_before,
                            )[p]);
                            assert(map_app_ids(self.app_windows_map@)[q] == map_app_ids(
                                map_before,
                            )[q]);
                        } else {
                            assert(map_app_ids(self.app_windows_map@)[q] == app_id@);
                            assert(map_app_ids(self.app_windows_map@)[p] == map_app_ids(
                                map_before,
                            )[p]);
                            assert(map_app_ids(map_before).contains(map_app_ids(map_before)[p]));
                        }
                    }
                    assert(entry.windows@ =~= Seq::<u64>::empty().push(wid));
                    assert(lookup_app_windows(map_before, app_id@) =~= Seq::<u64>::empty());
                    assert forall|o: Seq<char>|
                        #![trigger lookup_app_windows(self.app_windows_map@, o)]
                        true implies lookup_app_windows(self.app_windows_map@, o) == (if o
                        == app_id@ {
                        entry.windows@
                    } else {
                        lookup_app_windows(map_before, o)
                    }) by {
                        lemma_lookup_app_windows_push(map_before, entry, o);
                    }
                }
            },
        }
    }
}

impl WorkspaceModel {
    /// One full resynchronization pass over the compositor's window
    /// elements. The per-frame structures (z-index app order, window list,
    /// app-to-window index) are rebuilt from the input; the window and
    /// application caches are upserted in place, preserving presentation
    /// flags of windows already known; a newly seen app moves to the front
    /// of the MRU list; stale MRU and minimized entries are dropped; the
    /// current application becomes the app of the last resolvable element;
    /// one notification is broadcast. Returns the app ids for which an
    /// icon resolution should be scheduled: one per resolvable element
    /// whose application has no icon yet.
    ///
    /// Surface ids are identities, so the resolvable elements must carry
    /// pairwise distinct ids.
    pub fn update_with_window_elements(&mut self, elements: &Vec<WindowElementInfo>) -> (icon_requests:
        Vec<String>)
        requires
            old(self).wf(),
            old(self).version < u64::MAX,
            windows_after(elements@).no_duplicates(),
        ensures
            final(self).wf(),
            ingest_post(*old(self), elements@, *final(self)),
            views_of(icon_requests@) == icon_requests_after(
                old(self).applications_cache@,
                elements@,
            ),
    {
        self.zindex_application_list = Vec::new();
        self.windows_list = Vec::new();
        self.app_windows_map = Vec::new();
        let mut icon_requests: Vec<String> = Vec::new();
        let mut last_ix: Option<usize> = None;
        proof {
            assert(elements@.take(0) =~= Seq::<WindowElementInfo>::empty());
            assert(views_of(self.zindex_application_list@) =~= zindex_after(elements@.take(0)));
            assert(self.windows_list@ =~= windows_after(elements@.take(0)));
            assert(views_of(icon_requests@) =~= icon_requests_after(
                old(self).applications_cache@,
                elements@.take(0),
            ));
            assert(views_of(self.application_list@) =~= app_list_during(
                elements@.take(0),
                views_of(old(self).application_list@),
            ));
            assert(map_app_ids(self.app_windows_map@) =~= views_of(self.zindex_application_list@));
            assert forall|a: Seq<char>|
                lookup_app_windows(self.app_windows_map@, a) == app_windows_after(
                    elements@.take(0),
                    a,
                ) by {
                assert(lookup_app_windows(self.app_windows_map@, a) =~= Seq::<u64>::empty());
                assert(app_windows_after(elements@.take(0), a) =~= Seq::<u64>::empty());
            }
            assert forall|k: int|
                0 <= k < self.application_list@.len() implies views_of(
                old(self).application_list@,
            ).contains((#[trigger] self.application_list@[k])@) by {
                assert(views_of(old(self).application_list@)[k] == self.application_list@[k]@);
            }
        }
        let mut i: usize = 0;
        while i < elements.len()
            invariant
                0 <= i <= elements@.len(),
                old(self).wf(),
                old(self).version < u64::MAX,
                windows_after(elements@).no_duplicates(),
                self.version == old(self).version,
                self.width == old(self).width,
                self.current_application == old(self).current_application,
                self.minimized_windows@ == old(self).minimized_windows@,
                views_of(self.zindex_application_list@) == zindex_after(elements@.take(i as int)),
                self.windows_list@ == windows_after(elements@.take(i as int)),
                forall|a: Seq<char>|
                    lookup_app_windows(self.app_windows_map@, a) == app_windows_after(
                        elements@.take(i as int),
                        a,
                    ),
                map_app_ids(self.app_windows_map@) == views_of(self.zindex_application_list@),
                map_app_ids(self.app_windows_map@).no_duplicates(),
                views_of(self.application_list@) == app_list_during(
                    elements@.take(i as int),
                    views_of(old(self).application_list@),
                ),
                views_of(self.application_list@).no_duplicates(),
                views_of(icon_requests@) == icon_requests_after(
                    old(self).applications_cache@,
                    elements@.take(i as int),
                ),
                match (last_resolvable_app(elements@.take(i as int)), last_ix) {
                    (Some(a), Some(ix)) => (ix as int) < self.zindex_application_list@.len()
                        && self.zindex_application_list@[ix as int]@ == a,
                    (None, None) => true,
                    _ => false,
                },
                window_ids(self.windows_cache@).no_duplicates(),
                app_identifiers(self.applications_cache@).no_duplicates(),
                forall|o: u64|
                    !windows_after(elements@.take(i as int)).contains(o) ==> find_window(
                        self.windows_cache@,
                        o,
                    ) == find_window(old(self).windows_cache@, o),
                forall|k: int|
                    0 <= k < i && resolvable(elements@[k]) ==> match find_window(
                        self.windows_cache@,
                        (#[trigger] elements@[k]).id,
                    ) {
                        Some(w) => ingested_window_ok(old(self).windows_cache@, elements@[k], w),
                        None => false,
                    },
                forall|o: Seq<char>|
                    find_app(old(self).applications_cache@, o) is Some ==> find_app(
                        self.applications_cache@,
                        o,
                    ) == find_app(old(self).applications_cache@, o),
                forall|o: Seq<char>|
                    find_app(old(self).applications_cache@, o) is None && zindex_after(
                        elements@.take(i as int),
                    ).contains(o) ==> match find_app(self.applications_cache@, o) {
                        Some(a) => a.is_placeholder(o),
                        None => false,
                    },
                forall|o: Seq<char>|
                    find_app(old(self).applications_cache@, o) is None && !zindex_after(
                        elements@.take(i as int),
                    ).contains(o) ==> find_app(self.applications_cache@, o) is None,
                forall|k: int|
                    0 <= k < self.application_list@.len() ==> views_of(
                        old(self).application_list@,
                    ).contains((#[trigger] self.application_list@[k])@) || zindex_after(
                        elements@.take(i as int),
                    ).contains(self.application_list@[k]@),
            decreases elements@.len() - i,
        {
            let ghost prefix = elements@.take(i as int);
            let ghost prefix1 = elements@.take(i as int + 1);
            proof {
                assert(prefix1.drop_last() =~= prefix);
                assert(prefix1.last() == elements@[i as int]);
            }
            let e = &elements[i];
            match &e.app_id {
                Some(app_id) => {
                    let ghost top = *self;
                    proof {
                        assert(elem_app(elements@[i as int]) == Some(app_id@));
                        assert(windows_after(prefix1) == windows_after(prefix).push(e.id));
                        lemma_windows_after_take_prefix(elements@, i as int + 1);
                        lemma_prefix_no_duplicates(
                            windows_after(prefix1),
                            windows_after(elements@),
                        );
                        assert(!windows_after(prefix).contains(e.id)) by {
                            if windows_after(prefix).contains(e.id) {
                                let k = choose|k: int|
                                    0 <= k < windows_after(prefix).len() && windows_after(
                                        prefix,
                                    )[k] == e.id;
                                assert(windows_after(prefix1)[k] == e.id);
                                assert(windows_after(prefix1)[windows_after(prefix1).len() - 1]
                                    == e.id);
                            }
                        }
                        assert(find_window(self.windows_cache@, e.id) == find_window(
                            old(self).windows_cache@,
                            e.id,
                        ));
                        // the longer prefix keeps every app and gains this one
                        lemma_zindex_after_extends(prefix1);
                        assert forall|x: Seq<char>|
                            zindex_after(prefix).contains(x) implies zindex_after(
                            prefix1,
                        ).contains(x) by {
                            let k = choose|k: int|
                                0 <= k < zindex_after(prefix).len() && zindex_after(prefix)[k]
                                    == x;
                            assert(zindex_after(prefix1)[k] == x);
                        }
                        assert(zindex_after(prefix1).contains(app_id@)) by {
                            let zprev = zindex_after(prefix);
                            if zprev.contains(app_id@) {
                                let k = choose|k: int|
                                    0 <= k < zprev.len() && zprev[k] == app_id@;
                                assert(zindex_after(prefix1)[k] == app_id@);
                            } else {
                                assert(zindex_after(prefix1) == zprev.push(app_id@));
                                assert(zindex_after(prefix1)[zprev.len() as int] == app_id@);
                            }
                        }
                        // relation of the evolving app cache to the pass's
                        // initial one, at this element's app id
                        assert(match find_app(self.applications_cache@, app_id@) {
                            Some(x) => match find_app(old(self).applications_cache@, app_id@) {
                                Some(p) => x == p,
                                None => x.is_placeholder(app_id@),
                            },
                            None => find_app(old(self).applications_cache@, app_id@) is None,
                        }) by {
                            if find_app(old(self).applications_cache@, app_id@) is Some {
                            } else {
                                if !zindex_after(prefix).contains(app_id@) {
                                    assert(find_app(self.applications_cache@, app_id@) is None);
                                }
                            }
                        }
                    }
                    self.ingest_window(e, Ghost(old(self).windows_cache@));
                    let has_icon = self.ingest_app(app_id, Ghost(old(self).applications_cache@));
                    if !has_icon {
                        icon_requests.push(app_id.clone());
                    }
                    let app_index = self.ingest_zindex(app_id);
                    self.ingest_mru(app_id);
                    self.ingest_map(app_id, e.id);
                    self.windows_list.push(e.id);
                    last_ix = Some(app_index);
                    proof {
                        let a = app_id@;
                        let zprev = zindex_after(prefix);
                        let initv = views_of(old(self).application_list@);
                        // z-index fold
                        assert(views_of(self.zindex_application_list@) == zindex_after(prefix1));
                        // window list fold
                        assert(self.windows_list@ == windows_after(prefix1));
                        // app-to-window fold
                        assert forall|a2: Seq<char>|
                            lookup_app_windows(self.app_windows_map@, a2) == app_windows_after(
                                prefix1,
                                a2,
                            ) by {
                            if a2 == a {
                                assert(app_windows_after(prefix1, a2) == app_windows_after(
                                    prefix,
                                    a2,
                                ).push(e.id));
                            } else {
                                assert(app_windows_after(prefix1, a2) == app_windows_after(
                                    prefix,
                                    a2,
                                ));
                            }
                        }
                        // index keys stay the z-index order
                        assert(map_app_ids(self.app_windows_map@) == views_of(
                            self.zindex_application_list@,
                        ));
                        // MRU fold
                        assert(views_of(self.application_list@) == app_list_during(
                            prefix1,
                            initv,
                        ));
                        // icon-request fold
                        assert(views_of(icon_requests@) == icon_requests_after(
                            old(self).applications_cache@,
                            prefix1,
                        ));
                        // untouched windows keep their initial cache entry
                        assert(windows_after(prefix1)[windows_after(prefix1).len() - 1] == e.id);
                        assert(windows_after(prefix1).contains(e.id));
                        assert forall|o: u64|
                            !windows_after(prefix1).contains(o) implies find_window(
                            self.windows_cache@,
                            o,
                        ) == find_window(old(self).windows_cache@, o) by {
                            assert(o != e.id);
                            assert(!windows_after(prefix).contains(o)) by {
                                if windows_after(prefix).contains(o) {
                                    let k = choose|k: int|
                                        0 <= k < windows_after(prefix).len() && windows_after(
                                            prefix,
                                        )[k] == o;
                                    assert(windows_after(prefix1)[k] == o);
                                }
                            }
                            assert(find_window(self.windows_cache@, o) == find_window(
                                top.windows_cache@,
                                o,
                            ));
                        }
                        // ingested windows carry the upsert contract
                        assert forall|k: int|
                            0 <= k < i + 1 && resolvable(elements@[k]) implies match find_window(
                            self.windows_cache@,
                            (#[trigger] elements@[k]).id,
                        ) {
                            Some(w) => ingested_window_ok(
                                old(self).windows_cache@,
                                elements@[k],
                                w,
                            ),
                            None => false,
                        } by {
                            if k < i {
                                lemma_windows_after_contains(elements@, k, i as int);
                                assert(elements@[k].id != e.id);
                                assert(find_window(self.windows_cache@, elements@[k].id)
                                    == find_window(top.windows_cache@, elements@[k].id));
                            } else {
                                assert(elements@[k] == *e);
                            }
                        }
                        // app cache: initially known apps are untouched
                        assert forall|o: Seq<char>|
                            find_app(old(self).applications_cache@, o) is Some implies find_app(
                            self.applications_cache@,
                            o,
                        ) == find_app(old(self).applications_cache@, o) by {
                            if o != a {
                                assert(find_app(self.applications_cache@, o) == find_app(
                                    top.applications_cache@,
                                    o,
                                ));
                            }
                        }
                        // app cache: apps of the pass resolve to placeholders
                        assert forall|o: Seq<char>|
                            find_app(old(self).applications_cache@, o) is None && zindex_after(
                                prefix1,
                            ).contains(o) implies match find_app(self.applications_cache@, o) {
                            Some(x) => x.is_placeholder(o),
                            None => false,
                        } by {
                            if o != a {
                                assert(zprev.contains(o)) by {
                                    let k = choose|k: int|
                                        0 <= k < zindex_after(prefix1).len() && zindex_after(
                                            prefix1,
                                        )[k] == o;
                                    if zprev.contains(a) {
                                        assert(zindex_after(prefix1) == zprev);
                                        assert(zprev[k] == o);
                                    } else {
                                        assert(zindex_after(prefix1) == zprev.push(a));
                                        assert(k < zprev.len());
                                        assert(zprev[k] == o);
                                    }
                                }
                                assert(find_app(self.applications_cache@, o) == find_app(
                                    top.applications_cache@,
                                    o,
                                ));
                            }
                        }
                        // app cache: apps outside the pass stay absent
                        assert forall|o: Seq<char>|
                            find_app(old(self).applications_cache@, o) is None && !zindex_after(
                                prefix1,
                            ).contains(o) implies find_app(self.applications_cache@, o)
                            is None by {
                            assert(o != a);
                            assert(!zprev.contains(o)) by {
                                if zprev.contains(o) {
                                    assert(zindex_after(prefix1).contains(o));
                                }
                            }
                            assert(find_app(self.applications_cache@, o) == find_app(
                                top.applications_cache@,
                                o,
                            ));
                        }
                        // MRU entries come from the initial list or the pass
                        assert forall|k: int|
                            0 <= k < self.application_list@.len() implies initv.contains(
                            (#[trigger] self.application_list@[k])@,
                        ) || zindex_after(prefix1).contains(self.application_list@[k]@) by {
                            let lv = views_of(self.application_list@);
                            assert(lv[k] == self.application_list@[k]@);
                            let tv = views_of(top.application_list@);
                            if tv.contains(a) {
                                assert(lv == tv);
                                assert(initv.contains(tv[k]) || zindex_after(prefix).contains(
                                    tv[k],
                                ));
                            } else {
                                assert(lv == tv.insert(0, a));
                                if k == 0 {
                                    assert(lv[0] == a);
                                } else {
                                    assert(lv[k] == tv[k - 1]);
                                    assert(initv.contains(tv[k - 1]) || zindex_after(
                                        prefix,
                                    ).contains(tv[k - 1]));
                                }
                            }
                        }
                        // the current-app tracker points at this app
                        assert(last_resolvable_app(prefix1) == Some(a));
                    }
                },
                None => {
                    proof {
                        assert(elem_app(elements@[i as int]) is None);
                        assert(zindex_after(prefix1) == zindex_after(prefix));
                        assert(windows_after(prefix1) == windows_after(prefix));
                        assert(last_resolvable_app(prefix1) == last_resolvable_app(prefix));
                        assert(app_list_during(prefix1, views_of(old(self).application_list@))
                            == app_list_during(prefix, views_of(old(self).application_list@)));
                        assert(icon_requests_after(old(self).applications_cache@, prefix1)
                            == icon_requests_after(old(self).applications_cache@, prefix));
                        assert forall|a2: Seq<char>|
                            lookup_app_windows(self.app_windows_map@, a2) == app_windows_after(
                                prefix1,
                                a2,
                            ) by {
                            assert(app_windows_after(prefix1, a2) == app_windows_after(
                                prefix,
                                a2,
                            ));
                        }
                    }
                },
            }
            i += 1;
        }
        proof {
            assert(elements@.take(elements@.len() as int) =~= elements@);
        }
        // --- current application from the last resolvable element ---
        match last_ix {
            Some(ix) => {
                self.current_application = ix;
            },
            None => {},
        }
        // --- drop stale MRU entries and stale minimized entries ---
        let kept_apps = retain_strings(&self.application_list, &self.zindex_application_list);
        let ghost during_views = views_of(self.application_list@);
        self.application_list = kept_apps;
        let kept_min = retain_ids(&self.minimized_windows, &self.windows_list);
        self.minimized_windows = kept_min;
        self.version = self.version + 1;
        proof {
            let elemsv = elements@;
            let zviews = views_of(self.zindex_application_list@);
            lemma_zindex_after_no_duplicates(elemsv);
            lemma_kept_strings_props(during_views, zviews);
            lemma_kept_ids_props(old(self).minimized_windows@, windows_after(elemsv));
            // every recorded window id resolves in the final cache
            assert forall|o: u64| windows_after(elemsv).contains(o) implies find_window(
                self.windows_cache@,
                o,
            ) is Some by {
                lemma_windows_after_to_elem(elemsv, o);
                let k = choose|k: int|
                    0 <= k < elemsv.len() && resolvable(#[trigger] elemsv[k]) && elemsv[k].id == o;
                assert(match find_window(self.windows_cache@, elemsv[k].id) {
                    Some(w) => ingested_window_ok(old(self).windows_cache@, elemsv[k], w),
                    None => false,
                });
            }
            assert forall|k: int|
                0 <= k < self.windows_list@.len() implies find_window(
                self.windows_cache@,
                #[trigger] self.windows_list@[k],
            ) is Some by {
                assert(windows_after(elemsv)[k] == self.windows_list@[k]);
                assert(windows_after(elemsv).contains(self.windows_list@[k]));
            }
            // every indexed window id resolves in the final cache
            assert forall|k: int, j: int|
                0 <= k < self.app_windows_map@.len() && 0 <= j
                    < self.app_windows_map@[k].windows@.len() implies find_window(
                self.windows_cache@,
                #[trigger] self.app_windows_map@[k].windows@[j],
            ) is Some by {
                let key = self.app_windows_map@[k].app_id@;
                assert forall|j2: int| 0 <= j2 < k implies self.app_windows_map@[j2].app_id@
                    != key by {
                    assert(map_app_ids(self.app_windows_map@)[j2] == self.app_windows_map@[j2]
                        .app_id@);
                    assert(map_app_ids(self.app_windows_map@)[k] == key);
                }
                lemma_lookup_app_windows_at(self.app_windows_map@, key, k);
                lemma_app_windows_sub(elemsv, key);
                assert(windows_after(elemsv).contains(self.app_windows_map@[k].windows@[j]));
            }
            // every kept minimized entry is a cached window still flagged
            // minimized: a surviving id was reported by some element, and
            // the upsert preserved its cached flag
            assert forall|k: int|
                0 <= k < self.minimized_windows@.len() implies match find_window(
                self.windows_cache@,
                #[trigger] self.minimized_windows@[k],
            ) {
                Some(w) => w.is_minimized,
                None => false,
            } by {
                let m = self.minimized_windows@[k];
                assert(old(self).minimized_windows@.contains(m) && windows_after(
                    elemsv,
                ).contains(m));
                let k0 = choose|k0: int|
                    0 <= k0 < old(self).minimized_windows@.len() && old(
                        self,
                    ).minimized_windows@[k0] == m;
                assert(match find_window(old(self).windows_cache@, m) {
                    Some(w) => w.is_minimized,
                    None => false,
                });
                lemma_windows_after_to_elem(elemsv, m);
                let ke = choose|ke: int|
                    0 <= ke < elemsv.len() && resolvable(#[trigger] elemsv[ke]) && elemsv[ke].id
                        == m;
                assert(match find_window(self.windows_cache@, elemsv[ke].id) {
                    Some(w) => ingested_window_ok(old(self).windows_cache@, elemsv[ke], w),
                    None => false,
                });
            }
            // every kept MRU entry still resolves to a cached application
            assert forall|k: int|
                0 <= k < self.application_list@.len() implies find_app(
                self.applications_cache@,
                (#[trigger] self.application_list@[k])@,
            ) is Some by {
                let a = self.application_list@[k]@;
                assert(views_of(self.application_list@)[k] == a);
                assert(during_views.contains(a) && zviews.contains(a));
                assert(zindex_after(elemsv).contains(a));
                if find_app(old(self).applications_cache@, a) is Some {
                } else {
                    assert(match find_app(self.applications_cache@, a) {
                        Some(x) => x.is_placeholder(a),
                        None => false,
                    });
                }
            }
            // every z-index entry resolves to a cached application
            assert forall|k: int|
                0 <= k < self.zindex_application_list@.len() implies find_app(
                self.applications_cache@,
                (#[trigger] self.zindex_application_list@[k])@,
            ) is Some by {
                let a = self.zindex_application_list@[k]@;
                assert(zviews[k] == a);
                assert(zindex_after(elemsv).contains(a));
                if find_app(old(self).applications_cache@, a) is Some {
                } else {
                    assert(match find_app(self.applications_cache@, a) {
                        Some(x) => x.is_placeholder(a),
                        None => false,
                    });
                }
            }
            // current application indexes the z-index list
            match last_resolvable_app(elemsv) {
                Some(a) => {},
                None => {
                    lemma_no_resolvable_no_zindex(elemsv);
                },
            }
        }
        icon_requests
    }
}

/// What a string retain keeps: elements of the source that the keep list
/// contains, duplicate-free when the source is.
pub proof fn lemma_kept_strings_props(s: Seq<Seq<char>>, keep: Seq<Seq<char>>)
    ensures
        forall|k: int|
            0 <= k < kept_strings(s, keep).len() ==> s.contains(#[trigger] kept_strings(s, keep)[k])
                && keep.contains(kept_strings(s, keep)[k]),
        s.no_duplicates() ==> kept_strings(s, keep).no_duplicates(),
    decreases s.len(),
{
    reveal(Seq::filter);
    let out = kept_strings(s, keep);
    if s.len() > 0 {
        let d = s.drop_last();
        lemma_kept_strings_props(d, keep);
        let nd = kept_strings(d, keep);
        assert forall|k: int| 0 <= k < nd.len() implies s.contains(#[trigger] nd[k]) by {
            assert(d.contains(nd[k]));
            let k0 = choose|k0: int| 0 <= k0 < d.len() && d[k0] == nd[k];
            assert(s[k0] == nd[k]);
        }
        if keep.contains(s.last()) {
            assert(out == nd.push(s.last()));
            assert(s.contains(s.last()));
            if s.no_duplicates() {
                assert(!d.contains(s.last())) by {
                    if d.contains(s.last()) {
                        let k = choose|k: int| 0 <= k < d.len() && d[k] == s.last();
                        assert(s[k] == s.last());
                    }
                }
                assert(!nd.contains(s.last())) by {
                    if nd.contains(s.last()) {
                        let k = choose|k: int| 0 <= k < nd.len() && nd[k] == s.last();
                        assert(d.contains(nd[k]));
                    }
                }
                assert forall|a: int, b: int| 0 <= a < b < out.len() implies out[a] != out[b] by {
                    if b < nd.len() {
                        assert(out[a] == nd[a] && out[b] == nd[b]);
                    } else {
                        assert(out[b] == s.last());
                        assert(nd.contains(out[a])) by {
                            assert(out[a] == nd[a]);
                        }
                    }
                }
            }
        } else {
            assert(out == nd);
        }
    }
}

/// What an id retain keeps: elements of the source that the keep list
/// contains, duplicate-free when the source is.
pub proof fn lemma_kept_ids_props(s: Seq<u64>, keep: Seq<u64>)
    ensures
        forall|k: int|
            0 <= k < kept_ids(s, keep).len() ==> s.contains(#[trigger] kept_ids(s, keep)[k])
                && keep.contains(kept_ids(s, keep)[k]),
        s.no_duplicates() ==> kept_ids(s, keep).no_duplicates(),
    decreases s.len(),
{
    reveal(Seq::filter);
    let out = kept_ids(s, keep);
    if s.len() > 0 {
        let d = s.drop_last();
        lemma_kept_ids_props(d, keep);
        let nd = kept_ids(d, keep);
        assert forall|k: int| 0 <= k < nd.len() implies s.contains(#[trigger] nd[k]) by {
            assert(d.contains(nd[k]));
            let k0 = choose|k0: int| 0 <= k0 < d.len() && d[k0] == nd[k];
            assert(s[k0] == nd[k]);
        }
        if keep.contains(s.last()) {
            assert(out == nd.push(s.last()));
            assert(s.contains(s.last()));
            if s.no_duplicates() {
                assert(!d.contains(s.last())) by {
                    if d.contains(s.last()) {
                        let k = choose|k: int| 0 <= k < d.len() && d[k] == s.last();
                        assert(s[k] == s.last());
                    }
                }
                assert(!nd.contains(s.last())) by {
                    if nd.contains(s.last()) {
                        let k = choose|k: int| 0 <= k < nd.len() && nd[k] == s.last();
                        assert(d.contains(nd[k]));
                    }
                }
                assert forall|a: int, b: int| 0 <= a < b < out.len() implies out[a] != out[b] by {
                    if b < nd.len() {
                        assert(out[a] == nd[a] && out[b] == nd[b]);
                    } else {
                        assert(out[b] == s.last());
                        assert(nd.contains(out[a])) by {
                            assert(out[a] == nd[a]);
                        }
                    }
                }
            }
        } else {
            assert(out == nd);
        }
    }
}

/// Keep the strings that occur in `keep`, in order.
pub fn retain_strings(v: &Vec<String>, keep: &Vec<String>) -> (r: Vec<String>)
    ensures
        views_of(r@) == kept_strings(views_of(v@), views_of(keep@)),
{
    let mut out: Vec<String> = Vec::new();
    proof {
        reveal(Seq::filter);
        assert(views_of(v@).take(0) =~= Seq::<Seq<char>>::empty());
        assert(views_of(out@) =~= kept_strings(views_of(v@).take(0), views_of(keep@)));
    }
    let mut i: usize = 0;
    while i < v.len()
        invariant
            0 <= i <= v@.len(),
            views_of(out@) == kept_strings(views_of(v@).take(i as int), views_of(keep@)),
        decreases v@.len() - i,
    {
        proof {
            reveal(Seq::filter);
            assert(views_of(v@).take(i as int + 1).drop_last() =~= views_of(v@).take(i as int));
            assert(views_of(v@).take(i as int + 1).last() == v@[i as int]@);
        }
        if string_list_contains(keep, &v[i]) {
            out.push(v[i].clone());
            proof {
                assert(views_of(out@) =~= kept_strings(
                    views_of(v@).take(i as int + 1),
                    views_of(keep@),
                ));
            }
        } else {
            proof {
                assert(views_of(out@) =~= kept_strings(
                    views_of(v@).take(i as int + 1),
                    views_of(keep@),
                ));
            }
        }
        i += 1;
    }
    proof {
        assert(views_of(v@).take(v@.len() as int) =~= views_of(v@));
    }
    out
}

/// Keep the ids that occur in `keep`, in order.
pub fn retain_ids(v: &Vec<u64>, keep: &Vec<u64>) -> (r: Vec<u64>)
    ensures
        r@ == kept_ids(v@, keep@),
{
    let mut out: Vec<u64> = Vec::new();
    proof {
        reveal(Seq::filter);
        assert(v@.take(0) =~= Seq::<u64>::empty());
        assert(out@ =~= kept_ids(v@.take(0), keep@));
    }
    let mut i: usize = 0;
    while i < v.len()
        invariant
            0 <= i <= v@.len(),
            out@ == kept_ids(v@.take(i as int), keep@),
        decreases v@.len() - i,
    {
        proof {
            reveal(Seq::filter);
            assert(v@.take(i as int + 1).drop_last() =~= v@.take(i as int));
            assert(v@.take(i as int + 1).last() == v@[i as int]);
        }
        if id_list_contains(keep, v[i]) {
            out.push(v[i]);
        }
        i += 1;
    }
    proof {
        assert(v@.take(v@.len() as int) =~= v@);
    }
    out
}

/// A resolvable element's id is recorded by the window fold over any
/// prefix that includes it.
pub proof fn lemma_windows_after_contains(elems: Seq<WindowElementInfo>, k: int, i: int)
    requires
        0 <= k < i <= elems.len(),
        resolvable(elems[k]),
    ensures
        windows_after(elems.take(i)).contains(elems[k].id),
{
    let tk1 = elems.take(k + 1);
    assert(tk1.drop_last() =~= elems.take(k));
    assert(tk1.last() == elems[k]);
    let wk1 = windows_after(tk1);
    assert(wk1 == windows_after(elems.take(k)).push(elems[k].id));
    assert(wk1[wk1.len() - 1] == elems[k].id);
    assert(wk1.contains(elems[k].id));
    lemma_windows_after_take_prefix(elems.take(i), k + 1);
    assert(elems.take(i).take(k + 1) =~= tk1);
    let wi = windows_after(elems.take(i));
    assert(wk1.is_prefix_of(wi));
    assert(wi[wk1.len() - 1] == elems[k].id);
}

/// Every recorded window id comes from a resolvable element.
pub proof fn lemma_windows_after_to_elem(elems: Seq<WindowElementInfo>, o: u64)
    requires
        windows_after(elems).contains(o),
    ensures
        exists|k: int|
            0 <= k < elems.len() && resolvable(#[trigger] elems[k]) && elems[k].id == o,
    decreases elems.len(),
{
    if elems.len() > 0 {
        let prev = windows_after(elems.drop_last());
        if resolvable(elems.last()) && elems.last().id == o {
            assert(resolvable(elems[elems.len() - 1]) && elems[elems.len() - 1].id == o);
        } else {
            assert(prev.contains(o)) by {
                let k = choose|k: int|
                    0 <= k < windows_after(elems).len() && windows_after(elems)[k] == o;
                if resolvable(elems.last()) {
                    assert(windows_after(elems) == prev.push(elems.last().id));
                    assert(k < prev.len());
                    assert(prev[k] == o);
                }
            }
            lemma_windows_after_to_elem(elems.drop_last(), o);
            let k = choose|k: int|
                0 <= k < elems.drop_last().len() && resolvable(#[trigger] elems.drop_last()[k])
                    && elems.drop_last()[k].id == o;
            assert(elems[k] == elems.drop_last()[k]);
            assert(resolvable(elems[k]) && elems[k].id == o);
        }
    }
}

/// An app's recorded windows are among the pass's window ids.
pub proof fn lemma_app_windows_sub(elems: Seq<WindowElementInfo>, a: Seq<char>)
    ensures
        forall|j: int|
            0 <= j < app_windows_after(elems, a).len() ==> windows_after(elems).contains(
                #[trigger] app_windows_after(elems, a)[j],
            ),
    decreases elems.len(),
{
    if elems.len() > 0 {
        let d = elems.drop_last();
        lemma_app_windows_sub(d, a);
        let prev = app_windows_after(d, a);
        let wprev = windows_after(d);
        let wfull = windows_after(elems);
        assert(wprev.is_prefix_of(wfull)) by {
            lemma_windows_after_take_prefix(elems, elems.len() - 1);
            assert(elems.take(elems.len() - 1) =~= d);
        }
        assert forall|j: int| 0 <= j < prev.len() implies wfull.contains(#[trigger] prev[j]) by {
            assert(wprev.contains(prev[j]));
            let k = choose|k: int| 0 <= k < wprev.len() && wprev[k] == prev[j];
            assert(wfull[k] == prev[j]);
        }
        if elem_app(elems.last()) == Some(a) {
            assert(app_windows_after(elems, a) == prev.push(elems.last().id));
            assert(windows_after(elems) == wprev.push(elems.last().id));
            assert(wfull[wfull.len() - 1] == elems.last().id);
            assert(wfull.contains(elems.last().id));
        }
    }
}

/// A value both lists hold survives the retain.
pub proof fn lemma_kept_strings_contains(s: Seq<Seq<char>>, keep: Seq<Seq<char>>, a: Seq<char>)
    requires
        s.contains(a),
        keep.contains(a),
    ensures
        kept_strings(s, keep).contains(a),
    decreases s.len(),
{
    reveal(Seq::filter);
    let out = kept_strings(s, keep);
    let d = s.drop_last();
    let nd = kept_strings(d, keep);
    if s.last() == a {
        assert(out == nd.push(a));
        assert(out[out.len() - 1] == a);
    } else {
        assert(d.contains(a)) by {
            let k = choose|k: int| 0 <= k < s.len() && s[k] == a;
            assert(d[k] == a);
        }
        lemma_kept_strings_contains(d, keep, a);
        let k = choose|k: int| 0 <= k < nd.len() && nd[k] == a;
        if keep.contains(s.last()) {
            assert(out[k] == a);
        } else {
            assert(out[k] == a);
        }
    }
}

/// Retaining with a list that holds every entry is the identity.
pub proof fn lemma_kept_strings_all(s: Seq<Seq<char>>, keep: Seq<Seq<char>>)
    requires
        forall|k: int| 0 <= k < s.len() ==> keep.contains(#[trigger] s[k]),
    ensures
        kept_strings(s, keep) == s,
    decreases s.len(),
{
    reveal(Seq::filter);
    if s.len() > 0 {
        let d = s.drop_last();
        assert forall|k: int| 0 <= k < d.len() implies keep.contains(#[trigger] d[k]) by {
            assert(d[k] == s[k]);
        }
        lemma_kept_strings_all(d, keep);
        assert(keep.contains(s.last())) by {
            assert(s[s.len() - 1] == s.last());
        }
        assert(kept_strings(s, keep) =~= s);
    } else {
        assert(kept_strings(s, keep) =~= s);
    }
}

/// The retain distributes over concatenation.
pub proof fn lemma_kept_strings_add(x: Seq<Seq<char>>, y: Seq<Seq<char>>, keep: Seq<Seq<char>>)
    ensures
        kept_strings(x + y, keep) == kept_strings(x, keep) + kept_strings(y, keep),
    decreases y.len(),
{
    reveal(Seq::filter);
    if y.len() == 0 {
        assert(x + y =~= x);
        assert(kept_strings(y, keep) =~= Seq::<Seq<char>>::empty());
        assert(kept_strings(x, keep) + kept_strings(y, keep) =~= kept_strings(x, keep));
    } else {
        lemma_kept_strings_add(x, y.drop_last(), keep);
        assert((x + y).drop_last() =~= x + y.drop_last());
        assert((x + y).last() == y.last());
        if keep.contains(y.last()) {
            assert(kept_strings(x + y, keep) == (kept_strings(x, keep) + kept_strings(
                y.drop_last(),
                keep,
            )).push(y.last()));
            assert((kept_strings(x, keep) + kept_strings(y.drop_last(), keep)).push(y.last())
                =~= kept_strings(x, keep) + kept_strings(y.drop_last(), keep).push(y.last()));
        } else {
            assert(kept_strings(x + y, keep) == kept_strings(x, keep) + kept_strings(
                y.drop_last(),
                keep,
            ));
        }
    }
}

/// Every app the pass saw is in the MRU list as the pass left it.
pub proof fn lemma_during_contains_apps(elems: Seq<WindowElementInfo>, init: Seq<Seq<char>>)
    ensures
        forall|a: Seq<char>|
            zindex_after(elems).contains(a) ==> app_list_during(elems, init).contains(a),
        forall|a: Seq<char>| init.contains(a) ==> app_list_during(elems, init).contains(a),
    decreases elems.len(),
{
    if elems.len() > 0 {
        let d = elems.drop_last();
        lemma_during_contains_apps(d, init);
        let prev = app_list_during(d, init);
        let cur = app_list_during(elems, init);
        let zprev = zindex_after(d);
        let zcur = zindex_after(elems);
        assert forall|a: Seq<char>| prev.contains(a) implies cur.contains(a) by {
            let k = choose|k: int| 0 <= k < prev.len() && prev[k] == a;
            match elem_app(elems.last()) {
                Some(ae) => {
                    if prev.contains(ae) {
                        assert(cur == prev);
                    } else {
                        assert(cur == prev.insert(0, ae));
                        assert(cur[k + 1] == a);
                    }
                },
                None => {
                    assert(cur == prev);
                },
            }
        }
        assert forall|a: Seq<char>| zcur.contains(a) implies cur.contains(a) by {
            match elem_app(elems.last()) {
                Some(ae) => {
                    if a == ae {
                        if prev.contains(ae) {
                            assert(cur.contains(a));
                        } else {
                            assert(cur == prev.insert(0, ae));
                            assert(cur[0] == ae);
                        }
                    } else {
                        assert(zprev.contains(a)) by {
                            let k = choose|k: int| 0 <= k < zcur.len() && zcur[k] == a;
                            if zprev.contains(ae) {
                                assert(zcur == zprev);
                            } else {
                                assert(zcur == zprev.push(ae));
                                assert(k < zprev.len());
                            }
                        }
                        assert(prev.contains(a));
                    }
                },
                None => {
                    assert(zcur == zprev);
                    assert(prev.contains(a));
                },
            }
        }
    }
}

/// A pass whose apps are all already listed leaves the MRU list alone.
pub proof fn lemma_during_all_present(elems: Seq<WindowElementInfo>, init: Seq<Seq<char>>)
    requires
        forall|a: Seq<char>| zindex_after(elems).contains(a) ==> init.contains(a),
    ensures
        app_list_during(elems, init) == init,
    decreases elems.len(),
{
    if elems.len() > 0 {
        let d = elems.drop_last();
        let zprev = zindex_after(d);
        let zcur = zindex_after(elems);
        assert forall|a: Seq<char>| zprev.contains(a) implies zcur.contains(a) by {
            lemma_zindex_after_extends(elems);
            let k = choose|k: int| 0 <= k < zprev.len() && zprev[k] == a;
            assert(zcur[k] == a);
        }
        lemma_during_all_present(d, init);
        match elem_app(elems.last()) {
            Some(ae) => {
                assert(zcur.contains(ae)) by {
                    if zprev.contains(ae) {
                        let k = choose|k: int| 0 <= k < zprev.len() && zprev[k] == ae;
                        assert(zcur[k] == ae);
                    } else {
                        assert(zcur == zprev.push(ae));
                        assert(zcur[zcur.len() - 1] == ae);
                    }
                }
                assert(init.contains(ae));
            },
            None => {},
        }
    }
}

/// The pass's MRU list decomposes into the block of newly-arrived apps
/// followed by the initial list.
pub proof fn lemma_during_decompose(elems: Seq<WindowElementInfo>, init: Seq<Seq<char>>)
    ensures
        app_list_during(elems, init) == mru_front(elems, init) + init,
        forall|k: int|
            0 <= k < mru_front(elems, init).len() ==> !init.contains(
                #[trigger] mru_front(elems, init)[k],
            ),
    decreases elems.len(),
{
    if elems.len() == 0 {
        assert(mru_front(elems, init) + init =~= init);
    } else {
        let d = elems.drop_last();
        lemma_during_decompose(d, init);
        let fprev = mru_front(d, init);
        let prev = app_list_during(d, init);
        match elem_app(elems.last()) {
            Some(ae) => {
                assert(prev == fprev + init);
                // membership in the concatenation splits
                if init.contains(ae) || fprev.contains(ae) {
                    assert(prev.contains(ae)) by {
                        if init.contains(ae) {
                            let k = choose|k: int| 0 <= k < init.len() && init[k] == ae;
                            assert(prev[fprev.len() + k] == ae);
                        } else {
                            let k = choose|k: int| 0 <= k < fprev.len() && fprev[k] == ae;
                            assert(prev[k] == ae);
                        }
                    }
                    assert(app_list_during(elems, init) == prev);
                    assert(mru_front(elems, init) == fprev);
                } else {
                    assert(!prev.contains(ae)) by {
                        if prev.contains(ae) {
                            let k = choose|k: int| 0 <= k < prev.len() && prev[k] == ae;
                            if k < fprev.len() {
                                assert(fprev[k] == ae);
                            } else {
                                assert(init[k - fprev.len()] == ae);
                            }
                        }
                    }
                    assert(app_list_during(elems, init) == prev.insert(0, ae));
                    assert(mru_front(elems, init) == fprev.insert(0, ae));
                    assert(prev.insert(0, ae) =~= fprev.insert(0, ae) + init);
                    assert forall|k: int|
                        0 <= k < fprev.insert(0, ae).len() implies !init.contains(
                        #[trigger] fprev.insert(0, ae)[k],
                    ) by {
                        if k > 0 {
                            assert(fprev.insert(0, ae)[k] == fprev[k - 1]);
                        }
                    }
                }
            },
            None => {},
        }
    }
}

/// An app's recorded windows after a pass over distinct surfaces hold no
/// duplicates.
pub proof fn lemma_app_windows_no_dup(elems: Seq<WindowElementInfo>, a: Seq<char>)
    requires
        windows_after(elems).no_duplicates(),
    ensures
        app_windows_after(elems, a).no_duplicates(),
    decreases elems.len(),
{
    if elems.len() > 0 {
        let d = elems.drop_last();
        assert(windows_after(d).is_prefix_of(windows_after(elems))) by {
            lemma_windows_after_take_prefix(elems, elems.len() - 1);
            assert(elems.take(elems.len() - 1) =~= d);
        }
        lemma_prefix_no_duplicates(windows_after(d), windows_after(elems));
        lemma_app_windows_no_dup(d, a);
        let prev = app_windows_after(d, a);
        if elem_app(elems.last()) == Some(a) {
            let id = elems.last().id;
            assert(windows_after(elems) == windows_after(d).push(id));
            assert(!windows_after(d).contains(id)) by {
                if windows_after(d).contains(id) {
                    let k = choose|k: int|
                        0 <= k < windows_after(d).len() && windows_after(d)[k] == id;
                    assert(windows_after(elems)[k] == id);
                    assert(windows_after(elems)[windows_after(elems).len() - 1] == id);
                }
            }
            assert(!prev.contains(id)) by {
                lemma_app_windows_sub(d, a);
                if prev.contains(id) {
                    let k = choose|k: int| 0 <= k < prev.len() && prev[k] == id;
                    assert(windows_after(d).contains(prev[k]));
                }
            }
            let out = prev.push(id);
            assert forall|p: int, q: int| 0 <= p < q < out.len() implies out[p] != out[q] by {
                if q < prev.len() {
                } else {
                    assert(out[q] == id);
                    assert(prev.contains(out[p])) by {
                        assert(out[p] == prev[p]);
                    }
                }
            }
        }
    }
}

// ---------------------------------------------------------------------------
// Laws of the resynchronization pass
// ---------------------------------------------------------------------------

/// Idempotence: re-ingesting an identical window-element list yields an
/// identical model snapshot — the same z-index order, the same current
/// application, the same app-to-window index, the same window list and
/// the same MRU ordering.
pub proof fn lemma_ingest_idempotent(
    m0: WorkspaceModel,
    m1: WorkspaceModel,
    m2: WorkspaceModel,
    elems: Seq<WindowElementInfo>,
)
    requires
        ingest_post(m0, elems, m1),
        ingest_post(m1, elems, m2),
    ensures
        views_of(m2.zindex_application_list@) == views_of(m1.zindex_application_list@),
        m2.current_application == m1.current_application,
        forall|a: Seq<char>|
            lookup_app_windows(m2.app_windows_map@, a) == lookup_app_windows(
                m1.app_windows_map@,
                a,
            ),
        m2.windows_list@ == m1.windows_list@,
        views_of(m2.application_list@) == views_of(m1.application_list@),
{
    let z = zindex_after(elems);
    lemma_zindex_after_no_duplicates(elems);
    assert forall|a: Seq<char>|
        lookup_app_windows(m2.app_windows_map@, a) == lookup_app_windows(
            m1.app_windows_map@,
            a,
        ) by {
        assert(lookup_app_windows(m1.app_windows_map@, a) == app_windows_after(elems, a));
        assert(lookup_app_windows(m2.app_windows_map@, a) == app_windows_after(elems, a));
    }
    // the current application index is pinned by the duplicate-free order
    match last_resolvable_app(elems) {
        Some(a) => {
            assert(z[m1.current_application as int] == a);
            assert(z[m2.current_application as int] == a);
            if m1.current_application != m2.current_application {
                assert(false);
            }
        },
        None => {},
    }
    // the MRU list is a fixed point: every app of the pass is already in
    // it, and every entry survives the retain
    let v1 = views_of(m1.application_list@);
    let during0 = app_list_during(elems, views_of(m0.application_list@));
    lemma_kept_strings_props(during0, z);
    lemma_during_contains_apps(elems, v1);
    assert forall|a: Seq<char>| z.contains(a) implies v1.contains(a) by {
        lemma_during_contains_apps(elems, views_of(m0.application_list@));
        assert(during0.contains(a));
        lemma_kept_strings_contains(during0, z, a);
    }
    lemma_during_all_present(elems, v1);
    assert(app_list_during(elems, v1) == v1);
    assert forall|k: int| 0 <= k < v1.len() implies z.contains(#[trigger] v1[k]) by {}
    lemma_kept_strings_all(v1, z);
    assert(views_of(m2.application_list@) == v1);
}

/// MRU stability: two apps listed before the pass and still listed after
/// it keep their relative order; an app the pass newly added stands in
/// front of every previously listed app.
pub proof fn lemma_ingest_mru_stable(
    m0: WorkspaceModel,
    m1: WorkspaceModel,
    elems: Seq<WindowElementInfo>,
    ia: int,
    ib: int,
)
    requires
        ingest_post(m0, elems, m1),
        views_of(m0.application_list@).no_duplicates(),
        0 <= ia < ib < m0.application_list@.len(),
    ensures
        forall|p: int, q: int|
            0 <= p < views_of(m1.application_list@).len() && 0 <= q < views_of(
                m1.application_list@,
            ).len() && views_of(m1.application_list@)[p] == views_of(m0.application_list@)[ia]
                && views_of(m1.application_list@)[q] == views_of(m0.application_list@)[ib] ==> p
                < q,
        forall|p: int, q: int|
            0 <= p < views_of(m1.application_list@).len() && 0 <= q < views_of(
                m1.application_list@,
            ).len() && !views_of(m0.application_list@).contains(
                views_of(m1.application_list@)[p],
            ) && views_of(m0.application_list@).contains(views_of(m1.application_list@)[q]) ==> p
                < q,
{
    let v0 = views_of(m0.application_list@);
    let v1 = views_of(m1.application_list@);
    let z = zindex_after(elems);
    let a = v0[ia];
    let b = v0[ib];
    let front = mru_front(elems, v0);
    lemma_during_decompose(elems, v0);
    lemma_kept_strings_add(front, v0, z);
    let kf = kept_strings(front, z);
    let k0 = kept_strings(v0, z);
    assert(v1 == kf + k0);
    lemma_kept_strings_props(front, z);
    lemma_kept_strings_props(v0, z);
    // the front block holds no previously listed app
    assert forall|p: int| 0 <= p < kf.len() implies !v0.contains(#[trigger] kf[p]) by {
        assert(front.contains(kf[p]));
        let k = choose|k: int| 0 <= k < front.len() && front[k] == kf[p];
    }
    // split the kept initial list at the second app's position
    assert(v0 =~= v0.take(ib) + v0.skip(ib));
    lemma_kept_strings_add(v0.take(ib), v0.skip(ib), z);
    let kt = kept_strings(v0.take(ib), z);
    let ks = kept_strings(v0.skip(ib), z);
    assert(k0 == kt + ks);
    lemma_kept_strings_props(v0.take(ib), z);
    lemma_kept_strings_props(v0.skip(ib), z);
    // the first app occurs only before the split, the second only after
    assert(!v0.skip(ib).contains(a)) by {
        if v0.skip(ib).contains(a) {
            let k = choose|k: int| 0 <= k < v0.skip(ib).len() && v0.skip(ib)[k] == a;
            assert(v0[ib + k] == a);
            assert(v0[ia] == a);
        }
    }
    assert(!v0.take(ib).contains(b)) by {
        if v0.take(ib).contains(b) {
            let k = choose|k: int| 0 <= k < v0.take(ib).len() && v0.take(ib)[k] == b;
            assert(v0[k] == b);
            assert(v0[ib] == b);
        }
    }
    assert forall|p: int, q: int|
        0 <= p < v1.len() && 0 <= q < v1.len() && v1[p] == a && v1[q] == b implies p < q by {
        assert(v0.contains(a)) by {
            assert(v0[ia] == a);
        }
        assert(v0.contains(b)) by {
            assert(v0[ib] == b);
        }
        assert(p >= kf.len());
        assert(q >= kf.len());
        let p0 = p - kf.len();
        let q0 = q - kf.len();
        assert(k0[p0] == a && k0[q0] == b);
        assert(p0 < kt.len()) by {
            if p0 >= kt.len() {
                assert(ks[p0 - kt.len()] == a);
                assert(v0.skip(ib).contains(a));
            }
        }
        assert(q0 >= kt.len()) by {
            if q0 < kt.len() {
                assert(kt[q0] == b);
                assert(v0.take(ib).contains(b));
            }
        }
    }
    assert forall|p: int, q: int|
        0 <= p < v1.len() && 0 <= q < v1.len() && !v0.contains(v1[p]) && v0.contains(
            v1[q],
        ) implies p < q by {
        assert(p < kf.len()) by {
            if p >= kf.len() {
                assert(k0[p - kf.len()] == v1[p]);
                assert(v0.contains(v1[p]));
            }
        }
        assert(q >= kf.len()) by {
            if q < kf.len() {
                assert(kf[q] == v1[q]);
                assert(!v0.contains(v1[q]));
            }
        }
    }
}

/// De-duplication: after a pass over distinct surfaces, no application's
/// window list holds a surface id twice, however often overlapping sets
/// are re-ingested.
pub proof fn lemma_ingest_no_duplicate_windows(
    m0: WorkspaceModel,
    m1: WorkspaceModel,
    elems: Seq<WindowElementInfo>,
    a: Seq<char>,
)
    requires
        windows_after(elems).no_duplicates(),
        ingest_post(m0, elems, m1),
    ensures
        lookup_app_windows(m1.app_windows_map@, a).no_duplicates(),
{
    lemma_app_windows_no_dup(elems, a);
}

/// With no resolvable element there is no app order either.
pub proof fn lemma_no_resolvable_no_zindex(elems: Seq<WindowElementInfo>)
    requires
        last_resolvable_app(elems) is None,
    ensures
        zindex_after(elems).len() == 0,
    decreases elems.len(),
{
    if elems.len() > 0 {
        lemma_no_resolvable_no_zindex(elems.drop_last());
    }
}

} // verus!
