//! The authoritative workspace state store: applications, windows, z-order,
//! most-recently-used ordering, minimized windows, and the app-to-window
//! index.
//!
//! Surface handles and scene-graph layers are opaque to this model and are
//! carried as plain `u64` handles chosen by the embedding compositor.
//! Observer notification is modelled by a version counter: every mutation
//! that notifies observers increments `version` exactly once, and the
//! embedding dispatches a snapshot to its subscribers whenever the
//! version moves.

use vstd::prelude::*;

verus! {

/// A running application, identified by its stable app id. Equality of
/// applications is by `identifier` alone; the remaining fields are filled
/// in asynchronously by desktop-entry resolution. The decoded icon image
/// is owned by the renderer and referenced here by an opaque handle.
#[derive(Debug)]
pub struct Application {
    pub identifier: String,
    pub desktop_name: Option<String>,
    pub icon_path: Option<String>,
    pub icon: Option<u64>,
}

/// One window surface: identity is the surface handle `id`. Geometry is in
/// integer pixels; `base_layer` is the opaque handle of its presentation
/// layer in the scene graph.
#[derive(Debug)]
pub struct Window {
    pub id: u64,
    pub app_id: String,
    pub title: String,
    pub x: i32,
    pub y: i32,
    pub w: i32,
    pub h: i32,
    pub is_fullscreen: bool,
    pub is_maximized: bool,
    pub is_minimized: bool,
    pub base_layer: u64,
}

/// The per-frame presentation state reported for one window: fresh
/// geometry, title and fullscreen flag.
#[derive(Debug)]
pub struct WindowViewBaseModel {
    pub x: i32,
    pub y: i32,
    pub w: i32,
    pub h: i32,
    pub title: String,
    pub fullscreen: bool,
}

/// One element of a full resynchronization pass: a surface handle, its
/// presentation layer, the app id when the surface resolves to one, and
/// the latest reported state.
#[derive(Debug)]
pub struct WindowElementInfo {
    pub id: u64,
    pub layer: u64,
    pub app_id: Option<String>,
    pub state: WindowViewBaseModel,
}

/// The ordered list of window surface ids belonging to one application.
#[derive(Debug)]
pub struct AppWindows {
    pub app_id: String,
    pub windows: Vec<u64>,
}

/// The aggregate workspace state. See the field-by-field invariant in
/// [`WorkspaceModel::wf`].
#[derive(Debug)]
pub struct WorkspaceModel {
    /// App id to application, additive across passes.
    pub applications_cache: Vec<Application>,
    /// Surface id to window, additive across passes.
    pub windows_cache: Vec<Window>,
    /// App id to its ordered window list, rebuilt every pass.
    pub app_windows_map: Vec<AppWindows>,
    /// First-seen app order of the latest pass; defines the app index.
    pub zindex_application_list: Vec<String>,
    /// Most-recently-used app order, front (index 0) is most recent.
    pub application_list: Vec<String>,
    /// Surface ids of the latest pass, in input order.
    pub windows_list: Vec<u64>,
    /// Surface ids currently minimized.
    pub minimized_windows: Vec<u64>,
    /// Index into `zindex_application_list` of the current application.
    pub current_application: usize,
    /// Workspace width in pixels.
    pub width: i32,
    /// Number of observer notifications broadcast so far.
    pub version: u64,
}

// ---------------------------------------------------------------------------
// Spec-level views and lookups
// ---------------------------------------------------------------------------

/// The character sequences of a list of strings.
pub open spec fn views_of(s: Seq<String>) -> Seq<Seq<char>> {
    s.map_values(|x: String| x@)
}

/// The surface ids of a window list.
pub open spec fn window_ids(s: Seq<Window>) -> Seq<u64> {
    s.map_values(|w: Window| w.id)
}

/// The identifiers of an application list.
pub open spec fn app_identifiers(s: Seq<Application>) -> Seq<Seq<char>> {
    s.map_values(|a: Application| a.identifier@)
}

/// The app ids keying an app-to-windows index.
pub open spec fn map_app_ids(s: Seq<AppWindows>) -> Seq<Seq<char>> {
    s.map_values(|e: AppWindows| e.app_id@)
}

/// The view of an optional string.
pub open spec fn opt_view(o: Option<String>) -> Option<Seq<char>> {
    match o {
        Some(s) => Some(s@),
        None => None,
    }
}

/// First window with the given surface id.
pub open spec fn find_window(s: Seq<Window>, id: u64) -> Option<Window>
    decreases s.len(),
{
    if s.len() == 0 {
        None
    } else if s[0].id == id {
        Some(s[0])
    } else {
        find_window(s.drop_first(), id)
    }
}

/// First application with the given identifier.
pub open spec fn find_app(s: Seq<Application>, identifier: Seq<char>) -> Option<Application>
    decreases s.len(),
{
    if s.len() == 0 {
        None
    } else if s[0].identifier@ == identifier {
        Some(s[0])
    } else {
        find_app(s.drop_first(), identifier)
    }
}

/// The window list indexed under the given app id, empty when absent.
pub open spec fn lookup_app_windows(s: Seq<AppWindows>, app_id: Seq<char>) -> Seq<u64>
    decreases s.len(),
{
    if s.len() == 0 {
        Seq::empty()
    } else if s[0].app_id@ == app_id {
        s[0].windows@
    } else {
        lookup_app_windows(s.drop_first(), app_id)
    }
}

// ---------------------------------------------------------------------------
// Traversal lemmas: a scan that has excluded a prefix agrees with the whole
// ---------------------------------------------------------------------------

pub proof fn lemma_find_window_skip(s: Seq<Window>, id: u64, i: int)
    requires
        0 <= i <= s.len(),
        forall|j: int| 0 <= j < i ==> s[j].id != id,
    ensures
        find_window(s, id) == find_window(s.skip(i), id),
    decreases i,
{
    if i > 0 {
        lemma_find_window_skip(s, id, i - 1);
        assert(s.skip(i - 1)[0] == s[i - 1]);
        assert(s.skip(i - 1).drop_first() =~= s.skip(i));
    } else {
        assert(s.skip(0) =~= s);
    }
}

pub proof fn lemma_find_app_skip(s: Seq<Application>, identifier: Seq<char>, i: int)
    requires
        0 <= i <= s.len(),
        forall|j: int| 0 <= j < i ==> s[j].identifier@ != identifier,
    ensures
        find_app(s, identifier) == find_app(s.skip(i), identifier),
    decreases i,
{
    if i > 0 {
        lemma_find_app_skip(s, identifier, i - 1);
        assert(s.skip(i - 1)[0] == s[i - 1]);
        assert(s.skip(i - 1).drop_first() =~= s.skip(i));
    } else {
        assert(s.skip(0) =~= s);
    }
}

pub proof fn lemma_lookup_app_windows_skip(s: Seq<AppWindows>, app_id: Seq<char>, i: int)
    requires
        0 <= i <= s.len(),
        forall|j: int| 0 <= j < i ==> s[j].app_id@ != app_id,
    ensures
        lookup_app_windows(s, app_id) == lookup_app_windows(s.skip(i), app_id),
    decreases i,
{
    if i > 0 {
        lemma_lookup_app_windows_skip(s, app_id, i - 1);
        assert(s.skip(i - 1)[0] == s[i - 1]);
        assert(s.skip(i - 1).drop_first() =~= s.skip(i));
    } else {
        assert(s.skip(0) =~= s);
    }
}

/// A found index is what the whole-sequence lookup returns.
pub proof fn lemma_find_window_at(s: Seq<Window>, id: u64, i: int)
    requires
        0 <= i < s.len(),
        s[i].id == id,
        forall|j: int| 0 <= j < i ==> s[j].id != id,
    ensures
        find_window(s, id) == Some(s[i]),
{
    lemma_find_window_skip(s, id, i);
    assert(s.skip(i)[0] == s[i]);
}

pub proof fn lemma_find_app_at(s: Seq<Application>, identifier: Seq<char>, i: int)
    requires
        0 <= i < s.len(),
        s[i].identifier@ == identifier,
        forall|j: int| 0 <= j < i ==> s[j].identifier@ != identifier,
    ensures
        find_app(s, identifier) == Some(s[i]),
{
    lemma_find_app_skip(s, identifier, i);
    assert(s.skip(i)[0] == s[i]);
}

pub proof fn lemma_lookup_app_windows_at(s: Seq<AppWindows>, app_id: Seq<char>, i: int)
    requires
        0 <= i < s.len(),
        s[i].app_id@ == app_id,
        forall|j: int| 0 <= j < i ==> s[j].app_id@ != app_id,
    ensures
        lookup_app_windows(s, app_id) == s[i].windows@,
{
    lemma_lookup_app_windows_skip(s, app_id, i);
    assert(s.skip(i)[0] == s[i]);
}

// ---------------------------------------------------------------------------
// Executable helpers
// ---------------------------------------------------------------------------

/// String equality, exposed over the character-sequence views.
pub fn eq_string(a: &String, b: &String) -> (r: bool)
    ensures
        r == (a@ == b@),
{
    *a == *b
}

/// Equality of optional strings over their views.
pub fn eq_opt_string(a: &Option<String>, b: &Option<String>) -> (r: bool)
    ensures
        r == (opt_view(*a) == opt_view(*b)),
{
    match (a, b) {
        (Some(x), Some(y)) => {
            let r = eq_string(x, y);
            proof {
                if !r {
                    assert(opt_view(*a) != opt_view(*b));
                }
            }
            r
        },
        (None, None) => true,
        _ => false,
    }
}

/// Whether a string list contains the given value, by view.
pub fn string_list_contains(v: &Vec<String>, x: &String) -> (r: bool)
    ensures
        r == views_of(v@).contains(x@),
{
    let mut i: usize = 0;
    while i < v.len()
        invariant
            0 <= i <= v@.len(),
            forall|j: int| 0 <= j < i ==> v@[j]@ != x@,
        decreases v@.len() - i,
    {
        if eq_string(&v[i], x) {
            assert(views_of(v@)[i as int] == x@);
            return true;
        }
        i += 1;
    }
    assert forall|k: int| 0 <= k < views_of(v@).len() implies views_of(v@)[k] != x@ by {
        assert(views_of(v@)[k] == v@[k]@);
    }
    false
}

/// First position of the given value in a string list, by view.
pub fn string_list_position(v: &Vec<String>, x: &String) -> (r: Option<usize>)
    ensures
        match r {
            Some(i) => {
                &&& (i as int) < v@.len()
                &&& v@[i as int]@ == x@
                &&& forall|j: int| 0 <= j < i ==> v@[j]@ != x@
            },
            None => !views_of(v@).contains(x@),
        },
{
    let mut i: usize = 0;
    while i < v.len()
        invariant
            0 <= i <= v@.len(),
            forall|j: int| 0 <= j < i ==> v@[j]@ != x@,
        decreases v@.len() - i,
    {
        if eq_string(&v[i], x) {
            return Some(i);
        }
        i += 1;
    }
    assert forall|k: int| 0 <= k < views_of(v@).len() implies views_of(v@)[k] != x@ by {
        assert(views_of(v@)[k] == v@[k]@);
    }
    None
}

/// Whether an id list contains the given id.
pub fn id_list_contains(v: &Vec<u64>, x: u64) -> (r: bool)
    ensures
        r == v@.contains(x),
{
    let mut i: usize = 0;
    while i < v.len()
        invariant
            0 <= i <= v@.len(),
            forall|j: int| 0 <= j < i ==> v@[j] != x,
        decreases v@.len() - i,
    {
        if v[i] == x {
            return true;
        }
        i += 1;
    }
    false
}

// ---------------------------------------------------------------------------
// Update and push lemmas for the lookups
// ---------------------------------------------------------------------------

/// Updating index `i` to a window with the same id leaves every other
/// lookup unchanged.
pub proof fn lemma_find_window_update_other(s: Seq<Window>, i: int, w: Window, o: u64)
    requires
        0 <= i < s.len(),
        w.id == s[i].id,
        o != s[i].id,
    ensures
        find_window(s.update(i, w), o) == find_window(s, o),
    decreases s.len(),
{
    let t = s.update(i, w);
    if i == 0 {
        assert(t[0] == w);
        assert(t.drop_first() =~= s.drop_first());
    } else {
        assert(t[0] == s[0]);
        if s[0].id != o {
            assert(t.drop_first() =~= s.drop_first().update(i - 1, w));
            lemma_find_window_update_other(s.drop_first(), i - 1, w, o);
        }
    }
}

/// Appending a window changes only the lookup of its own id, and only when
/// that id was absent.
pub proof fn lemma_find_window_push(s: Seq<Window>, w: Window, o: u64)
    ensures
        find_window(s.push(w), o) == if find_window(s, o) is Some {
            find_window(s, o)
        } else if w.id == o {
            Some(w)
        } else {
            None::<Window>
        },
    decreases s.len(),
{
    if s.len() == 0 {
        assert(s.push(w)[0] == w);
        assert(s.push(w).drop_first() =~= Seq::<Window>::empty());
    } else {
        assert(s.push(w)[0] == s[0]);
        assert(s.push(w).drop_first() =~= s.drop_first().push(w));
        lemma_find_window_push(s.drop_first(), w, o);
    }
}

/// A found application carries the identifier it was looked up by.
pub proof fn lemma_find_app_id(s: Seq<Application>, identifier: Seq<char>)
    requires
        find_app(s, identifier) is Some,
    ensures
        find_app(s, identifier)->Some_0.identifier@ == identifier,
    decreases s.len(),
{
    if s.len() > 0 && s[0].identifier@ != identifier {
        lemma_find_app_id(s.drop_first(), identifier);
    }
}

pub proof fn lemma_find_app_update_other(s: Seq<Application>, i: int, a: Application, o: Seq<char>)
    requires
        0 <= i < s.len(),
        a.identifier@ == s[i].identifier@,
        o != s[i].identifier@,
    ensures
        find_app(s.update(i, a), o) == find_app(s, o),
    decreases s.len(),
{
    let t = s.update(i, a);
    if i == 0 {
        assert(t[0] == a);
        assert(t.drop_first() =~= s.drop_first());
    } else {
        assert(t[0] == s[0]);
        if s[0].identifier@ != o {
            assert(t.drop_first() =~= s.drop_first().update(i - 1, a));
            lemma_find_app_update_other(s.drop_first(), i - 1, a, o);
        }
    }
}

pub proof fn lemma_find_app_push(s: Seq<Application>, a: Application, o: Seq<char>)
    ensures
        find_app(s.push(a), o) == if find_app(s, o) is Some {
            find_app(s, o)
        } else if a.identifier@ == o {
            Some(a)
        } else {
            None::<Application>
        },
    decreases s.len(),
{
    if s.len() == 0 {
        assert(s.push(a)[0] == a);
        assert(s.push(a).drop_first() =~= Seq::<Application>::empty());
    } else {
        assert(s.push(a)[0] == s[0]);
        assert(s.push(a).drop_first() =~= s.drop_first().push(a));
        lemma_find_app_push(s.drop_first(), a, o);
    }
}

pub proof fn lemma_lookup_app_windows_update_other(
    s: Seq<AppWindows>,
    i: int,
    e: AppWindows,
    o: Seq<char>,
)
    requires
        0 <= i < s.len(),
        e.app_id@ == s[i].app_id@,
        o != s[i].app_id@,
    ensures
        lookup_app_windows(s.update(i, e), o) == lookup_app_windows(s, o),
    decreases s.len(),
{
    let t = s.update(i, e);
    if i == 0 {
        assert(t[0] == e);
        assert(t.drop_first() =~= s.drop_first());
    } else {
        assert(t[0] == s[0]);
        if s[0].app_id@ != o {
            assert(t.drop_first() =~= s.drop_first().update(i - 1, e));
            lemma_lookup_app_windows_update_other(s.drop_first(), i - 1, e, o);
        }
    }
}

pub proof fn lemma_lookup_app_windows_push(s: Seq<AppWindows>, e: AppWindows, o: Seq<char>)
    requires
        !map_app_ids(s).contains(e.app_id@),
    ensures
        lookup_app_windows(s.push(e), o) == if e.app_id@ == o {
            e.windows@
        } else {
            lookup_app_windows(s, o)
        },
    decreases s.len(),
{
    if s.len() == 0 {
        assert(s.push(e)[0] == e);
        assert(s.push(e).drop_first() =~= Seq::<AppWindows>::empty());
        assert(lookup_app_windows(Seq::<AppWindows>::empty(), o) =~= Seq::<u64>::empty());
        if e.app_id@ == o {
            assert(lookup_app_windows(s.push(e), o) == e.windows@);
        } else {
            assert(lookup_app_windows(s.push(e), o) == lookup_app_windows(
                Seq::<AppWindows>::empty(),
                o,
            ));
            assert(lookup_app_windows(s, o) =~= Seq::<u64>::empty());
        }
    } else {
        assert(s.push(e)[0] == s[0]);
        assert(s.push(e).drop_first() =~= s.drop_first().push(e));
        assert(map_app_ids(s)[0] == s[0].app_id@);
        assert forall|k: int| 0 <= k < s.drop_first().len() implies map_app_ids(s.drop_first())[k]
            != e.app_id@ by {
            assert(map_app_ids(s.drop_first())[k] == s[k + 1].app_id@);
            assert(map_app_ids(s)[k + 1] == s[k + 1].app_id@);
        }
        assert(!map_app_ids(s.drop_first()).contains(e.app_id@));
        if s[0].app_id@ == o {
            assert(e.app_id@ != o);
            assert(lookup_app_windows(s.push(e), o) == s[0].windows@);
            assert(lookup_app_windows(s, o) == s[0].windows@);
        } else {
            lemma_lookup_app_windows_push(s.drop_first(), e, o);
            assert(lookup_app_windows(s.push(e), o) == lookup_app_windows(
                s.drop_first().push(e),
                o,
            ));
            assert(lookup_app_windows(s, o) == lookup_app_windows(s.drop_first(), o));
        }
    }
}

impl Clone for Application {
    /// Clones preserve the value.
    fn clone(&self) -> (r: Application)
        ensures
            r == *self,
    {
        Application {
            identifier: self.identifier.clone(),
            desktop_name: match &self.desktop_name {
                Some(s) => Some(s.clone()),
                None => None,
            },
            icon_path: match &self.icon_path {
                Some(s) => Some(s.clone()),
                None => None,
            },
            icon: self.icon,
        }
    }
}

impl Clone for Window {
    /// Clones preserve the value.
    fn clone(&self) -> (r: Window)
        ensures
            r == *self,
    {
        Window {
            id: self.id,
            app_id: self.app_id.clone(),
            title: self.title.clone(),
            x: self.x,
            y: self.y,
            w: self.w,
            h: self.h,
            is_fullscreen: self.is_fullscreen,
            is_maximized: self.is_maximized,
            is_minimized: self.is_minimized,
            base_layer: self.base_layer,
        }
    }
}

impl Application {
    /// A placeholder application: the identifier alone, no desktop entry
    /// data yet.
    pub open spec fn is_placeholder(self, identifier: Seq<char>) -> bool {
        &&& self.identifier@ == identifier
        &&& self.desktop_name is None
        &&& self.icon_path is None
        &&& self.icon is None
    }

    /// Introduce the placeholder value.
    pub fn new(app_id: &str) -> (r: Application)
        ensures
            r.identifier@ == app_id@,
            r.desktop_name is None,
            r.icon_path is None,
            r.icon is None,
    {
        Application {
            identifier: app_id.to_owned(),
            desktop_name: None,
            icon_path: None,
            icon: None,
        }
    }
}

impl Window {
    /// A fresh window attached to a presentation layer: zero geometry, all
    /// flags clear.
    pub fn new_with_layer(id: u64, layer: u64) -> (r: Window)
        ensures
            r.id == id,
            r.base_layer == layer,
            r.app_id@ == Seq::<char>::empty(),
            r.title@ == Seq::<char>::empty(),
            r.x == 0 && r.y == 0 && r.w == 0 && r.h == 0,
            !r.is_fullscreen && !r.is_maximized && !r.is_minimized,
    {
        Window {
            id,
            app_id: String::new(),
            title: String::new(),
            x: 0,
            y: 0,
            w: 0,
            h: 0,
            is_fullscreen: false,
            is_maximized: false,
            is_minimized: false,
            base_layer: layer,
        }
    }

    /// The surface handle identifying this window.
    pub fn id(&self) -> (r: u64)
        ensures
            r == self.id,
    {
        self.id
    }
}

impl WorkspaceModel {
    /// Well-formedness of the store:
    /// - every key space (apps, windows, index entries) is duplicate-free;
    /// - every surface id held by `windows_list`, `minimized_windows` or an
    ///   `app_windows_map` entry has an entry in `windows_cache`;
    /// - every app id held by the two app orderings has an entry in
    ///   `applications_cache`;
    /// - minimized ids carry the minimized flag in the cache;
    /// - `current_application` indexes `zindex_application_list` whenever
    ///   the latter is non-empty.
    pub open spec fn wf(self) -> bool {
        &&& views_of(self.zindex_application_list@).no_duplicates()
        &&& views_of(self.application_list@).no_duplicates()
        &&& app_identifiers(self.applications_cache@).no_duplicates()
        &&& window_ids(self.windows_cache@).no_duplicates()
        &&& map_app_ids(self.app_windows_map@).no_duplicates()
        &&& self.minimized_windows@.no_duplicates()
        &&& (self.zindex_application_list@.len() > 0 ==> (self.current_application as int)
            < self.zindex_application_list@.len())
        &&& (forall|i: int|
            0 <= i < self.windows_list@.len() ==> find_window(
                self.windows_cache@,
                #[trigger] self.windows_list@[i],
            ) is Some)
        &&& (forall|i: int|
            0 <= i < self.minimized_windows@.len() ==> match find_window(
                self.windows_cache@,
                #[trigger] self.minimized_windows@[i],
            ) {
                Some(w) => w.is_minimized,
                None => false,
            })
        &&& (forall|i: int, j: int|
            0 <= i < self.app_windows_map@.len() && 0 <= j
                < self.app_windows_map@[i].windows@.len() ==> find_window(
                self.windows_cache@,
                #[trigger] self.app_windows_map@[i].windows@[j],
            ) is Some)
        &&& (forall|i: int|
            0 <= i < self.application_list@.len() ==> find_app(
                self.applications_cache@,
                (#[trigger] self.application_list@[i])@,
            ) is Some)
        &&& (forall|i: int|
            0 <= i < self.zindex_application_list@.len() ==> find_app(
                self.applications_cache@,
                (#[trigger] self.zindex_application_list@[i])@,
            ) is Some)
    }

    /// An empty store.
    pub fn new() -> (m: WorkspaceModel)
        ensures
            m.wf(),
            m.applications_cache@ =~= Seq::<Application>::empty(),
            m.windows_cache@ =~= Seq::<Window>::empty(),
            m.app_windows_map@ =~= Seq::<AppWindows>::empty(),
            m.zindex_application_list@ =~= Seq::<String>::empty(),
            m.application_list@ =~= Seq::<String>::empty(),
            m.windows_list@ =~= Seq::<u64>::empty(),
            m.minimized_windows@ =~= Seq::<u64>::empty(),
            m.current_application == 0,
            m.width == 0,
            m.version == 0,
    {
        WorkspaceModel {
            applications_cache: Vec::new(),
            windows_cache: Vec::new(),
            app_windows_map: Vec::new(),
            zindex_application_list: Vec::new(),
            application_list: Vec::new(),
            windows_list: Vec::new(),
            minimized_windows: Vec::new(),
            current_application: 0,
            width: 0,
            version: 0,
        }
    }

    /// Index of the cached window with the given surface id.
    pub fn find_window_index(&self, id: u64) -> (r: Option<usize>)
        ensures
            match r {
                Some(i) => {
                    &&& (i as int) < self.windows_cache@.len()
                    &&& self.windows_cache@[i as int].id == id
                    &&& (forall|j: int| 0 <= j < i ==> self.windows_cache@[j].id != id)
                    &&& find_window(self.windows_cache@, id) == Some(
                        self.windows_cache@[i as int],
                    )
                },
                None => find_window(self.windows_cache@, id) is None,
            },
    {
        let mut i: usize = 0;
        while i < self.windows_cache.len()
            invariant
                0 <= i <= self.windows_cache@.len(),
                forall|j: int| 0 <= j < i ==> self.windows_cache@[j].id != id,
            decreases self.windows_cache@.len() - i,
        {
            if self.windows_cache[i].id == id {
                proof {
                    lemma_find_window_at(self.windows_cache@, id, i as int);
                }
                return Some(i);
            }
            i += 1;
        }
        proof {
            lemma_find_window_skip(self.windows_cache@, id, self.windows_cache@.len() as int);
            assert(self.windows_cache@.skip(self.windows_cache@.len() as int) =~= Seq::<
                Window,
            >::empty());
        }
        None
    }

    /// Index of the cached application with the given identifier.
    pub fn find_app_index(&self, app_id: &String) -> (r: Option<usize>)
        ensures
            match r {
                Some(i) => {
                    &&& (i as int) < self.applications_cache@.len()
                    &&& self.applications_cache@[i as int].identifier@ == app_id@
                    &&& (forall|j: int|
                        0 <= j < i ==> self.applications_cache@[j].identifier@ != app_id@)
                    &&& find_app(self.applications_cache@, app_id@) == Some(
                        self.applications_cache@[i as int],
                    )
                },
                None => find_app(self.applications_cache@, app_id@) is None,
            },
    {
        let mut i: usize = 0;
        while i < self.applications_cache.len()
            invariant
                0 <= i <= self.applications_cache@.len(),
                forall|j: int| 0 <= j < i ==> self.applications_cache@[j].identifier@ != app_id@,
            decreases self.applications_cache@.len() - i,
        {
            if eq_string(&self.applications_cache[i].identifier, app_id) {
                proof {
                    lemma_find_app_at(self.applications_cache@, app_id@, i as int);
                }
                return Some(i);
            }
            i += 1;
        }
        proof {
            lemma_find_app_skip(
                self.applications_cache@,
                app_id@,
                self.applications_cache@.len() as int,
            );
            assert(self.applications_cache@.skip(self.applications_cache@.len() as int) =~= Seq::<
                Application,
            >::empty());
        }
        None
    }

    /// Index of the app-to-windows entry for the given app id.
    pub fn find_app_windows_index(&self, app_id: &String) -> (r: Option<usize>)
        ensures
            match r {
                Some(i) => {
                    &&& (i as int) < self.app_windows_map@.len()
                    &&& self.app_windows_map@[i as int].app_id@ == app_id@
                    &&& (forall|j: int|
                        0 <= j < i ==> self.app_windows_map@[j].app_id@ != app_id@)
                    &&& lookup_app_windows(self.app_windows_map@, app_id@)
                        == self.app_windows_map@[i as int].windows@
                },
                None => !map_app_ids(self.app_windows_map@).contains(app_id@)
                    && lookup_app_windows(self.app_windows_map@, app_id@) =~= Seq::<u64>::empty(),
            },
    {
        let mut i: usize = 0;
        while i < self.app_windows_map.len()
            invariant
                0 <= i <= self.app_windows_map@.len(),
                forall|j: int| 0 <= j < i ==> self.app_windows_map@[j].app_id@ != app_id@,
            decreases self.app_windows_map@.len() - i,
        {
            if eq_string(&self.app_windows_map[i].app_id, app_id) {
                proof {
                    lemma_lookup_app_windows_at(self.app_windows_map@, app_id@, i as int);
                }
                return Some(i);
            }
            i += 1;
        }
        proof {
            lemma_lookup_app_windows_skip(
                self.app_windows_map@,
                app_id@,
                self.app_windows_map@.len() as int,
            );
            assert(self.app_windows_map@.skip(self.app_windows_map@.len() as int) =~= Seq::<
                AppWindows,
            >::empty());
            assert forall|k: int| 0 <= k < map_app_ids(self.app_windows_map@).len() implies
                map_app_ids(self.app_windows_map@)[k] != app_id@ by {
                assert(map_app_ids(self.app_windows_map@)[k] == self.app_windows_map@[k].app_id@);
            }
        }
        None
    }

    /// The ordered surface ids of the given application, empty when the
    /// app is unknown.
    pub fn get_app_windows(&self, app_id: &String) -> (r: Vec<u64>)
        ensures
            r@ == lookup_app_windows(self.app_windows_map@, app_id@),
    {
        match self.find_app_windows_index(app_id) {
            Some(i) => {
                let r = self.app_windows_map[i].windows.clone();
                assert(r@ =~= self.app_windows_map@[i as int].windows@);
                r
            },
            None => {
                let r: Vec<u64> = Vec::new();
                assert(r@ =~= lookup_app_windows(self.app_windows_map@, app_id@));
                r
            },
        }
    }

    /// The current application, if any. An empty z-index list means there
    /// is no current application.
    pub fn get_current_app(&self) -> (r: Option<Application>)
        requires
            self.wf(),
        ensures
            match r {
                Some(a) => {
                    &&& self.zindex_application_list@.len() > 0
                    &&& find_app(
                        self.applications_cache@,
                        self.zindex_application_list@[self.current_application as int]@,
                    ) == Some(a)
                },
                None => self.zindex_application_list@.len() == 0,
            },
    {
        if self.zindex_application_list.len() == 0 {
            return None;
        }
        let app_id = &self.zindex_application_list[self.current_application];
        match self.find_app_index(app_id) {
            Some(i) => Some(self.applications_cache[i].clone()),
            None => {
                proof {
                    assert(find_app(self.applications_cache@, app_id@) is Some);
                }
                None
            },
        }
    }

    /// The ordered surface ids of the current application.
    pub fn get_current_app_windows(&self) -> (r: Vec<u64>)
        requires
            self.wf(),
        ensures
            self.zindex_application_list@.len() > 0 ==> r@ == lookup_app_windows(
                self.app_windows_map@,
                self.zindex_application_list@[self.current_application as int]@,
            ),
            self.zindex_application_list@.len() == 0 ==> r@ =~= Seq::<u64>::empty(),
    {
        match self.get_current_app() {
            Some(app) => {
                proof {
                    lemma_find_app_id(
                        self.applications_cache@,
                        self.zindex_application_list@[self.current_application as int]@,
                    );
                }
                let r = self.get_app_windows(&app.identifier);
                r
            },
            None => Vec::new(),
        }
    }

    /// The cached window for a surface id.
    pub fn get_window_for_surface(&self, id: u64) -> (r: Option<Window>)
        ensures
            r == find_window(self.windows_cache@, id),
    {
        match self.find_window_index(id) {
            Some(i) => Some(self.windows_cache[i].clone()),
            None => None,
        }
    }

    /// Whether the window with this surface id is currently minimized.
    pub fn is_window_minimized(&self, id: u64) -> (r: bool)
        ensures
            r == match find_window(self.windows_cache@, id) {
                Some(w) => w.is_minimized,
                None => false,
            },
    {
        match self.find_window_index(id) {
            Some(i) => self.windows_cache[i].is_minimized,
            None => false,
        }
    }
}

// ---------------------------------------------------------------------------
// Absence lemmas and filter helpers
// ---------------------------------------------------------------------------

/// A window lookup misses exactly when the id is absent.
pub proof fn lemma_find_window_none_iff(s: Seq<Window>, id: u64)
    ensures
        find_window(s, id) is None <==> !window_ids(s).contains(id),
    decreases s.len(),
{
    if s.len() > 0 {
        assert(window_ids(s)[0] == s[0].id);
        lemma_find_window_none_iff(s.drop_first(), id);
        assert forall|k: int| 0 <= k < s.drop_first().len() implies #[trigger] window_ids(
            s.drop_first(),
        )[k] == window_ids(s)[k + 1] by {}
        if s[0].id != id {
            if window_ids(s).contains(id) {
                let k = choose|k: int|
                    0 <= k < window_ids(s).len() && window_ids(s)[k] == id;
                assert(window_ids(s.drop_first())[k - 1] == id);
            }
            if window_ids(s.drop_first()).contains(id) {
                let k = choose|k: int|
                    0 <= k < window_ids(s.drop_first()).len() && window_ids(s.drop_first())[k]
                        == id;
                assert(window_ids(s)[k + 1] == id);
            }
        }
    }
}

/// An application lookup misses exactly when the identifier is absent.
pub proof fn lemma_find_app_none_iff(s: Seq<Application>, identifier: Seq<char>)
    ensures
        find_app(s, identifier) is None <==> !app_identifiers(s).contains(identifier),
    decreases s.len(),
{
    if s.len() > 0 {
        assert(app_identifiers(s)[0] == s[0].identifier@);
        lemma_find_app_none_iff(s.drop_first(), identifier);
        assert forall|k: int| 0 <= k < s.drop_first().len() implies #[trigger] app_identifiers(
            s.drop_first(),
        )[k] == app_identifiers(s)[k + 1] by {}
        if s[0].identifier@ != identifier {
            if app_identifiers(s).contains(identifier) {
                let k = choose|k: int|
                    0 <= k < app_identifiers(s).len() && app_identifiers(s)[k] == identifier;
                assert(app_identifiers(s.drop_first())[k - 1] == identifier);
            }
            if app_identifiers(s.drop_first()).contains(identifier) {
                let k = choose|k: int|
                    0 <= k < app_identifiers(s.drop_first()).len() && app_identifiers(
                        s.drop_first(),
                    )[k] == identifier;
                assert(app_identifiers(s)[k + 1] == identifier);
            }
        }
    }
}

/// The ids of a minimized list with one id removed.
pub open spec fn ids_without(s: Seq<u64>, id: u64) -> Seq<u64> {
    s.filter(|x: u64| x != id)
}

/// Filtering for a value that does not occur is the identity.
pub proof fn lemma_ids_without_absent(s: Seq<u64>, id: u64)
    requires
        !s.contains(id),
    ensures
        ids_without(s, id) == s,
    decreases s.len(),
{
    reveal_with_fuel(Seq::filter, 2);
    if s.len() > 0 {
        assert(!s.drop_last().contains(id)) by {
            if s.drop_last().contains(id) {
                let k = choose|k: int|
                    0 <= k < s.drop_last().len() && s.drop_last()[k] == id;
                assert(s[k] == id);
            }
        }
        lemma_ids_without_absent(s.drop_last(), id);
        assert(s.last() != id);
        assert(ids_without(s, id) =~= s);
    } else {
        assert(ids_without(s, id) =~= s);
    }
}

/// Removing an id that was just pushed onto a list where it did not occur
/// gives the original list back.
pub proof fn lemma_ids_without_push(s: Seq<u64>, id: u64)
    requires
        !s.contains(id),
    ensures
        ids_without(s.push(id), id) == s,
{
    reveal_with_fuel(Seq::filter, 2);
    assert(s.push(id).drop_last() =~= s);
    lemma_ids_without_absent(s, id);
}

/// Drop every occurrence of one id from a list.
pub fn remove_id(v: &Vec<u64>, id: u64) -> (r: Vec<u64>)
    ensures
        r@ == ids_without(v@, id),
{
    let mut kept: Vec<u64> = Vec::new();
    let mut i: usize = 0;
    proof {
        assert(v@.take(0) =~= Seq::<u64>::empty());
        reveal_with_fuel(Seq::filter, 2);
        assert(kept@ =~= ids_without(v@.take(0), id));
    }
    while i < v.len()
        invariant
            0 <= i <= v@.len(),
            kept@ == ids_without(v@.take(i as int), id),
        decreases v@.len() - i,
    {
        proof {
            reveal_with_fuel(Seq::filter, 2);
            assert(v@.take(i as int + 1).drop_last() =~= v@.take(i as int));
            assert(v@.take(i as int + 1).last() == v@[i as int]);
        }
        if v[i] != id {
            kept.push(v[i]);
        }
        i += 1;
    }
    proof {
        assert(v@.take(v@.len() as int) =~= v@);
    }
    kept
}

// ---------------------------------------------------------------------------
// Mutation post predicates
// ---------------------------------------------------------------------------

/// A window updated from the latest per-frame report: fresh geometry,
/// title and fullscreen flag, everything else kept.
pub open spec fn patched_window(w: Window, st: WindowViewBaseModel) -> Window {
    Window {
        x: st.x,
        y: st.y,
        w: st.w,
        h: st.h,
        title: st.title,
        is_fullscreen: st.fullscreen,
        ..w
    }
}

/// The window cache after remapping `id` to `w`: same id sequence, the
/// lookup of `id` gives `w`, every other lookup is unchanged.
pub open spec fn cache_updated_at(pre: Seq<Window>, post: Seq<Window>, id: u64, w: Window) -> bool {
    &&& window_ids(post) == window_ids(pre)
    &&& find_window(post, id) == Some(w)
    &&& forall|o: u64| o != id ==> find_window(post, o) == find_window(pre, o)
}

/// Everything except the window cache, the minimized list and the version
/// agrees between the two states.
pub open spec fn same_except_windows(pre: WorkspaceModel, post: WorkspaceModel) -> bool {
    &&& post.applications_cache == pre.applications_cache
    &&& post.app_windows_map == pre.app_windows_map
    &&& post.zindex_application_list == pre.zindex_application_list
    &&& post.application_list == pre.application_list
    &&& post.windows_list == pre.windows_list
    &&& post.current_application == pre.current_application
    &&& post.width == pre.width
}

/// Effect of an in-place geometry patch: the reported window is updated in
/// the cache, nothing else moves, and no notification is broadcast.
pub open spec fn update_window_post(
    pre: WorkspaceModel,
    id: u64,
    st: WindowViewBaseModel,
    post: WorkspaceModel,
) -> bool {
    match find_window(pre.windows_cache@, id) {
        Some(w) => {
            &&& cache_updated_at(pre.windows_cache@, post.windows_cache@, id, patched_window(w, st))
            &&& same_except_windows(pre, post)
            &&& post.minimized_windows == pre.minimized_windows
            &&& post.version == pre.version
        },
        None => post == pre,
    }
}

/// Effect of minimizing a window: the cached flag is set, the id joins the
/// minimized list, and one notification is broadcast. Minimizing an
/// unknown or already-minimized window is a checked no-op.
pub open spec fn minimize_post(pre: WorkspaceModel, id: u64, post: WorkspaceModel) -> bool {
    match find_window(pre.windows_cache@, id) {
        Some(w) => {
            if !w.is_minimized {
                &&& cache_updated_at(
                    pre.windows_cache@,
                    post.windows_cache@,
                    id,
                    (Window { is_minimized: true, ..w }),
                )
                &&& post.minimized_windows@ == pre.minimized_windows@.push(id)
                &&& same_except_windows(pre, post)
                &&& post.version == pre.version + 1
            } else {
                post == pre
            }
        },
        None => post == pre,
    }
}

/// Effect of unminimizing a window: the cached flag is cleared, the id
/// leaves the minimized list, and one notification is broadcast.
/// Unminimizing an unknown or non-minimized window is a checked no-op.
pub open spec fn unminimize_post(pre: WorkspaceModel, id: u64, post: WorkspaceModel) -> bool {
    match find_window(pre.windows_cache@, id) {
        Some(w) => {
            if w.is_minimized {
                &&& cache_updated_at(
                    pre.windows_cache@,
                    post.windows_cache@,
                    id,
                    (Window { is_minimized: false, ..w }),
                )
                &&& post.minimized_windows@ == ids_without(pre.minimized_windows@, id)
                &&& same_except_windows(pre, post)
                &&& post.version == pre.version + 1
            } else {
                post == pre
            }
        },
        None => post == pre,
    }
}

/// Effect of publishing one desktop-entry resolution for `app_id`: when
/// the resolved icon path differs from the cached one (a missing cache
/// entry counts as no icon path), the entry is created or enriched in
/// place and one notification is broadcast; otherwise nothing changes.
pub open spec fn apply_app_info_post(
    pre: WorkspaceModel,
    app_id: Seq<char>,
    desktop_name: Option<String>,
    icon_path: Option<String>,
    icon: Option<u64>,
    post: WorkspaceModel,
    changed: bool,
) -> bool {
    let cur_path = match find_app(pre.applications_cache@, app_id) {
        Some(a) => opt_view(a.icon_path),
        None => None,
    };
    if opt_view(icon_path) != cur_path {
        &&& changed
        &&& (match find_app(post.applications_cache@, app_id) {
            Some(a) => {
                &&& a.identifier@ == app_id
                &&& a.desktop_name == desktop_name
                &&& a.icon_path == icon_path
                &&& a.icon == icon
            },
            None => false,
        })
        &&& (forall|o: Seq<char>|
            o != app_id ==> find_app(post.applications_cache@, o) == find_app(
                pre.applications_cache@,
                o,
            ))
        &&& post.windows_cache == pre.windows_cache
        &&& post.app_windows_map == pre.app_windows_map
        &&& post.zindex_application_list == pre.zindex_application_list
        &&& post.application_list == pre.application_list
        &&& post.windows_list == pre.windows_list
        &&& post.minimized_windows == pre.minimized_windows
        &&& post.current_application == pre.current_application
        &&& post.width == pre.width
        &&& post.version == pre.version + 1
    } else {
        &&& !changed
        &&& post == pre
    }
}

impl WorkspaceModel {
    /// Patch one window's geometry, title and fullscreen flag from a fresh
    /// per-frame report. High-frequency path: broadcasts no notification.
    pub fn update_window(&mut self, id: u64, st: &WindowViewBaseModel)
        requires
            old(self).wf(),
        ensures
            final(self).wf(),
            update_window_post(*old(self), id, *st, *final(self)),
    {
        match self.find_window_index(id) {
            Some(i) => {
                let new_w = {
                    let w = &self.windows_cache[i];
                    Window {
                        id: w.id,
                        app_id: w.app_id.clone(),
                        title: st.title.clone(),
                        x: st.x,
                        y: st.y,
                        w: st.w,
                        h: st.h,
                        is_fullscreen: st.fullscreen,
                        is_maximized: w.is_maximized,
                        is_minimized: w.is_minimized,
                        base_layer: w.base_layer,
                    }
                };
                proof {
                    assert(new_w == patched_window(
                        old(self).windows_cache@[i as int],
                        *st,
                    ));
                }
                self.windows_cache.set(i, new_w);
                proof {
                    self.lemma_after_cache_update(*old(self), i as int, new_w, id);
                }
            },
            None => {},
        }
    }

    /// Mark a window minimized and record it in the minimized list; one
    /// notification is broadcast. Returns whether the state changed.
    pub fn minimize_window(&mut self, id: u64) -> (changed: bool)
        requires
            old(self).wf(),
            old(self).version < u64::MAX,
        ensures
            final(self).wf(),
            minimize_post(*old(self), id, *final(self)),
            changed == match find_window(old(self).windows_cache@, id) {
                Some(w) => !w.is_minimized,
                None => false,
            },
    {
        match self.find_window_index(id) {
            Some(i) => {
                if self.windows_cache[i].is_minimized {
                    return false;
                }
                let new_w = {
                    let w = &self.windows_cache[i];
                    Window {
                        id: w.id,
                        app_id: w.app_id.clone(),
                        title: w.title.clone(),
                        x: w.x,
                        y: w.y,
                        w: w.w,
                        h: w.h,
                        is_fullscreen: w.is_fullscreen,
                        is_maximized: w.is_maximized,
                        is_minimized: true,
                        base_layer: w.base_layer,
                    }
                };
                proof {
                    assert(new_w == (Window {
                        is_minimized: true,
                        ..old(self).windows_cache@[i as int]
                    }));
                    // the id cannot already be in the minimized list, since
                    // its cached flag is clear
                    if old(self).minimized_windows@.contains(id) {
                        let k = choose|k: int|
                            0 <= k < old(self).minimized_windows@.len() && old(
                                self,
                            ).minimized_windows@[k] == id;
                        lemma_find_window_at(old(self).windows_cache@, id, i as int);
                        assert(false);
                    }
                }
                self.windows_cache.set(i, new_w);
                self.minimized_windows.push(id);
                self.version = self.version + 1;
                proof {
                    let mid = WorkspaceModel {
                        minimized_windows: old(self).minimized_windows,
                        version: old(self).version,
                        ..*self
                    };
                    mid.lemma_after_cache_update(*old(self), i as int, new_w, id);
                    assert(self.minimized_windows@ == old(self).minimized_windows@.push(id));
                    assert forall|k: int|
                        0 <= k < self.minimized_windows@.len() implies match find_window(
                        self.windows_cache@,
                        #[trigger] self.minimized_windows@[k],
                    ) {
                        Some(w) => w.is_minimized,
                        None => false,
                    } by {
                        let mw = self.minimized_windows@[k];
                        if k < old(self).minimized_windows@.len() {
                            assert(old(self).minimized_windows@[k] == mw);
                            if mw != id {
                                assert(find_window(self.windows_cache@, mw) == find_window(
                                    old(self).windows_cache@,
                                    mw,
                                ));
                            }
                        } else {
                            assert(mw == id);
                        }
                    }
                    assert(self.minimized_windows@.no_duplicates());
                }
                true
            },
            None => false,
        }
    }

    /// Clear a window's minimized flag and drop it from the minimized
    /// list; one notification is broadcast. Returns whether the state
    /// changed.
    pub fn unminimize_window(&mut self, id: u64) -> (changed: bool)
        requires
            old(self).wf(),
            old(self).version < u64::MAX,
        ensures
            final(self).wf(),
            unminimize_post(*old(self), id, *final(self)),
            changed == match find_window(old(self).windows_cache@, id) {
                Some(w) => w.is_minimized,
                None => false,
            },
    {
        match self.find_window_index(id) {
            Some(i) => {
                if !self.windows_cache[i].is_minimized {
                    return false;
                }
                let new_w = {
                    let w = &self.windows_cache[i];
                    Window {
                        id: w.id,
                        app_id: w.app_id.clone(),
                        title: w.title.clone(),
                        x: w.x,
                        y: w.y,
                        w: w.w,
                        h: w.h,
                        is_fullscreen: w.is_fullscreen,
                        is_maximized: w.is_maximized,
                        is_minimized: false,
                        base_layer: w.base_layer,
                    }
                };
                proof {
                    assert(new_w == (Window {
                        is_minimized: false,
                        ..old(self).windows_cache@[i as int]
                    }));
                }
                self.windows_cache.set(i, new_w);
                let kept = remove_id(&self.minimized_windows, id);
                self.minimized_windows = kept;
                self.version = self.version + 1;
                proof {
                    let mid = WorkspaceModel {
                        minimized_windows: old(self).minimized_windows,
                        version: old(self).version,
                        ..*self
                    };
                    mid.lemma_after_cache_update(*old(self), i as int, new_w, id);
                    // the filtered minimized list keeps its properties
                    let pre_min = old(self).minimized_windows@;
                    lemma_ids_without_props(pre_min, id);
                    assert forall|k: int|
                        0 <= k < self.minimized_windows@.len() implies match find_window(
                        self.windows_cache@,
                        #[trigger] self.minimized_windows@[k],
                    ) {
                        Some(w) => w.is_minimized,
                        None => false,
                    } by {
                        let mw = self.minimized_windows@[k];
                        assert(mw != id);
                        assert(pre_min.contains(mw));
                        let k0 = choose|k0: int| 0 <= k0 < pre_min.len() && pre_min[k0] == mw;
                        assert(match find_window(old(self).windows_cache@, mw) {
                            Some(w) => w.is_minimized,
                            None => false,
                        });
                        assert(find_window(self.windows_cache@, mw) == find_window(
                            old(self).windows_cache@,
                            mw,
                        ));
                    }
                    assert(self.minimized_windows@.no_duplicates());
                }
                true
            },
            None => false,
        }
    }

    /// Publish the result of one asynchronous desktop-entry resolution:
    /// when the resolved icon path differs from the cached one, enrich (or
    /// create) the application entry and broadcast one notification;
    /// otherwise leave the store untouched. Returns whether the state
    /// changed.
    pub fn apply_app_info(
        &mut self,
        app_id: &String,
        desktop_name: Option<String>,
        icon_path: Option<String>,
        icon: Option<u64>,
    ) -> (changed: bool)
        requires
            old(self).wf(),
            old(self).version < u64::MAX,
        ensures
            final(self).wf(),
            apply_app_info_post(
                *old(self),
                app_id@,
                desktop_name,
                icon_path,
                icon,
                *final(self),
                changed,
            ),
    {
        match self.find_app_index(app_id) {
            Some(i) => {
                if eq_opt_string(&self.applications_cache[i].icon_path, &icon_path) {
                    return false;
                }
                let new_app = {
                    let a = &self.applications_cache[i];
                    Application { identifier: a.identifier.clone(), desktop_name, icon_path, icon }
                };
                proof {
                    assert(new_app.identifier@ == old(self).applications_cache@[i as int]
                        .identifier@);
                }
                self.applications_cache.set(i, new_app);
                self.version = self.version + 1;
                proof {
                    let preA = old(self).applications_cache@;
                    let postA = self.applications_cache@;
                    assert(app_identifiers(postA) =~= app_identifiers(preA));
                    assert(forall|j: int| 0 <= j < i ==> postA[j].identifier@ != app_id@);
                    lemma_find_app_at(postA, app_id@, i as int);
                    assert forall|o: Seq<char>| o != app_id@ implies find_app(postA, o)
                        == find_app(preA, o) by {
                        lemma_find_app_update_other(preA, i as int, new_app, o);
                    }
                    assert forall|k: int|
                        0 <= k < self.application_list@.len() implies find_app(
                        postA,
                        (#[trigger] self.application_list@[k])@,
                    ) is Some by {
                        if self.application_list@[k]@ != app_id@ {
                            assert(find_app(postA, self.application_list@[k]@) == find_app(
                                preA,
                                self.application_list@[k]@,
                            ));
                        }
                    }
                    assert forall|k: int|
                        0 <= k < self.zindex_application_list@.len() implies find_app(
                        postA,
                        (#[trigger] self.zindex_application_list@[k])@,
                    ) is Some by {
                        if self.zindex_application_list@[k]@ != app_id@ {
                            assert(find_app(postA, self.zindex_application_list@[k]@) == find_app(
                                preA,
                                self.zindex_application_list@[k]@,
                            ));
                        }
                    }
                }
                true
            },
            None => {
                if icon_path.is_none() {
                    return false;
                }
                let new_app = Application {
                    identifier: app_id.clone(),
                    desktop_name,
                    icon_path,
                    icon,
                };
                self.applications_cache.push(new_app);
                self.version = self.version + 1;
                proof {
                    let preA = old(self).applications_cache@;
                    let postA = self.applications_cache@;
                    lemma_find_app_none_iff(preA, app_id@);
                    assert forall|o: Seq<char>| find_app(postA, o) == (if find_app(preA, o)
                        is Some {
                        find_app(preA, o)
                    } else if new_app.identifier@ == o {
                        Some(new_app)
                    } else {
                        None::<Application>
                    }) by {
                        lemma_find_app_push(preA, new_app, o);
                    }
                    assert(app_identifiers(postA) =~= app_identifiers(preA).push(app_id@));
                    assert forall|a: int, b: int|
                        0 <= a < b < app_identifiers(postA).len() implies app_identifiers(postA)[a]
                        != app_identifiers(postA)[b] by {
                        if b < app_identifiers(preA).len() {
                            assert(app_identifiers(postA)[a] == app_identifiers(preA)[a]);
                            assert(app_identifiers(postA)[b] == app_identifiers(preA)[b]);
                        } else {
                            assert(app_identifiers(postA)[b] == app_id@);
                            assert(app_identifiers(postA)[a] == app_identifiers(preA)[a]);
                            assert(app_identifiers(preA).contains(app_identifiers(preA)[a]));
                        }
                    }
                }
                true
            },
        }
    }

    /// After `windows_cache.set(i, w)` with an id-preserving `w`: restate
    /// the whole invariant and the pointwise cache change.
    proof fn lemma_after_cache_update(self, pre: WorkspaceModel, i: int, w: Window, id: u64)
        requires
            pre.wf(),
            0 <= i < pre.windows_cache@.len(),
            pre.windows_cache@[i].id == id,
            forall|j: int| 0 <= j < i ==> pre.windows_cache@[j].id != id,
            w.id == id,
            self.windows_cache@ == pre.windows_cache@.update(i, w),
            self.applications_cache == pre.applications_cache,
            self.app_windows_map == pre.app_windows_map,
            self.zindex_application_list == pre.zindex_application_list,
            self.application_list == pre.application_list,
            self.windows_list == pre.windows_list,
            self.current_application == pre.current_application,
        ensures
            cache_updated_at(pre.windows_cache@, self.windows_cache@, id, w),
            window_ids(self.windows_cache@).no_duplicates(),
            forall|k: int|
                0 <= k < self.windows_list@.len() ==> find_window(
                    self.windows_cache@,
                    #[trigger] self.windows_list@[k],
                ) is Some,
            forall|k: int, j: int|
                0 <= k < self.app_windows_map@.len() && 0 <= j
                    < self.app_windows_map@[k].windows@.len() ==> find_window(
                    self.windows_cache@,
                    #[trigger] self.app_windows_map@[k].windows@[j],
                ) is Some,
            views_of(self.zindex_application_list@).no_duplicates(),
            views_of(self.application_list@).no_duplicates(),
            app_identifiers(self.applications_cache@).no_duplicates(),
            map_app_ids(self.app_windows_map@).no_duplicates(),
            (self.zindex_application_list@.len() > 0 ==> (self.current_application as int)
                < self.zindex_application_list@.len()),
            forall|k: int|
                0 <= k < self.application_list@.len() ==> find_app(
                    self.applications_cache@,
                    (#[trigger] self.application_list@[k])@,
                ) is Some,
            forall|k: int|
                0 <= k < self.zindex_application_list@.len() ==> find_app(
                    self.applications_cache@,
                    (#[trigger] self.zindex_application_list@[k])@,
                ) is Some,
    {
        let preC = pre.windows_cache@;
        let postC = self.windows_cache@;
        assert(window_ids(postC) =~= window_ids(preC));
        assert(forall|j: int| 0 <= j < i ==> postC[j].id != id);
        lemma_find_window_at(postC, id, i);
        assert forall|o: u64| o != id implies find_window(postC, o) == find_window(preC, o) by {
            lemma_find_window_update_other(preC, i, w, o);
        }
        assert forall|k: int|
            0 <= k < self.windows_list@.len() implies find_window(
            postC,
            #[trigger] self.windows_list@[k],
        ) is Some by {
            let wid = self.windows_list@[k];
            if wid != id {
                assert(find_window(postC, wid) == find_window(preC, wid));
            }
        }
        assert forall|k: int, j: int|
            0 <= k < self.app_windows_map@.len() && 0 <= j
                < self.app_windows_map@[k].windows@.len() implies find_window(
            postC,
            #[trigger] self.app_windows_map@[k].windows@[j],
        ) is Some by {
            let wid = self.app_windows_map@[k].windows@[j];
            if wid != id {
                assert(find_window(postC, wid) == find_window(preC, wid));
            }
        }
    }
}

/// Minimize / unminimize round trip: minimizing a window and then
/// unminimizing it restores every cached window to its initial value (in
/// particular the window itself, with its minimized flag clear), leaves
/// the minimized list as it was — without the window — and broadcasts
/// exactly two notifications, one per operation.
pub proof fn lemma_minimize_unminimize_round_trip(
    m0: WorkspaceModel,
    m1: WorkspaceModel,
    m2: WorkspaceModel,
    id: u64,
)
    requires
        m0.wf(),
        match find_window(m0.windows_cache@, id) {
            Some(w) => !w.is_minimized,
            None => false,
        },
        minimize_post(m0, id, m1),
        unminimize_post(m1, id, m2),
    ensures
        forall|o: u64| find_window(m2.windows_cache@, o) == find_window(m0.windows_cache@, o),
        match find_window(m2.windows_cache@, id) {
            Some(w) => !w.is_minimized,
            None => false,
        },
        m2.minimized_windows@ == m0.minimized_windows@,
        !m2.minimized_windows@.contains(id),
        m2.version == m0.version + 2,
        same_except_windows(m0, m2),
{
    let w = find_window(m0.windows_cache@, id)->Some_0;
    let w1 = Window { is_minimized: true, ..w };
    assert(find_window(m1.windows_cache@, id) == Some(w1));
    let w2 = Window { is_minimized: false, ..w1 };
    assert(w2 == w);
    assert(find_window(m2.windows_cache@, id) == Some(w));
    assert forall|o: u64| find_window(m2.windows_cache@, o) == find_window(
        m0.windows_cache@,
        o,
    ) by {
        if o != id {
            assert(find_window(m1.windows_cache@, o) == find_window(m0.windows_cache@, o));
            assert(find_window(m2.windows_cache@, o) == find_window(m1.windows_cache@, o));
        }
    }
    assert(!m0.minimized_windows@.contains(id)) by {
        if m0.minimized_windows@.contains(id) {
            let k = choose|k: int|
                0 <= k < m0.minimized_windows@.len() && m0.minimized_windows@[k] == id;
            assert(match find_window(m0.windows_cache@, m0.minimized_windows@[k]) {
                Some(x) => x.is_minimized,
                None => false,
            });
        }
    }
    lemma_ids_without_push(m0.minimized_windows@, id);
    assert(m2.minimized_windows@ == ids_without(m0.minimized_windows@.push(id), id));
}

/// What removing one id keeps: no occurrence of the removed id, only
/// elements of the original list, and freedom from duplicates.
pub proof fn lemma_ids_without_props(s: Seq<u64>, id: u64)
    ensures
        forall|k: int| 0 <= k < ids_without(s, id).len() ==> #[trigger] ids_without(s, id)[k]
            != id,
        forall|k: int| 0 <= k < ids_without(s, id).len() ==> s.contains(
            #[trigger] ids_without(s, id)[k],
        ),
        s.no_duplicates() ==> ids_without(s, id).no_duplicates(),
    decreases s.len(),
{
    reveal(Seq::filter);
    let out = ids_without(s, id);
    if s.len() > 0 {
        let d = s.drop_last();
        lemma_ids_without_props(d, id);
        let nd = ids_without(d, id);
        assert forall|k: int| 0 <= k < nd.len() implies s.contains(#[trigger] nd[k]) by {
            assert(d.contains(nd[k]));
            let k0 = choose|k0: int| 0 <= k0 < d.len() && d[k0] == nd[k];
            assert(s[k0] == nd[k]);
        }
        if s.last() != id {
            assert(out == nd.push(s.last()));
            assert(s.contains(s.last()));
            if s.no_duplicates() {
                assert(!d.contains(s.last())) by {
                    if d.contains(s.last()) {
                        let k = choose|k: int| 0 <= k < d.len() && d[k] == s.last();
                        assert(s[k] == s.last());
                    }
                }
                assert(!nd.contains(s.last())) by {
                    if nd.contains(s.last()) {
                        let k = choose|k: int| 0 <= k < nd.len() && nd[k] == s.last();
                        assert(d.contains(nd[k]));
                    }
                }
                assert forall|a: int, b: int| 0 <= a < b < out.len() implies out[a] != out[b] by {
                    if b < nd.len() {
                        assert(out[a] == nd[a] && out[b] == nd[b]);
                    } else {
                        assert(out[b] == s.last());
                        assert(nd.contains(out[a])) by {
                            assert(out[a] == nd[a]);
                        }
                    }
                }
            }
        } else {
            assert(out == nd);
        }
    }
}

} // verus!
