//! The app switcher's presentation state: a de-duplicated,
//! reverse-insertion-order list of running applications and the index of
//! the highlighted one, cycled with wraparound.

use vstd::prelude::*;

use crate::model::Application;
use crate::model::WorkspaceModel;
use crate::model::app_identifiers;
use crate::model::find_app;
use crate::model::views_of;

verus! {

/// Presentation state of the app switcher.
#[derive(Debug)]
pub struct AppSwitcherModel {
    /// Applications to cycle through, most recent last.
    pub apps: Vec<Application>,
    /// Index of the highlighted application.
    pub current_app: usize,
    /// Width hint for rendering, in pixels.
    pub width: i32,
    /// Whether the switcher is currently shown; cleared by [`Self::hide_switcher`].
    pub active: bool,
}

/// Whether an application list holds the given identifier.
pub fn apps_contain_identifier(v: &Vec<Application>, id: &String) -> (r: bool)
    ensures
        r == app_identifiers(v@).contains(id@),
{
    let mut i: usize = 0;
    while i < v.len()
        invariant
            0 <= i <= v@.len(),
            forall|j: int| 0 <= j < i ==> v@[j].identifier@ != id@,
        decreases v@.len() - i,
    {
        if crate::model::eq_string(&v[i].identifier, id) {
            assert(app_identifiers(v@)[i as int] == id@);
            return true;
        }
        i += 1;
    }
    assert forall|k: int| 0 <= k < app_identifiers(v@).len() implies app_identifiers(v@)[k]
        != id@ by {
        assert(app_identifiers(v@)[k] == v@[k].identifier@);
    }
    false
}

impl AppSwitcherModel {
    /// The highlighted index stays within the list; an empty list pins it
    /// to zero.
    pub open spec fn wf(self) -> bool {
        if self.apps@.len() == 0 {
            self.current_app == 0
        } else {
            (self.current_app as int) < self.apps@.len()
        }
    }

    /// An empty, hidden switcher.
    pub fn new() -> (s: AppSwitcherModel)
        ensures
            s.wf(),
            s.apps@.len() == 0,
            s.current_app == 0,
            s.width == 0,
            !s.active,
    {
        AppSwitcherModel { apps: Vec::new(), current_app: 0, width: 0, active: false }
    }

    /// Advance the highlight by one, wrapping at the end. The first use
    /// after the switcher was hidden restarts from the front. Shows the
    /// switcher.
    pub fn next(&mut self)
        requires
            old(self).wf(),
        ensures
            final(self).wf(),
            final(self).apps == old(self).apps,
            final(self).width == old(self).width,
            final(self).active,
            final(self).current_app == {
                let base: int = if old(self).active {
                    old(self).current_app as int
                } else {
                    0
                };
                if old(self).apps@.len() == 0 {
                    0
                } else if base + 1 == old(self).apps@.len() {
                    0
                } else {
                    base + 1
                }
            },
    {
        let mut current: usize = self.current_app;
        if !self.active {
            current = 0;
        }
        if self.apps.len() > 0 {
            current = if current + 1 == self.apps.len() {
                0
            } else {
                current + 1
            };
        } else {
            current = 0;
        }
        self.current_app = current;
        self.active = true;
    }

    /// Move the highlight back by one, wrapping at the front. Shows the
    /// switcher.
    pub fn previous(&mut self)
        requires
            old(self).wf(),
        ensures
            final(self).wf(),
            final(self).apps == old(self).apps,
            final(self).width == old(self).width,
            final(self).active,
            final(self).current_app == if old(self).apps@.len() == 0 {
                0int
            } else if old(self).current_app == 0 {
                old(self).apps@.len() - 1
            } else {
                old(self).current_app - 1
            },
    {
        let current: usize = if self.apps.len() > 0 {
            if self.current_app == 0 {
                self.apps.len() - 1
            } else {
                self.current_app - 1
            }
        } else {
            0
        };
        self.current_app = current;
        self.active = true;
    }

    /// Hide the switcher; the highlight is kept and reset on the next
    /// [`Self::next`].
    pub fn hide_switcher(&mut self)
        ensures
            final(self).apps == old(self).apps,
            final(self).width == old(self).width,
            final(self).current_app == old(self).current_app,
            !final(self).active,
    {
        self.active = false;
    }

    /// The highlighted application, if any.
    pub fn get_current_app(&self) -> (r: Option<Application>)
        ensures
            match r {
                Some(a) => (self.current_app as int) < self.apps@.len() && a == self.apps@[self
                    .current_app as int],
                None => (self.current_app as int) >= self.apps@.len(),
            },
    {
        if self.current_app < self.apps.len() {
            Some(self.apps[self.current_app].clone())
        } else {
            None
        }
    }

    /// Recompute the switcher content from a workspace snapshot: the
    /// applications of the MRU list in reverse order (most recent last),
    /// de-duplicated first-seen-wins, resolved through the application
    /// cache; then clamp the highlight to the new bounds.
    pub fn update_from(&mut self, model: &WorkspaceModel)
        requires
            model.wf(),
        ensures
            final(self).wf(),
            app_identifiers(final(self).apps@) == views_of(model.application_list@).reverse(),
            forall|k: int|
                0 <= k < final(self).apps@.len() ==> find_app(
                    model.applications_cache@,
                    (#[trigger] final(self).apps@[k]).identifier@,
                ) == Some(final(self).apps@[k]),
            final(self).width == old(self).width,
            final(self).active == old(self).active,
            final(self).current_app == if views_of(model.application_list@).len() == 0 {
                0int
            } else if old(self).current_app + 1 > views_of(model.application_list@).len() {
                views_of(model.application_list@).len() - 1
            } else {
                old(self).current_app as int
            },
    {
        let src = &model.application_list;
        let total = src.len();
        let rv = Ghost(views_of(src@).reverse());
        let mut apps: Vec<Application> = Vec::new();
        proof {
            assert(app_identifiers(apps@) =~= rv@.take(0));
        }
        let mut k: usize = 0;
        while k < total
            invariant
                0 <= k <= total,
                total == src@.len(),
                model.wf(),
                src == &model.application_list,
                rv@ == views_of(src@).reverse(),
                app_identifiers(apps@) == rv@.take(k as int),
                forall|j: int|
                    0 <= j < apps@.len() ==> find_app(
                        model.applications_cache@,
                        (#[trigger] apps@[j]).identifier@,
                    ) == Some(apps@[j]),
            decreases total - k,
        {
            let idx = total - 1 - k;
            let app_id = &src[idx];
            proof {
                assert(rv@[k as int] == views_of(src@)[idx as int]);
                assert(views_of(src@)[idx as int] == src@[idx as int]@);
                // the reversed MRU list has no duplicates, so the
                // first-seen-wins check cannot trigger
                assert(!app_identifiers(apps@).contains(app_id@)) by {
                    if app_identifiers(apps@).contains(app_id@) {
                        let j = choose|j: int|
                            0 <= j < app_identifiers(apps@).len() && app_identifiers(apps@)[j]
                                == app_id@;
                        assert(rv@.take(k as int)[j] == app_id@);
                        assert(rv@[j] == app_id@);
                        assert(views_of(src@)[src@.len() - 1 - j] == app_id@);
                        assert(views_of(src@)[idx as int] == app_id@);
                    }
                }
            }
            if !apps_contain_identifier(&apps, app_id) {
                match model.find_app_index(app_id) {
                    Some(ai) => {
                        let found = model.applications_cache[ai].clone();
                        apps.push(found);
                        proof {
                            assert(app_identifiers(apps@) =~= rv@.take(k as int + 1));
                        }
                    },
                    None => {
                        proof {
                            assert(find_app(model.applications_cache@, src@[idx as int]@)
                                is Some);
                        }
                    },
                }
            }
            k += 1;
        }
        proof {
            assert(rv@.take(total as int) =~= rv@);
        }
        let new_len = apps.len();
        let mut current = self.current_app;
        if new_len == 0 {
            current = 0;
        } else if current >= new_len {
            current = new_len - 1;
        }
        self.apps = apps;
        self.current_app = current;
        proof {
            assert(app_identifiers(self.apps@).len() == rv@.len());
        }
    }
}

} // verus!
