//! The dock's presentation state: launchers, running applications, and
//! the minimized windows it shows as drawers.

use vstd::prelude::*;

use crate::model::Application;

verus! {

/// Presentation state of the dock. Minimized windows are carried as
/// (surface id, title) pairs; `focus` is the pointer's horizontal
/// position over the dock in pixels, negative when the pointer is away.
#[derive(Debug)]
pub struct DockModel {
    pub launchers: Vec<Application>,
    pub running_apps: Vec<Application>,
    pub minimized_windows: Vec<(u64, String)>,
    pub width: i32,
    pub focus: i32,
}

impl DockModel {
    /// An empty dock with the pointer away.
    pub fn new() -> (m: DockModel)
        ensures
            m.launchers@.len() == 0,
            m.running_apps@.len() == 0,
            m.minimized_windows@.len() == 0,
            m.width == 0,
            m.focus == -500,
    {
        DockModel {
            launchers: Vec::new(),
            running_apps: Vec::new(),
            minimized_windows: Vec::new(),
            width: 0,
            focus: -500,
        }
    }
}

} // verus!
