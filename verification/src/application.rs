//! Settings and signals exchanged with the window loop that drives the
//! engine.

use vstd::prelude::*;

pub mod event;
pub mod input;

verus! {

/// What the window of an application is created with.
pub struct ApplicationSettings<'a> {
    pub window_title: &'a str,
    pub window_width: u32,
    pub window_height: u32,
    pub window_resizable: bool,
}

impl<'a> Clone for ApplicationSettings<'a> {
    fn clone(&self) -> (copy: Self)
        ensures
            copy == *self,
    {
        ApplicationSettings {
            window_title: self.window_title,
            window_width: self.window_width,
            window_height: self.window_height,
            window_resizable: self.window_resizable,
        }
    }
}

impl<'a> Default for ApplicationSettings<'a> {
    /// An untitled, fixed-size window of no extent.
    fn default() -> (settings: Self)
        ensures
            settings.window_title@ == Seq::<char>::empty(),
            settings.window_width == 0,
            settings.window_height == 0,
            !settings.window_resizable,
    {
        proof {
            reveal_strlit("");
        }
        ApplicationSettings {
            window_title: "",
            window_width: 0,
            window_height: 0,
            window_resizable: false,
        }
    }
}

} // verus!
