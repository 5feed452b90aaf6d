use vstd::prelude::*;

verus! {

/// A widget of a 2D window.
#[derive(Copy, Clone, Debug, PartialEq, Eq, Structural)]
pub enum Data2D {
    Button,
}

/// A titled 2D window and its widgets, top to bottom.
pub struct Window2D {
    pub title: String,
    pub data: Vec<Data2D>,
}

impl Window2D {
    pub fn new(title: String, data: Vec<Data2D>) -> (w: Self)
        ensures
            w.title@ == title@,
            w.data@ == data@,
    {
        Window2D { title, data }
    }
}

/// The 2D windows drawn over the scene, in the order they were added.
pub struct UI2D {
    windows: Vec<Window2D>,
}

impl UI2D {
    /// The windows, in the order they were added.
    pub closed spec fn window_list(self) -> Seq<Window2D> {
        self.windows@
    }

    pub fn new() -> (u: Self)
        ensures
            u.window_list() == Seq::<Window2D>::empty(),
    {
        UI2D { windows: Vec::new() }
    }

    /// Adds a window after the existing ones.
    pub fn add_window(&mut self, window: Window2D)
        ensures
            final(self).window_list() == old(self).window_list().push(window),
    {
        self.windows.push(window);
    }

    pub fn windows(&self) -> (w: &Vec<Window2D>)
        ensures
            w@ == self.window_list(),
    {
        &self.windows
    }
}

impl Default for UI2D {
    fn default() -> (u: Self)
        ensures
            u.window_list() == Seq::<Window2D>::empty(),
    {
        UI2D::new()
    }
}

} // verus!
