//! The help overlay.
use vstd::prelude::*;

verus! {

pub struct HelpState {
    pub open: bool,
}

impl Default for HelpState {
    fn default() -> (res: Self)
        ensures
            !res.open,
    {
        Self { open: false }
    }
}

impl HelpState {
    pub fn toggle(&mut self)
        ensures
            final(self).open == !old(self).open,
    {
        self.open = !self.open;
    }

    pub fn close(&mut self)
        ensures
            !final(self).open,
    {
        self.open = false;
    }
}

} // verus!
