//! The branch filter picker: a list with a cursor.
use vstd::prelude::*;

verus! {

pub struct PickerState {
    pub open: bool,
    pub items: Vec<String>,
    pub cursor: usize,
}

impl Default for PickerState {
    fn default() -> (res: Self)
        ensures
            !res.open,
            res.items@.len() == 0,
            res.cursor == 0,
    {
        Self { open: false, items: Vec::new(), cursor: 0 }
    }
}

/// The cursor after moving it up one item.
pub open spec fn cursor_up(cursor: usize) -> usize {
    if cursor > 0 {
        (cursor - 1) as usize
    } else {
        cursor
    }
}

/// The cursor after moving it down one item in a list of `len` items.
pub open spec fn cursor_down(cursor: usize, len: nat) -> usize {
    if cursor + 1 < len {
        (cursor + 1) as usize
    } else {
        cursor
    }
}

impl PickerState {
    pub fn open_with_items(&mut self, items: Vec<String>)
        ensures
            final(self).open,
            final(self).items@ == items@,
            final(self).cursor == 0,
    {
        self.open = true;
        self.items = items;
        self.cursor = 0;
    }

    pub fn close(&mut self)
        ensures
            !final(self).open,
            final(self).items@ == old(self).items@,
            final(self).cursor == old(self).cursor,
    {
        self.open = false;
    }

    pub fn move_up(&mut self)
        ensures
            final(self).open == old(self).open,
            final(self).items@ == old(self).items@,
            final(self).cursor == cursor_up(old(self).cursor),
    {
        if self.cursor > 0 {
            self.cursor -= 1;
        }
    }

    pub fn move_down(&mut self)
        ensures
            final(self).open == old(self).open,
            final(self).items@ == old(self).items@,
            final(self).cursor == cursor_down(old(self).cursor, old(self).items@.len()),
    {
        if self.cursor < self.items.len() && self.cursor + 1 < self.items.len() {
            self.cursor += 1;
        }
    }

    /// The item under the cursor.
    pub fn selected(&self) -> (res: Option<&str>)
        ensures
            match res {
                Some(s) => self.cursor < self.items@.len() && s@ == self.items@[self.cursor as int]@,
                None => self.cursor >= self.items@.len(),
            },
    {
        if self.cursor < self.items.len() {
            Some(self.items[self.cursor].as_str())
        } else {
            None
        }
    }
}

/// Moving the cursor keeps it on an item: up and down from an item land on
/// an item.
pub proof fn law_cursor_stays_on_items(cursor: usize, len: nat)
    requires
        cursor < len,
    ensures
        cursor_up(cursor) < len,
        cursor_down(cursor, len) < len,
{
}

} // verus!
