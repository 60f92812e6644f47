//! The numbers that new variables and loops get.
use vstd::prelude::*;

verus! {

/// The numbers that are left for new variables.
#[derive(Clone, Copy, Debug, PartialEq, Eq, Structural)]
pub struct Numbers {
    pub next: usize,
    /// Set when a variable was asked for and no number was left.
    pub spent: bool,
}

impl Numbers {
    pub open spec fn after(self) -> Numbers {
        if self.next == usize::MAX {
            Numbers { next: self.next, spent: true }
        } else {
            Numbers { next: (self.next + 1) as usize, spent: self.spent }
        }
    }

    pub open spec fn above(maximum: Option<usize>) -> Numbers {
        match maximum {
            Some(id) => Numbers { next: id, spent: false }.after(),
            None => Numbers { next: 0, spent: false },
        }
    }

    pub fn advance(&mut self)
        ensures
            *final(self) == old(self).after(),
    {
        if self.next == usize::MAX {
            self.spent = true;
        } else {
            self.next = self.next + 1;
        }
    }

    pub fn start(maximum: Option<usize>) -> (res: Numbers)
        ensures
            res == Numbers::above(maximum),
    {
        match maximum {
            Some(id) => {
                let mut res: Numbers = Numbers { next: id, spent: false };
                res.advance();
                res
            },
            None => Numbers { next: 0, spent: false },
        }
    }
}

} // verus!
