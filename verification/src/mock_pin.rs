use vstd::prelude::*;

verus! {

/// A digital line held in memory: it reads back the level last written to it.
pub struct MockPin {
    state: bool,
}

impl MockPin {
    /// The level of the line (`true` is high).
    pub closed spec fn level(&self) -> bool {
        self.state
    }

    /// A line that starts low.
    pub fn new() -> (res: Self)
        ensures
            !res.level(),
    {
        Self { state: false }
    }

    /// A line that starts at the given level.
    pub fn with_state(state: bool) -> (res: Self)
        ensures
            res.level() == state,
    {
        Self { state }
    }

    /// Copies the level of `other` onto this line.
    pub fn sync_with(&mut self, other: &MockPin)
        ensures
            final(self).level() == other.level(),
    {
        self.state = other.is_high();
    }

    pub fn set_high(&mut self)
        ensures
            final(self).level(),
    {
        self.state = true;
    }

    pub fn set_low(&mut self)
        ensures
            !final(self).level(),
    {
        self.state = false;
    }

    /// Drives the line high (`true`) or low (`false`).
    pub fn set_state(&mut self, high: bool)
        ensures
            final(self).level() == high,
    {
        self.state = high;
    }

    pub fn is_high(&self) -> (res: bool)
        ensures
            res == self.level(),
    {
        self.state
    }

    pub fn is_low(&self) -> (res: bool)
        ensures
            res == !self.level(),
    {
        !self.state
    }
}

} // verus!
