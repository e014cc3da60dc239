use vstd::prelude::*;
use vstd::string::StringExecFns;

verus! {

/// Richness of the visibility information that may currently be displayed,
/// ordered `NONE < WATCH < SOON < RISE < FAR`.  `NONE` is the initial level
/// and the default when no visibility window qualifies.
#[allow(non_camel_case_types)]
#[derive(Clone, Copy, PartialEq, Eq, Structural, Debug)]
pub enum Level {
    /// nothing is shown
    NONE,
    /// the elapsed duration while the object is visible
    WATCH,
    /// additionally, the countdown until the object becomes visible
    SOON,
    /// additionally, the clock time of the next visibility window
    RISE,
    /// additionally, a day count when no window is near
    FAR,
}

impl Level {
    /// Position of the level in the order `NONE < WATCH < SOON < RISE < FAR`.
    pub open spec fn rank_spec(self) -> int {
        match self {
            Level::NONE => 0,
            Level::WATCH => 1,
            Level::SOON => 2,
            Level::RISE => 3,
            Level::FAR => 4,
        }
    }

    /// Executable counterpart of [`Level::rank_spec`].
    pub fn rank(&self) -> (r: u8)
        ensures
            r as int == self.rank_spec(),
    {
        match self {
            Level::NONE => 0,
            Level::WATCH => 1,
            Level::SOON => 2,
            Level::RISE => 3,
            Level::FAR => 4,
        }
    }

    /// True when announcing at level `other` is permitted under a configured
    /// maximum level of `self`.
    pub fn admits(&self, other: &Level) -> (r: bool)
        ensures
            r == (self.rank_spec() >= other.rank_spec()),
    {
        self.rank() >= other.rank()
    }

    /// Lower-case name of the level.
    pub open spec fn name_spec(self) -> Seq<char> {
        match self {
            Level::NONE => "none"@,
            Level::WATCH => "watch"@,
            Level::SOON => "soon"@,
            Level::RISE => "rise"@,
            Level::FAR => "far"@,
        }
    }

    /// Lower-case name of the level, as shown to the user.
    pub fn name(&self) -> (r: String)
        ensures
            r@ == self.name_spec(),
    {
        match self {
            Level::NONE => String::from_str("none"),
            Level::WATCH => String::from_str("watch"),
            Level::SOON => String::from_str("soon"),
            Level::RISE => String::from_str("rise"),
            Level::FAR => String::from_str("far"),
        }
    }
}

} // verus!
