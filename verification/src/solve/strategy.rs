use vstd::prelude::*;

verus! {

/// A solving technique.
#[derive(Clone, Copy, Debug, PartialEq, Eq, Structural, Hash, PartialOrd, Ord)]
pub enum Strategy {
    Peer,
    NakedSingle,
    HiddenSingle,
    IntersectionRemoval,
    NakedPair,
    NakedTriple,
    NakedQuad,
    Skyscraper,
    XYZWing,
    WXYZWing,
    EmptyRectangle,
    Fireworks,
    UniqueRectangle,
    Bug,
    BruteForce,
}

/// How hard a puzzle is: the hardest technique its solution needed.
#[derive(Clone, Copy, Debug, PartialEq, Eq, Structural, Hash, PartialOrd, Ord)]
pub enum Difficulty {
    Basic,
    Easy,
    Medium,
    Tough,
    Diabolical,
    Extreme,
}

/// The rank of a difficulty, easiest first.
pub open spec fn difficulty_rank(d: Difficulty) -> nat {
    match d {
        Difficulty::Basic => 0,
        Difficulty::Easy => 1,
        Difficulty::Medium => 2,
        Difficulty::Tough => 3,
        Difficulty::Diabolical => 4,
        Difficulty::Extreme => 5,
    }
}

/// The difficulty a technique stands for.
pub open spec fn strategy_difficulty(s: Strategy) -> Difficulty {
    match s {
        Strategy::Peer | Strategy::NakedSingle | Strategy::HiddenSingle => Difficulty::Basic,
        Strategy::IntersectionRemoval | Strategy::NakedPair => Difficulty::Easy,
        Strategy::NakedTriple | Strategy::NakedQuad => Difficulty::Medium,
        Strategy::Skyscraper | Strategy::XYZWing | Strategy::EmptyRectangle => Difficulty::Tough,
        Strategy::WXYZWing | Strategy::Fireworks | Strategy::UniqueRectangle | Strategy::Bug => Difficulty::Diabolical,
        Strategy::BruteForce => Difficulty::Extreme,
    }
}

/// The name of a technique.
pub open spec fn strategy_label(s: Strategy) -> Seq<char> {
    match s {
        Strategy::Peer => "Peer"@,
        Strategy::NakedSingle => "Naked Single"@,
        Strategy::HiddenSingle => "Hidden Single"@,
        Strategy::IntersectionRemoval => "Intersection Removal"@,
        Strategy::NakedPair => "Naked Pair"@,
        Strategy::NakedTriple => "Naked Triple"@,
        Strategy::NakedQuad => "Naked Quad"@,
        Strategy::Skyscraper => "Skyscraper"@,
        Strategy::XYZWing => "XYZ-Wing"@,
        Strategy::WXYZWing => "WXYZ-Wing"@,
        Strategy::EmptyRectangle => "Empty Rectangle"@,
        Strategy::Fireworks => "Fireworks"@,
        Strategy::UniqueRectangle => "Unique Rectangle"@,
        Strategy::Bug => "Bug"@,
        Strategy::BruteForce => "Brute Force"@,
    }
}

impl Strategy {
    /// Whether both are the same technique.
    pub fn same_as(self, other: Strategy) -> (r: bool)
        ensures
            r == (self == other),
    {
        self == other
    }

    /// The difficulty this technique stands for.
    pub fn difficulty(self) -> (r: Difficulty)
        ensures
            r == strategy_difficulty(self),
    {
        match self {
            Strategy::Peer | Strategy::NakedSingle | Strategy::HiddenSingle => Difficulty::Basic,
            Strategy::IntersectionRemoval | Strategy::NakedPair => Difficulty::Easy,
            Strategy::NakedTriple | Strategy::NakedQuad => Difficulty::Medium,
            Strategy::Skyscraper | Strategy::XYZWing | Strategy::EmptyRectangle => Difficulty::Tough,
            Strategy::WXYZWing | Strategy::Fireworks | Strategy::UniqueRectangle | Strategy::Bug => Difficulty::Diabolical,
            Strategy::BruteForce => Difficulty::Extreme,
        }
    }

    /// The name of the technique.
    pub fn label(self) -> (r: &'static str)
        ensures
            r@ == strategy_label(self),
    {
        match self {
            Strategy::Peer => "Peer",
            Strategy::NakedSingle => "Naked Single",
            Strategy::HiddenSingle => "Hidden Single",
            Strategy::IntersectionRemoval => "Intersection Removal",
            Strategy::NakedPair => "Naked Pair",
            Strategy::NakedTriple => "Naked Triple",
            Strategy::NakedQuad => "Naked Quad",
            Strategy::Skyscraper => "Skyscraper",
            Strategy::XYZWing => "XYZ-Wing",
            Strategy::WXYZWing => "WXYZ-Wing",
            Strategy::EmptyRectangle => "Empty Rectangle",
            Strategy::Fireworks => "Fireworks",
            Strategy::UniqueRectangle => "Unique Rectangle",
            Strategy::Bug => "Bug",
            Strategy::BruteForce => "Brute Force",
        }
    }
}

impl Difficulty {
    /// The rank of the difficulty, easiest first.
    pub fn rank(self) -> (r: u8)
        ensures
            r == difficulty_rank(self),
    {
        match self {
            Difficulty::Basic => 0,
            Difficulty::Easy => 1,
            Difficulty::Medium => 2,
            Difficulty::Tough => 3,
            Difficulty::Diabolical => 4,
            Difficulty::Extreme => 5,
        }
    }

    /// Whether this difficulty is harder than `other`.
    pub fn harder_than(self, other: Difficulty) -> (r: bool)
        ensures
            r == (difficulty_rank(self) > difficulty_rank(other)),
    {
        self.rank() > other.rank()
    }
}

/// The role of a cell and digit in the reasoning behind an action.
#[derive(Clone, Copy, Debug, PartialEq, Eq, Structural, Hash)]
pub enum Verdict {
    Primary,
    Secondary,
    Tertiary,
    Related,
}

} // verus!
