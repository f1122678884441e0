//! Who plays the second side: a person or the computer at one of three
//! levels.
use vstd::prelude::*;

verus! {

#[derive(Copy, Clone, Debug)]
pub enum Opponent {
    Human,
    EasyMode,
    NormalMode,
    ExpertMode,
}

/// The search level of each opponent; 0 for a person.
pub open spec fn level(o: Opponent) -> usize {
    match o {
        Opponent::Human => 0,
        Opponent::EasyMode => 1,
        Opponent::NormalMode => 2,
        Opponent::ExpertMode => 3,
    }
}

pub open spec fn opponent_name(o: Opponent) -> Seq<char> {
    match o {
        Opponent::Human => "Human"@,
        Opponent::EasyMode => "Easy"@,
        Opponent::NormalMode => "Normal"@,
        Opponent::ExpertMode => "Expert"@,
    }
}

impl Opponent {
    /// The difficulty that the computer plays this opponent at; 0 for a
    /// person.
    pub fn difficulty(&self) -> (r: usize)
        ensures
            r == level(*self),
    {
        match self {
            Opponent::Human => 0,
            Opponent::EasyMode => 1,
            Opponent::NormalMode => 2,
            Opponent::ExpertMode => 3,
        }
    }

    /// The name shown for this opponent.
    pub fn name(&self) -> (r: &'static str)
        ensures
            r@ == opponent_name(*self),
    {
        match self {
            Opponent::Human => "Human",
            Opponent::EasyMode => "Easy",
            Opponent::NormalMode => "Normal",
            Opponent::ExpertMode => "Expert",
        }
    }
}

impl PartialEq for Opponent {
    fn eq(&self, other: &Opponent) -> (r: bool)
        ensures
            r == (level(*self) == level(*other)),
    {
        match (self, other) {
            (Opponent::Human, Opponent::Human) => true,
            (Opponent::EasyMode, Opponent::EasyMode) => true,
            (Opponent::NormalMode, Opponent::NormalMode) => true,
            (Opponent::ExpertMode, Opponent::ExpertMode) => true,
            _ => false,
        }
    }
}

impl vstd::std_specs::cmp::PartialEqSpecImpl for Opponent {
    open spec fn obeys_eq_spec() -> bool {
        true
    }

    open spec fn eq_spec(&self, other: &Opponent) -> bool {
        level(*self) == level(*other)
    }
}

} // verus!
