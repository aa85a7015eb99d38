use vstd::prelude::*;

verus! {

/// What an ant is currently doing.
#[derive(Clone, Copy, PartialEq, Eq, Structural, Debug)]
pub enum Behavior {
    /// Wandering around looking for food.
    Search,
    /// Following a pheromone trail laid by returning ants.
    Follow,
    /// Carrying food back to the ant hill.
    Return,
}

/// What an ant perceives of the pheromone field around it.
#[derive(Clone, Copy, PartialEq, Eq, Structural, Debug)]
pub enum PheromoneSense {
    /// No pheromone lies within sensing range.
    Absent,
    /// The nearest pheromone mark refers to a pheromone that no longer exists.
    Stale,
    /// A live pheromone lies within sensing range.
    Trail,
}

/// How an ant adjusts its heading on a steering tick.
#[derive(Clone, Copy, PartialEq, Eq, Structural, Debug)]
pub enum TiltAction {
    /// Turn by a random angle.
    Wander,
    /// Keep the current heading.
    Hold,
    /// Turn towards the ant hill.
    HeadHome,
}

/// The behaviour an ant has after sensing `sense`.
pub open spec fn pheromone_next(b: Behavior, sense: PheromoneSense) -> Behavior {
    if b is Return {
        b
    } else {
        match sense {
            PheromoneSense::Absent => Behavior::Search,
            PheromoneSense::Stale => b,
            PheromoneSense::Trail => Behavior::Follow,
        }
    }
}

/// Whether an ant in behaviour `b` steers along the trail after sensing `sense`.
pub open spec fn pheromone_steers(b: Behavior, sense: PheromoneSense) -> bool {
    !(b is Return) && sense is Trail
}

/// The steering action that belongs to each behaviour.
pub open spec fn tilt_of(b: Behavior) -> TiltAction {
    match b {
        Behavior::Search => TiltAction::Wander,
        Behavior::Follow => TiltAction::Hold,
        Behavior::Return => TiltAction::HeadHome,
    }
}

impl Behavior {
    /// Switches to carrying food home.
    pub fn set_returning(&mut self)
        ensures
            *final(self) == Behavior::Return,
    {
        *self = Behavior::Return;
    }

    /// Switches to searching for food.
    pub fn set_searching(&mut self)
        ensures
            *final(self) == Behavior::Search,
    {
        *self = Behavior::Search;
    }

    /// Switches to following a pheromone trail.
    pub fn set_following(&mut self)
        ensures
            *final(self) == Behavior::Follow,
    {
        *self = Behavior::Follow;
    }

    /// Whether the ant is carrying food home.
    pub fn is_returning(&self) -> (r: bool)
        ensures
            r == (*self is Return),
    {
        match self {
            Behavior::Return => true,
            _ => false,
        }
    }

    /// Reacts to the pheromone field: a returning ant ignores it; otherwise an
    /// empty neighbourhood sends the ant searching, a stale mark changes
    /// nothing, and a live pheromone makes the ant follow it. Returns whether
    /// the ant should bend its heading along the pheromone.
    pub fn sense_pheromone(&mut self, sense: PheromoneSense) -> (steer: bool)
        ensures
            *final(self) == pheromone_next(*old(self), sense),
            steer == pheromone_steers(*old(self), sense),
            *old(self) is Return ==> *final(self) == Behavior::Return && !steer,
            !(*old(self) is Return) && sense is Absent ==> *final(self) == Behavior::Search && !steer,
            !(*old(self) is Return) && sense is Stale ==> *final(self) == *old(self) && !steer,
            !(*old(self) is Return) && sense is Trail ==> *final(self) == Behavior::Follow && steer,
    {
        if self.is_returning() {
            return false;
        }
        match sense {
            PheromoneSense::Absent => {
                self.set_searching();
                false
            },
            PheromoneSense::Stale => false,
            PheromoneSense::Trail => {
                self.set_following();
                true
            },
        }
    }

    /// The steering action on a steering tick.
    pub fn tilt(&self) -> (a: TiltAction)
        ensures
            a == tilt_of(*self),
            *self is Search ==> a is Wander,
            *self is Follow ==> a is Hold,
            *self is Return ==> a is HeadHome,
    {
        match self {
            Behavior::Search => TiltAction::Wander,
            Behavior::Follow => TiltAction::Hold,
            Behavior::Return => TiltAction::HeadHome,
        }
    }

    /// Whether the ant lays a pheromone mark: only an ant that carries food
    /// home from a known food location does.
    pub fn drops_pheromone(&self, knows_food_location: bool) -> (r: bool)
        ensures
            r == (*self is Return && knows_food_location),
    {
        self.is_returning() && knows_food_location
    }
}

/// A returning ant keeps returning whatever pheromones it senses, never
/// steers along a trail, and is the only kind of ant that heads home.
pub proof fn lemma_returning_ignores_pheromones(b: Behavior, sense: PheromoneSense)
    ensures
        b is Return ==> pheromone_next(b, sense) == b && !pheromone_steers(b, sense),
        (tilt_of(b) is HeadHome) == (b is Return),
        pheromone_steers(b, sense) ==> pheromone_next(b, sense) is Follow,
{
}

/// How an ant that is not carrying food home reacts to the pheromone field:
/// with nothing in range it goes (back to) searching and does not steer; a
/// stale mark leaves it as it was without steering; a live pheromone makes it
/// follow and steer along the pheromone, whether it was searching or already
/// following.
pub proof fn lemma_pheromone_reaction(b: Behavior)
    requires
        !(b is Return),
    ensures
        pheromone_next(b, PheromoneSense::Absent) == Behavior::Search,
        !pheromone_steers(b, PheromoneSense::Absent),
        pheromone_next(b, PheromoneSense::Stale) == b,
        !pheromone_steers(b, PheromoneSense::Stale),
        pheromone_next(b, PheromoneSense::Trail) == Behavior::Follow,
        pheromone_steers(b, PheromoneSense::Trail),
{
}

/// An ant steers along a trail exactly when it is not returning and senses a
/// live pheromone; sensing never turns an ant into a returning one, nor a
/// returning one into anything else.
pub proof fn lemma_steering_and_returning(b: Behavior, sense: PheromoneSense)
    ensures
        pheromone_steers(b, sense) == (b != Behavior::Return && sense == PheromoneSense::Trail),
        (pheromone_next(b, sense) == Behavior::Return) == (b == Behavior::Return),
{
}

} // verus!
