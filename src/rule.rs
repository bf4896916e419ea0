//! Cell states and the survival / birth / decay rule that moves a cell from
//! one generation to the next.
use vstd::prelude::*;

verus! {

/// The largest number of live neighbours a hex cell can have.
pub const MAX_NEIGHBORS: u8 = 6;

/// The state of one cell: dormant, or alive with a vitality level.
#[derive(Clone, Copy, PartialEq, Eq, Structural, Debug)]
pub enum Type {
    On(u8),
    Off,
}

/// A "Generations" rule: neighbour counts under which a live cell survives,
/// counts under which a dormant cell is born, and the number of states.
#[derive(Debug)]
pub struct Rule {
    pub survival: Vec<u8>,
    pub birth: Vec<u8>,
    pub states: u8,
}

pub open spec fn is_on(s: Type) -> bool {
    s is On
}

/// The highest vitality a live cell may have under a rule with `states` states.
pub open spec fn cap(states: u8) -> int {
    states - 1
}

impl Rule {
    /// A rule the engine accepts: at least two states, counts within `[0, 6]`.
    pub open spec fn valid(&self) -> bool {
        &&& self.states >= 2
        &&& forall|i: int| 0 <= i < self.survival@.len() ==> #[trigger] self.survival@[i] <= MAX_NEIGHBORS
        &&& forall|i: int| 0 <= i < self.birth@.len() ==> #[trigger] self.birth@[i] <= MAX_NEIGHBORS
    }

    /// A state a cell may hold under this rule.
    pub open spec fn admits(&self, s: Type) -> bool {
        match s {
            Type::On(a) => 1 <= a <= cap(self.states),
            Type::Off => true,
        }
    }

    /// The state that follows `s` when `n` of the cell's neighbours are alive.
    pub open spec fn next(&self, s: Type, n: u8) -> Type {
        match s {
            Type::On(a) => if self.survival@.contains(n) {
                if a < cap(self.states) { Type::On((a + 1) as u8) } else { Type::On(a) }
            } else if a == 1 {
                Type::Off
            } else {
                Type::On((a - 1) as u8)
            },
            Type::Off => if self.birth@.contains(n) { Type::On(1) } else { Type::Off },
        }
    }

    /// The transition of one cell: a surviving live cell gains vitality up to
    /// the cap, a live cell that does not survive loses one level and goes
    /// dormant from level one, and a dormant cell is born at level one.
    pub fn apply(&self, s: Type, n: u8) -> (r: Type)
        requires
            self.valid(),
            self.admits(s),
        ensures
            r == self.next(s, n),
            self.admits(r),
            s is On && !self.survival@.contains(n) ==> {
                &&& s->On_0 > 1 ==> r == Type::On((s->On_0 - 1) as u8)
                &&& s->On_0 == 1 ==> r == Type::Off
            },
            s is On && self.survival@.contains(n) ==> r == Type::On(
                if s->On_0 + 1 < cap(self.states) { (s->On_0 + 1) as u8 } else { cap(self.states) as u8 },
            ),
            s == Type::Off && self.birth@.contains(n) ==> r == Type::On(1),
            s == Type::Off && !self.birth@.contains(n) ==> r == Type::Off,
    {
        match s {
            Type::On(a) => {
                if contains_count(&self.survival, n) {
                    if a < self.states - 1 {
                        Type::On(a + 1)
                    } else {
                        Type::On(a)
                    }
                } else if a == 1 {
                    Type::Off
                } else {
                    Type::On(a - 1)
                }
            },
            Type::Off => {
                if contains_count(&self.birth, n) {
                    Type::On(1)
                } else {
                    Type::Off
                }
            },
        }
    }
}

/// Whether `n` occurs in `v`.
fn contains_count(v: &Vec<u8>, n: u8) -> (r: bool)
    ensures
        r == v@.contains(n),
{
    let mut i: usize = 0;
    while i < v.len()
        invariant
            0 <= i <= v@.len(),
            forall|j: int| 0 <= j < i ==> v@[j] != n,
        decreases v@.len() - i,
    {
        if v[i] == n {
            return true;
        }
        i = i + 1;
    }
    false
}

} // verus!
