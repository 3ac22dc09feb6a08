use vstd::prelude::*;
use vstd::string::*;

use crate::geometry::{
    dist_sq, floor_sqrt, lemma_dist_root, lemma_scaled_bounds, scaled, GroundPoint,
};

verus! {

/// Hit points of a unit.
#[derive(Clone, Copy, Debug, PartialEq, Eq, Structural)]
pub struct Health {
    pub current: u32,
    pub max: u32,
}

impl Health {
    pub open spec fn wf(self) -> bool {
        self.current <= self.max
    }

    pub fn new(current: u32, max: u32) -> (r: Health)
        requires
            current <= max,
        ensures
            r.current == current,
            r.max == max,
            r.wf(),
    {
        Health { current, max }
    }
}

/// The character of a decimal digit.
pub open spec fn digit_char(d: nat) -> char {
    seq!['0', '1', '2', '3', '4', '5', '6', '7', '8', '9'][d as int]
}

/// The decimal digits of `n`, most significant first, without leading zeros.
pub open spec fn decimal(n: nat) -> Seq<char>
    decreases n,
{
    if n < 10 {
        seq![digit_char(n)]
    } else {
        decimal(n / 10).push(digit_char(n % 10))
    }
}

/// The label text of a health pair: current, a slash, and maximum.
pub open spec fn status_spec(h: Health) -> Seq<char> {
    decimal(h.current as nat) + seq!['/'] + decimal(h.max as nat)
}

/// The one-character text of a decimal digit.
fn digit_str(d: u32) -> (r: &'static str)
    requires
        d < 10,
    ensures
        r@ == seq![digit_char(d as nat)],
{
    proof {
        reveal_strlit("0");
        reveal_strlit("1");
        reveal_strlit("2");
        reveal_strlit("3");
        reveal_strlit("4");
        reveal_strlit("5");
        reveal_strlit("6");
        reveal_strlit("7");
        reveal_strlit("8");
        reveal_strlit("9");
    }
    if d == 0 {
        "0"
    } else if d == 1 {
        "1"
    } else if d == 2 {
        "2"
    } else if d == 3 {
        "3"
    } else if d == 4 {
        "4"
    } else if d == 5 {
        "5"
    } else if d == 6 {
        "6"
    } else if d == 7 {
        "7"
    } else if d == 8 {
        "8"
    } else {
        "9"
    }
}

/// Appends the decimal digits of `n` to `s`.
fn append_decimal(s: &mut String, n: u32)
    ensures
        final(s)@ == old(s)@ + decimal(n as nat),
    decreases n,
{
    if n >= 10 {
        append_decimal(s, n / 10);
    }
    s.append(digit_str(n % 10));
    proof {
        if n >= 10 {
            assert(decimal(n as nat) == decimal((n / 10) as nat).push(digit_char((n % 10) as nat)));
            assert(final(s)@ =~= old(s)@ + decimal(n as nat));
        }
    }
}

/// The label text that shows a unit's health, such as `80/100`.
pub fn status_text(health: Health) -> (r: String)
    ensures
        r@ == status_spec(health),
{
    let mut s = String::new();
    append_decimal(&mut s, health.current);
    proof {
        reveal_strlit("/");
    }
    s.append("/");
    append_decimal(&mut s, health.max);
    assert(s@ =~= status_spec(health));
    s
}

/// A move order: the destination, where the unit stood when the order was
/// given, and how far along the straight route it has travelled since.
#[derive(Clone, Copy, Debug, PartialEq, Eq, Structural)]
pub struct MoveTarget {
    pub dest: GroundPoint,
    pub start: GroundPoint,
    /// Ground units travelled from `start`, at most the route's length.
    pub travelled: u64,
}

/// Length of the route from `m.start` to `m.dest`, rounded down.
pub open spec fn route_len(m: MoveTarget) -> int {
    floor_sqrt(dist_sq(m.start, m.dest))
}

/// The point `m.travelled` ground units along the route, rounded toward
/// `m.start` on each axis.
pub open spec fn along(m: MoveTarget) -> GroundPoint {
    let len = route_len(m);
    if len == 0 {
        m.start
    } else {
        GroundPoint {
            x: (m.start.x + scaled(m.dest.x - m.start.x, m.travelled as int, len)) as i64,
            z: (m.start.z + scaled(m.dest.z - m.start.z, m.travelled as int, len)) as i64,
        }
    }
}

impl MoveTarget {
    pub open spec fn wf(self) -> bool {
        &&& self.start.wf()
        &&& self.dest.wf()
        &&& self.travelled <= route_len(self)
    }
}

/// A player-owned game entity standing on the ground plane.
#[derive(Clone, Copy, Debug, PartialEq, Eq, Structural)]
pub struct Unit {
    /// Index of the owning player in `World::players`.
    pub owner: usize,
    /// Ground-projected position.
    pub position: GroundPoint,
    pub health: Health,
    /// At most one order at a time: a new one replaces the old.
    pub move_target: Option<MoveTarget>,
}

/// The unit ordered to `dest` from where it stands, replacing any earlier order.
pub open spec fn with_order_spec(u: Unit, dest: GroundPoint) -> Unit {
    Unit { move_target: Some(MoveTarget { dest, start: u.position, travelled: 0 }), ..u }
}

impl Unit {
    pub open spec fn wf(self) -> bool {
        &&& self.position.wf()
        &&& self.health.wf()
        &&& match self.move_target {
            Some(m) => m.wf() && self.position == along(m),
            None => true,
        }
    }

    /// The unit ordered to `dest`, replacing any earlier order.
    pub fn with_order(self, dest: GroundPoint) -> (r: Unit)
        requires
            self.wf(),
            dest.wf(),
        ensures
            r == with_order_spec(self, dest),
            r.wf(),
    {
        let m = MoveTarget { dest, start: self.position, travelled: 0 };
        proof {
            lemma_dist_root(m.start, m.dest);
            if route_len(m) > 0 {
                lemma_scaled_bounds(dest.x - self.position.x, 0, route_len(m));
                lemma_scaled_bounds(dest.z - self.position.z, 0, route_len(m));
            }
        }
        Unit { move_target: Some(m), ..self }
    }

    pub fn new(owner: usize, position: GroundPoint, health: Health) -> (r: Unit)
        ensures
            r == (Unit { owner, position, health, move_target: None }),
    {
        Unit { owner, position, health, move_target: None }
    }
}

/// Player nickname.
#[derive(Debug)]
pub struct Nick(pub String);

/// A player, the owner of a faction.
#[derive(Debug)]
pub struct Player {
    pub nick: Nick,
}

/// All players and units, with the player who acts on this instance.
#[derive(Debug)]
pub struct World {
    pub players: Vec<Player>,
    pub units: Vec<Unit>,
    /// Index in `players` of the player controlling this instance.
    pub acting_player: usize,
}

/// Every unit is owned by a listed player and is well formed.
pub open spec fn units_wf(units: Seq<Unit>, n_players: nat) -> bool {
    forall|i: int| 0 <= i < units.len() ==> #[trigger] units[i].wf() && units[i].owner < n_players
}

impl World {
    pub open spec fn wf(&self) -> bool {
        &&& self.acting_player < self.players@.len()
        &&& units_wf(self.units@, self.players@.len())
    }

    /// A world with the given players and no units.
    pub fn new(players: Vec<Player>, acting_player: usize) -> (r: World)
        requires
            acting_player < players@.len(),
        ensures
            r.players@ == players@,
            r.units@ == Seq::<Unit>::empty(),
            r.acting_player == acting_player,
            r.wf(),
    {
        World { players, units: Vec::new(), acting_player }
    }

    /// Adds a unit and returns its index.
    pub fn add_unit(&mut self, unit: Unit) -> (r: usize)
        requires
            old(self).wf(),
            unit.wf(),
            unit.owner < old(self).players@.len(),
            old(self).units@.len() < usize::MAX,
        ensures
            final(self).wf(),
            final(self).players@ == old(self).players@,
            final(self).acting_player == old(self).acting_player,
            final(self).units@ == old(self).units@.push(unit),
            r == old(self).units@.len(),
    {
        let r = self.units.len();
        self.units.push(unit);
        r
    }
}

} // verus!
