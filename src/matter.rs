use vstd::prelude::*;

verus! {

/// Identifies a matter kind; its position in a registry is `index`.
#[derive(Clone, Copy, PartialEq, Eq, Structural, Debug)]
pub enum MatterId {
    Empty,
    Sand,
    Rock,
    Water,
}

/// Number of matter kinds that a `MatterId` can name.
pub const MATTER_KINDS: u8 = 4;

impl MatterId {
    pub open spec fn index(self) -> nat {
        match self {
            MatterId::Empty => 0,
            MatterId::Sand => 1,
            MatterId::Rock => 2,
            MatterId::Water => 3,
        }
    }

    pub open spec fn from_index(i: nat) -> Option<MatterId> {
        if i == 0 {
            Some(MatterId::Empty)
        } else if i == 1 {
            Some(MatterId::Sand)
        } else if i == 2 {
            Some(MatterId::Rock)
        } else if i == 3 {
            Some(MatterId::Water)
        } else {
            None
        }
    }

    /// Display color as `0xRRGGBBAA`.
    pub open spec fn spec_color(self) -> u32 {
        match self {
            MatterId::Empty => 0,
            MatterId::Sand => 0xc2b280ff,
            MatterId::Rock => 0x787a79ff,
            MatterId::Water => 0x0f5e9cff,
        }
    }

    /// The registry index of this kind.
    pub fn as_u8(self) -> (r: u8)
        ensures
            r as nat == self.index(),
    {
        match self {
            MatterId::Empty => 0,
            MatterId::Sand => 1,
            MatterId::Rock => 2,
            MatterId::Water => 3,
        }
    }

    /// Checked conversion from a registry index.
    pub fn from_u8(b: u8) -> (r: Option<MatterId>)
        ensures
            r == MatterId::from_index(b as nat),
            r.is_some() <==> b < MATTER_KINDS,
            r.is_some() ==> r.unwrap().index() == b as nat,
    {
        if b == 0 {
            Some(MatterId::Empty)
        } else if b == 1 {
            Some(MatterId::Sand)
        } else if b == 2 {
            Some(MatterId::Rock)
        } else if b == 3 {
            Some(MatterId::Water)
        } else {
            None
        }
    }

    pub fn color(self) -> (r: u32)
        ensures
            r == self.spec_color(),
    {
        match self {
            MatterId::Empty => 0,
            MatterId::Sand => 0xc2b280ff,
            MatterId::Rock => 0x787a79ff,
            MatterId::Water => 0x0f5e9cff,
        }
    }

    /// The display color split into red, green, blue and alpha bytes.
    pub fn color_rgba_u8(&self) -> (r: [u8; 4])
        ensures
            r@ == rgba_bytes(self.spec_color()),
    {
        rgba_u8(self.color())
    }
}

impl Default for MatterId {
    fn default() -> (r: MatterId)
        ensures
            r == MatterId::Empty,
    {
        MatterId::Empty
    }
}

pub open spec fn rgba_bytes(c: u32) -> Seq<u8> {
    seq![
        (c / 0x1000000) as u8,
        (c / 0x10000 % 0x100) as u8,
        (c / 0x100 % 0x100) as u8,
        (c % 0x100) as u8,
    ]
}

/// Splits `0xRRGGBBAA` into its four bytes, red first.
pub fn rgba_u8(c: u32) -> (r: [u8; 4])
    ensures
        r@ == rgba_bytes(c),
{
    let r = [(c / 0x1000000) as u8, (c / 0x10000 % 0x100) as u8, (c / 0x100 % 0x100) as u8, (c % 0x100) as u8];
    assert(r@ =~= rgba_bytes(c));
    r
}

/// A particle as the renderer sees it: its kind and the kind's color.
#[derive(Clone, Copy, PartialEq, Eq, Structural, Debug)]
pub struct MatterWithColor {
    pub id: MatterId,
    pub color: u32,
}

impl MatterWithColor {
    pub fn new(matter_id: MatterId) -> (r: MatterWithColor)
        ensures
            r.id == matter_id,
            r.color == matter_id.spec_color(),
    {
        MatterWithColor { id: matter_id, color: matter_id.color() }
    }

    pub fn matter_id(&self) -> (r: MatterId)
        ensures
            r == self.id,
    {
        self.id
    }
}


/// How particles of a matter kind move.
#[derive(Clone, Copy, PartialEq, Eq, Structural, Debug)]
pub enum MatterState {
    Empty,
    Powder,
    Liquid,
    Solid,
    SolidGravity,
    Gas,
    Energy,
    Object,
}

impl MatterState {
    /// Falls straight down, else diagonally.
    pub open spec fn spec_falls(self) -> bool {
        self == MatterState::Powder || self == MatterState::SolidGravity || self == MatterState::Liquid
    }

    pub fn falls(self) -> (r: bool)
        ensures
            r == self.spec_falls(),
    {
        match self {
            MatterState::Powder | MatterState::SolidGravity | MatterState::Liquid => true,
            _ => false,
        }
    }
}

pub const CORROSIVE: u32 = 1 << 0;
pub const CORRODES: u32 = 1 << 1;
pub const MELTING: u32 = 1 << 2;
pub const MELTS: u32 = 1 << 3;
pub const BURNING: u32 = 1 << 4;
pub const BURNS: u32 = 1 << 5;
pub const FREEZING: u32 = 1 << 6;
pub const FREEZES: u32 = 1 << 7;
pub const EXPLODING: u32 = 1 << 8;
pub const EXPLODES: u32 = 1 << 9;
pub const ELECTRIFIES: u32 = 1 << 10;
pub const CONDUCTS: u32 = 1 << 11;
pub const COOLING: u32 = 1 << 12;
pub const COOLS: u32 = 1 << 13;
pub const RUSTING: u32 = 1 << 14;
pub const RUSTS: u32 = 1 << 15;
pub const VAPORIZES: u32 = 1 << 16;
pub const ERASER: u32 = 1 << 17;

/// A set of characteristics, one bit per flag above.
#[derive(Clone, Copy, PartialEq, Eq, Structural, Debug)]
pub struct MatterCharacteristic {
    pub bits: u32,
}

impl MatterCharacteristic {
    pub open spec fn spec_intersects(self, other: MatterCharacteristic) -> bool {
        self.bits & other.bits != 0
    }

    pub fn empty() -> (r: MatterCharacteristic)
        ensures
            r.bits == 0,
    {
        MatterCharacteristic { bits: 0 }
    }

    pub fn from_bits(bits: u32) -> (r: MatterCharacteristic)
        ensures
            r.bits == bits,
    {
        MatterCharacteristic { bits }
    }

    pub fn union(self, other: MatterCharacteristic) -> (r: MatterCharacteristic)
        ensures
            r.bits == self.bits | other.bits,
    {
        MatterCharacteristic { bits: self.bits | other.bits }
    }

    /// True when the two sets share a flag.
    pub fn intersects(self, other: MatterCharacteristic) -> (r: bool)
        ensures
            r == self.spec_intersects(other),
    {
        self.bits & other.bits != 0
    }

    /// True when every flag of `other` is in `self`.
    pub fn contains(self, other: MatterCharacteristic) -> (r: bool)
        ensures
            r == (self.bits & other.bits == other.bits),
    {
        self.bits & other.bits == other.bits
    }
}

pub const UP_LEFT: u32 = 1 << 0;
pub const UP: u32 = 1 << 1;
pub const UP_RIGHT: u32 = 1 << 2;
pub const RIGHT: u32 = 1 << 3;
pub const DOWN_RIGHT: u32 = 1 << 4;
pub const DOWN: u32 = 1 << 5;
pub const DOWN_LEFT: u32 = 1 << 6;
pub const LEFT: u32 = 1 << 7;
pub const ALL_DIRECTIONS: u32 = 0xff;
pub const NO_DIRECTION: u32 = 0;

/// A set of neighbour directions; bit `i` is the `i`-th compass neighbour,
/// counted clockwise from the upper left.
#[derive(Clone, Copy, PartialEq, Eq, Structural, Debug)]
pub struct Direction {
    pub bits: u32,
}

impl Direction {
    pub open spec fn spec_has(self, i: nat) -> bool {
        i < 8 && self.bits & (1u32 << i) != 0
    }

    pub fn from_bits(bits: u32) -> (r: Direction)
        ensures
            r.bits == bits,
    {
        Direction { bits }
    }

    /// True when the `i`-th compass neighbour is in the set.
    pub fn has(self, i: u32) -> (r: bool)
        requires
            i < 8,
        ensures
            r == self.spec_has(i as nat),
    {
        self.bits & (1u32 << i) != 0
    }
}

/// Scale of reaction probabilities: `PROBABILITY_SCALE` means certain.
pub const PROBABILITY_SCALE: u32 = 1_000_000;

/// Most reactions one matter kind can hold.
pub const MAX_TRANSITIONS: usize = 5;

/// When a neighbour with one of `reacts` lies in one of `direction`, the
/// matter becomes `becomes` with chance `probability / PROBABILITY_SCALE`.
#[derive(Clone, Copy, PartialEq, Eq, Structural, Debug)]
pub struct MatterReaction {
    pub reacts: MatterCharacteristic,
    pub direction: Direction,
    pub probability: u32,
    pub becomes: MatterId,
}

impl MatterReaction {
    pub open spec fn spec_zero() -> MatterReaction {
        MatterReaction {
            reacts: MatterCharacteristic { bits: 0 },
            direction: Direction { bits: NO_DIRECTION },
            probability: 0,
            becomes: MatterId::Empty,
        }
    }

    /// A placeholder that never fires.
    pub fn zero() -> (r: MatterReaction)
        ensures
            r == MatterReaction::spec_zero(),
    {
        MatterReaction {
            reacts: MatterCharacteristic { bits: 0 },
            direction: Direction { bits: NO_DIRECTION },
            probability: 0,
            becomes: MatterId::Empty,
        }
    }

    /// Becomes empty with chance `p`; with no trigger it never fires.
    pub fn dies(p: u32) -> (r: MatterReaction)
        ensures
            r.reacts.bits == 0,
            r.direction.bits == ALL_DIRECTIONS,
            r.probability == p,
            r.becomes == MatterId::Empty,
    {
        MatterReaction {
            reacts: MatterCharacteristic { bits: 0 },
            direction: Direction { bits: ALL_DIRECTIONS },
            probability: p,
            becomes: MatterId::Empty,
        }
    }

    /// Reacts to a touching neighbour in any direction.
    pub fn becomes_on_touch(
        p: u32,
        touch_characteristic: MatterCharacteristic,
        becomes_matter: MatterId,
    ) -> (r: MatterReaction)
        ensures
            r.reacts == touch_characteristic,
            r.direction.bits == ALL_DIRECTIONS,
            r.probability == p,
            r.becomes == becomes_matter,
    {
        MatterReaction {
            reacts: touch_characteristic,
            direction: Direction { bits: ALL_DIRECTIONS },
            probability: p,
            becomes: becomes_matter,
        }
    }

    /// Reacts to a neighbour below, diagonally below or beside.
    pub fn becomes_on_touch_below(
        p: u32,
        touch_characteristic: MatterCharacteristic,
        becomes_matter: MatterId,
    ) -> (r: MatterReaction)
        ensures
            r.reacts == touch_characteristic,
            r.direction.bits == DOWN | DOWN_LEFT | DOWN_RIGHT | RIGHT | LEFT,
            r.probability == p,
            r.becomes == becomes_matter,
    {
        MatterReaction {
            reacts: touch_characteristic,
            direction: Direction { bits: DOWN | DOWN_LEFT | DOWN_RIGHT | RIGHT | LEFT },
            probability: p,
            becomes: becomes_matter,
        }
    }
}


/// What one matter kind is and does. `weight` is in hundredths and is not
/// used by the movement rules; `dispersion` is how far a liquid may flow
/// sideways in one tick.
#[derive(Clone, Copy, Debug)]
pub struct MatterDefinition {
    pub id: MatterId,
    pub color: u32,
    pub weight: u32,
    pub state: MatterState,
    pub characteristics: MatterCharacteristic,
    pub dispersion: u32,
    pub reactions: [MatterReaction; MAX_TRANSITIONS],
}

pub open spec fn zero_reactions() -> Seq<MatterReaction> {
    Seq::new(5, |i: int| MatterReaction::spec_zero())
}

/// Chance of one in twenty.
pub const CORROSION_CHANCE: u32 = 50_000;

/// Flow distance of water.
pub const WATER_DISPERSION: u32 = 4;

impl MatterDefinition {
    /// The built-in definition of each kind.
    pub open spec fn spec_new(id: MatterId) -> (MatterState, u32, u32, Seq<MatterReaction>) {
        let erased = MatterReaction {
            reacts: MatterCharacteristic { bits: ERASER },
            direction: Direction { bits: ALL_DIRECTIONS },
            probability: PROBABILITY_SCALE,
            becomes: MatterId::Empty,
        };
        let corroded = MatterReaction {
            reacts: MatterCharacteristic { bits: CORROSIVE },
            direction: Direction { bits: ALL_DIRECTIONS },
            probability: CORROSION_CHANCE,
            becomes: MatterId::Empty,
        };
        match id {
            MatterId::Empty => (MatterState::Empty, 0, 0, zero_reactions()),
            MatterId::Sand => (
                MatterState::Powder,
                MELTS | CORRODES,
                0,
                zero_reactions().update(0, corroded).update(1, erased),
            ),
            MatterId::Rock => (
                MatterState::SolidGravity,
                CORRODES,
                0,
                zero_reactions().update(0, corroded).update(1, erased),
            ),
            MatterId::Water => (
                MatterState::Liquid,
                RUSTING | COOLING | FREEZES | VAPORIZES,
                WATER_DISPERSION,
                zero_reactions().update(0, erased),
            ),
        }
    }

    /// Relative weight of each built-in kind, in hundredths.
    pub open spec fn spec_weight(id: MatterId) -> u32 {
        match id {
            MatterId::Empty => 0,
            MatterId::Sand => 150,
            MatterId::Rock => 250,
            MatterId::Water => 100,
        }
    }

    /// The definition with every field zero: the empty kind, inert.
    pub fn zero() -> (r: MatterDefinition)
        ensures
            r.id == MatterId::Empty,
            r.color == 0,
            r.weight == 0,
            r.state == MatterState::Empty,
            r.characteristics.bits == 0,
            r.dispersion == 0,
            r.reactions@ == zero_reactions(),
    {
        let z = MatterReaction::zero();
        let r = MatterDefinition {
            id: MatterId::Empty,
            color: 0,
            weight: 0,
            state: MatterState::Empty,
            characteristics: MatterCharacteristic::empty(),
            dispersion: 0,
            reactions: [z, z, z, z, z],
        };
        assert(r.reactions@ =~= zero_reactions());
        r
    }

    /// The built-in definition of `matter_id`.
    pub fn new(matter_id: MatterId) -> (r: MatterDefinition)
        ensures
            r.id == matter_id,
            r.color == matter_id.spec_color(),
            r.weight == MatterDefinition::spec_weight(matter_id),
            (r.state, r.characteristics.bits, r.dispersion, r.reactions@) == MatterDefinition::spec_new(matter_id),
    {
        let z = MatterReaction::zero();
        let erased = MatterReaction::becomes_on_touch(
            PROBABILITY_SCALE,
            MatterCharacteristic::from_bits(ERASER),
            MatterId::Empty,
        );
        let corroded = MatterReaction {
            reacts: MatterCharacteristic::from_bits(CORROSIVE),
            direction: Direction::from_bits(ALL_DIRECTIONS),
            probability: CORROSION_CHANCE,
            becomes: MatterId::Empty,
        };
        let r = match matter_id {
            MatterId::Empty => MatterDefinition::zero(),
            MatterId::Sand => MatterDefinition {
                id: MatterId::Sand,
                color: 0xc2b280ff,
                weight: 150,
                state: MatterState::Powder,
                characteristics: MatterCharacteristic::from_bits(MELTS | CORRODES),
                dispersion: 0,
                reactions: [corroded, erased, z, z, z],
            },
            MatterId::Rock => MatterDefinition {
                id: MatterId::Rock,
                color: 0x787a79ff,
                weight: 250,
                state: MatterState::SolidGravity,
                characteristics: MatterCharacteristic::from_bits(CORRODES),
                dispersion: 0,
                reactions: [corroded, erased, z, z, z],
            },
            MatterId::Water => MatterDefinition {
                id: MatterId::Water,
                color: 0x0f5e9cff,
                weight: 100,
                state: MatterState::Liquid,
                characteristics: MatterCharacteristic::from_bits(RUSTING | COOLING | FREEZES | VAPORIZES),
                dispersion: WATER_DISPERSION,
                reactions: [erased, z, z, z, z],
            },
        };
        assert(r.reactions@ =~= MatterDefinition::spec_new(matter_id).3);
        r
    }

    /// The particle that this kind paints.
    pub fn to_matter_with_color(&self) -> (r: MatterWithColor)
        ensures
            r.id == self.id,
            r.color == self.color,
    {
        MatterWithColor { id: self.id, color: self.color }
    }
}

} // verus!
