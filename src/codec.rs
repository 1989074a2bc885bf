use vstd::prelude::*;
use vstd::bytes::{
    lemma_auto_spec_u32_to_from_le_bytes, spec_u32_from_le_bytes, spec_u32_to_le_bytes, u32_from_le_bytes,
    u32_to_le_bytes,
};
use vstd::slice::slice_subrange;
use crate::registry::well_formed_table;
use crate::grid::Grid;
use crate::tick::tick;
use crate::matter::{
    Direction, MatterCharacteristic, MatterDefinition, MatterId, MatterReaction, MatterState, MAX_TRANSITIONS,
};

verus! {

/// Words in the record of one definition: id, color, weight, state,
/// characteristics, dispersion, then for each reaction its trigger,
/// directions, probability and result.
pub const RECORD_WORDS: usize = 26;

/// Bytes in one record: each word little-endian.
pub const RECORD_BYTES: usize = 104;

pub open spec fn state_code(s: MatterState) -> u32 {
    match s {
        MatterState::Empty => 0,
        MatterState::Powder => 1,
        MatterState::Liquid => 2,
        MatterState::Solid => 3,
        MatterState::SolidGravity => 4,
        MatterState::Gas => 5,
        MatterState::Energy => 6,
        MatterState::Object => 7,
    }
}

pub open spec fn reaction_word(rc: MatterReaction, f: int) -> u32 {
    if f == 0 {
        rc.reacts.bits
    } else if f == 1 {
        rc.direction.bits
    } else if f == 2 {
        rc.probability
    } else {
        rc.becomes.index() as u32
    }
}

/// Word `w` of the record of `d`.
pub open spec fn record_word(d: MatterDefinition, w: int) -> u32 {
    if w == 0 {
        d.id.index() as u32
    } else if w == 1 {
        d.color
    } else if w == 2 {
        d.weight
    } else if w == 3 {
        state_code(d.state)
    } else if w == 4 {
        d.characteristics.bits
    } else if w == 5 {
        d.dispersion
    } else {
        reaction_word(d.reactions@[(w - 6) / 4], (w - 6) % 4)
    }
}

/// Word `k` of `b`, read little-endian.
pub open spec fn word_at(b: Seq<u8>, k: int) -> u32 {
    spec_u32_from_le_bytes(b.subrange(4 * k, 4 * k + 4))
}

/// `b` is the encoding of the table `t`: one record per definition, in order.
pub open spec fn encodes(b: Seq<u8>, t: Seq<MatterDefinition>) -> bool {
    &&& b.len() == RECORD_BYTES * t.len()
    &&& forall|i: int, w: int|
        0 <= i < t.len() && 0 <= w < RECORD_WORDS ==> #[trigger] word_at(b, RECORD_WORDS * i + w)
            == record_word(t[i], w)
}

/// Record `i` of `b` holds a known id, state and reaction results.
pub open spec fn valid_record(b: Seq<u8>, i: int) -> bool {
    &&& word_at(b, RECORD_WORDS * i) < 4
    &&& word_at(b, RECORD_WORDS * i + 3) < 8
    &&& forall|r: int| 0 <= r < MAX_TRANSITIONS ==> #[trigger] word_at(b, RECORD_WORDS * i + 9 + 4 * r) < 4
}

/// `b` is a whole number of records, each of them valid.
pub open spec fn decodable(b: Seq<u8>) -> bool {
    &&& b.len() as int % (RECORD_BYTES as int) == 0
    &&& forall|i: int| 0 <= i < b.len() as int / (RECORD_BYTES as int) ==> #[trigger] valid_record(b, i)
}

fn state_code_exec(s: MatterState) -> (r: u32)
    ensures
        r == state_code(s),
{
    match s {
        MatterState::Empty => 0,
        MatterState::Powder => 1,
        MatterState::Liquid => 2,
        MatterState::Solid => 3,
        MatterState::SolidGravity => 4,
        MatterState::Gas => 5,
        MatterState::Energy => 6,
        MatterState::Object => 7,
    }
}

fn state_from_code(c: u32) -> (r: Option<MatterState>)
    ensures
        r.is_some() == (c < 8),
        r matches Some(s) ==> state_code(s) == c,
{
    if c == 0 {
        Some(MatterState::Empty)
    } else if c == 1 {
        Some(MatterState::Powder)
    } else if c == 2 {
        Some(MatterState::Liquid)
    } else if c == 3 {
        Some(MatterState::Solid)
    } else if c == 4 {
        Some(MatterState::SolidGravity)
    } else if c == 5 {
        Some(MatterState::Gas)
    } else if c == 6 {
        Some(MatterState::Energy)
    } else if c == 7 {
        Some(MatterState::Object)
    } else {
        None
    }
}

fn id_from_word(c: u32) -> (r: Option<MatterId>)
    ensures
        r.is_some() == (c < 4),
        r matches Some(m) ==> m.index() == c,
{
    if c < 4 {
        MatterId::from_u8(c as u8)
    } else {
        None
    }
}

fn record_word_exec(d: &MatterDefinition, w: usize) -> (r: u32)
    requires
        w < RECORD_WORDS,
    ensures
        r == record_word(*d, w as int),
{
    if w == 0 {
        d.id.as_u8() as u32
    } else if w == 1 {
        d.color
    } else if w == 2 {
        d.weight
    } else if w == 3 {
        state_code_exec(d.state)
    } else if w == 4 {
        d.characteristics.bits
    } else if w == 5 {
        d.dispersion
    } else {
        let rc = d.reactions[(w - 6) / 4];
        let f = (w - 6) % 4;
        if f == 0 {
            rc.reacts.bits
        } else if f == 1 {
            rc.direction.bits
        } else if f == 2 {
            rc.probability
        } else {
            rc.becomes.as_u8() as u32
        }
    }
}

/// Appends `v` little-endian; earlier words keep their values.
fn push_word(out: &mut Vec<u8>, v: u32)
    requires
        old(out)@.len() % 4 == 0,
    ensures
        final(out)@.len() == old(out)@.len() + 4,
        final(out)@.subrange(0, old(out)@.len() as int) == old(out)@,
        word_at(final(out)@, old(out)@.len() as int / 4) == v,
        forall|k: int| 0 <= k && 4 * k + 4 <= old(out)@.len() ==> #[trigger] word_at(final(out)@, k) == word_at(old(out)@, k),
{
    let ghost before = out@;
    let mut bytes = u32_to_le_bytes(v);
    out.append(&mut bytes);
    proof {
        lemma_auto_spec_u32_to_from_le_bytes();
        let k0 = before.len() as int / 4;
        assert(out@.subrange(4 * k0, 4 * k0 + 4) =~= spec_u32_to_le_bytes(v));
        assert(out@.subrange(0, before.len() as int) =~= before);
        assert forall|k: int| 0 <= k && 4 * k + 4 <= before.len() implies #[trigger] word_at(out@, k) == word_at(before, k) by {
            assert(out@.subrange(4 * k, 4 * k + 4) =~= before.subrange(4 * k, 4 * k + 4));
        }
    }
}

/// Writes each definition of `table` as one record.
pub fn encode(table: &Vec<MatterDefinition>) -> (r: Vec<u8>)
    requires
        table@.len() * RECORD_BYTES <= usize::MAX,
    ensures
        encodes(r@, table@),
{
    let mut out: Vec<u8> = Vec::new();
    let n = table.len();
    let mut i: usize = 0;
    while i < n
        invariant
            n == table@.len(),
            n * RECORD_BYTES <= usize::MAX,
            i <= n,
            out@.len() == RECORD_BYTES * i,
            forall|i2: int, w: int|
                0 <= i2 < i && 0 <= w < RECORD_WORDS ==> #[trigger] word_at(out@, RECORD_WORDS * i2 + w)
                    == record_word(table@[i2], w),
        decreases n - i,
    {
        let d = table[i];
        let mut w: usize = 0;
        while w < RECORD_WORDS
            invariant
                n == table@.len(),
                n * RECORD_BYTES <= usize::MAX,
                i < n,
                d == table@[i as int],
                w <= RECORD_WORDS,
                out@.len() == RECORD_BYTES * i + 4 * w,
                forall|i2: int, w2: int|
                    0 <= i2 < i && 0 <= w2 < RECORD_WORDS ==> #[trigger] word_at(out@, RECORD_WORDS * i2 + w2)
                        == record_word(table@[i2], w2),
                forall|w2: int| 0 <= w2 < w ==> #[trigger] word_at(out@, RECORD_WORDS * i + w2) == record_word(d, w2),
            decreases RECORD_WORDS - w,
        {
            let v = record_word_exec(&d, w);
            let ghost before = out@;
            push_word(&mut out, v);
            proof {
                assert(before.len() as int / 4 == RECORD_WORDS * i + w);
                assert forall|i2: int, w2: int|
                    0 <= i2 < i && 0 <= w2 < RECORD_WORDS implies #[trigger] word_at(out@, RECORD_WORDS * i2 + w2)
                        == record_word(table@[i2 as int], w2) by {
                    assert(word_at(out@, RECORD_WORDS * i2 + w2) == word_at(before, RECORD_WORDS * i2 + w2));
                }
                assert forall|w2: int| 0 <= w2 < w + 1 implies #[trigger] word_at(out@, RECORD_WORDS * i + w2)
                    == record_word(d, w2) by {
                    if w2 < w {
                        assert(word_at(out@, RECORD_WORDS * i + w2) == word_at(before, RECORD_WORDS * i + w2));
                    }
                }
            }
            w += 1;
        }
        i += 1;
    }
    out
}


/// Why bytes could not be read back as a table.
#[derive(Clone, Copy, PartialEq, Eq, Structural, Debug)]
pub enum DecodeError {
    /// The length is not a whole number of records.
    Length,
    /// Record `index` holds an unknown id, state or reaction result.
    Record { index: usize },
}

fn read_word(b: &[u8], k: usize) -> (r: u32)
    requires
        4 * k + 4 <= b@.len(),
    ensures
        r == word_at(b@, k as int),
{
    let len = b.len();
    assert(4 * k + 4 <= len);
    let s = slice_subrange(b, 4 * k, 4 * k + 4);
    u32_from_le_bytes(s)
}

/// The reaction whose four words start at word `k`.
fn read_reaction(b: &[u8], k: usize) -> (r: Option<MatterReaction>)
    requires
        4 * k + 16 <= b@.len(),
    ensures
        r.is_some() == (word_at(b@, k + 3) < 4),
        r matches Some(rc) ==> forall|f: int| 0 <= f < 4 ==> #[trigger] reaction_word(rc, f) == word_at(b@, k + f),
{
    let len = b.len();
    assert(4 * k + 16 <= len);
    let reacts = read_word(b, k);
    let direction = read_word(b, k + 1);
    let probability = read_word(b, k + 2);
    match id_from_word(read_word(b, k + 3)) {
        Some(becomes) => Some(
            MatterReaction {
                reacts: MatterCharacteristic::from_bits(reacts),
                direction: Direction::from_bits(direction),
                probability,
                becomes,
            },
        ),
        None => None,
    }
}

/// Record `i` of `b`, when it is valid.
fn read_record(b: &[u8], i: usize) -> (r: Option<MatterDefinition>)
    requires
        RECORD_BYTES * i + RECORD_BYTES <= b@.len(),
    ensures
        r.is_some() == valid_record(b@, i as int),
        r matches Some(d) ==> forall|w: int|
            0 <= w < RECORD_WORDS ==> #[trigger] word_at(b@, RECORD_WORDS * i + w) == record_word(d, w),
{
    let len = b.len();
    assert(RECORD_BYTES * i + RECORD_BYTES <= len);
    let k = i * RECORD_WORDS;
    let id = id_from_word(read_word(b, k));
    let color = read_word(b, k + 1);
    let weight = read_word(b, k + 2);
    let state = state_from_code(read_word(b, k + 3));
    let characteristics = read_word(b, k + 4);
    let dispersion = read_word(b, k + 5);
    let r0 = read_reaction(b, k + 6);
    let r1 = read_reaction(b, k + 10);
    let r2 = read_reaction(b, k + 14);
    let r3 = read_reaction(b, k + 18);
    let r4 = read_reaction(b, k + 22);
    let ghost bv = b@;
    proof {
        if !(r0.is_some() && r1.is_some() && r2.is_some() && r3.is_some() && r4.is_some()) {
            let r = if r0.is_none() {
                0int
            } else if r1.is_none() {
                1int
            } else if r2.is_none() {
                2int
            } else if r3.is_none() {
                3int
            } else {
                4int
            };
            assert(!(word_at(bv, RECORD_WORDS * i + 9 + 4 * r) < 4));
        }
    }
    match (id, state, r0, r1, r2, r3, r4) {
        (Some(id), Some(state), Some(a), Some(b1), Some(c), Some(d1), Some(e)) => {
            let d = MatterDefinition {
                id,
                color,
                weight,
                state,
                characteristics: MatterCharacteristic::from_bits(characteristics),
                dispersion,
                reactions: [a, b1, c, d1, e],
            };
            proof {
                assert forall|r: int| 0 <= r < MAX_TRANSITIONS implies #[trigger] word_at(
                    bv,
                    RECORD_WORDS * i + 9 + 4 * r,
                ) < 4 by {
                    if r == 0 {
                        assert(reaction_word(a, 3) == word_at(bv, k + 6 + 3));
                    } else if r == 1 {
                        assert(reaction_word(b1, 3) == word_at(bv, k + 10 + 3));
                    } else if r == 2 {
                        assert(reaction_word(c, 3) == word_at(bv, k + 14 + 3));
                    } else if r == 3 {
                        assert(reaction_word(d1, 3) == word_at(bv, k + 18 + 3));
                    } else {
                        assert(reaction_word(e, 3) == word_at(bv, k + 22 + 3));
                    }
                }
                assert forall|w: int| 0 <= w < RECORD_WORDS implies #[trigger] word_at(bv, RECORD_WORDS * i + w)
                    == record_word(d, w) by {
                    if 6 <= w < 10 {
                        assert((w - 6) / 4 == 0 && (w - 6) % 4 == w - 6);
                        assert(reaction_word(a, w - 6) == word_at(bv, k + 6 + (w - 6)));
                    } else if 10 <= w < 14 {
                        assert((w - 6) / 4 == 1 && (w - 6) % 4 == w - 10);
                        assert(reaction_word(b1, w - 10) == word_at(bv, k + 10 + (w - 10)));
                    } else if 14 <= w < 18 {
                        assert((w - 6) / 4 == 2 && (w - 6) % 4 == w - 14);
                        assert(reaction_word(c, w - 14) == word_at(bv, k + 14 + (w - 14)));
                    } else if 18 <= w < 22 {
                        assert((w - 6) / 4 == 3 && (w - 6) % 4 == w - 18);
                        assert(reaction_word(d1, w - 18) == word_at(bv, k + 18 + (w - 18)));
                    } else if 22 <= w {
                        assert((w - 6) / 4 == 4 && (w - 6) % 4 == w - 22);
                        assert(reaction_word(e, w - 22) == word_at(bv, k + 22 + (w - 22)));
                    }
                }
            }
            Some(d)
        },
        _ => None,
    }
}

/// Reads a table back from its records.
pub fn decode(b: &[u8]) -> (r: Result<Vec<MatterDefinition>, DecodeError>)
    ensures
        r.is_ok() == decodable(b@),
        r matches Ok(t) ==> encodes(b@, t@),
        r matches Err(DecodeError::Length) ==> b@.len() as int % (RECORD_BYTES as int) != 0,
        r matches Err(DecodeError::Record { index }) ==> {
            &&& b@.len() as int % (RECORD_BYTES as int) == 0
            &&& index < b@.len() as int / (RECORD_BYTES as int)
            &&& !valid_record(b@, index as int)
            &&& forall|j: int| 0 <= j < index ==> valid_record(b@, j)
        },
{
    let len = b.len();
    if len % RECORD_BYTES != 0 {
        return Err(DecodeError::Length);
    }
    let n = len / RECORD_BYTES;
    let mut out: Vec<MatterDefinition> = Vec::new();
    let mut i: usize = 0;
    while i < n
        invariant
            len == b@.len(),
            len % RECORD_BYTES == 0,
            n == len / RECORD_BYTES,
            i <= n,
            out@.len() == i,
            forall|i2: int| 0 <= i2 < i ==> #[trigger] valid_record(b@, i2),
            forall|i2: int, w: int|
                0 <= i2 < i && 0 <= w < RECORD_WORDS ==> #[trigger] word_at(b@, RECORD_WORDS * i2 + w)
                    == record_word(out@[i2], w),
        decreases n - i,
    {
        match read_record(b, i) {
            Some(d) => {
                out.push(d);
            },
            None => {
                return Err(DecodeError::Record { index: i });
            },
        }
        i += 1;
    }
    Ok(out)
}


/// Two definitions with the same record are the same.
pub proof fn lemma_record_injective(d1: MatterDefinition, d2: MatterDefinition)
    requires
        forall|w: int| 0 <= w < RECORD_WORDS ==> #[trigger] record_word(d1, w) == record_word(d2, w),
    ensures
        d1 == d2,
{
    assert(record_word(d1, 0) == record_word(d2, 0));
    assert(record_word(d1, 3) == record_word(d2, 3));
    assert forall|r: int| 0 <= r < MAX_TRANSITIONS implies d1.reactions@[r] == d2.reactions@[r] by {
        let w = 6 + 4 * r;
        assert(record_word(d1, w) == record_word(d2, w));
        assert(record_word(d1, w + 1) == record_word(d2, w + 1));
        assert(record_word(d1, w + 2) == record_word(d2, w + 2));
        assert(record_word(d1, w + 3) == record_word(d2, w + 3));
        assert((w - 6) / 4 == r && (w + 1 - 6) / 4 == r && (w + 2 - 6) / 4 == r && (w + 3 - 6) / 4 == r);
        assert((w - 6) % 4 == 0 && (w + 1 - 6) % 4 == 1 && (w + 2 - 6) % 4 == 2 && (w + 3 - 6) % 4 == 3);
    }
    assert(d1.reactions@ =~= d2.reactions@);
    assert(d1.reactions == d2.reactions);
    assert(record_word(d1, 1) == record_word(d2, 1));
    assert(record_word(d1, 2) == record_word(d2, 2));
    assert(record_word(d1, 4) == record_word(d2, 4));
    assert(record_word(d1, 5) == record_word(d2, 5));
}

/// Serializing and reloading gives the table back: the bytes written for
/// `t` are decodable, and any table they decode to is `t`. So the reloaded
/// table validates as `t` does, and every tick under it is the same.
pub proof fn lemma_round_trip(b: Seq<u8>, t: Seq<MatterDefinition>, t2: Seq<MatterDefinition>)
    requires
        encodes(b, t),
        encodes(b, t2),
    ensures
        decodable(b),
        t2 == t,
        well_formed_table(t2) == well_formed_table(t),
        forall|g: Grid, draws: spec_fn(int, int, int) -> u32, react: bool|
            #[trigger] tick(g, t2, draws, react) == tick(g, t, draws, react),
{
    assert(t.len() == t2.len());
    assert forall|i: int| 0 <= i < b.len() as int / (RECORD_BYTES as int) implies #[trigger] valid_record(b, i) by {
        assert(b.len() as int / (RECORD_BYTES as int) == t.len());
        assert(word_at(b, RECORD_WORDS * i + 0) == record_word(t[i], 0));
        assert(word_at(b, RECORD_WORDS * i + 3) == record_word(t[i], 3));
        assert forall|r: int| 0 <= r < MAX_TRANSITIONS implies #[trigger] word_at(b, RECORD_WORDS * i + 9 + 4 * r)
            < 4 by {
            let w = 9 + 4 * r;
            assert((w - 6) / 4 == r && (w - 6) % 4 == 3);
            assert(word_at(b, RECORD_WORDS * i + w) == record_word(t[i], w));
        }
    }
    assert forall|i: int| 0 <= i < t.len() implies t2[i] == t[i] by {
        assert forall|w: int| 0 <= w < RECORD_WORDS implies #[trigger] record_word(t2[i], w) == record_word(t[i], w) by {
            assert(word_at(b, RECORD_WORDS * i + w) == record_word(t[i], w));
        }
        lemma_record_injective(t2[i], t[i]);
    }
    assert(t2 =~= t);
}

} // verus!
