use vstd::prelude::*;
use crate::matter::{MatterDefinition, MatterId, MAX_TRANSITIONS};

verus! {

/// The definition at `i` carries the id of index `i`.
pub open spec fn id_matches(t: Seq<MatterDefinition>, i: int) -> bool {
    t[i].id.index() == i
}

/// Reaction `j` of definition `i` turns into a kind that `t` defines.
pub open spec fn result_in_range(t: Seq<MatterDefinition>, i: int, j: int) -> bool {
    t[i].reactions@[j].becomes.index() < t.len()
}

pub open spec fn results_in_range(t: Seq<MatterDefinition>, i: int) -> bool {
    forall|j: int| 0 <= j < MAX_TRANSITIONS ==> result_in_range(t, i, j)
}

pub open spec fn definition_ok(t: Seq<MatterDefinition>, i: int) -> bool {
    id_matches(t, i) && results_in_range(t, i)
}

/// Every id matches its index and every reaction result is defined.
pub open spec fn well_formed_table(t: Seq<MatterDefinition>) -> bool {
    forall|i: int| 0 <= i < t.len() ==> #[trigger] definition_ok(t, i)
}

/// Why a table of definitions was refused.
#[derive(Clone, Copy, PartialEq, Eq, Structural, Debug)]
pub enum ValidationError {
    /// The definition at `index` declares another id.
    IdMismatch { index: usize },
    /// Reaction `reaction` of the definition at `index` becomes a kind
    /// beyond the table.
    ResultOutOfRange { index: usize, reaction: usize },
}

/// The error that `define` reports for `t`: the first definition in table
/// order that is wrong, and in it the id before the reactions.
pub open spec fn first_error(t: Seq<MatterDefinition>, e: ValidationError) -> bool {
    match e {
        ValidationError::IdMismatch { index } => {
            &&& index < t.len()
            &&& forall|k: int| 0 <= k < index ==> definition_ok(t, k)
            &&& !id_matches(t, index as int)
        },
        ValidationError::ResultOutOfRange { index, reaction } => {
            &&& index < t.len()
            &&& reaction < MAX_TRANSITIONS
            &&& forall|k: int| 0 <= k < index ==> definition_ok(t, k)
            &&& id_matches(t, index as int)
            &&& forall|j: int| 0 <= j < reaction ==> result_in_range(t, index as int, j)
            &&& !result_in_range(t, index as int, reaction as int)
        },
    }
}

/// Validation is deterministic: a table has at most one first error.
pub proof fn lemma_first_error_unique(t: Seq<MatterDefinition>, e1: ValidationError, e2: ValidationError)
    requires
        first_error(t, e1),
        first_error(t, e2),
    ensures
        e1 == e2,
{
    let (i1, r1) = match e1 {
        ValidationError::IdMismatch { index } => (index as int, -1int),
        ValidationError::ResultOutOfRange { index, reaction } => (index as int, reaction as int),
    };
    let (i2, r2) = match e2 {
        ValidationError::IdMismatch { index } => (index as int, -1int),
        ValidationError::ResultOutOfRange { index, reaction } => (index as int, reaction as int),
    };
    if i1 < i2 {
        assert(definition_ok(t, i1));
    } else if i2 < i1 {
        assert(definition_ok(t, i2));
    } else if r1 < r2 && r1 >= 0 {
        assert(result_in_range(t, i1, r1));
    } else if r2 < r1 && r2 >= 0 {
        assert(result_in_range(t, i2, r2));
    }
}

/// A validated, immutable table of matter definitions indexed by id.
pub struct Registry {
    defs: Vec<MatterDefinition>,
}

impl View for Registry {
    type V = Seq<MatterDefinition>;

    closed spec fn view(&self) -> Seq<MatterDefinition> {
        self.defs@
    }
}

impl Registry {
    #[verifier::type_invariant]
    closed spec fn inv(self) -> bool {
        well_formed_table(self.defs@)
    }

    /// Validates `table` and takes it as the registry.
    pub fn define(table: Vec<MatterDefinition>) -> (r: Result<Registry, ValidationError>)
        ensures
            r.is_ok() <==> well_formed_table(table@),
            r matches Ok(reg) ==> reg@ == table@,
            r matches Err(e) ==> first_error(table@, e),
    {
        let n = table.len();
        let mut i: usize = 0;
        while i < n
            invariant
                n == table@.len(),
                i <= n,
                forall|k: int| 0 <= k < i ==> definition_ok(table@, k),
            decreases n - i,
        {
            let d = table[i];
            if d.id.as_u8() as usize != i {
                assert(!definition_ok(table@, i as int));
                return Err(ValidationError::IdMismatch { index: i });
            }
            let mut j: usize = 0;
            while j < MAX_TRANSITIONS
                invariant
                    n == table@.len(),
                    i < n,
                    d == table@[i as int],
                    id_matches(table@, i as int),
                    forall|k: int| 0 <= k < i ==> definition_ok(table@, k),
                    j <= MAX_TRANSITIONS,
                    forall|l: int| 0 <= l < j ==> result_in_range(table@, i as int, l),
                decreases MAX_TRANSITIONS - j,
            {
                if d.reactions[j].becomes.as_u8() as usize >= n {
                    assert(!result_in_range(table@, i as int, j as int));
                    assert(!definition_ok(table@, i as int));
                    return Err(ValidationError::ResultOutOfRange { index: i, reaction: j });
                }
                j += 1;
            }
            assert(definition_ok(table@, i as int));
            i += 1;
        }
        Ok(Registry { defs: table })
    }

    /// The built-in table: empty, sand, rock and water.
    pub fn standard() -> (r: Registry)
        ensures
            r@.len() == 4,
            forall|i: int| 0 <= i < 4 ==> (#[trigger] r@[i]).id.index() == i,
            forall|i: int|
                0 <= i < 4 ==> ((#[trigger] r@[i]).state, r@[i].characteristics.bits, r@[i].dispersion,
                r@[i].reactions@) == MatterDefinition::spec_new(r@[i].id),
    {
        let mut defs: Vec<MatterDefinition> = Vec::new();
        defs.push(MatterDefinition::new(MatterId::Empty));
        defs.push(MatterDefinition::new(MatterId::Sand));
        defs.push(MatterDefinition::new(MatterId::Rock));
        defs.push(MatterDefinition::new(MatterId::Water));
        assert forall|i: int| 0 <= i < defs@.len() implies #[trigger] definition_ok(defs@, i) by {
            assert forall|j: int| 0 <= j < MAX_TRANSITIONS implies result_in_range(defs@, i, j) by {
                assert(defs@[i].reactions@[j].becomes == MatterId::Empty);
            }
        }
        Registry { defs }
    }

    pub fn len(&self) -> (r: usize)
        ensures
            r == self@.len(),
            well_formed_table(self@),
    {
        proof {
            use_type_invariant(self);
        }
        self.defs.len()
    }

    /// True when the registry defines the kind `id`.
    pub fn defines(&self, id: MatterId) -> (r: bool)
        ensures
            r == (id.index() < self@.len()),
    {
        (id.as_u8() as usize) < self.defs.len()
    }

    /// The definition of `id`.
    pub fn lookup(&self, id: MatterId) -> (r: &MatterDefinition)
        requires
            id.index() < self@.len(),
        ensures
            *r == self@[id.index() as int],
    {
        &self.defs[id.as_u8() as usize]
    }

    /// The definitions in id order.
    pub fn definitions(&self) -> (r: &Vec<MatterDefinition>)
        ensures
            r@ == self@,
    {
        &self.defs
    }
}

} // verus!
