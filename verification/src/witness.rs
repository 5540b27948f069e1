//! Writing concrete values into one row of the witness trace.

use vstd::prelude::*;

use crate::expr::{Fixed, WitIn};
use crate::field::Fp;

verus! {

/// Writes `v` into the slot of witness column `w` in one trace row.
pub fn set_val(instance: &mut Vec<Fp>, w: WitIn, v: Fp)
    requires
        w.id < old(instance)@.len(),
    ensures
        final(instance)@ == old(instance)@.update(w.id as int, v),
{
    instance[w.id] = v;
}

/// Writes `v` into the slot of fixed column `c` in one table row.
pub fn set_fixed_val(row: &mut Vec<Fp>, c: Fixed, v: Fp)
    requires
        c.id < old(row)@.len(),
    ensures
        final(row)@ == old(row)@.update(c.id as int, v),
{
    row[c.id] = v;
}

} // verus!
