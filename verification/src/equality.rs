use vstd::prelude::*;

use crate::floatbits::{eq_bits, float_eq, is_nan, is_zero};
use crate::memory::{live, Heap, MemoryManager};
use crate::value::VmData;

verus! {

broadcast use vstd::seq::group_seq_axioms;

/// Deep equality of two values, following object references at most
/// `fuel` levels deep: scalars compare by value (floats as IEEE numbers),
/// a slot equals itself, and two distinct live objects are equal when they
/// have the same kind and pairwise equal data.
pub open spec fn same_value(h: Heap, a: VmData, b: VmData, fuel: nat) -> bool
    decreases fuel, 1nat, 0nat,
{
    match (a, b) {
        (VmData::Int(x), VmData::Int(y)) => x == y,
        (VmData::Float(x), VmData::Float(y)) => float_eq(x, y),
        (VmData::Bool(x), VmData::Bool(y)) => x == y,
        (VmData::Char(x), VmData::Char(y)) => x == y,
        (VmData::Nil, VmData::Nil) => true,
        (VmData::Function(x), VmData::Function(y)) => x == y,
        (VmData::StackAddress(x), VmData::StackAddress(y)) => x == y,
        (VmData::Object(i), VmData::Object(j)) => {
            if i == j {
                true
            } else if !(live(h, i as int) && live(h, j as int)) {
                false
            } else if fuel == 0 {
                false
            } else {
                let oa = h[i as int]->0.object;
                let ob = h[j as int]->0.object;
                &&& oa.object_type@ == ob.object_type@
                &&& oa.data@.len() == ob.data@.len()
                &&& same_all(h, oa.data@, ob.data@, (fuel - 1) as nat)
            }
        },
        _ => false,
    }
}

/// The elements of `da` and `db` are pairwise equal (`same_value`); `da`
/// sets the length compared.
pub open spec fn same_all(h: Heap, da: Seq<VmData>, db: Seq<VmData>, fuel: nat) -> bool
    decreases fuel, 2nat, da.len(),
{
    if da.len() == 0 {
        true
    } else {
        same_all(h, da.drop_last(), db, fuel) && same_value(h, da.last(), db[da.len() - 1], fuel)
    }
}

/// Deep equality as `EQUALS` computes it: references followed up to one
/// level more than the heap has slots.
pub open spec fn values_equal(h: Heap, a: VmData, b: VmData) -> bool {
    same_value(h, a, b, h.len() + 1)
}

/// Deep equality on two scalars of the same kind is equality of their
/// payloads, at any depth.
pub proof fn law_equal_scalars(h: Heap, fuel: nat)
    ensures
        forall|x: char, y: char| #[trigger] same_value(h, VmData::Char(x), VmData::Char(y), fuel) <==> x == y,
        forall|x: i64, y: i64| #[trigger] same_value(h, VmData::Int(x), VmData::Int(y), fuel) <==> x == y,
        forall|x: bool, y: bool| #[trigger] same_value(h, VmData::Bool(x), VmData::Bool(y), fuel) <==> x == y,
        forall|x: usize, y: usize|
            #[trigger] same_value(h, VmData::Function(x), VmData::Function(y), fuel) <==> x == y,
        forall|x: usize, y: usize|
            #[trigger] same_value(h, VmData::StackAddress(x), VmData::StackAddress(y), fuel) <==> x == y,
{
    assert forall|x: char, y: char| #[trigger] same_value(h, VmData::Char(x), VmData::Char(y), fuel) <==> x == y by {
        lemma_equal_chars(h, fuel, x, y);
    }
    assert forall|x: i64, y: i64| #[trigger] same_value(h, VmData::Int(x), VmData::Int(y), fuel) <==> x == y by {}
    assert forall|x: bool, y: bool| #[trigger] same_value(h, VmData::Bool(x), VmData::Bool(y), fuel) <==> x == y by {}
    assert forall|x: usize, y: usize|
        #[trigger] same_value(h, VmData::Function(x), VmData::Function(y), fuel) <==> x == y by {}
    assert forall|x: usize, y: usize|
        #[trigger] same_value(h, VmData::StackAddress(x), VmData::StackAddress(y), fuel) <==> x == y by {}
}

/// Which kind of value `v` is.
pub open spec fn kind_of(v: VmData) -> int {
    match v {
        VmData::StackAddress(_) => 0,
        VmData::Function(_) => 1,
        VmData::Int(_) => 2,
        VmData::Float(_) => 3,
        VmData::Bool(_) => 4,
        VmData::Char(_) => 5,
        VmData::Object(_) => 6,
        VmData::Nil => 7,
    }
}

/// Values of different kinds are never deeply equal; `None` equals `None`;
/// a reference equals itself; a NaN float equals nothing; a float that is
/// not NaN equals itself.
pub proof fn law_equal_kinds(h: Heap, a: VmData, b: VmData, fuel: nat)
    ensures
        kind_of(a) != kind_of(b) ==> !same_value(h, a, b, fuel),
        same_value(h, VmData::Nil, VmData::Nil, fuel),
        a matches VmData::Object(i) ==> same_value(h, a, a, fuel),
        a matches VmData::Float(x) && is_nan(x) ==> !same_value(h, a, b, fuel) && !same_value(h, b, a, fuel),
        a matches VmData::Float(x) && !is_nan(x) ==> same_value(h, a, a, fuel),
{
}

/// Deep equality on floats is IEEE equality of their bit patterns: a NaN
/// equals nothing, the two zeros equal each other, any other float equals
/// exactly the float with the same bits.
pub proof fn law_equal_floats(h: Heap, x: u64, y: u64, fuel: nat)
    ensures
        is_nan(x) || is_nan(y) ==> !same_value(h, VmData::Float(x), VmData::Float(y), fuel),
        !is_nan(x) && x == y ==> same_value(h, VmData::Float(x), VmData::Float(y), fuel),
        is_zero(x) && is_zero(y) ==> same_value(h, VmData::Float(x), VmData::Float(y), fuel),
        x != y && !(is_zero(x) && is_zero(y)) ==> !same_value(h, VmData::Float(x), VmData::Float(y), fuel),
{
}

/// Two characters are deeply equal exactly when they are the same.
proof fn lemma_equal_chars(h: Heap, fuel: nat, x: char, y: char)
    ensures
        same_value(h, VmData::Char(x), VmData::Char(y), fuel) <==> x == y,
{
}

/// One more element of `same_all`.
pub proof fn lemma_same_all_step(h: Heap, da: Seq<VmData>, db: Seq<VmData>, fuel: nat, k: int)
    requires
        0 <= k < da.len(),
    ensures
        same_all(h, da.subrange(0, k + 1), db, fuel) == (same_all(h, da.subrange(0, k), db, fuel)
            && same_value(h, da[k], db[k], fuel)),
{
    assert(da.subrange(0, k + 1).drop_last() =~= da.subrange(0, k));
}

impl MemoryManager {
    /// Deep equality, following references at most `fuel` levels deep.
    pub fn deep_equal(&self, a: &VmData, b: &VmData, fuel: usize) -> (res: bool)
        ensures
            res == same_value(self.heap@, *a, *b, fuel as nat),
        decreases fuel, 1nat,
    {
        match (a, b) {
            (VmData::Int(x), VmData::Int(y)) => *x == *y,
            (VmData::Float(x), VmData::Float(y)) => eq_bits(*x, *y),
            (VmData::Bool(x), VmData::Bool(y)) => *x == *y,
            (VmData::Char(x), VmData::Char(y)) => *x == *y,
            (VmData::Nil, VmData::Nil) => true,
            (VmData::Function(x), VmData::Function(y)) => *x == *y,
            (VmData::StackAddress(x), VmData::StackAddress(y)) => *x == *y,
            (VmData::Object(i), VmData::Object(j)) => {
                if *i == *j {
                    return true;
                }
                let (oa, ob) = match (self.ref_from_heap(*i), self.ref_from_heap(*j)) {
                    (Some(oa), Some(ob)) => (oa, ob),
                    _ => {
                        return false;
                    },
                };
                if fuel == 0 {
                    return false;
                }
                if !oa.object_type.same_as(&ob.object_type) {
                    return false;
                }
                if oa.data.len() != ob.data.len() {
                    return false;
                }
                self.equal_all(&oa.data, &ob.data, fuel - 1)
            },
            _ => false,
        }
    }

    /// The elements of `da` and `db` (of equal length) are pairwise equal.
    fn equal_all(&self, da: &Vec<VmData>, db: &Vec<VmData>, fuel: usize) -> (res: bool)
        requires
            da@.len() == db@.len(),
        ensures
            res == same_all(self.heap@, da@, db@, fuel as nat),
        decreases fuel, 2nat,
    {
        let mut k: usize = 0;
        assert(da@.subrange(0, 0) =~= Seq::<VmData>::empty());
        while k < da.len()
            invariant
                k <= da@.len(),
                da@.len() == db@.len(),
                same_all(self.heap@, da@.subrange(0, k as int), db@, fuel as nat),
            decreases da@.len() - k,
        {
            proof {
                lemma_same_all_step(self.heap@, da@, db@, fuel as nat, k as int);
            }
            if !self.deep_equal(&da[k], &db[k], fuel) {
                proof {
                    lemma_same_all_false(self.heap@, da@, db@, fuel as nat, k as int);
                }
                return false;
            }
            k += 1;
        }
        assert(da@.subrange(0, da@.len() as int) =~= da@);
        true
    }
}

/// A false pair makes every longer prefix unequal.
pub proof fn lemma_same_all_false(h: Heap, da: Seq<VmData>, db: Seq<VmData>, fuel: nat, k: int)
    requires
        0 <= k < da.len(),
        !same_value(h, da[k], db[k], fuel),
    ensures
        !same_all(h, da, db, fuel),
    decreases da.len(),
{
    if k < da.len() - 1 {
        lemma_same_all_false(h, da.drop_last(), db, fuel, k);
    }
}

} // verus!
