use vstd::prelude::*;

use crate::equality::{same_all, same_value};
use crate::floatbits::is_nan;
use crate::parser::{builtin, id_at, op_at, sym_at, type_at, Operator, ParseError, StructuralSymbol, Token};
use crate::memory::{
    collected_heap, count_live, free_ok, live, lowered, reachable, release, release_value, retain_value,
    swept, trim, Heap, MemoryManager,
};
use crate::state::release_all_top;
use crate::ttype::{
    any_generic, bound_to, first_index, has_generic, mentions, mentions_any, output_of, outputs_of, replace_all_ok,
    replace_fields_ok, replace_ok, replaced, replaced_all, replaced_fields, TypeView,
};
use crate::typechecker::{
    all_no_dyn, contract_fields, contracts, dyn_key, each_field, ends_no_dyn, field_named, first_fields, first_generics,
    map_no_dyn, no_dyn, unify_list, unify_one, unify_seq, Environment, ErrorView, MapView, Outcome,
};
use crate::value::VmData;
use crate::vm::resolve_index;

verus! {

broadcast use vstd::seq::group_seq_axioms;

/// Releasing one reference to an entry that holds more than one only lowers
/// its count: nothing is freed.
pub proof fn law_release_shared(h: Heap, f: Seq<usize>, i: usize)
    requires
        live(h, i as int),
        h[i as int]->0.ref_count > 1,
    ensures
        release(h, f, seq![i]) == (h.update(i as int, Some(lowered(h[i as int]->0))), f),
{
    reveal_with_fuel(release, 2);
    crate::memory::lemma_count_live_update(h, i as int, Some(lowered(h[i as int]->0)));
    assert(seq![i].drop_last() =~= Seq::<usize>::empty());
}

/// Adding a reference to a live entry and releasing it again leaves the
/// heap and free list as they were.
pub proof fn law_retain_release(h: Heap, f: Seq<usize>, v: VmData)
    requires
        v matches VmData::Object(i) ==> live(h, i as int) && 0 < h[i as int]->0.ref_count < usize::MAX,
    ensures
        release_value(retain_value(h, v), f, v) == (h, f),
{
    if let VmData::Object(i) = v {
        let h1 = retain_value(h, v);
        reveal_with_fuel(release, 2);
        crate::memory::lemma_count_live_update(h1, i as int, Some(lowered(h1[i as int]->0)));
        assert(seq![i].drop_last() =~= Seq::<usize>::empty());
        assert(lowered(h1[i as int]->0) == h[i as int]->0);
        assert(h1.update(i as int, Some(lowered(h1[i as int]->0))) =~= h);
    }
}

/// Trimming keeps a prefix of the heap and drops only free slots.
pub proof fn lemma_trim_prefix(heap: Heap)
    ensures
        trim(heap).len() <= heap.len(),
        forall|i: int| 0 <= i < trim(heap).len() ==> #[trigger] trim(heap)[i] == heap[i],
        forall|i: int| trim(heap).len() <= i < heap.len() ==> #[trigger] heap[i] is None,
    decreases heap.len(),
{
    if heap.len() > 0 && heap.last() is None {
        let rest = heap.drop_last();
        lemma_trim_prefix(rest);
        assert forall|i: int| trim(heap).len() <= i < heap.len() implies #[trigger] heap[i] is None by {
            if i < rest.len() {
                assert(rest[i] is None);
            }
        }
    }
}

/// A collection keeps exactly the live entries that can be reached from
/// the stack, each unchanged, and frees every other one.
pub proof fn law_collect_keeps_reachable(stack: Seq<VmData>, heap: Heap, i: int)
    requires
        0 <= i < heap.len(),
    ensures
        live(collected_heap(stack, heap), i) <==> live(heap, i) && reachable(stack, heap, i),
        live(collected_heap(stack, heap), i) ==> collected_heap(stack, heap)[i] == heap[i],
        collected_heap(stack, heap).len() <= heap.len(),
{
    let s = swept(stack, heap);
    lemma_trim_prefix(s);
    assert(s[i] == (if heap[i] is Some && reachable(stack, heap, i) { heap[i] } else { None }));
    if i >= trim(s).len() {
        assert(s[i] is None);
    }
}

/// While collection is inhibited an allocation never collects: it fills the
/// most recently freed slot, or a new one.
pub proof fn law_inhibited_allocation(mm: MemoryManager)
    requires
        mm.gc_inhibited > 0,
    ensures
        mm.heap_before_alloc() == (mm.heap@, mm.free_list@),
        mm.alloc_slot() == crate::vm::next_slot(mm.heap@, mm.free_list@),
{
}

/// Closing a frame that was just opened on `stack` with `n` empty locals
/// gives back the stack and leaves the heap and free list unchanged.
pub proof fn law_frame_round_trip(h: Heap, f: Seq<usize>, stack: Seq<VmData>, n: nat)
    ensures
        (stack + Seq::new(n, |i: int| VmData::Nil)).subrange(0, stack.len() as int) == stack,
        release_all_top(h, f, stack + Seq::new(n, |i: int| VmData::Nil), n) == (h, f),
    decreases n,
{
    let s = stack + Seq::new(n, |i: int| VmData::Nil);
    assert(s.subrange(0, stack.len() as int) =~= stack);
    lemma_release_nils(h, f, stack, n, n);
}

/// Releasing the top `k` of `n` empty locals changes nothing.
pub proof fn lemma_release_nils(h: Heap, f: Seq<usize>, stack: Seq<VmData>, n: nat, k: nat)
    requires
        k <= n,
    ensures
        release_all_top(h, f, stack + Seq::new(n, |i: int| VmData::Nil), k) == (h, f),
    decreases k,
{
    let s = stack + Seq::new(n, |i: int| VmData::Nil);
    if k > 0 {
        lemma_release_nils(h, f, stack, n, (k - 1) as nat);
        assert(s[s.len() - k] == VmData::Nil);
    }
}

/// A negative index counts from the end: `-1` names the last element.
pub proof fn law_negative_index(index: i64, len: int)
    requires
        -len <= index < 0,
    ensures
        resolve_index(index, len) == len + index,
        0 <= resolve_index(index, len) < len,
{
}

/// Deep equality is symmetric.
pub proof fn law_equal_symmetric(h: Heap, a: VmData, b: VmData, fuel: nat)
    ensures
        same_value(h, a, b, fuel) == same_value(h, b, a, fuel),
    decreases fuel, 1nat, 0nat,
{
    if let (VmData::Object(i), VmData::Object(j)) = (a, b) {
        if i != j && live(h, i as int) && live(h, j as int) && fuel > 0 {
            let da = h[i as int]->0.object.data@;
            let db = h[j as int]->0.object.data@;
            if da.len() == db.len() {
                lemma_all_symmetric(h, da, db, (fuel - 1) as nat);
            }
        }
    }
}

/// Pairwise deep equality of equally long data is symmetric.
pub proof fn lemma_all_symmetric(h: Heap, da: Seq<VmData>, db: Seq<VmData>, fuel: nat)
    requires
        da.len() == db.len(),
    ensures
        same_all(h, da, db, fuel) == same_all(h, db, da, fuel),
    decreases fuel, 2nat, da.len(),
{
    if da.len() > 0 {
        lemma_all_symmetric(h, da.drop_last(), db.drop_last(), fuel);
        lemma_same_all_prefix(h, da, db, fuel);
        lemma_same_all_prefix(h, db, da, fuel);
        law_equal_symmetric(h, da.last(), db.last(), fuel);
    }
}

/// `same_all` only reads as much of `db` as `da` is long.
pub proof fn lemma_same_all_prefix(h: Heap, da: Seq<VmData>, db: Seq<VmData>, fuel: nat)
    requires
        da.len() > 0,
        da.len() <= db.len(),
    ensures
        same_all(h, da.drop_last(), db, fuel) == same_all(h, da.drop_last(), db.drop_last(), fuel),
    decreases da.len(),
{
    lemma_same_all_any(h, da.drop_last(), db, db.drop_last(), fuel);
}

/// `same_all` agrees on two second sequences that agree on the compared part.
pub proof fn lemma_same_all_any(h: Heap, da: Seq<VmData>, db: Seq<VmData>, dc: Seq<VmData>, fuel: nat)
    requires
        da.len() <= db.len(),
        da.len() <= dc.len(),
        forall|k: int| 0 <= k < da.len() ==> db[k] == dc[k],
    ensures
        same_all(h, da, db, fuel) == same_all(h, da, dc, fuel),
    decreases da.len(),
{
    if da.len() > 0 {
        lemma_same_all_any(h, da.drop_last(), db, dc, fuel);
    }
}

/// Deep equality is reflexive on every value but a NaN float (which IEEE
/// comparison makes unequal to itself).
pub proof fn law_equal_reflexive(h: Heap, v: VmData, fuel: nat)
    requires
        !(v matches VmData::Float(b) && is_nan(b)),
    ensures
        same_value(h, v, v, fuel),
{
}

/// `r` ranks the heap: every live object ranks above each live object its
/// data references (so the references form no cycle).
pub open spec fn ranked(h: Heap, r: spec_fn(int) -> nat) -> bool {
    forall|i: int, k: int|
        live(h, i) && 0 <= k < h[i]->0.object.data@.len() ==> match #[trigger] h[i]->0.object.data@[k] {
            VmData::Object(j) => live(h, j as int) ==> r(j as int) < r(i),
            _ => true,
        }
}

/// On a ranked heap, deep equality does not depend on how deep references
/// may be followed once that depth exceeds the rank of the first value's
/// object.
pub proof fn law_equal_fuel(h: Heap, r: spec_fn(int) -> nat, a: VmData, b: VmData, f1: nat, f2: nat)
    requires
        ranked(h, r),
        match a {
            VmData::Object(i) => live(h, i as int) ==> f1 > r(i as int) && f2 > r(i as int),
            _ => true,
        },
    ensures
        same_value(h, a, b, f1) == same_value(h, a, b, f2),
    decreases f1, 1nat, 0nat,
{
    if let (VmData::Object(i), VmData::Object(j)) = (a, b) {
        if i != j && live(h, i as int) && live(h, j as int) {
            let da = h[i as int]->0.object.data@;
            let db = h[j as int]->0.object.data@;
            if da.len() == db.len() {
                lemma_all_fuel(h, r, i as int, da, db, (f1 - 1) as nat, (f2 - 1) as nat);
            }
        }
    }
}

/// `same_all` over the data of ranked object `i` does not depend on the
/// depth once it reaches `i`'s rank.
pub proof fn lemma_all_fuel(h: Heap, r: spec_fn(int) -> nat, i: int, da: Seq<VmData>, db: Seq<VmData>, f1: nat, f2: nat)
    requires
        ranked(h, r),
        live(h, i),
        da.len() <= h[i]->0.object.data@.len(),
        forall|k: int| 0 <= k < da.len() ==> da[k] == h[i]->0.object.data@[k],
        f1 >= r(i),
        f2 >= r(i),
    ensures
        same_all(h, da, db, f1) == same_all(h, da, db, f2),
    decreases f1, 2nat, da.len(),
{
    if da.len() > 0 {
        lemma_all_fuel(h, r, i, da.drop_last(), db, f1, f2);
        let k = da.len() - 1;
        assert(da.last() == h[i]->0.object.data@[k]);
        law_equal_fuel(h, r, da.last(), db[da.len() - 1], f1, f2);
    }
}


/// A type that mentions no type variable and no `Dyn` type is left as
/// it is by substitution, whatever is substituted, and resolves to itself as
/// an output type, whatever the map and the variables in force.
pub proof fn law_ground_type_unchanged(
    t: TypeView,
    x: Seq<Seq<char>>,
    ps: Seq<TypeView>,
    map: Seq<(Seq<char>, TypeView)>,
    live: Seq<Seq<char>>,
)
    requires
        !has_generic(t),
    ensures
        replaced(t, x, ps) == t,
        output_of(t, map, live) == Ok::<TypeView, Seq<char>>(t),
    decreases t,
{
    match t {
        TypeView::Function(p, r) => {
            lemma_ground_all(p, x, ps, map, live);
            law_ground_type_unchanged(*r, x, ps, map, live);
        },
        TypeView::List(i) => law_ground_type_unchanged(*i, x, ps, map, live),
        TypeView::Option(i) => law_ground_type_unchanged(*i, x, ps, map, live),
        TypeView::Custom(_, tps) => lemma_ground_all(tps, x, ps, map, live),
        TypeView::Tuple(es) => lemma_ground_all(es, x, ps, map, live),
        _ => {},
    }
}

/// `law_ground_type_unchanged` for each type of a sequence.
proof fn lemma_ground_all(
    s: Seq<TypeView>,
    x: Seq<Seq<char>>,
    ps: Seq<TypeView>,
    map: Seq<(Seq<char>, TypeView)>,
    live: Seq<Seq<char>>,
)
    requires
        !any_generic(s),
    ensures
        replaced_all(s, x, ps) == s,
        outputs_of(s, map, live) == Ok::<Seq<TypeView>, Seq<char>>(s),
    decreases s,
{
    if s.len() > 0 {
        lemma_ground_all(s.drop_last(), x, ps, map, live);
        assert(s.last() == s[s.len() - 1]);
        law_ground_type_unchanged(s.last(), x, ps, map, live);
        assert(s.drop_last().push(s.last()) =~= s);
    }
}

/// A type variable that unification binds (it was unbound, and the type
/// found is neither `None`, `Void` nor `Any`) is bound to the type found, and
/// resolves to it as an output type.
pub proof fn law_binding_resolves(
    n: Seq<char>,
    t2: TypeView,
    m: MapView,
    env: Environment,
    fuel: nat,
    live: Seq<Seq<char>>,
)
    requires
        bound_to(m, n) is None,
        t2 != TypeView::Nil,
        t2 != TypeView::Void,
        t2 != TypeView::Any,
    ensures
        unify_one(TypeView::Generic(n), t2, m, env, fuel) == Some((m.push((n, t2)), None::<ErrorView>)),
        output_of(TypeView::Generic(n), m.push((n, t2)), live) == Ok::<TypeView, Seq<char>>(t2),
{
    assert(m.push((n, t2)).drop_last() =~= m);
}

/// The map `m2` keeps `m` as its beginning.
pub open spec fn extends(m: MapView, m2: MapView) -> bool {
    m.len() <= m2.len() && m2.subrange(0, m.len() as int) == m
}

/// Whatever checking ends with keeps the map it started from.
pub open spec fn keeps(m: MapView, out: Outcome) -> bool {
    match out {
        Some((m2, _)) => extends(m, m2),
        None => true,
    }
}

proof fn lemma_keeps_trans(m: MapView, m1: MapView, out: Outcome)
    requires
        extends(m, m1),
        keeps(m1, out),
    ensures
        keeps(m, out),
{
    if let Some((m2, _)) = out {
        assert(m2.subrange(0, m.len() as int) =~= m1.subrange(0, m.len() as int));
    }
}

proof fn lemma_one_keeps(t1: TypeView, t2: TypeView, m: MapView, env: Environment, fuel: nat)
    ensures
        keeps(m, unify_one(t1, t2, m, env, fuel)),
    decreases fuel, t1, 3nat, 0nat,
{
    assert(m.subrange(0, m.len() as int) =~= m);
    if t1 is Any && t2 != TypeView::Nil {
    } else if t2 is Any && t1 != TypeView::Nil {
    } else {
        match t1 {
            TypeView::Tuple(e1) => match t2 {
                TypeView::Tuple(e2) => lemma_list_keeps(e1, e2, m, env, fuel),
                _ => {},
            },
            TypeView::Generic(n1) => {
                if t2 == TypeView::Nil || t2 == TypeView::Void {
                } else {
                    match bound_to(m, n1) {
                        Some(mapped) => match (mapped, t2) {
                            (TypeView::Dyn(own, c), TypeView::Custom(name, _)) => lemma_contracts_keeps(
                                t1,
                                t2,
                                own,
                                c,
                                name,
                                m,
                                env,
                                fuel,
                            ),
                            _ => {},
                        },
                        None => {
                            assert(m.push((n1, t2)).subrange(0, m.len() as int) =~= m);
                        },
                    }
                }
            },
            TypeView::List(i1) => match t2 {
                TypeView::List(i2) => lemma_one_keeps(*i1, *i2, m, env, fuel),
                _ => {},
            },
            TypeView::Option(i1) => match t2 {
                TypeView::Option(i2) => lemma_one_keeps(*i1, *i2, m, env, fuel),
                _ => {},
            },
            TypeView::Function(p1, r1) => match t2 {
                TypeView::Function(p2, r2) => if p1.len() == p2.len() {
                    lemma_seq_keeps(p1, p2, m, env, fuel);
                    if let Some((m1, None)) = unify_seq(p1, p2, m, env, fuel) {
                        lemma_one_keeps(*r1, *r2, m1, env, fuel);
                        lemma_keeps_trans(m, m1, unify_one(*r1, *r2, m1, env, fuel));
                    }
                },
                _ => {},
            },
            TypeView::Custom(n1, g1) => match t2 {
                TypeView::Custom(n2, g2) => if n1 == n2 {
                    lemma_list_keeps(g1, g2, m, env, fuel);
                },
                _ => {},
            },
            TypeView::Dyn(own, c1) => match t2 {
                TypeView::Custom(name, _) => lemma_contracts_keeps(t1, t2, own, c1, name, m, env, fuel),
                _ => {},
            },
            _ => {},
        }
    }
}

proof fn lemma_list_keeps(ts1: Seq<TypeView>, ts2: Seq<TypeView>, m: MapView, env: Environment, fuel: nat)
    ensures
        keeps(m, unify_list(ts1, ts2, m, env, fuel)),
    decreases fuel, ts1, 3nat, 0nat,
{
    assert(m.subrange(0, m.len() as int) =~= m);
    if ts1.len() == ts2.len() {
        lemma_seq_keeps(ts1, ts2, m, env, fuel);
    }
}

proof fn lemma_seq_keeps(ts1: Seq<TypeView>, ts2: Seq<TypeView>, m: MapView, env: Environment, fuel: nat)
    ensures
        keeps(m, unify_seq(ts1, ts2, m, env, fuel)),
    decreases fuel, ts1, 2nat, 0nat,
{
    assert(m.subrange(0, m.len() as int) =~= m);
    if ts1.len() > 0 {
        lemma_seq_keeps(ts1.drop_last(), ts2.drop_last(), m, env, fuel);
        if let Some((m1, None)) = unify_seq(ts1.drop_last(), ts2.drop_last(), m, env, fuel) {
            assert(ts1.last() == ts1[ts1.len() - 1]);
            lemma_one_keeps(ts1.last(), ts2.last(), m1, env, fuel);
            lemma_keeps_trans(m, m1, unify_one(ts1.last(), ts2.last(), m1, env, fuel));
        }
    }
}

proof fn lemma_contracts_keeps(
    t1: TypeView,
    t2: TypeView,
    own: Seq<char>,
    c1: Seq<(Seq<char>, TypeView)>,
    name: Seq<char>,
    m: MapView,
    env: Environment,
    fuel: nat,
)
    ensures
        keeps(m, contracts(t1, t2, own, c1, name, m, env, fuel)),
    decreases fuel, t1, 2nat, 0nat,
{
    assert(m.subrange(0, m.len() as int) =~= m);
    if let Some(fields) = crate::typechecker::first_fields(env.custom_types@, name) {
        let key = dyn_key(own);
        match bound_to(m, key) {
            Some(mapped) => {
                lemma_fields_keeps(t1, t2, own, c1, fields, m, env, fuel);
            },
            None => {
                let m1 = m.push((key, t2));
                assert(m1.subrange(0, m.len() as int) =~= m);
                lemma_fields_keeps(t1, t2, own, c1, fields, m1, env, fuel);
                lemma_keeps_trans(m, m1, contract_fields(t1, t2, own, c1, fields, m1, env, fuel));
            },
        }
    }
}

proof fn lemma_fields_keeps(
    t1: TypeView,
    t2: TypeView,
    own: Seq<char>,
    c1: Seq<(Seq<char>, TypeView)>,
    fields: Seq<(Seq<char>, TypeView)>,
    m: MapView,
    env: Environment,
    fuel: nat,
)
    ensures
        keeps(m, contract_fields(t1, t2, own, c1, fields, m, env, fuel)),
    decreases fuel, t1, 1nat, 0nat,
{
    assert(m.subrange(0, m.len() as int) =~= m);
    if c1.len() <= fields.len() {
        if let TypeView::Custom(n2, tps) = t2 {
            match crate::typechecker::first_generics(env.generic_type_struct@, n2) {
                Some(gp) => {
                    lemma_each_keeps(
                        t1,
                        t2,
                        own,
                        c1,
                        crate::ttype::replaced_fields(fields, gp, tps),
                        c1.len(),
                        m,
                        env,
                        fuel,
                    );
                },
                None => lemma_each_keeps(t1, t2, own, c1, fields, c1.len(), m, env, fuel),
            }
        }
    }
}

proof fn lemma_each_keeps(
    t1: TypeView,
    t2: TypeView,
    own: Seq<char>,
    c1: Seq<(Seq<char>, TypeView)>,
    nf: Seq<(Seq<char>, TypeView)>,
    k: nat,
    m: MapView,
    env: Environment,
    fuel: nat,
)
    ensures
        keeps(m, each_field(t1, t2, own, c1, nf, k, m, env, fuel)),
    decreases fuel, t1, 0nat, k,
{
    assert(m.subrange(0, m.len() as int) =~= m);
    if k > 0 {
        lemma_each_keeps(t1, t2, own, c1, nf, (k - 1) as nat, m, env, fuel);
        if let Some((m1, None)) = each_field(t1, t2, own, c1, nf, (k - 1) as nat, m, env, fuel) {
            let cn = c1[k - 1].0;
            if let Some(nfield) = field_named(nf, cn) {
                let ft = match field_named(c1, cn) {
                    Some(t) => t,
                    None => c1[k - 1].1,
                };
                let scoped = replaced(ft, seq![own], seq![TypeView::Generic(dyn_key(own))]);
                if fuel > 0 {
                    lemma_one_keeps(scoped, nfield, m1, env, (fuel - 1) as nat);
                    lemma_keeps_trans(m, m1, unify_one(scoped, nfield, m1, env, (fuel - 1) as nat));
                }
            }
        }
    }
}

/// A binding of the beginning of a map is the binding of the whole map.
proof fn lemma_bound_extends(m: MapView, m2: MapView, n: Seq<char>)
    requires
        extends(m, m2),
        bound_to(m, n) is Some,
    ensures
        bound_to(m2, n) == bound_to(m, n),
    decreases m2.len(),
{
    if m2.len() == m.len() {
        assert(m2 =~= m2.subrange(0, m.len() as int));
    } else {
        assert(m2.drop_last().subrange(0, m.len() as int) =~= m2.subrange(0, m.len() as int));
        lemma_bound_extends(m, m2.drop_last(), n);
    }
}

/// Checking types only ever adds bindings, at the end of the type map: the
/// map before the check is the beginning of the map after it, and a variable
/// bound before keeps its binding.
pub proof fn law_bindings_persist(ts1: Seq<TypeView>, ts2: Seq<TypeView>, m: MapView, env: Environment, fuel: nat)
    ensures
        keeps(m, unify_list(ts1, ts2, m, env, fuel)),
        forall|n: Seq<char>|
            #![trigger bound_to(m, n)]
            unify_list(ts1, ts2, m, env, fuel) is Some && bound_to(m, n) is Some ==> bound_to(
                unify_list(ts1, ts2, m, env, fuel).unwrap().0,
                n,
            ) == bound_to(m, n),
{
    lemma_list_keeps(ts1, ts2, m, env, fuel);
    assert forall|n: Seq<char>|
        #![trigger bound_to(m, n)]
        unify_list(ts1, ts2, m, env, fuel) is Some && bound_to(m, n) is Some implies bound_to(
            unify_list(ts1, ts2, m, env, fuel).unwrap().0,
            n,
        ) == bound_to(m, n) by {
        lemma_bound_extends(m, unify_list(ts1, ts2, m, env, fuel).unwrap().0, n);
    }
}


/// A type without type variables matches itself and binds nothing.
pub proof fn law_ground_type_matches_itself(t: TypeView, m: MapView, env: Environment, fuel: nat)
    requires
        !has_generic(t),
    ensures
        unify_one(t, t, m, env, fuel) == Some((m, None::<ErrorView>)),
    decreases t,
{
    match t {
        TypeView::Tuple(e) => {
            lemma_ground_seq_matches(e, m, env, fuel);
            assert(unify_list(e, e, m, env, fuel) == unify_seq(e, e, m, env, fuel));
        },
        TypeView::List(i) => law_ground_type_matches_itself(*i, m, env, fuel),
        TypeView::Option(i) => law_ground_type_matches_itself(*i, m, env, fuel),
        TypeView::Function(p, r) => {
            lemma_ground_seq_matches(p, m, env, fuel);
            law_ground_type_matches_itself(*r, m, env, fuel);
        },
        TypeView::Custom(_, g) => {
            lemma_ground_seq_matches(g, m, env, fuel);
            assert(unify_list(g, g, m, env, fuel) == unify_seq(g, g, m, env, fuel));
        },
        _ => {},
    }
}

/// `lemma_ground_matches_itself` for a sequence.
proof fn lemma_ground_seq_matches(s: Seq<TypeView>, m: MapView, env: Environment, fuel: nat)
    requires
        !any_generic(s),
    ensures
        unify_seq(s, s, m, env, fuel) == Some((m, None::<ErrorView>)),
    decreases s,
{
    if s.len() > 0 {
        lemma_ground_seq_matches(s.drop_last(), m, env, fuel);
        assert(s.last() == s[s.len() - 1]);
        law_ground_type_matches_itself(s.last(), m, env, fuel);
    }
}

/// The type `field_named` finds is that of a field of that name.
proof fn lemma_field_named_found(f: Seq<(Seq<char>, TypeView)>, n: Seq<char>)
    requires
        field_named(f, n) is Some,
    ensures
        exists|j: int| 0 <= j < f.len() && f[j].0 == n && f[j].1 == field_named(f, n)->0,
    decreases f.len(),
{
    if field_named(f.drop_last(), n) is Some {
        lemma_field_named_found(f.drop_last(), n);
        let j = choose|j: int| 0 <= j < f.len() - 1 && f.drop_last()[j].0 == n && f.drop_last()[j].1 == field_named(f.drop_last(), n)->0;
        assert(f[j] == f.drop_last()[j]);
    } else {
        assert(f[f.len() - 1] == f.last());
    }
}

/// The fields of struct `t2` as a contract sees them: with the struct's
/// type arguments put in, when it is generic.
pub open spec fn seen_fields(env: Environment, fields: Seq<(Seq<char>, TypeView)>, t2: TypeView) -> Seq<(Seq<char>, TypeView)> {
    match t2 {
        TypeView::Custom(n2, tps) => match first_generics(env.generic_type_struct@, n2) {
            Some(gp) => replaced_fields(fields, gp, tps),
            None => fields,
        },
        _ => fields,
    }
}

/// Every field of contract `c1` is a field of `nf` of exactly the
/// contract's type, and that type mentions no type variable or `Dyn` type.
pub open spec fn meets(c1: Seq<(Seq<char>, TypeView)>, nf: Seq<(Seq<char>, TypeView)>) -> bool {
    forall|i: int|
        0 <= i < c1.len() ==> !has_generic(#[trigger] c1[i].1) && field_named(nf, c1[i].0) == Some(c1[i].1)
}

proof fn lemma_each_meets(
    t1: TypeView,
    t2: TypeView,
    own: Seq<char>,
    c1: Seq<(Seq<char>, TypeView)>,
    nf: Seq<(Seq<char>, TypeView)>,
    k: nat,
    m: MapView,
    env: Environment,
    fuel: nat,
)
    requires
        k <= c1.len(),
        meets(c1, nf),
        fuel > 0,
    ensures
        each_field(t1, t2, own, c1, nf, k, m, env, fuel) == Some((m, None::<ErrorView>)),
    decreases k,
{
    if k > 0 {
        lemma_each_meets(t1, t2, own, c1, nf, (k - 1) as nat, m, env, fuel);
        let i = k - 1;
        let cn = c1[i].0;
        assert(!has_generic(c1[i].1) && field_named(nf, cn) == Some(c1[i].1));
        let ft = match field_named(c1, cn) {
            Some(t) => t,
            None => c1[i].1,
        };
        if field_named(c1, cn) is Some {
            lemma_field_named_found(c1, cn);
            let j = choose|j: int| 0 <= j < c1.len() && c1[j].0 == cn && c1[j].1 == field_named(c1, cn)->0;
            assert(!has_generic(c1[j].1) && field_named(nf, c1[j].0) == Some(c1[j].1));
        }
        assert(ft == c1[i].1);
        law_ground_type_unchanged(ft, seq![own], seq![TypeView::Generic(dyn_key(own))], Seq::empty(), Seq::empty());
        law_ground_type_matches_itself(ft, m, env, (fuel - 1) as nat);
    }
}

/// Structural typing: a struct that has every field of a `Dyn` contract,
/// each of exactly the contract's type (one without type variables or `Dyn`
/// types), and at least as many fields as the contract, is accepted where
/// the `Dyn` type is expected; the `Dyn` type's own variable, unbound
/// before, is then bound to the struct.
pub proof fn law_dyn_accepts_matching_struct(
    own: Seq<char>,
    c1: Seq<(Seq<char>, TypeView)>,
    name: Seq<char>,
    tps: Seq<TypeView>,
    fields: Seq<(Seq<char>, TypeView)>,
    m: MapView,
    env: Environment,
    fuel: nat,
)
    requires
        first_fields(env.custom_types@, name) == Some(fields),
        c1.len() <= fields.len(),
        first_generics(env.generic_type_struct@, name) matches Some(gp) ==> replace_fields_ok(fields, gp, tps.len()),
        meets(c1, seen_fields(env, fields, TypeView::Custom(name, tps))),
        bound_to(m, dyn_key(own)) is None,
        fuel > 0,
    ensures
        unify_one(TypeView::Dyn(own, c1), TypeView::Custom(name, tps), m, env, fuel) == Some(
            (m.push((dyn_key(own), TypeView::Custom(name, tps))), None::<ErrorView>),
        ),
{
    let t1 = TypeView::Dyn(own, c1);
    let t2 = TypeView::Custom(name, tps);
    let m1 = m.push((dyn_key(own), t2));
    lemma_each_meets(t1, t2, own, c1, seen_fields(env, fields, t2), c1.len(), m1, env, fuel);
    assert(contract_fields(t1, t2, own, c1, fields, m1, env, fuel)
        == each_field(t1, t2, own, c1, seen_fields(env, fields, t2), c1.len(), m1, env, fuel));
    assert(contracts(t1, t2, own, c1, name, m, env, fuel) == contract_fields(t1, t2, own, c1, fields, m1, env, fuel));
}
/// No `Any` and no `Dyn` type occurs in the type.
pub open spec fn plain(t: TypeView) -> bool
    decreases t,
{
    match t {
        TypeView::Any => false,
        TypeView::Dyn(_, _) => false,
        TypeView::Function(ps, r) => all_plain(ps) && plain(*r),
        TypeView::List(i) => plain(*i),
        TypeView::Option(i) => plain(*i),
        TypeView::Custom(_, ps) => all_plain(ps),
        TypeView::Tuple(es) => all_plain(es),
        _ => true,
    }
}

/// Each type of `s` is `plain`.
pub open spec fn all_plain(s: Seq<TypeView>) -> bool
    decreases s,
{
    s.len() > 0 ==> all_plain(s.drop_last()) && plain(s.last())
}

/// Every type variable of `t` is bound in `m`.
pub open spec fn all_bound(t: TypeView, m: MapView) -> bool
    decreases t,
{
    match t {
        TypeView::Generic(n) => bound_to(m, n) is Some,
        TypeView::Function(ps, r) => all_bound_seq(ps, m) && all_bound(*r, m),
        TypeView::List(i) => all_bound(*i, m),
        TypeView::Option(i) => all_bound(*i, m),
        TypeView::Custom(_, ps) => all_bound_seq(ps, m),
        TypeView::Tuple(es) => all_bound_seq(es, m),
        _ => true,
    }
}

/// `all_bound` for each type of `s`.
pub open spec fn all_bound_seq(s: Seq<TypeView>, m: MapView) -> bool
    decreases s,
{
    s.len() > 0 ==> all_bound_seq(s.drop_last(), m) && all_bound(s.last(), m)
}

proof fn lemma_plain_no_dyn(t: TypeView)
    requires
        plain(t),
    ensures
        no_dyn(t),
    decreases t,
{
    match t {
        TypeView::Function(ps, r) => {
            lemma_all_plain_no_dyn(ps);
            lemma_plain_no_dyn(*r);
        },
        TypeView::List(i) => lemma_plain_no_dyn(*i),
        TypeView::Option(i) => lemma_plain_no_dyn(*i),
        TypeView::Custom(_, ps) => lemma_all_plain_no_dyn(ps),
        TypeView::Tuple(es) => lemma_all_plain_no_dyn(es),
        _ => {},
    }
}

proof fn lemma_all_plain_no_dyn(s: Seq<TypeView>)
    requires
        all_plain(s),
    ensures
        all_no_dyn(s),
    decreases s,
{
    if s.len() > 0 {
        lemma_all_plain_no_dyn(s.drop_last());
        assert(s.last() == s[s.len() - 1]);
        lemma_plain_no_dyn(s.last());
    }
}

/// Resolution of a type whose variables are all bound does not change as
/// the map grows.
proof fn lemma_bound_stable(t: TypeView, m1: MapView, m2: MapView, live: Seq<Seq<char>>)
    requires
        all_bound(t, m1),
        extends(m1, m2),
    ensures
        all_bound(t, m2),
        output_of(t, m2, live) == output_of(t, m1, live),
    decreases t,
{
    match t {
        TypeView::Generic(n) => lemma_bound_extends(m1, m2, n),
        TypeView::Function(ps, r) => {
            lemma_bound_stable_seq(ps, m1, m2, live);
            lemma_bound_stable(*r, m1, m2, live);
        },
        TypeView::List(i) => lemma_bound_stable(*i, m1, m2, live),
        TypeView::Option(i) => lemma_bound_stable(*i, m1, m2, live),
        TypeView::Custom(_, ps) => lemma_bound_stable_seq(ps, m1, m2, live),
        TypeView::Tuple(es) => lemma_bound_stable_seq(es, m1, m2, live),
        _ => {},
    }
}

proof fn lemma_bound_stable_seq(s: Seq<TypeView>, m1: MapView, m2: MapView, live: Seq<Seq<char>>)
    requires
        all_bound_seq(s, m1),
        extends(m1, m2),
    ensures
        all_bound_seq(s, m2),
        outputs_of(s, m2, live) == outputs_of(s, m1, live),
    decreases s,
{
    if s.len() > 0 {
        lemma_bound_stable_seq(s.drop_last(), m1, m2, live);
        assert(s.last() == s[s.len() - 1]);
        lemma_bound_stable(s.last(), m1, m2, live);
    }
}

proof fn lemma_one_resolves(t1: TypeView, t2: TypeView, m: MapView, env: Environment, fuel: nat)
    requires
        plain(t1),
        plain(t2),
        map_no_dyn(m),
    ensures
        unify_one(t1, t2, m, env, fuel) matches Some((m2, None)) ==> output_of(t1, m2, Seq::empty()) == Ok::<
            TypeView,
            Seq<char>,
        >(t2) && all_bound(t1, m2),
    decreases t1,
{
    lemma_plain_no_dyn(t1);
    lemma_plain_no_dyn(t2);
    match t1 {
        TypeView::Tuple(e1) => match t2 {
            TypeView::Tuple(e2) => lemma_list_resolves(e1, e2, m, env, fuel),
            _ => {},
        },
        TypeView::Generic(n1) => {
            if t2 == TypeView::Nil || t2 == TypeView::Void {
            } else {
                match bound_to(m, n1) {
                    Some(mapped) => crate::typechecker::lemma_bound_no_dyn(m, n1),
                    None => {
                        assert(m.push((n1, t2)).drop_last() =~= m);
                    },
                }
            }
        },
        TypeView::List(i1) => match t2 {
            TypeView::List(i2) => lemma_one_resolves(*i1, *i2, m, env, fuel),
            _ => {},
        },
        TypeView::Option(i1) => match t2 {
            TypeView::Option(i2) => lemma_one_resolves(*i1, *i2, m, env, fuel),
            _ => {},
        },
        TypeView::Function(p1, r1) => match t2 {
            TypeView::Function(p2, r2) => if p1.len() == p2.len() {
                lemma_seq_resolves(p1, p2, m, env, fuel);
                crate::typechecker::lemma_seq_no_dyn(p1, p2, m, env, fuel);
                if let Some((m1, None)) = unify_seq(p1, p2, m, env, fuel) {
                    lemma_one_resolves(*r1, *r2, m1, env, fuel);
                    lemma_one_keeps(*r1, *r2, m1, env, fuel);
                    if let Some((m2, None)) = unify_one(*r1, *r2, m1, env, fuel) {
                        lemma_bound_stable_seq(p1, m1, m2, Seq::empty());
                    }
                }
            },
            _ => {},
        },
        TypeView::Custom(n1, g1) => match t2 {
            TypeView::Custom(n2, g2) => if n1 == n2 {
                lemma_list_resolves(g1, g2, m, env, fuel);
            },
            _ => {},
        },
        _ => {},
    }
}

proof fn lemma_list_resolves(ts1: Seq<TypeView>, ts2: Seq<TypeView>, m: MapView, env: Environment, fuel: nat)
    requires
        all_plain(ts1),
        all_plain(ts2),
        map_no_dyn(m),
    ensures
        unify_list(ts1, ts2, m, env, fuel) matches Some((m2, None)) ==> outputs_of(ts1, m2, Seq::empty()) == Ok::<
            Seq<TypeView>,
            Seq<char>,
        >(ts2) && all_bound_seq(ts1, m2),
    decreases ts1, 1nat,
{
    if ts1.len() == ts2.len() {
        lemma_seq_resolves(ts1, ts2, m, env, fuel);
    }
}

proof fn lemma_seq_resolves(ts1: Seq<TypeView>, ts2: Seq<TypeView>, m: MapView, env: Environment, fuel: nat)
    requires
        all_plain(ts1),
        all_plain(ts2),
        ts1.len() == ts2.len(),
        map_no_dyn(m),
    ensures
        unify_seq(ts1, ts2, m, env, fuel) matches Some((m2, None)) ==> outputs_of(ts1, m2, Seq::empty()) == Ok::<
            Seq<TypeView>,
            Seq<char>,
        >(ts2) && all_bound_seq(ts1, m2),
    decreases ts1, 0nat,
{
    if ts1.len() > 0 {
        lemma_seq_resolves(ts1.drop_last(), ts2.drop_last(), m, env, fuel);
        lemma_all_plain_no_dyn(ts1.drop_last());
        lemma_all_plain_no_dyn(ts2.drop_last());
        crate::typechecker::lemma_seq_no_dyn(ts1.drop_last(), ts2.drop_last(), m, env, fuel);
        if let Some((m1, None)) = unify_seq(ts1.drop_last(), ts2.drop_last(), m, env, fuel) {
            assert(ts1.last() == ts1[ts1.len() - 1]);
            assert(ts2.last() == ts2[ts2.len() - 1]);
            lemma_one_resolves(ts1.last(), ts2.last(), m1, env, fuel);
            lemma_one_keeps(ts1.last(), ts2.last(), m1, env, fuel);
            if let Some((m2, None)) = unify_one(ts1.last(), ts2.last(), m1, env, fuel) {
                lemma_bound_stable_seq(ts1.drop_last(), m1, m2, Seq::empty());
                assert(ts2.drop_last().push(ts2.last()) =~= ts2);
            }
        }
    } else {
        assert(ts2 =~= Seq::<TypeView>::empty());
    }
}

/// A successful check of types in which no `Any` or `Dyn` type occurs,
/// against a map without `Dyn` types, binds every type variable of the
/// expected types, and the final map resolves each expected type to the
/// type found in its place.
pub proof fn law_check_resolves(ts1: Seq<TypeView>, ts2: Seq<TypeView>, m: MapView, env: Environment, fuel: nat)
    requires
        all_plain(ts1),
        all_plain(ts2),
        map_no_dyn(m),
    ensures
        unify_list(ts1, ts2, m, env, fuel) matches Some((m2, None)) ==> outputs_of(ts1, m2, Seq::empty()) == Ok::<
            Seq<TypeView>,
            Seq<char>,
        >(ts2) && all_bound_seq(ts1, m2),
{
    lemma_list_resolves(ts1, ts2, m, env, fuel);
}

/// Pairwise deep equality holds at each position.
proof fn lemma_same_all_at(h: Heap, da: Seq<VmData>, db: Seq<VmData>, fuel: nat, k: int)
    requires
        same_all(h, da, db, fuel),
        0 <= k < da.len(),
    ensures
        same_value(h, da[k], db[k], fuel),
    decreases da.len(),
{
    if k < da.len() - 1 {
        lemma_same_all_at(h, da.drop_last(), db, fuel, k);
    }
}

/// Two scalars that differ: different characters, integers or booleans.
pub open spec fn scalars_differ(a: VmData, b: VmData) -> bool {
    ||| (a matches VmData::Char(x) && b matches VmData::Char(y) && x != y)
    ||| (a matches VmData::Int(x) && b matches VmData::Int(y) && x != y)
    ||| (a matches VmData::Bool(x) && b matches VmData::Bool(y) && x != y)
}

/// Two live objects of different kinds, or whose data differ in length, or
/// hold different characters, integers or booleans at some position, are
/// not deeply equal, at any depth: so strings of different text are unequal.
pub proof fn law_unequal_data(h: Heap, i: usize, j: usize, fuel: nat, k: int)
    requires
        live(h, i as int),
        live(h, j as int),
        h[i as int]->0.object.object_type@ != h[j as int]->0.object.object_type@
            || h[i as int]->0.object.data@.len() != h[j as int]->0.object.data@.len() || (0 <= k
            < h[i as int]->0.object.data@.len() && k < h[j as int]->0.object.data@.len() && scalars_differ(
            h[i as int]->0.object.data@[k],
            h[j as int]->0.object.data@[k],
        )),
    ensures
        !same_value(h, VmData::Object(i), VmData::Object(j), fuel),
{
    let da = h[i as int]->0.object.data@;
    let db = h[j as int]->0.object.data@;
    if i != j && fuel > 0 && da.len() == db.len() {
        if same_all(h, da, db, (fuel - 1) as nat) && 0 <= k < da.len() {
            lemma_same_all_at(h, da, db, (fuel - 1) as nat, k);
        }
    }
}

/// A built-in type name parses to its built-in type, whatever the
/// environment: `Int`, `Float`, `Bool`, `String`, `Any`, `Char` and `None`
/// (the absent value's type), one token long.
pub proof fn law_builtin_type_names(t: Seq<Token>, i: int, env: crate::typechecker::Environment)
    ensures
        id_at(t, i) matches Some(n) && n@ == "Int"@ ==> type_at(t, i, env) == Ok::<(TypeView, int), crate::parser::ParseError>((TypeView::Int, i + 1)),
        id_at(t, i) matches Some(n) && n@ == "Float"@ ==> type_at(t, i, env) == Ok::<(TypeView, int), crate::parser::ParseError>((TypeView::Float, i + 1)),
        id_at(t, i) matches Some(n) && n@ == "Bool"@ ==> type_at(t, i, env) == Ok::<(TypeView, int), crate::parser::ParseError>((TypeView::Bool, i + 1)),
        id_at(t, i) matches Some(n) && n@ == "String"@ ==> type_at(t, i, env) == Ok::<(TypeView, int), crate::parser::ParseError>((TypeView::String, i + 1)),
        id_at(t, i) matches Some(n) && n@ == "Any"@ ==> type_at(t, i, env) == Ok::<(TypeView, int), crate::parser::ParseError>((TypeView::Any, i + 1)),
        id_at(t, i) matches Some(n) && n@ == "Char"@ ==> type_at(t, i, env) == Ok::<(TypeView, int), crate::parser::ParseError>((TypeView::Char, i + 1)),
        id_at(t, i) matches Some(n) && n@ == "None"@ ==> type_at(t, i, env) == Ok::<(TypeView, int), crate::parser::ParseError>((TypeView::Nil, i + 1)),
{
    reveal_strlit("Int");
    reveal_strlit("Float");
    reveal_strlit("Bool");
    reveal_strlit("String");
    reveal_strlit("Any");
    reveal_strlit("Char");
    reveal_strlit("None");
    reveal_strlit("fn");
    reveal_strlit("Option");
    reveal_strlit("List");
    reveal_strlit("Tuple");
    reveal_strlit("Dyn");
    if let Some(n) = id_at(t, i) {
        let w = n@;
        if w == "Int"@ {
            assert(w != "Float"@) by { if w.len() == "Float"@.len() { assert(w[0] != "Float"@[0]); } }
            assert(w != "Bool"@) by { if w.len() == "Bool"@.len() { assert(w[0] != "Bool"@[0]); } }
            assert(w != "String"@) by { if w.len() == "String"@.len() { assert(w[0] != "String"@[0]); } }
            assert(w != "Any"@) by { if w.len() == "Any"@.len() { assert(w[0] != "Any"@[0]); } }
            assert(w != "Char"@) by { if w.len() == "Char"@.len() { assert(w[0] != "Char"@[0]); } }
            assert(w != "None"@) by { if w.len() == "None"@.len() { assert(w[0] != "None"@[0]); } }
            assert(w != "fn"@) by { if w.len() == "fn"@.len() { assert(w[0] != "fn"@[0]); } }
            assert(w != "Option"@) by { if w.len() == "Option"@.len() { assert(w[0] != "Option"@[0]); } }
            assert(w != "List"@) by { if w.len() == "List"@.len() { assert(w[0] != "List"@[0]); } }
            assert(w != "Tuple"@) by { if w.len() == "Tuple"@.len() { assert(w[0] != "Tuple"@[0]); } }
            assert(w != "Dyn"@) by { if w.len() == "Dyn"@.len() { assert(w[0] != "Dyn"@[0]); } }
            assert(builtin(w) == Some(TypeView::Int));
            lemma_builtin_at(t, i, env, n);
        }
        if w == "Float"@ {
            assert(w != "Int"@) by { if w.len() == "Int"@.len() { assert(w[0] != "Int"@[0]); } }
            assert(w != "Bool"@) by { if w.len() == "Bool"@.len() { assert(w[0] != "Bool"@[0]); } }
            assert(w != "String"@) by { if w.len() == "String"@.len() { assert(w[0] != "String"@[0]); } }
            assert(w != "Any"@) by { if w.len() == "Any"@.len() { assert(w[0] != "Any"@[0]); } }
            assert(w != "Char"@) by { if w.len() == "Char"@.len() { assert(w[0] != "Char"@[0]); } }
            assert(w != "None"@) by { if w.len() == "None"@.len() { assert(w[0] != "None"@[0]); } }
            assert(w != "fn"@) by { if w.len() == "fn"@.len() { assert(w[0] != "fn"@[0]); } }
            assert(w != "Option"@) by { if w.len() == "Option"@.len() { assert(w[0] != "Option"@[0]); } }
            assert(w != "List"@) by { if w.len() == "List"@.len() { assert(w[0] != "List"@[0]); } }
            assert(w != "Tuple"@) by { if w.len() == "Tuple"@.len() { assert(w[0] != "Tuple"@[0]); } }
            assert(w != "Dyn"@) by { if w.len() == "Dyn"@.len() { assert(w[0] != "Dyn"@[0]); } }
            assert(builtin(w) == Some(TypeView::Float));
            lemma_builtin_at(t, i, env, n);
        }
        if w == "Bool"@ {
            assert(w != "Int"@) by { if w.len() == "Int"@.len() { assert(w[0] != "Int"@[0]); } }
            assert(w != "Float"@) by { if w.len() == "Float"@.len() { assert(w[0] != "Float"@[0]); } }
            assert(w != "String"@) by { if w.len() == "String"@.len() { assert(w[0] != "String"@[0]); } }
            assert(w != "Any"@) by { if w.len() == "Any"@.len() { assert(w[0] != "Any"@[0]); } }
            assert(w != "Char"@) by { if w.len() == "Char"@.len() { assert(w[0] != "Char"@[0]); } }
            assert(w != "None"@) by { if w.len() == "None"@.len() { assert(w[0] != "None"@[0]); } }
            assert(w != "fn"@) by { if w.len() == "fn"@.len() { assert(w[0] != "fn"@[0]); } }
            assert(w != "Option"@) by { if w.len() == "Option"@.len() { assert(w[0] != "Option"@[0]); } }
            assert(w != "List"@) by { if w.len() == "List"@.len() { assert(w[0] != "List"@[0]); } }
            assert(w != "Tuple"@) by { if w.len() == "Tuple"@.len() { assert(w[0] != "Tuple"@[0]); } }
            assert(w != "Dyn"@) by { if w.len() == "Dyn"@.len() { assert(w[0] != "Dyn"@[0]); } }
            assert(builtin(w) == Some(TypeView::Bool));
            lemma_builtin_at(t, i, env, n);
        }
        if w == "String"@ {
            assert(w != "Int"@) by { if w.len() == "Int"@.len() { assert(w[0] != "Int"@[0]); } }
            assert(w != "Float"@) by { if w.len() == "Float"@.len() { assert(w[0] != "Float"@[0]); } }
            assert(w != "Bool"@) by { if w.len() == "Bool"@.len() { assert(w[0] != "Bool"@[0]); } }
            assert(w != "Any"@) by { if w.len() == "Any"@.len() { assert(w[0] != "Any"@[0]); } }
            assert(w != "Char"@) by { if w.len() == "Char"@.len() { assert(w[0] != "Char"@[0]); } }
            assert(w != "None"@) by { if w.len() == "None"@.len() { assert(w[0] != "None"@[0]); } }
            assert(w != "fn"@) by { if w.len() == "fn"@.len() { assert(w[0] != "fn"@[0]); } }
            assert(w != "Option"@) by { if w.len() == "Option"@.len() { assert(w[0] != "Option"@[0]); } }
            assert(w != "List"@) by { if w.len() == "List"@.len() { assert(w[0] != "List"@[0]); } }
            assert(w != "Tuple"@) by { if w.len() == "Tuple"@.len() { assert(w[0] != "Tuple"@[0]); } }
            assert(w != "Dyn"@) by { if w.len() == "Dyn"@.len() { assert(w[0] != "Dyn"@[0]); } }
            assert(builtin(w) == Some(TypeView::String));
            lemma_builtin_at(t, i, env, n);
        }
        if w == "Any"@ {
            assert(w != "Int"@) by { if w.len() == "Int"@.len() { assert(w[0] != "Int"@[0]); } }
            assert(w != "Float"@) by { if w.len() == "Float"@.len() { assert(w[0] != "Float"@[0]); } }
            assert(w != "Bool"@) by { if w.len() == "Bool"@.len() { assert(w[0] != "Bool"@[0]); } }
            assert(w != "String"@) by { if w.len() == "String"@.len() { assert(w[0] != "String"@[0]); } }
            assert(w != "Char"@) by { if w.len() == "Char"@.len() { assert(w[0] != "Char"@[0]); } }
            assert(w != "None"@) by { if w.len() == "None"@.len() { assert(w[0] != "None"@[0]); } }
            assert(w != "fn"@) by { if w.len() == "fn"@.len() { assert(w[0] != "fn"@[0]); } }
            assert(w != "Option"@) by { if w.len() == "Option"@.len() { assert(w[0] != "Option"@[0]); } }
            assert(w != "List"@) by { if w.len() == "List"@.len() { assert(w[0] != "List"@[0]); } }
            assert(w != "Tuple"@) by { if w.len() == "Tuple"@.len() { assert(w[0] != "Tuple"@[0]); } }
            assert(w != "Dyn"@) by { if w.len() == "Dyn"@.len() { assert(w[0] != "Dyn"@[0]); } }
            assert(builtin(w) == Some(TypeView::Any));
            lemma_builtin_at(t, i, env, n);
        }
        if w == "Char"@ {
            assert(w != "Int"@) by { if w.len() == "Int"@.len() { assert(w[0] != "Int"@[0]); } }
            assert(w != "Float"@) by { if w.len() == "Float"@.len() { assert(w[0] != "Float"@[0]); } }
            assert(w != "Bool"@) by { if w.len() == "Bool"@.len() { assert(w[0] != "Bool"@[0]); } }
            assert(w != "String"@) by { if w.len() == "String"@.len() { assert(w[0] != "String"@[0]); } }
            assert(w != "Any"@) by { if w.len() == "Any"@.len() { assert(w[0] != "Any"@[0]); } }
            assert(w != "None"@) by { if w.len() == "None"@.len() { assert(w[0] != "None"@[0]); } }
            assert(w != "fn"@) by { if w.len() == "fn"@.len() { assert(w[0] != "fn"@[0]); } }
            assert(w != "Option"@) by { if w.len() == "Option"@.len() { assert(w[0] != "Option"@[0]); } }
            assert(w != "List"@) by { if w.len() == "List"@.len() { assert(w[0] != "List"@[0]); } }
            assert(w != "Tuple"@) by { if w.len() == "Tuple"@.len() { assert(w[0] != "Tuple"@[0]); } }
            assert(w != "Dyn"@) by { if w.len() == "Dyn"@.len() { assert(w[0] != "Dyn"@[0]); } }
            assert(builtin(w) == Some(TypeView::Char));
            lemma_builtin_at(t, i, env, n);
        }
        if w == "None"@ {
            assert(w != "Int"@) by { if w.len() == "Int"@.len() { assert(w[0] != "Int"@[0]); } }
            assert(w != "Float"@) by { if w.len() == "Float"@.len() { assert(w[0] != "Float"@[0]); } }
            assert(w != "Bool"@) by { if w.len() == "Bool"@.len() { assert(w[0] != "Bool"@[0]); } }
            assert(w != "String"@) by { if w.len() == "String"@.len() { assert(w[0] != "String"@[0]); } }
            assert(w != "Any"@) by { if w.len() == "Any"@.len() { assert(w[0] != "Any"@[0]); } }
            assert(w != "Char"@) by { if w.len() == "Char"@.len() { assert(w[0] != "Char"@[0]); } }
            assert(w != "fn"@) by { if w.len() == "fn"@.len() { assert(w[0] != "fn"@[0]); } }
            assert(w != "Option"@) by { if w.len() == "Option"@.len() { assert(w[0] != "Option"@[0]); } }
            assert(w != "List"@) by { if w.len() == "List"@.len() { assert(w[0] != "List"@[0]); } }
            assert(w != "Tuple"@) by { if w.len() == "Tuple"@.len() { assert(w[0] != "Tuple"@[0]); } }
            assert(w != "Dyn"@) by { if w.len() == "Dyn"@.len() { assert(w[0] != "Dyn"@[0]); } }
            assert(builtin(w) == Some(TypeView::Nil));
            lemma_builtin_at(t, i, env, n);
        }
    }
}

/// A name that `builtin` knows, and no keyword of the type grammar, parses
/// to its built-in type.
proof fn lemma_builtin_at(t: Seq<Token>, i: int, env: crate::typechecker::Environment, n: String)
    requires
        id_at(t, i) == Some(n),
        builtin(n@) is Some,
        n@ != "fn"@,
        n@ != "Option"@,
        n@ != "List"@,
        n@ != "Tuple"@,
        n@ != "Dyn"@,
    ensures
        type_at(t, i, env) == Ok::<(TypeView, int), crate::parser::ParseError>((builtin(n@)->0, i + 1)),
{
    assert(!sym_at(t, i, StructuralSymbol::LeftParen));
    assert(!sym_at(t, i, StructuralSymbol::DollarSign));
    assert(!sym_at(t, i, StructuralSymbol::LeftSquareBracket));
}

/// A type without type variables or `Dyn` types mentions no variable.
proof fn lemma_ground_mentions_none(t: TypeView, n: Seq<char>)
    requires
        !has_generic(t),
    ensures
        !mentions(t, n),
    decreases t,
{
    match t {
        TypeView::Function(ps, r) => {
            lemma_ground_mentions_none_all(ps, n);
            lemma_ground_mentions_none(*r, n);
        },
        TypeView::List(i) => lemma_ground_mentions_none(*i, n),
        TypeView::Option(i) => lemma_ground_mentions_none(*i, n),
        TypeView::Custom(_, ps) => lemma_ground_mentions_none_all(ps, n),
        TypeView::Tuple(es) => lemma_ground_mentions_none_all(es, n),
        _ => {},
    }
}

proof fn lemma_ground_mentions_none_all(s: Seq<TypeView>, n: Seq<char>)
    requires
        !any_generic(s),
    ensures
        !mentions_any(s, n),
    decreases s,
{
    if s.len() > 0 {
        lemma_ground_mentions_none_all(s.drop_last(), n);
        assert(s.last() == s[s.len() - 1]);
        lemma_ground_mentions_none(s.last(), n);
    }
}

/// A name that `first_index` does not find is not in the list.
proof fn lemma_first_index_absent(x: Seq<Seq<char>>, n: Seq<char>)
    requires
        first_index(x, n) is None,
    ensures
        !x.contains(n),
    decreases x.len(),
{
    if x.len() > 0 {
        lemma_first_index_absent(x.drop_last(), n);
        if x.contains(n) {
            let j = choose|j: int| 0 <= j < x.len() && x[j] == n;
            if j < x.len() - 1 {
                assert(x.drop_last()[j] == n);
            }
        }
    }
}

/// Substituting, for each variable of `x`, a type that does not mention
/// `n` (a variable of `x`) leaves no mention of `n`.
proof fn lemma_replaced_clears(t: TypeView, x: Seq<Seq<char>>, ps: Seq<TypeView>, n: Seq<char>)
    requires
        replace_ok(t, x, ps.len()),
        x.contains(n),
        forall|k: int| 0 <= k < ps.len() ==> !mentions(#[trigger] ps[k], n),
    ensures
        !mentions(replaced(t, x, ps), n),
    decreases t,
{
    match t {
        TypeView::Generic(v) => {
            crate::ttype::lemma_first_index_bound(x, v);
            if first_index(x, v) is None {
                lemma_first_index_absent(x, v);
            }
        },
        TypeView::Custom(_, tps) => lemma_replaced_clears_all(tps, x, ps, n),
        TypeView::List(i) => lemma_replaced_clears(*i, x, ps, n),
        TypeView::Function(p, r) => {
            lemma_replaced_clears_all(p, x, ps, n);
            lemma_replaced_clears(*r, x, ps, n);
        },
        TypeView::Option(i) => lemma_replaced_clears(*i, x, ps, n),
        TypeView::Tuple(es) => lemma_replaced_clears_all(es, x, ps, n),
        _ => {},
    }
}

proof fn lemma_replaced_clears_all(s: Seq<TypeView>, x: Seq<Seq<char>>, ps: Seq<TypeView>, n: Seq<char>)
    requires
        replace_all_ok(s, x, ps.len()),
        x.contains(n),
        forall|k: int| 0 <= k < ps.len() ==> !mentions(#[trigger] ps[k], n),
    ensures
        !mentions_any(replaced_all(s, x, ps), n),
    decreases s,
{
    if s.len() > 0 {
        lemma_replaced_clears_all(s.drop_last(), x, ps, n);
        assert(s.last() == s[s.len() - 1]);
        lemma_replaced_clears(s.last(), x, ps, n);
        let r = replaced_all(s, x, ps);
        assert(r.drop_last() =~= replaced_all(s.drop_last(), x, ps));
    }
}

/// `t` mentions type variable `n` anywhere, inside `Dyn` contracts too.
pub open spec fn mentions_deep(t: TypeView, n: Seq<char>) -> bool
    decreases t,
{
    match t {
        TypeView::Generic(v) => v == n,
        TypeView::Function(ps, r) => mentions_deep_all(ps, n) || mentions_deep(*r, n),
        TypeView::List(i) => mentions_deep(*i, n),
        TypeView::Option(i) => mentions_deep(*i, n),
        TypeView::Custom(_, ps) => mentions_deep_all(ps, n),
        TypeView::Tuple(es) => mentions_deep_all(es, n),
        TypeView::Dyn(_, c) => mentions_deep_fields(c, n),
        _ => false,
    }
}

/// Some type of `s` mentions `n` (`mentions_deep`).
pub open spec fn mentions_deep_all(s: Seq<TypeView>, n: Seq<char>) -> bool
    decreases s,
{
    s.len() > 0 && (mentions_deep_all(s.drop_last(), n) || mentions_deep(s.last(), n))
}

/// Some field type of `f` mentions `n` (`mentions_deep`).
pub open spec fn mentions_deep_fields(f: Seq<(Seq<char>, TypeView)>, n: Seq<char>) -> bool
    decreases f,
{
    f.len() > 0 && (mentions_deep_fields(f.drop_last(), n) || mentions_deep(f.last().1, n))
}

proof fn lemma_ground_deep_none(t: TypeView, n: Seq<char>)
    requires
        !has_generic(t),
    ensures
        !mentions_deep(t, n),
    decreases t,
{
    match t {
        TypeView::Function(ps, r) => {
            lemma_ground_deep_none_all(ps, n);
            lemma_ground_deep_none(*r, n);
        },
        TypeView::List(i) => lemma_ground_deep_none(*i, n),
        TypeView::Option(i) => lemma_ground_deep_none(*i, n),
        TypeView::Custom(_, ps) => lemma_ground_deep_none_all(ps, n),
        TypeView::Tuple(es) => lemma_ground_deep_none_all(es, n),
        _ => {},
    }
}

proof fn lemma_ground_deep_none_all(s: Seq<TypeView>, n: Seq<char>)
    requires
        !any_generic(s),
    ensures
        !mentions_deep_all(s, n),
    decreases s,
{
    if s.len() > 0 {
        lemma_ground_deep_none_all(s.drop_last(), n);
        assert(s.last() == s[s.len() - 1]);
        lemma_ground_deep_none(s.last(), n);
    }
}

proof fn lemma_replaced_clears_deep(t: TypeView, x: Seq<Seq<char>>, ps: Seq<TypeView>, n: Seq<char>)
    requires
        replace_ok(t, x, ps.len()),
        x.contains(n),
        forall|k: int| 0 <= k < ps.len() ==> !mentions_deep(#[trigger] ps[k], n),
    ensures
        !mentions_deep(replaced(t, x, ps), n),
    decreases t,
{
    match t {
        TypeView::Generic(v) => {
            crate::ttype::lemma_first_index_bound(x, v);
            if first_index(x, v) is None {
                lemma_first_index_absent(x, v);
            }
        },
        TypeView::Custom(_, tps) => lemma_replaced_clears_deep_all(tps, x, ps, n),
        TypeView::List(i) => lemma_replaced_clears_deep(*i, x, ps, n),
        TypeView::Function(p, r) => {
            lemma_replaced_clears_deep_all(p, x, ps, n);
            lemma_replaced_clears_deep(*r, x, ps, n);
        },
        TypeView::Option(i) => lemma_replaced_clears_deep(*i, x, ps, n),
        TypeView::Tuple(es) => lemma_replaced_clears_deep_all(es, x, ps, n),
        TypeView::Dyn(_, c) => lemma_replaced_clears_deep_fields(c, x, ps, n),
        _ => {},
    }
}

proof fn lemma_replaced_clears_deep_all(s: Seq<TypeView>, x: Seq<Seq<char>>, ps: Seq<TypeView>, n: Seq<char>)
    requires
        replace_all_ok(s, x, ps.len()),
        x.contains(n),
        forall|k: int| 0 <= k < ps.len() ==> !mentions_deep(#[trigger] ps[k], n),
    ensures
        !mentions_deep_all(replaced_all(s, x, ps), n),
    decreases s,
{
    if s.len() > 0 {
        lemma_replaced_clears_deep_all(s.drop_last(), x, ps, n);
        assert(s.last() == s[s.len() - 1]);
        lemma_replaced_clears_deep(s.last(), x, ps, n);
        let r = replaced_all(s, x, ps);
        assert(r.drop_last() =~= replaced_all(s.drop_last(), x, ps));
    }
}

proof fn lemma_replaced_clears_deep_fields(
    f: Seq<(Seq<char>, TypeView)>,
    x: Seq<Seq<char>>,
    ps: Seq<TypeView>,
    n: Seq<char>,
)
    requires
        replace_fields_ok(f, x, ps.len()),
        x.contains(n),
        forall|k: int| 0 <= k < ps.len() ==> !mentions_deep(#[trigger] ps[k], n),
    ensures
        !mentions_deep_fields(replaced_fields(f, x, ps), n),
    decreases f,
{
    if f.len() > 0 {
        lemma_replaced_clears_deep_fields(f.drop_last(), x, ps, n);
        assert(f.last() == f[f.len() - 1]);
        lemma_replaced_clears_deep(f.last().1, x, ps, n);
        let r = replaced_fields(f, x, ps);
        assert(r.drop_last() =~= replaced_fields(f.drop_last(), x, ps));
    }
}

/// Substituting types without type variables for the variables `x` leaves
/// none of them anywhere in the result (in tuples, lists, options,
/// functions, struct arguments and `Dyn` contracts alike).
pub proof fn law_substitution_clears(t: TypeView, x: Seq<Seq<char>>, ps: Seq<TypeView>, n: Seq<char>)
    requires
        replace_ok(t, x, ps.len()),
        x.contains(n),
        forall|k: int| 0 <= k < ps.len() ==> !has_generic(#[trigger] ps[k]),
    ensures
        !mentions(replaced(t, x, ps), n),
        !mentions_deep(replaced(t, x, ps), n),
{
    assert forall|k: int| 0 <= k < ps.len() implies !mentions(#[trigger] ps[k], n) by {
        lemma_ground_mentions_none(ps[k], n);
    }
    assert forall|k: int| 0 <= k < ps.len() implies !mentions_deep(#[trigger] ps[k], n) by {
        lemma_ground_deep_none(ps[k], n);
    }
    lemma_replaced_clears(t, x, ps, n);
    lemma_replaced_clears_deep(t, x, ps, n);
}

/// Two different types, the expected one without type variables, never
/// match (no `Any` or `Dyn` type in either, none in the map).
pub proof fn law_distinct_ground_types_mismatch(t1: TypeView, t2: TypeView, m: MapView, env: Environment, fuel: nat)
    requires
        !has_generic(t1),
        plain(t1),
        plain(t2),
        map_no_dyn(m),
        t1 != t2,
    ensures
        !(unify_one(t1, t2, m, env, fuel) matches Some((_, None))),
{
    lemma_one_resolves(t1, t2, m, env, fuel);
    if let Some((m2, None)) = unify_one(t1, t2, m, env, fuel) {
        law_ground_type_unchanged(t1, Seq::empty(), Seq::empty(), m2, Seq::empty());
    }
}

/// Binding a variable other than `n` leaves `n`'s binding.
proof fn lemma_push_other(m: MapView, k: Seq<char>, v: TypeView, n: Seq<char>)
    requires
        k != n,
    ensures
        bound_to(m.push((k, v)), n) == bound_to(m, n),
{
    assert(m.push((k, v)).drop_last() =~= m);
}

/// Unifying `t1` against `t2`, where no `Dyn` type occurs, binds no
/// variable that `t1` does not mention.
proof fn lemma_one_spares(t1: TypeView, t2: TypeView, m: MapView, env: Environment, fuel: nat, n: Seq<char>)
    requires
        no_dyn(t1),
        no_dyn(t2),
        map_no_dyn(m),
        !mentions(t1, n),
    ensures
        unify_one(t1, t2, m, env, fuel) matches Some((m2, _)) ==> bound_to(m2, n) == bound_to(m, n),
    decreases t1,
{
    if t1 is Any && t2 != TypeView::Nil {
    } else if t2 is Any && t1 != TypeView::Nil {
    } else {
        match t1 {
            TypeView::Tuple(e1) => match t2 {
                TypeView::Tuple(e2) => lemma_list_spares(e1, e2, m, env, fuel, n),
                _ => {},
            },
            TypeView::Generic(n1) => {
                if t2 == TypeView::Nil || t2 == TypeView::Void {
                } else {
                    match bound_to(m, n1) {
                        Some(mapped) => crate::typechecker::lemma_bound_no_dyn(m, n1),
                        None => lemma_push_other(m, n1, t2, n),
                    }
                }
            },
            TypeView::List(i1) => match t2 {
                TypeView::List(i2) => lemma_one_spares(*i1, *i2, m, env, fuel, n),
                _ => {},
            },
            TypeView::Option(i1) => match t2 {
                TypeView::Option(i2) => lemma_one_spares(*i1, *i2, m, env, fuel, n),
                _ => {},
            },
            TypeView::Function(p1, r1) => match t2 {
                TypeView::Function(p2, r2) => if p1.len() == p2.len() {
                    lemma_seq_spares(p1, p2, m, env, fuel, n);
                    crate::typechecker::lemma_seq_no_dyn(p1, p2, m, env, fuel);
                    if let Some((m1, None)) = unify_seq(p1, p2, m, env, fuel) {
                        lemma_one_spares(*r1, *r2, m1, env, fuel, n);
                    }
                },
                _ => {},
            },
            TypeView::Custom(n1, g1) => match t2 {
                TypeView::Custom(n2, g2) => if n1 == n2 {
                    lemma_list_spares(g1, g2, m, env, fuel, n);
                },
                _ => {},
            },
            _ => {},
        }
    }
}

proof fn lemma_list_spares(ts1: Seq<TypeView>, ts2: Seq<TypeView>, m: MapView, env: Environment, fuel: nat, n: Seq<char>)
    requires
        all_no_dyn(ts1),
        all_no_dyn(ts2),
        map_no_dyn(m),
        !mentions_any(ts1, n),
    ensures
        unify_list(ts1, ts2, m, env, fuel) matches Some((m2, _)) ==> bound_to(m2, n) == bound_to(m, n),
    decreases ts1, 1nat,
{
    if ts1.len() == ts2.len() {
        lemma_seq_spares(ts1, ts2, m, env, fuel, n);
    }
}

proof fn lemma_seq_spares(ts1: Seq<TypeView>, ts2: Seq<TypeView>, m: MapView, env: Environment, fuel: nat, n: Seq<char>)
    requires
        all_no_dyn(ts1),
        all_no_dyn(ts2),
        ts1.len() == ts2.len(),
        map_no_dyn(m),
        !mentions_any(ts1, n),
    ensures
        unify_seq(ts1, ts2, m, env, fuel) matches Some((m2, _)) ==> bound_to(m2, n) == bound_to(m, n),
    decreases ts1, 0nat,
{
    if ts1.len() > 0 {
        lemma_seq_spares(ts1.drop_last(), ts2.drop_last(), m, env, fuel, n);
        crate::typechecker::lemma_seq_no_dyn(ts1.drop_last(), ts2.drop_last(), m, env, fuel);
        if let Some((m1, None)) = unify_seq(ts1.drop_last(), ts2.drop_last(), m, env, fuel) {
            assert(ts1.last() == ts1[ts1.len() - 1]);
            lemma_one_spares(ts1.last(), ts2.last(), m1, env, fuel, n);
        }
    }
}

/// The map key of a `Dyn` type's own variable is not the variable itself.
proof fn lemma_key_differs(own: Seq<char>)
    ensures
        dyn_key(own) != own,
{
    reveal_strlit("__dyn_");
    assert(dyn_key(own).len() == own.len() + 6);
}

proof fn lemma_each_spares(
    t1: TypeView,
    t2: TypeView,
    own: Seq<char>,
    c1: Seq<(Seq<char>, TypeView)>,
    nf: Seq<(Seq<char>, TypeView)>,
    k: nat,
    m: MapView,
    env: Environment,
    fuel: nat,
)
    requires
        k <= c1.len(),
        crate::typechecker::fields_no_dyn(c1),
        crate::typechecker::fields_no_dyn(nf),
        map_no_dyn(m),
    ensures
        each_field(t1, t2, own, c1, nf, k, m, env, fuel) matches Some((m2, _)) ==> bound_to(m2, own) == bound_to(m, own),
    decreases k,
{
    if k > 0 {
        lemma_each_spares(t1, t2, own, c1, nf, (k - 1) as nat, m, env, fuel);
        if let Some((m1, None)) = each_field(t1, t2, own, c1, nf, (k - 1) as nat, m, env, fuel) {
            let cn = c1[k - 1].0;
            if let Some(nfield) = field_named(nf, cn) {
                if fuel > 0 {
                    crate::typechecker::lemma_each_no_dyn(t1, t2, own, c1, nf, (k - 1) as nat, m, env, fuel);
                    crate::typechecker::lemma_field_named_no_dyn(nf, cn);
                    let ft = match field_named(c1, cn) {
                        Some(t) => t,
                        None => c1[k - 1].1,
                    };
                    if field_named(c1, cn) is Some {
                        crate::typechecker::lemma_field_named_no_dyn(c1, cn);
                    }
                    let xs = seq![own];
                    let key_type = seq![TypeView::Generic(dyn_key(own))];
                    lemma_key_differs(own);
                    assert(xs[0] == own);
                    assert(crate::typechecker::all_no_dyn(key_type)) by {
                        assert(key_type.drop_last() =~= Seq::<TypeView>::empty());
                        assert(crate::typechecker::all_no_dyn(key_type.drop_last()));
                        assert(key_type.last() == TypeView::Generic(dyn_key(own)));
                        assert(no_dyn(key_type.last()));
                    }
                    crate::ttype::lemma_replace_ok_small(ft, xs, 1);
                    crate::typechecker::lemma_replaced_no_dyn(ft, xs, key_type);
                    lemma_replaced_clears(ft, xs, key_type, own);
                    lemma_one_spares(replaced(ft, xs, key_type), nfield, m1, env, (fuel - 1) as nat, own);
                }
            }
        }
    }
}

/// A `Dyn` contract's own variable stands for the struct checked against
/// it, under its own map key: checking a struct against a contract (with no
/// `Dyn` types in the contract, the struct, its fields or the map) never
/// binds the own variable itself (a known struct is bound under the own
/// variable's key instead), so a field whose type uses the own variable
/// must match with the struct in its place.
pub proof fn law_dyn_own_variable_scoped(
    t1: TypeView,
    t2: TypeView,
    own: Seq<char>,
    c1: Seq<(Seq<char>, TypeView)>,
    name: Seq<char>,
    m: MapView,
    env: Environment,
    fuel: nat,
)
    requires
        crate::typechecker::fields_no_dyn(c1),
        no_dyn(t2),
        map_no_dyn(m),
        first_fields(env.custom_types@, name) matches Some(f) ==> crate::typechecker::fields_no_dyn(f),
    ensures
        contracts(t1, t2, own, c1, name, m, env, fuel) matches Some((m2, _)) ==> bound_to(m2, own) == bound_to(m, own)
            && (first_fields(env.custom_types@, name) is Some ==> bound_to(m2, dyn_key(own)) is Some),
{
    if let Some(fields) = first_fields(env.custom_types@, name) {
        let key = dyn_key(own);
        lemma_key_differs(own);
        let m1 = match bound_to(m, key) {
            Some(_) => m,
            None => m.push((key, t2)),
        };
        if bound_to(m, key) is None {
            lemma_push_other(m, key, t2, own);
            assert(m.push((key, t2)).drop_last() =~= m);
            assert(bound_to(m.push((key, t2)), key) == Some(t2));
        }
        assert(bound_to(m1, key) is Some);
        assert(bound_to(m1, own) == bound_to(m, own));
        assert(map_no_dyn(m1)) by {
            assert forall|j: int| 0 <= j < m1.len() implies no_dyn(#[trigger] m1[j].1) by {
                if j < m.len() {
                    assert(m1[j] == m[j]);
                }
            }
        }
        let cf = contract_fields(t1, t2, own, c1, fields, m1, env, fuel);
        assert(bound_to(m, key) matches Some(mapped) && mapped != t2 ==> contracts(t1, t2, own, c1, name, m, env, fuel)
            == crate::typechecker::fail(m, ErrorView::Mismatch(bound_to(m, key)->0, t2)));
        assert(!(bound_to(m, key) matches Some(mapped) && mapped != t2) ==> contracts(t1, t2, own, c1, name, m, env, fuel)
            == cf);
        if let TypeView::Custom(n2, tps) = t2 {
            if fields.len() >= c1.len() {
                match first_generics(env.generic_type_struct@, n2) {
                    Some(gp) => if replace_fields_ok(fields, gp, tps.len()) {
                        assert(cf == each_field(t1, t2, own, c1, replaced_fields(fields, gp, tps), c1.len(), m1, env, fuel));
                        crate::typechecker::lemma_replaced_fields_no_dyn(fields, gp, tps);
                        lemma_each_spares(t1, t2, own, c1, replaced_fields(fields, gp, tps), c1.len(), m1, env, fuel);
                        lemma_each_keeps(t1, t2, own, c1, replaced_fields(fields, gp, tps), c1.len(), m1, env, fuel);
                        if let Some((m2, _)) = each_field(t1, t2, own, c1, replaced_fields(fields, gp, tps), c1.len(), m1, env, fuel) {
                            lemma_bound_extends(m1, m2, key);
                        }
                    },
                    None => {
                        assert(cf == each_field(t1, t2, own, c1, fields, c1.len(), m1, env, fuel));
                        lemma_each_spares(t1, t2, own, c1, fields, c1.len(), m1, env, fuel);
                        lemma_each_keeps(t1, t2, own, c1, fields, c1.len(), m1, env, fuel);
                        if let Some((m2, _)) = each_field(t1, t2, own, c1, fields, c1.len(), m1, env, fuel) {
                            lemma_bound_extends(m1, m2, key);
                        }
                    },
                }
            }
        }
    }
}

/// How the type constructors read: `$n` is the variable `n`; `[]` a list of
/// `None`; `[T]`, `List(T)` a list of `T`; `Option(T)` an option of `T` (when
/// `T` is no option); `(T)` is `T`; and `fn()` with no arrow after it a
/// function from `None` to `Void`. Here `v` is the type that the tokens of
/// `T` read as, and `q` the position after them.
pub proof fn law_type_constructors(
    t: Seq<Token>,
    i: int,
    env: crate::typechecker::Environment,
    n: String,
    v: TypeView,
    q: int,
)
    requires
        0 <= i,
    ensures
        (sym_at(t, i, StructuralSymbol::DollarSign) && id_at(t, i + 1) == Some(n)) ==> type_at(t, i, env) == Ok::<
            (TypeView, int),
            ParseError,
        >((TypeView::Generic(n@), i + 2)),
        (sym_at(t, i, StructuralSymbol::LeftSquareBracket) && sym_at(t, i + 1, StructuralSymbol::RightSquareBracket))
            ==> type_at(t, i, env) == Ok::<(TypeView, int), ParseError>((TypeView::List(Box::new(TypeView::Nil)), i + 2)),
        (sym_at(t, i, StructuralSymbol::LeftSquareBracket) && !sym_at(t, i + 1, StructuralSymbol::RightSquareBracket)
            && type_at(t, i + 1, env) == Ok::<(TypeView, int), ParseError>((v, q)) && sym_at(
            t,
            q,
            StructuralSymbol::RightSquareBracket,
        )) ==> type_at(t, i, env) == Ok::<(TypeView, int), ParseError>((TypeView::List(Box::new(v)), q + 1)),
        (id_at(t, i) == Some(n) && n@ == "List"@ && sym_at(t, i + 1, StructuralSymbol::LeftParen) && type_at(t, i + 2, env)
            == Ok::<(TypeView, int), ParseError>((v, q)) && sym_at(t, q, StructuralSymbol::RightParen)) ==> type_at(
            t,
            i,
            env,
        ) == Ok::<(TypeView, int), ParseError>((TypeView::List(Box::new(v)), q + 1)),
        (id_at(t, i) == Some(n) && n@ == "Option"@ && sym_at(t, i + 1, StructuralSymbol::LeftParen) && type_at(
            t,
            i + 2,
            env,
        ) == Ok::<(TypeView, int), ParseError>((v, q)) && sym_at(t, q, StructuralSymbol::RightParen) && !(v is Option))
            ==> type_at(t, i, env) == Ok::<(TypeView, int), ParseError>((TypeView::Option(Box::new(v)), q + 1)),
        (sym_at(t, i, StructuralSymbol::LeftParen) && !sym_at(t, i + 1, StructuralSymbol::RightParen) && type_at(
            t,
            i + 1,
            env,
        ) == Ok::<(TypeView, int), ParseError>((v, q)) && i < q <= t.len() && sym_at(t, q, StructuralSymbol::RightParen))
            ==> type_at(t, i, env) == Ok::<(TypeView, int), ParseError>((v, q + 1)),
        (id_at(t, i) == Some(n) && n@ == "fn"@ && sym_at(t, i + 1, StructuralSymbol::LeftParen) && sym_at(
            t,
            i + 2,
            StructuralSymbol::RightParen,
        ) && !op_at(t, i + 3, Operator::RightArrow)) ==> type_at(t, i, env) == Ok::<(TypeView, int), ParseError>(
            (TypeView::Function(seq![TypeView::Nil], Box::new(TypeView::Void)), i + 3),
        ),
{
    reveal_strlit("fn");
    reveal_strlit("Option");
    reveal_strlit("List");
    if id_at(t, i) == Some(n) {
        if n@ == "List"@ {
            assert(n@ != "fn"@) by {
                assert(n@.len() != "fn"@.len());
            }
            assert(n@ != "Option"@) by {
                assert(n@.len() != "Option"@.len());
            }
        }
        if n@ == "Option"@ {
            assert(n@ != "fn"@) by {
                assert(n@.len() != "fn"@.len());
            }
        }
        if n@ == "fn"@ && sym_at(t, i + 1, StructuralSymbol::LeftParen) && sym_at(t, i + 2, StructuralSymbol::RightParen)
            && !op_at(t, i + 3, Operator::RightArrow) {
            assert(!sym_at(t, i, StructuralSymbol::LeftParen));
            assert(crate::parser::returns_at(t, i + 3, seq![TypeView::Nil], env) == Ok::<(TypeView, int), ParseError>(
                (TypeView::Function(seq![TypeView::Nil], Box::new(TypeView::Void)), i + 3),
            ));
        }
    }
    if sym_at(t, i, StructuralSymbol::LeftParen) && !sym_at(t, i + 1, StructuralSymbol::RightParen) && type_at(t, i + 1, env)
        == Ok::<(TypeView, int), ParseError>((v, q)) && i < q <= t.len() && sym_at(t, q, StructuralSymbol::RightParen) {
        assert(crate::parser::paren_rest(t, q, seq![v], env) == Ok::<(Seq<TypeView>, int, bool), ParseError>(
            (seq![v], q + 1, false),
        ));
        assert(seq![v][0] == v);
    }
}

/// The type variables named in `x`, each as a type.
pub open spec fn variables(x: Seq<Seq<char>>) -> Seq<TypeView> {
    Seq::new(x.len(), |k: int| TypeView::Generic(x[k]))
}

/// Where `first_index` finds a name, the name stands there.
proof fn lemma_first_index_names(x: Seq<Seq<char>>, n: Seq<char>)
    ensures
        first_index(x, n) matches Some(k) ==> 0 <= k < x.len() && x[k] == n,
    decreases x.len(),
{
    if x.len() > 0 {
        lemma_first_index_names(x.drop_last(), n);
    }
}

/// Substitution puts, for a variable named in `x`, the type at the position
/// where `x` first names it.
pub proof fn law_substitution_lookup(x: Seq<Seq<char>>, ps: Seq<TypeView>, k: int)
    requires
        0 <= k < x.len(),
        forall|j: int| 0 <= j < k ==> x[j] != x[k],
    ensures
        replaced(TypeView::Generic(x[k]), x, ps) == ps[k],
{
    crate::ttype::lemma_first_index(x, x[k], k);
}

/// Substituting each variable of `x` by itself changes no type: substitution
/// keeps the shape of every type (tuples, lists, options, functions, custom
/// and `Dyn` types alike) and touches nothing but the variables.
pub proof fn law_substitution_identity(t: TypeView, x: Seq<Seq<char>>)
    ensures
        replaced(t, x, variables(x)) == t,
    decreases t,
{
    match t {
        TypeView::Generic(n) => {
            lemma_first_index_names(x, n);
        },
        TypeView::Custom(_, tps) => lemma_identity_all(tps, x),
        TypeView::List(i) => law_substitution_identity(*i, x),
        TypeView::Function(p, r) => {
            lemma_identity_all(p, x);
            law_substitution_identity(*r, x);
        },
        TypeView::Option(i) => law_substitution_identity(*i, x),
        TypeView::Tuple(es) => lemma_identity_all(es, x),
        TypeView::Dyn(_, c) => lemma_identity_fields(c, x),
        _ => {},
    }
}

/// `law_substitution_identity` for each type of a sequence.
proof fn lemma_identity_all(s: Seq<TypeView>, x: Seq<Seq<char>>)
    ensures
        replaced_all(s, x, variables(x)) == s,
    decreases s,
{
    if s.len() > 0 {
        lemma_identity_all(s.drop_last(), x);
        assert(s.last() == s[s.len() - 1]);
        law_substitution_identity(s.last(), x);
        assert(s.drop_last().push(s.last()) =~= s);
    }
}

/// `law_substitution_identity` for each field's type.
proof fn lemma_identity_fields(s: Seq<(Seq<char>, TypeView)>, x: Seq<Seq<char>>)
    ensures
        replaced_fields(s, x, variables(x)) == s,
    decreases s,
{
    if s.len() > 0 {
        lemma_identity_fields(s.drop_last(), x);
        assert(s.last() == s[s.len() - 1]);
        law_substitution_identity(s.last().1, x);
        assert(s.drop_last().push((s.last().0, s.last().1)) =~= s);
    }
}

/// Field names survive substitution in the field types.
proof fn lemma_field_named_replaced(
    fields: Seq<(Seq<char>, TypeView)>,
    x: Seq<Seq<char>>,
    ps: Seq<TypeView>,
    n: Seq<char>,
)
    ensures
        field_named(replaced_fields(fields, x, ps), n) is None <==> field_named(fields, n) is None,
    decreases fields.len(),
{
    if fields.len() > 0 {
        lemma_field_named_replaced(fields.drop_last(), x, ps, n);
        assert(replaced_fields(fields, x, ps).drop_last() =~= replaced_fields(fields.drop_last(), x, ps));
    }
}

/// A contract field the struct lacks stops the first `k` contract fields
/// from checking out.
proof fn lemma_missing_field_each(
    t1: TypeView,
    t2: TypeView,
    own: Seq<char>,
    c1: Seq<(Seq<char>, TypeView)>,
    nf: Seq<(Seq<char>, TypeView)>,
    k: nat,
    m: MapView,
    env: Environment,
    fuel: nat,
    j: int,
)
    requires
        0 <= j < k <= c1.len(),
        field_named(nf, c1[j].0) is None,
    ensures
        !(each_field(t1, t2, own, c1, nf, k, m, env, fuel) matches Some((_, None))),
    decreases k,
{
    if j < k - 1 {
        lemma_missing_field_each(t1, t2, own, c1, nf, (k - 1) as nat, m, env, fuel, j);
    }
}

/// Structural typing refuses what does not fit: a `Dyn` contract never
/// accepts a struct that lacks one of the contract's fields, and a type name
/// that names no struct is refused as a mismatch with the `Dyn` type.
pub proof fn law_dyn_refuses_missing_field(
    own: Seq<char>,
    c1: Seq<(Seq<char>, TypeView)>,
    name: Seq<char>,
    tps: Seq<TypeView>,
    m: MapView,
    env: Environment,
    fuel: nat,
    j: int,
)
    requires
        0 <= j < c1.len(),
    ensures
        (first_fields(env.custom_types@, name) matches Some(f) && field_named(f, c1[j].0) is None) ==> !(unify_one(
            TypeView::Dyn(own, c1),
            TypeView::Custom(name, tps),
            m,
            env,
            fuel,
        ) matches Some((_, None))),
        first_fields(env.custom_types@, name) is None ==> unify_one(
            TypeView::Dyn(own, c1),
            TypeView::Custom(name, tps),
            m,
            env,
            fuel,
        ) == Some::<(MapView, Option<ErrorView>)>(
            (m, Some(ErrorView::Mismatch(TypeView::Dyn(own, c1), TypeView::Custom(name, tps)))),
        ),
{
    let t1 = TypeView::Dyn(own, c1);
    let t2 = TypeView::Custom(name, tps);
    assert(unify_one(t1, t2, m, env, fuel) == contracts(t1, t2, own, c1, name, m, env, fuel));
    if let Some(fields) = first_fields(env.custom_types@, name) {
        if field_named(fields, c1[j].0) is None {
            let key = dyn_key(own);
            let m1 = match bound_to(m, key) {
                Some(_) => m,
                None => m.push((key, t2)),
            };
            if bound_to(m, key) is None || bound_to(m, key) == Some(t2) {
                assert(contracts(t1, t2, own, c1, name, m, env, fuel) == contract_fields(
                    t1,
                    t2,
                    own,
                    c1,
                    fields,
                    m1,
                    env,
                    fuel,
                ));
            }
            if c1.len() <= fields.len() {
                match first_generics(env.generic_type_struct@, name) {
                    Some(gp) => {
                        lemma_field_named_replaced(fields, gp, tps, c1[j].0);
                        lemma_missing_field_each(
                            t1,
                            t2,
                            own,
                            c1,
                            replaced_fields(fields, gp, tps),
                            c1.len(),
                            m1,
                            env,
                            fuel,
                            j,
                        );
                    },
                    None => {
                        lemma_missing_field_each(t1, t2, own, c1, fields, c1.len(), m1, env, fuel, j);
                    },
                }
            }
        }
    }
}

/// A parenthesised pair of types, `(A, B)`, parses to the tuple of the two,
/// with or without a trailing comma; a single type with a trailing comma,
/// `(A,)`, is a one-element tuple.
pub proof fn law_tuple_types(
    t: Seq<Token>,
    i: int,
    env: crate::typechecker::Environment,
    v: TypeView,
    q: int,
    w: TypeView,
    r: int,
)
    requires
        0 <= i,
        sym_at(t, i, StructuralSymbol::LeftParen),
        !sym_at(t, i + 1, StructuralSymbol::RightParen),
        type_at(t, i + 1, env) == Ok::<(TypeView, int), ParseError>((v, q)),
        i < q <= t.len(),
        sym_at(t, q, StructuralSymbol::Comma),
    ensures
        sym_at(t, q + 1, StructuralSymbol::RightParen) ==> type_at(t, i, env) == Ok::<(TypeView, int), ParseError>(
            (TypeView::Tuple(seq![v]), q + 2),
        ),
        (!sym_at(t, q + 1, StructuralSymbol::RightParen) && type_at(t, q + 1, env) == Ok::<(TypeView, int), ParseError>(
            (w, r),
        ) && q < r <= t.len() && sym_at(t, r, StructuralSymbol::RightParen)) ==> type_at(t, i, env) == Ok::<
            (TypeView, int),
            ParseError,
        >((TypeView::Tuple(seq![v, w]), r + 1)),
        (!sym_at(t, q + 1, StructuralSymbol::RightParen) && type_at(t, q + 1, env) == Ok::<(TypeView, int), ParseError>(
            (w, r),
        ) && q < r <= t.len() && sym_at(t, r, StructuralSymbol::Comma) && sym_at(t, r + 1, StructuralSymbol::RightParen))
            ==> type_at(t, i, env) == Ok::<(TypeView, int), ParseError>((TypeView::Tuple(seq![v, w]), r + 2)),
{
    if sym_at(t, q + 1, StructuralSymbol::RightParen) {
        assert(crate::parser::paren_rest(t, q, seq![v], env) == Ok::<(Seq<TypeView>, int, bool), ParseError>(
            (seq![v], q + 2, true),
        ));
    }
    if !sym_at(t, q + 1, StructuralSymbol::RightParen) && type_at(t, q + 1, env) == Ok::<(TypeView, int), ParseError>(
        (w, r),
    ) && q < r <= t.len() {
        assert(seq![v].push(w) =~= seq![v, w]);
        if sym_at(t, r, StructuralSymbol::RightParen) {
            assert(crate::parser::paren_rest(t, r, seq![v, w], env) == Ok::<(Seq<TypeView>, int, bool), ParseError>(
                (seq![v, w], r + 1, false),
            ));
            assert(crate::parser::paren_rest(t, q, seq![v], env) == Ok::<(Seq<TypeView>, int, bool), ParseError>(
                (seq![v, w], r + 1, false),
            ));
        }
        if sym_at(t, r, StructuralSymbol::Comma) && sym_at(t, r + 1, StructuralSymbol::RightParen) {
            assert(crate::parser::paren_rest(t, r, seq![v, w], env) == Ok::<(Seq<TypeView>, int, bool), ParseError>(
                (seq![v, w], r + 2, true),
            ));
            assert(crate::parser::paren_rest(t, q, seq![v], env) == Ok::<(Seq<TypeView>, int, bool), ParseError>(
                (seq![v, w], r + 2, true),
            ));
        }
    }
}

} // verus!
