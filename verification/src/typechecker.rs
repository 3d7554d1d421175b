use vstd::prelude::*;

use crate::show::append;
use crate::text::str_equal;
use crate::ttype::{
    bound_to, copy_type, fviews, lookup_binding, names, output_in, output_of, replace_fields, replace_fields_ok,
    replaced, replaced_fields, tview, tviews, type_eq, TType, TypeView,
};

verus! {

broadcast use vstd::seq::group_seq_axioms;

/// What the checker consults: the fields of each struct type, the type
/// variables of each generic struct, and the scopes of type variables in
/// force (innermost last), and the type aliases.
pub struct Environment {
    pub custom_types: Vec<(String, Vec<(String, TType)>)>,
    pub generic_type_struct: Vec<(String, Vec<String>)>,
    pub live_generics: Vec<Vec<String>>,
    /// Named types standing for other types.
    pub type_alias: Vec<(String, TType)>,
}

/// The type checker and the environment it consults.
pub struct TypeChecker {
    pub environment: Environment,
}

/// A checker over an empty environment.
pub fn new() -> (res: TypeChecker)
    ensures
        res.environment.custom_types@.len() == 0,
        res.environment.generic_type_struct@.len() == 0,
        res.environment.live_generics@.len() == 0,
        res.environment.type_alias@.len() == 0,
{
    TypeChecker {
        environment: Environment {
            custom_types: Vec::new(),
            generic_type_struct: Vec::new(),
            live_generics: Vec::new(),
            type_alias: Vec::new(),
        },
    }
}

/// A checker over the environment `env`.
pub fn with_environment(env: Environment) -> (res: TypeChecker)
    ensures
        res.environment == env,
{
    TypeChecker { environment: env }
}

/// Why two types do not match.
#[derive(Debug)]
pub enum TypeError {
    /// `found` where `expected` was required.
    Mismatch { expected: TType, found: TType },
    /// A list of `found` types where `expected` were required.
    ArgumentCount { expected: usize, found: usize },
    /// The check has no result: contracts nested without end, or a struct
    /// given fewer type arguments than its fields use.
    Unresolved,
}

/// The view of a type error.
pub enum ErrorView {
    Mismatch(TypeView, TypeView),
    ArgumentCount(nat, nat),
    Unresolved,
}

/// The view of a type error.
pub open spec fn eview(e: TypeError) -> ErrorView {
    match e {
        TypeError::Mismatch { expected, found } => ErrorView::Mismatch(tview(expected), tview(found)),
        TypeError::ArgumentCount { expected, found } => ErrorView::ArgumentCount(expected as nat, found as nat),
        TypeError::Unresolved => ErrorView::Unresolved,
    }
}

/// The error a check result holds, as a view.
pub open spec fn result_view(r: Result<(), TypeError>) -> Option<ErrorView> {
    match r {
        Ok(_) => None,
        Err(e) => Some(eview(e)),
    }
}

/// A check's result `res` and final map `m1` answer the outcome `out`: the
/// map and error it gives, or `Unresolved` where it gives none.
pub open spec fn answers(out: Outcome, m1: MapView, res: Result<(), TypeError>) -> bool {
    match out {
        Some((m, e)) => m1 == m && result_view(res) == e,
        None => res matches Err(TypeError::Unresolved),
    }
}

/// The fields recorded first for struct `name`.
pub open spec fn first_fields(c: Seq<(String, Vec<(String, TType)>)>, name: Seq<char>) -> Option<Seq<(Seq<char>, TypeView)>>
    decreases c.len(),
{
    if c.len() == 0 {
        None
    } else {
        match first_fields(c.drop_last(), name) {
            Some(f) => Some(f),
            None => if c.last().0@ == name { Some(fviews(c.last().1@)) } else { None },
        }
    }
}

/// The type variables recorded first for generic struct `name`.
pub open spec fn first_generics(g: Seq<(String, Vec<String>)>, name: Seq<char>) -> Option<Seq<Seq<char>>>
    decreases g.len(),
{
    if g.len() == 0 {
        None
    } else {
        match first_generics(g.drop_last(), name) {
            Some(v) => Some(v),
            None => if g.last().0@ == name { Some(names(g.last().1@)) } else { None },
        }
    }
}

/// The type of the first field named `n`.
pub open spec fn field_named(fields: Seq<(Seq<char>, TypeView)>, n: Seq<char>) -> Option<TypeView>
    decreases fields.len(),
{
    if fields.len() == 0 {
        None
    } else {
        match field_named(fields.drop_last(), n) {
            Some(t) => Some(t),
            None => if fields.last().0 == n { Some(fields.last().1) } else { None },
        }
    }
}

/// The map key of a `Dyn` type's own variable: prefixed so that it never
/// meets a variable of the enclosing function.
pub open spec fn dyn_key(own: Seq<char>) -> Seq<char> {
    "__dyn_"@ + own
}

/// A type error that leaves the map as it is.
pub open spec fn fail(m: MapView, e: ErrorView) -> Outcome {
    Some((m, Some(e)))
}

/// A type-variable map: each variable with the type it stands for.
pub type MapView = Seq<(Seq<char>, TypeView)>;

/// What checking ends with: the map as it then stands and the error, if
/// any; `None` where the check does not return (an index past a struct's
/// type arguments, a contract checked against a type that is not a struct,
/// or contracts nested deeper than `fuel`).
pub type Outcome = Option<(MapView, Option<ErrorView>)>;

/// Checks that `t2` can stand where `t1` is expected, binding the type
/// variables of `t1` in `m` as it goes: `Any` matches anything but `None`;
/// a bound variable must meet its binding (or, bound to a `Dyn` type, a
/// struct that meets the contract), an unbound one is bound to `t2`; lists,
/// options, tuples, functions and struct types match part by part; a `Dyn`
/// type matches a struct meeting its contract, or its own variable; any
/// other pair must be equal.
pub open spec fn unify_one(t1: TypeView, t2: TypeView, m: MapView, env: Environment, fuel: nat) -> Outcome
    decreases fuel, t1, 3nat, 0nat,
{
    if t1 is Any && t2 != TypeView::Nil {
        Some((m, None))
    } else if t2 is Any && t1 != TypeView::Nil {
        Some((m, None))
    } else {
        match t1 {
            TypeView::Tuple(e1) => match t2 {
                TypeView::Tuple(e2) => unify_list(e1, e2, m, env, fuel),
                _ => same_or_fail(t1, t2, m),
            },
            TypeView::Generic(n1) => {
                if t2 == TypeView::Nil || t2 == TypeView::Void {
                    fail(m, ErrorView::Mismatch(t1, t2))
                } else {
                    match bound_to(m, n1) {
                        Some(mapped) => match (mapped, t2) {
                            (TypeView::Dyn(own, c), TypeView::Custom(name, _)) => contracts(t1, t2, own, c, name, m, env, fuel),
                            _ => if mapped != t2 { fail(m, ErrorView::Mismatch(mapped, t2)) } else { Some((m, None)) },
                        },
                        None => Some((m.push((n1, t2)), None)),
                    }
                }
            },
            TypeView::List(i1) => match t2 {
                TypeView::List(i2) => unify_one(*i1, *i2, m, env, fuel),
                _ => same_or_fail(t1, t2, m),
            },
            TypeView::Option(i1) => match t2 {
                TypeView::Option(i2) => unify_one(*i1, *i2, m, env, fuel),
                _ => same_or_fail(t1, t2, m),
            },
            TypeView::Function(p1, r1) => match t2 {
                TypeView::Function(p2, r2) => if p1.len() != p2.len() {
                    fail(m, ErrorView::Mismatch(t1, t2))
                } else {
                    match unify_seq(p1, p2, m, env, fuel) {
                        Some((m1, None)) => unify_one(*r1, *r2, m1, env, fuel),
                        other => other,
                    }
                },
                _ => same_or_fail(t1, t2, m),
            },
            TypeView::Custom(n1, g1) => match t2 {
                TypeView::Custom(n2, g2) => if n1 == n2 {
                    unify_list(g1, g2, m, env, fuel)
                } else {
                    fail(m, ErrorView::Mismatch(t1, t2))
                },
                _ => same_or_fail(t1, t2, m),
            },
            TypeView::Dyn(own, c1) => match t2 {
                TypeView::Custom(name, _) => contracts(t1, t2, own, c1, name, m, env, fuel),
                TypeView::Generic(name) => if name == own {
                    Some((m, None))
                } else {
                    fail(m, ErrorView::Mismatch(TypeView::Generic(own), TypeView::Generic(name)))
                },
                _ => same_or_fail(t1, t2, m),
            },
            _ => same_or_fail(t1, t2, m),
        }
    }
}

/// Equal types match; others are a mismatch.
pub open spec fn same_or_fail(t1: TypeView, t2: TypeView, m: MapView) -> Outcome {
    if t1 == t2 {
        Some((m, None))
    } else {
        fail(m, ErrorView::Mismatch(t1, t2))
    }
}

/// Checks two lists of types: they must be equally long, then match pair
/// by pair.
pub open spec fn unify_list(ts1: Seq<TypeView>, ts2: Seq<TypeView>, m: MapView, env: Environment, fuel: nat) -> Outcome
    decreases fuel, ts1, 3nat, 0nat,
{
    if ts1.len() != ts2.len() {
        fail(m, ErrorView::ArgumentCount(ts1.len(), ts2.len()))
    } else {
        unify_seq(ts1, ts2, m, env, fuel)
    }
}

/// Matches the pairs in order, stopping at the first error.
pub open spec fn unify_seq(ts1: Seq<TypeView>, ts2: Seq<TypeView>, m: MapView, env: Environment, fuel: nat) -> Outcome
    decreases fuel, ts1, 2nat, 0nat,
{
    if ts1.len() == 0 {
        Some((m, None))
    } else {
        match unify_seq(ts1.drop_last(), ts2.drop_last(), m, env, fuel) {
            Some((m1, None)) => unify_one(ts1.last(), ts2.last(), m1, env, fuel),
            other => other,
        }
    }
}

/// Checks that struct `t2` (named `name`) meets the contract `c1` of the
/// `Dyn` type `t1` whose own variable is `own`: the struct must be known,
/// consistently the one bound to the `Dyn` variable, have at least as many
/// fields as the contract, and have each contract field, of a matching type.
pub open spec fn contracts(
    t1: TypeView,
    t2: TypeView,
    own: Seq<char>,
    c1: Seq<(Seq<char>, TypeView)>,
    name: Seq<char>,
    m: MapView,
    env: Environment,
    fuel: nat,
) -> Outcome
    decreases fuel, t1, 2nat, 0nat,
{
    match first_fields(env.custom_types@, name) {
        None => fail(m, ErrorView::Mismatch(t1, t2)),
        Some(fields) => {
            let key = dyn_key(own);
            match bound_to(m, key) {
                Some(mapped) => if mapped != t2 {
                    fail(m, ErrorView::Mismatch(mapped, t2))
                } else {
                    contract_fields(t1, t2, own, c1, fields, m, env, fuel)
                },
                None => contract_fields(t1, t2, own, c1, fields, m.push((key, t2)), env, fuel),
            }
        },
    }
}

/// `contracts` once the `Dyn` variable is bound: the field count, the
/// struct's fields with the type arguments of `t2` put in (when `t2` names
/// a generic struct), and each contract field. `t2` must be a struct type.
pub open spec fn contract_fields(
    t1: TypeView,
    t2: TypeView,
    own: Seq<char>,
    c1: Seq<(Seq<char>, TypeView)>,
    fields: Seq<(Seq<char>, TypeView)>,
    m: MapView,
    env: Environment,
    fuel: nat,
) -> Outcome
    decreases fuel, t1, 1nat, 0nat,
{
    if c1.len() > fields.len() {
        fail(m, ErrorView::Mismatch(t1, t2))
    } else {
        match t2 {
            TypeView::Custom(n2, tps) => match first_generics(env.generic_type_struct@, n2) {
                Some(gp) => if replace_fields_ok(fields, gp, tps.len()) {
                    each_field(t1, t2, own, c1, replaced_fields(fields, gp, tps), c1.len(), m, env, fuel)
                } else {
                    None
                },
                None => each_field(t1, t2, own, c1, fields, c1.len(), m, env, fuel),
            },
            _ => None,
        }
    }
}

/// The first `k` contract fields, in order: each must be a field of the
/// struct, and the struct's field type must match the contract's (with the
/// `Dyn` variable renamed to its map key), one level deeper.
pub open spec fn each_field(
    t1: TypeView,
    t2: TypeView,
    own: Seq<char>,
    c1: Seq<(Seq<char>, TypeView)>,
    nf: Seq<(Seq<char>, TypeView)>,
    k: nat,
    m: MapView,
    env: Environment,
    fuel: nat,
) -> Outcome
    decreases fuel, t1, 0nat, k,
{
    if k == 0 {
        Some((m, None))
    } else {
        match each_field(t1, t2, own, c1, nf, (k - 1) as nat, m, env, fuel) {
            Some((m1, None)) => {
                let cn = c1[k - 1].0;
                match field_named(nf, cn) {
                    None => fail(m1, ErrorView::Mismatch(t1, t2)),
                    Some(nfield) => {
                        let ft = match field_named(c1, cn) {
                            Some(t) => t,
                            None => c1[k - 1].1,
                        };
                        let scoped = replaced(ft, seq![own], seq![TypeView::Generic(dyn_key(own))]);
                        if fuel == 0 {
                            None
                        } else {
                            unify_one(scoped, nfield, m1, env, (fuel - 1) as nat)
                        }
                    },
                }
            },
            other => other,
        }
    }
}

/// A record found in a prefix is the record of the whole sequence.
pub proof fn lemma_fields_prefix(c: Seq<(String, Vec<(String, TType)>)>, name: Seq<char>, m: int)
    requires
        0 <= m <= c.len(),
        first_fields(c.subrange(0, m), name) is Some,
    ensures
        first_fields(c, name) == first_fields(c.subrange(0, m), name),
    decreases c.len() - m,
{
    if m < c.len() {
        assert(c.subrange(0, m + 1).drop_last() =~= c.subrange(0, m));
        lemma_fields_prefix(c, name, m + 1);
    } else {
        assert(c.subrange(0, m) =~= c);
    }
}

/// A record found in a prefix is the record of the whole sequence.
pub proof fn lemma_generics_prefix(g: Seq<(String, Vec<String>)>, name: Seq<char>, m: int)
    requires
        0 <= m <= g.len(),
        first_generics(g.subrange(0, m), name) is Some,
    ensures
        first_generics(g, name) == first_generics(g.subrange(0, m), name),
    decreases g.len() - m,
{
    if m < g.len() {
        assert(g.subrange(0, m + 1).drop_last() =~= g.subrange(0, m));
        lemma_generics_prefix(g, name, m + 1);
    } else {
        assert(g.subrange(0, m) =~= g);
    }
}

/// A field found in a prefix is the field of the whole sequence.
pub proof fn lemma_field_named_prefix(f: Seq<(String, TType)>, n: Seq<char>, m: int)
    requires
        0 <= m <= f.len(),
        field_named(fviews(f.subrange(0, m)), n) is Some,
    ensures
        field_named(fviews(f), n) == field_named(fviews(f.subrange(0, m)), n),
    decreases f.len() - m,
{
    if m < f.len() {
        crate::ttype::lemma_fviews_prefix(f, m);
        assert(fviews(f.subrange(0, m + 1)).drop_last() =~= fviews(f.subrange(0, m)));
        lemma_field_named_prefix(f, n, m + 1);
    } else {
        assert(f.subrange(0, m) =~= f);
    }
}

/// The position of the fields recorded for struct `name`.
pub(crate) fn find_fields(c: &Vec<(String, Vec<(String, TType)>)>, name: &String) -> (res: Option<usize>)
    ensures
        match res {
            Some(k) => k < c@.len() && first_fields(c@, name@) == Some(fviews(c@[k as int].1@)),
            None => first_fields(c@, name@) is None,
        },
{
    let mut k: usize = 0;
    assert(c@.subrange(0, 0) =~= Seq::<(String, Vec<(String, TType)>)>::empty());
    while k < c.len()
        invariant
            k <= c@.len(),
            first_fields(c@.subrange(0, k as int), name@) is None,
        decreases c@.len() - k,
    {
        assert(c@.subrange(0, k + 1).drop_last() =~= c@.subrange(0, k as int));
        if str_equal(c[k].0.as_str(), name.as_str()) {
            proof {
                lemma_fields_prefix(c@, name@, (k + 1) as int);
            }
            return Some(k);
        }
        k += 1;
    }
    assert(c@.subrange(0, c@.len() as int) =~= c@);
    None
}

/// The position of the type variables recorded for generic struct `name`.
pub(crate) fn find_generics(g: &Vec<(String, Vec<String>)>, name: &String) -> (res: Option<usize>)
    ensures
        match res {
            Some(k) => k < g@.len() && first_generics(g@, name@) == Some(names(g@[k as int].1@)),
            None => first_generics(g@, name@) is None,
        },
{
    let mut k: usize = 0;
    assert(g@.subrange(0, 0) =~= Seq::<(String, Vec<String>)>::empty());
    while k < g.len()
        invariant
            k <= g@.len(),
            first_generics(g@.subrange(0, k as int), name@) is None,
        decreases g@.len() - k,
    {
        assert(g@.subrange(0, k + 1).drop_last() =~= g@.subrange(0, k as int));
        if str_equal(g[k].0.as_str(), name.as_str()) {
            proof {
                lemma_generics_prefix(g@, name@, (k + 1) as int);
            }
            return Some(k);
        }
        k += 1;
    }
    assert(g@.subrange(0, g@.len() as int) =~= g@);
    None
}

/// The position of the first field named `n`.
pub(crate) fn find_field(f: &Vec<(String, TType)>, n: &String) -> (res: Option<usize>)
    ensures
        match res {
            Some(k) => k < f@.len() && field_named(fviews(f@), n@) == Some(tview(f@[k as int].1)),
            None => field_named(fviews(f@), n@) is None,
        },
{
    let mut k: usize = 0;
    assert(f@.subrange(0, 0) =~= Seq::<(String, TType)>::empty());
    while k < f.len()
        invariant
            k <= f@.len(),
            field_named(fviews(f@.subrange(0, k as int)), n@) is None,
        decreases f@.len() - k,
    {
        proof {
            crate::ttype::lemma_fviews_prefix(f@, k as int);
            assert(fviews(f@.subrange(0, k + 1)).drop_last() =~= fviews(f@.subrange(0, k as int)));
        }
        if str_equal(f[k].0.as_str(), n.as_str()) {
            proof {
                lemma_field_named_prefix(f@, n@, (k + 1) as int);
            }
            return Some(k);
        }
        k += 1;
    }
    assert(f@.subrange(0, f@.len() as int) =~= f@);
    None
}

/// A mismatch error between copies of two types.
fn mismatch(expected: &TType, found: &TType) -> (res: TypeError)
    ensures
        eview(res) == ErrorView::Mismatch(tview(*expected), tview(*found)),
{
    TypeError::Mismatch { expected: copy_type(expected), found: copy_type(found) }
}

/// One more pair of `unify_seq`.
pub proof fn lemma_seq_step(a: Seq<TypeView>, b: Seq<TypeView>, m: MapView, env: Environment, fuel: nat, k: int)
    requires
        0 <= k < a.len(),
        a.len() == b.len(),
    ensures
        unify_seq(a.subrange(0, k + 1), b.subrange(0, k + 1), m, env, fuel) == match unify_seq(
            a.subrange(0, k),
            b.subrange(0, k),
            m,
            env,
            fuel,
        ) {
            Some((m1, None)) => unify_one(a[k], b[k], m1, env, fuel),
            other => other,
        },
{
    assert(a.subrange(0, k + 1).drop_last() =~= a.subrange(0, k));
    assert(b.subrange(0, k + 1).drop_last() =~= b.subrange(0, k));
}

/// Once a prefix stops (an error, or no return), the whole check stops there.
pub proof fn lemma_seq_stop(a: Seq<TypeView>, b: Seq<TypeView>, m: MapView, env: Environment, fuel: nat, k: int)
    requires
        0 <= k <= a.len(),
        a.len() == b.len(),
        !(unify_seq(a.subrange(0, k), b.subrange(0, k), m, env, fuel) matches Some((_, None))),
    ensures
        unify_seq(a, b, m, env, fuel) == unify_seq(a.subrange(0, k), b.subrange(0, k), m, env, fuel),
    decreases a.len() - k,
{
    if k < a.len() {
        lemma_seq_step(a, b, m, env, fuel, k);
        lemma_seq_stop(a, b, m, env, fuel, k + 1);
    } else {
        assert(a.subrange(0, k) =~= a);
        assert(b.subrange(0, k) =~= b);
    }
}

/// Once the first `k` contract fields stop, all of them stop there.
pub proof fn lemma_each_stop(
    t1: TypeView,
    t2: TypeView,
    own: Seq<char>,
    c1: Seq<(Seq<char>, TypeView)>,
    nf: Seq<(Seq<char>, TypeView)>,
    k: nat,
    n: nat,
    m: MapView,
    env: Environment,
    fuel: nat,
)
    requires
        k <= n,
        !(each_field(t1, t2, own, c1, nf, k, m, env, fuel) matches Some((_, None))),
    ensures
        each_field(t1, t2, own, c1, nf, n, m, env, fuel) == each_field(t1, t2, own, c1, nf, k, m, env, fuel),
    decreases n - k,
{
    if k < n {
        lemma_each_stop(t1, t2, own, c1, nf, k, (n - 1) as nat, m, env, fuel);
    }
}

/// The views of a list with one more pair at the end.
pub proof fn lemma_fviews_push(s: Seq<(String, TType)>, x: (String, TType))
    ensures
        fviews(s.push(x)) == fviews(s).push((x.0@, tview(x.1))),
{
    assert(s.push(x).drop_last() =~= s);
}

/// Checks type `t2` where `t1` is expected (`unify_one`), updating the map.
fn unify_one_x(t1: &TType, t2: &TType, map: &mut Vec<(String, TType)>, env: &Environment, fuel: usize) -> (res: Result<(), TypeError>)
    ensures
        answers(unify_one(tview(*t1), tview(*t2), fviews(old(map)@), *env, fuel as nat), fviews(final(map)@), res),
    decreases fuel, t1, 3nat, 0nat,
{
    let t2_nil = match t2 {
        TType::Nil => true,
        _ => false,
    };
    let t1_nil = match t1 {
        TType::Nil => true,
        _ => false,
    };
    match t1 {
        TType::Any => {
            if !t2_nil {
                return Ok(());
            }
        },
        _ => {},
    }
    match t2 {
        TType::Any => {
            if !t1_nil {
                return Ok(());
            }
        },
        _ => {},
    }
    match t1 {
        TType::Tuple { elements: e1 } => match t2 {
            TType::Tuple { elements: e2 } => unify_list_x(e1.as_slice(), e2.as_slice(), map, env, fuel),
            _ => same_or_fail_x(t1, t2),
        },
        TType::Generic { name: n1 } => {
            let t2_void = match t2 {
                TType::Void => true,
                _ => false,
            };
            if t2_nil || t2_void {
                return Err(mismatch(t1, t2));
            }
            match lookup_binding(map.as_slice(), n1) {
                Some(mapped) => match (&mapped, t2) {
                    (TType::Dyn { own, contract }, TType::Custom { name, .. }) => contracts_x(
                        t1,
                        t2,
                        own,
                        contract,
                        name,
                        map,
                        env,
                        fuel,
                    ),
                    _ => {
                        if !type_eq(&mapped, t2) {
                            Err(mismatch(&mapped, t2))
                        } else {
                            Ok(())
                        }
                    },
                },
                None => {
                    let ghost m0 = map@;
                    map.push((n1.clone(), copy_type(t2)));
                    proof {
                        lemma_fviews_push(m0, map@.last());
                        assert(map@ =~= m0.push(map@.last()));
                    }
                    Ok(())
                },
            }
        },
        TType::List { inner: i1 } => match t2 {
            TType::List { inner: i2 } => unify_one_x(i1, i2, map, env, fuel),
            _ => same_or_fail_x(t1, t2),
        },
        TType::Option { inner: i1 } => match t2 {
            TType::Option { inner: i2 } => unify_one_x(i1, i2, map, env, fuel),
            _ => same_or_fail_x(t1, t2),
        },
        TType::Function { parameters: p1, return_type: r1 } => match t2 {
            TType::Function { parameters: p2, return_type: r2 } => {
                proof {
                    crate::ttype::lemma_tviews_len(p1@);
                    crate::ttype::lemma_tviews_len(p2@);
                }
                if p1.len() != p2.len() {
                    return Err(mismatch(t1, t2));
                }
                match unify_seq_x(p1.as_slice(), p2.as_slice(), map, env, fuel) {
                    Ok(()) => unify_one_x(r1, r2, map, env, fuel),
                    Err(e) => Err(e),
                }
            },
            _ => same_or_fail_x(t1, t2),
        },
        TType::Custom { name: n1, type_params: g1 } => match t2 {
            TType::Custom { name: n2, type_params: g2 } => {
                if str_equal(n1.as_str(), n2.as_str()) {
                    unify_list_x(g1.as_slice(), g2.as_slice(), map, env, fuel)
                } else {
                    Err(mismatch(t1, t2))
                }
            },
            _ => same_or_fail_x(t1, t2),
        },
        TType::Dyn { own, contract: c1 } => match t2 {
            TType::Custom { name, .. } => contracts_x(t1, t2, own, c1, name, map, env, fuel),
            TType::Generic { name } => {
                if str_equal(name.as_str(), own.as_str()) {
                    Ok(())
                } else {
                    Err(TypeError::Mismatch {
                        expected: TType::Generic { name: own.clone() },
                        found: TType::Generic { name: name.clone() },
                    })
                }
            },
            _ => same_or_fail_x(t1, t2),
        },
        _ => same_or_fail_x(t1, t2),
    }
}

/// Equal types match; others are a mismatch.
fn same_or_fail_x(t1: &TType, t2: &TType) -> (res: Result<(), TypeError>)
    ensures
        result_view(res) == (if tview(*t1) == tview(*t2) { None } else { Some(ErrorView::Mismatch(tview(*t1), tview(*t2))) }),
{
    if type_eq(t1, t2) {
        Ok(())
    } else {
        Err(mismatch(t1, t2))
    }
}

/// Checks two lists of types (`unify_list`).
fn unify_list_x(ts1: &[TType], ts2: &[TType], map: &mut Vec<(String, TType)>, env: &Environment, fuel: usize) -> (res: Result<(), TypeError>)
    ensures
        answers(unify_list(tviews(ts1@), tviews(ts2@), fviews(old(map)@), *env, fuel as nat), fviews(final(map)@), res),
    decreases fuel, ts1@, 3nat, 0nat,
{
    proof {
        crate::ttype::lemma_tviews_len(ts1@);
        crate::ttype::lemma_tviews_len(ts2@);
    }
    if ts1.len() != ts2.len() {
        return Err(TypeError::ArgumentCount { expected: ts1.len(), found: ts2.len() });
    }
    unify_seq_x(ts1, ts2, map, env, fuel)
}

/// Matches the pairs in order, stopping at the first error (`unify_seq`).
fn unify_seq_x(ts1: &[TType], ts2: &[TType], map: &mut Vec<(String, TType)>, env: &Environment, fuel: usize) -> (res: Result<(), TypeError>)
    requires
        ts1@.len() == ts2@.len(),
    ensures
        answers(unify_seq(tviews(ts1@), tviews(ts2@), fviews(old(map)@), *env, fuel as nat), fviews(final(map)@), res),
    decreases fuel, ts1@, 2nat, 0nat,
{
    let ghost a = tviews(ts1@);
    let ghost b = tviews(ts2@);
    let ghost m0 = fviews(map@);
    proof {
        crate::ttype::lemma_tviews_len(ts1@);
        crate::ttype::lemma_tviews_len(ts2@);
        assert(a.subrange(0, 0) =~= Seq::<TypeView>::empty());
        assert(b.subrange(0, 0) =~= Seq::<TypeView>::empty());
    }
    let mut k: usize = 0;
    while k < ts1.len()
        invariant
            k <= ts1@.len(),
            ts1@.len() == ts2@.len(),
            a == tviews(ts1@),
            b == tviews(ts2@),
            a.len() == ts1@.len(),
            b.len() == ts2@.len(),
            m0 == fviews(old(map)@),
            unify_seq(a.subrange(0, k as int), b.subrange(0, k as int), m0, *env, fuel as nat) == Some((fviews(map@), None::<ErrorView>)),
        decreases ts1@.len() - k,
    {
        proof {
            lemma_seq_step(a, b, m0, *env, fuel as nat, k as int);
            crate::ttype::lemma_tviews_index(ts1@, k as int);
            crate::ttype::lemma_tviews_index(ts2@, k as int);
        }
        let r = unify_one_x(&ts1[k], &ts2[k], map, env, fuel);
        proof {
            assert(answers(unify_seq(a.subrange(0, k + 1), b.subrange(0, k + 1), m0, *env, fuel as nat), fviews(map@), r));
        }
        if r.is_err() {
            proof {
                lemma_seq_stop(a, b, m0, *env, fuel as nat, (k + 1) as int);
            }
            return r;
        }
        k += 1;
    }
    proof {
        assert(a.subrange(0, a.len() as int) =~= a);
        assert(b.subrange(0, b.len() as int) =~= b);
    }
    Ok(())
}

/// Checks struct `t2` against the contract of `Dyn` type `t1` (`contracts`).
fn contracts_x(
    t1: &TType,
    t2: &TType,
    own: &String,
    c1: &Vec<(String, TType)>,
    name: &String,
    map: &mut Vec<(String, TType)>,
    env: &Environment,
    fuel: usize,
) -> (res: Result<(), TypeError>)
    ensures
        answers(
            contracts(tview(*t1), tview(*t2), own@, fviews(c1@), name@, fviews(old(map)@), *env, fuel as nat),
            fviews(final(map)@),
            res,
        ),
    decreases fuel, t1, 2nat, 0nat,
{
    match find_fields(&env.custom_types, name) {
        None => Err(mismatch(t1, t2)),
        Some(fi) => {
            let fields = &env.custom_types[fi].1;
            let mut key = "__dyn_".to_owned();
            append(&mut key, own.as_str());
            assert(key@ == dyn_key(own@));
            match lookup_binding(map.as_slice(), &key) {
                Some(mapped) => {
                    if !type_eq(&mapped, t2) {
                        return Err(mismatch(&mapped, t2));
                    }
                },
                None => {
                    let ghost m0 = map@;
                    map.push((key.clone(), copy_type(t2)));
                    proof {
                        lemma_fviews_push(m0, map@.last());
                        assert(map@ =~= m0.push(map@.last()));
                    }
                },
            }
            contract_fields_x(t1, t2, own, c1, fields, &key, map, env, fuel)
        },
    }
}

/// `contract_fields`: the field count, the struct's fields with its type
/// arguments put in, and each contract field.
fn contract_fields_x(
    t1: &TType,
    t2: &TType,
    own: &String,
    c1: &Vec<(String, TType)>,
    fields: &Vec<(String, TType)>,
    key: &String,
    map: &mut Vec<(String, TType)>,
    env: &Environment,
    fuel: usize,
) -> (res: Result<(), TypeError>)
    requires
        key@ == dyn_key(own@),
    ensures
        answers(
            contract_fields(tview(*t1), tview(*t2), own@, fviews(c1@), fviews(fields@), fviews(old(map)@), *env, fuel as nat),
            fviews(final(map)@),
            res,
        ),
    decreases fuel, t1, 1nat, 0nat,
{
    proof {
        crate::ttype::lemma_fviews_len(c1@);
        crate::ttype::lemma_fviews_len(fields@);
    }
    if c1.len() > fields.len() {
        return Err(mismatch(t1, t2));
    }
    match t2 {
        TType::Custom { name: n2, type_params } => match find_generics(&env.generic_type_struct, n2) {
            Some(gi) => {
                let gp = &env.generic_type_struct[gi].1;
                proof {
                    crate::ttype::lemma_tviews_len(type_params@);
                }
                if !crate::ttype::replace_ok_fields(fields.as_slice(), gp.as_slice(), type_params.len()) {
                    return Err(TypeError::Unresolved);
                }
                let nf = replace_fields(fields.as_slice(), gp.as_slice(), type_params.as_slice());
                each_field_x(t1, t2, own, c1, &nf, key, map, env, fuel)
            },
            None => each_field_x(t1, t2, own, c1, fields, key, map, env, fuel),
        },
        _ => Err(TypeError::Unresolved),
    }
}

/// Each contract field in order (`each_field`).
fn each_field_x(
    t1: &TType,
    t2: &TType,
    own: &String,
    c1: &Vec<(String, TType)>,
    nf: &Vec<(String, TType)>,
    key: &String,
    map: &mut Vec<(String, TType)>,
    env: &Environment,
    fuel: usize,
) -> (res: Result<(), TypeError>)
    requires
        key@ == dyn_key(own@),
    ensures
        answers(
            each_field(tview(*t1), tview(*t2), own@, fviews(c1@), fviews(nf@), c1@.len(), fviews(old(map)@), *env, fuel as nat),
            fviews(final(map)@),
            res,
        ),
    decreases fuel, t1, 0nat, c1@.len(),
{
    let ghost tv1 = tview(*t1);
    let ghost tv2 = tview(*t2);
    let ghost cv = fviews(c1@);
    let ghost nv = fviews(nf@);
    let ghost m0 = fviews(map@);
    let ghost n = c1@.len();
    let mut k: usize = 0;
    while k < c1.len()
        invariant
            k <= c1@.len(),
            n == c1@.len(),
            key@ == dyn_key(own@),
            tv1 == tview(*t1),
            tv2 == tview(*t2),
            cv == fviews(c1@),
            nv == fviews(nf@),
            m0 == fviews(old(map)@),
            each_field(tv1, tv2, own@, cv, nv, k as nat, m0, *env, fuel as nat) == Some((fviews(map@), None::<ErrorView>)),
        decreases c1@.len() - k,
    {
        let cn = &c1[k].0;
        proof {
            crate::ttype::lemma_fviews_index(c1@, k as int);
            assert(cv[k as int].0 == cn@);
        }
        match find_field(nf, cn) {
            None => {
                let e = mismatch(t1, t2);
                proof {
                    assert(field_named(nv, cv[k as int].0) is None);
                    assert(each_field(tv1, tv2, own@, cv, nv, (k + 1) as nat, m0, *env, fuel as nat)
                        == Some((fviews(map@), Some(eview(e)))));
                    lemma_each_stop(tv1, tv2, own@, cv, nv, (k + 1) as nat, n, m0, *env, fuel as nat);
                }
                return Err(e);
            },
            Some(fi) => {
                let nfield = &nf[fi].1;
                let ft = match find_field(c1, cn) {
                    Some(j) => &c1[j].1,
                    None => &c1[k].1,
                };
                let xs = vec![own.clone()];
                let kc = key.clone();
                let ps = vec![TType::Generic { name: kc }];
                proof {
                    assert(names(xs@) =~= seq![own@]);
                    assert(ps@.drop_last() =~= Seq::<TType>::empty());
                    assert(tviews(ps@.drop_last()) =~= Seq::<TypeView>::empty());
                    assert(tview(ps@.last()) == TypeView::Generic(dyn_key(own@)));
                    assert(tviews(ps@) =~= seq![TypeView::Generic(dyn_key(own@))]);
                    crate::ttype::lemma_replace_ok_small(tview(*ft), names(xs@), 1);
                }
                let scoped = TypeChecker::replace_generic_types(ft, xs.as_slice(), ps.as_slice());
                if fuel == 0 {
                    proof {
                        assert(each_field(tv1, tv2, own@, cv, nv, (k + 1) as nat, m0, *env, fuel as nat) is None);
                        lemma_each_stop(tv1, tv2, own@, cv, nv, (k + 1) as nat, n, m0, *env, fuel as nat);
                    }
                    return Err(TypeError::Unresolved);
                }
                let r = unify_one_x(&scoped, nfield, map, env, fuel - 1);
                proof {
                    assert(answers(each_field(tv1, tv2, own@, cv, nv, (k + 1) as nat, m0, *env, fuel as nat), fviews(map@), r));
                }
                if r.is_err() {
                    proof {
                        lemma_each_stop(tv1, tv2, own@, cv, nv, (k + 1) as nat, n, m0, *env, fuel as nat);
                    }
                    return r;
                }
            },
        }
        k += 1;
    }
    Ok(())
}

/// The type holds no `Dyn` type anywhere.
pub open spec fn no_dyn(t: TypeView) -> bool
    decreases t,
{
    match t {
        TypeView::Dyn(_, _) => false,
        TypeView::Function(ps, r) => all_no_dyn(ps) && no_dyn(*r),
        TypeView::List(i) => no_dyn(*i),
        TypeView::Option(i) => no_dyn(*i),
        TypeView::Custom(_, ps) => all_no_dyn(ps),
        TypeView::Tuple(es) => all_no_dyn(es),
        _ => true,
    }
}

/// No type of `s` holds a `Dyn` type.
pub open spec fn all_no_dyn(s: Seq<TypeView>) -> bool
    decreases s,
{
    s.len() > 0 ==> all_no_dyn(s.drop_last()) && no_dyn(s.last())
}

/// No binding of the map holds a `Dyn` type.
pub open spec fn map_no_dyn(m: MapView) -> bool {
    forall|j: int| 0 <= j < m.len() ==> no_dyn(#[trigger] m[j].1)
}

/// An outcome that returns, with a map free of `Dyn` types.
pub open spec fn ends_no_dyn(out: Outcome) -> bool {
    out matches Some((m2, _)) && map_no_dyn(m2)
}

pub(crate) proof fn lemma_bound_no_dyn(m: MapView, n: Seq<char>)
    requires
        map_no_dyn(m),
        bound_to(m, n) is Some,
    ensures
        no_dyn(bound_to(m, n)->0),
    decreases m.len(),
{
    if bound_to(m.drop_last(), n) is Some {
        assert(map_no_dyn(m.drop_last())) by {
            assert forall|j: int| 0 <= j < m.drop_last().len() implies no_dyn(#[trigger] m.drop_last()[j].1) by {
                assert(m.drop_last()[j] == m[j]);
            }
        }
        lemma_bound_no_dyn(m.drop_last(), n);
    } else {
        assert(m.last() == m[m.len() - 1]);
    }
}

pub(crate) proof fn lemma_one_no_dyn(t1: TypeView, t2: TypeView, m: MapView, env: Environment, fuel: nat)
    requires
        no_dyn(t1),
        no_dyn(t2),
        map_no_dyn(m),
    ensures
        ends_no_dyn(unify_one(t1, t2, m, env, fuel)),
    decreases t1,
{
    if t1 is Any && t2 != TypeView::Nil {
    } else if t2 is Any && t1 != TypeView::Nil {
    } else {
        match t1 {
            TypeView::Tuple(e1) => match t2 {
                TypeView::Tuple(e2) => lemma_list_no_dyn(e1, e2, m, env, fuel),
                _ => {},
            },
            TypeView::Generic(n1) => {
                if t2 == TypeView::Nil || t2 == TypeView::Void {
                } else {
                    match bound_to(m, n1) {
                        Some(mapped) => lemma_bound_no_dyn(m, n1),
                        None => {
                            let m2 = m.push((n1, t2));
                            assert forall|j: int| 0 <= j < m2.len() implies no_dyn(#[trigger] m2[j].1) by {
                                if j < m.len() {
                                    assert(m2[j] == m[j]);
                                }
                            }
                        },
                    }
                }
            },
            TypeView::List(i1) => match t2 {
                TypeView::List(i2) => lemma_one_no_dyn(*i1, *i2, m, env, fuel),
                _ => {},
            },
            TypeView::Option(i1) => match t2 {
                TypeView::Option(i2) => lemma_one_no_dyn(*i1, *i2, m, env, fuel),
                _ => {},
            },
            TypeView::Function(p1, r1) => match t2 {
                TypeView::Function(p2, r2) => if p1.len() == p2.len() {
                    lemma_seq_no_dyn(p1, p2, m, env, fuel);
                    if let Some((m1, None)) = unify_seq(p1, p2, m, env, fuel) {
                        lemma_one_no_dyn(*r1, *r2, m1, env, fuel);
                    }
                },
                _ => {},
            },
            TypeView::Custom(n1, g1) => match t2 {
                TypeView::Custom(n2, g2) => if n1 == n2 {
                    lemma_list_no_dyn(g1, g2, m, env, fuel);
                },
                _ => {},
            },
            _ => {},
        }
    }
}

pub(crate) proof fn lemma_list_no_dyn(ts1: Seq<TypeView>, ts2: Seq<TypeView>, m: MapView, env: Environment, fuel: nat)
    requires
        all_no_dyn(ts1),
        all_no_dyn(ts2),
        map_no_dyn(m),
    ensures
        ends_no_dyn(unify_list(ts1, ts2, m, env, fuel)),
    decreases ts1, 1nat,
{
    if ts1.len() == ts2.len() {
        lemma_seq_no_dyn(ts1, ts2, m, env, fuel);
    }
}

pub(crate) proof fn lemma_seq_no_dyn(ts1: Seq<TypeView>, ts2: Seq<TypeView>, m: MapView, env: Environment, fuel: nat)
    requires
        all_no_dyn(ts1),
        all_no_dyn(ts2),
        ts1.len() == ts2.len(),
        map_no_dyn(m),
    ensures
        ends_no_dyn(unify_seq(ts1, ts2, m, env, fuel)),
    decreases ts1, 0nat,
{
    if ts1.len() > 0 {
        lemma_seq_no_dyn(ts1.drop_last(), ts2.drop_last(), m, env, fuel);
        if let Some((m1, None)) = unify_seq(ts1.drop_last(), ts2.drop_last(), m, env, fuel) {
            assert(ts1.last() == ts1[ts1.len() - 1]);
            lemma_one_no_dyn(ts1.last(), ts2.last(), m1, env, fuel);
        }
    }
}

/// Checking types in which no `Dyn` type occurs, against a map in which none
/// occurs either, always has a result, whatever the depth allowed: so
/// `check_and_map_types` never answers `Unresolved` on such types.
pub proof fn lemma_no_dyn_check_returns(ts1: Seq<TypeView>, ts2: Seq<TypeView>, m: MapView, env: Environment, fuel: nat)
    requires
        all_no_dyn(ts1),
        all_no_dyn(ts2),
        map_no_dyn(m),
    ensures
        unify_list(ts1, ts2, m, env, fuel) is Some,
{
    lemma_list_no_dyn(ts1, ts2, m, env, fuel);
}

/// No field type of `f` holds a `Dyn` type.
pub open spec fn fields_no_dyn(f: Seq<(Seq<char>, TypeView)>) -> bool {
    forall|i: int| 0 <= i < f.len() ==> no_dyn(#[trigger] f[i].1)
}

proof fn lemma_all_no_dyn_index(s: Seq<TypeView>, k: int)
    requires
        all_no_dyn(s),
        0 <= k < s.len(),
    ensures
        no_dyn(s[k]),
    decreases s.len(),
{
    if k < s.len() - 1 {
        lemma_all_no_dyn_index(s.drop_last(), k);
    } else {
        assert(s.last() == s[k]);
    }
}

pub(crate) proof fn lemma_replaced_no_dyn(t: TypeView, x: Seq<Seq<char>>, ps: Seq<TypeView>)
    requires
        no_dyn(t),
        all_no_dyn(ps),
        crate::ttype::replace_ok(t, x, ps.len()),
    ensures
        no_dyn(replaced(t, x, ps)),
    decreases t,
{
    match t {
        TypeView::Generic(n) => {
            if let Some(k) = crate::ttype::first_index(x, n) {
                crate::ttype::lemma_first_index_bound(x, n);
                lemma_all_no_dyn_index(ps, k);
            }
        },
        TypeView::Custom(_, tps) => lemma_replaced_all_no_dyn(tps, x, ps),
        TypeView::List(i) => lemma_replaced_no_dyn(*i, x, ps),
        TypeView::Function(p, r) => {
            lemma_replaced_all_no_dyn(p, x, ps);
            lemma_replaced_no_dyn(*r, x, ps);
        },
        TypeView::Option(i) => lemma_replaced_no_dyn(*i, x, ps),
        TypeView::Tuple(es) => lemma_replaced_all_no_dyn(es, x, ps),
        _ => {},
    }
}

proof fn lemma_replaced_all_no_dyn(s: Seq<TypeView>, x: Seq<Seq<char>>, ps: Seq<TypeView>)
    requires
        all_no_dyn(s),
        all_no_dyn(ps),
        crate::ttype::replace_all_ok(s, x, ps.len()),
    ensures
        all_no_dyn(crate::ttype::replaced_all(s, x, ps)),
    decreases s,
{
    if s.len() > 0 {
        lemma_replaced_all_no_dyn(s.drop_last(), x, ps);
        assert(s.last() == s[s.len() - 1]);
        lemma_replaced_no_dyn(s.last(), x, ps);
        let r = crate::ttype::replaced_all(s, x, ps);
        assert(r.drop_last() =~= crate::ttype::replaced_all(s.drop_last(), x, ps));
    }
}

pub(crate) proof fn lemma_replaced_fields_no_dyn(f: Seq<(Seq<char>, TypeView)>, x: Seq<Seq<char>>, ps: Seq<TypeView>)
    requires
        fields_no_dyn(f),
        all_no_dyn(ps),
        replace_fields_ok(f, x, ps.len()),
    ensures
        fields_no_dyn(replaced_fields(f, x, ps)),
        replaced_fields(f, x, ps).len() == f.len(),
    decreases f.len(),
{
    if f.len() > 0 {
        assert(fields_no_dyn(f.drop_last())) by {
            assert forall|i: int| 0 <= i < f.drop_last().len() implies no_dyn(#[trigger] f.drop_last()[i].1) by {
                assert(f.drop_last()[i] == f[i]);
            }
        }
        lemma_replaced_fields_no_dyn(f.drop_last(), x, ps);
        assert(f.last() == f[f.len() - 1]);
        lemma_replaced_no_dyn(f.last().1, x, ps);
        let r = replaced_fields(f, x, ps);
        assert forall|i: int| 0 <= i < r.len() implies no_dyn(#[trigger] r[i].1) by {
            if i < r.len() - 1 {
                assert(r[i] == replaced_fields(f.drop_last(), x, ps)[i]);
            }
        }
    }
}

pub(crate) proof fn lemma_field_named_no_dyn(f: Seq<(Seq<char>, TypeView)>, n: Seq<char>)
    requires
        fields_no_dyn(f),
        field_named(f, n) is Some,
    ensures
        no_dyn(field_named(f, n)->0),
    decreases f.len(),
{
    if field_named(f.drop_last(), n) is Some {
        assert(fields_no_dyn(f.drop_last())) by {
            assert forall|i: int| 0 <= i < f.drop_last().len() implies no_dyn(#[trigger] f.drop_last()[i].1) by {
                assert(f.drop_last()[i] == f[i]);
            }
        }
        lemma_field_named_no_dyn(f.drop_last(), n);
    } else {
        assert(f.last() == f[f.len() - 1]);
    }
}

pub(crate) proof fn lemma_each_no_dyn(
    t1: TypeView,
    t2: TypeView,
    own: Seq<char>,
    c1: Seq<(Seq<char>, TypeView)>,
    nf: Seq<(Seq<char>, TypeView)>,
    k: nat,
    m: MapView,
    env: Environment,
    fuel: nat,
)
    requires
        k <= c1.len(),
        fields_no_dyn(c1),
        fields_no_dyn(nf),
        map_no_dyn(m),
        fuel > 0,
    ensures
        ends_no_dyn(each_field(t1, t2, own, c1, nf, k, m, env, fuel)),
    decreases k,
{
    if k > 0 {
        lemma_each_no_dyn(t1, t2, own, c1, nf, (k - 1) as nat, m, env, fuel);
        if let Some((m1, None)) = each_field(t1, t2, own, c1, nf, (k - 1) as nat, m, env, fuel) {
            let cn = c1[k - 1].0;
            if let Some(nfield) = field_named(nf, cn) {
                lemma_field_named_no_dyn(nf, cn);
                let ft = match field_named(c1, cn) {
                    Some(t) => t,
                    None => c1[k - 1].1,
                };
                if field_named(c1, cn) is Some {
                    lemma_field_named_no_dyn(c1, cn);
                }
                assert(no_dyn(ft));
                let ps = seq![TypeView::Generic(dyn_key(own))];
                assert(all_no_dyn(ps)) by {
                    assert(ps.drop_last() =~= Seq::<TypeView>::empty());
                    assert(all_no_dyn(ps.drop_last()));
                    assert(ps.last() == TypeView::Generic(dyn_key(own)));
                    assert(no_dyn(ps.last()));
                }
                crate::ttype::lemma_replace_ok_small(ft, seq![own], 1);
                lemma_replaced_no_dyn(ft, seq![own], ps);
                lemma_one_no_dyn(replaced(ft, seq![own], ps), nfield, m1, env, (fuel - 1) as nat);
            }
        }
    }
}

/// A contract check returns when no `Dyn` type occurs in the struct type
/// `t2`, the contract `c1`, the map, or the fields of the struct named
/// `name` (with the type arguments put in, for a generic struct, which
/// then has as many type arguments as type variables are used), and the
/// depth allowed is not 0: so `check_contracts` never answers `Unresolved`
/// on such types.
pub proof fn lemma_no_dyn_contracts_return(
    t1: TypeView,
    t2: TypeView,
    own: Seq<char>,
    c1: Seq<(Seq<char>, TypeView)>,
    name: Seq<char>,
    m: MapView,
    env: Environment,
    fuel: nat,
)
    requires
        fuel > 0,
        t2 is Custom,
        no_dyn(t2),
        fields_no_dyn(c1),
        map_no_dyn(m),
        first_fields(env.custom_types@, name) matches Some(fields) ==> {
            &&& fields_no_dyn(fields)
            &&& (t2 matches TypeView::Custom(n2, tps) && first_generics(env.generic_type_struct@, n2) matches Some(gp)
                ==> replace_fields_ok(fields, gp, tps.len()))
        },
    ensures
        contracts(t1, t2, own, c1, name, m, env, fuel) is Some,
{
    if let Some(fields) = first_fields(env.custom_types@, name) {
        let key = dyn_key(own);
        let m1 = match bound_to(m, key) {
            Some(_) => m,
            None => m.push((key, t2)),
        };
        assert(map_no_dyn(m1)) by {
            assert forall|j: int| 0 <= j < m1.len() implies no_dyn(#[trigger] m1[j].1) by {
                if j < m.len() {
                    assert(m1[j] == m[j]);
                }
            }
        }
        if let TypeView::Custom(n2, tps) = t2 {
            if fields.len() >= c1.len() {
                match first_generics(env.generic_type_struct@, n2) {
                    Some(gp) => {
                        lemma_replaced_fields_no_dyn(fields, gp, tps);
                        lemma_each_no_dyn(t1, t2, own, c1, replaced_fields(fields, gp, tps), c1.len(), m1, env, fuel);
                    },
                    None => lemma_each_no_dyn(t1, t2, own, c1, fields, c1.len(), m1, env, fuel),
                }
            }
        }
    }
}

impl TypeChecker {
    /// Checks that the types `type_list2` can stand where `type_list1` are
    /// expected, binding type variables in `type_map` (`unify_list`);
    /// `Unresolved` where that check has no result.
    pub fn check_and_map_types(
        &self,
        type_list1: &[TType],
        type_list2: &[TType],
        type_map: &mut Vec<(String, TType)>,
    ) -> (res: Result<(), TypeError>)
        ensures
            answers(
                unify_list(tviews(type_list1@), tviews(type_list2@), fviews(old(type_map)@), self.environment, usize::MAX as nat),
                fviews(final(type_map)@),
                res,
            ),
    {
        unify_list_x(type_list1, type_list2, type_map, &self.environment, usize::MAX)
    }

    /// Checks that struct `t2`, named `name`, meets the contract `c1` of the
    /// `Dyn` type `t1` with own variable `own` (`contracts`); `Unresolved`
    /// where that check has no result.
    pub fn check_contracts(
        &self,
        type_map: &mut Vec<(String, TType)>,
        t1: &TType,
        t2: &TType,
        own: &String,
        c1: &Vec<(String, TType)>,
        name: &String,
    ) -> (res: Result<(), TypeError>)
        ensures
            answers(
                contracts(tview(*t1), tview(*t2), own@, fviews(c1@), name@, fviews(old(type_map)@), self.environment, usize::MAX as nat),
                fviews(final(type_map)@),
                res,
            ),
    {
        contracts_x(t1, t2, own, c1, name, type_map, &self.environment, usize::MAX)
    }

    /// The output type `output` with its type variables resolved against
    /// `type_map` and the innermost scope of type variables in force; the
    /// error names a variable that could not be inferred.
    pub fn get_output(&self, output: &TType, type_map: &[(String, TType)]) -> (res: Result<TType, String>)
        requires
            self.environment.live_generics@.len() > 0,
        ensures
            match output_of(tview(*output), fviews(type_map@), names(self.environment.live_generics@.last()@)) {
                Ok(v) => res matches Ok(t) && tview(t) == v,
                Err(n) => res matches Err(m) && m@ == n,
            },
    {
        let last = self.environment.live_generics.len() - 1;
        output_in(output, type_map, self.environment.live_generics[last].as_slice())
    }
}

} // verus!
