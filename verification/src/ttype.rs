use vstd::prelude::*;

use crate::typechecker::TypeChecker;

use crate::text::str_equal;

verus! {

/// A Nova type as the type checker sees it.
#[derive(Debug)]
pub enum TType {
    /// The type of `None` (the absent value).
    Nil,
    Any,
    Int,
    Float,
    Bool,
    String,
    Char,
    Void,
    Auto,
    /// A type variable.
    Generic { name: String },
    /// A named type applied to type parameters.
    Custom { name: String, type_params: Vec<TType> },
    List { inner: Box<TType> },
    Function { parameters: Vec<TType>, return_type: Box<TType> },
    Option { inner: Box<TType> },
    Tuple { elements: Vec<TType> },
    /// Any struct with the contract's fields; `own` names the value's own type.
    Dyn { own: String, contract: Vec<(String, TType)> },
}

/// The mathematical view of a [`TType`].
pub enum TypeView {
    Nil,
    Any,
    Int,
    Float,
    Bool,
    String,
    Char,
    Void,
    Auto,
    Generic(Seq<char>),
    Custom(Seq<char>, Seq<TypeView>),
    List(Box<TypeView>),
    Function(Seq<TypeView>, Box<TypeView>),
    Option(Box<TypeView>),
    Tuple(Seq<TypeView>),
    Dyn(Seq<char>, Seq<(Seq<char>, TypeView)>),
}

/// The view of a type.
pub open spec fn tview(t: TType) -> TypeView
    decreases t,
{
    match t {
        TType::Nil => TypeView::Nil,
        TType::Any => TypeView::Any,
        TType::Int => TypeView::Int,
        TType::Float => TypeView::Float,
        TType::Bool => TypeView::Bool,
        TType::String => TypeView::String,
        TType::Char => TypeView::Char,
        TType::Void => TypeView::Void,
        TType::Auto => TypeView::Auto,
        TType::Generic { name } => TypeView::Generic(name@),
        TType::Custom { name, type_params } => TypeView::Custom(name@, tviews(type_params@)),
        TType::List { inner } => TypeView::List(Box::new(tview(*inner))),
        TType::Function { parameters, return_type } => TypeView::Function(tviews(parameters@), Box::new(tview(*return_type))),
        TType::Option { inner } => TypeView::Option(Box::new(tview(*inner))),
        TType::Tuple { elements } => TypeView::Tuple(tviews(elements@)),
        TType::Dyn { own, contract } => TypeView::Dyn(own@, fviews(contract@)),
    }
}

/// The views of a sequence of types.
pub open spec fn tviews(s: Seq<TType>) -> Seq<TypeView>
    decreases s,
{
    if s.len() == 0 {
        Seq::empty()
    } else {
        tviews(s.drop_last()).push(tview(s.last()))
    }
}

/// The views of named fields.
pub open spec fn fviews(s: Seq<(String, TType)>) -> Seq<(Seq<char>, TypeView)>
    decreases s,
{
    if s.len() == 0 {
        Seq::empty()
    } else {
        fviews(s.drop_last()).push((s.last().0@, tview(s.last().1)))
    }
}

/// The type mentions a type variable or a `Dyn` type (which has its own).
pub open spec fn has_generic(t: TypeView) -> bool
    decreases t,
{
    match t {
        TypeView::Generic(_) => true,
        TypeView::Function(ps, r) => any_generic(ps) || has_generic(*r),
        TypeView::List(i) => has_generic(*i),
        TypeView::Option(i) => has_generic(*i),
        TypeView::Custom(_, ps) => any_generic(ps),
        TypeView::Tuple(es) => any_generic(es),
        TypeView::Dyn(_, _) => true,
        _ => false,
    }
}

/// Some type in `s` mentions a type variable (`has_generic`).
pub open spec fn any_generic(s: Seq<TypeView>) -> bool
    decreases s,
{
    if s.len() == 0 {
        false
    } else {
        any_generic(s.drop_last()) || has_generic(s.last())
    }
}

/// The views of a prefix are a prefix of the views.
pub proof fn lemma_tviews_prefix(s: Seq<TType>, k: int)
    requires
        0 <= k < s.len(),
    ensures
        tviews(s.subrange(0, k + 1)) == tviews(s.subrange(0, k)).push(tview(s[k])),
        tviews(s).len() == s.len(),
{
    assert(s.subrange(0, k + 1).drop_last() =~= s.subrange(0, k));
    lemma_tviews_len(s);
}

/// As many views as types.
pub proof fn lemma_tviews_len(s: Seq<TType>)
    ensures
        tviews(s).len() == s.len(),
    decreases s.len(),
{
    if s.len() > 0 {
        lemma_tviews_len(s.drop_last());
    }
}

/// Whether the type mentions a type variable or is a `Dyn` type.
pub fn is_generic_type(t: &TType) -> (res: bool)
    ensures
        res == has_generic(tview(*t)),
    decreases t,
{
    match t {
        TType::Generic { .. } => true,
        TType::Function { parameters, return_type } => {
            if TypeChecker::is_generic(parameters.as_slice()) {
                return true;
            }
            is_generic_type(return_type)
        },
        TType::List { inner } => is_generic_type(inner),
        TType::Option { inner } => is_generic_type(inner),
        TType::Custom { type_params, .. } => TypeChecker::is_generic(type_params.as_slice()),
        TType::Tuple { elements } => TypeChecker::is_generic(elements.as_slice()),
        TType::Dyn { .. } => true,
        _ => false,
    }
}

impl TypeChecker {
    /// Whether any of the types mentions a type variable or is a `Dyn` type.
    pub fn is_generic(params: &[TType]) -> (res: bool)
        ensures
            res == any_generic(tviews(params@)),
        decreases params@,
    {
        let mut k: usize = 0;
        assert(params@.subrange(0, 0) =~= Seq::<TType>::empty());
        while k < params.len()
            invariant
                k <= params@.len(),
                !any_generic(tviews(params@.subrange(0, k as int))),
            decreases params@.len() - k,
        {
            proof {
                lemma_tviews_prefix(params@, k as int);
                assert(tviews(params@.subrange(0, k + 1)).drop_last() =~= tviews(params@.subrange(0, k as int)));
            }
            if is_generic_type(&params[k]) {
                proof {
                    lemma_any_generic_prefix(params@, (k + 1) as int);
                }
                return true;
            }
            k += 1;
        }
        assert(params@.subrange(0, params@.len() as int) =~= params@);
        false
    }
}

/// A type variable in a prefix is one in the whole sequence.
pub proof fn lemma_any_generic_prefix(s: Seq<TType>, n: int)
    requires
        0 <= n <= s.len(),
        any_generic(tviews(s.subrange(0, n))),
    ensures
        any_generic(tviews(s)),
    decreases s.len() - n,
{
    if n < s.len() {
        lemma_tviews_prefix(s, n);
        assert(tviews(s.subrange(0, n + 1)).drop_last() =~= tviews(s.subrange(0, n)));
        lemma_any_generic_prefix(s, n + 1);
    } else {
        assert(s.subrange(0, n) =~= s);
    }
}

/// The names of a sequence of strings.
pub open spec fn names(x: Seq<String>) -> Seq<Seq<char>> {
    x.map_values(|s: String| s@)
}

/// The first position of `n` in `x`.
pub open spec fn first_index(x: Seq<Seq<char>>, n: Seq<char>) -> Option<int>
    decreases x.len(),
{
    if x.len() == 0 {
        None
    } else {
        match first_index(x.drop_last(), n) {
            Some(k) => Some(k),
            None => if x.last() == n { Some(x.len() - 1) } else { None },
        }
    }
}

/// `t` with each type variable named in `x` replaced by the type at the
/// same position of `ps` (the first position, when named twice); a `Dyn`
/// type's own variable stays.
pub open spec fn replaced(t: TypeView, x: Seq<Seq<char>>, ps: Seq<TypeView>) -> TypeView
    decreases t,
{
    match t {
        TypeView::Generic(n) => match first_index(x, n) {
            Some(k) => ps[k],
            None => t,
        },
        TypeView::Custom(name, tps) => TypeView::Custom(name, replaced_all(tps, x, ps)),
        TypeView::List(i) => TypeView::List(Box::new(replaced(*i, x, ps))),
        TypeView::Function(p, r) => TypeView::Function(replaced_all(p, x, ps), Box::new(replaced(*r, x, ps))),
        TypeView::Option(i) => TypeView::Option(Box::new(replaced(*i, x, ps))),
        TypeView::Tuple(es) => TypeView::Tuple(replaced_all(es, x, ps)),
        TypeView::Dyn(own, c) => TypeView::Dyn(own, replaced_fields(c, x, ps)),
        _ => t,
    }
}

/// `replaced` on each type.
pub open spec fn replaced_all(s: Seq<TypeView>, x: Seq<Seq<char>>, ps: Seq<TypeView>) -> Seq<TypeView>
    decreases s,
{
    if s.len() == 0 {
        Seq::empty()
    } else {
        replaced_all(s.drop_last(), x, ps).push(replaced(s.last(), x, ps))
    }
}

/// `replaced` on each field's type.
pub open spec fn replaced_fields(s: Seq<(Seq<char>, TypeView)>, x: Seq<Seq<char>>, ps: Seq<TypeView>) -> Seq<(Seq<char>, TypeView)>
    decreases s,
{
    if s.len() == 0 {
        Seq::empty()
    } else {
        replaced_fields(s.drop_last(), x, ps).push((s.last().0, replaced(s.last().1, x, ps)))
    }
}

/// Every type variable of `t` that `x` names is named at a position below `n`
/// (so the replacement exists).
pub open spec fn replace_ok(t: TypeView, x: Seq<Seq<char>>, n: nat) -> bool
    decreases t,
{
    match t {
        TypeView::Generic(v) => match first_index(x, v) {
            Some(k) => k < n,
            None => true,
        },
        TypeView::Custom(_, tps) => replace_all_ok(tps, x, n),
        TypeView::List(i) => replace_ok(*i, x, n),
        TypeView::Function(p, r) => replace_all_ok(p, x, n) && replace_ok(*r, x, n),
        TypeView::Option(i) => replace_ok(*i, x, n),
        TypeView::Tuple(es) => replace_all_ok(es, x, n),
        TypeView::Dyn(_, c) => replace_fields_ok(c, x, n),
        _ => true,
    }
}

/// `replace_ok` for each type.
pub open spec fn replace_all_ok(s: Seq<TypeView>, x: Seq<Seq<char>>, n: nat) -> bool
    decreases s,
{
    s.len() > 0 ==> replace_all_ok(s.drop_last(), x, n) && replace_ok(s.last(), x, n)
}

/// `replace_ok` for each field's type.
pub open spec fn replace_fields_ok(s: Seq<(Seq<char>, TypeView)>, x: Seq<Seq<char>>, n: nat) -> bool
    decreases s,
{
    s.len() > 0 ==> replace_fields_ok(s.drop_last(), x, n) && replace_ok(s.last().1, x, n)
}

/// The field views of a prefix are a prefix of the field views.
pub proof fn lemma_fviews_prefix(s: Seq<(String, TType)>, k: int)
    requires
        0 <= k < s.len(),
    ensures
        fviews(s.subrange(0, k + 1)) == fviews(s.subrange(0, k)).push((s[k].0@, tview(s[k].1))),
{
    assert(s.subrange(0, k + 1).drop_last() =~= s.subrange(0, k));
}

/// As many field views as fields.
pub proof fn lemma_fviews_len(s: Seq<(String, TType)>)
    ensures
        fviews(s).len() == s.len(),
    decreases s.len(),
{
    if s.len() > 0 {
        lemma_fviews_len(s.drop_last());
    }
}

/// Each element of the views is the view of the element.
pub proof fn lemma_tviews_index(s: Seq<TType>, k: int)
    requires
        0 <= k < s.len(),
    ensures
        tviews(s)[k] == tview(s[k]),
    decreases s.len(),
{
    lemma_tviews_len(s.drop_last());
    if k < s.len() - 1 {
        lemma_tviews_index(s.drop_last(), k);
    }
}

/// The position of `name` in `x`, first occurrence.
fn find_name(x: &[String], name: &String) -> (res: Option<usize>)
    ensures
        match res {
            Some(k) => first_index(names(x@), name@) == Some(k as int),
            None => first_index(names(x@), name@) is None,
        },
{
    let mut k: usize = 0;
    while k < x.len()
        invariant
            k <= x@.len(),
            forall|j: int| 0 <= j < k ==> x@[j]@ != name@,
        decreases x@.len() - k,
    {
        if str_equal(x[k].as_str(), name.as_str()) {
            proof {
                lemma_first_index(names(x@), name@, k as int);
            }
            return Some(k);
        }
        k += 1;
    }
    proof {
        lemma_first_index_none(names(x@), name@);
    }
    None
}

/// The first position of a name not found before `k`.
pub proof fn lemma_first_index(x: Seq<Seq<char>>, n: Seq<char>, k: int)
    requires
        0 <= k < x.len(),
        x[k] == n,
        forall|j: int| 0 <= j < k ==> x[j] != n,
    ensures
        first_index(x, n) == Some(k),
    decreases x.len(),
{
    if k < x.len() - 1 {
        lemma_first_index(x.drop_last(), n, k);
    } else {
        lemma_first_index_none(x.drop_last(), n);
    }
}

/// A name found nowhere has no position.
pub proof fn lemma_first_index_none(x: Seq<Seq<char>>, n: Seq<char>)
    requires
        forall|j: int| 0 <= j < x.len() ==> x[j] != n,
    ensures
        first_index(x, n) is None,
    decreases x.len(),
{
    if x.len() > 0 {
        lemma_first_index_none(x.drop_last(), n);
    }
}

/// A deep copy of a type.
pub fn copy_type(t: &TType) -> (res: TType)
    ensures
        tview(res) == tview(*t),
    decreases t,
{
    match t {
        TType::Nil => TType::Nil,
        TType::Any => TType::Any,
        TType::Int => TType::Int,
        TType::Float => TType::Float,
        TType::Bool => TType::Bool,
        TType::String => TType::String,
        TType::Char => TType::Char,
        TType::Void => TType::Void,
        TType::Auto => TType::Auto,
        TType::Generic { name } => TType::Generic { name: name.clone() },
        TType::Custom { name, type_params } => TType::Custom { name: name.clone(), type_params: copy_types(type_params.as_slice()) },
        TType::List { inner } => TType::List { inner: Box::new(copy_type(inner)) },
        TType::Function { parameters, return_type } => TType::Function {
            parameters: copy_types(parameters.as_slice()),
            return_type: Box::new(copy_type(return_type)),
        },
        TType::Option { inner } => TType::Option { inner: Box::new(copy_type(inner)) },
        TType::Tuple { elements } => TType::Tuple { elements: copy_types(elements.as_slice()) },
        TType::Dyn { own, contract } => TType::Dyn { own: own.clone(), contract: copy_fields(contract.as_slice()) },
    }
}

/// Deep copies of types.
pub fn copy_types(s: &[TType]) -> (res: Vec<TType>)
    ensures
        tviews(res@) == tviews(s@),
    decreases s@,
{
    let mut out: Vec<TType> = Vec::new();
    let mut k: usize = 0;
    assert(s@.subrange(0, 0) =~= Seq::<TType>::empty());
    while k < s.len()
        invariant
            k <= s@.len(),
            tviews(out@) == tviews(s@.subrange(0, k as int)),
        decreases s@.len() - k,
    {
        let c = copy_type(&s[k]);
        let ghost before = out@;
        out.push(c);
        proof {
            lemma_tviews_prefix(s@, k as int);
            assert(out@.drop_last() =~= before);
        }
        k += 1;
    }
    assert(s@.subrange(0, s@.len() as int) =~= s@);
    out
}

/// Deep copies of named fields.
pub fn copy_fields(s: &[(String, TType)]) -> (res: Vec<(String, TType)>)
    ensures
        fviews(res@) == fviews(s@),
    decreases s@,
{
    let mut out: Vec<(String, TType)> = Vec::new();
    let mut k: usize = 0;
    assert(s@.subrange(0, 0) =~= Seq::<(String, TType)>::empty());
    while k < s.len()
        invariant
            k <= s@.len(),
            fviews(out@) == fviews(s@.subrange(0, k as int)),
        decreases s@.len() - k,
    {
        let c = (s[k].0.clone(), copy_type(&s[k].1));
        let ghost before = out@;
        out.push(c);
        proof {
            lemma_fviews_prefix(s@, k as int);
            assert(out@.drop_last() =~= before);
        }
        k += 1;
    }
    assert(s@.subrange(0, s@.len() as int) =~= s@);
    out
}

impl TypeChecker {
    /// `ttype` with each type variable named in `x` replaced by the type at the
    /// same position of `type_params`; a `Dyn` type's own variable stays.
    pub fn replace_generic_types(ttype: &TType, x: &[String], type_params: &[TType]) -> (res: TType)
        requires
            replace_ok(tview(*ttype), names(x@), type_params@.len()),
        ensures
            tview(res) == replaced(tview(*ttype), names(x@), tviews(type_params@)),
        decreases ttype,
    {
        match ttype {
            TType::Generic { name } => match find_name(x, name) {
                Some(k) => {
                    assert(tview(*ttype) == TypeView::Generic(name@));
                    proof {
                        lemma_tviews_index(type_params@, k as int);
                    }
                    copy_type(&type_params[k])
                },
                None => copy_type(ttype),
            },
            TType::Custom { name, type_params: inner } => TType::Custom {
                name: name.clone(),
                type_params: replace_all(inner.as_slice(), x, type_params),
            },
            TType::List { inner } => TType::List { inner: Box::new(TypeChecker::replace_generic_types(inner, x, type_params)) },
            TType::Function { parameters, return_type } => TType::Function {
                parameters: replace_all(parameters.as_slice(), x, type_params),
                return_type: Box::new(TypeChecker::replace_generic_types(return_type, x, type_params)),
            },
            TType::Option { inner } => TType::Option { inner: Box::new(TypeChecker::replace_generic_types(inner, x, type_params)) },
            TType::Tuple { elements } => TType::Tuple { elements: replace_all(elements.as_slice(), x, type_params) },
            TType::Dyn { own, contract } => TType::Dyn { own: own.clone(), contract: replace_fields(contract.as_slice(), x, type_params) },
            _ => copy_type(ttype),
        }
    }
}

/// `replace_generic_types` on each type.
pub fn replace_all(s: &[TType], x: &[String], type_params: &[TType]) -> (res: Vec<TType>)
    requires
        replace_all_ok(tviews(s@), names(x@), type_params@.len()),
    ensures
        tviews(res@) == replaced_all(tviews(s@), names(x@), tviews(type_params@)),
    decreases s@,
{
    let mut out: Vec<TType> = Vec::new();
    let mut k: usize = 0;
    assert(s@.subrange(0, 0) =~= Seq::<TType>::empty());
    while k < s.len()
        invariant
            k <= s@.len(),
            replace_all_ok(tviews(s@), names(x@), type_params@.len()),
            tviews(out@) == replaced_all(tviews(s@.subrange(0, k as int)), names(x@), tviews(type_params@)),
        decreases s@.len() - k,
    {
        proof {
            lemma_tviews_prefix(s@, k as int);
            lemma_all_ok_index(tviews(s@), names(x@), type_params@.len(), k as int);
            lemma_tviews_index(s@, k as int);
            assert(tviews(s@.subrange(0, k + 1)).drop_last() =~= tviews(s@.subrange(0, k as int)));
        }
        let c = TypeChecker::replace_generic_types(&s[k], x, type_params);
        let ghost before = out@;
        out.push(c);
        proof {
            assert(out@.drop_last() =~= before);
        }
        k += 1;
    }
    assert(s@.subrange(0, s@.len() as int) =~= s@);
    out
}

/// `replace_generic_types` on each field's type.
pub fn replace_fields(s: &[(String, TType)], x: &[String], type_params: &[TType]) -> (res: Vec<(String, TType)>)
    requires
        replace_fields_ok(fviews(s@), names(x@), type_params@.len()),
    ensures
        fviews(res@) == replaced_fields(fviews(s@), names(x@), tviews(type_params@)),
    decreases s@,
{
    let mut out: Vec<(String, TType)> = Vec::new();
    let mut k: usize = 0;
    assert(s@.subrange(0, 0) =~= Seq::<(String, TType)>::empty());
    while k < s.len()
        invariant
            k <= s@.len(),
            replace_fields_ok(fviews(s@), names(x@), type_params@.len()),
            fviews(out@) == replaced_fields(fviews(s@.subrange(0, k as int)), names(x@), tviews(type_params@)),
        decreases s@.len() - k,
    {
        proof {
            lemma_fviews_prefix(s@, k as int);
            lemma_fields_ok_index(s@, names(x@), type_params@.len(), k as int);
            assert(fviews(s@.subrange(0, k + 1)).drop_last() =~= fviews(s@.subrange(0, k as int)));
        }
        let c = (s[k].0.clone(), TypeChecker::replace_generic_types(&s[k].1, x, type_params));
        let ghost before = out@;
        out.push(c);
        proof {
            assert(out@.drop_last() =~= before);
        }
        k += 1;
    }
    assert(s@.subrange(0, s@.len() as int) =~= s@);
    out
}

/// Each type of a sequence that passes `replace_all_ok` passes `replace_ok`.
pub proof fn lemma_all_ok_index(s: Seq<TypeView>, x: Seq<Seq<char>>, n: nat, k: int)
    requires
        replace_all_ok(s, x, n),
        0 <= k < s.len(),
    ensures
        replace_ok(s[k], x, n),
    decreases s.len(),
{
    if k < s.len() - 1 {
        lemma_all_ok_index(s.drop_last(), x, n, k);
    }
}

/// Whether every type variable of `t` that `x` names is named at a
/// position below `n` (`replace_ok`).
pub fn replace_ok_type(t: &TType, x: &[String], n: usize) -> (res: bool)
    ensures
        res == replace_ok(tview(*t), names(x@), n as nat),
    decreases t,
{
    match t {
        TType::Generic { name } => match find_name(x, name) {
            Some(k) => k < n,
            None => true,
        },
        TType::Custom { type_params, .. } => replace_ok_all(type_params.as_slice(), x, n),
        TType::List { inner } => replace_ok_type(inner, x, n),
        TType::Function { parameters, return_type } => {
            let a = replace_ok_all(parameters.as_slice(), x, n);
            let b = replace_ok_type(return_type, x, n);
            a && b
        },
        TType::Option { inner } => replace_ok_type(inner, x, n),
        TType::Tuple { elements } => replace_ok_all(elements.as_slice(), x, n),
        TType::Dyn { contract, .. } => replace_ok_fields(contract.as_slice(), x, n),
        _ => true,
    }
}

/// `replace_ok_type` for each type (`replace_all_ok`).
pub fn replace_ok_all(s: &[TType], x: &[String], n: usize) -> (res: bool)
    ensures
        res == replace_all_ok(tviews(s@), names(x@), n as nat),
    decreases s@,
{
    let mut ok = true;
    let mut k: usize = 0;
    assert(s@.subrange(0, 0) =~= Seq::<TType>::empty());
    while k < s.len()
        invariant
            k <= s@.len(),
            ok == replace_all_ok(tviews(s@.subrange(0, k as int)), names(x@), n as nat),
        decreases s@.len() - k,
    {
        proof {
            lemma_tviews_prefix(s@, k as int);
            let p = tviews(s@.subrange(0, k + 1));
            assert(p.drop_last() =~= tviews(s@.subrange(0, k as int)));
            assert(p.last() == tview(s@[k as int]));
        }
        let b = replace_ok_type(&s[k], x, n);
        ok = ok && b;
        k += 1;
    }
    assert(s@.subrange(0, s@.len() as int) =~= s@);
    ok
}

/// `replace_ok_type` for each field's type (`replace_fields_ok`).
pub fn replace_ok_fields(s: &[(String, TType)], x: &[String], n: usize) -> (res: bool)
    ensures
        res == replace_fields_ok(fviews(s@), names(x@), n as nat),
    decreases s@,
{
    let mut ok = true;
    let mut k: usize = 0;
    assert(s@.subrange(0, 0) =~= Seq::<(String, TType)>::empty());
    while k < s.len()
        invariant
            k <= s@.len(),
            ok == replace_fields_ok(fviews(s@.subrange(0, k as int)), names(x@), n as nat),
        decreases s@.len() - k,
    {
        proof {
            lemma_fviews_prefix(s@, k as int);
            let p = fviews(s@.subrange(0, k + 1));
            assert(p.drop_last() =~= fviews(s@.subrange(0, k as int)));
            assert(p.last() == (s@[k as int].0@, tview(s@[k as int].1)));
        }
        let b = replace_ok_type(&s[k].1, x, n);
        ok = ok && b;
        k += 1;
    }
    assert(s@.subrange(0, s@.len() as int) =~= s@);
    ok
}

/// Each field type of fields that pass `replace_fields_ok` passes `replace_ok`.
pub proof fn lemma_fields_ok_index(s: Seq<(String, TType)>, x: Seq<Seq<char>>, n: nat, k: int)
    requires
        replace_fields_ok(fviews(s), x, n),
        0 <= k < s.len(),
    ensures
        replace_ok(tview(s[k].1), x, n),
    decreases s.len(),
{
    lemma_fviews_len(s.drop_last());
    assert(fviews(s).drop_last() =~= fviews(s.drop_last()));
    if k < s.len() - 1 {
        lemma_fields_ok_index(s.drop_last(), x, n, k);
    }
}

/// `t` mentions type variable `n` outside any `Dyn` type.
pub open spec fn mentions(t: TypeView, n: Seq<char>) -> bool
    decreases t,
{
    match t {
        TypeView::Generic(v) => v == n,
        TypeView::Function(ps, r) => mentions_any(ps, n) || mentions(*r, n),
        TypeView::List(i) => mentions(*i, n),
        TypeView::Option(i) => mentions(*i, n),
        TypeView::Custom(_, ps) => mentions_any(ps, n),
        TypeView::Tuple(es) => mentions_any(es, n),
        _ => false,
    }
}

/// Some type of `s` mentions `n` (`mentions`).
pub open spec fn mentions_any(s: Seq<TypeView>, n: Seq<char>) -> bool
    decreases s,
{
    s.len() > 0 && (mentions_any(s.drop_last(), n) || mentions(s.last(), n))
}

/// Adds `name` unless it is there already.
fn add_name(acc: &mut Vec<String>, name: &String)
    requires
        names(old(acc)@).no_duplicates(),
    ensures
        names(final(acc)@).no_duplicates(),
        forall|n: Seq<char>| #[trigger] names(final(acc)@).contains(n) <==> names(old(acc)@).contains(n) || n == name@,
{
    let mut k: usize = 0;
    while k < acc.len()
        invariant
            k <= acc@.len(),
            acc@ == old(acc)@,
            names(old(acc)@).no_duplicates(),
            forall|j: int| 0 <= j < k ==> acc@[j]@ != name@,
        decreases acc@.len() - k,
    {
        if str_equal(acc[k].as_str(), name.as_str()) {
            assert(names(acc@)[k as int] == name@);
            return;
        }
        k += 1;
    }
    let ghost before = acc@;
    acc.push(name.clone());
    proof {
        let nb = names(before);
        let na = names(acc@);
        assert(na =~= nb.push(name@));
        assert forall|i: int, j: int| 0 <= i < na.len() && 0 <= j < na.len() && i != j implies na[i] != na[j] by {
            if i < nb.len() && j < nb.len() {
                assert(na[i] == nb[i] && na[j] == nb[j]);
            } else if i == nb.len() {
                assert(na[j] == before[j]@);
            } else {
                assert(na[i] == before[i]@);
            }
        }
        assert forall|n: Seq<char>| #[trigger] na.contains(n) <==> nb.contains(n) || n == name@ by {
            if na.contains(n) {
                let i = choose|i: int| 0 <= i < na.len() && na[i] == n;
                if i < nb.len() {
                    assert(nb[i] == n);
                }
            }
            if nb.contains(n) {
                let i = choose|i: int| 0 <= i < nb.len() && nb[i] == n;
                assert(na[i] == n);
            }
            if n == name@ {
                assert(na[nb.len() as int] == n);
            }
        }
    }
}

/// Adds the type variables `t` mentions.
fn collect_into(t: &TType, acc: &mut Vec<String>)
    requires
        names(old(acc)@).no_duplicates(),
    ensures
        names(final(acc)@).no_duplicates(),
        forall|n: Seq<char>| #[trigger] names(final(acc)@).contains(n) <==> names(old(acc)@).contains(n) || mentions(tview(*t), n),
    decreases t,
{
    match t {
        TType::Generic { name } => add_name(acc, name),
        TType::Function { parameters, return_type } => {
            collect_all_into(parameters.as_slice(), acc);
            collect_into(return_type, acc);
        },
        TType::List { inner } => collect_into(inner, acc),
        TType::Option { inner } => collect_into(inner, acc),
        TType::Custom { type_params, .. } => collect_all_into(type_params.as_slice(), acc),
        TType::Tuple { elements } => collect_all_into(elements.as_slice(), acc),
        _ => {},
    }
}

/// Adds the type variables the types mention.
fn collect_all_into(s: &[TType], acc: &mut Vec<String>)
    requires
        names(old(acc)@).no_duplicates(),
    ensures
        names(final(acc)@).no_duplicates(),
        forall|n: Seq<char>| #[trigger] names(final(acc)@).contains(n) <==> names(old(acc)@).contains(n) || mentions_any(tviews(s@), n),
    decreases s@,
{
    let mut k: usize = 0;
    assert(s@.subrange(0, 0) =~= Seq::<TType>::empty());
    while k < s.len()
        invariant
            k <= s@.len(),
            names(acc@).no_duplicates(),
            forall|n: Seq<char>| #[trigger] names(acc@).contains(n) <==> names(old(acc)@).contains(n)
                || mentions_any(tviews(s@.subrange(0, k as int)), n),
        decreases s@.len() - k,
    {
        proof {
            lemma_tviews_prefix(s@, k as int);
            assert(tviews(s@.subrange(0, k + 1)).drop_last() =~= tviews(s@.subrange(0, k as int)));
        }
        collect_into(&s[k], acc);
        k += 1;
    }
    assert(s@.subrange(0, s@.len() as int) =~= s@);
}

impl TypeChecker {
    /// The type variables the types mention outside `Dyn` types, each once.
    pub fn collect_generics(input: &[TType]) -> (res: Vec<String>)
        ensures
            names(res@).no_duplicates(),
            forall|n: Seq<char>| #[trigger] names(res@).contains(n) <==> mentions_any(tviews(input@), n),
    {
        let mut acc: Vec<String> = Vec::new();
        assert(names(acc@) =~= Seq::<Seq<char>>::empty());
        collect_all_into(input, &mut acc);
        acc
    }
}

/// The type a map binds to variable `n` (the first binding).
pub open spec fn bound_to(map: Seq<(Seq<char>, TypeView)>, n: Seq<char>) -> Option<TypeView>
    decreases map.len(),
{
    if map.len() == 0 {
        None
    } else {
        match bound_to(map.drop_last(), n) {
            Some(t) => Some(t),
            None => if map.last().0 == n { Some(map.last().1) } else { None },
        }
    }
}

/// A function's output type with its type variables resolved: each bound
/// variable becomes its binding, a variable of the enclosing generic
/// function (`live`) stays, and any other variable is an error naming it
/// (the first in order). `Dyn` types are left as they are.
pub open spec fn output_of(t: TypeView, map: Seq<(Seq<char>, TypeView)>, live: Seq<Seq<char>>) -> Result<TypeView, Seq<char>>
    decreases t,
{
    match t {
        TypeView::Tuple(es) => match outputs_of(es, map, live) {
            Ok(vs) => Ok(TypeView::Tuple(vs)),
            Err(n) => Err(n),
        },
        TypeView::Generic(n) => match bound_to(map, n) {
            Some(b) => Ok(b),
            None => if live.contains(n) { Ok(t) } else { Err(n) },
        },
        TypeView::List(i) => match output_of(*i, map, live) {
            Ok(v) => Ok(TypeView::List(Box::new(v))),
            Err(n) => Err(n),
        },
        TypeView::Option(i) => match output_of(*i, map, live) {
            Ok(v) => Ok(TypeView::Option(Box::new(v))),
            Err(n) => Err(n),
        },
        TypeView::Function(ps, r) => match outputs_of(ps, map, live) {
            Ok(vs) => match output_of(*r, map, live) {
                Ok(v) => Ok(TypeView::Function(vs, Box::new(v))),
                Err(n) => Err(n),
            },
            Err(n) => Err(n),
        },
        TypeView::Custom(name, ps) => match outputs_of(ps, map, live) {
            Ok(vs) => Ok(TypeView::Custom(name, vs)),
            Err(n) => Err(n),
        },
        _ => Ok(t),
    }
}

/// `output_of` on each type, stopping at the first error.
pub open spec fn outputs_of(s: Seq<TypeView>, map: Seq<(Seq<char>, TypeView)>, live: Seq<Seq<char>>) -> Result<Seq<TypeView>, Seq<char>>
    decreases s,
{
    if s.len() == 0 {
        Ok(Seq::empty())
    } else {
        match outputs_of(s.drop_last(), map, live) {
            Ok(vs) => match output_of(s.last(), map, live) {
                Ok(v) => Ok(vs.push(v)),
                Err(n) => Err(n),
            },
            Err(n) => Err(n),
        }
    }
}

/// The binding of `name` in the map.
pub fn lookup_binding(map: &[(String, TType)], name: &String) -> (res: Option<TType>)
    ensures
        match bound_to(fviews(map@), name@) {
            Some(b) => res matches Some(t) && tview(t) == b,
            None => res is None,
        },
{
    let mut k: usize = 0;
    assert(map@.subrange(0, 0) =~= Seq::<(String, TType)>::empty());
    while k < map.len()
        invariant
            k <= map@.len(),
            bound_to(fviews(map@.subrange(0, k as int)), name@) is None,
        decreases map@.len() - k,
    {
        proof {
            lemma_fviews_prefix(map@, k as int);
            assert(fviews(map@.subrange(0, k + 1)).drop_last() =~= fviews(map@.subrange(0, k as int)));
        }
        if str_equal(map[k].0.as_str(), name.as_str()) {
            proof {
                lemma_bound_prefix(map@, name@, (k + 1) as int);
            }
            return Some(copy_type(&map[k].1));
        }
        k += 1;
    }
    assert(map@.subrange(0, map@.len() as int) =~= map@);
    None
}

/// A binding found in a prefix is the binding of the whole map.
pub proof fn lemma_bound_prefix(map: Seq<(String, TType)>, n: Seq<char>, m: int)
    requires
        0 <= m <= map.len(),
        bound_to(fviews(map.subrange(0, m)), n) is Some,
    ensures
        bound_to(fviews(map), n) == bound_to(fviews(map.subrange(0, m)), n),
    decreases map.len() - m,
{
    if m < map.len() {
        lemma_fviews_prefix(map, m);
        assert(fviews(map.subrange(0, m + 1)).drop_last() =~= fviews(map.subrange(0, m)));
        lemma_bound_prefix(map, n, m + 1);
    } else {
        assert(map.subrange(0, m) =~= map);
    }
}

/// Whether `live` holds `name`.
fn holds_name(live: &[String], name: &String) -> (res: bool)
    ensures
        res == names(live@).contains(name@),
{
    let mut k: usize = 0;
    while k < live.len()
        invariant
            k <= live@.len(),
            forall|j: int| 0 <= j < k ==> live@[j]@ != name@,
        decreases live@.len() - k,
    {
        if str_equal(live[k].as_str(), name.as_str()) {
            assert(names(live@)[k as int] == name@);
            return true;
        }
        k += 1;
    }
    proof {
        if names(live@).contains(name@) {
            let j = choose|j: int| 0 <= j < names(live@).len() && names(live@)[j] == name@;
            assert(live@[j]@ == name@);
        }
    }
    false
}

/// The output type `output` with its type variables resolved against
/// `type_map` and the enclosing function's variables `live`; the error
/// names a variable that could not be inferred.
pub fn output_in(output: &TType, type_map: &[(String, TType)], live: &[String]) -> (res: Result<TType, String>)
    ensures
        match output_of(tview(*output), fviews(type_map@), names(live@)) {
            Ok(v) => res matches Ok(t) && tview(t) == v,
            Err(n) => res matches Err(m) && m@ == n,
        },
    decreases output,
{
    match output {
        TType::Tuple { elements } => match get_outputs(elements.as_slice(), type_map, live) {
            Ok(vs) => Ok(TType::Tuple { elements: vs }),
            Err(n) => Err(n),
        },
        TType::Generic { name } => match lookup_binding(type_map, name) {
            Some(b) => Ok(b),
            None => {
                if holds_name(live, name) {
                    Ok(TType::Generic { name: name.clone() })
                } else {
                    Err(name.clone())
                }
            },
        },
        TType::List { inner } => match output_in(inner, type_map, live) {
            Ok(v) => Ok(TType::List { inner: Box::new(v) }),
            Err(n) => Err(n),
        },
        TType::Option { inner } => match output_in(inner, type_map, live) {
            Ok(v) => Ok(TType::Option { inner: Box::new(v) }),
            Err(n) => Err(n),
        },
        TType::Function { parameters, return_type } => match get_outputs(parameters.as_slice(), type_map, live) {
            Ok(vs) => match output_in(return_type, type_map, live) {
                Ok(v) => Ok(TType::Function { parameters: vs, return_type: Box::new(v) }),
                Err(n) => Err(n),
            },
            Err(n) => Err(n),
        },
        TType::Custom { name, type_params } => match get_outputs(type_params.as_slice(), type_map, live) {
            Ok(vs) => Ok(TType::Custom { name: name.clone(), type_params: vs }),
            Err(n) => Err(n),
        },
        _ => Ok(copy_type(output)),
    }
}

/// `get_output` on each type, stopping at the first error.
fn get_outputs(s: &[TType], type_map: &[(String, TType)], live: &[String]) -> (res: Result<Vec<TType>, String>)
    ensures
        match outputs_of(tviews(s@), fviews(type_map@), names(live@)) {
            Ok(vs) => res matches Ok(v) && tviews(v@) == vs,
            Err(n) => res matches Err(m) && m@ == n,
        },
    decreases s@,
{
    let mut out: Vec<TType> = Vec::new();
    let mut k: usize = 0;
    assert(s@.subrange(0, 0) =~= Seq::<TType>::empty());
    while k < s.len()
        invariant
            k <= s@.len(),
            outputs_of(tviews(s@.subrange(0, k as int)), fviews(type_map@), names(live@)) == Ok::<Seq<TypeView>, Seq<char>>(tviews(out@)),
        decreases s@.len() - k,
    {
        proof {
            lemma_tviews_prefix(s@, k as int);
            assert(tviews(s@.subrange(0, k + 1)).drop_last() =~= tviews(s@.subrange(0, k as int)));
        }
        match output_in(&s[k], type_map, live) {
            Ok(v) => {
                let ghost before = out@;
                out.push(v);
                proof {
                    assert(out@.drop_last() =~= before);
                }
            },
            Err(n) => {
                proof {
                    lemma_outputs_err(s@, fviews(type_map@), names(live@), (k + 1) as int);
                }
                return Err(n);
            },
        }
        k += 1;
    }
    assert(s@.subrange(0, s@.len() as int) =~= s@);
    Ok(out)
}

/// An error in a prefix is the error of the whole sequence.
pub proof fn lemma_outputs_err(s: Seq<TType>, map: Seq<(Seq<char>, TypeView)>, live: Seq<Seq<char>>, m: int)
    requires
        0 <= m <= s.len(),
        outputs_of(tviews(s.subrange(0, m)), map, live) is Err,
    ensures
        outputs_of(tviews(s), map, live) == outputs_of(tviews(s.subrange(0, m)), map, live),
    decreases s.len() - m,
{
    if m < s.len() {
        lemma_tviews_prefix(s, m);
        assert(tviews(s.subrange(0, m + 1)).drop_last() =~= tviews(s.subrange(0, m)));
        lemma_outputs_err(s, map, live, m + 1);
    } else {
        assert(s.subrange(0, m) =~= s);
    }
}

} // verus!

verus! {

/// Each element of the field views is the view of the field.
pub proof fn lemma_fviews_index(s: Seq<(String, TType)>, k: int)
    requires
        0 <= k < s.len(),
    ensures
        fviews(s)[k] == (s[k].0@, tview(s[k].1)),
        fviews(s).len() == s.len(),
    decreases s.len(),
{
    lemma_fviews_len(s);
    lemma_fviews_len(s.drop_last());
    if k < s.len() - 1 {
        lemma_fviews_index(s.drop_last(), k);
    }
}

/// A found position lies inside the sequence.
pub proof fn lemma_first_index_bound(x: Seq<Seq<char>>, n: Seq<char>)
    ensures
        first_index(x, n) matches Some(k) ==> 0 <= k < x.len(),
    decreases x.len(),
{
    if x.len() > 0 {
        lemma_first_index_bound(x.drop_last(), n);
    }
}

/// Replacement by at least as many types as names never runs out.
pub proof fn lemma_replace_ok_small(t: TypeView, x: Seq<Seq<char>>, n: nat)
    requires
        x.len() <= n,
    ensures
        replace_ok(t, x, n),
    decreases t, 1nat,
{
    match t {
        TypeView::Generic(v) => lemma_first_index_bound(x, v),
        TypeView::Custom(_, tps) => lemma_replace_all_ok_small(tps, x, n),
        TypeView::List(i) => lemma_replace_ok_small(*i, x, n),
        TypeView::Function(p, r) => {
            lemma_replace_all_ok_small(p, x, n);
            lemma_replace_ok_small(*r, x, n);
        },
        TypeView::Option(i) => lemma_replace_ok_small(*i, x, n),
        TypeView::Tuple(es) => lemma_replace_all_ok_small(es, x, n),
        TypeView::Dyn(_, c) => lemma_replace_fields_ok_small(c, x, n),
        _ => {},
    }
}

/// `lemma_replace_ok_small` for each type.
pub proof fn lemma_replace_all_ok_small(s: Seq<TypeView>, x: Seq<Seq<char>>, n: nat)
    requires
        x.len() <= n,
    ensures
        replace_all_ok(s, x, n),
    decreases s, 0nat,
{
    if s.len() > 0 {
        lemma_replace_all_ok_small(s.drop_last(), x, n);
        lemma_replace_ok_small(s.last(), x, n);
    }
}

/// `lemma_replace_ok_small` for each field type.
pub proof fn lemma_replace_fields_ok_small(s: Seq<(Seq<char>, TypeView)>, x: Seq<Seq<char>>, n: nat)
    requires
        x.len() <= n,
    ensures
        replace_fields_ok(s, x, n),
    decreases s, 0nat,
{
    if s.len() > 0 {
        lemma_replace_fields_ok_small(s.drop_last(), x, n);
        lemma_replace_ok_small(s.last().1, x, n);
    }
}

/// Whether two types are the same.
pub fn type_eq(a: &TType, b: &TType) -> (res: bool)
    ensures
        res == (tview(*a) == tview(*b)),
    decreases a,
{
    match (a, b) {
        (TType::Nil, TType::Nil) => true,
        (TType::Any, TType::Any) => true,
        (TType::Int, TType::Int) => true,
        (TType::Float, TType::Float) => true,
        (TType::Bool, TType::Bool) => true,
        (TType::String, TType::String) => true,
        (TType::Char, TType::Char) => true,
        (TType::Void, TType::Void) => true,
        (TType::Auto, TType::Auto) => true,
        (TType::Generic { name: x }, TType::Generic { name: y }) => str_equal(x.as_str(), y.as_str()),
        (TType::Custom { name: x, type_params: p }, TType::Custom { name: y, type_params: q }) => {
            str_equal(x.as_str(), y.as_str()) && types_eq(p.as_slice(), q.as_slice())
        },
        (TType::List { inner: x }, TType::List { inner: y }) => type_eq(x, y),
        (TType::Option { inner: x }, TType::Option { inner: y }) => type_eq(x, y),
        (TType::Function { parameters: p, return_type: r }, TType::Function { parameters: q, return_type: s }) => {
            types_eq(p.as_slice(), q.as_slice()) && type_eq(r, s)
        },
        (TType::Tuple { elements: p }, TType::Tuple { elements: q }) => types_eq(p.as_slice(), q.as_slice()),
        (TType::Dyn { own: x, contract: p }, TType::Dyn { own: y, contract: q }) => {
            str_equal(x.as_str(), y.as_str()) && fields_eq(p.as_slice(), q.as_slice())
        },
        _ => false,
    }
}

/// Whether two type lists are the same.
pub fn types_eq(a: &[TType], b: &[TType]) -> (res: bool)
    ensures
        res == (tviews(a@) == tviews(b@)),
    decreases a@,
{
    proof {
        lemma_tviews_len(a@);
        lemma_tviews_len(b@);
    }
    if a.len() != b.len() {
        return false;
    }
    let mut k: usize = 0;
    while k < a.len()
        invariant
            k <= a@.len(),
            a@.len() == b@.len(),
            tviews(a@).len() == a@.len(),
            tviews(b@).len() == b@.len(),
            forall|j: int| 0 <= j < k ==> tviews(a@)[j] == tviews(b@)[j],
        decreases a@.len() - k,
    {
        proof {
            lemma_tviews_index(a@, k as int);
            lemma_tviews_index(b@, k as int);
        }
        if !type_eq(&a[k], &b[k]) {
            return false;
        }
        k += 1;
    }
    assert(tviews(a@) =~= tviews(b@));
    true
}

/// Whether two field lists are the same.
pub fn fields_eq(a: &[(String, TType)], b: &[(String, TType)]) -> (res: bool)
    ensures
        res == (fviews(a@) == fviews(b@)),
    decreases a@,
{
    proof {
        lemma_fviews_len(a@);
        lemma_fviews_len(b@);
    }
    if a.len() != b.len() {
        return false;
    }
    let mut k: usize = 0;
    while k < a.len()
        invariant
            k <= a@.len(),
            a@.len() == b@.len(),
            fviews(a@).len() == a@.len(),
            fviews(b@).len() == b@.len(),
            forall|j: int| 0 <= j < k ==> fviews(a@)[j] == fviews(b@)[j],
        decreases a@.len() - k,
    {
        proof {
            lemma_fviews_index(a@, k as int);
            lemma_fviews_index(b@, k as int);
        }
        if !str_equal(a[k].0.as_str(), b[k].0.as_str()) || !type_eq(&a[k].1, &b[k].1) {
            return false;
        }
        k += 1;
    }
    assert(fviews(a@) =~= fviews(b@));
    true
}

} // verus!
