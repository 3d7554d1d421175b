use vstd::prelude::*;

use crate::text::str_equal;
use crate::ttype::{copy_type, fviews, tview, tviews, TType, TypeView};
use crate::typechecker::{
    field_named, find_field, find_fields, find_generics, first_fields, first_generics, Environment, TypeChecker,
};

verus! {

broadcast use vstd::seq::group_seq_axioms;

/// The punctuation the type grammar reads.
#[derive(Debug, Clone, Copy, PartialEq, Eq, Structural)]
pub enum StructuralSymbol {
    LeftParen,
    RightParen,
    LeftSquareBracket,
    RightSquareBracket,
    Comma,
    DollarSign,
    /// Any other punctuation.
    Other,
}

/// The operators the type grammar reads.
#[derive(Debug, Clone, Copy, PartialEq, Eq, Structural)]
pub enum Operator {
    /// `->`
    RightArrow,
    /// `=`
    Assignment,
    /// `:`
    Colon,
    /// `+`
    Addition,
    /// Any other operator.
    Other,
}

/// A token of a Nova source.
#[derive(Debug)]
pub enum Token {
    StructuralSymbol(StructuralSymbol),
    Identifier(String),
    Operator(Operator),
    /// A keyword, literal or any other token.
    Other,
}

/// Why a type annotation does not parse.
#[derive(Debug)]
pub enum ParseError {
    /// This punctuation was expected.
    ExpectedSymbol(StructuralSymbol),
    /// This operator was expected.
    ExpectedOperator(Operator),
    /// A name was expected.
    ExpectedIdentifier,
    /// A type was expected.
    ExpectedType,
    /// `()` is no type.
    EmptyTuple,
    /// `Tuple(..)` with fewer than two elements.
    ShortTuple,
    /// `Option(Option(..))`.
    NestedOption,
    /// A generic struct given the wrong number of type arguments.
    TypeArgCount { name: String, expected: usize, found: usize },
    /// A name that is no built-in type, struct or alias.
    UnknownType(String),
    /// The word `type` was expected.
    ExpectedTypeWord,
    /// An alias named like a struct type.
    AlreadyDefined(String),
    /// A parameter named twice.
    DuplicateParameter(String),
}

/// What parsing a type from position `i` gives: the type and the position
/// after it, or the error.
pub type Parsed = Result<(TypeView, int), ParseError>;

/// Types parsed from a list, and the position after it.
pub type ParsedList = Result<(Seq<TypeView>, int), ParseError>;

/// Token `i` is the punctuation `s`.
pub open spec fn sym_at(t: Seq<Token>, i: int, s: StructuralSymbol) -> bool {
    0 <= i < t.len() && t[i] == Token::StructuralSymbol(s)
}

/// Token `i` is the operator `o`.
pub open spec fn op_at(t: Seq<Token>, i: int, o: Operator) -> bool {
    0 <= i < t.len() && t[i] == Token::Operator(o)
}

/// The name token `i` holds, if it is a name.
pub open spec fn id_at(t: Seq<Token>, i: int) -> Option<String> {
    if 0 <= i < t.len() {
        match t[i] {
            Token::Identifier(s) => Some(s),
            _ => None,
        }
    } else {
        None
    }
}

/// `q` lies past `p` and within the tokens. A parse always ends past where
/// it starts (see `parse_type`), so the grammar's tests of `moved` always
/// pass; they only make it plain that each step goes forward.
pub open spec fn moved(p: int, q: int, t: Seq<Token>) -> bool {
    p < q <= t.len()
}

/// The built-in type a name stands for.
pub open spec fn builtin(n: Seq<char>) -> Option<TypeView> {
    if n == "Int"@ {
        Some(TypeView::Int)
    } else if n == "Float"@ {
        Some(TypeView::Float)
    } else if n == "Bool"@ {
        Some(TypeView::Bool)
    } else if n == "String"@ {
        Some(TypeView::String)
    } else if n == "Any"@ {
        Some(TypeView::Any)
    } else if n == "Char"@ {
        Some(TypeView::Char)
    } else if n == "None"@ {
        Some(TypeView::Nil)
    } else {
        None
    }
}

/// The type annotation at position `i`:
/// - `(T1, T2, ..)` a tuple (`(T)` is `T`, `(T,)` a one-element tuple, `()`
///   an error);
/// - `fn(T1, ..) -> R` a function (`fn()` takes `None`; no arrow returns `Void`);
/// - `$T` a type variable; `Option(T)` (not of an option); `[T]` or
///   `List(T)` a list (`[]` of `None`); `Tuple(T1, T2, ..)` (at least two);
/// - `Dyn(T = f: F + g: G ..)` a contract;
/// - a built-in name, a struct name with its type arguments in parentheses
///   (as many as a generic struct has variables), or an alias.
pub open spec fn type_at(t: Seq<Token>, i: int, env: Environment) -> Parsed
    decreases t.len() - i, 0nat,
{
    if i < 0 || i >= t.len() {
        Err(ParseError::ExpectedType)
    } else if sym_at(t, i, StructuralSymbol::LeftParen) {
        if sym_at(t, i + 1, StructuralSymbol::RightParen) {
            Err(ParseError::EmptyTuple)
        } else {
            match type_at(t, i + 1, env) {
                Err(e) => Err(e),
                Ok((first, q)) => if !moved(i, q, t) {
                    Err(ParseError::ExpectedType)
                } else {
                    match paren_rest(t, q, seq![first], env) {
                        Err(e) => Err(e),
                        Ok((ts, r, trailing)) => if trailing || ts.len() != 1 {
                            Ok((TypeView::Tuple(ts), r))
                        } else {
                            Ok((ts[0], r))
                        },
                    }
                },
            }
        }
    } else if id_at(t, i) matches Some(n) && n@ == "fn"@ {
        if !sym_at(t, i + 1, StructuralSymbol::LeftParen) {
            Err(ParseError::ExpectedSymbol(StructuralSymbol::LeftParen))
        } else if sym_at(t, i + 2, StructuralSymbol::RightParen) {
            returns_at(t, i + 3, seq![TypeView::Nil], env)
        } else {
            match type_at(t, i + 2, env) {
                Err(e) => Err(e),
                Ok((first, q)) => if !moved(i, q, t) {
                    Err(ParseError::ExpectedType)
                } else {
                    match list_rest(t, q, seq![first], env) {
                        Err(e) => Err(e),
                        Ok((ps, r)) => if !moved(i, r, t) {
                            Err(ParseError::ExpectedType)
                        } else {
                            returns_at(t, r, ps, env)
                        },
                    }
                },
            }
        }
    } else if sym_at(t, i, StructuralSymbol::DollarSign) {
        match id_at(t, i + 1) {
            Some(n) => Ok((TypeView::Generic(n@), i + 2)),
            None => Err(ParseError::ExpectedIdentifier),
        }
    } else if id_at(t, i) matches Some(n) && n@ == "Option"@ {
        if !sym_at(t, i + 1, StructuralSymbol::LeftParen) {
            Err(ParseError::ExpectedSymbol(StructuralSymbol::LeftParen))
        } else {
            match type_at(t, i + 2, env) {
                Err(e) => Err(e),
                Ok((inner, q)) => if !sym_at(t, q, StructuralSymbol::RightParen) {
                    Err(ParseError::ExpectedSymbol(StructuralSymbol::RightParen))
                } else if inner is Option {
                    Err(ParseError::NestedOption)
                } else {
                    Ok((TypeView::Option(Box::new(inner)), q + 1))
                },
            }
        }
    } else if sym_at(t, i, StructuralSymbol::LeftSquareBracket) {
        if sym_at(t, i + 1, StructuralSymbol::RightSquareBracket) {
            Ok((TypeView::List(Box::new(TypeView::Nil)), i + 2))
        } else {
            match type_at(t, i + 1, env) {
                Err(e) => Err(e),
                Ok((inner, q)) => if !sym_at(t, q, StructuralSymbol::RightSquareBracket) {
                    Err(ParseError::ExpectedSymbol(StructuralSymbol::RightSquareBracket))
                } else {
                    Ok((TypeView::List(Box::new(inner)), q + 1))
                },
            }
        }
    } else if id_at(t, i) matches Some(n) && n@ == "List"@ {
        if !sym_at(t, i + 1, StructuralSymbol::LeftParen) {
            Err(ParseError::ExpectedSymbol(StructuralSymbol::LeftParen))
        } else {
            match type_at(t, i + 2, env) {
                Err(e) => Err(e),
                Ok((inner, q)) => if !sym_at(t, q, StructuralSymbol::RightParen) {
                    Err(ParseError::ExpectedSymbol(StructuralSymbol::RightParen))
                } else {
                    Ok((TypeView::List(Box::new(inner)), q + 1))
                },
            }
        }
    } else if id_at(t, i) matches Some(n) && n@ == "Tuple"@ {
        if !sym_at(t, i + 1, StructuralSymbol::LeftParen) {
            Err(ParseError::ExpectedSymbol(StructuralSymbol::LeftParen))
        } else {
            match type_at(t, i + 2, env) {
                Err(e) => Err(e),
                Ok((first, q)) => if !moved(i, q, t) {
                    Err(ParseError::ExpectedType)
                } else {
                    match tuple_rest(t, q, seq![first], env) {
                        Err(e) => Err(e),
                        Ok((es, r)) => if es.len() < 2 {
                            Err(ParseError::ShortTuple)
                        } else {
                            Ok((TypeView::Tuple(es), r))
                        },
                    }
                },
            }
        }
    } else if id_at(t, i) matches Some(n) && n@ == "Dyn"@ {
        if !sym_at(t, i + 1, StructuralSymbol::LeftParen) {
            Err(ParseError::ExpectedSymbol(StructuralSymbol::LeftParen))
        } else {
            match id_at(t, i + 2) {
                None => Err(ParseError::ExpectedIdentifier),
                Some(own) => if !op_at(t, i + 3, Operator::Assignment) {
                    Err(ParseError::ExpectedOperator(Operator::Assignment))
                } else {
                    match dyn_fields(t, i + 4, Seq::empty(), env) {
                        Err(e) => Err(e),
                        Ok((fs, r)) => Ok((TypeView::Dyn(own@, fs), r)),
                    }
                },
            }
        }
    } else {
        match id_at(t, i) {
            None => Err(ParseError::ExpectedType),
            Some(n) => match builtin(n@) {
                Some(b) => Ok((b, i + 1)),
                None => if first_fields(env.custom_types@, n@) is Some {
                    match type_args(t, i + 1, env) {
                        Err(e) => Err(e),
                        Ok((args, r)) => match first_generics(env.generic_type_struct@, n@) {
                            Some(g) => if g.len() != args.len() {
                                Err(ParseError::TypeArgCount { name: n, expected: g.len() as usize, found: args.len() as usize })
                            } else {
                                Ok((TypeView::Custom(n@, args), r))
                            },
                            None => Ok((TypeView::Custom(n@, args), r)),
                        },
                    }
                } else {
                    match field_named(fviews(env.type_alias@), n@) {
                        Some(a) => Ok((a, i + 1)),
                        None => Err(ParseError::UnknownType(n)),
                    }
                },
            },
        }
    }
}

/// The rest of a parenthesised type after element list `acc`, at `p`: more
/// elements after commas, up to `)`; `trailing` when a comma ends the list.
pub open spec fn paren_rest(t: Seq<Token>, p: int, acc: Seq<TypeView>, env: Environment) -> Result<(Seq<TypeView>, int, bool), ParseError>
    decreases t.len() - p, 1nat,
{
    if sym_at(t, p, StructuralSymbol::Comma) {
        if sym_at(t, p + 1, StructuralSymbol::RightParen) {
            Ok((acc, p + 2, true))
        } else {
            match type_at(t, p + 1, env) {
                Err(e) => Err(e),
                Ok((x, q)) => if !moved(p, q, t) {
                    Err(ParseError::ExpectedType)
                } else {
                    paren_rest(t, q, acc.push(x), env)
                },
            }
        }
    } else if sym_at(t, p, StructuralSymbol::RightParen) {
        Ok((acc, p + 1, false))
    } else {
        Err(ParseError::ExpectedSymbol(StructuralSymbol::RightParen))
    }
}

/// The rest of a comma-separated type list after `acc`, at `p`, up to `)`;
/// the position after `)`.
pub open spec fn list_rest(t: Seq<Token>, p: int, acc: Seq<TypeView>, env: Environment) -> ParsedList
    decreases t.len() - p, 1nat,
{
    if sym_at(t, p, StructuralSymbol::Comma) {
        match type_at(t, p + 1, env) {
            Err(e) => Err(e),
            Ok((x, q)) => if !moved(p, q, t) {
                Err(ParseError::ExpectedType)
            } else {
                list_rest(t, q, acc.push(x), env)
            },
        }
    } else if sym_at(t, p, StructuralSymbol::RightParen) {
        Ok((acc, p + 1))
    } else {
        Err(ParseError::ExpectedSymbol(StructuralSymbol::RightParen))
    }
}

/// `Tuple(..)` after element list `acc`, at `p`: more elements after
/// commas (a comma right before `)` ends the list), up to `)`.
pub open spec fn tuple_rest(t: Seq<Token>, p: int, acc: Seq<TypeView>, env: Environment) -> ParsedList
    decreases t.len() - p, 1nat,
{
    if sym_at(t, p, StructuralSymbol::Comma) {
        if sym_at(t, p + 1, StructuralSymbol::RightParen) {
            Ok((acc, p + 2))
        } else {
            match type_at(t, p + 1, env) {
                Err(e) => Err(e),
                Ok((x, q)) => if !moved(p, q, t) {
                    Err(ParseError::ExpectedType)
                } else {
                    tuple_rest(t, q, acc.push(x), env)
                },
            }
        }
    } else if sym_at(t, p, StructuralSymbol::RightParen) {
        Ok((acc, p + 1))
    } else {
        Err(ParseError::ExpectedSymbol(StructuralSymbol::RightParen))
    }
}

/// A function type's return type at `p`, after parameters `ps`: the type
/// after `->`, or `Void`.
pub open spec fn returns_at(t: Seq<Token>, p: int, ps: Seq<TypeView>, env: Environment) -> Parsed
    decreases t.len() - p, 1nat,
{
    if op_at(t, p, Operator::RightArrow) {
        match type_at(t, p + 1, env) {
            Err(e) => Err(e),
            Ok((r, q)) => Ok((TypeView::Function(ps, Box::new(r)), q)),
        }
    } else {
        Ok((TypeView::Function(ps, Box::new(TypeView::Void)), p))
    }
}

/// The fields of a `Dyn` contract after `acc`, at `p`: `name: Type`
/// separated by `+`, up to `)`.
pub open spec fn dyn_fields(t: Seq<Token>, p: int, acc: Seq<(Seq<char>, TypeView)>, env: Environment) -> Result<
    (Seq<(Seq<char>, TypeView)>, int),
    ParseError,
>
    decreases t.len() - p, 1nat,
{
    match id_at(t, p) {
        None => Err(ParseError::ExpectedIdentifier),
        Some(f) => if !op_at(t, p + 1, Operator::Colon) {
            Err(ParseError::ExpectedOperator(Operator::Colon))
        } else {
            match type_at(t, p + 2, env) {
                Err(e) => Err(e),
                Ok((ft, q)) => if op_at(t, q, Operator::Addition) {
                    if !moved(p, q, t) {
                        Err(ParseError::ExpectedType)
                    } else {
                        dyn_fields(t, q + 1, acc.push((f@, ft)), env)
                    }
                } else if sym_at(t, q, StructuralSymbol::RightParen) {
                    Ok((acc.push((f@, ft)), q + 1))
                } else {
                    Err(ParseError::ExpectedSymbol(StructuralSymbol::RightParen))
                },
            }
        }
    }
}

/// A struct's type arguments at `p`: `(T1, ..)`, or none when no `(`
/// follows.
pub open spec fn type_args(t: Seq<Token>, p: int, env: Environment) -> ParsedList
    decreases t.len() - p, 2nat,
{
    if sym_at(t, p, StructuralSymbol::LeftParen) {
        match type_at(t, p + 1, env) {
            Err(e) => Err(e),
            Ok((x, q)) => if !moved(p, q, t) {
                Err(ParseError::ExpectedType)
            } else {
                list_rest(t, q, seq![x], env)
            },
        }
    } else {
        Ok((Seq::empty(), p))
    }
}

/// The first position of a binding named `n`.
pub open spec fn named_pos(f: Seq<(Seq<char>, TypeView)>, n: Seq<char>) -> Option<int>
    decreases f.len(),
{
    if f.len() == 0 {
        None
    } else {
        match named_pos(f.drop_last(), n) {
            Some(k) => Some(k),
            None => if f.last().0 == n { Some(f.len() - 1) } else { None },
        }
    }
}

/// Bindings `f` with `n` bound to `v`: the first binding of `n` replaced,
/// or a new one at the end.
pub open spec fn set_named(f: Seq<(Seq<char>, TypeView)>, n: Seq<char>, v: TypeView) -> Seq<(Seq<char>, TypeView)> {
    match named_pos(f, n) {
        Some(k) => f.update(k, (n, v)),
        None => f.push((n, v)),
    }
}

/// A type alias declaration at `i`: `type Name = T`. The name must not be a
/// struct's; the result is the aliases with `Name` bound to `T`, and the
/// position after `T`.
pub open spec fn alias_decl(t: Seq<Token>, i: int, env: Environment) -> Result<
    (Seq<(Seq<char>, TypeView)>, int),
    ParseError,
> {
    if !(id_at(t, i) matches Some(w) && w@ == "type"@) {
        Err(ParseError::ExpectedTypeWord)
    } else {
        match id_at(t, i + 1) {
            None => Err(ParseError::ExpectedIdentifier),
            Some(a) => if first_fields(env.custom_types@, a@) is Some {
                Err(ParseError::AlreadyDefined(a))
            } else if !op_at(t, i + 2, Operator::Assignment) {
                Err(ParseError::ExpectedOperator(Operator::Assignment))
            } else {
                match type_at(t, i + 3, env) {
                    Err(e) => Err(e),
                    Ok((v, j)) => Ok((set_named(fviews(env.type_alias@), a@, v), j)),
                }
            },
        }
    }
}

/// A parenthesised list of names at `p`, `(a, b, ..)` (a comma may end
/// it): the names and the position after `)`.
pub open spec fn id_list(t: Seq<Token>, p: int) -> Result<(Seq<String>, int), ParseError> {
    if !sym_at(t, p, StructuralSymbol::LeftParen) {
        Err(ParseError::ExpectedSymbol(StructuralSymbol::LeftParen))
    } else if sym_at(t, p + 1, StructuralSymbol::RightParen) {
        Ok((Seq::empty(), p + 2))
    } else {
        match id_at(t, p + 1) {
            None => Err(ParseError::ExpectedIdentifier),
            Some(n) => ids_rest(t, p + 2, seq![n]),
        }
    }
}

/// The rest of a name list after `acc`, at `r`.
pub open spec fn ids_rest(t: Seq<Token>, r: int, acc: Seq<String>) -> Result<(Seq<String>, int), ParseError>
    decreases t.len() - r,
{
    if sym_at(t, r, StructuralSymbol::Comma) {
        if sym_at(t, r + 1, StructuralSymbol::RightParen) {
            Ok((acc, r + 2))
        } else {
            match id_at(t, r + 1) {
                None => Err(ParseError::ExpectedIdentifier),
                Some(n) => ids_rest(t, r + 2, acc.push(n)),
            }
        }
    } else if sym_at(t, r, StructuralSymbol::RightParen) {
        Ok((acc, r + 1))
    } else {
        Err(ParseError::ExpectedSymbol(StructuralSymbol::RightParen))
    }
}

/// The parameters `name: Type, ..` from `p` after `acc` (types and names),
/// each name once, up to the first token that is no name; the position
/// after them.
pub open spec fn params_from(t: Seq<Token>, p: int, acc: Seq<(TypeView, String)>, env: Environment) -> Result<
    (Seq<(TypeView, String)>, int),
    ParseError,
>
    decreases t.len() - p,
{
    match id_at(t, p) {
        None => Ok((acc, p)),
        Some(n) => if exists|k: int| 0 <= k < acc.len() && acc[k].1@ == n@ {
            Err(ParseError::DuplicateParameter(n))
        } else if !op_at(t, p + 1, Operator::Colon) {
            Err(ParseError::ExpectedOperator(Operator::Colon))
        } else {
            match type_at(t, p + 2, env) {
                Err(e) => Err(e),
                Ok((v, q)) => if sym_at(t, q, StructuralSymbol::Comma) && moved(p, q, t) {
                    params_from(t, q + 1, acc.push((v, n)), env)
                } else {
                    Ok((acc.push((v, n)), q))
                },
            }
        },
    }
}

/// The views of parameters.
pub open spec fn pviews(s: Seq<(TType, String)>) -> Seq<(TypeView, String)> {
    s.map_values(|x: (TType, String)| (tview(x.0), x.1))
}

/// `tviews` of a list with one more type.
proof fn lemma_tviews_push(s: Seq<TType>, x: TType)
    ensures
        tviews(s.push(x)) == tviews(s).push(tview(x)),
{
    assert(s.push(x).drop_last() =~= s);
}

/// Whether token `i` is the punctuation `s`.
fn is_sym(t: &Vec<Token>, i: usize, s: StructuralSymbol) -> (res: bool)
    ensures
        res == sym_at(t@, i as int, s),
{
    if i < t.len() {
        match &t[i] {
            Token::StructuralSymbol(x) => *x == s,
            _ => false,
        }
    } else {
        false
    }
}

/// Whether token `i` is the operator `o`.
fn is_op(t: &Vec<Token>, i: usize, o: Operator) -> (res: bool)
    ensures
        res == op_at(t@, i as int, o),
{
    if i < t.len() {
        match &t[i] {
            Token::Operator(x) => *x == o,
            _ => false,
        }
    } else {
        false
    }
}

/// The name token `i` holds.
fn name_at(t: &Vec<Token>, i: usize) -> (res: Option<String>)
    ensures
        res == id_at(t@, i as int),
{
    if i < t.len() {
        match &t[i] {
            Token::Identifier(x) => Some(x.clone()),
            _ => None,
        }
    } else {
        None
    }
}

/// The built-in type a name stands for.
fn builtin_type(n: &String) -> (res: Option<TType>)
    ensures
        match builtin(n@) {
            Some(v) => res matches Some(t) && tview(t) == v,
            None => res is None,
        },
{
    let s = n.as_str();
    if str_equal(s, "Int") {
        Some(TType::Int)
    } else if str_equal(s, "Float") {
        Some(TType::Float)
    } else if str_equal(s, "Bool") {
        Some(TType::Bool)
    } else if str_equal(s, "String") {
        Some(TType::String)
    } else if str_equal(s, "Any") {
        Some(TType::Any)
    } else if str_equal(s, "Char") {
        Some(TType::Char)
    } else if str_equal(s, "None") {
        Some(TType::Nil)
    } else {
        None
    }
}

/// Whether `n` holds a name spelled `w`.
fn is_word(n: &Option<String>, w: &str) -> (res: bool)
    ensures
        res == (n matches Some(x) && x@ == w@),
{
    match n {
        Some(x) => str_equal(x.as_str(), w),
        None => false,
    }
}

/// Parses the type annotation at position `i` (`type_at`).
pub fn parse_type(t: &Vec<Token>, i: usize, env: &Environment) -> (res: Result<(TType, usize), ParseError>)
    ensures
        match type_at(t@, i as int, *env) {
            Ok((v, j)) => res matches Ok((ty, k)) && tview(ty) == v && k == j && i < k <= t@.len(),
            Err(e) => res == Err::<(TType, usize), ParseError>(e),
        },
    decreases t@.len() - i, 0nat,
{
    if i >= t.len() {
        return Err(ParseError::ExpectedType);
    }
    let name = name_at(t, i);
    if is_sym(t, i, StructuralSymbol::LeftParen) {
        if is_sym(t, i + 1, StructuralSymbol::RightParen) {
            return Err(ParseError::EmptyTuple);
        }
        let (first, q) = parse_type(t, i + 1, env)?;
        let mut acc: Vec<TType> = Vec::new();
        acc.push(first);
        proof {
            lemma_tviews_push(Seq::empty(), first);
            assert(Seq::<TType>::empty().push(first) =~= acc@);
            assert(tviews(Seq::<TType>::empty()) =~= Seq::<TypeView>::empty());
            assert(tviews(acc@) =~= seq![tview(first)]);
        }
        let (mut ts, r, trailing) = paren_list(t, q, acc, env)?;
        proof {
            crate::ttype::lemma_tviews_len(ts@);
        }
        if trailing || ts.len() != 1 {
            Ok((TType::Tuple { elements: ts }, r))
        } else {
            proof {
                crate::ttype::lemma_tviews_index(ts@, 0);
            }
            let only = ts.pop().unwrap();
            Ok((only, r))
        }
    } else if is_word(&name, "fn") {
        if !is_sym(t, i + 1, StructuralSymbol::LeftParen) {
            return Err(ParseError::ExpectedSymbol(StructuralSymbol::LeftParen));
        }
        if is_sym(t, i + 2, StructuralSymbol::RightParen) {
            let mut ps: Vec<TType> = Vec::new();
            ps.push(TType::Nil);
            proof {
                lemma_tviews_push(Seq::empty(), TType::Nil);
                assert(Seq::<TType>::empty().push(TType::Nil) =~= ps@);
                assert(tviews(Seq::<TType>::empty()) =~= Seq::<TypeView>::empty());
                assert(tviews(ps@) =~= seq![TypeView::Nil]);
            }
            return parse_returns(t, i + 3, ps, env);
        }
        let (first, q) = parse_type(t, i + 2, env)?;
        let mut acc: Vec<TType> = Vec::new();
        acc.push(first);
        proof {
            lemma_tviews_push(Seq::empty(), first);
            assert(Seq::<TType>::empty().push(first) =~= acc@);
            assert(tviews(Seq::<TType>::empty()) =~= Seq::<TypeView>::empty());
            assert(tviews(acc@) =~= seq![tview(first)]);
        }
        let (ps, r) = parse_list(t, q, acc, env)?;
        parse_returns(t, r, ps, env)
    } else if is_sym(t, i, StructuralSymbol::DollarSign) {
        match name_at(t, i + 1) {
            Some(n) => Ok((TType::Generic { name: n }, i + 2)),
            None => Err(ParseError::ExpectedIdentifier),
        }
    } else if is_word(&name, "Option") {
        if !is_sym(t, i + 1, StructuralSymbol::LeftParen) {
            return Err(ParseError::ExpectedSymbol(StructuralSymbol::LeftParen));
        }
        let (inner, q) = parse_type(t, i + 2, env)?;
        if !is_sym(t, q, StructuralSymbol::RightParen) {
            return Err(ParseError::ExpectedSymbol(StructuralSymbol::RightParen));
        }
        if let TType::Option { .. } = inner {
            return Err(ParseError::NestedOption);
        }
        Ok((TType::Option { inner: Box::new(inner) }, q + 1))
    } else if is_sym(t, i, StructuralSymbol::LeftSquareBracket) {
        if is_sym(t, i + 1, StructuralSymbol::RightSquareBracket) {
            return Ok((TType::List { inner: Box::new(TType::Nil) }, i + 2));
        }
        let (inner, q) = parse_type(t, i + 1, env)?;
        if !is_sym(t, q, StructuralSymbol::RightSquareBracket) {
            return Err(ParseError::ExpectedSymbol(StructuralSymbol::RightSquareBracket));
        }
        Ok((TType::List { inner: Box::new(inner) }, q + 1))
    } else if is_word(&name, "List") {
        if !is_sym(t, i + 1, StructuralSymbol::LeftParen) {
            return Err(ParseError::ExpectedSymbol(StructuralSymbol::LeftParen));
        }
        let (inner, q) = parse_type(t, i + 2, env)?;
        if !is_sym(t, q, StructuralSymbol::RightParen) {
            return Err(ParseError::ExpectedSymbol(StructuralSymbol::RightParen));
        }
        Ok((TType::List { inner: Box::new(inner) }, q + 1))
    } else if is_word(&name, "Tuple") {
        if !is_sym(t, i + 1, StructuralSymbol::LeftParen) {
            return Err(ParseError::ExpectedSymbol(StructuralSymbol::LeftParen));
        }
        let (first, q) = parse_type(t, i + 2, env)?;
        let mut acc: Vec<TType> = Vec::new();
        acc.push(first);
        proof {
            lemma_tviews_push(Seq::empty(), first);
            assert(Seq::<TType>::empty().push(first) =~= acc@);
            assert(tviews(Seq::<TType>::empty()) =~= Seq::<TypeView>::empty());
            assert(tviews(acc@) =~= seq![tview(first)]);
        }
        let (es, r) = parse_tuple(t, q, acc, env)?;
        proof {
            crate::ttype::lemma_tviews_len(es@);
        }
        if es.len() < 2 {
            return Err(ParseError::ShortTuple);
        }
        Ok((TType::Tuple { elements: es }, r))
    } else if is_word(&name, "Dyn") {
        if !is_sym(t, i + 1, StructuralSymbol::LeftParen) {
            return Err(ParseError::ExpectedSymbol(StructuralSymbol::LeftParen));
        }
        let own = match name_at(t, i + 2) {
            Some(o) => o,
            None => {
                return Err(ParseError::ExpectedIdentifier);
            },
        };
        if !is_op(t, i + 3, Operator::Assignment) {
            return Err(ParseError::ExpectedOperator(Operator::Assignment));
        }
        let acc: Vec<(String, TType)> = Vec::new();
        assert(fviews(acc@) =~= Seq::<(Seq<char>, TypeView)>::empty());
        let (fs, r) = parse_dyn_fields(t, i + 4, acc, env)?;
        Ok((TType::Dyn { own, contract: fs }, r))
    } else {
        let n = match name {
            Some(n) => n,
            None => {
                return Err(ParseError::ExpectedType);
            },
        };
        if let Some(b) = builtin_type(&n) {
            return Ok((b, i + 1));
        }
        if find_fields(&env.custom_types, &n).is_some() {
            let (args, r) = parse_type_args(t, i + 1, env)?;
            proof {
                crate::ttype::lemma_tviews_len(args@);
            }
            match find_generics(&env.generic_type_struct, &n) {
                Some(gi) => {
                    let gl = env.generic_type_struct[gi].1.len();
                    assert(crate::ttype::names(env.generic_type_struct@[gi as int].1@).len() == gl);
                    if gl != args.len() {
                        return Err(ParseError::TypeArgCount { name: n, expected: gl, found: args.len() });
                    }
                    Ok((TType::Custom { name: n, type_params: args }, r))
                },
                None => Ok((TType::Custom { name: n, type_params: args }, r)),
            }
        } else {
            match find_field(&env.type_alias, &n) {
                Some(k) => Ok((copy_type(&env.type_alias[k].1), i + 1)),
                None => Err(ParseError::UnknownType(n)),
            }
        }
    }
}

/// `paren_rest`.
fn paren_list(t: &Vec<Token>, p: usize, acc: Vec<TType>, env: &Environment) -> (res: Result<(Vec<TType>, usize, bool), ParseError>)
    requires
        p <= t@.len(),
    ensures
        match paren_rest(t@, p as int, tviews(acc@), *env) {
            Ok((vs, j, tr)) => res matches Ok((v, k, b)) && tviews(v@) == vs && k == j && b == tr && p < k <= t@.len(),
            Err(e) => res == Err::<(Vec<TType>, usize, bool), ParseError>(e),
        },
    decreases t@.len() - p, 1nat,
{
    let _len = t.len();
    let mut acc = acc;
    if is_sym(t, p, StructuralSymbol::Comma) {
        if is_sym(t, p + 1, StructuralSymbol::RightParen) {
            return Ok((acc, p + 2, true));
        }
        let (x, q) = parse_type(t, p + 1, env)?;
        proof {
            lemma_tviews_push(acc@, x);
        }
        acc.push(x);
        paren_list(t, q, acc, env)
    } else if is_sym(t, p, StructuralSymbol::RightParen) {
        Ok((acc, p + 1, false))
    } else {
        Err(ParseError::ExpectedSymbol(StructuralSymbol::RightParen))
    }
}

/// `list_rest`.
fn parse_list(t: &Vec<Token>, p: usize, acc: Vec<TType>, env: &Environment) -> (res: Result<(Vec<TType>, usize), ParseError>)
    requires
        p <= t@.len(),
    ensures
        match list_rest(t@, p as int, tviews(acc@), *env) {
            Ok((vs, j)) => res matches Ok((v, k)) && tviews(v@) == vs && k == j && p < k <= t@.len(),
            Err(e) => res == Err::<(Vec<TType>, usize), ParseError>(e),
        },
    decreases t@.len() - p, 1nat,
{
    let _len = t.len();
    let mut acc = acc;
    if is_sym(t, p, StructuralSymbol::Comma) {
        let (x, q) = parse_type(t, p + 1, env)?;
        proof {
            lemma_tviews_push(acc@, x);
        }
        acc.push(x);
        parse_list(t, q, acc, env)
    } else if is_sym(t, p, StructuralSymbol::RightParen) {
        Ok((acc, p + 1))
    } else {
        Err(ParseError::ExpectedSymbol(StructuralSymbol::RightParen))
    }
}

/// `tuple_rest`.
fn parse_tuple(t: &Vec<Token>, p: usize, acc: Vec<TType>, env: &Environment) -> (res: Result<(Vec<TType>, usize), ParseError>)
    requires
        p <= t@.len(),
    ensures
        match tuple_rest(t@, p as int, tviews(acc@), *env) {
            Ok((vs, j)) => res matches Ok((v, k)) && tviews(v@) == vs && k == j && p < k <= t@.len(),
            Err(e) => res == Err::<(Vec<TType>, usize), ParseError>(e),
        },
    decreases t@.len() - p, 1nat,
{
    let _len = t.len();
    let mut acc = acc;
    if is_sym(t, p, StructuralSymbol::Comma) {
        if is_sym(t, p + 1, StructuralSymbol::RightParen) {
            return Ok((acc, p + 2));
        }
        let (x, q) = parse_type(t, p + 1, env)?;
        proof {
            lemma_tviews_push(acc@, x);
        }
        acc.push(x);
        parse_tuple(t, q, acc, env)
    } else if is_sym(t, p, StructuralSymbol::RightParen) {
        Ok((acc, p + 1))
    } else {
        Err(ParseError::ExpectedSymbol(StructuralSymbol::RightParen))
    }
}

/// `returns_at`.
fn parse_returns(t: &Vec<Token>, p: usize, ps: Vec<TType>, env: &Environment) -> (res: Result<(TType, usize), ParseError>)
    requires
        0 < p <= t@.len(),
    ensures
        match returns_at(t@, p as int, tviews(ps@), *env) {
            Ok((v, j)) => res matches Ok((ty, k)) && tview(ty) == v && k == j && p <= k <= t@.len(),
            Err(e) => res == Err::<(TType, usize), ParseError>(e),
        },
    decreases t@.len() - p, 1nat,
{
    let _len = t.len();
    let ghost pv = tviews(ps@);
    if is_op(t, p, Operator::RightArrow) {
        match parse_type(t, p + 1, env) {
            Ok((r, q)) => {
                let f = TType::Function { parameters: ps, return_type: Box::new(r) };
                assert(tview(f) == TypeView::Function(pv, Box::new(tview(r))));
                Ok((f, q))
            },
            Err(e) => Err(e),
        }
    } else {
        let f = TType::Function { parameters: ps, return_type: Box::new(TType::Void) };
        assert(tview(TType::Void) == TypeView::Void);
        assert(tview(f) == TypeView::Function(pv, Box::new(TypeView::Void)));
        Ok((f, p))
    }
}

/// `dyn_fields`.
fn parse_dyn_fields(t: &Vec<Token>, p: usize, acc: Vec<(String, TType)>, env: &Environment) -> (res: Result<
    (Vec<(String, TType)>, usize),
    ParseError,
>)
    requires
        p <= t@.len(),
    ensures
        match dyn_fields(t@, p as int, fviews(acc@), *env) {
            Ok((vs, j)) => res matches Ok((v, k)) && fviews(v@) == vs && k == j && p < k <= t@.len(),
            Err(e) => res == Err::<(Vec<(String, TType)>, usize), ParseError>(e),
        },
    decreases t@.len() - p, 1nat,
{
    let _len = t.len();
    let mut acc = acc;
    let f = match name_at(t, p) {
        Some(f) => f,
        None => {
            return Err(ParseError::ExpectedIdentifier);
        },
    };
    if !is_op(t, p + 1, Operator::Colon) {
        return Err(ParseError::ExpectedOperator(Operator::Colon));
    }
    let (ft, q) = parse_type(t, p + 2, env)?;
    proof {
        crate::typechecker::lemma_fviews_push(acc@, (f, ft));
    }
    acc.push((f, ft));
    if is_op(t, q, Operator::Addition) {
        parse_dyn_fields(t, q + 1, acc, env)
    } else if is_sym(t, q, StructuralSymbol::RightParen) {
        Ok((acc, q + 1))
    } else {
        Err(ParseError::ExpectedSymbol(StructuralSymbol::RightParen))
    }
}

/// `type_args`.
fn parse_type_args(t: &Vec<Token>, p: usize, env: &Environment) -> (res: Result<(Vec<TType>, usize), ParseError>)
    requires
        p <= t@.len(),
    ensures
        match type_args(t@, p as int, *env) {
            Ok((vs, j)) => res matches Ok((v, k)) && tviews(v@) == vs && k == j && p <= k <= t@.len(),
            Err(e) => res == Err::<(Vec<TType>, usize), ParseError>(e),
        },
    decreases t@.len() - p, 2nat,
{
    let _len = t.len();
    if is_sym(t, p, StructuralSymbol::LeftParen) {
        let (x, q) = parse_type(t, p + 1, env)?;
        let mut acc: Vec<TType> = Vec::new();
        acc.push(x);
        proof {
            lemma_tviews_push(Seq::empty(), x);
            assert(Seq::<TType>::empty().push(x) =~= acc@);
            assert(tviews(Seq::<TType>::empty()) =~= Seq::<TypeView>::empty());
            assert(tviews(acc@) =~= seq![tview(x)]);
        }
        parse_list(t, q, acc, env)
    } else {
        let v: Vec<TType> = Vec::new();
        assert(tviews(v@) =~= Seq::<TypeView>::empty());
        Ok((v, p))
    }
}

/// The first position of a binding named `n`.
fn find_named(f: &Vec<(String, TType)>, n: &String) -> (res: Option<usize>)
    ensures
        match res {
            Some(k) => named_pos(fviews(f@), n@) == Some(k as int),
            None => named_pos(fviews(f@), n@) is None,
        },
{
    let mut k: usize = 0;
    proof {
        crate::ttype::lemma_fviews_len(f@);
        assert(f@.subrange(0, 0) =~= Seq::<(String, TType)>::empty());
    }
    while k < f.len()
        invariant
            k <= f@.len(),
            fviews(f@).len() == f@.len(),
            named_pos(fviews(f@.subrange(0, k as int)), n@) is None,
        decreases f@.len() - k,
    {
        proof {
            crate::ttype::lemma_fviews_prefix(f@, k as int);
            crate::ttype::lemma_fviews_len(f@.subrange(0, k as int));
            assert(fviews(f@.subrange(0, k + 1)).drop_last() =~= fviews(f@.subrange(0, k as int)));
        }
        if str_equal(f[k].0.as_str(), n.as_str()) {
            proof {
                lemma_named_prefix(f@, n@, (k + 1) as int);
            }
            return Some(k);
        }
        k += 1;
    }
    assert(f@.subrange(0, f@.len() as int) =~= f@);
    None
}

/// A binding found in a prefix is found at the same place in the whole.
proof fn lemma_named_prefix(f: Seq<(String, TType)>, n: Seq<char>, m: int)
    requires
        0 <= m <= f.len(),
        named_pos(fviews(f.subrange(0, m)), n) is Some,
    ensures
        named_pos(fviews(f), n) == named_pos(fviews(f.subrange(0, m)), n),
    decreases f.len() - m,
{
    if m < f.len() {
        crate::ttype::lemma_fviews_prefix(f, m);
        assert(fviews(f.subrange(0, m + 1)).drop_last() =~= fviews(f.subrange(0, m)));
        lemma_named_prefix(f, n, m + 1);
    } else {
        assert(f.subrange(0, m) =~= f);
    }
}

/// A position `named_pos` gives lies within the bindings and holds the name.
proof fn lemma_named_pos(f: Seq<(Seq<char>, TypeView)>, n: Seq<char>)
    ensures
        named_pos(f, n) matches Some(k) ==> 0 <= k < f.len() && f[k].0 == n,
    decreases f.len(),
{
    if f.len() > 0 {
        lemma_named_pos(f.drop_last(), n);
    }
}

/// Binds `n` to `ty` in `f` (`set_named`).
fn set_alias(f: &mut Vec<(String, TType)>, n: String, ty: TType)
    ensures
        fviews(final(f)@) == set_named(fviews(old(f)@), n@, tview(ty)),
{
    let ghost f0 = f@;
    match find_named(f, &n) {
        Some(k) => {
            proof {
                lemma_named_pos(fviews(f0), n@);
                crate::ttype::lemma_fviews_len(f0);
            }
            let ghost nv = n@;
            f.set(k, (n, ty));
            proof {
                crate::ttype::lemma_fviews_len(f@);
                assert forall|j: int| 0 <= j < f@.len() implies #[trigger] fviews(f@)[j] == fviews(f0).update(k as int, (nv, tview(ty)))[j] by {
                    crate::ttype::lemma_fviews_index(f@, j);
                    crate::ttype::lemma_fviews_index(f0, j);
                }
                assert(fviews(f@) =~= fviews(f0).update(k as int, (nv, tview(ty))));
                assert(named_pos(fviews(f0), nv) == Some(k as int));
                assert(set_named(fviews(f0), nv, tview(ty)) == fviews(f0).update(k as int, (nv, tview(ty))));
            }
        },
        None => {
            let ghost nv = n@;
            let ghost tv = tview(ty);
            proof {
                crate::typechecker::lemma_fviews_push(f0, (n, ty));
            }
            f.push((n, ty));
            assert(set_named(fviews(f0), nv, tv) == fviews(f0).push((nv, tv)));
        },
    }
}

/// Whether a parameter named `n` is among `acc`.
fn has_param(acc: &Vec<(TType, String)>, n: &String) -> (res: bool)
    ensures
        res == exists|k: int| 0 <= k < pviews(acc@).len() && pviews(acc@)[k].1@ == n@,
{
    let mut k: usize = 0;
    while k < acc.len()
        invariant
            k <= acc@.len(),
            forall|j: int| 0 <= j < k ==> acc@[j].1@ != n@,
        decreases acc@.len() - k,
    {
        if str_equal(acc[k].1.as_str(), n.as_str()) {
            assert(pviews(acc@)[k as int].1@ == n@);
            return true;
        }
        k += 1;
    }
    proof {
        assert forall|j: int| 0 <= j < pviews(acc@).len() implies pviews(acc@)[j].1@ != n@ by {
            assert(pviews(acc@)[j] == (tview(acc@[j].0), acc@[j].1));
        }
    }
    false
}

/// A parser over a token list, with the checker whose environment names
/// the known struct types and aliases.
pub struct Parser {
    pub input: Vec<Token>,
    pub index: usize,
    pub typechecker: TypeChecker,
}

impl Parser {
    /// A parenthesised list of names at the current position (`id_list`),
    /// moving past it.
    pub fn get_id_list(&mut self) -> (res: Result<Vec<String>, ParseError>)
        ensures
            final(self).input == old(self).input,
            final(self).typechecker == old(self).typechecker,
            match id_list(old(self).input@, old(self).index as int) {
                Ok((ns, j)) => res matches Ok(v) && v@ == ns && final(self).index == j,
                Err(e) => res == Err::<Vec<String>, ParseError>(e),
            },
    {
        let p = self.index;
        let _len = self.input.len();
        if !is_sym(&self.input, p, StructuralSymbol::LeftParen) {
            return Err(ParseError::ExpectedSymbol(StructuralSymbol::LeftParen));
        }
        if is_sym(&self.input, p + 1, StructuralSymbol::RightParen) {
            self.index = p + 2;
            let v: Vec<String> = Vec::new();
            assert(v@ =~= Seq::<String>::empty());
            return Ok(v);
        }
        let first = match name_at(&self.input, p + 1) {
            Some(n) => n,
            None => {
                return Err(ParseError::ExpectedIdentifier);
            },
        };
        let mut acc: Vec<String> = Vec::new();
        acc.push(first);
        assert(acc@ =~= seq![first]);
        let mut r = p + 2;
        loop
            invariant
                self.input == old(self).input,
                self.typechecker == old(self).typechecker,
                r <= self.input@.len(),
                _len == self.input@.len(),
                p == old(self).index,
                ids_rest(self.input@, r as int, acc@) == id_list(old(self).input@, p as int),
            decreases self.input@.len() - r,
        {
            if is_sym(&self.input, r, StructuralSymbol::Comma) {
                if is_sym(&self.input, r + 1, StructuralSymbol::RightParen) {
                    self.index = r + 2;
                    return Ok(acc);
                }
                match name_at(&self.input, r + 1) {
                    None => {
                        return Err(ParseError::ExpectedIdentifier);
                    },
                    Some(n) => {
                        acc.push(n);
                        r = r + 2;
                    },
                }
            } else if is_sym(&self.input, r, StructuralSymbol::RightParen) {
                self.index = r + 1;
                return Ok(acc);
            } else {
                return Err(ParseError::ExpectedSymbol(StructuralSymbol::RightParen));
            }
        }
    }

    /// Parameters `name: Type, ..` at the current position (`params_from`),
    /// moving past them.
    pub fn parameter_list(&mut self) -> (res: Result<Vec<(TType, String)>, ParseError>)
        ensures
            final(self).input == old(self).input,
            final(self).typechecker == old(self).typechecker,
            match params_from(old(self).input@, old(self).index as int, Seq::empty(), old(self).typechecker.environment) {
                Ok((ps, j)) => res matches Ok(v) && pviews(v@) == ps && final(self).index == j,
                Err(e) => res == Err::<Vec<(TType, String)>, ParseError>(e),
            },
    {
        let mut p = self.index;
        let _len = self.input.len();
        let mut acc: Vec<(TType, String)> = Vec::new();
        assert(pviews(acc@) =~= Seq::<(TypeView, String)>::empty());
        if p >= _len {
            return Ok(acc);
        }
        loop
            invariant
                self.input == old(self).input,
                self.typechecker == old(self).typechecker,
                p <= self.input@.len(),
                _len == self.input@.len(),
                params_from(self.input@, p as int, pviews(acc@), self.typechecker.environment) == params_from(
                    old(self).input@,
                    old(self).index as int,
                    Seq::empty(),
                    old(self).typechecker.environment,
                ),
            decreases self.input@.len() - p,
        {
            let n = match name_at(&self.input, p) {
                None => {
                    self.index = p;
                    return Ok(acc);
                },
                Some(n) => n,
            };
            if has_param(&acc, &n) {
                return Err(ParseError::DuplicateParameter(n));
            }
            if !is_op(&self.input, p + 1, Operator::Colon) {
                return Err(ParseError::ExpectedOperator(Operator::Colon));
            }
            let (ty, q) = match parse_type(&self.input, p + 2, &self.typechecker.environment) {
                Ok(r) => r,
                Err(e) => {
                    return Err(e);
                },
            };
            let ghost a0 = acc@;
            acc.push((ty, n));
            proof {
                assert(pviews(acc@) =~= pviews(a0).push((tview(ty), n)));
            }
            if is_sym(&self.input, q, StructuralSymbol::Comma) {
                p = q + 1;
            } else {
                self.index = q;
                return Ok(acc);
            }
        }
    }

    /// Moves to the next token.
    pub fn advance(&mut self)
        requires
            old(self).index < usize::MAX,
        ensures
            final(self).index == old(self).index + 1,
            final(self).input == old(self).input,
            final(self).typechecker == old(self).typechecker,
    {
        self.index = self.index + 1;
    }

    /// The token at the current position, if any.
    pub fn current_token(&self) -> (res: Option<&Token>)
        ensures
            self.index < self.input@.len() ==> res == Some(&self.input@[self.index as int]),
            self.index >= self.input@.len() ==> res is None,
    {
        if self.index < self.input.len() {
            Some(&self.input[self.index])
        } else {
            None
        }
    }

    /// Moves past the punctuation `sym`, which must come next.
    pub fn consume_symbol(&mut self, sym: StructuralSymbol) -> (res: Result<(), ParseError>)
        ensures
            final(self).input == old(self).input,
            final(self).typechecker == old(self).typechecker,
            sym_at(old(self).input@, old(self).index as int, sym) ==> res is Ok && final(self).index == old(self).index + 1,
            !sym_at(old(self).input@, old(self).index as int, sym) ==> res == Err::<(), ParseError>(
                ParseError::ExpectedSymbol(sym),
            ) && final(self).index == old(self).index,
    {
        let _len = self.input.len();
        if is_sym(&self.input, self.index, sym) {
            self.index = self.index + 1;
            Ok(())
        } else {
            Err(ParseError::ExpectedSymbol(sym))
        }
    }

    /// Moves past the operator `op`, which must come next.
    pub fn consume_operator(&mut self, op: Operator) -> (res: Result<(), ParseError>)
        ensures
            final(self).input == old(self).input,
            final(self).typechecker == old(self).typechecker,
            op_at(old(self).input@, old(self).index as int, op) ==> res is Ok && final(self).index == old(self).index + 1,
            !op_at(old(self).input@, old(self).index as int, op) ==> res == Err::<(), ParseError>(
                ParseError::ExpectedOperator(op),
            ) && final(self).index == old(self).index,
    {
        let _len = self.input.len();
        if is_op(&self.input, self.index, op) {
            self.index = self.index + 1;
            Ok(())
        } else {
            Err(ParseError::ExpectedOperator(op))
        }
    }

    /// The name at the current position, moving past it.
    pub fn get_identifier(&mut self) -> (res: Result<String, ParseError>)
        ensures
            final(self).input == old(self).input,
            final(self).typechecker == old(self).typechecker,
            match id_at(old(self).input@, old(self).index as int) {
                Some(n) => res == Ok::<String, ParseError>(n) && final(self).index == old(self).index + 1,
                None => res == Err::<String, ParseError>(ParseError::ExpectedIdentifier) && final(self).index
                    == old(self).index,
            },
    {
        let _len = self.input.len();
        match name_at(&self.input, self.index) {
            Some(n) => {
                self.index = self.index + 1;
                Ok(n)
            },
            None => Err(ParseError::ExpectedIdentifier),
        }
    }

    /// A type alias declaration, `type Name = T`, at the current position
    /// (`alias_decl`): binds `Name` to `T` among the environment's aliases
    /// and moves past it. On an error nothing changes.
    pub fn type_alias(&mut self) -> (res: Result<(), ParseError>)
        ensures
            final(self).input == old(self).input,
            final(self).typechecker.environment.custom_types == old(self).typechecker.environment.custom_types,
            final(self).typechecker.environment.generic_type_struct
                == old(self).typechecker.environment.generic_type_struct,
            final(self).typechecker.environment.live_generics == old(self).typechecker.environment.live_generics,
            match alias_decl(old(self).input@, old(self).index as int, old(self).typechecker.environment) {
                Ok((a, j)) => res is Ok && fviews(final(self).typechecker.environment.type_alias@) == a
                    && final(self).index == j,
                Err(e) => res == Err::<(), ParseError>(e) && *final(self) == *old(self),
            },
    {
        let i = self.index;
        let _len = self.input.len();
        let w = name_at(&self.input, i);
        if !is_word(&w, "type") {
            return Err(ParseError::ExpectedTypeWord);
        }
        let a = match name_at(&self.input, i + 1) {
            Some(a) => a,
            None => {
                return Err(ParseError::ExpectedIdentifier);
            },
        };
        if find_fields(&self.typechecker.environment.custom_types, &a).is_some() {
            return Err(ParseError::AlreadyDefined(a));
        }
        if !is_op(&self.input, i + 2, Operator::Assignment) {
            return Err(ParseError::ExpectedOperator(Operator::Assignment));
        }
        let (ty, j) = parse_type(&self.input, i + 3, &self.typechecker.environment)?;
        set_alias(&mut self.typechecker.environment.type_alias, a, ty);
        self.index = j;
        Ok(())
    }

    /// Parses the type annotation at the current position and moves past
    /// it (`type_at`); on an error the position stays.
    pub fn ttype(&mut self) -> (res: Result<TType, ParseError>)
        ensures
            final(self).input == old(self).input,
            final(self).typechecker == old(self).typechecker,
            match type_at(old(self).input@, old(self).index as int, old(self).typechecker.environment) {
                Ok((v, j)) => res matches Ok(ty) && tview(ty) == v && final(self).index == j,
                Err(e) => res == Err::<TType, ParseError>(e) && final(self).index == old(self).index,
            },
    {
        match parse_type(&self.input, self.index, &self.typechecker.environment) {
            Ok((ty, k)) => {
                self.index = k;
                Ok(ty)
            },
            Err(e) => Err(e),
        }
    }
}

} // verus!
