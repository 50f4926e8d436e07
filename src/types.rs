//! Type expressions as written by an author, type descriptors, and the
//! resolver from the first to the second.

use vstd::prelude::*;
use crate::ident::{CompactIdentifier, IdentError, ident_check, pack};

verus! {

/// Deepest nesting of type expressions that the resolver accepts.
pub const MAX_TYPE_DEPTH: usize = 16;

/// Packed code of the keyword `u32`.
pub const KW_U32: u64 = 237892;
/// Packed code of the keyword `i32`.
pub const KW_I32: u64 = 188740;
/// Packed code of the keyword `u64`.
pub const KW_U64: u64 = 238086;
/// Packed code of the keyword `i64`.
pub const KW_I64: u64 = 188934;
/// Packed code of the keyword `bool`.
pub const KW_BOOL: u64 = 10439985;
/// Packed code of the keyword `Symbol`.
pub const KW_SYMBOL: u64 = 33265712433;
/// Packed code of the keyword `Bitset`.
pub const KW_BITSET: u64 = 14745569977;
/// Packed code of the keyword `Status`.
pub const KW_STATUS: u64 = 33178754744;
/// Packed code of the keyword `Binary`.
pub const KW_BINARY: u64 = 14743924222;
/// Packed code of the generic name `Option`.
pub const KW_OPTION: u64 = 28821613875;
/// Packed code of the generic name `Vec`.
pub const KW_VEC: u64 = 137896;
/// Packed code of the generic name `Set`.
pub const KW_SET: u64 = 125625;
/// Packed code of the generic name `Map`.
pub const KW_MAP: u64 = 100789;

/// A syntactic type expression.
#[derive(Debug, PartialEq, Eq)]
pub enum TypeExpr {
    /// A name with its generic arguments (none for a plain name).
    Path { name: Vec<u8>, args: Vec<TypeExpr> },
    /// A tuple of element types, in order.
    Tuple(Vec<TypeExpr>),
}

#[derive(Clone, Copy, Debug, PartialEq, Eq, Structural)]
pub enum ScalarKind {
    U32,
    I32,
    U64,
    I64,
    Bool,
    Symbol,
    Bitset,
    Status,
    Binary,
}

/// The resolved shape of a type.
#[derive(Debug, PartialEq, Eq)]
pub enum TypeDescriptor {
    Scalar(ScalarKind),
    /// A reference to a type defined elsewhere, by name.
    UserDefined(CompactIdentifier),
    Optional(Box<TypeDescriptor>),
    Sequence(Box<TypeDescriptor>),
    SetType(Box<TypeDescriptor>),
    Mapping(Box<TypeDescriptor>, Box<TypeDescriptor>),
    Tuple(Vec<TypeDescriptor>),
}

/// What can go wrong while generating a schema and codec.
#[derive(Clone, Copy, Debug, PartialEq, Eq, Structural)]
pub enum ErrorKind {
    /// A type expression that the resolver does not map.
    UnsupportedType,
    /// A union case with more than one payload field.
    UnsupportedVariantShape,
    /// A name longer than `MAX_IDENT_LEN`.
    IdentifierTooLong,
    /// A name with a character outside `[A-Za-z0-9_]`.
    InvalidIdentifier,
    /// A type expression nested deeper than `MAX_TYPE_DEPTH`.
    NestingTooDeep,
}

/// The generation error for a name that is not an identifier.
pub open spec fn ident_error_kind(e: IdentError) -> ErrorKind {
    match e {
        IdentError::TooLong => ErrorKind::IdentifierTooLong,
        IdentError::InvalidChar => ErrorKind::InvalidIdentifier,
    }
}

pub fn ident_error_to_kind(e: IdentError) -> (r: ErrorKind)
    ensures
        r == ident_error_kind(e),
{
    match e {
        IdentError::TooLong => ErrorKind::IdentifierTooLong,
        IdentError::InvalidChar => ErrorKind::InvalidIdentifier,
    }
}

/// The scalar kind named by a packed keyword, if any.
pub open spec fn keyword_scalar(c: nat) -> Option<ScalarKind> {
    if c == KW_U32 {
        Some(ScalarKind::U32)
    } else if c == KW_I32 {
        Some(ScalarKind::I32)
    } else if c == KW_U64 {
        Some(ScalarKind::U64)
    } else if c == KW_I64 {
        Some(ScalarKind::I64)
    } else if c == KW_BOOL {
        Some(ScalarKind::Bool)
    } else if c == KW_SYMBOL {
        Some(ScalarKind::Symbol)
    } else if c == KW_BITSET {
        Some(ScalarKind::Bitset)
    } else if c == KW_STATUS {
        Some(ScalarKind::Status)
    } else if c == KW_BINARY {
        Some(ScalarKind::Binary)
    } else {
        None
    }
}

/// A generic name that takes one argument.
pub open spec fn is_unary_generic(c: nat) -> bool {
    c == KW_OPTION || c == KW_VEC || c == KW_SET
}

pub open spec fn is_generic(c: nat) -> bool {
    is_unary_generic(c) || c == KW_MAP
}

/// Whether `e` resolves within `fuel` levels of nesting, and if not, why:
/// the first failure met, arguments and elements taken left to right.
pub open spec fn resolve_check(e: TypeExpr, fuel: nat) -> Result<(), ErrorKind>
    decreases fuel, 0nat,
{
    if fuel == 0 {
        Err(ErrorKind::NestingTooDeep)
    } else {
        match e {
            TypeExpr::Path { name, args } => {
                match ident_check(name@) {
                    Err(ie) => Err(ident_error_kind(ie)),
                    Ok(_) => {
                        let c = pack(name@);
                        if args@.len() == 0 {
                            if is_generic(c) {
                                Err(ErrorKind::UnsupportedType)
                            } else {
                                Ok(())
                            }
                        } else if is_unary_generic(c) && args@.len() == 1 {
                            resolve_check(args@[0], (fuel - 1) as nat)
                        } else if c == KW_MAP && args@.len() == 2 {
                            resolve_list_check(args@, (fuel - 1) as nat)
                        } else {
                            Err(ErrorKind::UnsupportedType)
                        }
                    },
                }
            },
            TypeExpr::Tuple(elems) => resolve_list_check(elems@, (fuel - 1) as nat),
        }
    }
}

/// `resolve_check` over a list, stopping at the first failure.
pub open spec fn resolve_list_check(s: Seq<TypeExpr>, fuel: nat) -> Result<(), ErrorKind>
    decreases fuel, s.len(),
{
    if s.len() == 0 {
        Ok(())
    } else {
        match resolve_list_check(s.drop_last(), fuel) {
            Err(k) => Err(k),
            Ok(_) => resolve_check(s.last(), fuel),
        }
    }
}

/// `d` is what `e` resolves to, with `fuel` levels of nesting available.
pub open spec fn describes(e: TypeExpr, d: TypeDescriptor, fuel: nat) -> bool
    decreases fuel, 0nat,
{
    if fuel == 0 {
        false
    } else {
        match e {
            TypeExpr::Path { name, args } => {
                let c = pack(name@);
                if args@.len() == 0 {
                    match keyword_scalar(c) {
                        Some(k) => d == TypeDescriptor::Scalar(k),
                        None => match d {
                            TypeDescriptor::UserDefined(id) => id@ == name@,
                            _ => false,
                        },
                    }
                } else if args@.len() == 1 && c == KW_OPTION {
                    match d {
                        TypeDescriptor::Optional(inner) => describes(args@[0], *inner, (fuel - 1) as nat),
                        _ => false,
                    }
                } else if args@.len() == 1 && c == KW_VEC {
                    match d {
                        TypeDescriptor::Sequence(inner) => describes(args@[0], *inner, (fuel - 1) as nat),
                        _ => false,
                    }
                } else if args@.len() == 1 && c == KW_SET {
                    match d {
                        TypeDescriptor::SetType(inner) => describes(args@[0], *inner, (fuel - 1) as nat),
                        _ => false,
                    }
                } else if args@.len() == 2 && c == KW_MAP {
                    match d {
                        TypeDescriptor::Mapping(k, v) => describes(args@[0], *k, (fuel - 1) as nat)
                            && describes(args@[1], *v, (fuel - 1) as nat),
                        _ => false,
                    }
                } else {
                    false
                }
            },
            TypeExpr::Tuple(elems) => match d {
                TypeDescriptor::Tuple(ds) => describes_list(elems@, ds@, (fuel - 1) as nat),
                _ => false,
            },
        }
    }
}

/// `describes`, element by element.
pub open spec fn describes_list(es: Seq<TypeExpr>, ds: Seq<TypeDescriptor>, fuel: nat) -> bool
    decreases fuel, es.len(),
{
    es.len() == ds.len() && (es.len() == 0 || (describes_list(es.drop_last(), ds.drop_last(), fuel)
        && describes(es.last(), ds.last(), fuel)))
}

proof fn lemma_list_check_prefix_err(s: Seq<TypeExpr>, j: int, fuel: nat)
    requires
        0 <= j <= s.len(),
        resolve_list_check(s.subrange(0, j), fuel) is Err,
    ensures
        resolve_list_check(s, fuel) == resolve_list_check(s.subrange(0, j), fuel),
    decreases s.len(),
{
    if j < s.len() {
        assert(s.drop_last().subrange(0, j) =~= s.subrange(0, j));
        lemma_list_check_prefix_err(s.drop_last(), j, fuel);
    } else {
        assert(s.subrange(0, j) =~= s);
    }
}

fn resolve(e: &TypeExpr, fuel: usize) -> (r: Result<TypeDescriptor, ErrorKind>)
    ensures
        match r {
            Ok(d) => resolve_check(*e, fuel as nat) is Ok && describes(*e, d, fuel as nat),
            Err(k) => resolve_check(*e, fuel as nat) == Err::<(), ErrorKind>(k),
        },
    decreases fuel, 0nat,
{
    if fuel == 0 {
        return Err(ErrorKind::NestingTooDeep);
    }
    match e {
        TypeExpr::Path { name, args } => {
            let id = match CompactIdentifier::new(name) {
                Ok(id) => id,
                Err(ie) => return Err(ident_error_to_kind(ie)),
            };
            let c = id.code();
            if args.len() == 0 {
                if c == KW_U32 {
                    Ok(TypeDescriptor::Scalar(ScalarKind::U32))
                } else if c == KW_I32 {
                    Ok(TypeDescriptor::Scalar(ScalarKind::I32))
                } else if c == KW_U64 {
                    Ok(TypeDescriptor::Scalar(ScalarKind::U64))
                } else if c == KW_I64 {
                    Ok(TypeDescriptor::Scalar(ScalarKind::I64))
                } else if c == KW_BOOL {
                    Ok(TypeDescriptor::Scalar(ScalarKind::Bool))
                } else if c == KW_SYMBOL {
                    Ok(TypeDescriptor::Scalar(ScalarKind::Symbol))
                } else if c == KW_BITSET {
                    Ok(TypeDescriptor::Scalar(ScalarKind::Bitset))
                } else if c == KW_STATUS {
                    Ok(TypeDescriptor::Scalar(ScalarKind::Status))
                } else if c == KW_BINARY {
                    Ok(TypeDescriptor::Scalar(ScalarKind::Binary))
                } else if c == KW_OPTION || c == KW_VEC || c == KW_SET || c == KW_MAP {
                    Err(ErrorKind::UnsupportedType)
                } else {
                    Ok(TypeDescriptor::UserDefined(id))
                }
            } else if args.len() == 1 && (c == KW_OPTION || c == KW_VEC || c == KW_SET) {
                let inner = match resolve(&args[0], fuel - 1) {
                    Ok(x) => x,
                    Err(k) => return Err(k),
                };
                if c == KW_OPTION {
                    Ok(TypeDescriptor::Optional(Box::new(inner)))
                } else if c == KW_VEC {
                    Ok(TypeDescriptor::Sequence(Box::new(inner)))
                } else {
                    Ok(TypeDescriptor::SetType(Box::new(inner)))
                }
            } else if args.len() == 2 && c == KW_MAP {
                let ghost s = args@;
                let ghost f = (fuel - 1) as nat;
                proof {
                    assert(s.subrange(0, 1).drop_last().len() == 0);
                    assert(s.subrange(0, 1).last() == s[0]);
                    assert(s.drop_last() =~= s.subrange(0, 1));
                    assert(s.last() == s[1]);
                    reveal_with_fuel(resolve_list_check, 2);
                    assert(resolve_list_check(s.subrange(0, 1), f) == resolve_check(s[0], f));
                }
                let k = match resolve(&args[0], fuel - 1) {
                    Ok(x) => x,
                    Err(k) => {
                        proof {
                            lemma_list_check_prefix_err(s, 1, f);
                        }
                        return Err(k);
                    },
                };
                proof {
                    assert(resolve_list_check(s, f) == resolve_check(s[1], f));
                }
                let v = match resolve(&args[1], fuel - 1) {
                    Ok(x) => x,
                    Err(k) => return Err(k),
                };
                Ok(TypeDescriptor::Mapping(Box::new(k), Box::new(v)))
            } else {
                Err(ErrorKind::UnsupportedType)
            }
        },
        TypeExpr::Tuple(elems) => {
            let ds = match resolve_list(elems, fuel - 1) {
                Ok(x) => x,
                Err(k) => return Err(k),
            };
            Ok(TypeDescriptor::Tuple(ds))
        },
    }
}

fn resolve_list(s: &Vec<TypeExpr>, fuel: usize) -> (r: Result<Vec<TypeDescriptor>, ErrorKind>)
    ensures
        match r {
            Ok(ds) => resolve_list_check(s@, fuel as nat) is Ok && describes_list(s@, ds@, fuel as nat),
            Err(k) => resolve_list_check(s@, fuel as nat) == Err::<(), ErrorKind>(k),
        },
    decreases fuel, 1nat,
{
    let mut out: Vec<TypeDescriptor> = Vec::new();
    let mut i: usize = 0;
    while i < s.len()
        invariant
            i <= s@.len(),
            resolve_list_check(s@.subrange(0, i as int), fuel as nat) is Ok,
            describes_list(s@.subrange(0, i as int), out@, fuel as nat),
        decreases s@.len() - i,
    {
        let ghost pre = s@.subrange(0, i as int);
        let ghost next = s@.subrange(0, i + 1);
        assert(next.drop_last() =~= pre);
        assert(next.last() == s@[i as int]);
        let d = match resolve(&s[i], fuel) {
            Ok(x) => x,
            Err(k) => {
                proof {
                    lemma_list_check_prefix_err(s@, i + 1, fuel as nat);
                }
                return Err(k);
            },
        };
        let ghost old_out = out@;
        out.push(d);
        assert(out@.drop_last() =~= old_out);
        i = i + 1;
    }
    assert(s@.subrange(0, i as int) =~= s@);
    Ok(out)
}

/// Resolves a type expression to its descriptor.
///
/// Scalar keywords map to scalars; `Option`, `Vec` and `Set` with one argument,
/// and `Map` with two, map to containers of the resolved arguments; a tuple maps
/// to a tuple of its resolved elements in order; any other name without
/// arguments is a reference to a user-defined type. A generic name with the
/// wrong number of arguments, or any other name with arguments, is
/// `UnsupportedType`; nesting deeper than `MAX_TYPE_DEPTH` is `NestingTooDeep`.
pub fn type_def_from_str(e: &TypeExpr) -> (r: Result<TypeDescriptor, ErrorKind>)
    ensures
        match r {
            Ok(d) => resolve_check(*e, MAX_TYPE_DEPTH as nat) is Ok && describes(*e, d, MAX_TYPE_DEPTH as nat),
            Err(k) => resolve_check(*e, MAX_TYPE_DEPTH as nat) == Err::<(), ErrorKind>(k),
        },
{
    resolve(e, MAX_TYPE_DEPTH)
}

/// The scalar kind that a packed keyword names, if any.
pub fn scalar_of_code(c: u64) -> (r: Option<ScalarKind>)
    ensures
        r == keyword_scalar(c as nat),
{
    if c == KW_U32 {
        Some(ScalarKind::U32)
    } else if c == KW_I32 {
        Some(ScalarKind::I32)
    } else if c == KW_U64 {
        Some(ScalarKind::U64)
    } else if c == KW_I64 {
        Some(ScalarKind::I64)
    } else if c == KW_BOOL {
        Some(ScalarKind::Bool)
    } else if c == KW_SYMBOL {
        Some(ScalarKind::Symbol)
    } else if c == KW_BITSET {
        Some(ScalarKind::Bitset)
    } else if c == KW_STATUS {
        Some(ScalarKind::Status)
    } else if c == KW_BINARY {
        Some(ScalarKind::Binary)
    } else {
        None
    }
}

} // verus!
