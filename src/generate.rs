//! Building struct and union codecs from author definitions. Every member is
//! inspected, and all errors are reported together.

use vstd::prelude::*;
use crate::codec::{CaseDescriptor, EnumCodec, FieldDescriptor, Member, StructCodec};
use crate::ident::{CompactIdentifier, ident_check, pack};
use crate::types::{
    ErrorKind, MAX_TYPE_DEPTH, ScalarKind, TypeDescriptor, TypeExpr, describes, ident_error_kind,
    ident_error_to_kind, keyword_scalar, resolve_check, scalar_of_code, type_def_from_str,
};
use crate::value::{Val, default_of, default_val};

verus! {

/// A field as declared by the author.
#[derive(Debug, PartialEq, Eq)]
pub struct FieldDef {
    /// The field's name; `None` for a positional field.
    pub name: Option<Vec<u8>>,
    pub ty: TypeExpr,
    /// Whether the field is externally visible.
    pub visible: bool,
}

/// A union case as declared by the author, with its payload fields.
#[derive(Debug, PartialEq, Eq)]
pub struct CaseDef {
    pub name: Vec<u8>,
    pub fields: Vec<TypeExpr>,
}

/// Where a generation error comes from.
#[derive(Clone, Copy, Debug, PartialEq, Eq, Structural)]
pub enum ErrorOrigin {
    /// The type's own name.
    TypeName,
    /// The member (field or case) at this declaration index.
    Member(usize),
}

#[derive(Clone, Copy, Debug, PartialEq, Eq, Structural)]
pub struct GenerationError {
    pub kind: ErrorKind,
    pub origin: ErrorOrigin,
}

/// The decimal digits of `n`, the name of a positional field.
pub open spec fn decimal(n: nat) -> Seq<u8>
    decreases n,
{
    if n < 10 {
        seq![(48 + n) as u8]
    } else {
        decimal(n / 10).push((48 + n % 10) as u8)
    }
}

fn decimal_name(n: usize) -> (r: Vec<u8>)
    ensures
        r@ == decimal(n as nat),
    decreases n,
{
    if n < 10 {
        let mut v: Vec<u8> = Vec::new();
        v.push((48 + n) as u8);
        assert(v@ =~= seq![(48 + n) as u8]);
        v
    } else {
        let mut v = decimal_name(n / 10);
        v.push((48 + n % 10) as u8);
        v
    }
}

/// The number of visible fields in `fs`.
pub open spec fn visible_count(fs: Seq<FieldDef>) -> nat
    decreases fs.len(),
{
    if fs.len() == 0 {
        0
    } else {
        visible_count(fs.drop_last()) + if fs.last().visible { 1nat } else { 0nat }
    }
}

/// The name of a visible field: its own, or its position among the visible fields.
pub open spec fn field_name(f: FieldDef, ordinal: nat) -> Seq<u8> {
    match f.name {
        Some(n) => n@,
        None => decimal(ordinal),
    }
}

/// The error, if any, of a name that must be an identifier.
pub open spec fn name_errors(name: Seq<u8>, origin: ErrorOrigin) -> Seq<GenerationError> {
    match ident_check(name) {
        Err(e) => seq![GenerationError { kind: ident_error_kind(e), origin }],
        Ok(_) => Seq::empty(),
    }
}

/// The error, if any, of a type expression that must resolve.
pub open spec fn type_errors(e: TypeExpr, origin: ErrorOrigin) -> Seq<GenerationError> {
    match resolve_check(e, MAX_TYPE_DEPTH as nat) {
        Err(k) => seq![GenerationError { kind: k, origin }],
        Ok(_) => Seq::empty(),
    }
}

/// The errors of field `i`: none if it is hidden; else its name's, then its type's.
pub open spec fn field_errors(f: FieldDef, i: nat, ordinal: nat) -> Seq<GenerationError> {
    if f.visible {
        name_errors(field_name(f, ordinal), ErrorOrigin::Member(i as usize))
            + type_errors(f.ty, ErrorOrigin::Member(i as usize))
    } else {
        Seq::empty()
    }
}

/// The errors of all fields, in declaration order.
pub open spec fn fields_errors(fs: Seq<FieldDef>) -> Seq<GenerationError>
    decreases fs.len(),
{
    if fs.len() == 0 {
        Seq::empty()
    } else {
        fields_errors(fs.drop_last()) + field_errors(fs.last(), (fs.len() - 1) as nat, visible_count(fs.drop_last()))
    }
}

/// All errors of a struct definition: its name's, then its fields'.
pub open spec fn struct_errors(name: Seq<u8>, fs: Seq<FieldDef>) -> Seq<GenerationError> {
    name_errors(name, ErrorOrigin::TypeName) + fields_errors(fs)
}

/// The default value of a hidden field of type `e`.
pub open spec fn default_of_expr(e: TypeExpr) -> Val {
    match e {
        TypeExpr::Path { name, args } => {
            if args@.len() == 0 && ident_check(name@) is Ok {
                match keyword_scalar(pack(name@)) {
                    Some(k) => default_of(TypeDescriptor::Scalar(k)),
                    None => Val::Void,
                }
            } else {
                Val::Void
            }
        },
        _ => Val::Void,
    }
}

fn hidden_default(e: &TypeExpr) -> (r: Val)
    ensures
        r == default_of_expr(*e),
{
    match e {
        TypeExpr::Path { name, args } => {
            if args.len() == 0 {
                match CompactIdentifier::new(name) {
                    Ok(id) => match scalar_of_code(id.code()) {
                        Some(k) => default_val(&TypeDescriptor::Scalar(k)),
                        None => Val::Void,
                    },
                    Err(_) => Val::Void,
                }
            } else {
                Val::Void
            }
        },
        _ => Val::Void,
    }
}

/// Member `m` is what field `f` generates.
pub open spec fn member_of(f: FieldDef, m: Member, ordinal: nat) -> bool {
    if f.visible {
        match m {
            Member::Visible(fd) => fd.name@ == field_name(f, ordinal) && describes(f.ty, fd.ty, MAX_TYPE_DEPTH as nat),
            Member::Hidden(_) => false,
        }
    } else {
        m == Member::Hidden(default_of_expr(f.ty))
    }
}

fn name_error(name: &Vec<u8>, origin: ErrorOrigin, errors: &mut Vec<GenerationError>) -> (r: Option<CompactIdentifier>)
    ensures
        final(errors)@ == old(errors)@ + name_errors(name@, origin),
        match r {
            Some(id) => ident_check(name@) is Ok && id@ == name@,
            None => ident_check(name@) is Err,
        },
{
    match CompactIdentifier::new(name) {
        Ok(id) => {
            assert(old(errors)@ + name_errors(name@, origin) =~= old(errors)@);
            Some(id)
        },
        Err(e) => {
            errors.push(GenerationError { kind: ident_error_to_kind(e), origin });
            None
        },
    }
}

fn type_error(e: &TypeExpr, origin: ErrorOrigin, errors: &mut Vec<GenerationError>) -> (r: Option<TypeDescriptor>)
    ensures
        final(errors)@ == old(errors)@ + type_errors(*e, origin),
        match r {
            Some(d) => resolve_check(*e, MAX_TYPE_DEPTH as nat) is Ok && describes(*e, d, MAX_TYPE_DEPTH as nat),
            None => resolve_check(*e, MAX_TYPE_DEPTH as nat) is Err,
        },
{
    match type_def_from_str(e) {
        Ok(d) => {
            assert(old(errors)@ + type_errors(*e, origin) =~= old(errors)@);
            Some(d)
        },
        Err(k) => {
            errors.push(GenerationError { kind: k, origin });
            None
        },
    }
}

/// Builds the codec of a struct named `name` with fields `fields`.
///
/// Only visible fields take part: each is named by its own name, or by its
/// position among the visible fields, and its type is resolved. Every field is
/// inspected; if any name or type fails, all the errors are returned together,
/// in declaration order, after the type name's own.
pub fn derive_type_struct(name: &Vec<u8>, fields: &Vec<FieldDef>) -> (r: Result<StructCodec, Vec<GenerationError>>)
    ensures
        match r {
            Ok(c) => struct_errors(name@, fields@).len() == 0 && c.name@ == name@
                && c.members@.len() == fields@.len()
                && forall|i: int| 0 <= i < fields@.len() ==> member_of(
                    #[trigger] fields@[i],
                    c.members@[i],
                    visible_count(fields@.subrange(0, i)),
                ),
            Err(es) => es@ == struct_errors(name@, fields@) && es@.len() > 0,
        },
{
    let mut errors: Vec<GenerationError> = Vec::new();
    let own_name = name_error(name, ErrorOrigin::TypeName, &mut errors);
    let ghost name_errs = errors@;
    assert(name_errs =~= name_errors(name@, ErrorOrigin::TypeName));
    let mut members: Vec<Member> = Vec::new();
    let mut ordinal: usize = 0;
    let mut i: usize = 0;
    while i < fields.len()
        invariant
            i <= fields@.len(),
            ordinal == visible_count(fields@.subrange(0, i as int)),
            ordinal <= i,
            errors@ == name_errs + fields_errors(fields@.subrange(0, i as int)),
            fields_errors(fields@.subrange(0, i as int)).len() == 0 ==> (members@.len() == i
                && forall|k: int| 0 <= k < i ==> member_of(
                    #[trigger] fields@[k],
                    members@[k],
                    visible_count(fields@.subrange(0, k)),
                )),
        decreases fields@.len() - i,
    {
        let ghost pre = fields@.subrange(0, i as int);
        let ghost next = fields@.subrange(0, i + 1);
        assert(next.drop_last() =~= pre);
        assert(next.last() == fields@[i as int]);
        let ghost errs_before = errors@;
        let f = &fields[i];
        if f.visible {
            let fname = match &f.name {
                Some(n) => n.clone(),
                None => decimal_name(ordinal),
            };
            let id = name_error(&fname, ErrorOrigin::Member(i), &mut errors);
            let ty = type_error(&f.ty, ErrorOrigin::Member(i), &mut errors);
            assert(errors@ =~= name_errs + fields_errors(next));
            match (id, ty) {
                (Some(id), Some(ty)) => {
                    members.push(Member::Visible(FieldDescriptor { name: id, ty }));
                },
                _ => {},
            }
            ordinal = ordinal + 1;
        } else {
            assert(errors@ =~= name_errs + fields_errors(next));
            members.push(Member::Hidden(hidden_default(&f.ty)));
        }
        proof {
            if fields_errors(next).len() == 0 {
                assert forall|k: int| 0 <= k < i + 1 implies member_of(
                    #[trigger] fields@[k],
                    members@[k],
                    visible_count(fields@.subrange(0, k)),
                ) by {
                    if k == i {
                        assert(fields@.subrange(0, k) =~= pre);
                    }
                }
            }
        }
        i = i + 1;
    }
    assert(fields@.subrange(0, i as int) =~= fields@);
    match own_name {
        Some(id) => {
            if errors.len() == 0 {
                Ok(StructCodec { name: id, members })
            } else {
                Err(errors)
            }
        },
        None => Err(errors),
    }
}

/// The errors of case `i`: its name's, then its payload's: more than one
/// payload field is an unsupported shape, one must resolve.
pub open spec fn case_errors(c: CaseDef, i: nat) -> Seq<GenerationError> {
    name_errors(c.name@, ErrorOrigin::Member(i as usize)) + if c.fields@.len() > 1 {
        seq![GenerationError { kind: ErrorKind::UnsupportedVariantShape, origin: ErrorOrigin::Member(i as usize) }]
    } else if c.fields@.len() == 1 {
        type_errors(c.fields@[0], ErrorOrigin::Member(i as usize))
    } else {
        Seq::empty()
    }
}

/// The errors of all cases, in declaration order.
pub open spec fn cases_errors(cs: Seq<CaseDef>) -> Seq<GenerationError>
    decreases cs.len(),
{
    if cs.len() == 0 {
        Seq::empty()
    } else {
        cases_errors(cs.drop_last()) + case_errors(cs.last(), (cs.len() - 1) as nat)
    }
}

/// All errors of a union definition: its name's, then its cases'.
pub open spec fn enum_errors(name: Seq<u8>, cs: Seq<CaseDef>) -> Seq<GenerationError> {
    name_errors(name, ErrorOrigin::TypeName) + cases_errors(cs)
}

/// Case descriptor `d` is what case `c` generates.
pub open spec fn case_of(c: CaseDef, d: CaseDescriptor) -> bool {
    d.name@ == c.name@ && match d.payload {
        None => c.fields@.len() == 0,
        Some(t) => c.fields@.len() == 1 && describes(c.fields@[0], t, MAX_TYPE_DEPTH as nat),
    }
}

/// Builds the codec of a tagged union named `name` with cases `cases`.
///
/// Each case is named by its identifier, which is also its discriminant, and
/// its payload type, if it has one, is resolved; a case with more than one
/// payload field is `UnsupportedVariantShape`. Every case is inspected; if any
/// fails, all the errors are returned together, after the type name's own.
pub fn derive_type_enum(name: &Vec<u8>, cases: &Vec<CaseDef>) -> (r: Result<EnumCodec, Vec<GenerationError>>)
    ensures
        match r {
            Ok(c) => enum_errors(name@, cases@).len() == 0 && c.name@ == name@
                && c.cases@.len() == cases@.len()
                && forall|i: int| 0 <= i < cases@.len() ==> case_of(#[trigger] cases@[i], c.cases@[i]),
            Err(es) => es@ == enum_errors(name@, cases@) && es@.len() > 0,
        },
{
    let mut errors: Vec<GenerationError> = Vec::new();
    let own_name = name_error(name, ErrorOrigin::TypeName, &mut errors);
    let ghost name_errs = errors@;
    assert(name_errs =~= name_errors(name@, ErrorOrigin::TypeName));
    let mut out: Vec<CaseDescriptor> = Vec::new();
    let mut i: usize = 0;
    while i < cases.len()
        invariant
            i <= cases@.len(),
            errors@ == name_errs + cases_errors(cases@.subrange(0, i as int)),
            cases_errors(cases@.subrange(0, i as int)).len() == 0 ==> (out@.len() == i
                && forall|k: int| 0 <= k < i ==> case_of(#[trigger] cases@[k], out@[k])),
        decreases cases@.len() - i,
    {
        let ghost pre = cases@.subrange(0, i as int);
        let ghost next = cases@.subrange(0, i + 1);
        assert(next.drop_last() =~= pre);
        assert(next.last() == cases@[i as int]);
        let c = &cases[i];
        let id = name_error(&c.name, ErrorOrigin::Member(i), &mut errors);
        let payload: Option<Option<TypeDescriptor>> = if c.fields.len() > 1 {
            errors.push(GenerationError { kind: ErrorKind::UnsupportedVariantShape, origin: ErrorOrigin::Member(i) });
            None
        } else if c.fields.len() == 1 {
            match type_error(&c.fields[0], ErrorOrigin::Member(i), &mut errors) {
                Some(t) => Some(Some(t)),
                None => None,
            }
        } else {
            Some(None)
        };
        assert(errors@ =~= name_errs + cases_errors(next));
        match (id, payload) {
            (Some(id), Some(payload)) => {
                out.push(CaseDescriptor { name: id, payload });
            },
            _ => {},
        }
        i = i + 1;
    }
    assert(cases@.subrange(0, i as int) =~= cases@);
    match own_name {
        Some(id) => {
            if errors.len() == 0 {
                Ok(EnumCodec { name: id, cases: out })
            } else {
                Err(errors)
            }
        },
        None => Err(errors),
    }
}

proof fn lemma_fields_errors_include(fs: Seq<FieldDef>, i: int, e: GenerationError)
    requires
        0 <= i < fs.len(),
        field_errors(fs[i], i as nat, visible_count(fs.subrange(0, i))).contains(e),
    ensures
        fields_errors(fs).contains(e),
    decreases fs.len(),
{
    let p = fs.drop_last();
    let tail = field_errors(fs.last(), (fs.len() - 1) as nat, visible_count(p));
    if i == fs.len() - 1 {
        assert(fs.subrange(0, i) =~= p);
        let k = choose|k: int| 0 <= k < tail.len() && tail[k] == e;
        assert((fields_errors(p) + tail)[fields_errors(p).len() + k] == e);
    } else {
        assert(p.subrange(0, i) =~= fs.subrange(0, i));
        assert(p[i] == fs[i]);
        lemma_fields_errors_include(p, i, e);
        let k = choose|k: int| 0 <= k < fields_errors(p).len() && fields_errors(p)[k] == e;
        assert((fields_errors(p) + tail)[k] == e);
    }
}

/// A visible field whose name is one byte longer than `MAX_IDENT_LEN` makes
/// generation fail with `IdentifierTooLong` for that field.
pub proof fn lemma_field_name_too_long(name: Seq<u8>, fs: Seq<FieldDef>, i: int)
    requires
        0 <= i < fs.len(),
        fs[i].visible,
        fs[i].name is Some,
        fs[i].name->0@.len() == crate::ident::MAX_IDENT_LEN + 1,
    ensures
        struct_errors(name, fs).contains(
            GenerationError { kind: ErrorKind::IdentifierTooLong, origin: ErrorOrigin::Member(i as usize) },
        ),
{
    let e = GenerationError { kind: ErrorKind::IdentifierTooLong, origin: ErrorOrigin::Member(i as usize) };
    let fe = field_errors(fs[i], i as nat, visible_count(fs.subrange(0, i)));
    assert(fe[0] == e);
    lemma_fields_errors_include(fs, i, e);
    let ne = name_errors(name, ErrorOrigin::TypeName);
    let k = choose|k: int| 0 <= k < fields_errors(fs).len() && fields_errors(fs)[k] == e;
    assert((ne + fields_errors(fs))[ne.len() + k] == e);
}

} // verus!
