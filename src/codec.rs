//! Struct and union codecs: descriptors built from author definitions, and
//! encode/decode between native values and structural values.

use vstd::prelude::*;
use crate::ident::CompactIdentifier;
use crate::types::{ErrorKind, TypeDescriptor};
use crate::value::{SymbolMap, Val, conforms, lookup, put_entry, index_of, lemma_index_of_range};

verus! {

/// A resolved, visible field of a struct.
#[derive(Debug, PartialEq, Eq)]
pub struct FieldDescriptor {
    pub name: CompactIdentifier,
    pub ty: TypeDescriptor,
}

/// A struct member as the codec sees it: a visible field, or a hidden one
/// with the value that decoding gives it.
#[derive(Debug, PartialEq, Eq)]
pub enum Member {
    Visible(FieldDescriptor),
    Hidden(Val),
}

/// The descriptor and codec of a struct: its members in declaration order.
#[derive(Debug, PartialEq, Eq)]
pub struct StructCodec {
    pub name: CompactIdentifier,
    pub members: Vec<Member>,
}

/// Why a structural value does not decode.
#[derive(Clone, Copy, Debug, PartialEq, Eq, Structural)]
pub enum ConversionError {
    /// A visible field's key is not in the map.
    MissingField,
    /// A value does not have the shape of its declared type.
    WrongShape,
    /// A discriminant that names no case.
    UnknownDiscriminant,
}

/// Whether member `mb` can be decoded from map entries `m`.
pub open spec fn member_check(mb: Member, m: Seq<(u64, Val)>) -> Result<(), ConversionError> {
    match mb {
        Member::Visible(fd) => match lookup(m, fd.name.key()) {
            None => Err(ConversionError::MissingField),
            Some(v) => if conforms(v, fd.ty) {
                Ok(())
            } else {
                Err(ConversionError::WrongShape)
            },
        },
        Member::Hidden(_) => Ok(()),
    }
}

/// Whether all of `ms` decode from `m`; if not, the first member's failure.
pub open spec fn decode_check(ms: Seq<Member>, m: Seq<(u64, Val)>) -> Result<(), ConversionError>
    decreases ms.len(),
{
    if ms.len() == 0 {
        Ok(())
    } else {
        match decode_check(ms.drop_last(), m) {
            Err(e) => Err(e),
            Ok(_) => member_check(ms.last(), m),
        }
    }
}

/// The value that member `mb` decodes to from `m`.
pub open spec fn member_value(mb: Member, m: Seq<(u64, Val)>) -> Val {
    match mb {
        Member::Visible(fd) => match lookup(m, fd.name.key()) {
            Some(v) => v,
            None => Val::Void,
        },
        Member::Hidden(d) => d,
    }
}

/// The map entries that encoding `vs` gives: one per visible member, in order.
pub open spec fn encode_entries(ms: Seq<Member>, vs: Seq<Val>) -> Seq<(u64, Val)>
    decreases ms.len(),
{
    if ms.len() == 0 || vs.len() == 0 {
        Seq::empty()
    } else {
        let p = encode_entries(ms.drop_last(), vs.drop_last());
        match ms.last() {
            Member::Visible(fd) => put_entry(p, fd.name.key(), vs.last()),
            Member::Hidden(_) => p,
        }
    }
}

proof fn lemma_decode_check_prefix_err(ms: Seq<Member>, j: int, m: Seq<(u64, Val)>)
    requires
        0 <= j <= ms.len(),
        decode_check(ms.subrange(0, j), m) is Err,
    ensures
        decode_check(ms, m) == decode_check(ms.subrange(0, j), m),
    decreases ms.len(),
{
    if j < ms.len() {
        assert(ms.drop_last().subrange(0, j) =~= ms.subrange(0, j));
        lemma_decode_check_prefix_err(ms.drop_last(), j, m);
    } else {
        assert(ms.subrange(0, j) =~= ms);
    }
}

impl StructCodec {
    /// Encodes one value per member: an empty map, then one entry per visible
    /// member, keyed by its identifier, in declaration order.
    pub fn encode(&self, values: &Vec<Val>) -> (r: SymbolMap)
        requires
            values@.len() == self.members@.len(),
        ensures
            r@ == encode_entries(self.members@, values@),
    {
        let mut map = SymbolMap::new();
        let mut i: usize = 0;
        while i < self.members.len()
            invariant
                i <= self.members@.len() == values@.len(),
                map@ == encode_entries(self.members@.subrange(0, i as int), values@.subrange(0, i as int)),
            decreases self.members@.len() - i,
        {
            let ghost ms = self.members@.subrange(0, i + 1);
            let ghost vs = values@.subrange(0, i + 1);
            assert(ms.drop_last() =~= self.members@.subrange(0, i as int));
            assert(vs.drop_last() =~= values@.subrange(0, i as int));
            match &self.members[i] {
                Member::Visible(fd) => {
                    map.put(fd.name.code(), values[i]);
                },
                Member::Hidden(_) => {},
            }
            i = i + 1;
        }
        assert(self.members@.subrange(0, i as int) =~= self.members@);
        assert(values@.subrange(0, i as int) =~= values@);
        map
    }

    /// Decodes a map into one value per member: a visible member takes the
    /// value under its key, a hidden one its default. Fails, building nothing,
    /// if a key is missing or a value has the wrong shape.
    pub fn decode(&self, map: &SymbolMap) -> (r: Result<Vec<Val>, ConversionError>)
        ensures
            match r {
                Ok(vs) => decode_check(self.members@, map@) is Ok && vs@.len() == self.members@.len()
                    && forall|i: int| 0 <= i < vs@.len() ==> #[trigger] vs@[i] == member_value(self.members@[i], map@),
                Err(e) => decode_check(self.members@, map@) == Err::<(), ConversionError>(e),
            },
    {
        let mut i: usize = 0;
        while i < self.members.len()
            invariant
                i <= self.members@.len(),
                decode_check(self.members@.subrange(0, i as int), map@) is Ok,
            decreases self.members@.len() - i,
        {
            let ghost ms = self.members@.subrange(0, i + 1);
            assert(ms.drop_last() =~= self.members@.subrange(0, i as int));
            assert(ms.last() == self.members@[i as int]);
            match &self.members[i] {
                Member::Visible(fd) => {
                    match map.get(fd.name.code()) {
                        None => {
                            proof {
                                lemma_decode_check_prefix_err(self.members@, i + 1, map@);
                            }
                            return Err(ConversionError::MissingField);
                        },
                        Some(v) => {
                            if !crate::value::check_shape(v, &fd.ty) {
                                proof {
                                    lemma_decode_check_prefix_err(self.members@, i + 1, map@);
                                }
                                return Err(ConversionError::WrongShape);
                            }
                        },
                    }
                },
                Member::Hidden(_) => {},
            }
            i = i + 1;
        }
        assert(self.members@.subrange(0, i as int) =~= self.members@);
        let mut out: Vec<Val> = Vec::new();
        let mut j: usize = 0;
        while j < self.members.len()
            invariant
                j <= self.members@.len(),
                out@.len() == j,
                forall|k: int| 0 <= k < j ==> #[trigger] out@[k] == member_value(self.members@[k], map@),
            decreases self.members@.len() - j,
        {
            let v = match &self.members[j] {
                Member::Visible(fd) => match map.get(fd.name.code()) {
                    Some(v) => v,
                    None => Val::Void,
                },
                Member::Hidden(d) => *d,
            };
            out.push(v);
            j = j + 1;
        }
        Ok(out)
    }
}

/// The lookup key of a member: its identifier's code if it is visible.
pub open spec fn member_key(mb: Member) -> Option<u64> {
    match mb {
        Member::Visible(fd) => Some(fd.name.key()),
        Member::Hidden(_) => None,
    }
}

/// No two visible members share an identifier.
pub open spec fn keys_distinct(ms: Seq<Member>) -> bool {
    forall|a: int, b: int|
        0 <= a < b < ms.len() && (#[trigger] member_key(ms[a])) is Some ==> member_key(ms[a]) != #[trigger] member_key(ms[b])
}

/// One entry per visible member, keyed by its identifier, in declaration order.
pub open spec fn ordered_entries(ms: Seq<Member>, vs: Seq<Val>) -> Seq<(u64, Val)>
    decreases ms.len(),
{
    if ms.len() == 0 || vs.len() == 0 {
        Seq::empty()
    } else {
        let p = ordered_entries(ms.drop_last(), vs.drop_last());
        match ms.last() {
            Member::Visible(fd) => p.push((fd.name.key(), vs.last())),
            Member::Hidden(_) => p,
        }
    }
}

/// What decoding an encoded value gives back for a member: the value itself
/// for a visible member, the member's default for a hidden one.
pub open spec fn round_trip_value(mb: Member, v: Val) -> Val {
    match mb {
        Member::Visible(_) => v,
        Member::Hidden(d) => d,
    }
}

proof fn lemma_lookup_push(s: Seq<(u64, Val)>, k: u64, v: Val, q: u64)
    ensures
        lookup(s.push((k, v)), q) == if q == k { Some(v) } else { lookup(s, q) },
{
    assert(s.push((k, v)).drop_last() =~= s);
    lemma_index_of_range(s, q);
}

proof fn lemma_keys_distinct_prefix(ms: Seq<Member>)
    requires
        ms.len() > 0,
        keys_distinct(ms),
    ensures
        keys_distinct(ms.drop_last()),
{
    let p = ms.drop_last();
    assert forall|a: int, b: int|
        0 <= a < b < p.len() && (#[trigger] member_key(p[a])) is Some implies member_key(p[a]) != #[trigger] member_key(p[b]) by {
        assert(p[a] == ms[a] && p[b] == ms[b]);
    }
}

/// Every entry of the ordered entries belongs to a visible member.
pub proof fn lemma_ordered_entries_keys(ms: Seq<Member>, vs: Seq<Val>)
    requires
        ms.len() == vs.len(),
    ensures
        forall|j: int| 0 <= j < ordered_entries(ms, vs).len() ==> exists|i: int|
            0 <= i < ms.len() && #[trigger] member_key(ms[i]) == Some(#[trigger] ordered_entries(ms, vs)[j].0),
    decreases ms.len(),
{
    if ms.len() > 0 {
        let pm = ms.drop_last();
        let pv = vs.drop_last();
        lemma_ordered_entries_keys(pm, pv);
        let p = ordered_entries(pm, pv);
        let e = ordered_entries(ms, vs);
        assert forall|j: int| 0 <= j < e.len() implies exists|i: int|
            0 <= i < ms.len() && #[trigger] member_key(ms[i]) == Some(#[trigger] e[j].0) by {
            if j < p.len() {
                assert(e[j] == p[j]);
                let i = choose|i: int| 0 <= i < pm.len() && #[trigger] member_key(pm[i]) == Some(p[j].0);
                assert(ms[i] == pm[i]);
            } else {
                assert(member_key(ms[ms.len() - 1]) == Some(e[j].0));
            }
        }
    }
}

/// Encoding puts the visible members' entries in declaration order: with
/// distinct identifiers, the encoded map holds exactly one entry per visible
/// member, in the order the members are declared, and none for a hidden one.
pub proof fn lemma_encode_field_order(ms: Seq<Member>, vs: Seq<Val>)
    requires
        ms.len() == vs.len(),
        keys_distinct(ms),
    ensures
        encode_entries(ms, vs) == ordered_entries(ms, vs),
    decreases ms.len(),
{
    if ms.len() > 0 {
        let pm = ms.drop_last();
        let pv = vs.drop_last();
        lemma_keys_distinct_prefix(ms);
        lemma_encode_field_order(pm, pv);
        let p = ordered_entries(pm, pv);
        match ms.last() {
            Member::Visible(fd) => {
                let k = fd.name.key();
                lemma_ordered_entries_keys(pm, pv);
                lemma_index_of_range(p, k);
                if index_of(p, k) >= 0 {
                    let j = index_of(p, k);
                    let i = choose|i: int| 0 <= i < pm.len() && #[trigger] member_key(pm[i]) == Some(p[j].0);
                    assert(ms[i] == pm[i]);
                    assert(member_key(ms[ms.len() - 1]) == Some(k));
                    assert(false);
                }
            },
            Member::Hidden(_) => {},
        }
    }
}

proof fn lemma_ordered_lookup(ms: Seq<Member>, vs: Seq<Val>)
    requires
        ms.len() == vs.len(),
        keys_distinct(ms),
    ensures
        forall|i: int| 0 <= i < ms.len() && (#[trigger] member_key(ms[i])) is Some
            ==> lookup(ordered_entries(ms, vs), member_key(ms[i])->0) == Some(vs[i]),
    decreases ms.len(),
{
    if ms.len() > 0 {
        let pm = ms.drop_last();
        let pv = vs.drop_last();
        lemma_keys_distinct_prefix(ms);
        lemma_ordered_lookup(pm, pv);
        let p = ordered_entries(pm, pv);
        assert forall|i: int| 0 <= i < ms.len() && (#[trigger] member_key(ms[i])) is Some
            implies lookup(ordered_entries(ms, vs), member_key(ms[i])->0) == Some(vs[i]) by {
            let q = member_key(ms[i])->0;
            if i < ms.len() - 1 {
                assert(ms[i] == pm[i] && vs[i] == pv[i]);
                match ms.last() {
                    Member::Visible(fd) => {
                        assert(member_key(ms[ms.len() - 1]) == Some(fd.name.key()));
                        lemma_lookup_push(p, fd.name.key(), vs.last(), q);
                    },
                    Member::Hidden(_) => {},
                }
            } else {
                match ms.last() {
                    Member::Visible(fd) => {
                        lemma_lookup_push(p, fd.name.key(), vs.last(), q);
                    },
                    Member::Hidden(_) => {},
                }
            }
        }
    }
}

/// Decoding an encoded struct gives the values back: when the visible
/// identifiers are distinct and each visible value has its field's shape,
/// decoding succeeds, every visible member decodes to the value encoded for
/// it, and every hidden member decodes to its default.
pub proof fn lemma_struct_round_trip(c: StructCodec, vs: Seq<Val>)
    requires
        vs.len() == c.members@.len(),
        keys_distinct(c.members@),
        forall|i: int| 0 <= i < vs.len() ==> match #[trigger] c.members@[i] {
            Member::Visible(fd) => conforms(vs[i], fd.ty),
            Member::Hidden(_) => true,
        },
    ensures
        decode_check(c.members@, encode_entries(c.members@, vs)) is Ok,
        forall|i: int| 0 <= i < vs.len() ==> #[trigger] member_value(c.members@[i], encode_entries(c.members@, vs))
            == round_trip_value(c.members@[i], vs[i]),
{
    let ms = c.members@;
    lemma_encode_field_order(ms, vs);
    lemma_ordered_lookup(ms, vs);
    let e = encode_entries(ms, vs);
    assert forall|i: int| 0 <= i < vs.len() implies #[trigger] member_value(ms[i], e) == round_trip_value(ms[i], vs[i])
        && member_check(ms[i], e) is Ok by {
        match ms[i] {
            Member::Visible(fd) => {
                assert(member_key(ms[i]) == Some(fd.name.key()));
            },
            Member::Hidden(_) => {},
        }
    }
    assert forall|i: int| 0 <= i < ms.len() implies (#[trigger] member_check(ms[i], e)) is Ok by {
        assert(member_value(ms[i], e) == round_trip_value(ms[i], vs[i]));
    }
    lemma_decode_check_all(ms, e);
}

proof fn lemma_decode_check_all(ms: Seq<Member>, m: Seq<(u64, Val)>)
    requires
        forall|i: int| 0 <= i < ms.len() ==> (#[trigger] member_check(ms[i], m)) is Ok,
    ensures
        decode_check(ms, m) is Ok,
    decreases ms.len(),
{
    if ms.len() > 0 {
        let p = ms.drop_last();
        assert forall|i: int| 0 <= i < p.len() implies (#[trigger] member_check(p[i], m)) is Ok by {
            assert(p[i] == ms[i]);
        }
        lemma_decode_check_all(p, m);
        assert(member_check(ms[ms.len() - 1], m) is Ok);
    }
}

/// A case of a tagged union, with its payload type if it carries one.
#[derive(Debug, PartialEq, Eq)]
pub struct CaseDescriptor {
    pub name: CompactIdentifier,
    pub payload: Option<TypeDescriptor>,
}

/// The descriptor and codec of a tagged union: its cases in declaration order.
#[derive(Debug, PartialEq, Eq)]
pub struct EnumCodec {
    pub name: CompactIdentifier,
    pub cases: Vec<CaseDescriptor>,
}

/// A native union value: the index of its case and its payload (`Void` for a
/// case without one).
#[derive(Clone, Copy, Debug, PartialEq, Eq, Structural)]
pub struct EnumValue {
    pub case: usize,
    pub payload: Val,
}

/// The first declared case whose identifier has code `d`, or -1.
pub open spec fn first_case(cs: Seq<CaseDescriptor>, d: u64) -> int
    decreases cs.len(),
{
    if cs.len() == 0 {
        -1
    } else {
        let p = first_case(cs.drop_last(), d);
        if p >= 0 {
            p
        } else if cs.last().name.key() == d {
            cs.len() - 1
        } else {
            -1
        }
    }
}

/// What decoding the pair `(d, v)` gives.
pub open spec fn enum_decode(cs: Seq<CaseDescriptor>, d: u64, v: Val) -> Result<EnumValue, ConversionError> {
    let i = first_case(cs, d);
    if i < 0 {
        Err(ConversionError::UnknownDiscriminant)
    } else {
        match cs[i].payload {
            Some(t) => if conforms(v, t) {
                Ok(EnumValue { case: i as usize, payload: v })
            } else {
                Err(ConversionError::WrongShape)
            },
            None => Ok(EnumValue { case: i as usize, payload: Val::Void }),
        }
    }
}

/// The pair that encoding `v` gives.
pub open spec fn enum_encode(cs: Seq<CaseDescriptor>, v: EnumValue) -> (u64, Val) {
    (cs[v.case as int].name.key(), if cs[v.case as int].payload is Some { v.payload } else { Val::Void })
}

/// The first matching case is the least index whose identifier has code `d`.
pub proof fn lemma_first_case(cs: Seq<CaseDescriptor>, d: u64)
    ensures
        -1 <= first_case(cs, d) < cs.len(),
        first_case(cs, d) >= 0 ==> cs[first_case(cs, d)].name.key() == d,
        forall|g: int| 0 <= g < cs.len() && (#[trigger] cs[g]).name.key() == d ==> 0 <= first_case(cs, d) <= g,
    decreases cs.len(),
{
    if cs.len() > 0 {
        let p = cs.drop_last();
        lemma_first_case(p, d);
        assert forall|g: int| 0 <= g < cs.len() && (#[trigger] cs[g]).name.key() == d implies 0 <= first_case(cs, d) <= g by {
            if g < cs.len() - 1 {
                assert(cs[g] == p[g]);
            }
        }
        if first_case(p, d) >= 0 {
            assert(cs[first_case(p, d)] == p[first_case(p, d)]);
        }
    }
}

proof fn lemma_first_case_prefix(cs: Seq<CaseDescriptor>, j: int, d: u64)
    requires
        0 <= j <= cs.len(),
        first_case(cs.subrange(0, j), d) >= 0,
    ensures
        first_case(cs, d) == first_case(cs.subrange(0, j), d),
    decreases cs.len(),
{
    if j < cs.len() {
        assert(cs.drop_last().subrange(0, j) =~= cs.subrange(0, j));
        lemma_first_case_prefix(cs.drop_last(), j, d);
    } else {
        assert(cs.subrange(0, j) =~= cs);
    }
}

impl EnumCodec {
    /// Encodes a union value as its case's identifier paired with the payload,
    /// or with `Void` for a case without one.
    pub fn encode(&self, v: EnumValue) -> (r: (u64, Val))
        requires
            v.case < self.cases@.len(),
        ensures
            r == enum_encode(self.cases@, v),
    {
        let c = &self.cases[v.case];
        let payload = match &c.payload {
            Some(_) => v.payload,
            None => Val::Void,
        };
        (c.name.code(), payload)
    }

    /// Decodes a discriminant and value: the first declared case whose
    /// identifier matches wins; its payload, if it has one, must have the
    /// payload type's shape.
    pub fn decode(&self, d: u64, v: Val) -> (r: Result<EnumValue, ConversionError>)
        ensures
            r == enum_decode(self.cases@, d, v),
    {
        let mut i: usize = 0;
        while i < self.cases.len()
            invariant
                i <= self.cases@.len(),
                first_case(self.cases@.subrange(0, i as int), d) == -1,
            decreases self.cases@.len() - i,
        {
            let ghost sub = self.cases@.subrange(0, i + 1);
            assert(sub.drop_last() =~= self.cases@.subrange(0, i as int));
            if self.cases[i].name.code() == d {
                proof {
                    lemma_first_case_prefix(self.cases@, i + 1, d);
                }
                return match &self.cases[i].payload {
                    Some(t) => if crate::value::check_shape(v, t) {
                        Ok(EnumValue { case: i, payload: v })
                    } else {
                        Err(ConversionError::WrongShape)
                    },
                    None => Ok(EnumValue { case: i, payload: Val::Void }),
                };
            }
            i = i + 1;
        }
        assert(self.cases@.subrange(0, i as int) =~= self.cases@);
        Err(ConversionError::UnknownDiscriminant)
    }
}

/// No two cases share an identifier.
pub open spec fn cases_distinct(cs: Seq<CaseDescriptor>) -> bool {
    forall|a: int, b: int| 0 <= a < b < cs.len() ==> (#[trigger] cs[a]).name.key() != (#[trigger] cs[b]).name.key()
}

/// The value a union value has after a trip through its encoding: a case
/// without a payload carries `Void`.
pub open spec fn enum_round_trip_value(cs: Seq<CaseDescriptor>, v: EnumValue) -> EnumValue {
    EnumValue { case: v.case, payload: if cs[v.case as int].payload is Some { v.payload } else { Val::Void } }
}

/// Decoding an encoded union value gives it back: when the cases'
/// identifiers are distinct and a payload has its case's payload shape.
pub proof fn lemma_enum_round_trip(c: EnumCodec, v: EnumValue)
    requires
        v.case < c.cases@.len(),
        cases_distinct(c.cases@),
        match c.cases@[v.case as int].payload {
            Some(t) => conforms(v.payload, t),
            None => true,
        },
    ensures
        enum_decode(c.cases@, enum_encode(c.cases@, v).0, enum_encode(c.cases@, v).1)
            == Ok::<EnumValue, ConversionError>(enum_round_trip_value(c.cases@, v)),
{
    let cs = c.cases@;
    let i = v.case as int;
    lemma_first_case(cs, cs[i].name.key());
    let f = first_case(cs, cs[i].name.key());
    if f != i {
        assert(cs[f].name.key() == cs[i].name.key());
    }
}

/// Under a name collision the first declared case wins: when cases `i < j`
/// share an identifier, decoding that identifier never yields case `j` nor
/// anything after case `i`.
pub proof fn lemma_first_declared_wins(cs: Seq<CaseDescriptor>, i: int, j: int, v: Val)
    requires
        0 <= i < j < cs.len(),
        cs[i].name.key() == cs[j].name.key(),
    ensures
        match enum_decode(cs, cs[j].name.key(), v) {
            Ok(ev) => ev.case <= i,
            Err(e) => e == ConversionError::WrongShape,
        },
{
    lemma_first_case(cs, cs[j].name.key());
}

/// A hidden member never shows in an encoded map: with distinct identifiers,
/// every key of the encoded entries is the key of a visible member.
pub proof fn lemma_encoded_keys_are_visible(ms: Seq<Member>, vs: Seq<Val>)
    requires
        ms.len() == vs.len(),
        keys_distinct(ms),
    ensures
        forall|j: int| 0 <= j < encode_entries(ms, vs).len() ==> exists|i: int|
            0 <= i < ms.len() && #[trigger] member_key(ms[i]) == Some(#[trigger] encode_entries(ms, vs)[j].0),
{
    lemma_encode_field_order(ms, vs);
    lemma_ordered_entries_keys(ms, vs);
    let e = encode_entries(ms, vs);
    assert forall|j: int| 0 <= j < e.len() implies exists|i: int|
        0 <= i < ms.len() && #[trigger] member_key(ms[i]) == Some(#[trigger] e[j].0) by {
        let o = ordered_entries(ms, vs);
        assert(e[j] == o[j]);
        assert(exists|i: int| 0 <= i < ms.len() && #[trigger] member_key(ms[i]) == Some(#[trigger] o[j].0));
        let i = choose|i: int| 0 <= i < ms.len() && #[trigger] member_key(ms[i]) == Some(o[j].0);
        assert(member_key(ms[i]) == Some(e[j].0));
    }
}

} // verus!
