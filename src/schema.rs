//! Canonical schema bytes: every word is a big-endian `u32`, a name is its
//! length followed by its bytes padded with zeros to a multiple of four, and a
//! list is its length followed by its items.

use vstd::prelude::*;
use crate::codec::{CaseDescriptor, EnumCodec, Member, StructCodec};
use crate::ident::CompactIdentifier;
use crate::types::{MAX_TYPE_DEPTH, ScalarKind, TypeDescriptor};

verus! {

/// The envelope's format version.
pub const SCHEMA_VERSION: u32 = 0;
/// Entry kind of a struct.
pub const ENTRY_STRUCT: u32 = 0;
/// Entry kind of a tagged union.
pub const ENTRY_UNION: u32 = 1;
pub const TAG_OPTIONAL: u32 = 1000;
pub const TAG_SEQUENCE: u32 = 1001;
pub const TAG_SET: u32 = 1002;
pub const TAG_MAPPING: u32 = 1003;
pub const TAG_TUPLE: u32 = 1004;
pub const TAG_USER_DEFINED: u32 = 2000;

/// A list too long for its length word, or types nested deeper than `MAX_TYPE_DEPTH`.
#[derive(Clone, Copy, Debug, PartialEq, Eq, Structural)]
pub struct SchemaEncodingError;

pub open spec fn scalar_tag(k: ScalarKind) -> u32 {
    match k {
        ScalarKind::U32 => 1,
        ScalarKind::I32 => 2,
        ScalarKind::U64 => 3,
        ScalarKind::I64 => 4,
        ScalarKind::Bool => 5,
        ScalarKind::Symbol => 6,
        ScalarKind::Bitset => 7,
        ScalarKind::Status => 8,
        ScalarKind::Binary => 9,
    }
}

/// `n` as four big-endian bytes.
pub open spec fn word(n: u32) -> Seq<u8> {
    seq![(n / 0x1000000) as u8, (n / 0x10000 % 0x100) as u8, (n / 0x100 % 0x100) as u8, (n % 0x100) as u8]
}

/// The zero bytes that pad `n` bytes to a multiple of four.
pub open spec fn padding(n: nat) -> Seq<u8> {
    Seq::new(((4 - n % 4) % 4) as nat, |i: int| 0u8)
}

/// A name: its length, its bytes, then padding.
pub open spec fn name_bytes(s: Seq<u8>) -> Seq<u8> {
    word(s.len() as u32) + s + padding(s.len())
}

/// The bytes of type `t`, or `None` if it cannot be encoded within `fuel` levels.
pub open spec fn type_bytes(t: TypeDescriptor, fuel: nat) -> Option<Seq<u8>>
    decreases fuel, 0nat,
{
    if fuel == 0 {
        None
    } else {
        let f = (fuel - 1) as nat;
        match t {
            TypeDescriptor::Scalar(k) => Some(word(scalar_tag(k))),
            TypeDescriptor::UserDefined(id) => Some(word(TAG_USER_DEFINED) + name_bytes(id@)),
            TypeDescriptor::Optional(i) => match type_bytes(*i, f) {
                Some(b) => Some(word(TAG_OPTIONAL) + b),
                None => None,
            },
            TypeDescriptor::Sequence(i) => match type_bytes(*i, f) {
                Some(b) => Some(word(TAG_SEQUENCE) + b),
                None => None,
            },
            TypeDescriptor::SetType(i) => match type_bytes(*i, f) {
                Some(b) => Some(word(TAG_SET) + b),
                None => None,
            },
            TypeDescriptor::Mapping(k, v) => match (type_bytes(*k, f), type_bytes(*v, f)) {
                (Some(a), Some(b)) => Some(word(TAG_MAPPING) + a + b),
                _ => None,
            },
            TypeDescriptor::Tuple(es) => if es@.len() > u32::MAX {
                None
            } else {
                match list_bytes(es@, f) {
                    Some(b) => Some(word(TAG_TUPLE) + word(es@.len() as u32) + b),
                    None => None,
                }
            },
        }
    }
}

/// The bytes of each type of `s` in order.
pub open spec fn list_bytes(s: Seq<TypeDescriptor>, fuel: nat) -> Option<Seq<u8>>
    decreases fuel, s.len(),
{
    if s.len() == 0 {
        Some(Seq::empty())
    } else {
        match (list_bytes(s.drop_last(), fuel), type_bytes(s.last(), fuel)) {
            (Some(a), Some(b)) => Some(a + b),
            _ => None,
        }
    }
}

fn put_word(out: &mut Vec<u8>, n: u32)
    ensures
        final(out)@ == old(out)@ + word(n),
{
    out.push((n / 0x1000000) as u8);
    out.push((n / 0x10000 % 0x100) as u8);
    out.push((n / 0x100 % 0x100) as u8);
    out.push((n % 0x100) as u8);
    assert(final(out)@ =~= old(out)@ + word(n));
}

fn put_name(out: &mut Vec<u8>, s: &Vec<u8>)
    requires
        s@.len() <= u32::MAX,
    ensures
        final(out)@ == old(out)@ + name_bytes(s@),
{
    put_word(out, s.len() as u32);
    let ghost mid = out@;
    let mut i: usize = 0;
    while i < s.len()
        invariant
            i <= s@.len(),
            out@ == mid + s@.subrange(0, i as int),
        decreases s@.len() - i,
    {
        out.push(s[i]);
        i = i + 1;
        assert(out@ =~= mid + s@.subrange(0, i as int));
    }
    let ghost body = out@;
    let pad: usize = (4 - s.len() % 4) % 4;
    let mut j: usize = 0;
    while j < pad
        invariant
            j <= pad,
            out@ == body + Seq::new(j as nat, |k: int| 0u8),
        decreases pad - j,
    {
        out.push(0u8);
        j = j + 1;
        assert(out@ =~= body + Seq::new(j as nat, |k: int| 0u8));
    }
    assert(s@.subrange(0, s@.len() as int) =~= s@);
    assert(final(out)@ =~= old(out)@ + name_bytes(s@));
}

fn scalar_tag_of(k: ScalarKind) -> (r: u32)
    ensures
        r == scalar_tag(k),
{
    match k {
        ScalarKind::U32 => 1,
        ScalarKind::I32 => 2,
        ScalarKind::U64 => 3,
        ScalarKind::I64 => 4,
        ScalarKind::Bool => 5,
        ScalarKind::Symbol => 6,
        ScalarKind::Bitset => 7,
        ScalarKind::Status => 8,
        ScalarKind::Binary => 9,
    }
}

fn write_type(t: &TypeDescriptor, fuel: usize, out: &mut Vec<u8>) -> (ok: bool)
    ensures
        ok == type_bytes(*t, fuel as nat) is Some,
        ok ==> final(out)@ == old(out)@ + type_bytes(*t, fuel as nat)->0,
    decreases fuel, 0nat,
{
    if fuel == 0 {
        return false;
    }
    match t {
        TypeDescriptor::Scalar(k) => {
            put_word(out, scalar_tag_of(*k));
            true
        },
        TypeDescriptor::UserDefined(id) => {
            put_word(out, TAG_USER_DEFINED);
            put_name(out, id.name());
            assert(out@ =~= old(out)@ + (word(TAG_USER_DEFINED) + name_bytes(id@)));
            true
        },
        TypeDescriptor::Optional(i) => {
            put_word(out, TAG_OPTIONAL);
            let ok = write_type(i, fuel - 1, out);
            assert(ok ==> out@ =~= old(out)@ + type_bytes(*t, fuel as nat)->0);
            ok
        },
        TypeDescriptor::Sequence(i) => {
            put_word(out, TAG_SEQUENCE);
            let ok = write_type(i, fuel - 1, out);
            assert(ok ==> out@ =~= old(out)@ + type_bytes(*t, fuel as nat)->0);
            ok
        },
        TypeDescriptor::SetType(i) => {
            put_word(out, TAG_SET);
            let ok = write_type(i, fuel - 1, out);
            assert(ok ==> out@ =~= old(out)@ + type_bytes(*t, fuel as nat)->0);
            ok
        },
        TypeDescriptor::Mapping(k, v) => {
            put_word(out, TAG_MAPPING);
            let ok1 = write_type(k, fuel - 1, out);
            if !ok1 {
                return false;
            }
            let ok2 = write_type(v, fuel - 1, out);
            assert(ok2 ==> out@ =~= old(out)@ + type_bytes(*t, fuel as nat)->0);
            ok2
        },
        TypeDescriptor::Tuple(es) => {
            if es.len() > 0xffff_ffff {
                return false;
            }
            put_word(out, TAG_TUPLE);
            put_word(out, es.len() as u32);
            let ok = write_list(es, fuel - 1, out);
            assert(ok ==> out@ =~= old(out)@ + type_bytes(*t, fuel as nat)->0);
            ok
        },
    }
}

fn write_list(s: &Vec<TypeDescriptor>, fuel: usize, out: &mut Vec<u8>) -> (ok: bool)
    ensures
        ok == list_bytes(s@, fuel as nat) is Some,
        ok ==> final(out)@ == old(out)@ + list_bytes(s@, fuel as nat)->0,
    decreases fuel, 1nat,
{
    let mut i: usize = 0;
    while i < s.len()
        invariant
            i <= s@.len(),
            list_bytes(s@.subrange(0, i as int), fuel as nat) is Some,
            out@ == old(out)@ + list_bytes(s@.subrange(0, i as int), fuel as nat)->0,
        decreases s@.len() - i,
    {
        let ghost pre = s@.subrange(0, i as int);
        let ghost next = s@.subrange(0, i + 1);
        assert(next.drop_last() =~= pre);
        assert(next.last() == s@[i as int]);
        let ghost before = out@;
        let ok = write_type(&s[i], fuel, out);
        if !ok {
            proof {
                lemma_list_bytes_prefix_none(s@, i + 1, fuel as nat);
            }
            return false;
        }
        assert(out@ =~= old(out)@ + list_bytes(next, fuel as nat)->0);
        i = i + 1;
    }
    assert(s@.subrange(0, i as int) =~= s@);
    true
}

proof fn lemma_list_bytes_prefix_none(s: Seq<TypeDescriptor>, j: int, fuel: nat)
    requires
        0 <= j <= s.len(),
        list_bytes(s.subrange(0, j), fuel) is None,
    ensures
        list_bytes(s, fuel) is None,
    decreases s.len(),
{
    if j < s.len() {
        assert(s.drop_last().subrange(0, j) =~= s.subrange(0, j));
        lemma_list_bytes_prefix_none(s.drop_last(), j, fuel);
    } else {
        assert(s.subrange(0, j) =~= s);
    }
}

/// The number of visible members of `ms`.
pub open spec fn visible_members(ms: Seq<Member>) -> nat
    decreases ms.len(),
{
    if ms.len() == 0 {
        0
    } else {
        visible_members(ms.drop_last()) + if ms.last() is Visible { 1nat } else { 0nat }
    }
}

/// The bytes of each visible member in order: its name, then its type.
pub open spec fn members_bytes(ms: Seq<Member>) -> Option<Seq<u8>>
    decreases ms.len(),
{
    if ms.len() == 0 {
        Some(Seq::empty())
    } else {
        match members_bytes(ms.drop_last()) {
            None => None,
            Some(a) => match ms.last() {
                Member::Hidden(_) => Some(a),
                Member::Visible(fd) => match type_bytes(fd.ty, MAX_TYPE_DEPTH as nat) {
                    Some(b) => Some(a + name_bytes(fd.name@) + b),
                    None => None,
                },
            },
        }
    }
}

/// The schema entry of a struct: version, kind, name, then its visible fields.
pub open spec fn struct_schema_bytes(name: Seq<u8>, ms: Seq<Member>) -> Option<Seq<u8>> {
    if visible_members(ms) > u32::MAX {
        None
    } else {
        match members_bytes(ms) {
            Some(b) => Some(word(SCHEMA_VERSION) + word(ENTRY_STRUCT) + name_bytes(name) + word(
                visible_members(ms) as u32,
            ) + b),
            None => None,
        }
    }
}

/// The bytes of each case in order: its name, then a flag and its payload type.
pub open spec fn cases_bytes(cs: Seq<CaseDescriptor>) -> Option<Seq<u8>>
    decreases cs.len(),
{
    if cs.len() == 0 {
        Some(Seq::empty())
    } else {
        match cases_bytes(cs.drop_last()) {
            None => None,
            Some(a) => match cs.last().payload {
                None => Some(a + name_bytes(cs.last().name@) + word(0)),
                Some(t) => match type_bytes(t, MAX_TYPE_DEPTH as nat) {
                    Some(b) => Some(a + name_bytes(cs.last().name@) + word(1) + b),
                    None => None,
                },
            },
        }
    }
}

/// The schema entry of a tagged union: version, kind, name, then its cases.
pub open spec fn enum_schema_bytes(name: Seq<u8>, cs: Seq<CaseDescriptor>) -> Option<Seq<u8>> {
    if cs.len() > u32::MAX {
        None
    } else {
        match cases_bytes(cs) {
            Some(b) => Some(word(SCHEMA_VERSION) + word(ENTRY_UNION) + name_bytes(name) + word(cs.len() as u32) + b),
            None => None,
        }
    }
}

proof fn lemma_members_bytes_prefix_none(ms: Seq<Member>, j: int)
    requires
        0 <= j <= ms.len(),
        members_bytes(ms.subrange(0, j)) is None,
    ensures
        members_bytes(ms) is None,
    decreases ms.len(),
{
    if j < ms.len() {
        assert(ms.drop_last().subrange(0, j) =~= ms.subrange(0, j));
        lemma_members_bytes_prefix_none(ms.drop_last(), j);
    } else {
        assert(ms.subrange(0, j) =~= ms);
    }
}

proof fn lemma_cases_bytes_prefix_none(cs: Seq<CaseDescriptor>, j: int)
    requires
        0 <= j <= cs.len(),
        cases_bytes(cs.subrange(0, j)) is None,
    ensures
        cases_bytes(cs) is None,
    decreases cs.len(),
{
    if j < cs.len() {
        assert(cs.drop_last().subrange(0, j) =~= cs.subrange(0, j));
        lemma_cases_bytes_prefix_none(cs.drop_last(), j);
    } else {
        assert(cs.subrange(0, j) =~= cs);
    }
}

impl StructCodec {
    /// The struct's schema entry. Hidden fields do not appear in it.
    pub fn schema(&self) -> (r: Result<Vec<u8>, SchemaEncodingError>)
        ensures
            match r {
                Ok(b) => struct_schema_bytes(self.name@, self.members@) == Some(b@),
                Err(_) => struct_schema_bytes(self.name@, self.members@) is None,
            },
    {
        let mut count: usize = 0;
        let mut i: usize = 0;
        while i < self.members.len()
            invariant
                i <= self.members@.len(),
                count <= i,
                count == visible_members(self.members@.subrange(0, i as int)),
            decreases self.members@.len() - i,
        {
            let ghost next = self.members@.subrange(0, i + 1);
            assert(next.drop_last() =~= self.members@.subrange(0, i as int));
            if matches!(self.members[i], Member::Visible(_)) {
                count = count + 1;
            }
            i = i + 1;
        }
        assert(self.members@.subrange(0, i as int) =~= self.members@);
        if count > 0xffff_ffff {
            return Err(SchemaEncodingError);
        }
        let mut out: Vec<u8> = Vec::new();
        put_word(&mut out, SCHEMA_VERSION);
        put_word(&mut out, ENTRY_STRUCT);
        put_name(&mut out, self.name.name());
        put_word(&mut out, count as u32);
        let ghost head = out@;
        let mut j: usize = 0;
        while j < self.members.len()
            invariant
                j <= self.members@.len(),
                members_bytes(self.members@.subrange(0, j as int)) is Some,
                out@ == head + members_bytes(self.members@.subrange(0, j as int))->0,
            decreases self.members@.len() - j,
        {
            let ghost pre = self.members@.subrange(0, j as int);
            let ghost next = self.members@.subrange(0, j + 1);
            assert(next.drop_last() =~= pre);
            assert(next.last() == self.members@[j as int]);
            match &self.members[j] {
                Member::Visible(fd) => {
                    put_name(&mut out, fd.name.name());
                    let ok = write_type(&fd.ty, MAX_TYPE_DEPTH, &mut out);
                    if !ok {
                        proof {
                            lemma_members_bytes_prefix_none(self.members@, j + 1);
                        }
                        return Err(SchemaEncodingError);
                    }
                },
                Member::Hidden(_) => {},
            }
            assert(out@ =~= head + members_bytes(next)->0);
            j = j + 1;
        }
        assert(self.members@.subrange(0, j as int) =~= self.members@);
        assert(out@ =~= struct_schema_bytes(self.name@, self.members@)->0);
        Ok(out)
    }
}

impl EnumCodec {
    /// The union's schema entry.
    pub fn schema(&self) -> (r: Result<Vec<u8>, SchemaEncodingError>)
        ensures
            match r {
                Ok(b) => enum_schema_bytes(self.name@, self.cases@) == Some(b@),
                Err(_) => enum_schema_bytes(self.name@, self.cases@) is None,
            },
    {
        if self.cases.len() > 0xffff_ffff {
            return Err(SchemaEncodingError);
        }
        let mut out: Vec<u8> = Vec::new();
        put_word(&mut out, SCHEMA_VERSION);
        put_word(&mut out, ENTRY_UNION);
        put_name(&mut out, self.name.name());
        put_word(&mut out, self.cases.len() as u32);
        let ghost head = out@;
        let mut j: usize = 0;
        while j < self.cases.len()
            invariant
                j <= self.cases@.len(),
                cases_bytes(self.cases@.subrange(0, j as int)) is Some,
                out@ == head + cases_bytes(self.cases@.subrange(0, j as int))->0,
            decreases self.cases@.len() - j,
        {
            let ghost pre = self.cases@.subrange(0, j as int);
            let ghost next = self.cases@.subrange(0, j + 1);
            assert(next.drop_last() =~= pre);
            assert(next.last() == self.cases@[j as int]);
            let c = &self.cases[j];
            put_name(&mut out, c.name.name());
            match &c.payload {
                None => {
                    put_word(&mut out, 0);
                },
                Some(t) => {
                    put_word(&mut out, 1);
                    let ok = write_type(t, MAX_TYPE_DEPTH, &mut out);
                    if !ok {
                        proof {
                            lemma_cases_bytes_prefix_none(self.cases@, j + 1);
                        }
                        return Err(SchemaEncodingError);
                    }
                },
            }
            assert(out@ =~= head + cases_bytes(next)->0);
            j = j + 1;
        }
        assert(self.cases@.subrange(0, j as int) =~= self.cases@);
        assert(out@ =~= enum_schema_bytes(self.name@, self.cases@)->0);
        Ok(out)
    }
}

proof fn lemma_remove_hidden(ms: Seq<Member>, i: int)
    requires
        0 <= i < ms.len(),
        ms[i] is Hidden,
    ensures
        visible_members(ms.remove(i)) == visible_members(ms),
        members_bytes(ms.remove(i)) == members_bytes(ms),
    decreases ms.len(),
{
    let r = ms.remove(i);
    if i == ms.len() - 1 {
        assert(r =~= ms.drop_last());
    } else {
        let p = ms.drop_last();
        lemma_remove_hidden(p, i);
        assert(r.drop_last() =~= p.remove(i));
        assert(r.last() == ms.last());
    }
}

/// A hidden field never shows in the schema: removing a hidden member leaves
/// a struct's schema entry byte for byte the same.
pub proof fn lemma_hidden_not_in_schema(name: Seq<u8>, ms: Seq<Member>, i: int)
    requires
        0 <= i < ms.len(),
        ms[i] is Hidden,
    ensures
        struct_schema_bytes(name, ms.remove(i)) == struct_schema_bytes(name, ms),
{
    lemma_remove_hidden(ms, i);
}

/// Serializing is deterministic: two codecs with the same name and the same
/// members give byte-identical struct schema entries, and two with the same
/// name and cases byte-identical union schema entries.
pub proof fn lemma_schema_deterministic(a: StructCodec, b: StructCodec, x: EnumCodec, y: EnumCodec)
    requires
        a.name@ == b.name@,
        a.members@ == b.members@,
        x.name@ == y.name@,
        x.cases@ == y.cases@,
    ensures
        struct_schema_bytes(a.name@, a.members@) == struct_schema_bytes(b.name@, b.members@),
        enum_schema_bytes(x.name@, x.cases@) == enum_schema_bytes(y.name@, y.cases@),
{
}

/// The upper-case form of an ASCII byte.
pub open spec fn upper(c: u8) -> u8 {
    if 97 <= c <= 122 {
        (c - 32) as u8
    } else {
        c
    }
}

/// The prefix of every schema artifact's name: `__SCHEMA_`.
pub open spec fn artifact_prefix() -> Seq<u8> {
    seq![95u8, 95u8, 83u8, 67u8, 72u8, 69u8, 77u8, 65u8, 95u8]
}

/// The name under which a type's schema bytes are published: the prefix
/// followed by the type's name in upper case.
pub fn artifact_name(name: &CompactIdentifier) -> (r: Vec<u8>)
    ensures
        r@ == artifact_prefix() + name@.map_values(|c: u8| upper(c)),
{
    let mut out: Vec<u8> = Vec::new();
    out.push(95u8);
    out.push(95u8);
    out.push(83u8);
    out.push(67u8);
    out.push(72u8);
    out.push(69u8);
    out.push(77u8);
    out.push(65u8);
    out.push(95u8);
    assert(out@ =~= artifact_prefix());
    let n = name.name();
    let mut i: usize = 0;
    while i < n.len()
        invariant
            i <= n@.len(),
            n@ == name@,
            out@ == artifact_prefix() + n@.subrange(0, i as int).map_values(|c: u8| upper(c)),
        decreases n@.len() - i,
    {
        let c = n[i];
        let u = if 97 <= c && c <= 122 { c - 32 } else { c };
        out.push(u);
        i = i + 1;
        assert(out@ =~= artifact_prefix() + n@.subrange(0, i as int).map_values(|c: u8| upper(c)));
    }
    assert(n@.subrange(0, i as int) =~= n@);
    out
}

} // verus!
