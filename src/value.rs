//! The structural value representation exchanged with the host environment:
//! single-word values, and an insertion-ordered map keyed by symbol codes.

use vstd::prelude::*;
use crate::types::{ScalarKind, TypeDescriptor};

verus! {

/// A single-word host value. Containers, binaries and user-defined values live
/// in the host and are carried as object handles.
#[derive(Clone, Copy, Debug, PartialEq, Eq, Structural)]
pub enum Val {
    Void,
    Bool(bool),
    U32(u32),
    I32(i32),
    U64(u64),
    I64(i64),
    /// A symbol, by its packed code.
    Symbol(u64),
    Bitset(u64),
    Status(u32),
    /// A handle to a host object.
    Object(u32),
}

/// `v` has the shape that a value of type `d` takes.
pub open spec fn conforms(v: Val, d: TypeDescriptor) -> bool
    decreases d,
{
    match d {
        TypeDescriptor::Scalar(k) => match k {
            ScalarKind::U32 => v is U32,
            ScalarKind::I32 => v is I32,
            ScalarKind::U64 => v is U64,
            ScalarKind::I64 => v is I64,
            ScalarKind::Bool => v is Bool,
            ScalarKind::Symbol => v is Symbol,
            ScalarKind::Bitset => v is Bitset,
            ScalarKind::Status => v is Status,
            ScalarKind::Binary => v is Object,
        },
        TypeDescriptor::Optional(inner) => v is Void || conforms(v, *inner),
        _ => v is Object,
    }
}

/// Checks that `v` has the shape that a value of type `d` takes.
pub fn check_shape(v: Val, d: &TypeDescriptor) -> (r: bool)
    ensures
        r == conforms(v, *d),
    decreases d,
{
    match d {
        TypeDescriptor::Scalar(k) => match k {
            ScalarKind::U32 => matches!(v, Val::U32(..)),
            ScalarKind::I32 => matches!(v, Val::I32(..)),
            ScalarKind::U64 => matches!(v, Val::U64(..)),
            ScalarKind::I64 => matches!(v, Val::I64(..)),
            ScalarKind::Bool => matches!(v, Val::Bool(..)),
            ScalarKind::Symbol => matches!(v, Val::Symbol(..)),
            ScalarKind::Bitset => matches!(v, Val::Bitset(..)),
            ScalarKind::Status => matches!(v, Val::Status(..)),
            ScalarKind::Binary => matches!(v, Val::Object(..)),
        },
        TypeDescriptor::Optional(inner) => matches!(v, Val::Void) || check_shape(v, inner),
        _ => matches!(v, Val::Object(..)),
    }
}

/// The default value of a type: zero, `false` or the empty symbol for a scalar
/// held in one word, and `Void` (nothing) for the rest.
pub open spec fn default_of(d: TypeDescriptor) -> Val {
    match d {
        TypeDescriptor::Scalar(k) => match k {
            ScalarKind::U32 => Val::U32(0),
            ScalarKind::I32 => Val::I32(0),
            ScalarKind::U64 => Val::U64(0),
            ScalarKind::I64 => Val::I64(0),
            ScalarKind::Bool => Val::Bool(false),
            ScalarKind::Symbol => Val::Symbol(0),
            ScalarKind::Bitset => Val::Bitset(0),
            ScalarKind::Status => Val::Status(0),
            ScalarKind::Binary => Val::Void,
        },
        _ => Val::Void,
    }
}

pub fn default_val(d: &TypeDescriptor) -> (r: Val)
    ensures
        r == default_of(*d),
{
    match d {
        TypeDescriptor::Scalar(k) => match k {
            ScalarKind::U32 => Val::U32(0),
            ScalarKind::I32 => Val::I32(0),
            ScalarKind::U64 => Val::U64(0),
            ScalarKind::I64 => Val::I64(0),
            ScalarKind::Bool => Val::Bool(false),
            ScalarKind::Symbol => Val::Symbol(0),
            ScalarKind::Bitset => Val::Bitset(0),
            ScalarKind::Status => Val::Status(0),
            ScalarKind::Binary => Val::Void,
        },
        _ => Val::Void,
    }
}

/// Position of the last entry of `s` with key `k`, or -1.
pub open spec fn index_of(s: Seq<(u64, Val)>, k: u64) -> int
    decreases s.len(),
{
    if s.len() == 0 {
        -1
    } else if s.last().0 == k {
        s.len() - 1
    } else {
        index_of(s.drop_last(), k)
    }
}

/// The value stored under `k`.
pub open spec fn lookup(s: Seq<(u64, Val)>, k: u64) -> Option<Val> {
    let i = index_of(s, k);
    if i >= 0 {
        Some(s[i].1)
    } else {
        None
    }
}

/// `s` with `k` bound to `v`: an existing entry keeps its place, a new one goes last.
pub open spec fn put_entry(s: Seq<(u64, Val)>, k: u64, v: Val) -> Seq<(u64, Val)> {
    let i = index_of(s, k);
    if i >= 0 {
        s.update(i, (k, v))
    } else {
        s.push((k, v))
    }
}

/// `s` without the entry for `k`.
pub open spec fn del_entry(s: Seq<(u64, Val)>, k: u64) -> Seq<(u64, Val)> {
    let i = index_of(s, k);
    if i >= 0 {
        s.remove(i)
    } else {
        s
    }
}

pub proof fn lemma_index_of_range(s: Seq<(u64, Val)>, k: u64)
    ensures
        -1 <= index_of(s, k) < s.len(),
        index_of(s, k) >= 0 ==> s[index_of(s, k)].0 == k,
        index_of(s, k) == -1 ==> forall|j: int| 0 <= j < s.len() ==> (#[trigger] s[j]).0 != k,
    decreases s.len(),
{
    if s.len() > 0 {
        lemma_index_of_range(s.drop_last(), k);
        if s.last().0 != k {
            assert forall|j: int| 0 <= j < s.len() && index_of(s, k) == -1 implies (#[trigger] s[j]).0 != k by {
                if j < s.len() - 1 {
                    assert(s[j] == s.drop_last()[j]);
                }
            }
        }
    }
}

/// An insertion-ordered map from symbol codes to values.
pub struct SymbolMap {
    entries: Vec<(u64, Val)>,
}

impl View for SymbolMap {
    type V = Seq<(u64, Val)>;

    closed spec fn view(&self) -> Seq<(u64, Val)> {
        self.entries@
    }
}

impl SymbolMap {
    /// An empty map.
    pub fn new() -> (r: SymbolMap)
        ensures
            r@ == Seq::<(u64, Val)>::empty(),
    {
        SymbolMap { entries: Vec::new() }
    }

    fn find(&self, k: u64) -> (r: Option<usize>)
        ensures
            match r {
                Some(i) => i == index_of(self@, k),
                None => index_of(self@, k) == -1,
            },
    {
        let mut j: usize = self.entries.len();
        assert(self@.subrange(0, j as int) =~= self@);
        while j > 0
            invariant
                j <= self@.len(),
                index_of(self@, k) == index_of(self@.subrange(0, j as int), k),
            decreases j,
        {
            let ghost sub = self@.subrange(0, j as int);
            assert(sub.drop_last() =~= self@.subrange(0, j - 1));
            if self.entries[j - 1].0 == k {
                return Some(j - 1);
            }
            j = j - 1;
        }
        None
    }

    /// Whether `k` has a value.
    pub fn has(&self, k: u64) -> (r: bool)
        ensures
            r == (lookup(self@, k) is Some),
    {
        self.find(k).is_some()
    }

    /// The value stored under `k`, if any.
    pub fn get(&self, k: u64) -> (r: Option<Val>)
        ensures
            r == lookup(self@, k),
    {
        proof {
            lemma_index_of_range(self@, k);
        }
        match self.find(k) {
            Some(i) => Some(self.entries[i].1),
            None => None,
        }
    }

    /// Binds `k` to `v`: in place if `k` is present, else at the end.
    pub fn put(&mut self, k: u64, v: Val)
        ensures
            final(self)@ == put_entry(old(self)@, k, v),
    {
        proof {
            lemma_index_of_range(self@, k);
        }
        match self.find(k) {
            Some(i) => {
                self.entries.set(i, (k, v));
            },
            None => {
                self.entries.push((k, v));
            },
        }
    }

    /// Removes the entry for `k`, if any.
    pub fn del(&mut self, k: u64)
        ensures
            final(self)@ == del_entry(old(self)@, k),
    {
        proof {
            lemma_index_of_range(self@, k);
        }
        match self.find(k) {
            Some(i) => {
                self.entries.remove(i);
            },
            None => {},
        }
    }

    /// The number of entries.
    pub fn len(&self) -> (r: u32)
        requires
            self@.len() <= u32::MAX,
        ensures
            r == self@.len(),
    {
        self.entries.len() as u32
    }

    /// The keys, in the map's order.
    pub fn keys(&self) -> (r: Vec<u64>)
        ensures
            r@ == self@.map_values(|e: (u64, Val)| e.0),
    {
        let mut out: Vec<u64> = Vec::new();
        let mut i: usize = 0;
        while i < self.entries.len()
            invariant
                i <= self@.len(),
                out@ == self@.subrange(0, i as int).map_values(|e: (u64, Val)| e.0),
            decreases self@.len() - i,
        {
            out.push(self.entries[i].0);
            i = i + 1;
            assert(out@ =~= self@.subrange(0, i as int).map_values(|e: (u64, Val)| e.0));
        }
        assert(self@.subrange(0, i as int) =~= self@);
        out
    }
}

} // verus!
