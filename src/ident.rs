//! Compact identifiers: validated names with a packed 6-bit-per-character code.

use vstd::prelude::*;

verus! {

/// Longest name that a compact identifier can hold.
pub const MAX_IDENT_LEN: usize = 10;

/// The 6-bit code of a name character: `_` is 1, digits 2..=11, upper case
/// letters 12..=37, lower case letters 38..=63; any other byte has no code (0).
pub open spec fn char_code(c: u8) -> nat {
    if c == 95 {
        1
    } else if 48 <= c <= 57 {
        (c - 46) as nat
    } else if 65 <= c <= 90 {
        (c - 53) as nat
    } else if 97 <= c <= 122 {
        (c - 59) as nat
    } else {
        0
    }
}

pub open spec fn valid_ident_char(c: u8) -> bool {
    char_code(c) != 0
}

pub open spec fn all_chars_valid(s: Seq<u8>) -> bool {
    forall|i: int| 0 <= i < s.len() ==> valid_ident_char(#[trigger] s[i])
}

/// A name that a compact identifier can hold.
pub open spec fn valid_ident(s: Seq<u8>) -> bool {
    s.len() <= MAX_IDENT_LEN && all_chars_valid(s)
}

/// The packed code of a name: its character codes, first character most significant.
pub open spec fn pack(s: Seq<u8>) -> nat
    decreases s.len(),
{
    if s.len() == 0 {
        0
    } else {
        pack(s.drop_last()) * 64 + char_code(s.last())
    }
}

/// Why a name cannot be an identifier.
#[derive(Clone, Copy, Debug, PartialEq, Eq, Structural)]
pub enum IdentError {
    TooLong,
    InvalidChar,
}

/// The outcome of validating a name: the length bound is checked first.
pub open spec fn ident_check(s: Seq<u8>) -> Result<(), IdentError> {
    if s.len() > MAX_IDENT_LEN {
        Err(IdentError::TooLong)
    } else if !all_chars_valid(s) {
        Err(IdentError::InvalidChar)
    } else {
        Ok(())
    }
}

/// `64` to the power `n`: one more than the largest code of a name of length `n`.
pub open spec fn code_space(n: nat) -> nat
    decreases n,
{
    if n == 0 {
        1
    } else {
        64 * code_space((n - 1) as nat)
    }
}

proof fn lemma_code_space_mono(a: nat, b: nat)
    requires
        a <= b,
    ensures
        code_space(a) <= code_space(b),
    decreases b,
{
    if a < b {
        lemma_code_space_mono(a, (b - 1) as nat);
    }
}

proof fn lemma_pack_bound(s: Seq<u8>)
    requires
        all_chars_valid(s),
    ensures
        pack(s) < code_space(s.len()),
    decreases s.len(),
{
    if s.len() > 0 {
        let p = s.drop_last();
        assert(all_chars_valid(p)) by {
            assert forall|i: int| 0 <= i < p.len() implies valid_ident_char(#[trigger] p[i]) by {
                assert(p[i] == s[i]);
            }
        }
        lemma_pack_bound(p);
        let q = code_space(p.len());
        assert(char_code(s.last()) < 64);
        assert(pack(p) * 64 + char_code(s.last()) < 64 * q) by (nonlinear_arith)
            requires
                pack(p) < q,
                char_code(s.last()) < 64,
        ;
    }
}

/// Every valid name packs into 60 bits.
pub proof fn lemma_pack_fits(s: Seq<u8>)
    requires
        valid_ident(s),
    ensures
        pack(s) < 0x1000000000000000,
{
    lemma_pack_bound(s);
    lemma_code_space_mono(s.len(), 10);
    reveal_with_fuel(code_space, 11);
}

/// Names are bounded, not truncated: a name one byte longer than
/// `MAX_IDENT_LEN` is refused as too long, and one of exactly `MAX_IDENT_LEN`
/// valid characters is accepted.
pub proof fn lemma_identifier_bound(s: Seq<u8>)
    ensures
        s.len() == MAX_IDENT_LEN + 1 ==> ident_check(s) == Err::<(), IdentError>(IdentError::TooLong),
        s.len() == MAX_IDENT_LEN && all_chars_valid(s) ==> ident_check(s) is Ok,
{
}

fn code_of_char(c: u8) -> (r: u64)
    ensures
        r as nat == char_code(c),
{
    if c == 95 {
        1
    } else if 48 <= c && c <= 57 {
        (c - 46) as u64
    } else if 65 <= c && c <= 90 {
        (c - 53) as u64
    } else if 97 <= c && c <= 122 {
        (c - 59) as u64
    } else {
        0
    }
}

/// A validated name together with its packed code.
///
/// The same name always yields the same identifier: the code is a function of
/// the name alone, and both a schema key and a runtime lookup key come from here.
#[derive(Debug, PartialEq, Eq)]
pub struct CompactIdentifier {
    name: Vec<u8>,
    code: u64,
}

impl View for CompactIdentifier {
    type V = Seq<u8>;

    closed spec fn view(&self) -> Seq<u8> {
        self.name@
    }
}

impl CompactIdentifier {
    #[verifier::type_invariant]
    spec fn inv(&self) -> bool {
        valid_ident(self.name@) && self.code as nat == pack(self.name@)
    }

    /// The packed code of this identifier.
    pub open spec fn spec_code(&self) -> nat {
        pack(self@)
    }

    /// Validates `name` and packs it.
    pub fn new(name: &Vec<u8>) -> (r: Result<CompactIdentifier, IdentError>)
        ensures
            match r {
                Ok(id) => ident_check(name@) is Ok && id@ == name@,
                Err(e) => ident_check(name@) == Err::<(), IdentError>(e),
            },
    {
        if name.len() > MAX_IDENT_LEN {
            return Err(IdentError::TooLong);
        }
        let mut code: u64 = 0;
        let mut i: usize = 0;
        while i < name.len()
            invariant
                i <= name@.len() <= MAX_IDENT_LEN,
                all_chars_valid(name@.subrange(0, i as int)),
                code as nat == pack(name@.subrange(0, i as int)),
            decreases name@.len() - i,
        {
            let c = code_of_char(name[i]);
            if c == 0 {
                assert(!all_chars_valid(name@)) by {
                    assert(!valid_ident_char(name@[i as int]));
                }
                return Err(IdentError::InvalidChar);
            }
            let ghost pre = name@.subrange(0, i as int);
            let ghost next = name@.subrange(0, i + 1);
            assert(next.drop_last() =~= pre);
            assert(all_chars_valid(next)) by {
                assert forall|j: int| 0 <= j < next.len() implies valid_ident_char(#[trigger] next[j]) by {
                    if j < i {
                        assert(next[j] == pre[j]);
                    }
                }
            }
            proof {
                lemma_pack_fits(next);
            }
            code = code * 64 + c;
            i = i + 1;
        }
        assert(name@.subrange(0, i as int) =~= name@);
        Ok(CompactIdentifier { name: name.clone(), code })
    }

    /// The packed code as a machine word, the identifier's lookup key.
    pub open spec fn key(&self) -> u64 {
        pack(self@) as u64
    }

    /// The packed code of this identifier.
    pub fn code(&self) -> (r: u64)
        ensures
            r as nat == self.spec_code(),
            r == self.key(),
            valid_ident(self@),
    {
        proof {
            use_type_invariant(self);
        }
        self.code
    }

    /// The name that this identifier holds.
    pub fn name(&self) -> (r: &Vec<u8>)
        ensures
            r@ == self@,
            valid_ident(r@),
    {
        proof {
            use_type_invariant(self);
        }
        &self.name
    }

    /// A second identifier holding the same name.
    pub fn duplicate(&self) -> (r: CompactIdentifier)
        ensures
            r@ == self@,
    {
        proof {
            use_type_invariant(self);
        }
        CompactIdentifier { name: self.name.clone(), code: self.code }
    }
}

} // verus!
