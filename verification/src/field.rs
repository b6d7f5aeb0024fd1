//! Field elements, held by their canonical little-endian byte representation.
//!
//! The arithmetic itself (addition, multiplication, negation modulo the field
//! modulus) is supplied by the Pallas base field of `halo2_proofs`; the engine
//! only ever sees canonical byte strings, whose integer value is pinned down by
//! `le_bytes_to_nat`.

use vstd::prelude::*;
use ff::PrimeField;
use halo2_proofs::pasta::Fp as PastaFp;

verus! {

/// The integer a byte sequence denotes when read little-endian.
pub open spec fn le_bytes_to_nat(s: Seq<u8>) -> nat
    decreases s.len(),
{
    if s.len() == 0 {
        0
    } else {
        s[0] as nat + 256 * le_bytes_to_nat(s.subrange(1, s.len() as int))
    }
}

/// The modulus of the field: the order of the Pallas base field.
pub open spec fn modulus() -> nat {
    0x40000000000000000000000000000000nat * 0x10000000000000000 * 0x10000000000000000
        + 0x224698fc094cf91b992d30ed00000001
}

/// A field element in canonical form: 32 little-endian bytes whose value is
/// below the modulus.
#[derive(Clone, Copy, Debug, PartialEq, Eq)]
pub struct Felt {
    bytes: [u8; 32],
}

impl Felt {
    /// The integer value of this element.
    pub closed spec fn val(self) -> nat {
        le_bytes_to_nat(self.bytes@)
    }

    /// Every element the library hands out is canonical.
    #[verifier::type_invariant]
    pub open spec fn canonical(self) -> bool {
        self.wf()
    }

    /// Canonical form: the value is reduced modulo the field modulus.
    pub open spec fn wf(self) -> bool {
        self.val() < modulus()
    }

    /// Relies on `ff::PrimeField::from_u128` and `to_repr` of the Pallas base
    /// field: an integer below 2^128 is far below the modulus, and `to_repr`
    /// returns its canonical little-endian representation.
    #[verifier::external_body]
    pub fn from_u128(v: u128) -> (r: Felt)
        ensures
            r.wf(),
            r.val() == v as nat,
    {
        Felt { bytes: PastaFp::from_u128(v).to_repr() }
    }

    /// The element denoting a small unsigned integer.
    pub fn from_u64(v: u64) -> (r: Felt)
        ensures
            r.wf(),
            r.val() == v as nat,
    {
        Felt::from_u128(v as u128)
    }

    /// The additive identity.
    pub fn zero() -> (r: Felt)
        ensures
            r.wf(),
            r.val() == 0,
    {
        Felt::from_u128(0)
    }

    /// The multiplicative identity.
    pub fn one() -> (r: Felt)
        ensures
            r.wf(),
            r.val() == 1,
    {
        Felt::from_u128(1)
    }

    /// Whether this element is the field's zero.
    #[verifier::loop_isolation(false)]
    pub fn is_zero(&self) -> (r: bool)
        ensures
            r <==> self.val() == 0,
    {
        let mut i: usize = 0;
        while i < 32
            invariant
                i <= 32,
                forall|j: int| 0 <= j < i ==> self.bytes@[j] == 0,
            decreases 32 - i,
        {
            if self.bytes[i] != 0 {
                proof {
                    lemma_le_bytes_nonzero(self.bytes@, i as int);
                }
                return false;
            }
            i = i + 1;
        }
        proof {
            lemma_le_bytes_all_zero(self.bytes@);
        }
        true
    }

    /// Whether two elements denote the same field value.
    #[verifier::loop_isolation(false)]
    pub fn equals(&self, other: &Felt) -> (r: bool)
        ensures
            r <==> self.val() == other.val(),
    {
        let mut i: usize = 0;
        while i < 32
            invariant
                i <= 32,
                forall|j: int| 0 <= j < i ==> self.bytes@[j] == other.bytes@[j],
            decreases 32 - i,
        {
            if self.bytes[i] != other.bytes[i] {
                proof {
                    assert(self.bytes@[i as int] != other.bytes@[i as int]);
                    if self.val() == other.val() {
                        lemma_le_bytes_injective(self.bytes@, other.bytes@);
                    }
                }
                return false;
            }
            i = i + 1;
        }
        proof {
            assert(self.bytes@ =~= other.bytes@);
        }
        true
    }
}

/// Relies on `ff::PrimeField::from_repr`/`to_repr` and `+` of the Pallas base
/// field: canonical representations below the modulus round-trip exactly, and
/// addition reduces the integer sum modulo the modulus.
#[verifier::external_body]
pub(crate) fn felt_add(a: &Felt, b: &Felt) -> (r: Felt)
    requires
        a.wf(),
        b.wf(),
    ensures
        r.wf(),
        r.val() == (a.val() + b.val()) % modulus(),
{
    let x = PastaFp::from_repr(a.bytes).unwrap();
    let y = PastaFp::from_repr(b.bytes).unwrap();
    Felt { bytes: (x + y).to_repr() }
}

/// Relies on `ff::PrimeField::from_repr`/`to_repr` and `*` of the Pallas base
/// field: multiplication reduces the integer product modulo the modulus.
#[verifier::external_body]
pub(crate) fn felt_mul(a: &Felt, b: &Felt) -> (r: Felt)
    requires
        a.wf(),
        b.wf(),
    ensures
        r.wf(),
        r.val() == (a.val() * b.val()) % modulus(),
{
    let x = PastaFp::from_repr(a.bytes).unwrap();
    let y = PastaFp::from_repr(b.bytes).unwrap();
    Felt { bytes: (x * y).to_repr() }
}

/// Relies on `ff::PrimeField::from_repr`/`to_repr` and unary `-` of the Pallas
/// base field: the negation of a canonical element x is 0 when x is 0 and
/// modulus - x otherwise, which is (modulus - x) % modulus in either case.
#[verifier::external_body]
pub(crate) fn felt_neg(a: &Felt) -> (r: Felt)
    requires
        a.wf(),
    ensures
        r.wf(),
        r.val() == (modulus() - a.val()) % (modulus() as int),
{
    let x = PastaFp::from_repr(a.bytes).unwrap();
    Felt { bytes: (-x).to_repr() }
}

/// A byte sequence of zeroes denotes zero.
proof fn lemma_le_bytes_all_zero(s: Seq<u8>)
    requires
        forall|j: int| 0 <= j < s.len() ==> s[j] == 0,
    ensures
        le_bytes_to_nat(s) == 0,
    decreases s.len(),
{
    if s.len() > 0 {
        lemma_le_bytes_all_zero(s.subrange(1, s.len() as int));
    }
}

/// A byte sequence with a nonzero byte denotes a nonzero integer.
proof fn lemma_le_bytes_nonzero(s: Seq<u8>, i: int)
    requires
        0 <= i < s.len(),
        s[i] != 0,
    ensures
        le_bytes_to_nat(s) != 0,
    decreases s.len(),
{
    if i == 0 {
    } else {
        let rest = s.subrange(1, s.len() as int);
        lemma_le_bytes_nonzero(rest, i - 1);
    }
}

/// Little-endian reading is injective on byte sequences of equal length.
pub proof fn lemma_le_bytes_injective(s1: Seq<u8>, s2: Seq<u8>)
    requires
        s1.len() == s2.len(),
        le_bytes_to_nat(s1) == le_bytes_to_nat(s2),
    ensures
        s1 =~= s2,
    decreases s1.len(),
{
    if s1.len() > 0 {
        let r1 = s1.subrange(1, s1.len() as int);
        let r2 = s2.subrange(1, s2.len() as int);
        let x = s1[0] as nat;
        let y = s2[0] as nat;
        let a = le_bytes_to_nat(r1);
        let b = le_bytes_to_nat(r2);
        assert(x + 256 * a == y + 256 * b);
        assert(x == y && a == b) by (nonlinear_arith)
            requires
                x < 256,
                y < 256,
                x + 256 * a == y + 256 * b,
        ;
        lemma_le_bytes_injective(r1, r2);
        assert forall|j: int| 0 <= j < s1.len() implies s1[j] == s2[j] by {
            if j > 0 {
                assert(r1[j - 1] == s1[j]);
                assert(r2[j - 1] == s2[j]);
            }
        }
    }
}

} // verus!
