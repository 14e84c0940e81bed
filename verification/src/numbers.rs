//! Fixed-width identifiers and amounts: accounts, block hashes, links,
//! signatures and 128-bit raw amounts.

use vstd::prelude::*;

verus! {

/// Compares two 32-byte arrays for equality.
pub fn bytes32_eq(a: &[u8; 32], b: &[u8; 32]) -> (r: bool)
    ensures
        r == (a@ == b@),
{
    let mut i: usize = 0;
    while i < 32
        invariant
            i <= 32,
            forall|j: int| 0 <= j < i ==> a@[j] == b@[j],
        decreases 32 - i,
    {
        if a[i] != b[i] {
            return false;
        }
        i += 1;
    }
    proof {
        assert(a@ =~= b@);
    }
    true
}

/// Compares two 64-byte arrays for equality.
pub fn bytes64_eq(a: &[u8; 64], b: &[u8; 64]) -> (r: bool)
    ensures
        r == (a@ == b@),
{
    let mut i: usize = 0;
    while i < 64
        invariant
            i <= 64,
            forall|j: int| 0 <= j < i ==> a@[j] == b@[j],
        decreases 64 - i,
    {
        if a[i] != b[i] {
            return false;
        }
        i += 1;
    }
    proof {
        assert(a@ =~= b@);
    }
    true
}

/// Strict lexicographic order on byte sequences of equal length,
/// compared from position `i` on.
pub open spec fn lex_lt_from(a: Seq<u8>, b: Seq<u8>, i: int) -> bool
    decreases a.len() - i,
{
    if i < 0 || i >= a.len() || i >= b.len() {
        false
    } else if a[i] < b[i] {
        true
    } else if a[i] == b[i] {
        lex_lt_from(a, b, i + 1)
    } else {
        false
    }
}

/// Strict lexicographic order on two 32-byte keys.
pub open spec fn lex_lt(a: Seq<u8>, b: Seq<u8>) -> bool {
    lex_lt_from(a, b, 0)
}

/// Decides `lex_lt` on two 32-byte arrays.
pub fn bytes32_lt(a: &[u8; 32], b: &[u8; 32]) -> (r: bool)
    ensures
        r == lex_lt(a@, b@),
{
    let mut i: usize = 0;
    while i < 32
        invariant
            i <= 32,
            forall|j: int| 0 <= j < i ==> a@[j] == b@[j],
            lex_lt(a@, b@) == lex_lt_from(a@, b@, i as int),
        decreases 32 - i,
    {
        if a[i] < b[i] {
            return true;
        }
        if a[i] > b[i] {
            return false;
        }
        i += 1;
    }
    false
}

/// An account: a 32-byte public key identifying one block chain.
#[derive(Clone, Copy, Debug)]
pub struct Account {
    pub bytes: [u8; 32],
}

impl PartialEq for Account {
    fn eq(&self, other: &Account) -> (r: bool) {
        bytes32_eq(&self.bytes, &other.bytes)
    }
}

impl Eq for Account {}

impl vstd::std_specs::cmp::PartialEqSpecImpl for Account {
    open spec fn obeys_eq_spec() -> bool {
        true
    }

    open spec fn eq_spec(&self, other: &Account) -> bool {
        self.bytes@ == other.bytes@
    }
}

impl Account {
    pub open spec fn view(&self) -> Seq<u8> {
        self.bytes@
    }

    pub open spec fn spec_is_zero(&self) -> bool {
        self.bytes@ == Seq::new(32, |i: int| 0u8)
    }

    pub fn zero() -> (r: Account)
        ensures
            r.spec_is_zero(),
            r@ == Seq::new(32, |i: int| 0u8),
    {
        let a = Account { bytes: [0u8; 32] };
        proof {
            assert(a.bytes@ =~= Seq::new(32, |i: int| 0u8));
        }
        a
    }

    pub fn is_zero(&self) -> (r: bool)
        ensures
            r == self.spec_is_zero(),
    {
        let z = Account::zero();
        bytes32_eq(&self.bytes, &z.bytes)
    }

    pub fn from_bytes(bytes: [u8; 32]) -> (r: Account)
        ensures
            r@ == bytes@,
    {
        Account { bytes }
    }

    pub fn as_bytes(&self) -> (r: &[u8; 32])
        ensures
            r@ == self@,
    {
        &self.bytes
    }

    pub fn to_public_key(&self) -> (r: PublicKey)
        ensures
            r@ == self@,
    {
        PublicKey { bytes: self.bytes }
    }

    /// The largest account value, every byte 0xff.
    pub fn max_value() -> (r: Account)
        ensures
            r@ == Seq::new(32, |i: int| 0xffu8),
    {
        let a = Account { bytes: [0xffu8; 32] };
        proof {
            assert(a.bytes@ =~= Seq::new(32, |i: int| 0xffu8));
        }
        a
    }
}

/// A block hash: the 32-byte digest of a block's hashable fields.
#[derive(Clone, Copy, Debug)]
pub struct BlockHash {
    pub bytes: [u8; 32],
}

impl PartialEq for BlockHash {
    fn eq(&self, other: &BlockHash) -> (r: bool) {
        bytes32_eq(&self.bytes, &other.bytes)
    }
}

impl Eq for BlockHash {}

impl vstd::std_specs::cmp::PartialEqSpecImpl for BlockHash {
    open spec fn obeys_eq_spec() -> bool {
        true
    }

    open spec fn eq_spec(&self, other: &BlockHash) -> bool {
        self.bytes@ == other.bytes@
    }
}

impl BlockHash {
    pub open spec fn view(&self) -> Seq<u8> {
        self.bytes@
    }

    pub open spec fn spec_is_zero(&self) -> bool {
        self.bytes@ == Seq::new(32, |i: int| 0u8)
    }

    pub fn zero() -> (r: BlockHash)
        ensures
            r.spec_is_zero(),
            r@ == Seq::new(32, |i: int| 0u8),
    {
        let h = BlockHash { bytes: [0u8; 32] };
        proof {
            assert(h.bytes@ =~= Seq::new(32, |i: int| 0u8));
        }
        h
    }

    pub fn is_zero(&self) -> (r: bool)
        ensures
            r == self.spec_is_zero(),
    {
        let z = BlockHash::zero();
        bytes32_eq(&self.bytes, &z.bytes)
    }

    pub fn from_bytes(bytes: [u8; 32]) -> (r: BlockHash)
        ensures
            r@ == bytes@,
    {
        BlockHash { bytes }
    }

    pub fn as_bytes(&self) -> (r: &[u8; 32])
        ensures
            r@ == self@,
    {
        &self.bytes
    }
}

/// The link field of a state block: either a source block hash,
/// a destination account, or an epoch marker.
#[derive(Clone, Copy, Debug)]
pub struct Link {
    pub bytes: [u8; 32],
}

impl PartialEq for Link {
    fn eq(&self, other: &Link) -> (r: bool) {
        bytes32_eq(&self.bytes, &other.bytes)
    }
}

impl Eq for Link {}

impl vstd::std_specs::cmp::PartialEqSpecImpl for Link {
    open spec fn obeys_eq_spec() -> bool {
        true
    }

    open spec fn eq_spec(&self, other: &Link) -> bool {
        self.bytes@ == other.bytes@
    }
}

impl Link {
    pub open spec fn view(&self) -> Seq<u8> {
        self.bytes@
    }

    pub open spec fn spec_is_zero(&self) -> bool {
        self.bytes@ == Seq::new(32, |i: int| 0u8)
    }

    pub fn zero() -> (r: Link)
        ensures
            r.spec_is_zero(),
            r@ == Seq::new(32, |i: int| 0u8),
    {
        let l = Link { bytes: [0u8; 32] };
        proof {
            assert(l.bytes@ =~= Seq::new(32, |i: int| 0u8));
        }
        l
    }

    pub fn is_zero(&self) -> (r: bool)
        ensures
            r == self.spec_is_zero(),
    {
        let z = Link::zero();
        bytes32_eq(&self.bytes, &z.bytes)
    }

    pub fn from_bytes(bytes: [u8; 32]) -> (r: Link)
        ensures
            r@ == bytes@,
    {
        Link { bytes }
    }

    pub fn as_bytes(&self) -> (r: &[u8; 32])
        ensures
            r@ == self@,
    {
        &self.bytes
    }

    pub fn to_account(&self) -> (r: Account)
        ensures
            r@ == self@,
    {
        Account { bytes: self.bytes }
    }

    pub fn to_block_hash(&self) -> (r: BlockHash)
        ensures
            r@ == self@,
    {
        BlockHash { bytes: self.bytes }
    }
}

/// A 32-byte public key, the same bytes as the owning account.
#[derive(Clone, Copy, Debug)]
pub struct PublicKey {
    pub bytes: [u8; 32],
}

impl PartialEq for PublicKey {
    fn eq(&self, other: &PublicKey) -> (r: bool) {
        bytes32_eq(&self.bytes, &other.bytes)
    }
}

impl Eq for PublicKey {}

impl vstd::std_specs::cmp::PartialEqSpecImpl for PublicKey {
    open spec fn obeys_eq_spec() -> bool {
        true
    }

    open spec fn eq_spec(&self, other: &PublicKey) -> bool {
        self.bytes@ == other.bytes@
    }
}

impl PublicKey {
    pub open spec fn view(&self) -> Seq<u8> {
        self.bytes@
    }

    pub fn from_bytes(bytes: [u8; 32]) -> (r: PublicKey)
        ensures
            r@ == bytes@,
    {
        PublicKey { bytes }
    }

    pub fn to_account(&self) -> (r: Account)
        ensures
            r@ == self@,
    {
        Account { bytes: self.bytes }
    }
}

/// A 32-byte private signing key.
#[derive(Clone, Copy)]
pub struct RawKey {
    pub bytes: [u8; 32],
}

impl RawKey {
    pub open spec fn view(&self) -> Seq<u8> {
        self.bytes@
    }

    pub fn from_bytes(bytes: [u8; 32]) -> (r: RawKey)
        ensures
            r@ == bytes@,
    {
        RawKey { bytes }
    }
}

/// A 64-byte signature over a block hash.
#[derive(Clone, Copy, Debug)]
pub struct Signature {
    pub bytes: [u8; 64],
}

impl PartialEq for Signature {
    fn eq(&self, other: &Signature) -> (r: bool) {
        bytes64_eq(&self.bytes, &other.bytes)
    }
}

impl Eq for Signature {}

impl vstd::std_specs::cmp::PartialEqSpecImpl for Signature {
    open spec fn obeys_eq_spec() -> bool {
        true
    }

    open spec fn eq_spec(&self, other: &Signature) -> bool {
        self.bytes@ == other.bytes@
    }
}

impl Signature {
    pub open spec fn view(&self) -> Seq<u8> {
        self.bytes@
    }

    /// The all-zero placeholder signature.
    pub fn new() -> (r: Signature)
        ensures
            r@ == Seq::new(64, |i: int| 0u8),
    {
        let s = Signature { bytes: [0u8; 64] };
        proof {
            assert(s.bytes@ =~= Seq::new(64, |i: int| 0u8));
        }
        s
    }

    pub fn from_bytes(bytes: [u8; 64]) -> (r: Signature)
        ensures
            r@ == bytes@,
    {
        Signature { bytes }
    }

    pub fn as_bytes(&self) -> (r: &[u8; 64])
        ensures
            r@ == self@,
    {
        &self.bytes
    }
}

/// A monetary amount in raw units: a 128-bit unsigned integer.
#[derive(Clone, Copy, Debug, PartialEq, Eq, Structural)]
pub struct Amount {
    pub raw: u128,
}

impl Amount {
    pub open spec fn view(&self) -> u128 {
        self.raw
    }

    pub fn zero() -> (r: Amount)
        ensures
            r.raw == 0,
    {
        Amount { raw: 0 }
    }

    pub fn raw(value: u128) -> (r: Amount)
        ensures
            r.raw == value,
    {
        Amount { raw: value }
    }

    pub fn max_value() -> (r: Amount)
        ensures
            r.raw == u128::MAX,
    {
        Amount { raw: u128::MAX }
    }

    pub fn number(&self) -> (r: u128)
        ensures
            r == self.raw,
    {
        self.raw
    }

    pub fn is_zero(&self) -> (r: bool)
        ensures
            r == (self.raw == 0),
    {
        self.raw == 0
    }

    /// Wrapping addition modulo 2^128, used for representative-weight deltas.
    pub fn wrapping_add(&self, other: Amount) -> (r: Amount)
        ensures
            r.raw == ((self.raw + other.raw) % 0x1_0000_0000_0000_0000_0000_0000_0000_0000int),
    {
        Amount { raw: self.raw.wrapping_add(other.raw) }
    }

    /// Wrapping subtraction modulo 2^128, used for representative-weight deltas.
    pub fn wrapping_sub(&self, other: Amount) -> (r: Amount)
        ensures
            self.raw >= other.raw ==> r.raw == self.raw - other.raw,
            self.raw < other.raw ==> r.raw == self.raw + 0x1_0000_0000_0000_0000_0000_0000_0000_0000int
                - other.raw,
    {
        Amount { raw: self.raw.wrapping_sub(other.raw) }
    }

    /// Exact subtraction; the caller must have established that no underflow occurs.
    pub fn checked_sub_exact(&self, other: Amount) -> (r: Amount)
        requires
            self.raw >= other.raw,
        ensures
            r.raw == self.raw - other.raw,
    {
        Amount { raw: self.raw - other.raw }
    }

    /// Exact addition; the caller must have established that no overflow occurs.
    pub fn checked_add_exact(&self, other: Amount) -> (r: Amount)
        requires
            self.raw + other.raw <= u128::MAX,
        ensures
            r.raw == self.raw + other.raw,
    {
        Amount { raw: self.raw + other.raw }
    }
}

} // verus!
