//! 32-byte digests and account addresses, their byte order, and BLAKE3.
use vstd::prelude::*;
use vstd::string::StringSliceAdditionalSpecFns;
use crate::error::DustError;
use vstd::utf8::{encode_utf8, is_ascii_chars, is_ascii_chars_concat, is_ascii_chars_encode_utf8};
use crate::hexcodec::{hex_bytes, hex_decode, hex_encode, hex_text, lemma_hex_roundtrip, lemma_hex_text_ascii};

verus! {

/// Byte `i` of the BLAKE3 digest of `data`.
pub uninterp spec fn blake3_byte(data: Seq<u8>, i: int) -> u8;

/// The 32-byte BLAKE3 digest of a byte string.
pub open spec fn blake3_digest(data: Seq<u8>) -> Seq<u8> {
    Seq::new(32, |i: int| blake3_byte(data, i))
}

/// `blake3::hash`: the 32-byte BLAKE3 digest of the input; byte `i` of the
/// result is `blake3_byte` of the input and `i`.
#[verifier::external_body]
fn blake3_hash(data: &[u8]) -> (out: [u8; 32])
    ensures
        out@ == Seq::new(32, |i: int| blake3_byte(data@, i)),
{
    *blake3::hash(data).as_bytes()
}

/// Thirty-two zero bytes.
pub open spec fn zero32() -> Seq<u8> {
    Seq::new(32, |i: int| 0u8)
}

/// Strict lexicographic order on byte strings of one length: the first
/// position where they differ holds the smaller byte in `a`.
pub open spec fn bytes_lt(a: Seq<u8>, b: Seq<u8>) -> bool {
    exists|k: int|
        0 <= k < a.len() && k < b.len() && a[k] < b[k] && (forall|j: int|
            0 <= j < k ==> #[trigger] a[j] == b[j])
}

pub proof fn lemma_bytes_lt_irreflexive(a: Seq<u8>)
    ensures
        !bytes_lt(a, a),
{
}

pub proof fn lemma_bytes_lt_transitive(a: Seq<u8>, b: Seq<u8>, c: Seq<u8>)
    requires
        bytes_lt(a, b),
        bytes_lt(b, c),
    ensures
        bytes_lt(a, c),
{
    let k1 = choose|k: int|
        0 <= k < a.len() && k < b.len() && a[k] < b[k] && (forall|j: int|
            0 <= j < k ==> #[trigger] a[j] == b[j]);
    let k2 = choose|k: int|
        0 <= k < b.len() && k < c.len() && b[k] < c[k] && (forall|j: int|
            0 <= j < k ==> #[trigger] b[j] == c[j]);
    let k = if k1 < k2 { k1 } else { k2 };
    assert forall|j: int| 0 <= j < k implies #[trigger] a[j] == c[j] by {
        assert(a[j] == b[j]);
    }
    assert(a[k] < c[k]);
}

pub proof fn lemma_bytes_lt_asymmetric(a: Seq<u8>, b: Seq<u8>)
    requires
        bytes_lt(a, b),
    ensures
        !bytes_lt(b, a),
{
    if bytes_lt(b, a) {
        lemma_bytes_lt_transitive(a, b, a);
    }
}

/// Two different byte strings of one length are ordered one way or the other.
pub proof fn lemma_bytes_lt_total(a: Seq<u8>, b: Seq<u8>)
    requires
        a.len() == b.len(),
        a != b,
    ensures
        bytes_lt(a, b) || bytes_lt(b, a),
{
    if forall|j: int| 0 <= j < a.len() ==> a[j] == b[j] {
        assert(a =~= b);
    }
    let k = choose|k: int| 0 <= k < a.len() && a[k] != b[k];
    lemma_first_difference(a, b, k);
}

proof fn lemma_first_difference(a: Seq<u8>, b: Seq<u8>, k: int)
    requires
        a.len() == b.len(),
        0 <= k < a.len(),
        a[k] != b[k],
    ensures
        bytes_lt(a, b) || bytes_lt(b, a),
    decreases k,
{
    if exists|j: int| 0 <= j < k && a[j] != b[j] {
        let j = choose|j: int| 0 <= j < k && a[j] != b[j];
        lemma_first_difference(a, b, j);
    } else {
        if a[k] < b[k] {
            assert(bytes_lt(a, b));
        } else {
            assert(bytes_lt(b, a));
        }
    }
}

/// Whether two 32-byte arrays hold the same bytes.
pub fn bytes32_eq(a: &[u8; 32], b: &[u8; 32]) -> (r: bool)
    ensures
        r == (a@ == b@),
{
    let mut i: usize = 0;
    while i < 32
        invariant
            i <= 32,
            a@.len() == 32,
            b@.len() == 32,
            forall|j: int| 0 <= j < i ==> a@[j] == b@[j],
        decreases 32 - i,
    {
        if a[i] != b[i] {
            return false;
        }
        i += 1;
    }
    assert(a@ =~= b@);
    true
}

/// Whether `a` comes strictly before `b` in byte order.
pub fn bytes32_lt(a: &[u8; 32], b: &[u8; 32]) -> (r: bool)
    ensures
        r == bytes_lt(a@, b@),
{
    let mut i: usize = 0;
    while i < 32
        invariant
            i <= 32,
            a@.len() == 32,
            b@.len() == 32,
            forall|j: int| 0 <= j < i ==> a@[j] == b@[j],
        decreases 32 - i,
    {
        if a[i] < b[i] {
            assert(bytes_lt(a@, b@));
            return true;
        }
        if a[i] > b[i] {
            assert(bytes_lt(b@, a@));
            proof {
                lemma_bytes_lt_asymmetric(b@, a@);
            }
            return false;
        }
        i += 1;
    }
    assert(a@ =~= b@);
    false
}

/// Copies a slice of exactly 32 bytes into an array.
fn array32_from_slice(value: &[u8]) -> (out: [u8; 32])
    requires
        value@.len() == 32,
    ensures
        out@ == value@,
{
    let mut out = [0u8; 32];
    let mut i: usize = 0;
    while i < 32
        invariant
            i <= 32,
            value@.len() == 32,
            out@.len() == 32,
            forall|j: int| 0 <= j < i ==> out@[j] == value@[j],
        decreases 32 - i,
    {
        out[i] = value[i];
        i += 1;
    }
    assert(out@ =~= value@);
    out
}

/// A 32-byte digest.
#[derive(Clone, Copy, Debug)]
pub struct Hash(pub [u8; 32]);

impl View for Hash {
    type V = Seq<u8>;

    open spec fn view(&self) -> Seq<u8> {
        self.0@
    }
}

impl PartialEq for Hash {
    fn eq(&self, other: &Self) -> (r: bool) {
        bytes32_eq(&self.0, &other.0)
    }
}

impl vstd::std_specs::cmp::PartialEqSpecImpl for Hash {
    open spec fn obeys_eq_spec() -> bool {
        true
    }

    open spec fn eq_spec(&self, other: &Self) -> bool {
        self.0@ == other.0@
    }
}

impl Eq for Hash {
}

impl Default for Hash {
    fn default() -> (h: Self)
        ensures
            h@ == zero32(),
    {
        Hash::zero()
    }
}

impl From<[u8; 32]> for Hash {
    fn from(value: [u8; 32]) -> (h: Self) {
        Hash(value)
    }
}

impl vstd::std_specs::convert::FromSpecImpl<[u8; 32]> for Hash {
    open spec fn obeys_from_spec() -> bool {
        true
    }

    open spec fn from_spec(value: [u8; 32]) -> Self {
        Hash(value)
    }
}

impl Hash {
    /// The all-zero digest.
    pub fn zero() -> (h: Self)
        ensures
            h@ == zero32(),
    {
        let h = Hash([0u8; 32]);
        assert(h@ =~= zero32());
        h
    }

    /// The BLAKE3 digest of `bytes`.
    pub fn digest(bytes: &[u8]) -> (h: Self)
        ensures
            h@ == blake3_digest(bytes@),
    {
        Hash(blake3_hash(bytes))
    }

    pub fn as_bytes(&self) -> (b: &[u8; 32])
        ensures
            b@ == self@,
    {
        &self.0
    }

    /// The hex text of the first six bytes.
    pub fn short(&self) -> (s: String)
        ensures
            s@ == hex_text(self@.subrange(0, 6)),
    {
        let head = self.0.as_slice().split_at(6).0;
        hex_encode(head)
    }

    /// The hex text of all 32 bytes.
    pub fn to_string(&self) -> (s: String)
        ensures
            s@ == hex_text(self@),
    {
        hex_encode(self.0.as_slice())
    }

    /// A digest from a slice, which must hold exactly 32 bytes.
    pub fn try_from(value: &[u8]) -> (r: Result<Self, DustError>)
        ensures
            value@.len() == 32 ==> (r matches Ok(h) && h@ == value@),
            value@.len() != 32 ==> r == Err::<Self, DustError>(
                DustError::InvalidHashLength { received: value@.len() as usize },
            ),
    {
        if value.len() != 32 {
            return Err(DustError::InvalidHashLength { received: value.len() });
        }
        Ok(Hash(array32_from_slice(value)))
    }

    /// A digest from its hex text.
    pub fn from_str(s: &str) -> (r: Result<Self, DustError>)
        ensures
            match hex_bytes(s.spec_bytes()) {
                None => r == Err::<Self, DustError>(
                    DustError::InvalidHashLength { received: (s.spec_bytes().len() / 2) as usize },
                ),
                Some(b) => if b.len() == 32 {
                    r matches Ok(h) && h@ == b
                } else {
                    r == Err::<Self, DustError>(
                        DustError::InvalidHashLength { received: b.len() as usize },
                    )
                },
            },
    {
        let text = s.as_bytes();
        match hex_decode(text) {
            None => Err(DustError::InvalidHashLength { received: text.len() / 2 }),
            Some(bytes) => Hash::try_from(bytes.as_slice()),
        }
    }
}

/// An account address: 32 bytes.
#[derive(Clone, Copy, Debug)]
pub struct Address(pub [u8; 32]);

impl View for Address {
    type V = Seq<u8>;

    open spec fn view(&self) -> Seq<u8> {
        self.0@
    }
}

impl PartialEq for Address {
    fn eq(&self, other: &Self) -> (r: bool) {
        bytes32_eq(&self.0, &other.0)
    }
}

impl vstd::std_specs::cmp::PartialEqSpecImpl for Address {
    open spec fn obeys_eq_spec() -> bool {
        true
    }

    open spec fn eq_spec(&self, other: &Self) -> bool {
        self.0@ == other.0@
    }
}

impl Eq for Address {
}

impl Default for Address {
    fn default() -> (a: Self)
        ensures
            a@ == zero32(),
    {
        Address::zero()
    }
}

/// The text `dust1` as bytes.
pub open spec fn address_prefix() -> Seq<u8> {
    seq![100u8, 117u8, 115u8, 116u8, 49u8]
}

/// The hex part of an address text: what follows a leading `dust1`, or all of it.
pub open spec fn address_hex_part(text: Seq<u8>) -> Seq<u8> {
    if text.len() >= 5 && text.subrange(0, 5) == address_prefix() {
        text.subrange(5, text.len() as int)
    } else {
        text
    }
}

/// The address that a text spells: 32 bytes of hex, with or without `dust1`.
pub open spec fn parsed_address(text: Seq<u8>) -> Option<Seq<u8>> {
    match hex_bytes(address_hex_part(text)) {
        Some(b) => if b.len() == 32 {
            Some(b)
        } else {
            None
        },
        None => None,
    }
}

/// An address's text, with `dust1` in front (as `Address::to_string` writes
/// it) or without, reads back as the address.
pub proof fn lemma_address_text_roundtrip(a: Seq<u8>)
    requires
        a.len() == 32,
    ensures
        parsed_address(encode_utf8(seq!['d', 'u', 's', 't', '1'] + hex_text(a))) == Some(a),
        parsed_address(encode_utf8(hex_text(a))) == Some(a),
{
    let h = hex_text(a);
    let p = seq!['d', 'u', 's', 't', '1'];
    let t = p + h;
    lemma_hex_text_ascii(a);
    lemma_hex_roundtrip(a);
    assert(is_ascii_chars(p));
    is_ascii_chars_concat(t, p, h);
    is_ascii_chars_encode_utf8(t);
    let e = encode_utf8(t);
    let eh = encode_utf8(h);
    assert(e.len() == t.len());
    assert(e.subrange(0, 5) =~= address_prefix()) by {
        assert forall|i: int| 0 <= i < 5 implies e.subrange(0, 5)[i] == address_prefix()[i] by {
            assert(e[i] == t[i] as u8);
        }
    }
    assert(e.subrange(5, e.len() as int) =~= eh) by {
        assert forall|i: int| 0 <= i < eh.len() implies e.subrange(5, e.len() as int)[i] == eh[i] by {
            assert(e[i + 5] == t[i + 5] as u8);
            assert(t[i + 5] == h[i]);
        }
    }
    assert(eh[1] == h[1] as u8);
    assert(eh[1] != 117u8) by {
        let n = a[0] as int % 16;
        assert(0 <= n < 16);
    }
    assert(eh.subrange(0, 5)[1] == eh[1]);
    assert(eh.subrange(0, 5) != address_prefix());
}

/// The digest that a text spells: 32 bytes of hex.
pub open spec fn parsed_hash(text: Seq<u8>) -> Option<Seq<u8>> {
    match hex_bytes(text) {
        Some(b) => if b.len() == 32 {
            Some(b)
        } else {
            None
        },
        None => None,
    }
}

impl Address {
    /// The all-zero address.
    pub fn zero() -> (a: Self)
        ensures
            a@ == zero32(),
    {
        let a = Address([0u8; 32]);
        assert(a@ =~= zero32());
        a
    }

    /// The address of a public key: its BLAKE3 digest.
    pub fn from_public_key(public_key: &[u8; 32]) -> (a: Self)
        ensures
            a@ == blake3_digest(public_key@),
    {
        Address(blake3_hash(public_key.as_slice()))
    }

    pub fn as_bytes(&self) -> (b: &[u8; 32])
        ensures
            b@ == self@,
    {
        &self.0
    }

    /// `dust:` and the hex text of the first five bytes.
    pub fn short(&self) -> (s: String)
        ensures
            s@ == seq!['d', 'u', 's', 't', ':'] + hex_text(self@.subrange(0, 5)),
    {
        let head = self.0.as_slice().split_at(5).0;
        let mut s = String::from_str("dust:");
        let h = hex_encode(head);
        proof {
            reveal_strlit("dust:");
        }
        s.append(h.as_str());
        s
    }

    /// `dust1` and the hex text of all 32 bytes.
    pub fn to_string(&self) -> (s: String)
        ensures
            s@ == seq!['d', 'u', 's', 't', '1'] + hex_text(self@),
    {
        let mut s = String::from_str("dust1");
        let h = hex_encode(self.0.as_slice());
        proof {
            reveal_strlit("dust1");
        }
        s.append(h.as_str());
        s
    }

    /// An address from a slice, which must hold exactly 32 bytes.
    pub fn try_from(value: &[u8]) -> (r: Result<Self, DustError>)
        ensures
            value@.len() == 32 ==> (r matches Ok(a) && a@ == value@),
            value@.len() != 32 ==> r == Err::<Self, DustError>(
                DustError::InvalidAddressLength { received: value@.len() as usize },
            ),
    {
        if value.len() != 32 {
            return Err(DustError::InvalidAddressLength { received: value.len() });
        }
        Ok(Address(array32_from_slice(value)))
    }

    /// An address from its text: hex, with or without the `dust1` prefix.
    pub fn from_str(s: &str) -> (r: Result<Self, DustError>)
        ensures
            ({
                let raw = address_hex_part(s.spec_bytes());
                match hex_bytes(raw) {
                    None => r == Err::<Self, DustError>(
                        DustError::InvalidAddressLength { received: (raw.len() / 2) as usize },
                    ),
                    Some(b) => if b.len() == 32 {
                        r matches Ok(a) && a@ == b
                    } else {
                        r == Err::<Self, DustError>(
                            DustError::InvalidAddressLength { received: b.len() as usize },
                        )
                    },
                }
            }),
    {
        let text = s.as_bytes();
        let raw = strip_address_prefix(text);
        match hex_decode(raw) {
            None => Err(DustError::InvalidAddressLength { received: raw.len() / 2 }),
            Some(bytes) => Address::try_from(bytes.as_slice()),
        }
    }
}

fn strip_address_prefix(text: &[u8]) -> (raw: &[u8])
    ensures
        raw@ == address_hex_part(text@),
{
    if text.len() >= 5 && text[0] == 100 && text[1] == 117 && text[2] == 115 && text[3] == 116
        && text[4] == 49 {
        let (head, tail) = text.split_at(5);
        assert(head@ =~= address_prefix());
        tail
    } else {
        proof {
            if text@.len() >= 5 && text@.subrange(0, 5) == address_prefix() {
                assert(text@.subrange(0, 5)[0] == 100u8);
            assert(text@.subrange(0, 5)[1] == 117u8);
            assert(text@.subrange(0, 5)[2] == 115u8);
            assert(text@.subrange(0, 5)[3] == 116u8);
            assert(text@.subrange(0, 5)[4] == 49u8);
            }
        }
        text
    }
}

} // verus!
