use vstd::prelude::*;

verus! {

broadcast use vstd::array::group_array_axioms;

/// What SHA-256 yields for a byte string.
pub uninterp spec fn sha256_of(data: Seq<u8>) -> Seq<u8>;

/// Copies a slice of exactly `N` bytes into an array.
pub fn from_bytes<const N: usize>(bytes: &[u8]) -> (r: [u8; N])
    requires
        bytes@.len() == N,
    ensures
        r@ == bytes@,
{
    let mut out: [u8; N] = [0u8; N];
    let mut i: usize = 0;
    while i < N
        invariant
            bytes@.len() == N,
            i <= N,
            out@.len() == N,
            forall|j: int| 0 <= j < i ==> out@[j] == bytes@[j],
        decreases N - i,
    {
        out[i] = bytes[i];
        i += 1;
    }
    assert(out@ =~= bytes@);
    out
}

/// A 32-byte digest.
#[derive(Clone, Copy, Debug, PartialEq, Eq, Hash)]
pub struct Hash {
    pub bytes: [u8; 32],
}

impl View for Hash {
    type V = Seq<u8>;

    open spec fn view(&self) -> Seq<u8> {
        self.bytes@
    }
}

/// The digest whose 32 bytes are all zero.
pub open spec fn zero_digest() -> Seq<u8> {
    Seq::new(32, |_i: int| 0u8)
}

impl Hash {
    /// Two digests are the same value exactly when their bytes agree.
    pub proof fn lemma_view_injective(a: Hash, b: Hash)
        ensures
            (a@ == b@) <==> a == b,
    {
        if a@ == b@ {
            assert(a.bytes =~= b.bytes);
        }
    }

    pub fn from_bytes(bytes: &[u8]) -> (r: Hash)
        requires
            bytes@.len() == 32,
        ensures
            r@ == bytes@,
    {
        Hash { bytes: from_bytes::<32>(bytes) }
    }

    pub fn zero() -> (r: Hash)
        ensures
            r@ == zero_digest(),
    {
        let r = Hash { bytes: [0u8; 32] };
        assert(r@ =~= zero_digest());
        r
    }

    pub fn to_vec(&self) -> (r: Vec<u8>)
        ensures
            r@ == self@,
    {
        let mut out: Vec<u8> = Vec::new();
        let mut i: usize = 0;
        while i < 32
            invariant
                i <= 32,
                self@.len() == 32,
                out@ =~= self@.subrange(0, i as int),
            decreases 32 - i,
        {
            out.push(self.bytes[i]);
            i += 1;
        }
        assert(out@ =~= self@);
        out
    }

    /// Compares two digests byte by byte.
    pub fn same_as(&self, other: &Hash) -> (r: bool)
        ensures
            r == (*self == *other),
    {
        proof {
            Hash::lemma_view_injective(*self, *other);
        }
        let mut i: usize = 0;
        while i < 32
            invariant
                i <= 32,
                self@.len() == 32,
                other@.len() == 32,
                forall|j: int| 0 <= j < i ==> self@[j] == other@[j],
            decreases 32 - i,
        {
            if self.bytes[i] != other.bytes[i] {
                return false;
            }
            i += 1;
        }
        assert(self@ =~= other@);
        true
    }

    /// The digest as lowercase hexadecimal, two digits per byte.
    pub fn to_hex(&self) -> (r: Vec<char>)
        ensures
            r@ == hex_of(self@),
    {
        hex(self.bytes.as_slice())
    }
}

/// Lowercase hexadecimal text of `bytes`, two digits per byte.
pub fn hex(bytes: &[u8]) -> (r: Vec<char>)
    ensures
        r@ == hex_of(bytes@),
{
    let mut out: Vec<char> = Vec::new();
    let mut i: usize = 0;
    while i < bytes.len()
        invariant
            i <= bytes@.len(),
            out@ == hex_of(bytes@.subrange(0, i as int)),
        decreases bytes@.len() - i,
    {
        let b = bytes[i];
        out.push(hex_digit(b / 16));
        out.push(hex_digit(b % 16));
        proof {
            let s = bytes@.subrange(0, i as int + 1);
            assert(s.drop_last() =~= bytes@.subrange(0, i as int));
        }
        i += 1;
    }
    assert(bytes@.subrange(0, bytes@.len() as int) =~= bytes@);
    out
}

/// The lowercase hexadecimal digit for a value below 16.
pub open spec fn spec_hex_digit(v: u8) -> char {
    if v < 10 {
        (48u8 + v) as char
    } else {
        (87u8 + v) as char
    }
}

/// Lowercase hexadecimal text of a byte string, high digit first.
pub open spec fn hex_of(bytes: Seq<u8>) -> Seq<char>
    decreases bytes.len(),
{
    if bytes.len() == 0 {
        Seq::empty()
    } else {
        let b = bytes.last();
        hex_of(bytes.drop_last()) + seq![spec_hex_digit(b / 16), spec_hex_digit(b % 16)]
    }
}

fn hex_digit(v: u8) -> (r: char)
    requires
        v < 16,
    ensures
        r == spec_hex_digit(v),
{
    if v < 10 {
        (48u8 + v) as char
    } else {
        (87u8 + v) as char
    }
}

/// Relies on sha2::Sha256::digest: the SHA-256 digest of `data`.
#[verifier::external_body]
pub(crate) fn sha256(data: &[u8]) -> (r: Hash)
    ensures
        r@ == sha256_of(data@),
{
    Hash { bytes: <sha2::Sha256 as sha2::Digest>::digest(data).into() }
}

/// The low 20 bytes of a digest, which name an account.
#[derive(Clone, Copy, Debug, PartialEq, Eq, Hash)]
pub struct Address {
    pub bytes: [u8; 20],
}

impl View for Address {
    type V = Seq<u8>;

    open spec fn view(&self) -> Seq<u8> {
        self.bytes@
    }
}

impl Address {
    pub fn from_bytes(bytes: &[u8]) -> (r: Address)
        requires
            bytes@.len() == 20,
        ensures
            r@ == bytes@,
    {
        Address { bytes: from_bytes::<20>(bytes) }
    }

    /// The address as lowercase hexadecimal.
    pub fn to_hex(&self) -> (r: Vec<char>)
        ensures
            r@ == hex_of(self@),
    {
        hex(self.bytes.as_slice())
    }
}

/// A second 32-byte digest type, kept apart from `Hash` by its type alone.
#[derive(Clone, Copy, Debug, PartialEq, Eq, Hash)]
pub struct MyHash {
    pub bytes: [u8; 32],
}

impl View for MyHash {
    type V = Seq<u8>;

    open spec fn view(&self) -> Seq<u8> {
        self.bytes@
    }
}

impl MyHash {
    pub fn from_bytes(bytes: &[u8]) -> (r: MyHash)
        requires
            bytes@.len() == 32,
        ensures
            r@ == bytes@,
    {
        MyHash { bytes: from_bytes::<32>(bytes) }
    }

    pub fn zero() -> (r: MyHash)
        ensures
            r@ == zero_digest(),
    {
        let r = MyHash { bytes: [0u8; 32] };
        assert(r@ =~= zero_digest());
        r
    }

    /// The digest as lowercase hexadecimal.
    pub fn to_hex(&self) -> (r: Vec<char>)
        ensures
            r@ == hex_of(self@),
    {
        hex(self.bytes.as_slice())
    }
}

} // verus!
