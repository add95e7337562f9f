//! Artifact identity.
//!
//! A PVF (parachain validation function) is untrusted validation code. Its
//! prepared form, the artifact, is cached on disk under a name derived
//! deterministically from the code's content hash, so that the same code is
//! prepared at most once.

use blake2::digest::consts::U32;
use blake2::Blake2b;
use blake2::Digest;
use vstd::prelude::*;
use vstd::string::StringExecFns;

verus! {

/// The content hash the artifact identity is built from; a function of the
/// code bytes alone.
pub uninterp spec fn hash_of(code: Seq<u8>) -> Seq<u8>;

/// Relies on blake2's `Blake2b` with a 32-byte output size: the digest is a
/// function of the input bytes alone and is exactly 32 bytes long.
#[verifier::external_body]
fn blake2_256(code: &[u8]) -> (r: Vec<u8>)
    ensures
        r@ == hash_of(code@),
        r@.len() == 32,
{
    Blake2b::<U32>::digest(code).to_vec()
}

/// A PVF: the validation code as submitted by a caller, immutable once
/// submitted.
#[derive(Debug)]
pub struct Pvf {
    code: Vec<u8>,
}

impl View for Pvf {
    type V = Seq<u8>;

    closed spec fn view(&self) -> Seq<u8> {
        self.code@
    }
}

/// The artifact identity a PVF with code `code` maps to.
pub open spec fn artifact_id_of(code: Seq<u8>) -> Seq<u8> {
    hash_of(code)
}

impl Pvf {
    /// Wraps the given code bytes.
    pub fn from_code(code: Vec<u8>) -> (r: Pvf)
        ensures
            r@ == code@,
    {
        Pvf { code }
    }

    /// Builds a small stand-in PVF whose code holds the four little-endian
    /// bytes of `discriminator`; distinct discriminators give distinct
    /// artifact identities as far as the content hash does.
    pub fn from_discriminator(discriminator: u32) -> (r: Pvf)
        ensures
            r@ == discriminator_code(discriminator),
    {
        proof {
            assert(discriminator & 0xff < 256) by (bit_vector);
            assert((discriminator >> 8) & 0xff < 256) by (bit_vector);
            assert((discriminator >> 16) & 0xff < 256) by (bit_vector);
            assert((discriminator >> 24) & 0xff < 256) by (bit_vector);
        }
        let mut code: Vec<u8> = Vec::new();
        code.push((discriminator & 0xff) as u8);
        code.push(((discriminator >> 8) & 0xff) as u8);
        code.push(((discriminator >> 16) & 0xff) as u8);
        code.push(((discriminator >> 24) & 0xff) as u8);
        proof {
            assert(code@ =~= discriminator_code(discriminator));
        }
        Pvf { code }
    }

    /// The code bytes.
    pub fn code(&self) -> (r: &Vec<u8>)
        ensures
            r@ == self@,
    {
        &self.code
    }

    /// Derives the artifact identity of this PVF from its code.
    pub fn as_artifact_id(&self) -> (r: ArtifactId)
        ensures
            r@ == artifact_id_of(self@),
    {
        ArtifactId { hash: blake2_256(self.code.as_slice()) }
    }
}

/// The four little-endian bytes of a discriminator.
pub open spec fn discriminator_code(d: u32) -> Seq<u8> {
    seq![
        (d & 0xff) as u8,
        ((d >> 8) & 0xff) as u8,
        ((d >> 16) & 0xff) as u8,
        ((d >> 24) & 0xff) as u8,
    ]
}

/// Identity of a PVF artifact: the content hash of its code. Immutable; the
/// cache key of the artifact store and the stem of the artifact's file name.
#[derive(Debug)]
pub struct ArtifactId {
    hash: Vec<u8>,
}

impl View for ArtifactId {
    type V = Seq<u8>;

    closed spec fn view(&self) -> Seq<u8> {
        self.hash@
    }
}

impl Clone for ArtifactId {
    fn clone(&self) -> (r: Self)
        ensures
            r@ == self@,
    {
        let mut hash: Vec<u8> = Vec::new();
        let mut i: usize = 0;
        while i < self.hash.len()
            invariant
                i <= self.hash.len(),
                hash@ == self.hash@.take(i as int),
            decreases self.hash.len() - i,
        {
            hash.push(self.hash[i]);
            i = i + 1;
        }
        proof {
            assert(hash@ =~= self.hash@);
        }
        ArtifactId { hash }
    }
}

impl ArtifactId {
    /// Whether two identities name the same artifact.
    pub fn equals(&self, other: &ArtifactId) -> (r: bool)
        ensures
            r == (self@ == other@),
    {
        if self.hash.len() != other.hash.len() {
            proof {
                assert(self@ != other@);
            }
            return false;
        }
        let mut i: usize = 0;
        while i < self.hash.len()
            invariant
                i <= self.hash.len(),
                self.hash@.len() == other.hash@.len(),
                forall|j: int| 0 <= j < i ==> self.hash@[j] == other.hash@[j],
            decreases self.hash.len() - i,
        {
            if self.hash[i] != other.hash[i] {
                return false;
            }
            i = i + 1;
        }
        proof {
            assert(self@ =~= other@);
        }
        true
    }

    /// The file name the artifact is cached under, inside the cache
    /// directory: a fixed prefix followed by the lowercase hex digits of the
    /// identity.
    pub fn file_name(&self) -> (r: String)
        ensures
            r@ == file_name_of(self@),
    {
        let mut name = String::from_str("wasmtime_0x");
        let mut i: usize = 0;
        while i < self.hash.len()
            invariant
                i <= self.hash.len(),
                name@ == "wasmtime_0x"@ + hex_of(self.hash@.take(i as int)),
            decreases self.hash.len() - i,
        {
            let byte = self.hash[i];
            proof {
                assert(byte >> 4 < 16) by (bit_vector);
                assert(byte & 0xf < 16) by (bit_vector);
            }
            push_hex_digit(&mut name, byte >> 4);
            push_hex_digit(&mut name, byte & 0xf);
            proof {
                assert(hex_of(self.hash@.take(i + 1)) =~= hex_of(self.hash@.take(i as int)).push(
                    hex_digit(self.hash@[i as int] >> 4),
                ).push(hex_digit(self.hash@[i as int] & 0xf)));
                assert(name@ =~= "wasmtime_0x"@ + hex_of(self.hash@.take(i + 1)));
            }
            i = i + 1;
        }
        proof {
            assert(self.hash@.take(self.hash@.len() as int) =~= self.hash@);
        }
        name
    }
}

/// The file name an artifact identity maps to.
pub open spec fn file_name_of(id: Seq<u8>) -> Seq<char> {
    "wasmtime_0x"@ + hex_of(id)
}

/// The lowercase hex spelling of a byte string: two digits per byte, high
/// nibble first.
pub open spec fn hex_of(bytes: Seq<u8>) -> Seq<char> {
    Seq::new(bytes.len() * 2, |i: int| {
        if i % 2 == 0 {
            hex_digit((bytes[i / 2] >> 4) as u8)
        } else {
            hex_digit((bytes[i / 2] & 0xf) as u8)
        }
    })
}

/// The lowercase hex digit of a value below 16.
pub open spec fn hex_digit(n: u8) -> char {
    if n == 0 { '0' }
    else if n == 1 { '1' }
    else if n == 2 { '2' }
    else if n == 3 { '3' }
    else if n == 4 { '4' }
    else if n == 5 { '5' }
    else if n == 6 { '6' }
    else if n == 7 { '7' }
    else if n == 8 { '8' }
    else if n == 9 { '9' }
    else if n == 10 { 'a' }
    else if n == 11 { 'b' }
    else if n == 12 { 'c' }
    else if n == 13 { 'd' }
    else if n == 14 { 'e' }
    else { 'f' }
}

/// Appends the one hex digit of `n` to `s`.
fn push_hex_digit(s: &mut String, n: u8)
    requires
        n < 16,
    ensures
        final(s)@ == old(s)@.push(hex_digit(n)),
{
    proof {
        reveal_strlit("0");
        reveal_strlit("1");
        reveal_strlit("2");
        reveal_strlit("3");
        reveal_strlit("4");
        reveal_strlit("5");
        reveal_strlit("6");
        reveal_strlit("7");
        reveal_strlit("8");
        reveal_strlit("9");
        reveal_strlit("a");
        reveal_strlit("b");
        reveal_strlit("c");
        reveal_strlit("d");
        reveal_strlit("e");
        reveal_strlit("f");
    }
    if n == 0 { s.append("0"); }
    else if n == 1 { s.append("1"); }
    else if n == 2 { s.append("2"); }
    else if n == 3 { s.append("3"); }
    else if n == 4 { s.append("4"); }
    else if n == 5 { s.append("5"); }
    else if n == 6 { s.append("6"); }
    else if n == 7 { s.append("7"); }
    else if n == 8 { s.append("8"); }
    else if n == 9 { s.append("9"); }
    else if n == 10 { s.append("a"); }
    else if n == 11 { s.append("b"); }
    else if n == 12 { s.append("c"); }
    else if n == 13 { s.append("d"); }
    else if n == 14 { s.append("e"); }
    else { s.append("f"); }
    proof {
        assert(s@ =~= old(s)@.push(hex_digit(n)));
    }
}


/// Whether `c` is a lowercase hex digit, as the file names spell them.
pub open spec fn is_hex_digit(c: char) -> bool {
    (48 <= c as u32 && c as u32 <= 57) || (97 <= c as u32 && c as u32 <= 102)
}

/// The value of a lowercase hex digit.
pub open spec fn hex_val(c: char) -> u8 {
    if 48 <= c as u32 && c as u32 <= 57 {
        (c as u32 - 48) as u8
    } else {
        (c as u32 - 87) as u8
    }
}

/// The bytes a string of hex digits spells, two digits per byte.
pub open spec fn decoded_bytes(digits: Seq<char>) -> Seq<u8> {
    Seq::new((digits.len() / 2) as nat, |i: int| {
        (hex_val(digits[2 * i]) * 16 + hex_val(digits[2 * i + 1])) as u8
    })
}

/// Whether `name` is a well-formed artifact file name: the fixed prefix
/// followed by an even number of lowercase hex digits.
pub open spec fn valid_file_name(name: Seq<char>) -> bool {
    &&& name.len() >= 11
    &&& name.take(11) == "wasmtime_0x"@
    &&& (name.len() - 11) % 2 == 0
    &&& forall|i: int| 11 <= i < name.len() ==> is_hex_digit(#[trigger] name[i])
}

/// The identity a well-formed artifact file name spells.
pub open spec fn parsed_id(name: Seq<char>) -> Seq<u8> {
    decoded_bytes(name.skip(11))
}

/// Spelling a digit and reading it back gives the digit; its spelling is a
/// hex digit.
proof fn lemma_hex_digit_round_trip(n: u8)
    requires
        n < 16,
    ensures
        is_hex_digit(hex_digit(n)),
        hex_val(hex_digit(n)) == n,
{
}

/// Reading a hex digit and spelling it again gives the same character.
proof fn lemma_hex_val_round_trip(c: char)
    requires
        is_hex_digit(c),
    ensures
        hex_val(c) < 16,
        hex_digit(hex_val(c)) == c,
{
}

/// An artifact's file name is well formed and spells the artifact's own
/// identity: writing a name and reading it back loses nothing.
pub proof fn lemma_file_name_round_trip(id: Seq<u8>)
    ensures
        valid_file_name(file_name_of(id)),
        parsed_id(file_name_of(id)) == id,
{
    reveal_strlit("wasmtime_0x");
    let name = file_name_of(id);
    assert(name.take(11) =~= "wasmtime_0x"@);
    assert forall|i: int| 11 <= i < name.len() implies is_hex_digit(#[trigger] name[i]) by {
        let j = i - 11;
        assert(name[i] == hex_of(id)[j]);
        let b = id[j / 2];
        assert(b >> 4 < 16 && b & 0xf < 16) by (bit_vector);
        if j % 2 == 0 {
            lemma_hex_digit_round_trip(b >> 4);
        } else {
            lemma_hex_digit_round_trip(b & 0xf);
        }
    }
    assert forall|j: int| 0 <= j < id.len() implies parsed_id(name)[j] == id[j] by {
        let digits = name.skip(11);
        assert(digits[2 * j] == hex_of(id)[2 * j]);
        assert(digits[2 * j + 1] == hex_of(id)[2 * j + 1]);
        let b = id[j];
        assert(b >> 4 < 16 && b & 0xf < 16) by (bit_vector);
        lemma_hex_digit_round_trip(b >> 4);
        lemma_hex_digit_round_trip(b & 0xf);
        assert((b >> 4) * 16 + (b & 0xf) == b) by (bit_vector);
    }
    assert(parsed_id(name) =~= id);
}

/// Reading a well-formed file name and spelling the identity again gives
/// the same name: no two well-formed names collide on an identity.
pub proof fn lemma_parsed_id_round_trip(name: Seq<char>)
    requires
        valid_file_name(name),
    ensures
        file_name_of(parsed_id(name)) == name,
{
    reveal_strlit("wasmtime_0x");
    let id = parsed_id(name);
    let spelled = file_name_of(id);
    assert(spelled.len() == name.len());
    assert forall|i: int| 0 <= i < name.len() implies spelled[i] == name[i] by {
        if i < 11 {
            assert(spelled[i] == "wasmtime_0x"@[i]);
            assert(name.take(11)[i] == name[i]);
        } else {
            let j = i - 11;
            let digits = name.skip(11);
            assert(spelled[i] == hex_of(id)[j]);
            let d1 = digits[2 * (j / 2)];
            let d2 = digits[2 * (j / 2) + 1];
            assert(is_hex_digit(d1) && is_hex_digit(d2));
            lemma_hex_val_round_trip(d1);
            lemma_hex_val_round_trip(d2);
            let v1 = hex_val(d1);
            let v2 = hex_val(d2);
            assert(id[j / 2] == (v1 * 16 + v2) as u8);
            assert(v1 < 16 && v2 < 16 ==> ((v1 * 16 + v2) as u8) >> 4 == v1 && ((v1 * 16
                + v2) as u8) & 0xf == v2) by (bit_vector);
            if j % 2 == 0 {
                assert(name[i] == d1);
            } else {
                assert(name[i] == d2);
            }
        }
    }
    assert(spelled =~= name);
}

/// The value of one lowercase hex digit, or nothing for any other
/// character.
fn hex_val_of(c: char) -> (r: Option<u8>)
    ensures
        r == (if is_hex_digit(c) {
            Some(hex_val(c))
        } else {
            Option::<u8>::None
        }),
        r is Some ==> r->0 < 16,
{
    let v = c as u32;
    if 48 <= v && v <= 57 {
        Some((v - 48) as u8)
    } else if 97 <= v && v <= 102 {
        Some((v - 87) as u8)
    } else {
        None
    }
}

impl ArtifactId {
    /// Reads an artifact identity back from a cache file's name; a name
    /// this host never wrote is rejected.
    #[verifier::loop_isolation(false)]
    pub fn from_file_name(name: &str) -> (r: Option<ArtifactId>)
        ensures
            match r {
                Some(id) => valid_file_name(name@) && id@ == parsed_id(name@),
                None => !valid_file_name(name@),
            },
    {
        proof {
            reveal_strlit("wasmtime_0x");
        }
        let n = name.unicode_len();
        if n < 11 {
            return None;
        }
        if !crate::variant::str_has_prefix(name, "wasmtime_0x") {
            proof {
                assert("wasmtime_0x"@.len() == 11);
            }
            return None;
        }
        if (n - 11) % 2 != 0 {
            return None;
        }
        let mut hash: Vec<u8> = Vec::new();
        let mut i: usize = 11;
        while i < n
            invariant
                11 <= i <= n,
                (i - 11) % 2 == 0,
                hash@.len() == (i - 11) / 2,
                forall|j: int| 11 <= j < i ==> is_hex_digit(#[trigger] name@[j]),
                forall|k: int|
                    0 <= k < hash@.len() ==> hash@[k] == (hex_val(name@[11 + 2 * k]) * 16
                        + hex_val(name@[11 + 2 * k + 1])) as u8,
            decreases n - i,
        {
            let hi = match hex_val_of(name.get_char(i)) {
                Some(v) => v,
                None => {
                    return None;
                },
            };
            let lo = match hex_val_of(name.get_char(i + 1)) {
                Some(v) => v,
                None => {
                    return None;
                },
            };
            hash.push(hi * 16 + lo);
            i = i + 2;
        }
        proof {
            assert(name@.take(11) =~= "wasmtime_0x"@);
            assert(valid_file_name(name@));
            assert forall|k: int| 0 <= k < hash@.len() implies hash@[k] == parsed_id(name@)[k] by {
                assert(name@.skip(11)[2 * k] == name@[11 + 2 * k]);
                assert(name@.skip(11)[2 * k + 1] == name@[11 + 2 * k + 1]);
            }
            assert(hash@ =~= parsed_id(name@));
        }
        Some(ArtifactId { hash })
    }
}

} // verus!
