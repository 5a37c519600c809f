//! SHA-256 hashes of sources and rendered files, and their hexadecimal form.

use sha2::Digest;
use vstd::prelude::*;
use vstd::string::StrSliceExecFns;

verus! {

/// The SHA-256 digest of `data`, as computed by the `sha2` crate.
pub uninterp spec fn sha256_digest(data: Seq<u8>) -> Seq<u8>;

/// Calls `sha2::Sha256::digest`; the contract claims only that the result
/// is the digest of exactly the bytes given (named `sha256_digest`), and
/// its 32 bytes come from the array type.
#[verifier::external_body]
fn sha256(data: &[u8]) -> (r: [u8; 32])
    ensures
        r@ == sha256_digest(data@),
{
    sha2::Sha256::digest(data).into()
}

/// Calls `String::push`, which appends one character.
#[verifier::external_body]
pub(crate) fn push_char(s: &mut String, c: char)
    ensures
        final(s)@ == old(s)@.push(c),
{
    s.push(c)
}

/// The digit that stands for `n` (below 16) in lower-case hexadecimal.
pub open spec fn hex_digit(n: int) -> char {
    if n < 10 {
        (48 + n) as char
    } else {
        (87 + n) as char
    }
}

/// Bytes written as two lower-case hexadecimal digits each.
pub open spec fn hex_string(bytes: Seq<u8>) -> Seq<char>
    decreases bytes.len(),
{
    if bytes.len() == 0 {
        Seq::empty()
    } else {
        hex_string(bytes.drop_last()).push(hex_digit((bytes.last() / 16) as int)).push(
            hex_digit((bytes.last() % 16) as int),
        )
    }
}

/// The value of a hexadecimal digit, in either case.
pub open spec fn hex_value(c: char) -> Option<u8> {
    if '0' <= c && c <= '9' {
        Some((c as u32 - 48) as u8)
    } else if 'a' <= c && c <= 'f' {
        Some((c as u32 - 87) as u8)
    } else if 'A' <= c && c <= 'F' {
        Some((c as u32 - 55) as u8)
    } else {
        None
    }
}

/// The bytes that a string of hexadecimal digit pairs stands for.
pub open spec fn hex_decode(s: Seq<char>) -> Option<Seq<u8>>
    decreases s.len(),
{
    if s.len() == 0 {
        Some(Seq::empty())
    } else if s.len() == 1 {
        None
    } else {
        match (
            hex_decode(s.subrange(0, s.len() - 2)),
            hex_value(s[s.len() - 2]),
            hex_value(s[s.len() - 1]),
        ) {
            (Some(prev), Some(hi), Some(lo)) => Some(prev.push((hi * 16 + lo) as u8)),
            _ => None,
        }
    }
}

/// A SHA-256 hash.
#[derive(Clone, Copy, Debug, Eq, Hash, Ord, PartialEq, PartialOrd)]
pub struct Sha256Hash {
    bytes: [u8; 32],
}

impl View for Sha256Hash {
    type V = Seq<u8>;

    closed spec fn view(&self) -> Seq<u8> {
        self.bytes@
    }
}

/// The digit that stands for `n`.
fn hex_digit_char(n: u8) -> (c: char)
    requires
        n < 16,
    ensures
        c == hex_digit(n as int),
{
    if n < 10 {
        (48u8 + n) as char
    } else {
        (87u8 + n) as char
    }
}

/// The value of the hexadecimal digit `c`, if it is one.
fn hex_value_of(c: char) -> (r: Option<u8>)
    ensures
        r == hex_value(c),
        r matches Some(v) ==> v < 16,
{
    if '0' <= c && c <= '9' {
        Some((c as u32 - 48) as u8)
    } else if 'a' <= c && c <= 'f' {
        Some((c as u32 - 87) as u8)
    } else if 'A' <= c && c <= 'F' {
        Some((c as u32 - 55) as u8)
    } else {
        None
    }
}

/// Decoding the hexadecimal form of bytes gives the bytes back.
pub proof fn law_hex_roundtrip(bytes: Seq<u8>)
    ensures
        hex_decode(hex_string(bytes)) == Some(bytes),
        hex_string(bytes).len() == 2 * bytes.len(),
    decreases bytes.len(),
{
    if bytes.len() > 0 {
        let prev = bytes.drop_last();
        law_hex_roundtrip(prev);
        let s = hex_string(bytes);
        let b = bytes.last();
        assert(s.subrange(0, s.len() - 2) =~= hex_string(prev));
        let hi = b / 16;
        let lo = b % 16;
        assert(hex_value(hex_digit(hi as int)) == Some(hi as u8));
        assert(hex_value(hex_digit(lo as int)) == Some(lo as u8));
        assert(prev.push((hi * 16 + lo) as u8) =~= bytes);
    }
}

impl Sha256Hash {
    /// The SHA-256 hash of `data`.
    pub fn from_bytes(data: &[u8]) -> (r: Sha256Hash)
        ensures
            r@ == sha256_digest(data@),
    {
        Sha256Hash { bytes: sha256(data) }
    }

    /// The hash with the given 32 bytes.
    pub fn from_array(bytes: [u8; 32]) -> (r: Sha256Hash)
        ensures
            r@ == bytes@,
    {
        Sha256Hash { bytes }
    }

    /// The 32 bytes of the hash.
    pub fn as_array(&self) -> (r: [u8; 32])
        ensures
            r@ == self@,
    {
        self.bytes
    }

    /// Whether two hashes are the same.
    pub fn hash_eq(&self, other: &Sha256Hash) -> (r: bool)
        ensures
            r == (self@ == other@),
    {
        let mut i: usize = 0;
        while i < 32
            invariant
                i <= 32,
                self@.len() == 32,
                other@.len() == 32,
                forall|k: int| 0 <= k < i ==> self@[k] == other@[k],
            decreases 32 - i,
        {
            if self.bytes[i] != other.bytes[i] {
                assert(self@[i as int] != other@[i as int]);
                return false;
            }
            i = i + 1;
        }
        assert(self@ =~= other@);
        true
    }

    /// The hash in lower-case hexadecimal: 64 digits.
    pub fn to_hex(&self) -> (r: String)
        ensures
            r@ == hex_string(self@),
    {
        let mut r = String::new();
        let mut i: usize = 0;
        assert(self@.subrange(0, 0) =~= Seq::<u8>::empty());
        while i < 32
            invariant
                i <= 32,
                self@.len() == 32,
                r@ == hex_string(self@.subrange(0, i as int)),
            decreases 32 - i,
        {
            let b = self.bytes[i];
            assert(self@.subrange(0, i + 1).drop_last() =~= self@.subrange(0, i as int));
            push_char(&mut r, hex_digit_char(b / 16));
            push_char(&mut r, hex_digit_char(b % 16));
            i = i + 1;
        }
        assert(self@.subrange(0, 32) =~= self@);
        r
    }

    /// Reads a hash written as 64 hexadecimal digits, in either case.
    pub fn from_hex(s: &str) -> (r: Option<Sha256Hash>)
        ensures
            match r {
                Some(h) => s@.len() == 64 && hex_decode(s@) == Some(h@),
                None => s@.len() != 64 || hex_decode(s@) is None,
            },
    {
        let n = s.unicode_len();
        if n != 64 {
            return None;
        }
        let mut bytes: [u8; 32] = [0u8; 32];
        let mut i: usize = 0;
        assert(s@.subrange(0, 0) =~= Seq::<char>::empty());
        while i < 32
            invariant
                i <= 32,
                n == s@.len() == 64,
                hex_decode(s@.subrange(0, 2 * i as int)) == Some(bytes@.subrange(0, i as int)),
            decreases 32 - i,
        {
            let hi = match hex_value_of(s.get_char(2 * i)) {
                Some(v) => v,
                None => {
                    proof {
                        lemma_hex_decode_prefix(s@, 2 * i as int + 2);
                    }
                    assert(s@.subrange(0, 2 * i + 2)[2 * i as int] == s@[2 * i as int]);
                    return None;
                },
            };
            let lo = match hex_value_of(s.get_char(2 * i + 1)) {
                Some(v) => v,
                None => {
                    proof {
                        lemma_hex_decode_prefix(s@, 2 * i as int + 2);
                    }
                    assert(s@.subrange(0, 2 * i + 2)[2 * i + 1] == s@[2 * i + 1]);
                    return None;
                },
            };
            let ghost before = bytes@;
            bytes[i] = hi * 16 + lo;
            proof {
                let t = s@.subrange(0, 2 * i + 2);
                assert(t.subrange(0, t.len() - 2) =~= s@.subrange(0, 2 * i as int));
                assert(t[t.len() - 2] == s@[2 * i as int]);
                assert(t[t.len() - 1] == s@[2 * i + 1]);
                assert(bytes@.subrange(0, i as int) =~= before.subrange(0, i as int));
                assert(bytes@.subrange(0, i + 1) =~= before.subrange(0, i as int).push(
                    (hi * 16 + lo) as u8,
                ));
            }
            i = i + 1;
        }
        assert(s@.subrange(0, 64) =~= s@);
        assert(bytes@.subrange(0, 32) =~= bytes@);
        Some(Sha256Hash { bytes })
    }
}

/// A string whose decoding fails somewhere before `k` fails to decode.
proof fn lemma_hex_decode_prefix(s: Seq<char>, k: int)
    requires
        0 <= k <= s.len(),
        k % 2 == 0,
        hex_decode(s.subrange(0, k)) is None,
    ensures
        hex_decode(s) is None,
    decreases s.len() - k,
{
    if k < s.len() {
        if k + 1 == s.len() {
            lemma_hex_decode_odd(s);
        } else {
            let t = s.subrange(0, k + 2);
            assert(t.subrange(0, t.len() - 2) =~= s.subrange(0, k));
            lemma_hex_decode_prefix(s, k + 2);
        }
    } else {
        assert(s.subrange(0, k) =~= s);
    }
}

/// Strings of odd length don't decode.
proof fn lemma_hex_decode_odd(s: Seq<char>)
    requires
        s.len() % 2 == 1,
    ensures
        hex_decode(s) is None,
    decreases s.len(),
{
    if s.len() > 1 {
        lemma_hex_decode_odd(s.subrange(0, s.len() - 2));
    }
}

/// The bytes a walk of a directory is hashed from: for each entry in the
/// order walked, its path relative to the top, followed for a file by the
/// digest of its contents.
pub open spec fn walk_bytes(entries: Seq<(Seq<u8>, Option<Seq<u8>>)>) -> Seq<u8>
    decreases entries.len(),
{
    if entries.len() == 0 {
        Seq::empty()
    } else {
        walk_bytes(entries.drop_last()) + entries.last().0 + match entries.last().1 {
            Some(contents) => sha256_digest(contents),
            None => Seq::empty(),
        }
    }
}

/// The entries of a walk by their views.
pub open spec fn walk_view(entries: Seq<(Vec<u8>, Option<Vec<u8>>)>) -> Seq<(Seq<u8>, Option<Seq<u8>>)> {
    entries.map_values(
        |e: (Vec<u8>, Option<Vec<u8>>)|
            (
                e.0@,
                match e.1 {
                    Some(c) => Some(c@),
                    None => None,
                },
            ),
    )
}

/// Appends `bytes` to `buf`.
fn push_all(buf: &mut Vec<u8>, bytes: &[u8])
    ensures
        final(buf)@ == old(buf)@ + bytes@,
{
    let mut i: usize = 0;
    while i < bytes.len()
        invariant
            i <= bytes@.len(),
            buf@ == old(buf)@ + bytes@.subrange(0, i as int),
        decreases bytes@.len() - i,
    {
        buf.push(bytes[i]);
        assert(bytes@.subrange(0, i + 1) =~= bytes@.subrange(0, i as int).push(bytes@[i as int]));
        i = i + 1;
    }
    assert(bytes@.subrange(0, bytes@.len() as int) =~= bytes@);
}

/// The hash of what a directory holds, from its walked entries: each
/// entry's relative path as bytes and, for a file, its contents.
pub fn hash_walk(entries: &Vec<(Vec<u8>, Option<Vec<u8>>)>) -> (r: Sha256Hash)
    ensures
        r@ == sha256_digest(walk_bytes(walk_view(entries@))),
{
    let mut buf: Vec<u8> = Vec::new();
    let mut i: usize = 0;
    assert(walk_view(entries@).subrange(0, 0) =~= Seq::<(Seq<u8>, Option<Seq<u8>>)>::empty());
    while i < entries.len()
        invariant
            i <= entries@.len(),
            buf@ == walk_bytes(walk_view(entries@).subrange(0, i as int)),
        decreases entries@.len() - i,
    {
        let ghost front = walk_view(entries@).subrange(0, i + 1);
        assert(front.drop_last() =~= walk_view(entries@).subrange(0, i as int));
        push_all(&mut buf, entries[i].0.as_slice());
        match &entries[i].1 {
            Some(contents) => {
                let digest = Sha256Hash::from_bytes(contents.as_slice()).as_array();
                push_all(&mut buf, &digest);
                assert(front.last().1 == Some(contents@));
            },
            None => {
                assert(front.last().1 is None);
            },
        }
        assert(buf@ =~= walk_bytes(front));
        i = i + 1;
    }
    assert(walk_view(entries@).subrange(0, entries@.len() as int) =~= walk_view(entries@));
    Sha256Hash::from_bytes(buf.as_slice())
}

} // verus!
