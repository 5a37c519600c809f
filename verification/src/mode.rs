//! File permission modes, written either as an integer or as a nine
//! character `rwxrwxrwx` string.

use vstd::prelude::*;
use vstd::string::StringSliceAdditionalSpecFns;
use vstd::string::StrSliceExecFns;

verus! {

/// Permission bits of a file, always within `0..=0o777`.
#[derive(Clone, Copy, Debug, Eq, Ord, PartialEq, PartialOrd)]
pub struct Mode(u16);

/// Why a mode couldn't be read.
#[derive(Clone, Copy, Debug, PartialEq, Eq)]
pub enum ParseModeError {
    /// The integer isn't in the range from 0 to 0o777.
    IntegerOutOfRange,
    /// The string isn't 9 bytes long.
    InvalidLength,
    /// The character at `index` is neither `-` nor the letter expected there.
    InvalidChar { char: char, index: usize },
}

/// The letter that sets a bit at position `index` of a mode string.
pub open spec fn mode_letter(index: int) -> char {
    if index % 3 == 0 {
        'r'
    } else if index % 3 == 1 {
        'w'
    } else {
        'x'
    }
}

/// Whether `c` may stand at position `index` of a mode string.
pub open spec fn mode_char_valid(index: int, c: char) -> bool {
    c == '-' || c == mode_letter(index)
}

/// The bits that the characters `cs` stand for, the first character being
/// the most significant bit.
pub open spec fn mode_bits(cs: Seq<char>) -> nat
    decreases cs.len(),
{
    if cs.len() == 0 {
        0
    } else {
        mode_bits(cs.drop_last()) * 2 + (if cs.last() == '-' { 0nat } else { 1nat })
    }
}

/// Whether every character of `cs` is valid at its position.
pub open spec fn mode_string_valid(cs: Seq<char>) -> bool {
    forall|i: int| 0 <= i < cs.len() ==> mode_char_valid(i, #[trigger] cs[i])
}

proof fn lemma_mode_bits_bound(cs: Seq<char>)
    ensures
        mode_bits(cs) < pow2_nat(cs.len()),
    decreases cs.len(),
{
    if cs.len() > 0 {
        lemma_mode_bits_bound(cs.drop_last());
    }
}

/// `2` to the power of `n`.
pub open spec fn pow2_nat(n: nat) -> nat
    decreases n,
{
    if n == 0 {
        1
    } else {
        2 * pow2_nat((n - 1) as nat)
    }
}

proof fn lemma_pow2_mono(a: nat, b: nat)
    requires
        a <= b,
    ensures
        pow2_nat(a) <= pow2_nat(b),
    decreases b,
{
    if a < b {
        lemma_pow2_mono(a, (b - 1) as nat);
    }
}

/// Every character takes at least one byte in UTF-8.
proof fn lemma_encode_utf8_len(cs: Seq<char>)
    ensures
        vstd::utf8::encode_utf8(cs).len() >= cs.len(),
    decreases cs.len(),
{
    if cs.len() > 0 {
        lemma_encode_utf8_len(cs.drop_first());
    }
}

/// The characters of a valid mode string are ASCII.
proof fn lemma_valid_is_ascii(cs: Seq<char>)
    requires
        mode_string_valid(cs),
    ensures
        vstd::utf8::is_ascii_chars(cs),
{
    assert forall|i: int| 0 <= i < cs.len() implies '\0' <= #[trigger] cs[i] <= '\u{7f}' by {
        assert(mode_char_valid(i, cs[i]));
    }
}

impl Mode {
    /// The permission bits.
    pub closed spec fn bits(self) -> u16 {
        self.0
    }

    /// Every mode holds only the nine permission bits.
    pub closed spec fn wf(self) -> bool {
        self.0 <= 0o777
    }

    /// The permission bits as an integer.
    pub fn as_bits(&self) -> (r: u16)
        ensures
            r == self.bits(),
    {
        self.0
    }

    /// Reads one character of a mode string: `-` clears the bit, the letter
    /// expected at `index` sets it.
    pub fn parse_char(index: usize, c: char) -> (r: Result<bool, ParseModeError>)
        requires
            index < 9,
        ensures
            mode_char_valid(index as int, c) ==> r == Ok::<bool, ParseModeError>(c != '-'),
            !mode_char_valid(index as int, c) ==> r == Err::<bool, ParseModeError>(
                ParseModeError::InvalidChar { char: c, index },
            ),
    {
        let letter = if index % 3 == 0 {
            'r'
        } else if index % 3 == 1 {
            'w'
        } else {
            'x'
        };
        if c == '-' {
            Ok(false)
        } else if c == letter {
            Ok(true)
        } else {
            Err(ParseModeError::InvalidChar { char: c, index })
        }
    }

    /// Makes a mode from an integer, which has to be in `0..=0o777`.
    pub fn try_from(value: i64) -> (r: Result<Mode, ParseModeError>)
        ensures
            0 <= value <= 0o777 ==> (r matches Ok(m) && m.bits() == value && m.wf()),
            !(0 <= value <= 0o777) ==> r == Err::<Mode, ParseModeError>(
                ParseModeError::IntegerOutOfRange,
            ),
    {
        if 0 <= value && value <= 0o777 {
            Ok(Mode(value as u16))
        } else {
            Err(ParseModeError::IntegerOutOfRange)
        }
    }

    /// Parses a string such as `rwxr-xr--`: nine characters, each either
    /// `-` or the letter `r`, `w` or `x` that belongs at its position.
    pub fn from_str(s: &str) -> (r: Result<Mode, ParseModeError>)
        ensures
            s.spec_bytes().len() != 9 ==> r == Err::<Mode, ParseModeError>(
                ParseModeError::InvalidLength,
            ),
            s.spec_bytes().len() == 9 && mode_string_valid(s@) ==> s@.len() == 9 && (r
                matches Ok(m) && m.bits() == mode_bits(s@) && m.wf()),
            s.spec_bytes().len() == 9 && !mode_string_valid(s@) ==> exists|j: int|
                0 <= j < s@.len() && !mode_char_valid(j, #[trigger] s@[j]) && (forall|k: int|
                    0 <= k < j ==> mode_char_valid(k, s@[k])) && r == Err::<Mode, ParseModeError>(
                    ParseModeError::InvalidChar { char: s@[j], index: j as usize },
                ),
    {
        if s.as_bytes().len() != 9 {
            return Err(ParseModeError::InvalidLength);
        }
        let n = s.unicode_len();
        proof {
            lemma_encode_utf8_len(s@);
        }
        let mut bits: u16 = 0;
        let mut i: usize = 0;
        while i < n
            invariant
                n == s@.len(),
                s.spec_bytes().len() == 9,
                i <= n,
                forall|k: int| 0 <= k < i ==> mode_char_valid(k, #[trigger] s@[k]),
                bits == mode_bits(s@.subrange(0, i as int)),
                n <= 9,
            decreases n - i,
        {
            assert(s@.subrange(0, i as int + 1).drop_last() == s@.subrange(0, i as int));
            let c = s.get_char(i);
            proof {
                lemma_mode_bits_bound(s@.subrange(0, i as int));
                lemma_pow2_mono(i as nat, 8);
                assert(pow2_nat(8) == 256) by {
                    reveal_with_fuel(pow2_nat, 10);
                }
            }
            match Mode::parse_char(i, c) {
                Ok(bit) => {
                    bits = bits * 2 + if bit { 1 } else { 0 };
                },
                Err(err) => {
                    return Err(err);
                },
            }
            i = i + 1;
        }
        proof {
            assert(s@.subrange(0, n as int) == s@);
            lemma_valid_is_ascii(s@);
            vstd::string::is_ascii_spec_bytes(s);
            assert(s.spec_bytes().len() == s@.len());
            lemma_mode_bits_bound(s@);
            assert(pow2_nat(9) == 512) by {
                reveal_with_fuel(pow2_nat, 10);
            }
        }
        Ok(Mode(bits))
    }
}

} // verus!
