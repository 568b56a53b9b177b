//! Identity identifiers and their text form: `I` followed by 40 lowercase hex digits.
use vstd::prelude::*;

use crate::error::CliStateError;

verus! {

/// The number of bytes of an identifier.
pub const IDENTIFIER_LEN: usize = 20;

/// The lowercase hex digit of a value below 16.
pub open spec fn hex_digit(n: int) -> char {
    if n < 10 {
        (48 + n) as char
    } else {
        (87 + n) as char
    }
}

/// The value of a hex digit of either case; `None` for any other character.
pub open spec fn hex_value(c: char) -> Option<int> {
    if '0' <= c && c <= '9' {
        Some(c as int - 48)
    } else if 'a' <= c && c <= 'f' {
        Some(c as int - 87)
    } else if 'A' <= c && c <= 'F' {
        Some(c as int - 55)
    } else {
        None
    }
}

/// Two lowercase hex digits per byte, high nibble first.
pub open spec fn hex_of(b: Seq<u8>) -> Seq<char> {
    Seq::new(
        2 * b.len(),
        |i: int|
            if i % 2 == 0 {
                hex_digit(b[i / 2] as int / 16)
            } else {
                hex_digit(b[i / 2] as int % 16)
            },
    )
}

/// An even number of characters, each a hex digit of either case.
pub open spec fn is_hex(s: Seq<char>) -> bool {
    s.len() % 2 == 0 && forall|i: int| 0 <= i < s.len() ==> (#[trigger] hex_value(s[i])) is Some
}

/// The bytes that the hex digits `s` stand for, two digits per byte.
pub open spec fn bytes_of_hex(s: Seq<char>) -> Seq<u8> {
    Seq::new(
        s.len() / 2,
        |i: int| (hex_value(s[2 * i])->0 * 16 + hex_value(s[2 * i + 1])->0) as u8,
    )
}

/// Relies on hex::encode: two lowercase hex digits per byte, high nibble first.
#[verifier::external_body]
pub(crate) fn hex_encode(b: &[u8]) -> (r: String)
    ensures
        r@ == hex_of(b@),
{
    hex::encode(b)
}

/// Relies on hex::decode: it accepts an even number of hex digits of either
/// case and returns one byte per pair, high nibble first; any other input is
/// an error.
#[verifier::external_body]
fn hex_decode(s: &str) -> (r: Option<Vec<u8>>)
    ensures
        r is Some <==> is_hex(s@),
        r matches Some(v) ==> v@ == bytes_of_hex(s@),
{
    hex::decode(s).ok()
}

/// The text form of the identifier whose bytes are `b`.
pub open spec fn identifier_text(b: Seq<u8>) -> Seq<char> {
    seq!['I'] + hex_of(b)
}

/// `s` is the text form of some identifier.
pub open spec fn is_identifier_text(s: Seq<char>) -> bool {
    s.len() == 1 + 2 * IDENTIFIER_LEN && s[0] == 'I' && is_hex(s.drop_first())
}

/// The bytes of the identifier written `s`.
pub open spec fn identifier_bytes(s: Seq<char>) -> Seq<u8> {
    bytes_of_hex(s.drop_first())
}

/// The identifier of a cryptographic identity: 20 bytes.
#[derive(Debug, Clone, PartialEq, Eq)]
pub struct Identifier {
    bytes: Vec<u8>,
}

impl View for Identifier {
    type V = Seq<u8>;

    closed spec fn view(&self) -> Seq<u8> {
        self.bytes@
    }
}

impl Identifier {
    /// An identifier holds exactly 20 bytes.
    pub open spec fn wf(&self) -> bool {
        self@.len() == IDENTIFIER_LEN
    }

    /// The identifier with the given bytes; `InvalidData` unless there are 20.
    pub fn from_bytes(bytes: Vec<u8>) -> (r: Result<Identifier, CliStateError>)
        ensures
            r is Ok <==> bytes@.len() == IDENTIFIER_LEN,
            r matches Ok(id) ==> id@ == bytes@ && id.wf(),
    {
        if bytes.len() == IDENTIFIER_LEN {
            Ok(Identifier { bytes })
        } else {
            Err(CliStateError::InvalidData("an identifier holds 20 bytes".to_string()))
        }
    }

    /// The bytes of the identifier.
    pub fn as_bytes(&self) -> (r: &[u8])
        ensures
            r@ == self@,
    {
        self.bytes.as_slice()
    }

    /// A copy of the identifier.
    pub fn copy(&self) -> (r: Identifier)
        ensures
            r@ == self@,
    {
        Identifier { bytes: self.bytes.clone() }
    }

    /// Whether two identifiers hold the same bytes.
    pub fn same(&self, other: &Identifier) -> (r: bool)
        ensures
            r == (self@ == other@),
    {
        if self.bytes.len() != other.bytes.len() {
            return false;
        }
        let mut i: usize = 0;
        while i < self.bytes.len()
            invariant
                self.bytes@.len() == other.bytes@.len(),
                i <= self.bytes@.len(),
                forall|k: int| 0 <= k < i ==> self.bytes@[k] == other.bytes@[k],
            decreases self.bytes@.len() - i,
        {
            if self.bytes[i] != other.bytes[i] {
                return false;
            }
            i = i + 1;
        }
        assert(self.bytes@ =~= other.bytes@);
        true
    }

    /// Parses the text form `I` followed by 40 hex digits; `InvalidData` for
    /// any other text.
    pub fn from_str(s: &str) -> (r: Result<Identifier, CliStateError>)
        ensures
            r is Ok <==> is_identifier_text(s@),
            r matches Ok(id) ==> id@ == identifier_bytes(s@) && id.wf(),
    {
        let n = s.unicode_len();
        if n != 1 + 2 * IDENTIFIER_LEN || s.get_char(0) != 'I' {
            return Err(CliStateError::InvalidData("an identifier starts with I and holds 40 hex digits".to_string()));
        }
        let digits = s.substring_char(1, n);
        assert(digits@ == s@.drop_first());
        match hex_decode(digits) {
            Some(bytes) => {
                assert(bytes@.len() == IDENTIFIER_LEN);
                Ok(Identifier { bytes })
            },
            None => Err(CliStateError::InvalidData("an identifier holds hex digits".to_string())),
        }
    }

    /// The text form: `I` followed by the bytes in lowercase hex.
    pub fn to_string(&self) -> (r: String)
        ensures
            r@ == identifier_text(self@),
    {
        let prefix = "I".to_string();
        proof { reveal_strlit("I"); }
        let digits = hex_encode(self.bytes.as_slice());
        let r = prefix.concat(digits.as_str());
        assert(r@ =~= identifier_text(self@));
        r
    }
}

proof fn lemma_hex_digit_value(n: int)
    requires
        0 <= n < 16,
    ensures
        hex_value(hex_digit(n)) == Some(n),
{
}

/// Printing an identifier and parsing the text gives back the same identifier.
pub proof fn lemma_identifier_text_round_trip(b: Seq<u8>)
    requires
        b.len() == IDENTIFIER_LEN,
    ensures
        is_identifier_text(identifier_text(b)),
        identifier_bytes(identifier_text(b)) == b,
{
    let t = identifier_text(b);
    let h = hex_of(b);
    assert(t.drop_first() =~= h);
    assert forall|i: int| 0 <= i < h.len() implies (#[trigger] hex_value(h[i])) is Some by {
        lemma_hex_digit_value(b[i / 2] as int / 16);
        lemma_hex_digit_value(b[i / 2] as int % 16);
    }
    assert forall|i: int| 0 <= i < b.len() implies (#[trigger] bytes_of_hex(h)[i]) == b[i] by {
        lemma_hex_digit_value(b[i] as int / 16);
        lemma_hex_digit_value(b[i] as int % 16);
        assert(h[2 * i] == hex_digit(b[i] as int / 16));
        assert(h[2 * i + 1] == hex_digit(b[i] as int % 16));
    }
    assert(bytes_of_hex(h) =~= b);
}

} // verus!
