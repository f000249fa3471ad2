//! Identifiers in hexadecimal.
use crate::types::B256;
use vstd::prelude::*;

verus! {

/// The value of a hexadecimal digit, in either case.
pub open spec fn hex_value(c: char) -> Option<int> {
    if '0' <= c <= '9' {
        Some(c as int - '0' as int)
    } else if 'a' <= c <= 'f' {
        Some(c as int - 'a' as int + 10)
    } else if 'A' <= c <= 'F' {
        Some(c as int - 'A' as int + 10)
    } else {
        None
    }
}

/// The digits of a text that may start with `0x`.
pub open spec fn hex_digits(text: Seq<char>) -> Seq<char> {
    if text.len() >= 2 && text[0] == '0' && (text[1] == 'x' || text[1] == 'X') {
        text.skip(2)
    } else {
        text
    }
}

/// The text writes the identifier in hexadecimal: two digits for each byte.
pub open spec fn spells_id(text: Seq<char>, id: Seq<u8>) -> bool {
    let digits = hex_digits(text);
    &&& id.len() == 32
    &&& digits.len() == 64
    &&& forall|i: int|
        0 <= i < 32 ==> hex_value(digits[2 * i]) == Some(#[trigger] id[i] as int / 16)
            && hex_value(digits[2 * i + 1]) == Some(id[i] as int % 16)
}

/// A lower-case hexadecimal digit.
pub open spec fn hex_digit(v: int) -> char {
    if v < 10 {
        (v + '0' as int) as char
    } else {
        (v - 10 + 'a' as int) as char
    }
}

/// An identifier in lower-case hexadecimal, after `0x`.
pub open spec fn id_text(id: Seq<u8>) -> Seq<char> {
    seq!['0', 'x'] + Seq::new(
        2 * id.len(),
        |i: int|
            hex_digit(
                if i % 2 == 0 {
                    id[i / 2] as int / 16
                } else {
                    id[i / 2] as int % 16
                },
            ),
    )
}

/// A text writes one identifier only.
pub proof fn lemma_one_id(text: Seq<char>, a: Seq<u8>, b: Seq<u8>)
    requires
        spells_id(text, a),
        spells_id(text, b),
    ensures
        a == b,
{
    assert forall|i: int| 0 <= i < 32 implies a[i] == b[i] by {
        let x = a[i] as int;
        let y = b[i] as int;
        assert(x / 16 == y / 16 && x % 16 == y % 16);
    }
    assert(a =~= b);
}

/// What an identifier is written as reads back as that identifier.
pub proof fn law_id_reads_back(id: Seq<u8>)
    requires
        id.len() == 32,
    ensures
        spells_id(id_text(id), id),
{
    let text = id_text(id);
    let digits = hex_digits(text);
    assert(digits.len() == 64);
    assert forall|i: int| 0 <= i < 32 implies hex_value(digits[2 * i]) == Some(
        #[trigger] id[i] as int / 16,
    ) && hex_value(digits[2 * i + 1]) == Some(id[i] as int % 16) by {
        let x = id[i] as int;
        assert((2 * i) % 2 == 0 && (2 * i) / 2 == i);
        assert((2 * i + 1) % 2 == 1 && (2 * i + 1) / 2 == i);
        assert(digits[2 * i] == hex_digit(x / 16));
        assert(digits[2 * i + 1] == hex_digit(x % 16));
        lemma_hex_digit(x / 16);
        lemma_hex_digit(x % 16);
    }
}

proof fn lemma_hex_digit(v: int)
    requires
        0 <= v < 16,
    ensures
        hex_value(hex_digit(v)) == Some(v),
{
}

impl B256 {
    /// The `FromStr` of `alloy::primitives::B256`: 64 hexadecimal digits in either case, with or
    /// without `0x` before them; anything else is an error.
    #[verifier::external_body]
    pub(crate) fn outside_parse(text: &str) -> (r: Option<B256>)
        ensures
            match r {
                Some(id) => spells_id(text@, id@),
                None => forall|id: Seq<u8>| !spells_id(text@, id),
            },
    {
        match text.parse::<alloy::primitives::B256>() {
            Ok(id) => Some(B256 { bytes: id.0 }),
            Err(_) => None,
        }
    }

    /// The `LowerHex` of `alloy::primitives::B256` in its alternate form: `0x` and two lower-case
    /// digits for each byte.
    #[verifier::external_body]
    pub(crate) fn outside_hex(self) -> (r: String)
        ensures
            r@ == id_text(self@),
    {
        format!("{:#x}", alloy::primitives::B256::from(self.bytes))
    }

    /// Whether the text writes this identifier.
    pub fn is_spelled(&self, text: &str) -> (r: bool)
        ensures
            r == spells_id(text@, self@),
    {
        match B256::outside_parse(text) {
            Some(id) => {
                proof {
                    if spells_id(text@, self@) {
                        lemma_one_id(text@, self@, id@);
                    }
                }
                id.same_bytes(self)
            },
            None => false,
        }
    }

    /// This identifier in lower-case hexadecimal, after `0x`.
    pub fn to_hex(self) -> (r: String)
        ensures
            r@ == id_text(self@),
    {
        self.outside_hex()
    }
}

} // verus!
