//! The killmail record as it arrives from upstream feeds.
use vstd::prelude::*;

verus! {

/// One combat report: where and when it happened, who died, who took part.
#[derive(Debug, Clone)]
pub struct Killmail {
    pub killmail_id: i32,
    pub killmail_time: String,
    pub solar_system_id: i32,
    pub victim: Victim,
    pub attackers: Vec<Attackers>,
    pub zkb: Option<Zkb>,
}

/// One attacker of a killmail.
#[derive(Debug, Clone, Copy, PartialEq, Eq)]
pub struct Attackers {
    pub alliance_id: Option<i32>,
    pub character_id: Option<i32>,
    pub corporation_id: Option<i32>,
    pub damage_done: i32,
    pub ship_type_id: Option<i32>,
    pub weapon_type_id: Option<i32>,
}

/// The victim of a killmail.
#[derive(Debug, Clone, Copy, PartialEq, Eq)]
pub struct Victim {
    pub alliance_id: Option<i32>,
    pub character_id: Option<i32>,
    pub corporation_id: Option<i32>,
    pub damage_taken: i32,
    pub ship_type_id: Option<i32>,
}

/// The zKillboard envelope of a killmail: the hash that addresses it.
#[derive(Debug, Clone)]
pub struct Zkb {
    pub hash: String,
}

/// The lower-case hex digit of a value below 16.
pub open spec fn hex_digit(n: int) -> char {
    if n < 10 {
        ((48 + n) as u8) as char
    } else {
        ((87 + n) as u8) as char
    }
}

/// Two lower-case hex digits per byte, the high digit first.
pub open spec fn hex_text(b: Seq<u8>) -> Seq<char>
    decreases b.len(),
{
    if b.len() == 0 {
        Seq::empty()
    } else {
        hex_text(b.drop_last()) + seq![hex_digit(b.last() as int / 16), hex_digit(b.last() as int % 16)]
    }
}

/// A hex digit of either case.
pub open spec fn is_hex_char(c: char) -> bool {
    ('0' <= c && c <= '9') || ('a' <= c && c <= 'f') || ('A' <= c && c <= 'F')
}

/// The value of a hex digit.
pub open spec fn hex_value(c: char) -> int {
    if '0' <= c && c <= '9' {
        (c as u32) - 48
    } else if 'a' <= c && c <= 'f' {
        (c as u32) - 87
    } else {
        (c as u32) - 55
    }
}

/// An even number of hex digits.
pub open spec fn is_hex(s: Seq<char>) -> bool {
    &&& s.len() % 2 == 0
    &&& forall|i: int| 0 <= i < s.len() ==> is_hex_char(#[trigger] s[i])
}

/// The bytes that pairs of hex digits write, the high digit first.
pub open spec fn hex_bytes(s: Seq<char>) -> Seq<u8> {
    Seq::new((s.len() / 2) as nat, |i: int| (16 * hex_value(s[2 * i]) + hex_value(s[2 * i + 1])) as u8)
}

/// Relies on hex::encode: two lower-case digits per byte, high digit first.
#[verifier::external_body]
fn encode_hex(b: &[u8]) -> (r: String)
    ensures
        r@ == hex_text(b@),
{
    hex::encode(b)
}

/// Relies on hex::decode: an even number of hex digits, of either case,
/// decodes to one byte per pair, high digit first; any other text is an
/// error.
#[verifier::external_body]
fn decode_hex(s: &str) -> (r: Option<Vec<u8>>)
    ensures
        match r {
            Some(b) => is_hex(s@) && b@ == hex_bytes(s@),
            None => !is_hex(s@),
        },
{
    hex::decode(s).ok()
}

/// A killmail id and the 20-byte hash that addresses it.
#[derive(Debug, PartialEq, Eq, Clone)]
pub struct IdHashBinary {
    id: i32,
    hash: [u8; 20],
}

impl IdHashBinary {
    pub const ERR_DECODE: &'static str = "Can't decode hash to binary";

    pub const ERR_ARRAY: &'static str = "Unexpected length of the vector";

    pub closed spec fn id_spec(&self) -> i32 {
        self.id
    }

    pub closed spec fn hash_spec(&self) -> Seq<u8> {
        self.hash@
    }

    pub fn get_id(&self) -> (r: i32)
        ensures
            r == self.id_spec(),
    {
        self.id
    }

    pub fn get_hash(&self) -> (r: [u8; 20])
        ensures
            r@ == self.hash_spec(),
    {
        self.hash
    }

    /// The hash as lower-case hex text.
    pub fn hash_to_string(hash: &[u8]) -> (r: String)
        ensures
            r@ == hex_text(hash@),
    {
        encode_hex(hash)
    }

    /// The bytes that hex text writes.
    pub fn string_to_hash(hash: String) -> (r: Result<Vec<u8>, &'static str>)
        ensures
            match r {
                Ok(b) => is_hex(hash@) && b@ == hex_bytes(hash@),
                Err(e) => !is_hex(hash@) && e == Self::ERR_DECODE,
            },
    {
        match decode_hex(hash.as_str()) {
            Some(b) => Ok(b),
            None => Err(Self::ERR_DECODE),
        }
    }

    /// A killmail id and its hash written as 40 hex digits.
    pub fn try_from(value: (i32, &str)) -> (r: Result<Self, &'static str>)
        ensures
            match r {
                Ok(v) => {
                    &&& is_hex(value.1@)
                    &&& value.1@.len() == 40
                    &&& v.id_spec() == value.0
                    &&& v.hash_spec() == hex_bytes(value.1@)
                },
                Err(e) => {
                    ||| !is_hex(value.1@) && e == Self::ERR_DECODE
                    ||| is_hex(value.1@) && value.1@.len() != 40 && e == Self::ERR_ARRAY
                },
            },
    {
        let (id, text) = value;
        let binary = match decode_hex(text) {
            Some(b) => b,
            None => return Err(Self::ERR_DECODE),
        };
        if binary.len() != 20 {
            return Err(Self::ERR_ARRAY);
        }
        let mut hash = [0u8; 20];
        let mut i: usize = 0;
        while i < 20
            invariant
                binary@.len() == 20,
                i <= 20,
                forall|t: int| 0 <= t < i ==> hash@[t] == binary@[t],
            decreases 20 - i,
        {
            hash[i] = binary[i];
            i += 1;
        }
        assert(hash@ =~= binary@);
        Ok(IdHashBinary { id, hash })
    }
}

} // verus!
