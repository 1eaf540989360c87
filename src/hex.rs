//! Lowercase hex encoding of bytes, and decoding that skips whitespace.
use vstd::prelude::*;
use vstd::std_specs::iter::IteratorSpec;
use vstd::string::StringExecFns;

use crate::decimal::{decimal, push_decimal};

verus! {

/// Why a string is not a hex encoding.
#[derive(Debug, Clone, Copy, PartialEq, Eq, Structural)]
pub enum FromHexError {
    /// A character that is neither a hex digit nor whitespace, with its index.
    InvalidHexCharacter(char, usize),
    /// The number of hex digits is odd.
    InvalidHexLength,
}

impl FromHexError {
    /// A short description of the kind of error.
    pub fn description(&self) -> (r: &'static str)
        ensures
            r@ == match self {
                FromHexError::InvalidHexCharacter(_, _) => "invalid character"@,
                FromHexError::InvalidHexLength => "invalid length"@,
            },
    {
        match self {
            FromHexError::InvalidHexCharacter(_, _) => "invalid character",
            FromHexError::InvalidHexLength => "invalid length",
        }
    }
}

/// Relies on std's `String::push`: appends `c` to the end of `s`.
#[verifier::external_body]
fn push_char(s: &mut String, c: char)
    ensures
        final(s)@ == old(s)@.push(c),
{
    s.push(c)
}

/// The message that describes an error.
pub open spec fn error_message(e: FromHexError) -> Seq<char> {
    match e {
        FromHexError::InvalidHexCharacter(c, i) => "Invalid character '"@.push(c) + "' at position "@
            + decimal(i as nat),
        FromHexError::InvalidHexLength => "Invalid input length"@,
    }
}

impl FromHexError {
    /// The message that describes the error, with the offending character
    /// and its position where there is one.
    pub fn message(&self) -> (r: String)
        ensures
            r@ == error_message(*self),
    {
        match self {
            FromHexError::InvalidHexCharacter(c, i) => {
                let mut r = String::from_str("Invalid character '");
                push_char(&mut r, *c);
                r.append("' at position ");
                push_decimal(&mut r, *i as u64);
                r
            },
            FromHexError::InvalidHexLength => String::from_str("Invalid input length"),
        }
    }
}

/// The lowercase hex digit of a value below 16.
pub open spec fn hex_digit(v: u8) -> char {
    if v < 10 {
        ((v + 48) as u8) as char
    } else {
        ((v + 87) as u8) as char
    }
}

/// Two lowercase hex digits per byte, high nibble first.
pub open spec fn hex_encode(b: Seq<u8>) -> Seq<char>
    decreases b.len(),
{
    if b.len() == 0 {
        Seq::empty()
    } else {
        let x = b.last();
        hex_encode(b.drop_last()) + seq![hex_digit(x / 16), hex_digit(x % 16)]
    }
}

pub open spec fn is_hex_whitespace(c: char) -> bool {
    c == ' ' || c == '\t' || c == '\r' || c == '\n'
}

pub open spec fn is_hex_digit(c: char) -> bool {
    ('0' <= c && c <= '9') || ('a' <= c && c <= 'f') || ('A' <= c && c <= 'F')
}

/// A character that decoding accepts.
pub open spec fn is_hex_valid(c: char) -> bool {
    is_hex_digit(c) || is_hex_whitespace(c)
}

/// The value of a hex digit.
pub open spec fn hex_value(c: char) -> u8 {
    if '0' <= c && c <= '9' {
        (c as u32 - 48) as u8
    } else if 'a' <= c && c <= 'f' {
        (c as u32 - 87) as u8
    } else {
        (c as u32 - 55) as u8
    }
}

/// The values of the hex digits of `s`, in order, whitespace and other
/// characters left out.
pub open spec fn nibbles(s: Seq<char>) -> Seq<u8>
    decreases s.len(),
{
    if s.len() == 0 {
        Seq::empty()
    } else if is_hex_digit(s.last()) {
        nibbles(s.drop_last()).push(hex_value(s.last()))
    } else {
        nibbles(s.drop_last())
    }
}

/// Each pair of nibbles as one byte, high nibble first.
pub open spec fn pack_nibbles(n: Seq<u8>) -> Seq<u8> {
    Seq::new(n.len() / 2, |k: int| (n[2 * k] * 16 + n[2 * k + 1]) as u8)
}

/// What decoding `s` gives: the first invalid character, else a length
/// error for an odd number of digits, else the packed digits.
pub open spec fn hex_decode(s: Seq<char>) -> Result<Seq<u8>, FromHexError> {
    if exists|i: int| 0 <= i < s.len() && !is_hex_valid(#[trigger] s[i]) {
        let i = choose|i: int|
            0 <= i < s.len() && !is_hex_valid(#[trigger] s[i]) && forall|j: int|
                0 <= j < i ==> is_hex_valid(#[trigger] s[j]);
        Err(FromHexError::InvalidHexCharacter(s[i], i as usize))
    } else if nibbles(s).len() % 2 == 1 {
        Err(FromHexError::InvalidHexLength)
    } else {
        Ok(pack_nibbles(nibbles(s)))
    }
}


/// The characters of `s`, in order.
pub fn str_chars(s: &str) -> (r: Vec<char>)
    ensures
        r@ == s@,
{
    broadcast use vstd::string::axiom_spec_iter, vstd::string::next_postcondition;

    let mut it = s.chars();
    let mut r: Vec<char> = Vec::new();
    loop
        invariant
            r@ + it.remaining() == s@,
        ensures
            r@ == s@,
        decreases s@.len() - r@.len(),
    {
        match it.next() {
            Some(c) => {
                r.push(c);
            },
            None => {
                assert(r@ =~= s@);
                break;
            },
        }
    }
    r
}

/// The lowercase hex digit of `v` as a one-character string.
pub(crate) fn digit_str(v: u8) -> (r: &'static str)
    requires
        v < 16,
    ensures
        r@ == seq![hex_digit(v)],
{
    let digits = "0123456789abcdef";
    proof {
        reveal_strlit("0123456789abcdef");
    }
    let r = digits.substring_char(v as usize, v as usize + 1);
    assert(r@ =~= seq![hex_digit(v)]);
    r
}

/// Lowercase hex encoding of `b`.
pub fn bytes_to_hex(b: &[u8]) -> (r: String)
    ensures
        r@ == hex_encode(b@),
{
    let mut r = String::new();
    let mut i: usize = 0;
    while i < b.len()
        invariant
            i <= b@.len(),
            r@ == hex_encode(b@.subrange(0, i as int)),
        decreases b@.len() - i,
    {
        let x = b[i];
        r.append(digit_str(x / 16));
        r.append(digit_str(x % 16));
        i = i + 1;
        assert(b@.subrange(0, i as int).drop_last() =~= b@.subrange(0, i - 1 as int));
    }
    assert(b@.subrange(0, i as int) =~= b@);
    r
}

/// The decoded bytes of a decoding result, as a sequence.
pub open spec fn decoded_view(r: Result<Vec<u8>, FromHexError>) -> Result<Seq<u8>, FromHexError> {
    match r {
        Ok(v) => Ok(v@),
        Err(e) => Err(e),
    }
}

proof fn lemma_pack_push(n: Seq<u8>, v: u8)
    ensures
        n.len() % 2 == 0 ==> pack_nibbles(n.push(v)) == pack_nibbles(n),
        n.len() % 2 == 1 ==> pack_nibbles(n.push(v)) == pack_nibbles(n).push(
            (n.last() * 16 + v) as u8,
        ),
{
    let m = n.push(v);
    if n.len() % 2 == 0 {
        assert(pack_nibbles(m) =~= pack_nibbles(n));
    } else {
        assert(m.len() / 2 == n.len() / 2 + 1);
        assert forall|k: int| 0 <= k < n.len() / 2 implies #[trigger] m[2 * k] == n[2 * k] && m[2 * k
            + 1] == n[2 * k + 1] by {}
        assert(m[2 * (n.len() as int / 2)] == n.last());
        assert(m[2 * (n.len() as int / 2) + 1] == v);
        assert(pack_nibbles(m) =~= pack_nibbles(n).push((n.last() * 16 + v) as u8));
    }
}

/// Decodes the hex digits of `cs[a..b]` into bytes; spaces, tabs, carriage
/// returns and line feeds are skipped. Error positions count from `a`.
pub fn chars_from_hex(cs: &Vec<char>, a: usize, b: usize) -> (r: Result<Vec<u8>, FromHexError>)
    requires
        a <= b <= cs@.len(),
    ensures
        decoded_view(r) == hex_decode(cs@.subrange(a as int, b as int)),
{
    let ghost s = cs@.subrange(a as int, b as int);
    let mut out: Vec<u8> = Vec::new();
    let mut pending: bool = false;
    let mut pend: u8 = 0;
    let mut i: usize = 0;
    while i < b - a
        invariant
            s == cs@.subrange(a as int, b as int),
            a <= b <= cs@.len(),
            i <= s.len(),
            forall|j: int| 0 <= j < i ==> is_hex_valid(#[trigger] s[j]),
            pending == (nibbles(s.subrange(0, i as int)).len() % 2 == 1),
            pending ==> pend == nibbles(s.subrange(0, i as int)).last(),
            out@ == pack_nibbles(nibbles(s.subrange(0, i as int))),
            forall|k: int|
                0 <= k < nibbles(s.subrange(0, i as int)).len() ==> #[trigger] nibbles(
                    s.subrange(0, i as int),
                )[k] < 16,
        decreases s.len() - i,
    {
        let c = cs[a + i];
        let ghost pre = s.subrange(0, i as int);
        assert(s.subrange(0, i + 1 as int).drop_last() =~= pre);
        assert(s.subrange(0, i + 1 as int).last() == c);
        let v: u8;
        if '0' <= c && c <= '9' {
            v = (c as u32 - 48) as u8;
        } else if 'a' <= c && c <= 'f' {
            v = (c as u32 - 87) as u8;
        } else if 'A' <= c && c <= 'F' {
            v = (c as u32 - 55) as u8;
        } else if c == ' ' || c == '\t' || c == '\r' || c == '\n' {
            i = i + 1;
            continue;
        } else {
            proof {
                assert(!is_hex_valid(s[i as int]));
                let k = choose|k: int|
                    0 <= k < s.len() && !is_hex_valid(#[trigger] s[k]) && forall|j: int|
                        0 <= j < k ==> is_hex_valid(#[trigger] s[j]);
                assert(k == i) by {
                    if k < i {
                        assert(is_hex_valid(s[k]));
                    }
                    if k > i {
                        assert(is_hex_valid(s[i as int]));
                    }
                }
            }
            return Err(FromHexError::InvalidHexCharacter(c, i));
        }
        proof {
            lemma_pack_push(nibbles(pre), v);
        }
        if pending {
            out.push(pend * 16 + v);
            pending = false;
        } else {
            pend = v;
            pending = true;
        }
        i = i + 1;
    }
    assert(s.subrange(0, i as int) =~= s);
    if pending {
        Err(FromHexError::InvalidHexLength)
    } else {
        Ok(out)
    }
}

/// Decodes hex digits into bytes; spaces, tabs, carriage returns and line
/// feeds are skipped.
pub fn str_from_hex(s: &str) -> (r: Result<Vec<u8>, FromHexError>)
    ensures
        decoded_view(r) == hex_decode(s@),
{
    let cs = str_chars(s);
    assert(cs@.subrange(0, cs@.len() as int) =~= s@);
    chars_from_hex(&cs, 0, cs.len())
}

proof fn lemma_digit_value(v: u8)
    requires
        v < 16,
    ensures
        is_hex_digit(hex_digit(v)),
        hex_value(hex_digit(v)) == v,
{
}

proof fn lemma_encode_facts(b: Seq<u8>)
    ensures
        nibbles(hex_encode(b)).len() == 2 * b.len(),
        pack_nibbles(nibbles(hex_encode(b))) == b,
        forall|i: int| 0 <= i < hex_encode(b).len() ==> is_hex_digit(#[trigger] hex_encode(b)[i]),
    decreases b.len(),
{
    if b.len() > 0 {
        let p = b.drop_last();
        let x = b.last();
        lemma_encode_facts(p);
        let hi = hex_digit(x / 16);
        let lo = hex_digit(x % 16);
        lemma_digit_value(x / 16);
        lemma_digit_value(x % 16);
        let e = hex_encode(p);
        assert(hex_encode(b) == e + seq![hi, lo]);
        assert((e + seq![hi, lo]).drop_last() =~= e.push(hi));
        assert(e.push(hi).drop_last() =~= e);
        let n = nibbles(e);
        assert(nibbles(e.push(hi)) == n.push(x / 16));
        assert(nibbles(e + seq![hi, lo]) == n.push(x / 16).push(x % 16));
        lemma_pack_push(n, x / 16);
        lemma_pack_push(n.push(x / 16), x % 16);
        assert((x / 16 * 16 + x % 16) as u8 == x);
        assert(pack_nibbles(nibbles(hex_encode(b))) =~= b);
        assert forall|i: int| 0 <= i < hex_encode(b).len() implies is_hex_digit(
            #[trigger] hex_encode(b)[i],
        ) by {
            if i < e.len() {
                assert(hex_encode(b)[i] == e[i]);
            }
        }
    }
}

/// Decoding the hex encoding of any byte sequence gives that sequence back.
pub proof fn lemma_hex_round_trip(b: Seq<u8>)
    ensures
        hex_decode(hex_encode(b)) == Ok::<Seq<u8>, FromHexError>(b),
{
    lemma_encode_facts(b);
    let s = hex_encode(b);
    assert(!exists|i: int| 0 <= i < s.len() && !is_hex_valid(#[trigger] s[i]));
}

/// Conversion of bytes to their lowercase hex encoding.
pub trait ToHex {
    /// The bytes that are encoded.
    spec fn hex_source(&self) -> Seq<u8>;

    fn to_hex(&self) -> (r: String)
        ensures
            r@ == hex_encode(self.hex_source()),
    ;
}

impl ToHex for [u8] {
    open spec fn hex_source(&self) -> Seq<u8> {
        self@
    }

    fn to_hex(&self) -> (r: String) {
        bytes_to_hex(self)
    }
}

/// Conversion of hex text to the bytes it encodes.
pub trait FromHex {
    /// The characters that are decoded.
    spec fn hex_text(&self) -> Seq<char>;

    fn from_hex(&self) -> (r: Result<Vec<u8>, FromHexError>)
        ensures
            decoded_view(r) == hex_decode(self.hex_text()),
    ;
}

impl FromHex for str {
    open spec fn hex_text(&self) -> Seq<char> {
        self@
    }

    fn from_hex(&self) -> (r: Result<Vec<u8>, FromHexError>) {
        str_from_hex(self)
    }
}

} // verus!
