//! The persisted form of a chain: text documents, separated by `---`, each
//! holding the four scalar fields of one block as `key: value` lines.
use vstd::prelude::*;

use crate::block::{Block, BlockView};
use crate::hash::HASH256_BYTES;
use crate::hex::{chars_from_hex, hex_decode, str_chars, FromHexError};

verus! {

/// Splitting `s` on `sep`, from position `i` on, where `cur` is the piece
/// read so far and `acc` the pieces finished before it.
pub open spec fn split_acc(
    s: Seq<char>,
    sep: Seq<char>,
    i: int,
    cur: Seq<char>,
    acc: Seq<Seq<char>>,
) -> Seq<Seq<char>>
    decreases s.len() - i,
{
    if i >= s.len() {
        acc.push(cur)
    } else if sep.len() > 0 && i + sep.len() <= s.len() && s.subrange(i, i + sep.len()) == sep {
        split_acc(s, sep, i + sep.len(), Seq::empty(), acc.push(cur))
    } else {
        split_acc(s, sep, i + 1, cur.push(s[i]), acc)
    }
}

/// The pieces of `s` between occurrences of `sep`, scanned from the left;
/// there is always one piece more than there are occurrences.
pub open spec fn split_on(s: Seq<char>, sep: Seq<char>) -> Seq<Seq<char>> {
    split_acc(s, sep, 0, Seq::empty(), Seq::empty())
}

/// Whether `sep` occurs in `cs` at position `i`, ending at or before `b`.
fn matches_at(cs: &Vec<char>, i: usize, b: usize, sep: &Vec<char>) -> (r: bool)
    requires
        i <= b <= cs@.len(),
    ensures
        r == (i + sep@.len() <= b && cs@.subrange(i as int, i + sep@.len()) == sep@),
{
    if sep.len() > b - i {
        return false;
    }
    let mut k: usize = 0;
    while k < sep.len()
        invariant
            i + sep@.len() <= b <= cs@.len(),
            k <= sep@.len(),
            forall|j: int| 0 <= j < k ==> cs@[i + j] == sep@[j],
        decreases sep@.len() - k,
    {
        if cs[i + k] != sep[k] {
            assert(cs@.subrange(i as int, i + sep@.len())[k as int] != sep@[k as int]);
            return false;
        }
        k = k + 1;
    }
    assert(cs@.subrange(i as int, i + sep@.len()) =~= sep@);
    true
}

/// The position ranges in `cs` of the pieces of `cs[a..b]` split on `sep`.
pub fn split_ranges(cs: &Vec<char>, a: usize, b: usize, sep: &Vec<char>) -> (r: Vec<(usize, usize)>)
    requires
        a <= b <= cs@.len(),
        sep@.len() > 0,
    ensures
        r@.len() == split_on(cs@.subrange(a as int, b as int), sep@).len(),
        forall|k: int|
            0 <= k < r@.len() ==> a <= (#[trigger] r@[k]).0 <= r@[k].1 <= b && cs@.subrange(
                r@[k].0 as int,
                r@[k].1 as int,
            ) == split_on(cs@.subrange(a as int, b as int), sep@)[k],
{
    let ghost t = cs@.subrange(a as int, b as int);
    let mut r: Vec<(usize, usize)> = Vec::new();
    let ghost mut acc: Seq<Seq<char>> = Seq::empty();
    let mut start: usize = a;
    let mut i: usize = a;
    assert(cs@.subrange(a as int, a as int) =~= Seq::<char>::empty());
    while i < b
        invariant
            a <= start <= i <= b <= cs@.len(),
            t == cs@.subrange(a as int, b as int),
            sep@.len() > 0,
            split_on(t, sep@) == split_acc(
                t,
                sep@,
                i - a,
                cs@.subrange(start as int, i as int),
                acc,
            ),
            r@.len() == acc.len(),
            forall|k: int|
                0 <= k < r@.len() ==> a <= (#[trigger] r@[k]).0 <= r@[k].1 <= b && cs@.subrange(
                    r@[k].0 as int,
                    r@[k].1 as int,
                ) == acc[k],
        decreases b - i,
    {
        let m = matches_at(cs, i, b, sep);
        proof {
            if i + sep@.len() <= b {
                assert(t.subrange(i - a, i - a + sep@.len()) =~= cs@.subrange(
                    i as int,
                    i + sep@.len(),
                ));
            }
        }
        if m {
            proof {
                acc = acc.push(cs@.subrange(start as int, i as int));
            }
            r.push((start, i));
            i = i + sep.len();
            start = i;
            assert(cs@.subrange(start as int, i as int) =~= Seq::<char>::empty());
        } else {
            assert(cs@.subrange(start as int, i + 1 as int) =~= cs@.subrange(
                start as int,
                i as int,
            ).push(t[i - a]));
            i = i + 1;
        }
    }
    proof {
        acc = acc.push(cs@.subrange(start as int, i as int));
    }
    r.push((start, i));
    r
}

/// Characters that surround keys and values without meaning.
pub open spec fn is_blank(c: char) -> bool {
    c == ' ' || c == '\t' || c == '\r'
}

pub open spec fn trim_start(s: Seq<char>) -> Seq<char>
    decreases s.len(),
{
    if s.len() > 0 && is_blank(s[0]) {
        trim_start(s.drop_first())
    } else {
        s
    }
}

pub open spec fn trim_end(s: Seq<char>) -> Seq<char>
    decreases s.len(),
{
    if s.len() > 0 && is_blank(s.last()) {
        trim_end(s.drop_last())
    } else {
        s
    }
}

/// `s` without blank characters at either end.
pub open spec fn trim(s: Seq<char>) -> Seq<char> {
    trim_end(trim_start(s))
}

fn is_blank_char(c: char) -> (r: bool)
    ensures
        r == is_blank(c),
{
    c == ' ' || c == '\t' || c == '\r'
}

/// The range of `cs[a..b]` without its blank ends.
fn trim_range(cs: &Vec<char>, a: usize, b: usize) -> (r: (usize, usize))
    requires
        a <= b <= cs@.len(),
    ensures
        a <= r.0 <= r.1 <= b,
        cs@.subrange(r.0 as int, r.1 as int) == trim(cs@.subrange(a as int, b as int)),
{
    let mut x: usize = a;
    while x < b && is_blank_char(cs[x])
        invariant
            a <= x <= b <= cs@.len(),
            trim_start(cs@.subrange(a as int, b as int)) == trim_start(
                cs@.subrange(x as int, b as int),
            ),
        decreases b - x,
    {
        assert(cs@.subrange(x as int, b as int).drop_first() =~= cs@.subrange(x + 1, b as int));
        x = x + 1;
    }
    let mut y: usize = b;
    while y > x && is_blank_char(cs[y - 1])
        invariant
            a <= x <= y <= b <= cs@.len(),
            trim(cs@.subrange(a as int, b as int)) == trim_end(cs@.subrange(x as int, y as int)),
        decreases y - x,
    {
        assert(cs@.subrange(x as int, y as int).drop_last() =~= cs@.subrange(x as int, y - 1));
        y = y - 1;
    }
    (x, y)
}

/// The first position at or after `i` where `s` holds `c`, or `s.len()`.
pub open spec fn find_from(s: Seq<char>, c: char, i: int) -> int
    decreases s.len() - i,
{
    if i >= s.len() {
        s.len() as int
    } else if s[i] == c {
        i
    } else {
        find_from(s, c, i + 1)
    }
}

/// The position in `cs` of the first `c` in `cs[a..b]`, or `b`.
fn find_char(cs: &Vec<char>, a: usize, b: usize, c: char) -> (r: usize)
    requires
        a <= b <= cs@.len(),
    ensures
        a <= r <= b,
        r - a == find_from(cs@.subrange(a as int, b as int), c, 0),
{
    let ghost t = cs@.subrange(a as int, b as int);
    let mut i: usize = a;
    while i < b
        invariant
            a <= i <= b <= cs@.len(),
            t == cs@.subrange(a as int, b as int),
            find_from(t, c, 0) == find_from(t, c, i - a),
        decreases b - i,
    {
        if cs[i] == c {
            return i;
        }
        i = i + 1;
    }
    i
}

/// Whether `c` is `n`, or the upper-case form of the lower-case letter `n`.
pub open spec fn same_ignoring_case(c: char, n: char) -> bool {
    c == n || ('A' <= c && c <= 'Z' && c as u32 + 32 == n as u32)
}

/// Whether the key `k` spells `name` (a lower-case name), letter case aside.
pub open spec fn key_is(k: Seq<char>, name: Seq<char>) -> bool {
    k.len() == name.len() && forall|i: int| 0 <= i < k.len() ==> same_ignoring_case(k[i], name[i])
}

fn key_equals(cs: &Vec<char>, a: usize, b: usize, name: &Vec<char>) -> (r: bool)
    requires
        a <= b <= cs@.len(),
    ensures
        r == key_is(cs@.subrange(a as int, b as int), name@),
{
    let ghost k = cs@.subrange(a as int, b as int);
    if b - a != name.len() {
        return false;
    }
    let mut i: usize = 0;
    while i < name.len()
        invariant
            k == cs@.subrange(a as int, b as int),
            b - a == name@.len(),
            a <= b <= cs@.len(),
            i <= name@.len(),
            forall|j: int| 0 <= j < i ==> same_ignoring_case(k[j], name@[j]),
        decreases name@.len() - i,
    {
        let c = cs[a + i];
        let n = name[i];
        if !(c == n || ('A' <= c && c <= 'Z' && c as u32 + 32 == n as u32)) {
            assert(!same_ignoring_case(k[i as int], name@[i as int]));
            return false;
        }
        i = i + 1;
    }
    true
}

pub open spec fn is_decimal_digit(c: char) -> bool {
    '0' <= c && c <= '9'
}

/// The value of a sequence of decimal digits, most significant first.
pub open spec fn digits_value(s: Seq<char>) -> nat
    decreases s.len(),
{
    if s.len() == 0 {
        0
    } else {
        digits_value(s.drop_last()) * 10 + (s.last() as u32 - 48) as nat
    }
}

/// Whether `s` is a non-empty run of decimal digits.
pub open spec fn is_number(s: Seq<char>) -> bool {
    s.len() > 0 && forall|i: int| 0 <= i < s.len() ==> is_decimal_digit(#[trigger] s[i])
}

/// The unsigned number that `s` spells, if it is one and is at most `max`.
pub open spec fn number_at_most(s: Seq<char>, max: nat) -> Option<nat> {
    if is_number(s) && digits_value(s) <= max {
        Some(digits_value(s))
    } else {
        None
    }
}

proof fn lemma_digits_value_grows(s: Seq<char>, j: int)
    requires
        0 <= j <= s.len(),
        forall|i: int| 0 <= i < s.len() ==> is_decimal_digit(#[trigger] s[i]),
    ensures
        digits_value(s.take(j)) <= digits_value(s),
    decreases s.len() - j,
{
    if j == s.len() {
        assert(s.take(j) =~= s);
    } else {
        lemma_digits_value_grows(s, j + 1);
        assert(s.take(j + 1).drop_last() =~= s.take(j));
    }
}

/// The number spelled by `cs[a..b]`, if it is one that fits in a `u64`.
fn parse_u64(cs: &Vec<char>, a: usize, b: usize) -> (r: Option<u64>)
    requires
        a <= b <= cs@.len(),
    ensures
        r matches Some(v) ==> number_at_most(cs@.subrange(a as int, b as int), u64::MAX as nat)
            == Some(v as nat),
        r is None ==> number_at_most(cs@.subrange(a as int, b as int), u64::MAX as nat) is None,
{
    let ghost t = cs@.subrange(a as int, b as int);
    if a == b {
        return None;
    }
    let mut v: u64 = 0;
    let mut i: usize = a;
    while i < b
        invariant
            a <= i <= b <= cs@.len(),
            t == cs@.subrange(a as int, b as int),
            forall|j: int| 0 <= j < i - a ==> is_decimal_digit(#[trigger] t[j]),
            v as nat == digits_value(t.take(i - a)),
        decreases b - i,
    {
        let c = cs[i];
        if !('0' <= c && c <= '9') {
            assert(!is_decimal_digit(t[i - a]));
            return None;
        }
        let d = (c as u32 - 48) as u64;
        assert(t.take(i - a + 1).drop_last() =~= t.take(i - a));
        if v > (u64::MAX - d) / 10 {
            proof {
                assert(v * 10 + d > u64::MAX) by (nonlinear_arith)
                    requires
                        v > (u64::MAX - d) / 10,
                        d <= 9,
                ;
                if forall|j: int| 0 <= j < t.len() ==> is_decimal_digit(#[trigger] t[j]) {
                    lemma_digits_value_grows(t, i - a + 1);
                }
            }
            return None;
        }
        assert(v * 10 + d <= u64::MAX) by (nonlinear_arith)
            requires
                v <= (u64::MAX - d) / 10,
                d <= 9,
        ;
        v = v * 10 + d;
        i = i + 1;
    }
    assert(t.take(b - a) =~= t);
    Some(v)
}

/// The four fields of a block document.
#[derive(Debug, Clone, Copy, PartialEq, Eq, Structural)]
pub enum Field {
    Version,
    Timestamp,
    Previous,
    MerkleRoot,
}

/// Why a document does not describe a block.
#[derive(Debug, Clone, Copy, PartialEq, Eq, Structural)]
pub enum BlockError {
    /// A digest field is not the hex encoding of a digest.
    Hex(FromHexError),
    /// A field appears twice.
    DuplicateField(Field),
    /// A field does not appear.
    MissingField(Field),
    /// A key names none of the four fields.
    UnknownField,
    /// A non-blank line has no `:`.
    MalformedLine,
    /// A number field does not hold an unsigned number of its width.
    InvalidNumber(Field),
}

/// The key of a field, in lower case.
pub open spec fn field_name(f: Field) -> Seq<char> {
    match f {
        Field::Version => seq!['v', 'e', 'r', 's', 'i', 'o', 'n'],
        Field::Timestamp => seq!['t', 'i', 'm', 'e', 's', 't', 'a', 'm', 'p'],
        Field::Previous => seq!['p', 'r', 'e', 'v', 'i', 'o', 'u', 's'],
        Field::MerkleRoot => seq!['m', 'e', 'r', 'k', 'l', 'e', '_', 'r', 'o', 'o', 't'],
    }
}

/// The field that a key names, letter case aside.
pub open spec fn field_of_key(k: Seq<char>) -> Option<Field> {
    if key_is(k, field_name(Field::Version)) {
        Some(Field::Version)
    } else if key_is(k, field_name(Field::Timestamp)) {
        Some(Field::Timestamp)
    } else if key_is(k, field_name(Field::Previous)) {
        Some(Field::Previous)
    } else if key_is(k, field_name(Field::MerkleRoot)) {
        Some(Field::MerkleRoot)
    } else {
        None
    }
}

/// `s` without one pair of matching surrounding quotes, if it has them.
pub open spec fn unquote(s: Seq<char>) -> Seq<char> {
    if s.len() >= 2 && (s[0] == '"' || s[0] == '\'') && s.last() == s[0] {
        s.subrange(1, s.len() - 1)
    } else {
        s
    }
}

/// The fields read so far from a document.
pub struct FieldSet {
    pub version: Option<u32>,
    pub timestamp: Option<u64>,
    pub previous: Option<Seq<char>>,
    pub merkle_root: Option<Seq<char>>,
}

pub open spec fn no_fields() -> FieldSet {
    FieldSet { version: None, timestamp: None, previous: None, merkle_root: None }
}

/// Reading the lines of a document from line `i` on, with `f` read before.
/// Blank lines are skipped; every other line is `key: value`.
pub open spec fn scan_lines(lines: Seq<Seq<char>>, i: int, f: FieldSet) -> Result<FieldSet, BlockError>
    decreases lines.len() - i,
{
    if i < 0 || i >= lines.len() {
        Ok(f)
    } else {
        let t = trim(lines[i]);
        let k = find_from(t, ':', 0);
        let val = trim(t.skip(k + 1));
        if t.len() == 0 {
            scan_lines(lines, i + 1, f)
        } else if k == t.len() {
            Err(BlockError::MalformedLine)
        } else {
            match field_of_key(trim(t.take(k))) {
                None => Err(BlockError::UnknownField),
                Some(Field::Version) => if f.version is Some {
                    Err(BlockError::DuplicateField(Field::Version))
                } else {
                    match number_at_most(val, u32::MAX as nat) {
                        None => Err(BlockError::InvalidNumber(Field::Version)),
                        Some(n) => scan_lines(lines, i + 1, FieldSet { version: Some(n as u32), ..f }),
                    }
                },
                Some(Field::Timestamp) => if f.timestamp is Some {
                    Err(BlockError::DuplicateField(Field::Timestamp))
                } else {
                    match number_at_most(val, u64::MAX as nat) {
                        None => Err(BlockError::InvalidNumber(Field::Timestamp)),
                        Some(n) => scan_lines(
                            lines,
                            i + 1,
                            FieldSet { timestamp: Some(n as u64), ..f },
                        ),
                    }
                },
                Some(Field::Previous) => if f.previous is Some {
                    Err(BlockError::DuplicateField(Field::Previous))
                } else {
                    scan_lines(lines, i + 1, FieldSet { previous: Some(unquote(val)), ..f })
                },
                Some(Field::MerkleRoot) => if f.merkle_root is Some {
                    Err(BlockError::DuplicateField(Field::MerkleRoot))
                } else {
                    scan_lines(lines, i + 1, FieldSet { merkle_root: Some(unquote(val)), ..f })
                },
            }
        }
    }
}

/// The digest that a hex field holds: it must decode to exactly 32 bytes.
pub open spec fn digest_field(text: Seq<char>) -> Result<Seq<u8>, BlockError> {
    match hex_decode(text) {
        Err(e) => Err(BlockError::Hex(e)),
        Ok(d) => if d.len() == HASH256_BYTES {
            Ok(d)
        } else {
            Err(BlockError::Hex(FromHexError::InvalidHexLength))
        },
    }
}

/// The block that complete fields describe, with no transactions.
pub open spec fn finish_fields(f: FieldSet) -> Result<BlockView, BlockError> {
    if f.version is None {
        Err(BlockError::MissingField(Field::Version))
    } else if f.timestamp is None {
        Err(BlockError::MissingField(Field::Timestamp))
    } else if f.previous is None {
        Err(BlockError::MissingField(Field::Previous))
    } else if f.merkle_root is None {
        Err(BlockError::MissingField(Field::MerkleRoot))
    } else {
        match digest_field(f.previous->0) {
            Err(e) => Err(e),
            Ok(p) => match digest_field(f.merkle_root->0) {
                Err(e) => Err(e),
                Ok(m) => Ok(
                    BlockView {
                        version: f.version->0,
                        timestamp: f.timestamp->0,
                        previous: p,
                        merkle_root: m,
                        transactions: Seq::empty(),
                    },
                ),
            },
        }
    }
}

/// The block that a document describes, or why it describes none.
pub open spec fn parse_block_view(doc: Seq<char>) -> Result<BlockView, BlockError> {
    match scan_lines(split_on(doc, seq!['\n']), 0, no_fields()) {
        Err(e) => Err(e),
        Ok(f) => finish_fields(f),
    }
}

/// The view of a parse result.
pub open spec fn block_result_view(r: Result<Block, BlockError>) -> Result<BlockView, BlockError> {
    match r {
        Ok(b) => Ok(b@),
        Err(e) => Err(e),
    }
}

/// The key of `f` as characters.
fn field_name_chars(f: Field) -> (r: Vec<char>)
    ensures
        r@ == field_name(f),
{
    match f {
        Field::Version => {
            let r = str_chars("version");
            proof {
                reveal_strlit("version");
            }
            assert(r@ =~= field_name(f));
            r
        },
        Field::Timestamp => {
            let r = str_chars("timestamp");
            proof {
                reveal_strlit("timestamp");
            }
            assert(r@ =~= field_name(f));
            r
        },
        Field::Previous => {
            let r = str_chars("previous");
            proof {
                reveal_strlit("previous");
            }
            assert(r@ =~= field_name(f));
            r
        },
        Field::MerkleRoot => {
            let r = str_chars("merkle_root");
            proof {
                reveal_strlit("merkle_root");
            }
            assert(r@ =~= field_name(f));
            r
        },
    }
}

/// The field that the key `cs[a..b]` names.
fn field_of_key_range(cs: &Vec<char>, a: usize, b: usize) -> (r: Option<Field>)
    requires
        a <= b <= cs@.len(),
    ensures
        r == field_of_key(cs@.subrange(a as int, b as int)),
{
    if key_equals(cs, a, b, &field_name_chars(Field::Version)) {
        Some(Field::Version)
    } else if key_equals(cs, a, b, &field_name_chars(Field::Timestamp)) {
        Some(Field::Timestamp)
    } else if key_equals(cs, a, b, &field_name_chars(Field::Previous)) {
        Some(Field::Previous)
    } else if key_equals(cs, a, b, &field_name_chars(Field::MerkleRoot)) {
        Some(Field::MerkleRoot)
    } else {
        None
    }
}

/// The range of `cs[a..b]` without one pair of matching surrounding quotes.
fn unquote_range(cs: &Vec<char>, a: usize, b: usize) -> (r: (usize, usize))
    requires
        a <= b <= cs@.len(),
    ensures
        a <= r.0 <= r.1 <= b,
        cs@.subrange(r.0 as int, r.1 as int) == unquote(cs@.subrange(a as int, b as int)),
{
    let ghost t = cs@.subrange(a as int, b as int);
    if b - a >= 2 && (cs[a] == '"' || cs[a] == '\'') && cs[b - 1] == cs[a] {
        assert(cs@.subrange(a + 1, b - 1) =~= t.subrange(1, t.len() - 1));
        (a + 1, b - 1)
    } else {
        (a, b)
    }
}

/// The digest that the hex text `cs[a..b]` holds.
fn digest_range(cs: &Vec<char>, a: usize, b: usize) -> (r: Result<[u8; HASH256_BYTES], BlockError>)
    requires
        a <= b <= cs@.len(),
    ensures
        r matches Ok(d) ==> digest_field(cs@.subrange(a as int, b as int)) == Ok::<
            Seq<u8>,
            BlockError,
        >(d@),
        r matches Err(e) ==> digest_field(cs@.subrange(a as int, b as int)) == Err::<
            Seq<u8>,
            BlockError,
        >(e),
{
    match chars_from_hex(cs, a, b) {
        Err(e) => Err(BlockError::Hex(e)),
        Ok(v) => {
            if v.len() != HASH256_BYTES {
                return Err(BlockError::Hex(FromHexError::InvalidHexLength));
            }
            let mut d = [0u8; HASH256_BYTES];
            let mut i: usize = 0;
            while i < HASH256_BYTES
                invariant
                    v@.len() == HASH256_BYTES,
                    i <= HASH256_BYTES,
                    forall|j: int| 0 <= j < i ==> d@[j] == v@[j],
                decreases HASH256_BYTES - i,
            {
                d[i] = v[i];
                i = i + 1;
            }
            assert(d@ =~= v@);
            Ok(d)
        },
    }
}

/// Whether the exec state of a scan matches the fields `f` read so far.
spec fn fields_match(
    cs: Seq<char>,
    version: Option<u32>,
    timestamp: Option<u64>,
    previous: Option<(usize, usize)>,
    merkle_root: Option<(usize, usize)>,
    f: FieldSet,
) -> bool {
    &&& version == f.version
    &&& timestamp == f.timestamp
    &&& previous is Some <==> f.previous is Some
    &&& previous matches Some(p) ==> p.0 <= p.1 <= cs.len() && cs.subrange(p.0 as int, p.1 as int)
        == f.previous->0
    &&& merkle_root is Some <==> f.merkle_root is Some
    &&& merkle_root matches Some(p) ==> p.0 <= p.1 <= cs.len() && cs.subrange(p.0 as int, p.1 as int)
        == f.merkle_root->0
}

/// Parses the block document `cs[a..b]`.
pub fn parse_block(cs: &Vec<char>, a: usize, b: usize) -> (r: Result<Block, BlockError>)
    requires
        a <= b <= cs@.len(),
    ensures
        block_result_view(r) == parse_block_view(cs@.subrange(a as int, b as int)),
{
    let ghost doc = cs@.subrange(a as int, b as int);
    let nl = str_chars("\n");
    proof {
        reveal_strlit("\n");
        assert(nl@ =~= seq!['\n']);
    }
    let lines = split_ranges(cs, a, b, &nl);
    let ghost ls = split_on(doc, seq!['\n']);
    let mut version: Option<u32> = None;
    let mut timestamp: Option<u64> = None;
    let mut previous: Option<(usize, usize)> = None;
    let mut merkle_root: Option<(usize, usize)> = None;
    let ghost mut f = no_fields();
    let mut li: usize = 0;
    while li < lines.len()
        invariant
            a <= b <= cs@.len(),
            doc == cs@.subrange(a as int, b as int),
            ls == split_on(doc, seq!['\n']),
            lines@.len() == ls.len(),
            forall|k: int|
                0 <= k < lines@.len() ==> a <= (#[trigger] lines@[k]).0 <= lines@[k].1 <= b
                    && cs@.subrange(lines@[k].0 as int, lines@[k].1 as int) == ls[k],
            li <= lines@.len(),
            scan_lines(ls, 0, no_fields()) == scan_lines(ls, li as int, f),
            fields_match(cs@, version, timestamp, previous, merkle_root, f),
        decreases lines@.len() - li,
    {
        let (x, y) = lines[li];
        let (tx, ty) = trim_range(cs, x, y);
        let ghost t = cs@.subrange(tx as int, ty as int);
        assert(t == trim(ls[li as int]));
        if tx == ty {
            li = li + 1;
            continue;
        }
        let k = find_char(cs, tx, ty, ':');
        if k == ty {
            return Err(BlockError::MalformedLine);
        }
        assert(cs@.subrange(tx as int, k as int) =~= t.take(k - tx));
        assert(cs@.subrange(k + 1, ty as int) =~= t.skip(k - tx + 1));
        let (kx, ky) = trim_range(cs, tx, k);
        let (vx, vy) = trim_range(cs, k + 1, ty);
        let field = field_of_key_range(cs, kx, ky);
        match field {
            None => {
                return Err(BlockError::UnknownField);
            },
            Some(Field::Version) => {
                if version.is_some() {
                    return Err(BlockError::DuplicateField(Field::Version));
                }
                match parse_u64(cs, vx, vy) {
                    Some(n) => {
                        if n > u32::MAX as u64 {
                            return Err(BlockError::InvalidNumber(Field::Version));
                        }
                        version = Some(n as u32);
                        proof {
                            f = FieldSet { version: Some(n as u32), ..f };
                        }
                    },
                    None => {
                        return Err(BlockError::InvalidNumber(Field::Version));
                    },
                }
            },
            Some(Field::Timestamp) => {
                if timestamp.is_some() {
                    return Err(BlockError::DuplicateField(Field::Timestamp));
                }
                match parse_u64(cs, vx, vy) {
                    Some(n) => {
                        timestamp = Some(n);
                        proof {
                            f = FieldSet { timestamp: Some(n), ..f };
                        }
                    },
                    None => {
                        return Err(BlockError::InvalidNumber(Field::Timestamp));
                    },
                }
            },
            Some(Field::Previous) => {
                if previous.is_some() {
                    return Err(BlockError::DuplicateField(Field::Previous));
                }
                let (qx, qy) = unquote_range(cs, vx, vy);
                previous = Some((qx, qy));
                proof {
                    f = FieldSet { previous: Some(cs@.subrange(qx as int, qy as int)), ..f };
                }
            },
            Some(Field::MerkleRoot) => {
                if merkle_root.is_some() {
                    return Err(BlockError::DuplicateField(Field::MerkleRoot));
                }
                let (qx, qy) = unquote_range(cs, vx, vy);
                merkle_root = Some((qx, qy));
                proof {
                    f = FieldSet { merkle_root: Some(cs@.subrange(qx as int, qy as int)), ..f };
                }
            },
        }
        li = li + 1;
    }
    let v = match version {
        Some(v) => v,
        None => {
            return Err(BlockError::MissingField(Field::Version));
        },
    };
    let ts = match timestamp {
        Some(ts) => ts,
        None => {
            return Err(BlockError::MissingField(Field::Timestamp));
        },
    };
    let (px, py) = match previous {
        Some(p) => p,
        None => {
            return Err(BlockError::MissingField(Field::Previous));
        },
    };
    let (mx, my) = match merkle_root {
        Some(m) => m,
        None => {
            return Err(BlockError::MissingField(Field::MerkleRoot));
        },
    };
    let p = match digest_range(cs, px, py) {
        Ok(p) => p,
        Err(e) => {
            return Err(e);
        },
    };
    let m = match digest_range(cs, mx, my) {
        Ok(m) => m,
        Err(e) => {
            return Err(e);
        },
    };
    Ok(Block::from_parts(v, ts, p, m))
}

impl Block {
    /// Parses one block document: the four fields `version`, `timestamp`,
    /// `previous` and `merkle_root` as `key: value` lines, keys in any
    /// letter case. The block has no transactions.
    pub fn deserialize(text: &str) -> (r: Result<Block, BlockError>)
        ensures
            block_result_view(r) == parse_block_view(text@),
    {
        let cs = str_chars(text);
        assert(cs@.subrange(0, cs@.len() as int) =~= text@);
        parse_block(&cs, 0, cs.len())
    }
}

} // verus!
