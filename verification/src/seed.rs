//! Portable world codes: the seed, trail and era in fifteen base-32 characters after
//! `pt-`, with a checksum that catches typing mistakes.

use vstd::prelude::*;
use crate::text::{is_space, push_char, same};

verus! {

/// A world that a code describes.
#[derive(Debug, Clone, PartialEq, Eq)]
pub struct WorldSeed {
    pub seed: u64,
    pub trail: String,
    pub era: String,
}

/// Why a world has no code, or a code names no world.
#[derive(Debug, Clone, Copy, PartialEq, Eq, Structural)]
pub enum SeedError {
    UnknownTrail,
    UnknownEra,
    MissingPrefix,
    WrongLength,
    InvalidDigit,
    OutOfRange,
    ChecksumMismatch,
}

impl SeedError {
    /// The message this error reads as.
    pub fn message(&self) -> (r: &'static str)
        ensures
            r@.len() > 0,
    {
        let r = match self {
            SeedError::UnknownTrail => "Unknown trail in seed code",
            SeedError::UnknownEra => "Unknown era in seed code",
            SeedError::MissingPrefix => "Seed codes start with pt-",
            SeedError::WrongLength => "Seed codes contain exactly 15 letters and digits after pt-",
            SeedError::InvalidDigit => "Invalid letter or digit in seed code",
            SeedError::OutOfRange => "Seed code is outside the supported range",
            SeedError::ChecksumMismatch => "Seed checksum does not match; check the code",
        };
        proof {
            reveal_strlit("Unknown trail in seed code");
            reveal_strlit("Unknown era in seed code");
            reveal_strlit("Seed codes start with pt-");
            reveal_strlit("Seed codes contain exactly 15 letters and digits after pt-");
            reveal_strlit("Invalid letter or digit in seed code");
            reveal_strlit("Seed code is outside the supported range");
            reveal_strlit("Seed checksum does not match; check the code");
        }
        r
    }
}

// ---------------------------------------------------------------------------------------
// Digits.

/// The base-32 digit for `k`; the alphabet leaves out `i`, `l`, `o` and `u`.
pub open spec fn digit_char(k: nat) -> char {
    if k == 0 { '0' } else if k == 1 { '1' } else if k == 2 { '2' } else if k == 3 { '3' }
    else if k == 4 { '4' } else if k == 5 { '5' } else if k == 6 { '6' } else if k == 7 { '7' }
    else if k == 8 { '8' } else if k == 9 { '9' } else if k == 10 { 'a' } else if k == 11 { 'b' }
    else if k == 12 { 'c' } else if k == 13 { 'd' } else if k == 14 { 'e' } else if k == 15 { 'f' }
    else if k == 16 { 'g' } else if k == 17 { 'h' } else if k == 18 { 'j' } else if k == 19 { 'k' }
    else if k == 20 { 'm' } else if k == 21 { 'n' } else if k == 22 { 'p' } else if k == 23 { 'q' }
    else if k == 24 { 'r' } else if k == 25 { 's' } else if k == 26 { 't' } else if k == 27 { 'v' }
    else if k == 28 { 'w' } else if k == 29 { 'x' } else if k == 30 { 'y' } else { 'z' }
}

/// The value of a base-32 digit, if `c` is one.
pub open spec fn digit_value(c: char) -> Option<nat> {
    if c == '0' { Some(0) } else if c == '1' { Some(1) } else if c == '2' { Some(2) } else if c == '3' { Some(3) }
    else if c == '4' { Some(4) } else if c == '5' { Some(5) } else if c == '6' { Some(6) } else if c == '7' { Some(7) }
    else if c == '8' { Some(8) } else if c == '9' { Some(9) } else if c == 'a' { Some(10) } else if c == 'b' { Some(11) }
    else if c == 'c' { Some(12) } else if c == 'd' { Some(13) } else if c == 'e' { Some(14) } else if c == 'f' { Some(15) }
    else if c == 'g' { Some(16) } else if c == 'h' { Some(17) } else if c == 'j' { Some(18) } else if c == 'k' { Some(19) }
    else if c == 'm' { Some(20) } else if c == 'n' { Some(21) } else if c == 'p' { Some(22) } else if c == 'q' { Some(23) }
    else if c == 'r' { Some(24) } else if c == 's' { Some(25) } else if c == 't' { Some(26) } else if c == 'v' { Some(27) }
    else if c == 'w' { Some(28) } else if c == 'x' { Some(29) } else if c == 'y' { Some(30) } else if c == 'z' { Some(31) }
    else { None }
}

proof fn lemma_digit_round_trip(k: nat)
    requires
        k < 32,
    ensures
        digit_value(digit_char(k)) == Some(k),
        !is_space(digit_char(k)),
        !('A' <= digit_char(k) <= 'Z'),
{
}

fn digit_to_char(k: u128) -> (c: char)
    requires
        k < 32,
    ensures
        c == digit_char(k as nat),
{
    let table: [char; 32] = ['0', '1', '2', '3', '4', '5', '6', '7', '8', '9', 'a', 'b', 'c', 'd', 'e', 'f',
        'g', 'h', 'j', 'k', 'm', 'n', 'p', 'q', 'r', 's', 't', 'v', 'w', 'x', 'y', 'z'];
    table[k as usize]
}

fn char_to_digit(c: char) -> (r: Option<u128>)
    ensures
        match r {
            Some(v) => digit_value(c) == Some(v as nat),
            None => digit_value(c) is None,
        },
{
    match c {
        '0' => Some(0), '1' => Some(1), '2' => Some(2), '3' => Some(3), '4' => Some(4), '5' => Some(5),
        '6' => Some(6), '7' => Some(7), '8' => Some(8), '9' => Some(9), 'a' => Some(10), 'b' => Some(11),
        'c' => Some(12), 'd' => Some(13), 'e' => Some(14), 'f' => Some(15), 'g' => Some(16), 'h' => Some(17),
        'j' => Some(18), 'k' => Some(19), 'm' => Some(20), 'n' => Some(21), 'p' => Some(22), 'q' => Some(23),
        'r' => Some(24), 's' => Some(25), 't' => Some(26), 'v' => Some(27), 'w' => Some(28), 'x' => Some(29),
        'y' => Some(30), 'z' => Some(31),
        _ => None,
    }
}

/// `32` to the power `n`.
pub open spec fn pow32(n: nat) -> nat
    decreases n,
{
    if n == 0 { 1 } else { 32 * pow32((n - 1) as nat) }
}

/// The last `n` base-32 digits of `v`, most significant first.
pub open spec fn encode(v: nat, n: nat) -> Seq<char>
    decreases n,
{
    if n == 0 { seq![] } else { encode(v / 32, (n - 1) as nat).push(digit_char(v % 32)) }
}

/// The number that base-32 digits `ds` spell, most significant first.
pub open spec fn decode(ds: Seq<char>) -> nat
    decreases ds.len(),
{
    if ds.len() == 0 {
        0
    } else {
        decode(ds.drop_last()) * 32 + match digit_value(ds.last()) { Some(d) => d, None => 0 }
    }
}

/// Reading back the digits of a number gives the number.
pub proof fn lemma_decode_encode(v: nat, n: nat)
    requires
        v < pow32(n),
    ensures
        decode(encode(v, n)) == v,
        encode(v, n).len() == n,
    decreases n,
{
    if n > 0 {
        assert(v / 32 < pow32((n - 1) as nat)) by (nonlinear_arith)
            requires v < pow32(n), pow32(n) == 32 * pow32((n - 1) as nat);
        lemma_decode_encode(v / 32, (n - 1) as nat);
        lemma_digit_round_trip(v % 32);
        assert(encode(v, n).drop_last() =~= encode(v / 32, (n - 1) as nat));
    }
}

// ---------------------------------------------------------------------------------------
// The checksum.

/// One round of the checksum: rotate the five-bit state left and mix in the next digit.
pub open spec fn mix(r: u8, d: u8) -> u8 {
    (((r << 1u8) | (r >> 4u8)) & 31u8) ^ d
}

/// The checksum state after `n` more rounds over `p`, least significant digit first.
pub open spec fn rounds(r: u8, p: nat, n: nat) -> u8
    decreases n,
{
    if n == 0 { r } else { rounds(mix(r, (p % 32) as u8), p / 32, (n - 1) as nat) }
}

/// The checksum of a payload: fourteen rounds from 19.
pub open spec fn checksum_of(p: nat) -> u8 {
    rounds(19, p, 14)
}

/// The checksum of a payload: fourteen rounds of rotate-and-mix over its five-bit digits.
pub fn checksum(payload: u128) -> (r: u8)
    ensures
        r == checksum_of(payload as nat),
{
    let mut result: u8 = 19;
    let mut p = payload;
    let mut i: u32 = 0;
    while i < 14
        invariant
            i <= 14,
            rounds(result, p as nat, (14 - i) as nat) == checksum_of(payload as nat),
        decreases 14 - i,
    {
        let d = (p % 32) as u8;
        result = (((result << 1u8) | (result >> 4u8)) & 31u8) ^ d;
        p = p / 32;
        i = i + 1;
    }
    result
}

// ---------------------------------------------------------------------------------------
// Worlds and their codes.

/// Number of a trail in codes.
pub open spec fn trail_number(t: Seq<char>) -> Option<nat> {
    if t == "oregon"@ { Some(0) } else if t == "california"@ { Some(1) } else if t == "mormon"@ { Some(2) } else { None }
}

/// Number of an era in codes.
pub open spec fn era_number(e: Seq<char>) -> Option<nat> {
    if e == "1843"@ { Some(0) } else if e == "1848"@ { Some(1) } else if e == "1852"@ { Some(2) } else if e == "1866"@ { Some(3) } else { None }
}

/// The trail a code number names.
pub open spec fn trail_named_by(k: nat) -> Option<Seq<char>> {
    if k == 0 { Some("oregon"@) } else if k == 1 { Some("california"@) } else if k == 2 { Some("mormon"@) } else { None }
}

/// The era a code number names.
pub open spec fn era_named_by(k: nat) -> Seq<char> {
    if k == 0 { "1843"@ } else if k == 1 { "1848"@ } else if k == 2 { "1852"@ } else { "1866"@ }
}

/// The payload of a world: seed, then two bits of trail, then two bits of era.
pub open spec fn payload_of(seed: u64, trail: nat, era: nat) -> nat {
    seed as nat * 16 + trail * 4 + era
}

/// The code of a world with trail number `t` and era number `e`.
pub open spec fn code_of(seed: u64, t: nat, e: nat) -> Seq<char> {
    let p = payload_of(seed, t, e);
    "pt-"@ + encode(p * 32 + checksum_of(p) as nat, 15)
}

/// `s` without leading white space.
pub open spec fn trim_front(s: Seq<char>) -> Seq<char>
    decreases s.len(),
{
    if s.len() > 0 && is_space(s[0]) { trim_front(s.drop_first()) } else { s }
}

/// `s` without trailing white space.
pub open spec fn trim_back(s: Seq<char>) -> Seq<char>
    decreases s.len(),
{
    if s.len() > 0 && is_space(s.last()) { trim_back(s.drop_last()) } else { s }
}

/// An ASCII capital made small; other characters are kept.
pub open spec fn lower(c: char) -> char {
    if 'A' <= c <= 'Z' { ((c as u8) + 32) as char } else { c }
}

/// The text a code is read from: trimmed, and with ASCII capitals made small.
pub open spec fn normalized(s: Seq<char>) -> Seq<char> {
    trim_back(trim_front(s)).map_values(|c: char| lower(c))
}

/// Bytes of `c` in UTF-8.
pub open spec fn utf8_width(c: char) -> nat {
    if (c as u32) < 0x80 { 1 } else if (c as u32) < 0x800 { 2 } else if (c as u32) < 0x10000 { 3 } else { 4 }
}

/// Bytes of `s` in UTF-8.
pub open spec fn utf8_len(s: Seq<char>) -> nat
    decreases s.len(),
{
    if s.len() == 0 { 0 } else { utf8_len(s.drop_last()) + utf8_width(s.last()) }
}

/// What a code means: the world it names, or why it names none.
pub open spec fn reading(code: Seq<char>) -> Result<(u64, Seq<char>, Seq<char>), SeedError> {
    let t = normalized(code);
    if !(t.len() >= 3 && t.subrange(0, 3) == "pt-"@) {
        Err(SeedError::MissingPrefix)
    } else {
        let d = t.subrange(3, t.len() as int);
        if utf8_len(d) != 15 {
            Err(SeedError::WrongLength)
        } else if exists|i: int| 0 <= i < d.len() && #[trigger] digit_value(d[i]) is None {
            Err(SeedError::InvalidDigit)
        } else {
            let v = decode(d);
            let p = v / 32;
            if p >= 0x1_0000_0000_0000_0000_0 {
                Err(SeedError::OutOfRange)
            } else if checksum_of(p) as nat != v % 32 {
                Err(SeedError::ChecksumMismatch)
            } else if (p / 4) % 4 == 3 {
                Err(SeedError::UnknownTrail)
            } else {
                Ok(((p / 16) as u64, trail_named_by((p / 4) % 4)->0, era_named_by(p % 4)))
            }
        }
    }
}


fn push_digits(s: &mut String, v: u128, n: usize)
    ensures
        final(s)@ == old(s)@ + encode(v as nat, n as nat),
    decreases n,
{
    if n == 0 {
        assert(old(s)@ + encode(v as nat, 0) =~= old(s)@);
        return;
    }
    push_digits(s, v / 32, n - 1);
    push_char(s, digit_to_char(v % 32));
    assert(s@ =~= old(s)@ + encode(v as nat, n as nat));
}

fn trail_code(t: &str) -> (r: Option<u128>)
    ensures
        match r {
            Some(k) => trail_number(t@) == Some(k as nat),
            None => trail_number(t@) is None,
        },
{
    if same(t, "oregon") { Some(0) } else if same(t, "california") { Some(1) } else if same(t, "mormon") { Some(2) } else { None }
}

fn era_code(e: &str) -> (r: Option<u128>)
    ensures
        match r {
            Some(k) => era_number(e@) == Some(k as nat),
            None => era_number(e@) is None,
        },
{
    if same(e, "1843") { Some(0) } else if same(e, "1848") { Some(1) } else if same(e, "1852") { Some(2) } else if same(e, "1866") { Some(3) } else { None }
}

proof fn lemma_trim_front(s: Seq<char>, lo: int)
    requires
        0 <= lo <= s.len(),
        forall|k: int| 0 <= k < lo ==> is_space(#[trigger] s[k]),
        lo == s.len() || !is_space(s[lo]),
    ensures
        trim_front(s) == s.subrange(lo, s.len() as int),
    decreases lo,
{
    if lo == 0 {
        assert(s.subrange(0, s.len() as int) =~= s);
    } else {
        assert forall|k: int| 0 <= k < lo - 1 implies is_space(#[trigger] s.drop_first()[k]) by {
            assert(s.drop_first()[k] == s[k + 1]);
        }
        lemma_trim_front(s.drop_first(), lo - 1);
        assert(s.drop_first().subrange(lo - 1, s.len() - 1) =~= s.subrange(lo, s.len() as int));
    }
}

proof fn lemma_trim_back(s: Seq<char>, hi: int)
    requires
        0 <= hi <= s.len(),
        forall|k: int| hi <= k < s.len() ==> is_space(#[trigger] s[k]),
        hi == 0 || !is_space(s[hi - 1]),
    ensures
        trim_back(s) == s.subrange(0, hi),
    decreases s.len() - hi,
{
    if hi == s.len() {
        assert(s.subrange(0, s.len() as int) =~= s);
    } else {
        assert forall|k: int| hi <= k < s.len() - 1 implies is_space(#[trigger] s.drop_last()[k]) by {
            assert(s.drop_last()[k] == s[k]);
        }
        lemma_trim_back(s.drop_last(), hi);
        assert(s.drop_last().subrange(0, hi) =~= s.subrange(0, hi));
    }
}

fn lower_char(c: char) -> (r: char)
    ensures
        r == lower(c),
{
    if 'A' <= c && c <= 'Z' {
        ((c as u8) + 32) as char
    } else {
        c
    }
}

fn width_of(c: char) -> (r: u128)
    ensures
        r == utf8_width(c),
{
    let n = c as u32;
    if n < 0x80 { 1 } else if n < 0x800 { 2 } else if n < 0x10000 { 3 } else { 4 }
}

impl WorldSeed {
    /// The code of this world.
    pub fn code(&self) -> (r: Result<String, SeedError>)
        ensures
            match (trail_number(self.trail@), era_number(self.era@)) {
                (None, _) => r == Err::<String, SeedError>(SeedError::UnknownTrail),
                (Some(_), None) => r == Err::<String, SeedError>(SeedError::UnknownEra),
                (Some(t), Some(e)) => r matches Ok(c) && c@ == code_of(self.seed, t, e),
            },
    {
        let t = match trail_code(self.trail.as_str()) {
            Some(t) => t,
            None => return Err(SeedError::UnknownTrail),
        };
        let e = match era_code(self.era.as_str()) {
            Some(e) => e,
            None => return Err(SeedError::UnknownEra),
        };
        let payload: u128 = self.seed as u128 * 16 + t * 4 + e;
        let check = checksum(payload);
        let value: u128 = payload * 32 + check as u128;
        let mut out = "pt-".to_owned();
        push_digits(&mut out, value, 15);
        Ok(out)
    }

    /// The world a code names. Surrounding white space and capitals are accepted.
    #[verifier::rlimit(40)]
    pub fn parse(code: &str) -> (r: Result<WorldSeed, SeedError>)
        ensures
            match reading(code@) {
                Err(e) => r == Err::<WorldSeed, SeedError>(e),
                Ok((seed, t, e)) => r matches Ok(w) && w.seed == seed && w.trail@ == t && w.era@ == e,
            },
    {
        let ghost s = code@;
        let n = code.unicode_len();
        let mut lo: usize = 0;
        while lo < n && crate::text::is_space_char(code.get_char(lo))
            invariant
                lo <= n,
                n == s.len(),
                s == code@,
                forall|k: int| 0 <= k < lo ==> is_space(#[trigger] s[k]),
            decreases n - lo,
        {
            lo = lo + 1;
        }
        proof { lemma_trim_front(s, lo as int); }
        let mut hi: usize = n;
        while hi > lo && crate::text::is_space_char(code.get_char(hi - 1))
            invariant
                lo <= hi <= n,
                n == s.len(),
                s == code@,
                forall|k: int| hi <= k < n ==> is_space(#[trigger] s[k]),
            decreases hi,
        {
            hi = hi - 1;
        }
        let ghost front = s.subrange(lo as int, n as int);
        proof {
            assert forall|k: int| hi - lo <= k < front.len() implies is_space(#[trigger] front[k]) by {
                assert(front[k] == s[lo + k]);
            }
            if hi > lo {
                assert(front[hi - lo - 1] == s[hi - 1]);
            }
            lemma_trim_back(front, hi - lo);
            assert(front.subrange(0, hi - lo) =~= s.subrange(lo as int, hi as int));
        }
        let ghost t = normalized(s);
        assert(t =~= s.subrange(lo as int, hi as int).map_values(|c: char| lower(c)));
        proof { reveal_strlit("pt-"); }
        if hi - lo < 3 {
            return Err(SeedError::MissingPrefix);
        }
        if lower_char(code.get_char(lo)) != 'p' || lower_char(code.get_char(lo + 1)) != 't' || lower_char(code.get_char(lo + 2)) != '-' {
            assert(t.subrange(0, 3) != "pt-"@) by {
                assert(t[0] == lower(s[lo as int]) && t[1] == lower(s[lo + 1]) && t[2] == lower(s[lo + 2]));
                if t.subrange(0, 3) == "pt-"@ {
                    assert(t.subrange(0, 3)[0] == t[0]);
                    assert(t.subrange(0, 3)[1] == t[1]);
                    assert(t.subrange(0, 3)[2] == t[2]);
                }
            }
            return Err(SeedError::MissingPrefix);
        }
        assert(t.subrange(0, 3) =~= "pt-"@);
        let start = lo + 3;
        let ghost d = t.subrange(3, t.len() as int);
        let mut bytes: u128 = 0;
        let mut i: usize = start;
        while i < hi
            invariant
                start <= i <= hi <= n,
                n == s.len(),
                s == code@,
                t == s.subrange(lo as int, hi as int).map_values(|c: char| lower(c)),
                start == lo + 3,
                d == t.subrange(3, t.len() as int),
                bytes == utf8_len(d.subrange(0, i - start)),
                bytes <= 4 * (i - start),
            decreases hi - i,
        {
            assert(d.subrange(0, i + 1 - start).drop_last() =~= d.subrange(0, i - start));
            assert(d[i - start] == lower(s[i as int]));
            bytes = bytes + width_of(lower_char(code.get_char(i)));
            i = i + 1;
        }
        assert(d.subrange(0, d.len() as int) =~= d);
        if bytes != 15 {
            return Err(SeedError::WrongLength);
        }
        proof { lemma_utf8_len_ge(d); }
        let mut value: u128 = 0;
        let mut i: usize = start;
        while i < hi
            invariant
                start <= i <= hi <= n,
                n == s.len(),
                s == code@,
                t == s.subrange(lo as int, hi as int).map_values(|c: char| lower(c)),
                start == lo + 3,
                d == t.subrange(3, t.len() as int),
                d.len() <= 15,
                utf8_len(d) == 15,
                t == normalized(s),
                t.len() >= 3,
                t.subrange(0, 3) == "pt-"@,
                forall|k: int| 0 <= k < i - start ==> #[trigger] digit_value(d[k]) is Some,
                value == decode(d.subrange(0, i - start)),
                value < pow32((i - start) as nat),
            decreases hi - i,
        {
            assert(d[i - start] == lower(s[i as int]));
            let c = lower_char(code.get_char(i));
            let k = match char_to_digit(c) {
                Some(k) => k,
                None => {
                    assert(digit_value(d[i - start]) is None);
                    return Err(SeedError::InvalidDigit);
                },
            };
            proof {
                assert(d.subrange(0, i + 1 - start).drop_last() =~= d.subrange(0, i - start));
                assert(pow32((i + 1 - start) as nat) == 32 * pow32((i - start) as nat));
                assert(value * 32 + k < pow32((i + 1 - start) as nat)) by (nonlinear_arith)
                    requires value < pow32((i - start) as nat), k < 32, pow32((i + 1 - start) as nat) == 32 * pow32((i - start) as nat);
                lemma_pow32_bound((i + 1 - start) as nat);
            }
            value = value * 32 + k;
            i = i + 1;
        }
        let payload = value / 32;
        if payload >= 0x1_0000_0000_0000_0000_0 {
            return Err(SeedError::OutOfRange);
        }
        if checksum(payload) as u128 != value % 32 {
            return Err(SeedError::ChecksumMismatch);
        }
        let trail: &str = match (payload / 4) % 4 {
            0 => "oregon",
            1 => "california",
            2 => "mormon",
            _ => return Err(SeedError::UnknownTrail),
        };
        let era: &str = match payload % 4 {
            0 => "1843",
            1 => "1848",
            2 => "1852",
            _ => "1866",
        };
        Ok(WorldSeed { seed: (payload / 16) as u64, trail: trail.to_owned(), era: era.to_owned() })
    }
}

proof fn lemma_utf8_len_ge(s: Seq<char>)
    ensures
        utf8_len(s) >= s.len(),
    decreases s.len(),
{
    if s.len() > 0 {
        lemma_utf8_len_ge(s.drop_last());
    }
}

proof fn lemma_pow32_bound(n: nat)
    requires
        n <= 15,
    ensures
        pow32(n) <= pow32(15),
        pow32(15) == 0x8000_0000_0000_0000_000,
    decreases 15 - n,
{
    reveal_with_fuel(pow32, 16);
    if n < 15 {
        lemma_pow32_bound(n + 1);
    }
}


proof fn lemma_encode_chars(v: nat, n: nat)
    ensures
        forall|k: int| 0 <= k < encode(v, n).len() ==> #[trigger] digit_value(encode(v, n)[k]) is Some
            && !is_space(encode(v, n)[k]) && (encode(v, n)[k] as u32) < 0x80 && !('A' <= encode(v, n)[k] <= 'Z'),
        encode(v, n).len() == n,
    decreases n,
{
    if n > 0 {
        lemma_encode_chars(v / 32, (n - 1) as nat);
        lemma_digit_round_trip(v % 32);
        assert forall|k: int| 0 <= k < encode(v, n).len() implies #[trigger] digit_value(encode(v, n)[k]) is Some
            && !is_space(encode(v, n)[k]) && (encode(v, n)[k] as u32) < 0x80 && !('A' <= encode(v, n)[k] <= 'Z') by {
            if k < n - 1 {
                assert(encode(v, n)[k] == encode(v / 32, (n - 1) as nat)[k]);
            }
        }
    }
}

pub proof fn lemma_ascii_len(s: Seq<char>)
    requires
        forall|k: int| 0 <= k < s.len() ==> (#[trigger] s[k] as u32) < 0x80,
    ensures
        utf8_len(s) == s.len(),
    decreases s.len(),
{
    if s.len() > 0 {
        assert forall|k: int| 0 <= k < s.drop_last().len() implies (#[trigger] s.drop_last()[k] as u32) < 0x80 by {
            assert(s.drop_last()[k] == s[k]);
        }
        lemma_ascii_len(s.drop_last());
        assert((s.last() as u32) < 0x80) by { assert(s.last() == s[s.len() - 1]); }
    }
}

/// Reading the code of a world gives back that world: the seed, the trail and the era.
pub proof fn law_code_round_trip(seed: u64, trail: Seq<char>, era: Seq<char>)
    requires
        trail_number(trail) is Some,
        era_number(era) is Some,
    ensures
        reading(code_of(seed, trail_number(trail)->0, era_number(era)->0)) == Ok::<(u64, Seq<char>, Seq<char>), SeedError>((seed, trail, era)),
{
    let t = trail_number(trail)->0;
    let e = era_number(era)->0;
    let p = payload_of(seed, t, e);
    let chk = checksum_of(p);
    let v = p * 32 + chk as nat;
    let enc = encode(v, 15);
    let c = code_of(seed, t, e);
    reveal_strlit("pt-");
    lemma_pow32_bound(15);
    assert(p < 0x1_0000_0000_0000_0000_0);
    assert(chk < 32) by {
        assert(chk == rounds(19, p, 14));
        lemma_rounds_small(19, p, 14);
    }
    assert(v < pow32(15));
    lemma_decode_encode(v, 15);
    lemma_encode_chars(v, 15);
    assert(c == "pt-"@ + enc);
    assert(c.len() == 18);
    assert(!is_space(c[0]));
    assert(c.last() == enc.last());
    assert(!is_space(c.last())) by { assert(enc.last() == enc[14]); }
    assert(trim_front(c) == c);
    assert(trim_back(c) == c);
    assert forall|k: int| 0 <= k < c.len() implies lower(#[trigger] c[k]) == c[k] by {
        if k >= 3 {
            assert(c[k] == enc[k - 3]);
            assert(digit_value(enc[k - 3]) is Some);
        } else {
            assert(c[k] == "pt-"@[k]);
        }
    }
    assert(normalized(c) =~= c);
    assert(c.subrange(0, 3) =~= "pt-"@);
    assert(c.subrange(3, 18) =~= enc);
    assert forall|k: int| 0 <= k < enc.len() implies (#[trigger] enc[k] as u32) < 0x80 by {
        assert(digit_value(enc[k]) is Some);
    }
    lemma_ascii_len(enc);
    assert(v / 32 == p);
    assert(v % 32 == chk as nat);
    assert((p / 4) % 4 == t) by (nonlinear_arith)
        requires p == seed as nat * 16 + t * 4 + e, t < 4, e < 4;
    assert(p % 4 == e) by (nonlinear_arith)
        requires p == seed as nat * 16 + t * 4 + e, t < 4, e < 4;
    assert(p / 16 == seed) by (nonlinear_arith)
        requires p == seed as nat * 16 + t * 4 + e, t < 4, e < 4;
}

proof fn lemma_trim_front_starts(s: Seq<char>)
    ensures
        trim_front(s).len() > 0 ==> !is_space(trim_front(s)[0]),
        trim_front(s).len() > 0 ==> trim_front(s).last() == s.last(),
    decreases s.len(),
{
    if s.len() > 0 && is_space(s[0]) {
        lemma_trim_front_starts(s.drop_first());
    }
}

proof fn lemma_trim_back_ends(s: Seq<char>)
    ensures
        trim_back(s).len() > 0 ==> !is_space(trim_back(s).last()),
        trim_back(s).len() > 0 ==> trim_back(s)[0] == s[0],
    decreases s.len(),
{
    if s.len() > 0 && is_space(s.last()) {
        lemma_trim_back_ends(s.drop_last());
    }
}

proof fn lemma_lower_keeps_space(c: char)
    ensures
        is_space(lower(c)) == is_space(c),
        lower(lower(c)) == lower(c),
{
}

/// A code is read the same with or without surrounding white space and with capitals or
/// small letters: reading it equals reading its trimmed, lower-case form.
pub proof fn law_reading_ignores_spacing_and_case(code: Seq<char>)
    ensures
        reading(code) == reading(normalized(code)),
{
    let u = trim_back(trim_front(code));
    let t = normalized(code);
    lemma_trim_front_starts(code);
    lemma_trim_back_ends(trim_front(code));
    assert(t.len() == u.len());
    if t.len() > 0 {
        lemma_lower_keeps_space(u[0]);
        lemma_lower_keeps_space(u.last());
        assert(t[0] == lower(u[0]));
        assert(t.last() == lower(u.last()));
        assert(!is_space(t[0]));
        assert(!is_space(t.last()));
    }
    assert(trim_front(t) == t);
    assert(trim_back(t) == t);
    assert forall|k: int| 0 <= k < t.len() implies lower(#[trigger] t[k]) == t[k] by {
        lemma_lower_keeps_space(u[k]);
    }
    assert(normalized(t) =~= t);
}

/// `p` and `q` differ in exactly one of their last `n` base-32 digits and agree above them.
pub open spec fn one_digit_apart(p: nat, q: nat, n: nat) -> bool
    decreases n,
{
    n > 0 && if p % 32 != q % 32 { p / 32 == q / 32 } else { one_digit_apart(p / 32, q / 32, (n - 1) as nat) }
}

proof fn lemma_mix_facts(x: u8, y: u8, a: u8, b: u8)
    requires
        x < 32,
        y < 32,
        a < 32,
        b < 32,
    ensures
        mix(x, a) < 32,
        x != y ==> mix(x, a) != mix(y, a),
        a != b ==> mix(x, a) != mix(x, b),
{
    assert(mix(x, a) < 32) by (bit_vector)
        requires x < 32, a < 32;
    assert(x != y ==> mix(x, a) != mix(y, a)) by (bit_vector)
        requires x < 32, y < 32, a < 32;
    assert(a != b ==> mix(x, a) != mix(x, b)) by (bit_vector)
        requires x < 32, a < 32, b < 32;
}

proof fn lemma_rounds_keep_apart(x: u8, y: u8, p: nat, n: nat)
    requires
        x < 32,
        y < 32,
        x != y,
    ensures
        rounds(x, p, n) != rounds(y, p, n),
    decreases n,
{
    if n > 0 {
        let d = (p % 32) as u8;
        lemma_mix_facts(x, y, d, d);
        lemma_mix_facts(y, x, d, d);
        lemma_rounds_keep_apart(mix(x, d), mix(y, d), p / 32, (n - 1) as nat);
    }
}

/// Payloads one digit apart never share a checksum.
pub proof fn law_checksum_tells_digits_apart(p: nat, q: nat, n: nat, r: u8)
    requires
        one_digit_apart(p, q, n),
        r < 32,
    ensures
        rounds(r, p, n) != rounds(r, q, n),
    decreases n,
{
    let a = (p % 32) as u8;
    let b = (q % 32) as u8;
    lemma_mix_facts(r, r, a, b);
    lemma_mix_facts(r, r, b, a);
    if p % 32 != q % 32 {
        lemma_rounds_keep_apart(mix(r, a), mix(r, b), p / 32, (n - 1) as nat);
    } else {
        law_checksum_tells_digits_apart(p / 32, q / 32, (n - 1) as nat, mix(r, a));
    }
}

proof fn lemma_digit_value_inverse(c: char)
    ensures
        digit_value(c) is Some ==> digit_value(c)->0 < 32 && digit_char(digit_value(c)->0) == c,
{
}

proof fn lemma_decode_last(d: Seq<char>)
    requires
        d.len() > 0,
        digit_value(d.last()) is Some,
    ensures
        decode(d) % 32 == digit_value(d.last())->0,
        decode(d) / 32 == decode(d.drop_last()),
{
    lemma_digit_value_inverse(d.last());
    let x = decode(d.drop_last());
    let k = digit_value(d.last())->0;
    assert(decode(d) == x * 32 + k);
    assert((x * 32 + k) % 32 == k && (x * 32 + k) / 32 == x) by (nonlinear_arith)
        requires k < 32;
}

proof fn lemma_digits_one_apart(e: Seq<char>, f: Seq<char>, j: int)
    requires
        0 <= j < e.len(),
        f == e.update(j, f[j]),
        f[j] != e[j],
        forall|k: int| 0 <= k < e.len() ==> #[trigger] digit_value(e[k]) is Some,
        digit_value(f[j]) is Some,
    ensures
        one_digit_apart(decode(e), decode(f), e.len()),
    decreases e.len(),
{
    let n = e.len();
    assert(e.last() == e[n - 1]);
    assert(f.last() == f[n - 1]);
    assert(digit_value(f.last()) is Some) by {
        if j != n - 1 { assert(f[n - 1] == e[n - 1]); }
    }
    lemma_decode_last(e);
    lemma_decode_last(f);
    lemma_digit_value_inverse(e[j]);
    lemma_digit_value_inverse(f[j]);
    if j == n - 1 {
        assert(f.drop_last() =~= e.drop_last());
    } else {
        assert(f.last() == e.last());
        let e2 = e.drop_last();
        let f2 = f.drop_last();
        assert(f2 =~= e2.update(j, f2[j]));
        assert forall|k: int| 0 <= k < e2.len() implies #[trigger] digit_value(e2[k]) is Some by {
            assert(e2[k] == e[k]);
        }
        lemma_digits_one_apart(e2, f2, j);
    }
}

/// Changing any one digit of a world's code to another digit leaves no code that reads:
/// the checksum, or the range of the payload, catches every such slip.
pub proof fn law_single_digit_change_is_caught(seed: u64, trail: Seq<char>, era: Seq<char>, j: int, c: char)
    requires
        trail_number(trail) is Some,
        era_number(era) is Some,
        0 <= j < 15,
        digit_value(c) is Some,
        c != code_of(seed, trail_number(trail)->0, era_number(era)->0)[3 + j],
    ensures
        reading(code_of(seed, trail_number(trail)->0, era_number(era)->0).update(3 + j, c)) is Err,
{
    let t = trail_number(trail)->0;
    let e = era_number(era)->0;
    let p = payload_of(seed, t, e);
    let chk = checksum_of(p);
    let v = p * 32 + chk as nat;
    let enc = encode(v, 15);
    let code = code_of(seed, t, e);
    let c2 = code.update(3 + j, c);
    let enc2 = enc.update(j, c);
    reveal_strlit("pt-");
    lemma_pow32_bound(15);
    assert(chk < 32) by {
        lemma_rounds_small(19, p, 14);
    }
    assert(p < 0x1_0000_0000_0000_0000_0);
    assert(v < pow32(15));
    lemma_decode_encode(v, 15);
    lemma_encode_chars(v, 15);
    lemma_digit_value_inverse(c);
    assert(code == "pt-"@ + enc);
    assert(c2 =~= "pt-"@ + enc2);
    assert forall|k: int| 0 <= k < enc2.len() implies digit_value(#[trigger] enc2[k]) is Some
        && !is_space(enc2[k]) && (enc2[k] as u32) < 0x80 && lower(enc2[k]) == enc2[k] by {
        if k != j { assert(enc2[k] == enc[k]); }
    }
    assert(c2.len() == 18);
    assert(!is_space(c2[0]));
    assert(c2.last() == enc2[14]);
    assert(trim_front(c2) == c2);
    assert(trim_back(c2) == c2);
    assert forall|k: int| 0 <= k < c2.len() implies lower(#[trigger] c2[k]) == c2[k] by {
        if k >= 3 {
            assert(c2[k] == enc2[k - 3]);
        } else {
            assert(c2[k] == "pt-"@[k]);
        }
    }
    assert(normalized(c2) =~= c2);
    assert(c2.subrange(0, 3) =~= "pt-"@);
    assert(c2.subrange(3, 18) =~= enc2);
    lemma_ascii_len(enc2);
    assert(enc[j] == code[3 + j]);
    lemma_digits_one_apart(enc, enc2, j);
    let v2 = decode(enc2);
    assert(v % 32 == chk as nat && v / 32 == p) by (nonlinear_arith)
        requires v == p * 32 + chk as nat, chk < 32;
    if v2 / 32 < 0x1_0000_0000_0000_0000_0 {
        if v % 32 != v2 % 32 {
            assert(v2 / 32 == p);
        } else {
            assert(one_digit_apart(p, v2 / 32, 14));
            law_checksum_tells_digits_apart(p, v2 / 32, 14, 19);
        }
        assert(checksum_of(v2 / 32) as nat != v2 % 32);
    }
}

proof fn lemma_encode_decode(d: Seq<char>)
    requires
        forall|k: int| 0 <= k < d.len() ==> #[trigger] digit_value(d[k]) is Some,
    ensures
        encode(decode(d), d.len()) == d,
    decreases d.len(),
{
    if d.len() > 0 {
        let e = d.drop_last();
        assert forall|k: int| 0 <= k < e.len() implies #[trigger] digit_value(e[k]) is Some by {
            assert(e[k] == d[k]);
        }
        lemma_encode_decode(e);
        assert(d.last() == d[d.len() - 1]);
        lemma_decode_last(d);
        lemma_digit_value_inverse(d.last());
        assert(d =~= e.push(d.last()));
    }
}

/// A code that reads is, letter for letter, the code of the world it reads as, once its
/// surrounding white space is gone and its capitals are made small.
pub proof fn law_read_code_is_canonical(code: Seq<char>)
    requires
        reading(code) is Ok,
    ensures
        ({
            let (seed, trail, era) = reading(code)->Ok_0;
            &&& trail_number(trail) is Some
            &&& era_number(era) is Some
            &&& code_of(seed, trail_number(trail)->0, era_number(era)->0) == normalized(code)
        }),
{
    let t = normalized(code);
    let d = t.subrange(3, t.len() as int);
    let v = decode(d);
    let p = v / 32;
    reveal_strlit("pt-");
    assert forall|k: int| 0 <= k < d.len() implies (#[trigger] d[k] as u32) < 0x80 by {
        assert(digit_value(d[k]) is Some);
    }
    lemma_ascii_len(d);
    assert(d.len() == 15);
    lemma_encode_decode(d);
    let seed = (p / 16) as u64;
    let tn = (p / 4) % 4;
    let en = p % 4;
    reveal_strlit("oregon");
    reveal_strlit("california");
    reveal_strlit("mormon");
    reveal_strlit("1843");
    reveal_strlit("1848");
    reveal_strlit("1852");
    reveal_strlit("1866");
    assert(tn < 3 && en < 4);
    assert(trail_number(trail_named_by(tn)->0) == Some(tn)) by {
        assert("oregon"@.len() != "california"@.len());
        assert("mormon"@.len() != "california"@.len());
        assert("mormon"@[0] != "oregon"@[0]);
    }
    assert(era_number(era_named_by(en)) == Some(en)) by {
        assert("1843"@[3] != "1848"@[3]);
        assert("1843"@[2] != "1852"@[2]);
        assert("1843"@[2] != "1866"@[2]);
        assert("1848"@[2] != "1852"@[2]);
        assert("1848"@[2] != "1866"@[2]);
        assert("1852"@[2] != "1866"@[2]);
    }
    assert(p / 16 < 0x1_0000_0000_0000_0000) by (nonlinear_arith)
        requires p < 0x1_0000_0000_0000_0000_0;
    assert(payload_of(seed, tn, en) == p) by (nonlinear_arith)
        requires seed as nat == p / 16, tn == (p / 4) % 4, en == p % 4;
    assert(p * 32 + v % 32 == v) by (nonlinear_arith)
        requires p == v / 32;
    assert(t =~= "pt-"@ + d);
}

/// A world that a code parses to has a code of its own, and that code is the text that
/// was parsed, without its surrounding white space and with its capitals made small.
pub proof fn law_parsed_world_codes_back(code: Seq<char>, w: WorldSeed)
    requires
        reading(code) == Ok::<(u64, Seq<char>, Seq<char>), SeedError>((w.seed, w.trail@, w.era@)),
    ensures
        trail_number(w.trail@) is Some,
        era_number(w.era@) is Some,
        code_of(w.seed, trail_number(w.trail@)->0, era_number(w.era@)->0) == normalized(code),
{
    law_read_code_is_canonical(code);
}

/// Changing one character after `pt-` in the code of a world to another character of the
/// code alphabet leaves a text that parses to no world.
pub proof fn law_single_typo_is_refused(w: WorldSeed, j: int, c: char)
    requires
        trail_number(w.trail@) is Some,
        era_number(w.era@) is Some,
        0 <= j < 15,
        digit_value(c) is Some,
        c != code_of(w.seed, trail_number(w.trail@)->0, era_number(w.era@)->0)[3 + j],
    ensures
        reading(code_of(w.seed, trail_number(w.trail@)->0, era_number(w.era@)->0).update(3 + j, c)) is Err,
{
    law_single_digit_change_is_caught(w.seed, w.trail@, w.era@, j, c);
}

/// An ASCII small letter made capital; other characters are kept.
pub open spec fn upper(c: char) -> char {
    if 'a' <= c <= 'z' { ((c as u8) - 32) as char } else { c }
}

proof fn lemma_trim_front_upper(s: Seq<char>)
    ensures
        trim_front(s.map_values(|c: char| upper(c))) == trim_front(s).map_values(|c: char| upper(c)),
    decreases s.len(),
{
    let u = s.map_values(|c: char| upper(c));
    if s.len() > 0 {
        assert(u[0] == upper(s[0]));
        assert(u.drop_first() =~= s.drop_first().map_values(|c: char| upper(c)));
        lemma_trim_front_upper(s.drop_first());
    }
}

proof fn lemma_trim_back_upper(s: Seq<char>)
    ensures
        trim_back(s.map_values(|c: char| upper(c))) == trim_back(s).map_values(|c: char| upper(c)),
    decreases s.len(),
{
    let u = s.map_values(|c: char| upper(c));
    if s.len() > 0 {
        assert(u.last() == upper(s.last()));
        assert(u.drop_last() =~= s.drop_last().map_values(|c: char| upper(c)));
        lemma_trim_back_upper(s.drop_last());
    }
}

proof fn lemma_trim_front_push(u: Seq<char>, c: char)
    ensures
        trim_front(u.push(c)) == if trim_front(u).len() > 0 { trim_front(u).push(c) } else { trim_front(seq![c]) },
    decreases u.len(),
{
    if u.len() == 0 {
        assert(u.push(c) =~= seq![c]);
    } else if is_space(u[0]) {
        assert(u.push(c).drop_first() =~= u.drop_first().push(c));
        lemma_trim_front_push(u.drop_first(), c);
    }
}

/// A code is read the same with a space on either side and its small letters made
/// capital: reading the padded capitals gives what reading the code gives.
pub proof fn law_padding_and_capitals_read_the_same(code: Seq<char>)
    ensures
        reading(seq![' '] + code.map_values(|c: char| upper(c)) + seq![' ']) == reading(code),
{
    let u = code.map_values(|c: char| upper(c));
    let x = seq![' '] + u + seq![' '];
    assert(is_space(' '));
    assert(x.drop_first() =~= u.push(' '));
    assert(trim_front(x) == trim_front(u.push(' ')));
    lemma_trim_front_push(u, ' ');
    let f = trim_front(u);
    if f.len() > 0 {
        assert(f.push(' ').drop_last() =~= f);
        assert(trim_back(trim_front(x)) == trim_back(f));
    } else {
        let one = seq![' '];
        assert(one.drop_first() =~= Seq::<char>::empty());
        assert(one[0] == ' ');
        assert(trim_front(Seq::<char>::empty()) == Seq::<char>::empty());
        assert(trim_front(one) == trim_front(one.drop_first()));
        assert(trim_back(trim_front(x)) == trim_back(f));
    }
    lemma_trim_front_upper(code);
    lemma_trim_back_upper(trim_front(code));
    let t = trim_back(trim_front(code));
    assert(trim_back(f) == t.map_values(|c: char| upper(c)));
    assert(normalized(x) =~= normalized(code)) by {
        assert forall|k: int| 0 <= k < t.len() implies lower(upper(#[trigger] t[k])) == lower(t[k]) by {}
    }
    law_reading_ignores_spacing_and_case(x);
    law_reading_ignores_spacing_and_case(code);
}

proof fn lemma_rounds_small(r: u8, p: nat, n: nat)
    requires
        n > 0,
    ensures
        rounds(r, p, n) < 32,
    decreases n,
{
    let d = (p % 32) as u8;
    assert(mix(r, d) < 32) by (bit_vector)
        requires d < 32;
    assert(rounds(r, p, n) == rounds(mix(r, d), p / 32, (n - 1) as nat));
    if n > 1 {
        lemma_rounds_small(mix(r, d), p / 32, (n - 1) as nat);
    } else {
        assert(rounds(mix(r, d), p / 32, 0) == mix(r, d));
    }
}

} // verus!
