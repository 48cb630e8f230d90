//! Small verified text helpers shared by the rules: comparison, character classes,
//! decimal rendering and bounded cleaning of user-supplied text.

use vstd::prelude::*;
use vstd::string::StrSliceExecFns;

verus! {

/// `true` when `c` is a Unicode control character (general category `Cc`).
pub open spec fn is_control_char(c: char) -> bool {
    (c as u32) <= 0x1f || (0x7f <= (c as u32) && (c as u32) <= 0x9f)
}

/// Executable form of [`is_control_char`].
pub fn char_is_control(c: char) -> (r: bool)
    ensures
        r == is_control_char(c),
{
    let n = c as u32;
    n <= 0x1f || (0x7f <= n && n <= 0x9f)
}

/// `true` when no character of `s` is a control character.
pub open spec fn printable(s: Seq<char>) -> bool {
    forall|i: int| 0 <= i < s.len() ==> !is_control_char(#[trigger] s[i])
}

/// Character-wise equality of two strings.
pub fn same(a: &str, b: &str) -> (r: bool)
    ensures
        r == (a@ == b@),
{
    let n = a.unicode_len();
    let m = b.unicode_len();
    if n != m {
        return false;
    }
    let mut i: usize = 0;
    while i < n
        invariant
            n == a@.len(),
            m == b@.len(),
            n == m,
            i <= n,
            forall|j: int| 0 <= j < i ==> a@[j] == b@[j],
        decreases n - i,
    {
        if a.get_char(i) != b.get_char(i) {
            return false;
        }
        i = i + 1;
    }
    assert(a@ =~= b@);
    true
}

/// `true` when some character of `s` is a control character.
pub fn has_control(s: &str) -> (r: bool)
    ensures
        r == !printable(s@),
{
    let n = s.unicode_len();
    let mut i: usize = 0;
    while i < n
        invariant
            n == s@.len(),
            i <= n,
            forall|j: int| 0 <= j < i ==> !is_control_char(#[trigger] s@[j]),
        decreases n - i,
    {
        if char_is_control(s.get_char(i)) {
            return true;
        }
        i = i + 1;
    }
    false
}

/// Appends one character; `String::push` from std.
#[verifier::external_body]
pub fn push_char(s: &mut String, c: char)
    ensures
        final(s)@ == old(s)@.push(c),
{
    s.push(c);
}

/// The text `s` in lower case, as std's `str::to_lowercase` gives it: a function of `s`
/// alone, by the Unicode case tables of the standard library.
pub uninterp spec fn lowercase(s: Seq<char>) -> Seq<char>;

/// `str::to_lowercase` from std. Claimed: the result is `lowercase` of the text; nothing
/// more is said of Unicode case mapping here.
#[verifier::external_body]
pub fn to_lowercase(s: &str) -> (r: String)
    ensures
        r@ == lowercase(s@),
{
    s.to_lowercase()
}

/// The decimal digits of `n`, most significant first, with no leading zeros.
pub open spec fn decimal(n: nat) -> Seq<char>
    decreases n,
{
    if n < 10 {
        seq![digit_char(n)]
    } else {
        decimal(n / 10).push(digit_char(n % 10))
    }
}

/// The ASCII digit for `d < 10`.
pub open spec fn digit_char(d: nat) -> char {
    (('0' as u32) + d) as char
}

fn digit(d: u64) -> (c: char)
    requires
        d < 10,
    ensures
        c == digit_char(d as nat),
{
    if d == 0 { '0' }
    else if d == 1 { '1' }
    else if d == 2 { '2' }
    else if d == 3 { '3' }
    else if d == 4 { '4' }
    else if d == 5 { '5' }
    else if d == 6 { '6' }
    else if d == 7 { '7' }
    else if d == 8 { '8' }
    else { '9' }
}

/// Appends the decimal rendering of `n` to `s`.
pub fn push_decimal(s: &mut String, n: u64)
    ensures
        final(s)@ == old(s)@ + decimal(n as nat),
    decreases n,
{
    if n < 10 {
        push_char(s, digit(n));
        assert(old(s)@.push(digit_char(n as nat)) =~= old(s)@ + decimal(n as nat));
    } else {
        push_decimal(s, n / 10);
        push_char(s, digit(n % 10));
        assert(decimal(n as nat) == decimal((n / 10) as nat).push(digit_char((n % 10) as nat)));
        assert(final(s)@ =~= old(s)@ + decimal(n as nat));
    }
}

/// The decimal rendering of `n` as a new string.
pub fn decimal_string(n: u64) -> (r: String)
    ensures
        r@ == decimal(n as nat),
{
    let mut s = String::new();
    push_decimal(&mut s, n);
    assert(s@ =~= decimal(n as nat));
    s
}


/// `s` with every underscore turned into a space.
pub open spec fn spaced(s: Seq<char>) -> Seq<char> {
    s.map_values(|c: char| if c == '_' { ' ' } else { c })
}

/// Appends `s` with underscores shown as spaces.
pub fn push_spaced(out: &mut String, s: &str)
    ensures
        final(out)@ == old(out)@ + spaced(s@),
{
    let n = s.unicode_len();
    let mut i: usize = 0;
    while i < n
        invariant
            n == s@.len(),
            i <= n,
            out@ == old(out)@ + spaced(s@.subrange(0, i as int)),
        decreases n - i,
    {
        let c = s.get_char(i);
        push_char(out, if c == '_' { ' ' } else { c });
        assert(spaced(s@.subrange(0, (i + 1) as int)) =~= spaced(s@.subrange(0, i as int)).push(if c == '_' { ' ' } else { c }));
        assert(out@ =~= old(out)@ + spaced(s@.subrange(0, (i + 1) as int)));
        i = i + 1;
    }
    assert(s@.subrange(0, n as int) =~= s@);
}

/// Two decimal digits for `n < 100`, with a leading zero.
pub open spec fn two_digits(n: nat) -> Seq<char> {
    seq![digit_char(n / 10), digit_char(n % 10)]
}

/// An amount of cents as dollars with two decimals, such as `-1.50`.
pub open spec fn dollars(cents: int) -> Seq<char> {
    let a: nat = if cents < 0 { (-cents) as nat } else { cents as nat };
    (if cents < 0 { seq!['-'] } else { Seq::<char>::empty() }) + decimal(a / 100) + seq!['.'] + two_digits(a % 100)
}

/// Appends `cents` as dollars with two decimals.
pub fn push_dollars(out: &mut String, cents: i64)
    ensures
        final(out)@ == old(out)@ + dollars(cents as int),
{
    let a: u64 = if cents < 0 { (0i128 - cents as i128) as u64 } else { cents as u64 };
    if cents < 0 {
        push_char(out, '-');
    }
    let ghost mid = out@;
    push_decimal(out, a / 100);
    push_char(out, '.');
    push_char(out, digit((a % 100) / 10));
    push_char(out, digit(a % 10));
    proof {
        assert((a % 100) % 10 == a % 10);
        let aa: nat = if cents < 0 { (-cents) as nat } else { cents as nat };
        assert(aa == a as nat);
        assert(out@ =~= old(out)@ + dollars(cents as int));
    }
}


/// Whether `needle` occurs in `hay` as a contiguous run of characters.
pub open spec fn occurs(hay: Seq<char>, needle: Seq<char>) -> bool {
    exists|i: int| 0 <= i && i + needle.len() <= hay.len() && #[trigger] hay.subrange(i, i + needle.len()) == needle
}

/// Whether `needle` occurs in `hay`.
pub fn contains_text(hay: &str, needle: &str) -> (r: bool)
    ensures
        r == occurs(hay@, needle@),
{
    let n = hay.unicode_len();
    let m = needle.unicode_len();
    if m > n {
        return false;
    }
    let mut i: usize = 0;
    while i <= n - m
        invariant
            n == hay@.len(),
            m == needle@.len(),
            m <= n,
            i <= n - m + 1,
            forall|k: int| 0 <= k < i ==> #[trigger] hay@.subrange(k, k + m) != needle@,
        decreases n - m + 1 - i,
    {
        let mut j: usize = 0;
        let mut ok = true;
        while j < m
            invariant
                n == hay@.len(),
                m == needle@.len(),
                i + m <= n,
                j <= m,
                ok == forall|t: int| 0 <= t < j ==> hay@[i + t] == needle@[t],
            decreases m - j,
        {
            if hay.get_char(i + j) != needle.get_char(j) {
                ok = false;
            }
            j = j + 1;
        }
        if ok {
            assert(hay@.subrange(i as int, i + m) =~= needle@);
            return true;
        }
        proof {
            if hay@.subrange(i as int, i + m) == needle@ {
                assert forall|t: int| 0 <= t < m implies hay@[i + t] == needle@[t] by {
                    assert(hay@.subrange(i as int, i + m)[t] == hay@[i + t]);
                }
            }
        }
        i = i + 1;
    }
    false
}

/// Unicode white space.
pub open spec fn is_space(c: char) -> bool {
    let n = c as u32;
    (0x09 <= n <= 0x0d) || n == 0x20 || n == 0x85 || n == 0xa0 || n == 0x1680 || (0x2000 <= n <= 0x200a)
        || n == 0x2028 || n == 0x2029 || n == 0x202f || n == 0x205f || n == 0x3000
}

/// Executable form of [`is_space`].
pub fn is_space_char(c: char) -> (r: bool)
    ensures
        r == is_space(c),
{
    let n = c as u32;
    (0x09 <= n && n <= 0x0d) || n == 0x20 || n == 0x85 || n == 0xa0 || n == 0x1680
        || (0x2000 <= n && n <= 0x200a) || n == 0x2028 || n == 0x2029 || n == 0x202f || n == 0x205f
        || n == 0x3000
}

/// Whether `s` is empty or white space only.
pub fn is_blank(s: &str) -> (r: bool)
    ensures
        r == forall|i: int| 0 <= i < s@.len() ==> is_space(#[trigger] s@[i]),
{
    let n = s.unicode_len();
    let mut i: usize = 0;
    while i < n
        invariant
            n == s@.len(),
            i <= n,
            forall|k: int| 0 <= k < i ==> is_space(#[trigger] s@[k]),
        decreases n - i,
    {
        let c = s.get_char(i) as u32;
        let space = (0x09 <= c && c <= 0x0d) || c == 0x20 || c == 0x85 || c == 0xa0 || c == 0x1680
            || (0x2000 <= c && c <= 0x200a) || c == 0x2028 || c == 0x2029 || c == 0x202f || c == 0x205f
            || c == 0x3000;
        if !space {
            return false;
        }
        i = i + 1;
    }
    true
}

// ---------------------------------------------------------------------------------------
// Dictionary order.

/// `a` comes before `b` in dictionary order of characters (a proper prefix first).
pub open spec fn text_before(a: Seq<char>, b: Seq<char>) -> bool {
    exists|i: int| 0 <= i <= a.len() && i <= b.len() && #[trigger] a.take(i) == b.take(i)
        && ((i == a.len() && i < b.len()) || (i < a.len() && i < b.len() && (a[i] as int) < (b[i] as int)))
}

/// Nothing comes before itself, and of two texts at most one comes first.
pub proof fn lemma_text_before_asymmetric(a: Seq<char>, b: Seq<char>)
    ensures
        !(text_before(a, b) && text_before(b, a)),
        !text_before(a, a),
{
    if text_before(a, b) && text_before(b, a) {
        let i = choose|i: int| 0 <= i <= a.len() && i <= b.len() && #[trigger] a.take(i) == b.take(i)
            && ((i == a.len() && i < b.len()) || (i < a.len() && i < b.len() && (a[i] as int) < (b[i] as int)));
        let j = choose|j: int| 0 <= j <= b.len() && j <= a.len() && #[trigger] b.take(j) == a.take(j)
            && ((j == b.len() && j < a.len()) || (j < b.len() && j < a.len() && (b[j] as int) < (a[j] as int)));
        if i < j {
            assert(a.take(j)[i] == b.take(j)[i]);
        } else if j < i {
            assert(a.take(i)[j] == b.take(i)[j]);
        }
    }
    if text_before(a, a) {
        let i = choose|i: int| 0 <= i <= a.len() && i <= a.len() && #[trigger] a.take(i) == a.take(i)
            && ((i == a.len() && i < a.len()) || (i < a.len() && i < a.len() && (a[i] as int) < (a[i] as int)));
    }
}

/// Dictionary order is transitive.
pub proof fn lemma_text_before_transitive(a: Seq<char>, b: Seq<char>, c: Seq<char>)
    requires
        text_before(a, b),
        text_before(b, c),
    ensures
        text_before(a, c),
{
    let i = choose|i: int| 0 <= i <= a.len() && i <= b.len() && #[trigger] a.take(i) == b.take(i)
        && ((i == a.len() && i < b.len()) || (i < a.len() && i < b.len() && (a[i] as int) < (b[i] as int)));
    let j = choose|j: int| 0 <= j <= b.len() && j <= c.len() && #[trigger] b.take(j) == c.take(j)
        && ((j == b.len() && j < c.len()) || (j < b.len() && j < c.len() && (b[j] as int) < (c[j] as int)));
    let k = if i < j { i } else { j };
    assert(a.take(k) =~= b.take(i).take(k));
    assert(c.take(k) =~= b.take(j).take(k));
    assert(a.take(k) =~= c.take(k));
    if i < j {
        assert(b.take(j)[i] == c.take(j)[i]);
    } else if j < i {
        assert(a.take(i)[j] == b.take(i)[j]);
    }
}

/// Compares two texts in dictionary order: -1 when `a` comes first, 0 when they are
/// equal, 1 when `b` comes first.
pub fn compare_text(a: &str, b: &str) -> (r: i8)
    ensures
        r == -1 <==> text_before(a@, b@),
        r == 0 <==> a@ == b@,
        r == 1 <==> text_before(b@, a@),
        r == -1 || r == 0 || r == 1,
{
    let n = a.unicode_len();
    let m = b.unicode_len();
    let mut i: usize = 0;
    while i < n && i < m && a.get_char(i) == b.get_char(i)
        invariant
            n == a@.len(),
            m == b@.len(),
            i <= n,
            i <= m,
            a@.take(i as int) == b@.take(i as int),
        decreases n - i,
    {
        assert(a@.take(i + 1) =~= a@.take(i as int).push(a@[i as int]));
        assert(b@.take(i + 1) =~= b@.take(i as int).push(b@[i as int]));
        i = i + 1;
    }
    proof {
        lemma_text_before_asymmetric(a@, b@);
    }
    if i < n && i < m {
        let x = a.get_char(i);
        let y = b.get_char(i);
        assert(a@ != b@) by {
            if a@ == b@ {
                assert(a@[i as int] == b@[i as int]);
            }
        }
        if (x as u32) < (y as u32) {
            assert(b@.take(i as int) == a@.take(i as int));
            return -1;
        } else {
            assert(b@.take(i as int) == a@.take(i as int));
            assert(text_before(b@, a@));
            return 1;
        }
    }
    if n == m {
        assert(a@ =~= a@.take(i as int));
        assert(b@ =~= b@.take(i as int));
        return 0;
    }
    if n < m {
        assert(a@ =~= a@.take(i as int));
        assert(a@ != b@);
        return -1;
    }
    assert(b@ =~= b@.take(i as int));
    assert(b@.take(i as int) == a@.take(i as int));
    assert(text_before(b@, a@));
    assert(a@ != b@);
    1
}

} // verus!
