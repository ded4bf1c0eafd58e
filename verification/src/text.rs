//! Character-level text operations shared by search, parsing and formatting.
use vstd::prelude::*;

verus! {

/// Unicode `Alphabetic || Numeric` property of a character, as `char::is_alphanumeric` reports it.
pub uninterp spec fn char_alphanumeric(c: char) -> bool;

/// Unicode `Uppercase` property, as `char::is_uppercase` reports it.
pub uninterp spec fn char_uppercase(c: char) -> bool;

/// Unicode `Lowercase` property, as `char::is_lowercase` reports it.
pub uninterp spec fn char_lowercase(c: char) -> bool;

/// Unicode `White_Space` property, as `char::is_whitespace` reports it.
pub uninterp spec fn char_whitespace(c: char) -> bool;

/// Unicode general category `Cc` (control codes): U+0000 to U+001F and U+007F to U+009F,
/// as `char::is_control` reports it.
pub open spec fn char_control(c: char) -> bool {
    (c as u32) <= 0x1f || (0x7f <= (c as u32) && (c as u32) <= 0x9f)
}

/// The full lowercase mapping of a character, as `char::to_lowercase` yields it.
pub uninterp spec fn char_lowercase_map(c: char) -> Seq<char>;

/// First character of the full lowercase mapping of `c` (`c` itself when the mapping is empty).
pub open spec fn char_lower(c: char) -> char {
    let m = char_lowercase_map(c);
    if m.len() > 0 { m[0] } else { c }
}

/// Full Unicode lowercase mapping of a string, as `str::to_lowercase` computes it.
pub uninterp spec fn str_lowercase(s: Seq<char>) -> Seq<char>;

/// Characters of `String::from_utf8_lossy` applied to a byte string.
pub uninterp spec fn utf8_lossy(bytes: Seq<u8>) -> Seq<char>;

/// Calls `char::is_alphanumeric`.
#[verifier::external_body]
pub(crate) fn is_alphanumeric(c: char) -> (r: bool)
    ensures
        r == char_alphanumeric(c),
{
    c.is_alphanumeric()
}

/// Calls `char::is_uppercase`.
#[verifier::external_body]
pub(crate) fn is_uppercase(c: char) -> (r: bool)
    ensures
        r == char_uppercase(c),
{
    c.is_uppercase()
}

/// Calls `char::is_lowercase`.
#[verifier::external_body]
pub(crate) fn is_lowercase(c: char) -> (r: bool)
    ensures
        r == char_lowercase(c),
{
    c.is_lowercase()
}

/// Calls `char::is_whitespace`.
#[verifier::external_body]
pub(crate) fn is_whitespace(c: char) -> (r: bool)
    ensures
        r == char_whitespace(c),
{
    c.is_whitespace()
}

/// Whether a character is a control code (general category `Cc`).
pub(crate) fn is_control(c: char) -> (r: bool)
    ensures
        r == char_control(c),
{
    let v = c as u32;
    v <= 0x1f || (0x7f <= v && v <= 0x9f)
}

/// Calls `char::to_lowercase` and collects the mapping.
#[verifier::external_body]
fn lowercase_map(c: char) -> (r: Vec<char>)
    ensures
        r@ == char_lowercase_map(c),
{
    c.to_lowercase().collect()
}

/// The first character of the lowercase mapping of `c`, or `c` when the mapping is empty.
pub(crate) fn lower(c: char) -> (r: char)
    ensures
        r == char_lower(c),
{
    let m = lowercase_map(c);
    if m.len() > 0 { m[0] } else { c }
}

/// Calls `str::to_lowercase` on the string made of `s`.
#[verifier::external_body]
pub(crate) fn lowercase(s: &[char]) -> (r: Vec<char>)
    ensures
        r@ == str_lowercase(s@),
{
    s.iter().collect::<String>().to_lowercase().chars().collect()
}

/// Calls `String::from_utf8_lossy`.
#[verifier::external_body]
pub(crate) fn lossy(bytes: &[u8]) -> (r: Vec<char>)
    ensures
        r@ == utf8_lossy(bytes@),
{
    String::from_utf8_lossy(bytes).chars().collect()
}

/// Builds a `String` from its characters (`FromIterator<char>`).
#[verifier::external_body]
pub(crate) fn to_string(s: &[char]) -> (r: String)
    ensures
        r@ == s@,
{
    s.iter().collect()
}

/// The characters of a string slice.
pub fn chars_of(s: &str) -> (r: Vec<char>)
    ensures
        r@ == s@,
{
    let mut out: Vec<char> = Vec::new();
    for c in it: s.chars()
        invariant
            it.seq() == s@,
            out@ == it.seq().take(it.index() as int),
            out@.len() == it.index(),
            it.index() <= s@.len(),
    {
        out.push(c);
        proof {
            assert(it.seq().take(it.index() as int + 1) =~= it.seq().take(it.index() as int).push(c));
        }
    }
    out
}


/// Words of `s` after `cur`, the word under construction: maximal runs of non-whitespace,
/// in order, as `str::split_whitespace` yields them.
pub open spec fn words_from(s: Seq<char>, cur: Seq<char>) -> Seq<Seq<char>>
    decreases s.len(),
{
    if s.len() == 0 {
        if cur.len() > 0 { seq![cur] } else { Seq::empty() }
    } else if char_whitespace(s[0]) {
        (if cur.len() > 0 { seq![cur] } else { Seq::<Seq<char>>::empty() }) + words_from(s.drop_first(), Seq::empty())
    } else {
        words_from(s.drop_first(), cur.push(s[0]))
    }
}

/// The whitespace-separated words of `s`.
pub open spec fn words(s: Seq<char>) -> Seq<Seq<char>> {
    words_from(s, Seq::empty())
}

/// Pieces of `s` between separators `sep`, after the piece `cur` under construction,
/// as `str::split` with a character pattern yields them (empty pieces included).
pub open spec fn pieces_from<T>(s: Seq<T>, sep: T, cur: Seq<T>) -> Seq<Seq<T>>
    decreases s.len(),
{
    if s.len() == 0 {
        seq![cur]
    } else if s[0] == sep {
        seq![cur] + pieces_from(s.drop_first(), sep, Seq::empty())
    } else {
        pieces_from(s.drop_first(), sep, cur.push(s[0]))
    }
}

/// The pieces of `s` between occurrences of `sep`.
pub open spec fn pieces<T>(s: Seq<T>, sep: T) -> Seq<Seq<T>> {
    pieces_from(s, sep, Seq::empty())
}

/// `needle` occurs in `hay` starting at position `i`.
pub open spec fn occurs_at<T>(hay: Seq<T>, needle: Seq<T>, i: int) -> bool {
    0 <= i && i + needle.len() <= hay.len() && hay.subrange(i, i + needle.len()) == needle
}

/// `needle` occurs somewhere in `hay`.
pub open spec fn contains_seq<T>(hay: Seq<T>, needle: Seq<T>) -> bool {
    exists|i: int| occurs_at(hay, needle, i)
}

/// `hay` begins with `prefix`.
pub open spec fn starts_with<T>(hay: Seq<T>, prefix: Seq<T>) -> bool {
    occurs_at(hay, prefix, 0)
}

/// `hay` ends with `suffix`.
pub open spec fn ends_with<T>(hay: Seq<T>, suffix: Seq<T>) -> bool {
    occurs_at(hay, suffix, hay.len() - suffix.len())
}

/// Splits `s` into its whitespace-separated words.
pub fn split_whitespace(s: &[char]) -> (r: Vec<Vec<char>>)
    ensures
        r@.map_values(|w: Vec<char>| w@) == words(s@),
{
    let mut out: Vec<Vec<char>> = Vec::new();
    let mut cur: Vec<char> = Vec::new();
    let mut i: usize = 0;
    assert(s@.skip(0) =~= s@);
    assert(out@.map_values(|w: Vec<char>| w@) =~= Seq::<Seq<char>>::empty());
    while i < s.len()
        invariant
            i <= s.len(),
            out@.map_values(|w: Vec<char>| w@) + words_from(s@.skip(i as int), cur@) == words(s@),
        decreases s.len() - i,
    {
        let ghost before = out@.map_values(|w: Vec<char>| w@);
        let ghost old_cur = cur@;
        assert(s@.skip(i as int).drop_first() =~= s@.skip(i as int + 1));
        let c = s[i];
        if is_whitespace(c) {
            if cur.len() > 0 {
                out.push(cur);
                assert(out@.map_values(|w: Vec<char>| w@) =~= before.push(old_cur));
                assert(before.push(old_cur) =~= before + seq![old_cur]);
            } else {
                assert(out@.map_values(|w: Vec<char>| w@) =~= before);
            }
            cur = Vec::new();
            proof {
                let after = out@.map_values(|w: Vec<char>| w@);
                assert(cur@ =~= Seq::<char>::empty());
                assert(after + words_from(s@.skip(i as int + 1), cur@) =~= before
                    + words_from(s@.skip(i as int), old_cur));
            }
        } else {
            cur.push(c);
        }
        i = i + 1;
    }
    if cur.len() > 0 {
        let ghost before = out@.map_values(|w: Vec<char>| w@);
        out.push(cur);
        assert(out@.map_values(|w: Vec<char>| w@) =~= before.push(cur@));
    }
    assert(out@.map_values(|w: Vec<char>| w@) =~= words(s@));
    out
}


/// Splits `s` at every occurrence of `sep`, keeping empty pieces.
pub fn split_on(s: &[char], sep: char) -> (r: Vec<Vec<char>>)
    ensures
        r@.map_values(|w: Vec<char>| w@) == pieces(s@, sep),
        r@.len() >= 1,
{
    let mut out: Vec<Vec<char>> = Vec::new();
    let mut cur: Vec<char> = Vec::new();
    let mut i: usize = 0;
    assert(s@.skip(0) =~= s@);
    assert(out@.map_values(|w: Vec<char>| w@) =~= Seq::<Seq<char>>::empty());
    while i < s.len()
        invariant
            i <= s.len(),
            out@.map_values(|w: Vec<char>| w@) + pieces_from(s@.skip(i as int), sep, cur@) == pieces(s@, sep),
        decreases s.len() - i,
    {
        let ghost before = out@.map_values(|w: Vec<char>| w@);
        let ghost old_cur = cur@;
        assert(s@.skip(i as int).drop_first() =~= s@.skip(i as int + 1));
        let c = s[i];
        if c == sep {
            out.push(cur);
            assert(out@.map_values(|w: Vec<char>| w@) =~= before + seq![old_cur]);
            cur = Vec::new();
            proof {
                let after = out@.map_values(|w: Vec<char>| w@);
                assert(cur@ =~= Seq::<char>::empty());
                assert(after + pieces_from(s@.skip(i as int + 1), sep, cur@) =~= before
                    + pieces_from(s@.skip(i as int), sep, old_cur));
            }
        } else {
            cur.push(c);
        }
        i = i + 1;
    }
    let ghost before = out@.map_values(|w: Vec<char>| w@);
    out.push(cur);
    assert(out@.map_values(|w: Vec<char>| w@) =~= before.push(cur@));
    assert(out@.map_values(|w: Vec<char>| w@) =~= pieces(s@, sep));
    out
}

/// Whether `needle` occurs in `hay` at position `at`.
pub fn chars_occur_at(hay: &[char], needle: &[char], at: usize) -> (r: bool)
    ensures
        r == occurs_at(hay@, needle@, at as int),
{
    if at > hay.len() || needle.len() > hay.len() - at {
        return false;
    }
    let mut j: usize = 0;
    while j < needle.len()
        invariant
            j <= needle.len(),
            at + needle.len() <= hay.len(),
            forall|k: int| 0 <= k < j ==> hay@[at + k] == needle@[k],
        decreases needle.len() - j,
    {
        if hay[at + j] != needle[j] {
            assert(hay@.subrange(at as int, at + needle.len())[j as int] != needle@[j as int]);
            return false;
        }
        j = j + 1;
    }
    assert(hay@.subrange(at as int, at + needle.len()) =~= needle@);
    true
}

/// Whether `needle` occurs anywhere in `hay`.
pub fn chars_contain(hay: &[char], needle: &[char]) -> (r: bool)
    ensures
        r == contains_seq(hay@, needle@),
{
    if needle.len() > hay.len() {
        return false;
    }
    if needle.len() == 0 {
        assert(hay@.subrange(0, 0) =~= needle@);
        assert(occurs_at(hay@, needle@, 0));
        return true;
    }
    let mut i: usize = 0;
    while i <= hay.len() - needle.len()
        invariant
            1 <= needle.len() <= hay.len(),
            i <= hay.len() - needle.len() + 1,
            forall|k: int| 0 <= k < i ==> !occurs_at(hay@, needle@, k),
        decreases hay.len() - needle.len() + 1 - i,
    {
        if chars_occur_at(hay, needle, i) {
            return true;
        }
        i = i + 1;
    }
    false
}

/// Whether the two character sequences are equal.
pub fn chars_equal(a: &[char], b: &[char]) -> (r: bool)
    ensures
        r == (a@ == b@),
{
    if a.len() != b.len() {
        return false;
    }
    let r = chars_occur_at(a, b, 0);
    proof {
        if r {
            assert(a@.subrange(0, b@.len() as int) =~= a@);
        } else {
            assert(!occurs_at(a@, b@, 0));
            assert(a@.subrange(0, a@.len() as int) =~= a@);
        }
    }
    r
}

/// Whether `needle` occurs in the byte string `hay` at position `at`.
pub fn bytes_occur_at(hay: &[u8], needle: &[u8], at: usize) -> (r: bool)
    ensures
        r == occurs_at(hay@, needle@, at as int),
{
    if at > hay.len() || needle.len() > hay.len() - at {
        return false;
    }
    let mut j: usize = 0;
    while j < needle.len()
        invariant
            j <= needle.len(),
            at + needle.len() <= hay.len(),
            forall|k: int| 0 <= k < j ==> hay@[at + k] == needle@[k],
        decreases needle.len() - j,
    {
        if hay[at + j] != needle[j] {
            assert(hay@.subrange(at as int, at + needle.len())[j as int] != needle@[j as int]);
            return false;
        }
        j = j + 1;
    }
    assert(hay@.subrange(at as int, at + needle.len()) =~= needle@);
    true
}

/// The decimal digit character for `d < 10`.
pub open spec fn digit_char(d: nat) -> char {
    if d == 0 { '0' } else if d == 1 { '1' } else if d == 2 { '2' } else if d == 3 { '3' }
    else if d == 4 { '4' } else if d == 5 { '5' } else if d == 6 { '6' } else if d == 7 { '7' }
    else if d == 8 { '8' } else { '9' }
}

/// The value of a decimal digit character, if it is one.
pub open spec fn digit_value(c: char) -> Option<nat> {
    if '0' <= c && c <= '9' { Some((c as nat - '0' as nat) as nat) } else { None }
}

/// Decimal representation of `n` without leading zeros (`"0"` for zero).
pub open spec fn decimal(n: nat) -> Seq<char>
    decreases n,
{
    if n < 10 { seq![digit_char(n)] } else { decimal(n / 10).push(digit_char(n % 10)) }
}

fn digit(d: u64) -> (c: char)
    requires
        d < 10,
    ensures
        c == digit_char(d as nat),
{
    match d {
        0 => '0',
        1 => '1',
        2 => '2',
        3 => '3',
        4 => '4',
        5 => '5',
        6 => '6',
        7 => '7',
        8 => '8',
        _ => '9',
    }
}

/// Appends the decimal representation of `n`.
pub fn push_decimal(out: &mut Vec<char>, n: u64)
    ensures
        final(out)@ == old(out)@ + decimal(n as nat),
    decreases n,
{
    if n >= 10 {
        push_decimal(out, n / 10);
    }
    let ghost mid = out@;
    out.push(digit(n % 10));
    assert(out@ =~= old(out)@ + decimal(n as nat));
}

/// The decimal representation of `n`.
pub fn decimal_of(n: u64) -> (r: Vec<char>)
    ensures
        r@ == decimal(n as nat),
{
    let mut out: Vec<char> = Vec::new();
    push_decimal(&mut out, n);
    assert(out@ =~= decimal(n as nat));
    out
}

/// The value of byte `b` as a digit in base `radix` (8, 10 or 16), if it is one.
pub open spec fn digit_in(b: u8, radix: nat) -> Option<nat> {
    if 48 <= b <= 57 && (b - 48) < radix {
        Some((b - 48) as nat)
    } else if radix == 16 && 97 <= b <= 102 {
        Some((b - 87) as nat)
    } else if radix == 16 && 65 <= b <= 70 {
        Some((b - 55) as nat)
    } else {
        None
    }
}

/// Every byte of `s` is a digit in base `radix`.
pub open spec fn all_digits(s: Seq<u8>, radix: nat) -> bool {
    forall|i: int| 0 <= i < s.len() ==> (#[trigger] digit_in(s[i], radix)) is Some
}

/// The value of the digit string `s` in base `radix`.
pub open spec fn digits_value(s: Seq<u8>, radix: nat) -> nat
    decreases s.len(),
{
    if s.len() == 0 {
        0
    } else {
        digits_value(s.drop_last(), radix) * radix + match digit_in(s.last(), radix) {
            Some(d) => d,
            None => 0,
        }
    }
}

/// An unsigned number in base `radix` as `from_str_radix` reads it: an optional `+`, then at
/// least one digit, with a value of at most `max`.
pub open spec fn parse_unsigned(s: Seq<u8>, radix: nat, max: nat) -> Option<nat> {
    let d = if s.len() > 0 && s[0] == 43u8 { s.drop_first() } else { s };
    if d.len() > 0 && all_digits(d, radix) && digits_value(d, radix) <= max {
        Some(digits_value(d, radix))
    } else {
        None
    }
}

/// The bytes of an ASCII character string; other strings hold no number.
pub open spec fn ascii_bytes(s: Seq<char>) -> Option<Seq<u8>> {
    if forall|i: int| 0 <= i < s.len() ==> ((#[trigger] s[i]) as u32) < 128 {
        Some(s.map_values(|c: char| c as u8))
    } else {
        None
    }
}

/// An unsigned number read from text, as `str::parse` or `from_str_radix` reads it.
pub open spec fn parse_text(s: Seq<char>, radix: nat, max: nat) -> Option<nat> {
    match ascii_bytes(s) {
        Some(b) => parse_unsigned(b, radix, max),
        None => None,
    }
}

/// Reads an unsigned number of at most `max` in base `radix` (8, 10 or 16).
pub fn parse_number(s: &[u8], radix: u64, max: u64) -> (r: Option<u64>)
    requires
        radix == 8 || radix == 10 || radix == 16,
    ensures
        match r {
            Some(v) => parse_unsigned(s@, radix as nat, max as nat) == Some(v as nat),
            None => parse_unsigned(s@, radix as nat, max as nat) is None,
        },
{
    let mut i: usize = 0;
    if s.len() > 0 && s[0] == 43u8 {
        i = 1;
    }
    let ghost d = if s@.len() > 0 && s@[0] == 43u8 { s@.drop_first() } else { s@ };
    assert(d =~= s@.skip(i as int));
    if i >= s.len() {
        return None;
    }
    let cap: u128 = max as u128 + 1;
    let mut value: u128 = 0;
    let start = i;
    while i < s.len()
        invariant
            start <= i <= s@.len(),
            d =~= s@.skip(start as int),
            d == (if s@.len() > 0 && s@[0] == 43u8 { s@.drop_first() } else { s@ }),
            max <= u64::MAX,
            radix == 8 || radix == 10 || radix == 16,
            cap == max + 1,
            all_digits(s@.subrange(start as int, i as int), radix as nat),
            value == (if digits_value(s@.subrange(start as int, i as int), radix as nat) < cap {
                digits_value(s@.subrange(start as int, i as int), radix as nat)
            } else {
                cap as nat
            }),
        decreases s@.len() - i,
    {
        let b = s[i];
        let digit: u64 = if 48 <= b && b <= 57 && ((b - 48) as u64) < radix {
            (b - 48) as u64
        } else if radix == 16 && 97 <= b && b <= 102 {
            (b - 87) as u64
        } else if radix == 16 && 65 <= b && b <= 70 {
            (b - 55) as u64
        } else {
            proof {
                assert(digit_in(d[i - start], radix as nat) is None);
                assert(!all_digits(d, radix as nat));
            }
            return None;
        };
        let ghost prefix = s@.subrange(start as int, i as int);
        let ghost next = s@.subrange(start as int, i + 1);
        assert(next.drop_last() =~= prefix);
        assert(digit_in(next.last(), radix as nat) == Some(digit as nat));
        assert(digits_value(next, radix as nat) == digits_value(prefix, radix as nat) * (radix as nat) + digit);
        assert(all_digits(next, radix as nat)) by {
            assert forall|k: int| 0 <= k < next.len() implies (#[trigger] digit_in(next[k], radix as nat)) is Some by {
                if k < prefix.len() {
                    assert(next[k] == prefix[k]);
                }
            }
        }
        if value < cap {
            let r128 = radix as u128;
            assert(value * r128 <= cap * 16) by (nonlinear_arith)
                requires
                    value < cap,
                    r128 <= 16,
            ;
            value = value * r128 + digit as u128;
            if value > cap {
                value = cap;
            }
        } else {
            proof {
                assert(digits_value(prefix, radix as nat) >= cap);
                assert(digits_value(prefix, radix as nat) * (radix as nat) >= digits_value(prefix, radix as nat)) by (nonlinear_arith)
                    requires radix >= 8;
            }
        }
        i = i + 1;
    }
    assert(s@.subrange(start as int, s@.len() as int) =~= d);
    if value <= max as u128 {
        Some(value as u64)
    } else {
        None
    }
}

/// Reads an unsigned number from text.
pub fn parse_text_number(s: &[char], radix: u64, max: u64) -> (r: Option<u64>)
    requires
        radix == 8 || radix == 10 || radix == 16,
    ensures
        match r {
            Some(v) => parse_text(s@, radix as nat, max as nat) == Some(v as nat),
            None => parse_text(s@, radix as nat, max as nat) is None,
        },
{
    let mut bytes: Vec<u8> = Vec::new();
    let mut i: usize = 0;
    while i < s.len()
        invariant
            i <= s@.len(),
            forall|k: int| 0 <= k < i ==> ((#[trigger] s@[k]) as u32) < 128,
            bytes@ == s@.take(i as int).map_values(|c: char| c as u8),
        decreases s@.len() - i,
    {
        let c = s[i];
        if (c as u32) >= 128 {
            return None;
        }
        bytes.push(c as u8);
        assert(s@.take(i as int + 1).map_values(|c: char| c as u8) =~= s@.take(i as int).map_values(|c: char| c as u8).push(c as u8));
        i = i + 1;
    }
    assert(s@.take(s@.len() as int) =~= s@);
    parse_number(&bytes, radix, max)
}

/// Splits bytes at every occurrence of `sep`, keeping empty pieces.
pub fn split_bytes(s: &[u8], sep: u8) -> (r: Vec<Vec<u8>>)
    ensures
        r@.map_values(|w: Vec<u8>| w@) == pieces(s@, sep),
        r@.len() >= 1,
{
    let mut out: Vec<Vec<u8>> = Vec::new();
    let mut cur: Vec<u8> = Vec::new();
    let mut i: usize = 0;
    assert(s@.skip(0) =~= s@);
    assert(out@.map_values(|w: Vec<u8>| w@) =~= Seq::<Seq<u8>>::empty());
    while i < s.len()
        invariant
            i <= s.len(),
            out@.map_values(|w: Vec<u8>| w@) + pieces_from(s@.skip(i as int), sep, cur@) == pieces(s@, sep),
        decreases s.len() - i,
    {
        let ghost before = out@.map_values(|w: Vec<u8>| w@);
        let ghost old_cur = cur@;
        assert(s@.skip(i as int).drop_first() =~= s@.skip(i as int + 1));
        let c = s[i];
        if c == sep {
            out.push(cur);
            assert(out@.map_values(|w: Vec<u8>| w@) =~= before + seq![old_cur]);
            cur = Vec::new();
            proof {
                let after = out@.map_values(|w: Vec<u8>| w@);
                assert(cur@ =~= Seq::<u8>::empty());
                assert(after + pieces_from(s@.skip(i as int + 1), sep, cur@) =~= before
                    + pieces_from(s@.skip(i as int), sep, old_cur));
            }
        } else {
            cur.push(c);
        }
        i = i + 1;
    }
    let ghost before = out@.map_values(|w: Vec<u8>| w@);
    out.push(cur);
    assert(out@.map_values(|w: Vec<u8>| w@) =~= before.push(cur@));
    assert(out@.map_values(|w: Vec<u8>| w@) =~= pieces(s@, sep));
    out
}

} // verus!
