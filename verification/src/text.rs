//! Character-level helpers: whitespace and digit classes, decimal numbers,
//! substring search and column cropping.
use vstd::prelude::*;

verus! {

// ---------------------------------------------------------------------------
// Character classes
// ---------------------------------------------------------------------------

/// The characters with the Unicode `White_Space` property, which is what
/// `char::is_whitespace` tests.
pub open spec fn spec_is_whitespace(c: char) -> bool {
    let u = c as u32;
    ||| 0x09 <= u <= 0x0D
    ||| u == 0x20
    ||| u == 0x85
    ||| u == 0xA0
    ||| u == 0x1680
    ||| 0x2000 <= u <= 0x200A
    ||| u == 0x2028
    ||| u == 0x2029
    ||| u == 0x202F
    ||| u == 0x205F
    ||| u == 0x3000
}

/// Whether `c` is a Unicode white-space character.
pub fn is_whitespace(c: char) -> (r: bool)
    ensures
        r == spec_is_whitespace(c),
{
    let u = c as u32;
    (0x09 <= u && u <= 0x0D) || u == 0x20 || u == 0x85 || u == 0xA0 || u == 0x1680 || (0x2000
        <= u && u <= 0x200A) || u == 0x2028 || u == 0x2029 || u == 0x202F || u == 0x205F || u
        == 0x3000
}

/// ASCII decimal digit.
pub open spec fn is_digit(c: char) -> bool {
    '0' <= c <= '9'
}

/// What `char::is_numeric` answers for `c` (membership in the Unicode
/// general categories Nd, Nl and No).
pub uninterp spec fn char_is_numeric(c: char) -> bool;

/// Calls `char::is_numeric`. Its documentation places a character in the
/// numeric class when its general category is Nd, Nl or No; among ASCII
/// characters those are exactly the ten decimal digits, which is stated.
/// For other characters the answer is only named.
#[verifier::external_body]
pub fn is_numeric(c: char) -> (r: bool)
    ensures
        r == char_is_numeric(c),
        (c as u32) < 128 ==> (r <==> is_digit(c)),
{
    c.is_numeric()
}

// ---------------------------------------------------------------------------
// Strings as sequences of characters
// ---------------------------------------------------------------------------

/// The characters of `s`, in order.
pub fn chars_of(s: &str) -> (r: Vec<char>)
    ensures
        r@ == s@,
{
    let mut r: Vec<char> = Vec::new();
    for c in it: s.chars()
        invariant
            r@ == it.seq().take(it.index() as int),
    {
        r.push(c);
    }
    r
}

/// Appends one character (`String::push`).
#[verifier::external_body]
pub fn push_char(s: &mut String, c: char)
    ensures
        final(s)@ == old(s)@.push(c),
{
    s.push(c);
}

/// The string made of `v[lo..hi]`.
pub fn string_from_range(v: &Vec<char>, lo: usize, hi: usize) -> (r: String)
    requires
        lo <= hi <= v.len(),
    ensures
        r@ == v@.subrange(lo as int, hi as int),
{
    let mut r = String::new();
    let mut i = lo;
    while i < hi
        invariant
            lo <= i <= hi <= v.len(),
            r@ == v@.subrange(lo as int, i as int),
        decreases hi - i,
    {
        push_char(&mut r, v[i]);
        i = i + 1;
        assert(r@ =~= v@.subrange(lo as int, i as int));
    }
    r
}

/// Appends all of `t` to `s`.
pub fn push_all(s: &mut String, t: &Vec<char>)
    ensures
        final(s)@ == old(s)@ + t@,
{
    let mut i: usize = 0;
    while i < t.len()
        invariant
            i <= t.len(),
            s@ == old(s)@ + t@.take(i as int),
        decreases t.len() - i,
    {
        push_char(s, t[i]);
        i = i + 1;
        assert(s@ =~= old(s)@ + t@.take(i as int));
    }
    assert(t@.take(i as int) =~= t@);
}

/// Appends the characters of `t` to `s`.
pub fn push_str(s: &mut String, t: &str)
    ensures
        final(s)@ == old(s)@ + t@,
{
    let v = chars_of(t);
    push_all(s, &v);
}

/// A copy of `s`.
pub fn string_of(s: &str) -> (r: String)
    ensures
        r@ == s@,
{
    let mut r = String::new();
    push_str(&mut r, s);
    assert(r@ =~= s@);
    r
}

// ---------------------------------------------------------------------------
// Decimal numbers
// ---------------------------------------------------------------------------

/// Whether every character of `s` is an ASCII digit.
pub open spec fn all_digits(s: Seq<char>) -> bool {
    forall|i: int| 0 <= i < s.len() ==> is_digit(#[trigger] s[i])
}

/// The number that the decimal digits `s` denote.
pub open spec fn digits_value(s: Seq<char>) -> nat
    decreases s.len(),
{
    if s.len() == 0 {
        0
    } else {
        digits_value(s.drop_last()) * 10 + ((s.last() as u32) - ('0' as u32)) as nat
    }
}

/// What `u64::from_str` gives: an optional `+`, then at least one ASCII
/// digit and nothing else, of a value that fits in 64 bits.
pub open spec fn spec_parse_u64(s: Seq<char>) -> Option<u64> {
    let ds = if s.len() > 0 && s[0] == '+' {
        s.drop_first()
    } else {
        s
    };
    if ds.len() > 0 && all_digits(ds) && digits_value(ds) <= u64::MAX {
        Some(digits_value(ds) as u64)
    } else {
        None
    }
}

proof fn lemma_digits_value_push(s: Seq<char>, c: char)
    ensures
        digits_value(s.push(c)) == digits_value(s) * 10 + ((c as u32) - ('0' as u32)) as nat,
{
    assert(s.push(c).drop_last() =~= s);
}

proof fn lemma_digits_value_grows(s: Seq<char>, i: int)
    requires
        0 <= i <= s.len(),
        all_digits(s),
    ensures
        digits_value(s.take(i)) <= digits_value(s),
    decreases s.len() - i,
{
    if i < s.len() {
        lemma_digits_value_grows(s, i + 1);
        assert(s.take(i + 1) =~= s.take(i).push(s[i]));
        lemma_digits_value_push(s.take(i), s[i]);
    } else {
        assert(s.take(i) =~= s);
    }
}

/// Parses a decimal `u64` as `str::parse::<u64>` does.
pub fn parse_u64(s: &str) -> (r: Option<u64>)
    ensures
        r == spec_parse_u64(s@),
{
    let v = chars_of(s);
    let start: usize = if v.len() > 0 && v[0] == '+' {
        1
    } else {
        0
    };
    let ghost ds = v@.subrange(start as int, v@.len() as int);
    assert(ds =~= (if s@.len() > 0 && s@[0] == '+' {
        s@.drop_first()
    } else {
        s@
    }));
    assert(spec_parse_u64(s@) == (if ds.len() > 0 && all_digits(ds) && digits_value(ds)
        <= u64::MAX {
        Some(digits_value(ds) as u64)
    } else {
        None
    }));
    if start >= v.len() {
        return None;
    }
    let mut acc: u64 = 0;
    let mut i = start;
    while i < v.len()
        invariant
            start <= i <= v.len(),
            v@ == s@,
            ds == v@.subrange(start as int, v@.len() as int),
            spec_parse_u64(s@) == (if ds.len() > 0 && all_digits(ds) && digits_value(ds)
                <= u64::MAX {
                Some(digits_value(ds) as u64)
            } else {
                None
            }),
            all_digits(ds.take(i - start)),
            acc == digits_value(ds.take(i - start)),
        decreases v.len() - i,
    {
        let c = v[i];
        if !('0' <= c && c <= '9') {
            assert(!all_digits(ds)) by {
                assert(ds[i - start] == c);
            }
            return None;
        }
        let d = (c as u32 - '0' as u32) as u64;
        assert(ds.take(i + 1 - start) =~= ds.take(i - start).push(c));
        proof {
            lemma_digits_value_push(ds.take(i - start), c);
        }
        if acc > 1844674407370955161 || (acc == 1844674407370955161 && d > 5) {
            assert(digits_value(ds.take(i + 1 - start)) > u64::MAX) by (nonlinear_arith)
                requires
                    digits_value(ds.take(i + 1 - start)) == acc * 10 + d,
                    acc > 1844674407370955161 || (acc == 1844674407370955161 && d > 5),
            ;
            proof {
                if all_digits(ds) {
                    lemma_digits_value_grows(ds, i + 1 - start);
                }
            }
            return None;
        }
        assert(acc * 10 + d <= u64::MAX) by (nonlinear_arith)
            requires
                d < 10,
                acc <= 1844674407370955161,
                acc == 1844674407370955161 ==> d <= 5,
        ;
        acc = acc * 10 + d;
        i = i + 1;
    }
    assert(ds.take(i - start) =~= ds);
    Some(acc)
}

/// The decimal digit character for `d < 10`.
pub open spec fn digit_char(d: nat) -> char {
    (('0' as u32) + d) as char
}

/// The decimal notation of `n`, without leading zeros.
pub open spec fn decimal(n: nat) -> Seq<char>
    decreases n,
{
    if n < 10 {
        seq![digit_char(n)]
    } else {
        decimal(n / 10).push(digit_char(n % 10))
    }
}

/// The decimal notation of a signed number, with `-` before negative ones.
pub open spec fn signed_decimal(n: int) -> Seq<char> {
    if n < 0 {
        seq!['-'] + decimal((-n) as nat)
    } else {
        decimal(n as nat)
    }
}

fn digit_to_char(d: u64) -> (c: char)
    requires
        d < 10,
    ensures
        c == digit_char(d as nat),
{
    let u: u8 = 48 + d as u8;
    u as char
}

/// The decimal digits of `n`, most significant first.
fn decimal_chars(n: u64) -> (r: Vec<char>)
    ensures
        r@ == decimal(n as nat),
    decreases n,
{
    if n < 10 {
        let mut r: Vec<char> = Vec::new();
        r.push(digit_to_char(n));
        assert(r@ =~= decimal(n as nat));
        r
    } else {
        let mut r = decimal_chars(n / 10);
        r.push(digit_to_char(n % 10));
        r
    }
}

/// `n.to_string()` for an unsigned number.
pub fn u64_to_string(n: u64) -> (r: String)
    ensures
        r@ == decimal(n as nat),
{
    let v = decimal_chars(n);
    let mut r = String::new();
    push_all(&mut r, &v);
    assert(r@ =~= decimal(n as nat));
    r
}

/// `n.to_string()` for a signed number.
pub fn i64_to_string(n: i64) -> (r: String)
    ensures
        r@ == signed_decimal(n as int),
{
    let mut r = String::new();
    if n < 0 {
        push_char(&mut r, '-');
        let m: u64 = (0i128 - n as i128) as u64;
        let v = decimal_chars(m);
        push_all(&mut r, &v);
        assert(r@ =~= signed_decimal(n as int));
    } else {
        let v = decimal_chars(n as u64);
        push_all(&mut r, &v);
        assert(r@ =~= signed_decimal(n as int));
    }
    r
}

/// `b.to_string()`: `"true"` or `"false"`.
pub open spec fn bool_text(b: bool) -> Seq<char> {
    if b {
        seq!['t', 'r', 'u', 'e']
    } else {
        seq!['f', 'a', 'l', 's', 'e']
    }
}

/// `b.to_string()`.
pub fn bool_to_string(b: bool) -> (r: String)
    ensures
        r@ == bool_text(b),
{
    let mut r = String::new();
    if b {
        push_char(&mut r, 't');
        push_char(&mut r, 'r');
        push_char(&mut r, 'u');
        push_char(&mut r, 'e');
    } else {
        push_char(&mut r, 'f');
        push_char(&mut r, 'a');
        push_char(&mut r, 'l');
        push_char(&mut r, 's');
        push_char(&mut r, 'e');
    }
    assert(r@ =~= bool_text(b));
    r
}

// ---------------------------------------------------------------------------
// Substring search
// ---------------------------------------------------------------------------

/// `needle` occurs in `hay` at position `i`.
pub open spec fn matches_at(hay: Seq<char>, needle: Seq<char>, i: int) -> bool {
    0 <= i && i + needle.len() <= hay.len() && hay.subrange(i, i + needle.len()) == needle
}

/// The first position at or after `from` where `needle` occurs in `hay`.
pub open spec fn find_from(hay: Seq<char>, needle: Seq<char>, from: int) -> Option<int>
    decreases hay.len() + 1 - from,
{
    if from < 0 || from + needle.len() > hay.len() {
        None
    } else if matches_at(hay, needle, from) {
        Some(from)
    } else {
        find_from(hay, needle, from + 1)
    }
}

/// The first position where `needle` occurs in `hay` (`str::find`).
pub open spec fn find_first(hay: Seq<char>, needle: Seq<char>) -> Option<int> {
    find_from(hay, needle, 0)
}

/// `needle` occurs somewhere in `hay` (`str::contains`).
pub open spec fn contains_sub(hay: Seq<char>, needle: Seq<char>) -> bool {
    find_first(hay, needle) is Some
}

/// A found position is a match and no earlier position at or after `from` is.
pub proof fn lemma_find_from(hay: Seq<char>, needle: Seq<char>, from: int)
    requires
        0 <= from,
    ensures
        find_from(hay, needle, from) matches Some(i) ==> from <= i && matches_at(hay, needle, i)
            && forall|j: int| from <= j < i ==> !matches_at(hay, needle, j),
        find_from(hay, needle, from) is None ==> forall|j: int|
            from <= j ==> !matches_at(hay, needle, j),
    decreases hay.len() + 1 - from,
{
    if from + needle.len() <= hay.len() && !matches_at(hay, needle, from) {
        lemma_find_from(hay, needle, from + 1);
    }
}

fn matches_at_exec(hay: &Vec<char>, needle: &Vec<char>, i: usize) -> (r: bool)
    requires
        i + needle.len() <= hay.len(),
    ensures
        r == matches_at(hay@, needle@, i as int),
{
    let mut k: usize = 0;
    while k < needle.len()
        invariant
            k <= needle.len(),
            i + needle.len() <= hay.len(),
            forall|j: int| 0 <= j < k ==> hay@[i + j] == needle@[j],
        decreases needle.len() - k,
    {
        if hay[i + k] != needle[k] {
            assert(hay@.subrange(i as int, i + needle.len())[k as int] != needle@[k as int]);
            return false;
        }
        k = k + 1;
    }
    assert(hay@.subrange(i as int, i + needle.len()) =~= needle@);
    true
}

/// The first position at or after `from` where `needle` occurs in `hay`.
pub fn find_sub(hay: &Vec<char>, needle: &Vec<char>, from: usize) -> (r: Option<usize>)
    ensures
        r matches Some(i) ==> find_from(hay@, needle@, from as int) == Some(i as int),
        r is None ==> find_from(hay@, needle@, from as int) is None,
{
    if needle.len() > hay.len() {
        return None;
    }
    let last = hay.len() - needle.len();
    let mut i = from;
    while i <= last
        invariant
            last + needle.len() == hay.len(),
            from <= i,
            find_from(hay@, needle@, from as int) == find_from(hay@, needle@, i as int),
        decreases last + 1 - i,
    {
        if matches_at_exec(hay, needle, i) {
            return Some(i);
        }
        if i == last {
            return None;
        }
        i = i + 1;
    }
    None
}

/// Whether two strings are equal.
pub fn str_eq(a: &str, b: &str) -> (r: bool)
    ensures
        r == (a@ == b@),
{
    let x = chars_of(a);
    let y = chars_of(b);
    if x.len() != y.len() {
        return false;
    }
    let mut i: usize = 0;
    while i < x.len()
        invariant
            i <= x.len() == y.len(),
            x@ == a@,
            y@ == b@,
            forall|j: int| 0 <= j < i ==> x@[j] == y@[j],
        decreases x.len() - i,
    {
        if x[i] != y[i] {
            assert(x@[i as int] != y@[i as int]);
            return false;
        }
        i = i + 1;
    }
    assert(x@ =~= y@);
    true
}

/// Whether `needle` occurs in `hay` (`str::contains`).
pub fn contains_str(hay: &str, needle: &str) -> (r: bool)
    ensures
        r == contains_sub(hay@, needle@),
{
    let h = chars_of(hay);
    let n = chars_of(needle);
    find_sub(&h, &n, 0).is_some()
}

// ---------------------------------------------------------------------------
// The functions of the viewer
// ---------------------------------------------------------------------------

/// The four ASCII white-space bytes that a JSON document may start with.
pub open spec fn is_json_space(c: char) -> bool {
    c == ' ' || c == '\t' || c == '\n' || c == '\r'
}

/// The first character of `s` that is not JSON white space is `{`.
pub open spec fn spec_likely_json_object(s: Seq<char>) -> bool
    decreases s.len(),
{
    if s.len() == 0 {
        false
    } else if is_json_space(s[0]) {
        spec_likely_json_object(s.drop_first())
    } else {
        s[0] == '{'
    }
}

/// Cheap test for a JSON object: after leading spaces, tabs and line
/// breaks, the line opens with `{`.
pub fn likely_json_object(s: &str) -> (r: bool)
    ensures
        r == spec_likely_json_object(s@),
{
    let v = chars_of(s);
    let mut i: usize = 0;
    assert(v@.skip(0) =~= v@);
    while i < v.len()
        invariant
            i <= v.len(),
            v@ == s@,
            spec_likely_json_object(s@) == spec_likely_json_object(v@.skip(i as int)),
        decreases v.len() - i,
    {
        let c = v[i];
        assert(v@.skip(i as int)[0] == c);
        if c == ' ' || c == '\t' || c == '\n' || c == '\r' {
            assert(v@.skip(i as int).drop_first() =~= v@.skip(i + 1));
            i = i + 1;
        } else {
            return c == '{';
        }
    }
    assert(v@.skip(i as int).len() == 0);
    false
}

/// The smaller of two integers.
pub open spec fn min_int(a: int, b: int) -> int {
    if a <= b {
        a
    } else {
        b
    }
}

/// The columns `start_cols .. start_cols + max_cols` of `s`, one column per
/// character, cut at the end of `s`.
pub open spec fn spec_crop(s: Seq<char>, start_cols: int, max_cols: int) -> Seq<char> {
    s.subrange(min_int(start_cols, s.len() as int), min_int(s.len() as int, start_cols + max_cols))
}

/// Crops `s` to at most `max_cols` characters, starting at character
/// `start_cols`.
pub fn crop_str(s: &str, start_cols: usize, max_cols: usize) -> (r: String)
    ensures
        r@ == spec_crop(s@, start_cols as int, max_cols as int),
{
    let v = chars_of(s);
    let lo: usize = if start_cols < v.len() {
        start_cols
    } else {
        v.len()
    };
    let hi: usize = if max_cols <= v.len() - lo {
        lo + max_cols
    } else {
        v.len()
    };
    string_from_range(&v, lo, hi)
}

} // verus!
