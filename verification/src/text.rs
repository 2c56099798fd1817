//! Text helpers: string comparison, UTF-8 conversion, decimal integers.
use vstd::prelude::*;
use vstd::string::*;
use vstd::utf8::*;

verus! {

broadcast use vstd::utf8::encode_utf8_decode_utf8;

/// What `String::from_utf8_lossy` makes of a byte sequence.
pub uninterp spec fn lossy_utf8(bytes: Seq<u8>) -> Seq<char>;

/// The text that a byte sequence reads as: its UTF-8 decoding when it is valid UTF-8,
/// else what lossy decoding makes of it.
pub open spec fn utf8_text(bytes: Seq<u8>) -> Seq<char> {
    if valid_utf8(bytes) {
        decode_utf8(bytes)
    } else {
        lossy_utf8(bytes)
    }
}

/// Byte-wise equality of two slices.
pub fn bytes_eq(a: &[u8], b: &[u8]) -> (r: bool)
    ensures
        r == (a@ == b@),
{
    if a.len() != b.len() {
        return false;
    }
    let mut i: usize = 0;
    while i < a.len()
        invariant
            a@.len() == b@.len(),
            i <= a@.len(),
            a@.subrange(0, i as int) == b@.subrange(0, i as int),
        decreases a@.len() - i,
    {
        if a[i] != b[i] {
            return false;
        }
        assert(a@.subrange(0, i + 1) =~= a@.subrange(0, i as int).push(a@[i as int]));
        assert(b@.subrange(0, i + 1) =~= b@.subrange(0, i as int).push(b@[i as int]));
        i = i + 1;
    }
    assert(a@ =~= a@.subrange(0, i as int));
    assert(b@ =~= b@.subrange(0, i as int));
    true
}

/// Equality of two strings, character by character.
pub fn str_eq(a: &str, b: &str) -> (r: bool)
    ensures
        r == (a@ == b@),
{
    let r = bytes_eq(a.as_bytes(), b.as_bytes());
    proof {
        if a.spec_bytes() == b.spec_bytes() {
            assert(decode_utf8(encode_utf8(a@)) == a@);
            assert(decode_utf8(encode_utf8(b@)) == b@);
        }
    }
    r
}

/// Converts bytes to a `String` as `String::from_utf8_lossy` does: valid UTF-8 is decoded,
/// anything else has its invalid sequences replaced.
#[verifier::external_body]
pub(crate) fn lossy_string(bytes: &[u8]) -> (s: String)
    ensures
        s@ == lossy_utf8(bytes@),
        valid_utf8(bytes@) ==> s@ == decode_utf8(bytes@),
        s@ == utf8_text(bytes@),
{
    String::from_utf8_lossy(bytes).into_owned()
}

/// Appends one character (`String::push`).
#[verifier::external_body]
pub(crate) fn push_char(s: &mut String, c: char)
    ensures
        final(s)@ == old(s)@.push(c),
{
    s.push(c);
}

/// Appends a string slice.
pub fn push_str(s: &mut String, t: &str)
    ensures
        final(s)@ == old(s)@ + t@,
{
    s.append(t);
}

/// A copy of a string slice as a `String`.
pub fn to_owned_string(t: &str) -> (s: String)
    ensures
        s@ == t@,
{
    t.to_owned()
}

/// The ASCII character for a decimal digit.
pub open spec fn digit_char(d: nat) -> char {
    ((d % 10) + 48) as char
}

/// The decimal digits of `n`, most significant first, with no leading zero.
pub open spec fn nat_decimal(n: nat) -> Seq<char>
    decreases n,
{
    if n < 10 {
        seq![digit_char(n)]
    } else {
        nat_decimal(n / 10).push(digit_char(n % 10))
    }
}

/// The decimal text of an integer, with a leading `-` when it is negative.
pub open spec fn int_decimal(v: int) -> Seq<char> {
    if v < 0 {
        seq!['-'] + nat_decimal((-v) as nat)
    } else {
        nat_decimal(v as nat)
    }
}

fn digit_of(d: u64) -> (c: char)
    requires
        d < 10,
    ensures
        c == digit_char(d as nat),
{
    let b: u8 = (d as u8) + 48;
    b as char
}

fn push_decimal(s: &mut String, n: u64)
    ensures
        final(s)@ == old(s)@ + nat_decimal(n as nat),
    decreases n,
{
    if n >= 10 {
        push_decimal(s, n / 10);
    }
    let c = digit_of(n % 10);
    push_char(s, c);
    proof {
        if n < 10 {
            assert(n % 10 == n);
        }
    }
    assert(s@ =~= old(s)@ + nat_decimal(n as nat));
}

/// Appends the decimal text of an unsigned integer.
pub fn push_u64(s: &mut String, n: u64)
    ensures
        final(s)@ == old(s)@ + nat_decimal(n as nat),
{
    push_decimal(s, n);
}

/// Appends the decimal text of a signed integer.
pub fn push_i64(s: &mut String, v: i64)
    ensures
        final(s)@ == old(s)@ + int_decimal(v as int),
{
    if v < 0 {
        push_char(s, '-');
        let m: u64 = if v == i64::MIN {
            9223372036854775808u64
        } else {
            (-v) as u64
        };
        push_decimal(s, m);
        assert(s@ =~= old(s)@ + (seq!['-'] + nat_decimal((-(v as int)) as nat)));
    } else {
        push_decimal(s, v as u64);
    }
}

/// The decimal text of an unsigned integer.
pub fn usize_to_string(n: usize) -> (s: String)
    ensures
        s@ == nat_decimal(n as nat),
{
    let mut s = String::new();
    push_u64(&mut s, n as u64);
    assert(s@ =~= nat_decimal(n as nat));
    s
}

/// The decimal text of a signed integer.
pub fn i64_to_string(v: i64) -> (s: String)
    ensures
        s@ == int_decimal(v as int),
{
    let mut s = String::new();
    push_i64(&mut s, v);
    assert(s@ =~= int_decimal(v as int));
    s
}

/// True for the ASCII digits `0`..`9`.
pub open spec fn is_digit_byte(b: u8) -> bool {
    48 <= b <= 57
}

/// The value of a run of ASCII digits.
pub open spec fn digits_value(bytes: Seq<u8>) -> nat
    decreases bytes.len(),
{
    if bytes.len() == 0 {
        0
    } else {
        digits_value(bytes.drop_last()) * 10 + (bytes.last() - 48) as nat
    }
}

/// Every byte is an ASCII digit and there is at least one.
pub open spec fn all_digits(bytes: Seq<u8>) -> bool {
    bytes.len() > 0 && forall|i: int| 0 <= i < bytes.len() ==> is_digit_byte(#[trigger] bytes[i])
}

/// The integer that `str::parse` reads from `bytes` for a type whose values are `lo..=hi`:
/// an optional `+` (or `-` where `lo < 0`), then one or more ASCII digits, and nothing else.
pub open spec fn spec_parse_int(bytes: Seq<u8>, lo: int, hi: int) -> Option<int> {
    if bytes.len() > 0 && bytes[0] == 45u8 && lo < 0 {
        let d = bytes.skip(1);
        if all_digits(d) && lo <= -(digits_value(d) as int) {
            Some(-(digits_value(d) as int))
        } else {
            None
        }
    } else {
        let d = if bytes.len() > 0 && bytes[0] == 43u8 {
            bytes.skip(1)
        } else {
            bytes
        };
        if all_digits(d) && digits_value(d) <= hi {
            Some(digits_value(d) as int)
        } else {
            None
        }
    }
}

proof fn lemma_digits_value_step(bytes: Seq<u8>, i: int)
    requires
        0 <= i < bytes.len(),
    ensures
        digits_value(bytes.subrange(0, i + 1)) == digits_value(bytes.subrange(0, i)) * 10 + (
        bytes[i] - 48) as nat,
{
    assert(bytes.subrange(0, i + 1).drop_last() =~= bytes.subrange(0, i));
}

proof fn lemma_digits_value_mono(bytes: Seq<u8>, i: int)
    requires
        0 <= i <= bytes.len(),
        forall|k: int| 0 <= k < bytes.len() ==> is_digit_byte(#[trigger] bytes[k]),
    ensures
        digits_value(bytes.subrange(0, i)) <= digits_value(bytes),
    decreases bytes.len() - i,
{
    if i < bytes.len() {
        lemma_digits_value_mono(bytes, i + 1);
        lemma_digits_value_step(bytes, i);
    } else {
        assert(bytes.subrange(0, i) =~= bytes);
    }
}

/// Reads the magnitude of a run of digits at `bytes[from..]`, failing on anything that is
/// not a digit, on an empty run, or on a value above `max`.
fn parse_magnitude(bytes: &[u8], from: usize, max: u64) -> (r: Option<u64>)
    requires
        from <= bytes@.len(),
    ensures
        r matches Some(v) ==> all_digits(bytes@.skip(from as int)) && v as nat == digits_value(
            bytes@.skip(from as int),
        ) && v <= max,
        r is None ==> !(all_digits(bytes@.skip(from as int)) && digits_value(
            bytes@.skip(from as int),
        ) <= max),
{
    let ghost d = bytes@.skip(from as int);
    if from >= bytes.len() {
        return None;
    }
    let mut acc: u64 = 0;
    let mut i: usize = from;
    while i < bytes.len()
        invariant
            from <= i <= bytes@.len(),
            d == bytes@.skip(from as int),
            forall|k: int| 0 <= k < i - from ==> is_digit_byte(#[trigger] d[k]),
            acc as nat == digits_value(d.subrange(0, i - from)),
            acc <= max,
        decreases bytes@.len() - i,
    {
        let b = bytes[i];
        if b < 48 || b > 57 {
            assert(d[i - from] == b);
            return None;
        }
        let dv: u64 = (b - 48) as u64;
        proof {
            lemma_digits_value_step(d, i - from);
        }
        if dv > max || acc > (max - dv) / 10 {
            proof {
                assert(d.subrange(0, i - from + 1) == d.subrange(0, (i + 1) - from));
                if all_digits(d) {
                    lemma_digits_value_mono(d, i + 1 - from);
                }
                if dv <= max {
                    assert((acc as nat) * 10 + dv as nat > max as nat) by (nonlinear_arith)
                        requires
                            acc as int > (max as int - dv as int) / 10,
                            dv <= 9,
                            dv <= max,
                    ;
                }
            }
            return None;
        }
        assert((acc as nat) * 10 + dv as nat <= max as nat) by (nonlinear_arith)
            requires
                acc as int <= (max as int - dv as int) / 10,
                dv <= max,
        ;
        acc = acc * 10 + dv;
        i = i + 1;
    }
    assert(d.subrange(0, i - from) =~= d);
    Some(acc)
}

/// Parses a signed decimal integer as `str::parse::<i64>` does.
pub fn parse_i64_bytes(bytes: &[u8]) -> (r: Option<i64>)
    ensures
        r matches Some(v) ==> spec_parse_int(bytes@, i64::MIN as int, i64::MAX as int) == Some(
            v as int,
        ),
        r is None ==> spec_parse_int(bytes@, i64::MIN as int, i64::MAX as int) is None,
{
    if bytes.len() > 0 && bytes[0] == 45u8 {
        match parse_magnitude(bytes, 1, 9223372036854775808u64) {
            Some(m) => {
                if m == 9223372036854775808u64 {
                    Some(i64::MIN)
                } else {
                    Some(-(m as i64))
                }
            },
            None => None,
        }
    } else {
        let from: usize = if bytes.len() > 0 && bytes[0] == 43u8 {
            1
        } else {
            0
        };
        assert(bytes@.skip(0) =~= bytes@);
        match parse_magnitude(bytes, from, i64::MAX as u64) {
            Some(m) => Some(m as i64),
            None => None,
        }
    }
}

/// Parses an unsigned decimal integer as `str::parse::<usize>` does.
pub fn parse_usize_bytes(bytes: &[u8]) -> (r: Option<usize>)
    ensures
        r matches Some(v) ==> spec_parse_int(bytes@, 0, usize::MAX as int) == Some(v as int),
        r is None ==> spec_parse_int(bytes@, 0, usize::MAX as int) is None,
{
    let from: usize = if bytes.len() > 0 && bytes[0] == 43u8 {
        1
    } else {
        0
    };
    assert(bytes@.skip(0) =~= bytes@);
    match parse_magnitude(bytes, from, usize::MAX as u64) {
        Some(m) => Some(m as usize),
        None => None,
    }
}

/// Parses a signed decimal integer as `str::parse::<i32>` does.
pub fn parse_i32_bytes(bytes: &[u8]) -> (r: Option<i32>)
    ensures
        r matches Some(v) ==> spec_parse_int(bytes@, i32::MIN as int, i32::MAX as int) == Some(
            v as int,
        ),
        r is None ==> spec_parse_int(bytes@, i32::MIN as int, i32::MAX as int) is None,
{
    if bytes.len() > 0 && bytes[0] == 45u8 {
        match parse_magnitude(bytes, 1, 2147483648u64) {
            Some(m) => Some((0 - m as i64) as i32),
            None => None,
        }
    } else {
        let from: usize = if bytes.len() > 0 && bytes[0] == 43u8 {
            1
        } else {
            0
        };
        assert(bytes@.skip(0) =~= bytes@);
        match parse_magnitude(bytes, from, i32::MAX as u64) {
            Some(m) => Some(m as i32),
            None => None,
        }
    }
}

/// A character with the Unicode White_Space property, which `str::trim` removes.
pub open spec fn is_white_space(c: char) -> bool {
    let u = c as u32;
    ||| 0x09 <= u <= 0x0d
    ||| u == 0x20
    ||| u == 0x85
    ||| u == 0xa0
    ||| u == 0x1680
    ||| 0x2000 <= u <= 0x200a
    ||| u == 0x2028
    ||| u == 0x2029
    ||| u == 0x202f
    ||| u == 0x205f
    ||| u == 0x3000
}

/// The position of the first character from `i` on that is not whitespace, or the length.
pub open spec fn first_non_space(s: Seq<char>, i: int) -> int
    decreases s.len() - i,
{
    if i < 0 || i >= s.len() || !is_white_space(s[i]) {
        i
    } else {
        first_non_space(s, i + 1)
    }
}

/// The end of the text before `j` without its trailing whitespace.
pub open spec fn end_non_space(s: Seq<char>, j: int) -> int
    decreases j,
{
    if j <= 0 || j > s.len() || !is_white_space(s[j - 1]) {
        j
    } else {
        end_non_space(s, j - 1)
    }
}

/// The string without its leading and trailing whitespace.
pub open spec fn trimmed(s: Seq<char>) -> Seq<char> {
    let i = first_non_space(s, 0);
    if i >= s.len() {
        Seq::empty()
    } else {
        s.subrange(i, end_non_space(s, s.len() as int))
    }
}

/// A string that starts and ends with a character other than whitespace is its own trimmed
/// form.
pub proof fn lemma_trimmed_unchanged(s: Seq<char>)
    requires
        s.len() > 0,
        !is_white_space(s[0]),
        !is_white_space(s.last()),
    ensures
        trimmed(s) == s,
{
    assert(s.subrange(0, s.len() as int) =~= s);
}

/// The string with leading and trailing whitespace removed (`str::trim`, whitespace being the
/// characters with the Unicode White_Space property).
#[verifier::external_body]
pub(crate) fn trim(s: &str) -> (r: &str)
    ensures
        r@ == trimmed(s@),
{
    s.trim()
}

/// What `str::to_lowercase` gives for a string: each character's lower-case mapping, with the
/// final-sigma rule of Unicode.
pub uninterp spec fn lowercased(s: Seq<char>) -> Seq<char>;

/// The string in lower case (`str::to_lowercase`).
#[verifier::external_body]
pub(crate) fn to_lower(s: &str) -> (r: String)
    ensures
        r@ == lowercased(s@),
{
    s.to_lowercase()
}

/// The characters of a string.
pub fn chars_of(s: &str) -> (r: Vec<char>)
    ensures
        r@ == s@,
{
    let mut out: Vec<char> = Vec::new();
    for c in it: s.chars()
        invariant
            out@ == it.seq().take(it.index() as int),
    {
        out.push(c);
    }
    out
}

} // verus!
