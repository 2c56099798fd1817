//! Comma-separated lines with double-quoted fields.
use vstd::prelude::*;
use vstd::string::StringSliceAdditionalSpecFns;

use crate::text::{lossy_string, utf8_text};

verus! {

/// The fields of a comma-separated line from byte `s` on, given the bytes of the field read
/// so far and whether a quoted part is open. Outside quotes a comma ends a field and a quote
/// opens a quoted part; inside, a doubled quote stands for one quote and a single quote
/// closes the part.
pub open spec fn csv_fields_from(s: Seq<u8>, cur: Seq<u8>, in_quotes: bool) -> Seq<Seq<u8>>
    decreases s.len(),
{
    if s.len() == 0 {
        seq![cur]
    } else if in_quotes {
        if s[0] == 34u8 {
            if s.len() > 1 && s[1] == 34u8 {
                csv_fields_from(s.skip(2), cur.push(34u8), true)
            } else {
                csv_fields_from(s.drop_first(), cur, false)
            }
        } else {
            csv_fields_from(s.drop_first(), cur.push(s[0]), true)
        }
    } else if s[0] == 34u8 {
        csv_fields_from(s.drop_first(), cur, true)
    } else if s[0] == 44u8 {
        seq![cur] + csv_fields_from(s.drop_first(), Seq::empty(), false)
    } else {
        csv_fields_from(s.drop_first(), cur.push(s[0]), false)
    }
}

/// The bytes of the fields of a comma-separated line.
pub open spec fn csv_fields(s: Seq<u8>) -> Seq<Seq<u8>> {
    csv_fields_from(s, Seq::empty(), false)
}

/// The texts of a list of strings.
pub open spec fn string_texts(v: Seq<String>) -> Seq<Seq<char>> {
    v.map_values(|s: String| s@)
}

/// The texts of a list of byte sequences.
pub open spec fn byte_texts(v: Seq<Seq<u8>>) -> Seq<Seq<char>> {
    v.map_values(|b: Seq<u8>| utf8_text(b))
}

/// Splits a comma-separated line into its fields, removing the quotes around quoted parts.
pub fn parse_csv_line(line: &str) -> (out: Vec<String>)
    ensures
        string_texts(out@) == byte_texts(csv_fields(line.spec_bytes())),
{
    parse_csv_bytes(line.as_bytes())
}

/// Splits the bytes of a comma-separated line into the texts of its fields.
pub fn parse_csv_bytes(b: &[u8]) -> (out: Vec<String>)
    ensures
        string_texts(out@) == byte_texts(csv_fields(b@)),
{
    let ghost s = b@;
    let mut out: Vec<String> = Vec::new();
    let mut current: Vec<u8> = Vec::new();
    let mut in_quotes = false;
    let mut i: usize = 0;
    assert(s.skip(0) =~= s);
    while i < b.len()
        invariant
            s == b@,
            i <= s.len(),
            byte_texts(csv_fields(s)) =~= string_texts(out@) + byte_texts(
                csv_fields_from(s.skip(i as int), current@, in_quotes),
            ),
        decreases s.len() - i,
    {
        let c = b[i];
        let ghost rest = s.skip(i as int);
        assert(rest[0] == c);
        assert(rest.drop_first() =~= s.skip(i + 1));
        if in_quotes {
            if c == 34u8 {
                if i + 1 < b.len() && b[i + 1] == 34u8 {
                    assert(rest.skip(2) =~= s.skip(i + 2));
                    current.push(34u8);
                    i = i + 2;
                } else {
                    in_quotes = false;
                    i = i + 1;
                }
            } else {
                current.push(c);
                i = i + 1;
            }
        } else if c == 34u8 {
            in_quotes = true;
            i = i + 1;
        } else if c == 44u8 {
            let field = lossy_string(current.as_slice());
            let ghost before = out@;
            out.push(field);
            assert(string_texts(out@) =~= string_texts(before) + seq![utf8_text(current@)]);
            current = Vec::new();
            i = i + 1;
        } else {
            current.push(c);
            i = i + 1;
        }
    }
    let field = lossy_string(current.as_slice());
    let ghost before = out@;
    out.push(field);
    assert(string_texts(out@) =~= string_texts(before) + seq![utf8_text(current@)]);
    assert(s.skip(i as int) =~= Seq::<u8>::empty());
    out
}

} // verus!
