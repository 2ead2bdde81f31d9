//! Addresses written as eight lowercase hexadecimal digits, and the small
//! pieces of text that records are put together from.

use vstd::prelude::*;

verus! {

/// The lowercase hexadecimal digit for a number below 16.
pub open spec fn hex_digit(d: int) -> char {
    if d == 0 {
        '0'
    } else if d == 1 {
        '1'
    } else if d == 2 {
        '2'
    } else if d == 3 {
        '3'
    } else if d == 4 {
        '4'
    } else if d == 5 {
        '5'
    } else if d == 6 {
        '6'
    } else if d == 7 {
        '7'
    } else if d == 8 {
        '8'
    } else if d == 9 {
        '9'
    } else if d == 10 {
        'a'
    } else if d == 11 {
        'b'
    } else if d == 12 {
        'c'
    } else if d == 13 {
        'd'
    } else if d == 14 {
        'e'
    } else {
        'f'
    }
}

/// The low 32 bits of `v` as eight hexadecimal digits, the most significant
/// first.
pub open spec fn hex8(v: u64) -> Seq<char> {
    let low = (v % 0x1_0000_0000) as int;
    seq![
        hex_digit(low / 0x1000_0000 % 16),
        hex_digit(low / 0x100_0000 % 16),
        hex_digit(low / 0x10_0000 % 16),
        hex_digit(low / 0x1_0000 % 16),
        hex_digit(low / 0x1000 % 16),
        hex_digit(low / 0x100 % 16),
        hex_digit(low / 0x10 % 16),
        hex_digit(low % 16),
    ]
}

/// `String::from_iter` over characters: the string made of them, in order.
#[verifier::external_body]
pub(crate) fn string_of(chars: &Vec<char>) -> (s: String)
    ensures
        s@ == chars@,
{
    String::from_iter(chars.iter())
}

fn digit_char(d: u64) -> (c: char)
    requires
        d < 16,
    ensures
        c == hex_digit(d as int),
{
    if d == 0 {
        '0'
    } else if d == 1 {
        '1'
    } else if d == 2 {
        '2'
    } else if d == 3 {
        '3'
    } else if d == 4 {
        '4'
    } else if d == 5 {
        '5'
    } else if d == 6 {
        '6'
    } else if d == 7 {
        '7'
    } else if d == 8 {
        '8'
    } else if d == 9 {
        '9'
    } else if d == 10 {
        'a'
    } else if d == 11 {
        'b'
    } else if d == 12 {
        'c'
    } else if d == 13 {
        'd'
    } else if d == 14 {
        'e'
    } else {
        'f'
    }
}

/// Puts the eight digits of `v` behind `out`.
pub fn push_hex8(out: &mut Vec<char>, v: u64)
    ensures
        final(out)@ == old(out)@ + hex8(v),
{
    let low: u64 = v % 0x1_0000_0000;
    out.push(digit_char(low / 0x1000_0000 % 16));
    out.push(digit_char(low / 0x100_0000 % 16));
    out.push(digit_char(low / 0x10_0000 % 16));
    out.push(digit_char(low / 0x1_0000 % 16));
    out.push(digit_char(low / 0x1000 % 16));
    out.push(digit_char(low / 0x100 % 16));
    out.push(digit_char(low / 0x10 % 16));
    out.push(digit_char(low % 16));
    assert(out@ =~= old(out)@ + hex8(v));
}

/// Puts the characters of `text` behind `out`.
pub fn push_text(out: &mut Vec<char>, text: &str)
    ensures
        final(out)@ == old(out)@ + text@,
{
    let n: usize = text.unicode_len();
    let mut i: usize = 0;
    while i < n
        invariant
            n == text@.len(),
            i <= n,
            out@ == old(out)@ + text@.subrange(0, i as int),
        decreases n - i,
    {
        out.push(text.get_char(i));
        i += 1;
        assert(out@ =~= old(out)@ + text@.subrange(0, i as int));
    }
    assert(text@.subrange(0, n as int) =~= text@);
}

/// Bytes as text: two lowercase hexadecimal digits for each, in order.
pub open spec fn hex_bytes(s: Seq<u8>) -> Seq<char>
    decreases s.len(),
{
    if s.len() == 0 {
        Seq::empty()
    } else {
        hex_bytes(s.drop_last()) + seq![
            hex_digit(s.last() as int / 16),
            hex_digit(s.last() as int % 16),
        ]
    }
}

/// Bytes as text: two lowercase hexadecimal digits for each, in order.
pub fn format_hex_bytes(bytes: &[u8]) -> (text: String)
    ensures
        text@ == hex_bytes(bytes@),
{
    let mut out: Vec<char> = Vec::new();
    let mut i: usize = 0;
    assert(bytes@.subrange(0, 0) =~= Seq::<u8>::empty());
    while i < bytes.len()
        invariant
            i <= bytes@.len(),
            out@ == hex_bytes(bytes@.subrange(0, i as int)),
        decreases bytes@.len() - i,
    {
        let b: u8 = bytes[i];
        let ghost before = out@;
        out.push(digit_char((b / 16) as u64));
        out.push(digit_char((b % 16) as u64));
        proof {
            assert(bytes@.subrange(0, i + 1).drop_last() =~= bytes@.subrange(0, i as int));
            assert(out@ =~= before + seq![hex_digit(b as int / 16), hex_digit(b as int % 16)]);
        }
        i += 1;
    }
    assert(bytes@.subrange(0, bytes@.len() as int) =~= bytes@);
    string_of(&out)
}

/// An address as text: the low 32 bits of `v` as eight lowercase
/// hexadecimal digits.
pub fn format_hex8(v: u64) -> (s: String)
    ensures
        s@ == hex8(v),
{
    let mut out: Vec<char> = Vec::new();
    push_hex8(&mut out, v);
    string_of(&out)
}


/// One field of a record as text: its name and its value.
pub type TextField = (String, String);

/// The names and values of the fields, as sequences of characters.
pub open spec fn field_texts(fields: Seq<TextField>) -> Seq<(Seq<char>, Seq<char>)> {
    Seq::new(fields.len(), |i: int| (fields[i].0@, fields[i].1@))
}

/// Puts the field `name` with the value `value` behind `out`.
pub fn push_field(out: &mut Vec<TextField>, name: &str, value: String)
    ensures
        field_texts(final(out)@) == field_texts(old(out)@).push((name@, value@)),
{
    let key: String = name.to_string();
    out.push((key, value));
    assert(field_texts(out@) =~= field_texts(old(out)@).push((name@, value@)));
}

/// The text of a field whose value is an address.
pub fn push_hex_field(out: &mut Vec<TextField>, name: &str, value: u64)
    ensures
        field_texts(final(out)@) == field_texts(old(out)@).push((name@, hex8(value))),
{
    push_field(out, name, format_hex8(value));
}

/// The fields as one JSON object on one line: each name and value between
/// double quotes with a colon between them, the fields parted by a comma and
/// a space. Names and values are taken as they are.
pub open spec fn json_text(fields: Seq<(Seq<char>, Seq<char>)>) -> Seq<char>
    decreases fields.len(),
{
    if fields.len() == 0 {
        "{"@
    } else {
        json_text(fields.drop_last()) + (if fields.len() == 1 {
            Seq::<char>::empty()
        } else {
            ", "@
        }) + "\""@ + fields.last().0 + "\":\""@ + fields.last().1 + "\""@
    }
}

/// The fields as one JSON object on one line.
pub fn format_json(fields: &Vec<TextField>) -> (line: String)
    ensures
        line@ == json_text(field_texts(fields@)) + "}"@,
{
    let mut out: Vec<char> = Vec::new();
    push_text(&mut out, "{");
    let mut i: usize = 0;
    let ghost texts = field_texts(fields@);
    assert(texts.subrange(0, 0) =~= Seq::<(Seq<char>, Seq<char>)>::empty());
    assert(out@ =~= "{"@);
    while i < fields.len()
        invariant
            i <= fields@.len(),
            texts == field_texts(fields@),
            out@ == json_text(texts.subrange(0, i as int)),
        decreases fields@.len() - i,
    {
        if i > 0 {
            push_text(&mut out, ", ");
        }
        push_text(&mut out, "\"");
        push_text(&mut out, fields[i].0.as_str());
        push_text(&mut out, "\":\"");
        push_text(&mut out, fields[i].1.as_str());
        push_text(&mut out, "\"");
        proof {
            let now = texts.subrange(0, i + 1);
            assert(now.drop_last() =~= texts.subrange(0, i as int));
            assert(now.last() == texts[i as int]);
            assert(out@ =~= json_text(now));
        }
        i += 1;
    }
    assert(texts.subrange(0, fields@.len() as int) =~= texts);
    push_text(&mut out, "}");
    string_of(&out)
}

} // verus!
