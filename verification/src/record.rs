//! The log writer's data: one record per key, rendered as the line
//! `<key> <type>: <digest in lowercase hexadecimal>\n`.

use vstd::prelude::*;

use crate::canon::TypeTag;

verus! {

/// What the pipeline logs for one key: the key, the type the store
/// reported for it, and the digest of its canonical form.
#[derive(Debug)]
pub struct Record {
    pub key: String,
    pub tag: TypeTag,
    pub digest: u64,
}

impl View for Record {
    type V = (Seq<char>, TypeTag, u64);

    open spec fn view(&self) -> (Seq<char>, TypeTag, u64) {
        (self.key@, self.tag, self.digest)
    }
}

/// The lowercase hexadecimal digit for a value below sixteen.
pub open spec fn hex_digit(d: int) -> char {
    if d == 0 {
        '0'
    } else if d == 1 {
        '1'
    } else if d == 2 {
        '2'
    } else if d == 3 {
        '3'
    } else if d == 4 {
        '4'
    } else if d == 5 {
        '5'
    } else if d == 6 {
        '6'
    } else if d == 7 {
        '7'
    } else if d == 8 {
        '8'
    } else if d == 9 {
        '9'
    } else if d == 10 {
        'a'
    } else if d == 11 {
        'b'
    } else if d == 12 {
        'c'
    } else if d == 13 {
        'd'
    } else if d == 14 {
        'e'
    } else {
        'f'
    }
}

/// A number in lowercase hexadecimal, most significant digit first,
/// without leading zeros (a single `0` for zero).
pub open spec fn hex_of(n: nat) -> Seq<char>
    decreases n,
{
    if n < 16 {
        seq![hex_digit(n as int)]
    } else {
        hex_of(n / 16) + seq![hex_digit((n % 16) as int)]
    }
}

fn hex_digit_str(d: u64) -> (r: &'static str)
    requires
        d < 16,
    ensures
        r@ == seq![hex_digit(d as int)],
{
    proof {
        reveal_strlit("0");
        reveal_strlit("1");
        reveal_strlit("2");
        reveal_strlit("3");
        reveal_strlit("4");
        reveal_strlit("5");
        reveal_strlit("6");
        reveal_strlit("7");
        reveal_strlit("8");
        reveal_strlit("9");
        reveal_strlit("a");
        reveal_strlit("b");
        reveal_strlit("c");
        reveal_strlit("d");
        reveal_strlit("e");
        reveal_strlit("f");
    }
    let r: &'static str = match d {
        0 => "0",
        1 => "1",
        2 => "2",
        3 => "3",
        4 => "4",
        5 => "5",
        6 => "6",
        7 => "7",
        8 => "8",
        9 => "9",
        10 => "a",
        11 => "b",
        12 => "c",
        13 => "d",
        14 => "e",
        _ => "f",
    };
    proof {
        assert(r@ =~= seq![hex_digit(d as int)]);
    }
    r
}

/// Renders a number in lowercase hexadecimal, as the log line carries
/// the digest.
pub fn to_hex(n: u64) -> (r: String)
    ensures
        r@ == hex_of(n as nat),
    decreases n,
{
    if n < 16 {
        String::from_str(hex_digit_str(n))
    } else {
        let rest = to_hex(n / 16);
        let digit = hex_digit_str(n % 16);
        let r = rest.concat(digit);
        proof {
            assert(r@ =~= hex_of(n as nat));
        }
        r
    }
}

/// The label a record carries for each type tag — the store's own
/// type names, with `none` for an absent key.
pub open spec fn tag_label(tag: TypeTag) -> Seq<char> {
    match tag {
        TypeTag::Str => "string"@,
        TypeTag::List => "list"@,
        TypeTag::MemberSet => "set"@,
        TypeTag::Hash => "hash"@,
        TypeTag::ZSet => "zset"@,
        TypeTag::Absent => "none"@,
    }
}

/// The label rendered for a record's type tag.
pub fn tag_name(tag: TypeTag) -> (r: &'static str)
    ensures
        r@ == tag_label(tag),
{
    match tag {
        TypeTag::Str => "string",
        TypeTag::List => "list",
        TypeTag::MemberSet => "set",
        TypeTag::Hash => "hash",
        TypeTag::ZSet => "zset",
        TypeTag::Absent => "none",
    }
}

/// One log line: `<key> <type>: <digest in lowercase hexadecimal>`,
/// newline-terminated.
pub open spec fn line_of(key: Seq<char>, tag: TypeTag, digest: u64) -> Seq<char> {
    key + " "@ + tag_label(tag) + ": "@ + hex_of(digest as nat) + "\n"@
}

/// Renders a record as its log line.
pub fn format_record(rec: &Record) -> (r: String)
    ensures
        r@ == line_of(rec.key@, rec.tag, rec.digest),
{
    let mut line = rec.key.clone();
    line.append(" ");
    line.append(tag_name(rec.tag));
    line.append(": ");
    let hex = to_hex(rec.digest);
    line.append(hex.as_str());
    line.append("\n");
    proof {
        assert(line@ =~= line_of(rec.key@, rec.tag, rec.digest));
    }
    line
}

} // verus!
