use vstd::prelude::*;

verus! {

/// The lower-case hexadecimal digit for a value below 16.
pub open spec fn spec_hex_digit(d: u8) -> char {
    if d < 10 {
        (('0' as u8) + d) as char
    } else {
        (('a' as u8) + (d - 10)) as char
    }
}

/// Whether a character is a hexadecimal digit, in either case.
pub open spec fn is_hex_char(c: char) -> bool {
    ('0' <= c && c <= '9') || ('a' <= c && c <= 'f') || ('A' <= c && c <= 'F')
}

/// The value of a hexadecimal digit.
pub open spec fn spec_hex_value(c: char) -> u8 {
    if '0' <= c && c <= '9' {
        ((c as u8) - ('0' as u8)) as u8
    } else if 'a' <= c && c <= 'f' {
        ((c as u8) - ('a' as u8) + 10) as u8
    } else {
        ((c as u8) - ('A' as u8) + 10) as u8
    }
}

/// The two lower-case hexadecimal digits of a byte, high nibble first.
pub open spec fn spec_hex_byte(b: u8) -> Seq<char> {
    seq![spec_hex_digit(b / 16), spec_hex_digit(b % 16)]
}

/// Lower-case hexadecimal text of a byte string, two digits per byte.
pub open spec fn spec_hex_encode(bytes: Seq<u8>) -> Seq<char>
    decreases bytes.len(),
{
    if bytes.len() == 0 {
        Seq::empty()
    } else {
        spec_hex_encode(bytes.drop_last()) + spec_hex_byte(bytes.last())
    }
}

/// The bytes that a hexadecimal text stands for: `None` unless the text has
/// an even number of characters, all of them hexadecimal digits.
pub open spec fn spec_hex_decode(text: Seq<char>) -> Option<Seq<u8>> {
    if text.len() % 2 == 0 && forall|i: int| 0 <= i < text.len() ==> is_hex_char(#[trigger] text[i]) {
        Some(
            Seq::new(
                (text.len() / 2) as nat,
                |i: int| (spec_hex_value(text[2 * i]) * 16 + spec_hex_value(text[2 * i + 1])) as u8,
            ),
        )
    } else {
        None
    }
}

pub(crate) fn hex_digit_str(d: u8) -> (r: &'static str)
    requires
        d < 16,
    ensures
        r@ == seq![spec_hex_digit(d)],
{
    match d {
        0 => { proof { reveal_strlit("0"); } "0" },
        1 => { proof { reveal_strlit("1"); } "1" },
        2 => { proof { reveal_strlit("2"); } "2" },
        3 => { proof { reveal_strlit("3"); } "3" },
        4 => { proof { reveal_strlit("4"); } "4" },
        5 => { proof { reveal_strlit("5"); } "5" },
        6 => { proof { reveal_strlit("6"); } "6" },
        7 => { proof { reveal_strlit("7"); } "7" },
        8 => { proof { reveal_strlit("8"); } "8" },
        9 => { proof { reveal_strlit("9"); } "9" },
        10 => { proof { reveal_strlit("a"); } "a" },
        11 => { proof { reveal_strlit("b"); } "b" },
        12 => { proof { reveal_strlit("c"); } "c" },
        13 => { proof { reveal_strlit("d"); } "d" },
        14 => { proof { reveal_strlit("e"); } "e" },
        _ => { proof { reveal_strlit("f"); } "f" },
    }
}

/// Writes a byte string as lower-case hexadecimal text.
pub fn hex_encode(bytes: &[u8]) -> (r: String)
    ensures
        r@ == spec_hex_encode(bytes@),
{
    let mut r = String::new();
    let mut i: usize = 0;
    while i < bytes.len()
        invariant
            0 <= i <= bytes@.len(),
            r@ == spec_hex_encode(bytes@.take(i as int)),
        decreases bytes@.len() - i,
    {
        let b = bytes[i];
        let hi = hex_digit_str(b / 16);
        let lo = hex_digit_str(b % 16);
        r.append(hi);
        r.append(lo);
        proof {
            assert(bytes@.take(i + 1).drop_last() =~= bytes@.take(i as int));
            assert(bytes@.take(i + 1).last() == b);
            assert(r@ =~= spec_hex_encode(bytes@.take(i + 1)));
        }
        i = i + 1;
    }
    proof {
        assert(bytes@.take(bytes@.len() as int) =~= bytes@);
    }
    r
}

fn hex_value_of(b: u8) -> (r: Option<u8>)
    ensures
        r is Some <==> is_hex_char(b as char),
        r matches Some(v) ==> v == spec_hex_value(b as char) && v < 16,
{
    if 48 <= b && b <= 57 {
        Some(b - 48)
    } else if 97 <= b && b <= 102 {
        Some(b - 87)
    } else if 65 <= b && b <= 70 {
        Some(b - 55)
    } else {
        None
    }
}

/// Reads hexadecimal text (digits of either case) back into bytes.
pub fn hex_decode(text: &str) -> (r: Option<Vec<u8>>)
    ensures
        match r {
            Some(v) => spec_hex_decode(text@) == Some(v@),
            None => spec_hex_decode(text@) is None,
        },
{
    broadcast use vstd::string::is_ascii_spec_bytes, vstd::utf8::is_ascii_chars_encode_utf8;

    if !text.is_ascii() {
        proof {
            let k = choose|k: int| 0 <= k < text@.len() && !('\0' <= #[trigger] text@[k] <= '\u{7f}');
            assert(!is_hex_char(text@[k]));
        }
        return None;
    }
    let bytes = text.as_bytes();
    let n = bytes.len();
    proof {
        assert(n == text@.len());
        assert(forall|i: int| 0 <= i < n ==> bytes@[i] as char == #[trigger] text@[i]);
    }
    if n % 2 != 0 {
        return None;
    }
    let mut out: Vec<u8> = Vec::new();
    let mut i: usize = 0;
    while i < n / 2
        invariant
            n == bytes@.len(),
            n == text@.len(),
            n % 2 == 0,
            0 <= i <= n / 2,
            forall|j: int| 0 <= j < n ==> bytes@[j] as char == #[trigger] text@[j],
            forall|j: int| 0 <= j < 2 * i ==> is_hex_char(#[trigger] text@[j]),
            out@.len() == i,
            forall|j: int|
                0 <= j < i ==> #[trigger] out@[j] == (spec_hex_value(text@[2 * j]) * 16
                    + spec_hex_value(text@[2 * j + 1])) as u8,
        decreases n / 2 - i,
    {
        let hi = hex_value_of(bytes[2 * i]);
        let lo = hex_value_of(bytes[2 * i + 1]);
        match (hi, lo) {
            (Some(h), Some(l)) => {
                out.push(h * 16 + l);
            },
            _ => {
                proof {
                    assert(text@[2 * i as int] == bytes@[2 * i as int] as char);
                    assert(text@[2 * i + 1] == bytes@[2 * i + 1] as char);
                    if hi is None {
                        assert(!is_hex_char(text@[2 * i as int]));
                    } else {
                        assert(!is_hex_char(text@[2 * i + 1]));
                    }
                }
                return None;
            },
        }
        proof {
            assert(text@[2 * i as int] == bytes@[2 * i as int] as char);
            assert(text@[2 * i + 1] == bytes@[2 * i + 1] as char);
            assert forall|j: int| 0 <= j < 2 * (i + 1) implies is_hex_char(#[trigger] text@[j]) by {
                if j == 2 * i || j == 2 * i + 1 {
                } else {
                }
            }
        }
        i = i + 1;
    }
    proof {
        assert(out@ =~= Seq::new(
            (text@.len() / 2) as nat,
            |j: int| (spec_hex_value(text@[2 * j]) * 16 + spec_hex_value(text@[2 * j + 1])) as u8,
        ));
    }
    Some(out)
}

} // verus!
