use vstd::prelude::*;

verus! {

/// The Unicode whitespace characters: what splitting on whitespace runs
/// treats as a separator.
pub open spec fn is_space(c: char) -> bool {
    ||| c == ' '
    ||| c == '\t'
    ||| c == '\n'
    ||| c == '\u{B}'
    ||| c == '\u{C}'
    ||| c == '\r'
    ||| c == '\u{85}'
    ||| c == '\u{A0}'
    ||| c == '\u{1680}'
    ||| ('\u{2000}' <= c && c <= '\u{200A}')
    ||| c == '\u{2028}'
    ||| c == '\u{2029}'
    ||| c == '\u{202F}'
    ||| c == '\u{205F}'
    ||| c == '\u{3000}'
}

pub fn is_space_char(c: char) -> (r: bool)
    ensures
        r == is_space(c),
{
    c == ' ' || c == '\t' || c == '\n' || c == '\u{B}' || c == '\u{C}' || c == '\r'
        || c == '\u{85}' || c == '\u{A0}' || c == '\u{1680}' || ('\u{2000}' <= c && c
        <= '\u{200A}') || c == '\u{2028}' || c == '\u{2029}' || c == '\u{202F}' || c == '\u{205F}'
        || c == '\u{3000}'
}

/// An ASCII decimal digit.
pub open spec fn is_digit(c: char) -> bool {
    '0' <= c && c <= '9'
}

pub fn is_digit_char(c: char) -> (r: bool)
    ensures
        r == is_digit(c),
{
    '0' <= c && c <= '9'
}

/// An uppercase letter of the Cyrillic alphabet used for names.
pub open spec fn is_upper_cyr(c: char) -> bool {
    ('\u{410}' <= c && c <= '\u{42F}') || c == '\u{401}'
}

pub fn is_upper_cyr_char(c: char) -> (r: bool)
    ensures
        r == is_upper_cyr(c),
{
    ('\u{410}' <= c && c <= '\u{42F}') || c == '\u{401}'
}

/// A lowercase letter of the Cyrillic alphabet used for names.
pub open spec fn is_lower_cyr(c: char) -> bool {
    ('\u{430}' <= c && c <= '\u{44F}') || c == '\u{451}'
}

pub fn is_lower_cyr_char(c: char) -> (r: bool)
    ensures
        r == is_lower_cyr(c),
{
    ('\u{430}' <= c && c <= '\u{44F}') || c == '\u{451}'
}

/// Lowercases ASCII letters and the Cyrillic letters used for label matching;
/// every other character is left unchanged.
pub open spec fn lower_char(c: char) -> char {
    if 'A' <= c && c <= 'Z' {
        (c as u32 + 32) as char
    } else if '\u{410}' <= c && c <= '\u{42F}' {
        (c as u32 + 32) as char
    } else if c == '\u{401}' {
        '\u{451}'
    } else {
        c
    }
}

/// Lowercases ASCII letters only; every other character is left unchanged.
pub open spec fn lower_ascii_char(c: char) -> char {
    if 'A' <= c && c <= 'Z' {
        (c as u32 + 32) as char
    } else {
        c
    }
}

pub fn to_lower_char(c: char) -> (r: char)
    ensures
        r == lower_char(c),
{
    match c {
        'A' => 'a',
        'B' => 'b',
        'C' => 'c',
        'D' => 'd',
        'E' => 'e',
        'F' => 'f',
        'G' => 'g',
        'H' => 'h',
        'I' => 'i',
        'J' => 'j',
        'K' => 'k',
        'L' => 'l',
        'M' => 'm',
        'N' => 'n',
        'O' => 'o',
        'P' => 'p',
        'Q' => 'q',
        'R' => 'r',
        'S' => 's',
        'T' => 't',
        'U' => 'u',
        'V' => 'v',
        'W' => 'w',
        'X' => 'x',
        'Y' => 'y',
        'Z' => 'z',
        '\u{410}' => '\u{430}',
        '\u{411}' => '\u{431}',
        '\u{412}' => '\u{432}',
        '\u{413}' => '\u{433}',
        '\u{414}' => '\u{434}',
        '\u{415}' => '\u{435}',
        '\u{416}' => '\u{436}',
        '\u{417}' => '\u{437}',
        '\u{418}' => '\u{438}',
        '\u{419}' => '\u{439}',
        '\u{41A}' => '\u{43A}',
        '\u{41B}' => '\u{43B}',
        '\u{41C}' => '\u{43C}',
        '\u{41D}' => '\u{43D}',
        '\u{41E}' => '\u{43E}',
        '\u{41F}' => '\u{43F}',
        '\u{420}' => '\u{440}',
        '\u{421}' => '\u{441}',
        '\u{422}' => '\u{442}',
        '\u{423}' => '\u{443}',
        '\u{424}' => '\u{444}',
        '\u{425}' => '\u{445}',
        '\u{426}' => '\u{446}',
        '\u{427}' => '\u{447}',
        '\u{428}' => '\u{448}',
        '\u{429}' => '\u{449}',
        '\u{42A}' => '\u{44A}',
        '\u{42B}' => '\u{44B}',
        '\u{42C}' => '\u{44C}',
        '\u{42D}' => '\u{44D}',
        '\u{42E}' => '\u{44E}',
        '\u{42F}' => '\u{44F}',
        '\u{401}' => '\u{451}',
        _ => c,
    }
}

pub fn to_lower_ascii_char(c: char) -> (r: char)
    ensures
        r == lower_ascii_char(c),
{
    match c {
        'A' => 'a',
        'B' => 'b',
        'C' => 'c',
        'D' => 'd',
        'E' => 'e',
        'F' => 'f',
        'G' => 'g',
        'H' => 'h',
        'I' => 'i',
        'J' => 'j',
        'K' => 'k',
        'L' => 'l',
        'M' => 'm',
        'N' => 'n',
        'O' => 'o',
        'P' => 'p',
        'Q' => 'q',
        'R' => 'r',
        'S' => 's',
        'T' => 't',
        'U' => 'u',
        'V' => 'v',
        'W' => 'w',
        'X' => 'x',
        'Y' => 'y',
        'Z' => 'z',
        _ => c,
    }
}

} // verus!
