use crate::event::{EngineError, InputResult};
use crate::keycode::{KeyCode, KEY_ENTER, KEY_LEFTCTRL, KEY_LEFTSHIFT, KEY_U};
use crate::keyname::{alnum_key_name, key_code_by_name, key_code_named};
use vstd::prelude::*;
use vstd::string::*;

verus! {

pub const KEY_1: u16 = 2;
pub const KEY_2: u16 = 3;
pub const KEY_3: u16 = 4;
pub const KEY_4: u16 = 5;
pub const KEY_5: u16 = 6;
pub const KEY_6: u16 = 7;
pub const KEY_7: u16 = 8;
pub const KEY_8: u16 = 9;
pub const KEY_9: u16 = 10;
pub const KEY_0: u16 = 11;
pub const KEY_MINUS: u16 = 12;
pub const KEY_EQUAL: u16 = 13;
pub const KEY_TAB: u16 = 15;
pub const KEY_LEFTBRACE: u16 = 26;
pub const KEY_RIGHTBRACE: u16 = 27;
pub const KEY_SEMICOLON: u16 = 39;
pub const KEY_APOSTROPHE: u16 = 40;
pub const KEY_GRAVE: u16 = 41;
pub const KEY_BACKSLASH: u16 = 43;
pub const KEY_COMMA: u16 = 51;
pub const KEY_DOT: u16 = 52;
pub const KEY_SLASH: u16 = 53;
pub const KEY_SPACE: u16 = 57;

pub open spec fn is_ascii_upper(c: char) -> bool {
    'A' <= c && c <= 'Z'
}

pub open spec fn is_ascii_lower(c: char) -> bool {
    'a' <= c && c <= 'z'
}

pub open spec fn is_ascii_digit(c: char) -> bool {
    '0' <= c && c <= '9'
}

pub open spec fn to_upper(c: char) -> char {
    if is_ascii_lower(c) {
        ((c as u8) - 32) as char
    } else {
        c
    }
}

/// The US-layout key of a punctuation or whitespace character, and whether
/// it needs shift.
pub open spec fn symbol_key(c: char) -> Option<(u16, bool)> {
    if c == '!' { Some((KEY_1, true)) }
    else if c == '@' { Some((KEY_2, true)) }
    else if c == '#' { Some((KEY_3, true)) }
    else if c == '$' { Some((KEY_4, true)) }
    else if c == '%' { Some((KEY_5, true)) }
    else if c == '^' { Some((KEY_6, true)) }
    else if c == '&' { Some((KEY_7, true)) }
    else if c == '*' { Some((KEY_8, true)) }
    else if c == '(' { Some((KEY_9, true)) }
    else if c == ')' { Some((KEY_0, true)) }
    else if c == ' ' { Some((KEY_SPACE, false)) }
    else if c == '\t' { Some((KEY_TAB, false)) }
    else if c == '\n' { Some((KEY_ENTER, false)) }
    else if c == '`' { Some((KEY_GRAVE, false)) }
    else if c == '-' { Some((KEY_MINUS, false)) }
    else if c == '=' { Some((KEY_EQUAL, false)) }
    else if c == '[' { Some((KEY_LEFTBRACE, false)) }
    else if c == ']' { Some((KEY_RIGHTBRACE, false)) }
    else if c == '\\' { Some((KEY_BACKSLASH, false)) }
    else if c == ';' { Some((KEY_SEMICOLON, false)) }
    else if c == '\'' { Some((KEY_APOSTROPHE, false)) }
    else if c == ',' { Some((KEY_COMMA, false)) }
    else if c == '.' { Some((KEY_DOT, false)) }
    else if c == '/' { Some((KEY_SLASH, false)) }
    else if c == '~' { Some((KEY_GRAVE, true)) }
    else if c == '_' { Some((KEY_MINUS, true)) }
    else if c == '+' { Some((KEY_EQUAL, true)) }
    else if c == '{' { Some((KEY_LEFTBRACE, true)) }
    else if c == '}' { Some((KEY_RIGHTBRACE, true)) }
    else if c == '|' { Some((KEY_BACKSLASH, true)) }
    else if c == ':' { Some((KEY_SEMICOLON, true)) }
    else if c == '"' { Some((KEY_APOSTROPHE, true)) }
    else if c == '<' { Some((KEY_COMMA, true)) }
    else if c == '>' { Some((KEY_DOT, true)) }
    else if c == '?' { Some((KEY_SLASH, true)) }
    else { None }
}

/// The key that types `c` on a US layout, and whether it needs shift.
/// Letters and digits are looked up by their kernel key name.
pub open spec fn char_key(c: char) -> Option<(u16, bool)> {
    if is_ascii_upper(c) || is_ascii_lower(c) || is_ascii_digit(c) {
        match key_code_named(seq!['K', 'E', 'Y', '_', to_upper(c)]) {
            Some(k) => Some((k, is_ascii_upper(c))),
            None => None,
        }
    } else {
        symbol_key(c)
    }
}

/// The key results that type one character.
pub open spec fn char_results(c: char) -> Option<Seq<InputResult>> {
    match char_key(c) {
        Some((k, shift)) => Some(key_seq(k, shift)),
        None => None,
    }
}

/// Typing key `k`: pressed and released, inside shift pressed, held and
/// released where `shift` is set.
pub open spec fn key_seq(k: u16, shift: bool) -> Seq<InputResult> {
    if shift {
        seq![
            InputResult::Press(KeyCode(KEY_LEFTSHIFT)),
            InputResult::Hold(KeyCode(KEY_LEFTSHIFT)),
            InputResult::Press(KeyCode(k)),
            InputResult::Release(KeyCode(k)),
            InputResult::Release(KeyCode(KEY_LEFTSHIFT)),
        ]
    } else {
        seq![InputResult::Press(KeyCode(k)), InputResult::Release(KeyCode(k))]
    }
}

/// The key results that type `s`, or nothing where a character has no key.
pub open spec fn string_results(s: Seq<char>) -> Option<Seq<InputResult>>
    decreases s.len(),
{
    if s.len() == 0 {
        Some(Seq::empty())
    } else {
        match (string_results(s.drop_last()), char_results(s.last())) {
            (Some(a), Some(b)) => Some(a + b),
            _ => None,
        }
    }
}

pub open spec fn hex_char(d: nat) -> char {
    if d == 0 { '0' }
    else if d == 1 { '1' }
    else if d == 2 { '2' }
    else if d == 3 { '3' }
    else if d == 4 { '4' }
    else if d == 5 { '5' }
    else if d == 6 { '6' }
    else if d == 7 { '7' }
    else if d == 8 { '8' }
    else if d == 9 { '9' }
    else if d == 10 { 'a' }
    else if d == 11 { 'b' }
    else if d == 12 { 'c' }
    else if d == 13 { 'd' }
    else if d == 14 { 'e' }
    else { 'f' }
}

/// Lowercase hexadecimal digits of `n`, without leading zeros.
pub open spec fn hex_digits(n: nat) -> Seq<char>
    decreases n,
{
    if n < 16 {
        seq![hex_char(n)]
    } else {
        hex_digits(n / 16).push(hex_char(n % 16))
    }
}

/// Ctrl+Shift+U: pressed, held and released together.
pub open spec fn unicode_prefix() -> Seq<InputResult> {
    seq![
        InputResult::Press(KeyCode(KEY_LEFTCTRL)),
        InputResult::Press(KeyCode(KEY_LEFTSHIFT)),
        InputResult::Press(KeyCode(KEY_U)),
        InputResult::Hold(KeyCode(KEY_LEFTCTRL)),
        InputResult::Hold(KeyCode(KEY_LEFTSHIFT)),
        InputResult::Hold(KeyCode(KEY_U)),
        InputResult::Release(KeyCode(KEY_LEFTCTRL)),
        InputResult::Release(KeyCode(KEY_LEFTSHIFT)),
        InputResult::Release(KeyCode(KEY_U)),
    ]
}

/// The results that enter one code point through the IBus unicode sequence.
pub open spec fn code_point_results(c: char, delay: u16) -> Option<Seq<InputResult>> {
    match string_results(hex_digits(c as u32 as nat)) {
        Some(digits) => Some(unicode_prefix() + digits + seq![
            InputResult::Press(KeyCode(KEY_ENTER)),
            InputResult::Release(KeyCode(KEY_ENTER)),
            InputResult::Delay(delay as u32),
        ]),
        None => None,
    }
}

pub open spec fn unicode_results(s: Seq<char>, delay: u16) -> Option<Seq<InputResult>>
    decreases s.len(),
{
    if s.len() == 0 {
        Some(Seq::empty())
    } else {
        match (unicode_results(s.drop_last(), delay), code_point_results(s.last(), delay)) {
            (Some(a), Some(b)) => Some(a + b),
            _ => None,
        }
    }
}

fn symbol_key_of(c: char) -> (r: Option<(u16, bool)>)
    ensures
        r == symbol_key(c),
{
    match c {
        '!' => Some((KEY_1, true)),
        '@' => Some((KEY_2, true)),
        '#' => Some((KEY_3, true)),
        '$' => Some((KEY_4, true)),
        '%' => Some((KEY_5, true)),
        '^' => Some((KEY_6, true)),
        '&' => Some((KEY_7, true)),
        '*' => Some((KEY_8, true)),
        '(' => Some((KEY_9, true)),
        ')' => Some((KEY_0, true)),
        ' ' => Some((KEY_SPACE, false)),
        '\t' => Some((KEY_TAB, false)),
        '\n' => Some((KEY_ENTER, false)),
        '`' => Some((KEY_GRAVE, false)),
        '-' => Some((KEY_MINUS, false)),
        '=' => Some((KEY_EQUAL, false)),
        '[' => Some((KEY_LEFTBRACE, false)),
        ']' => Some((KEY_RIGHTBRACE, false)),
        '\\' => Some((KEY_BACKSLASH, false)),
        ';' => Some((KEY_SEMICOLON, false)),
        '\'' => Some((KEY_APOSTROPHE, false)),
        ',' => Some((KEY_COMMA, false)),
        '.' => Some((KEY_DOT, false)),
        '/' => Some((KEY_SLASH, false)),
        '~' => Some((KEY_GRAVE, true)),
        '_' => Some((KEY_MINUS, true)),
        '+' => Some((KEY_EQUAL, true)),
        '{' => Some((KEY_LEFTBRACE, true)),
        '}' => Some((KEY_RIGHTBRACE, true)),
        '|' => Some((KEY_BACKSLASH, true)),
        ':' => Some((KEY_SEMICOLON, true)),
        '"' => Some((KEY_APOSTROPHE, true)),
        '<' => Some((KEY_COMMA, true)),
        '>' => Some((KEY_DOT, true)),
        '?' => Some((KEY_SLASH, true)),
        _ => None,
    }
}

/// The key that types `c`, and whether it needs shift.
pub fn char_key_of(c: char) -> (r: Option<(u16, bool)>)
    ensures
        r == char_key(c),
        is_ascii_upper(c) || is_ascii_lower(c) || is_ascii_digit(c) ==> r == Some(
            (crate::keyname::alnum_code(to_upper(c)), is_ascii_upper(c)),
        ),
{
    let upper = 'A' <= c && c <= 'Z';
    let lower = 'a' <= c && c <= 'z';
    if upper || lower || ('0' <= c && c <= '9') {
        match key_code_by_name(alnum_key_name(c)) {
            Some(k) => Some((k, upper)),
            None => None,
        }
    } else {
        symbol_key_of(c)
    }
}

/// The results that type key `k`, with shift around it where `shift` is set.
pub fn key_results(k: u16, shift: bool) -> (r: Vec<InputResult>)
    ensures
        r@ == key_seq(k, shift),
{
    let mut out: Vec<InputResult> = Vec::new();
    let key = KeyCode(k);
    if shift {
        let sh = KeyCode(KEY_LEFTSHIFT);
        out.push(InputResult::Press(sh));
        out.push(InputResult::Hold(sh));
        out.push(InputResult::Press(key));
        out.push(InputResult::Release(key));
        out.push(InputResult::Release(sh));
    } else {
        out.push(InputResult::Press(key));
        out.push(InputResult::Release(key));
    }
    assert(out@ =~= key_seq(k, shift));
    out
}

/// Appends the results that type `c`; fails on a character with no key.
fn push_char_results(out: &mut Vec<InputResult>, c: char) -> (r: Result<(), EngineError>)
    ensures
        char_results(c) matches Some(v) ==> (r is Ok && final(out)@ == old(out)@ + v),
        char_results(c) is None ==> r == Err::<(), EngineError>(EngineError::InvalidCharacter(c)),
{
    match char_key_of(c) {
        Some((k, shift)) => {
            let mut v = key_results(k, shift);
            out.append(&mut v);
            Ok(())
        },
        None => Err(EngineError::InvalidCharacter(c)),
    }
}

/// The key results that type `source` on a US layout: shifted characters as
/// shift pressed, held, the key tapped, shift released.
pub fn string_to_input(source: &str) -> (r: Result<Vec<InputResult>, EngineError>)
    ensures
        string_results(source@) matches Some(v) ==> (r matches Ok(w) && w@ == v),
        string_results(source@) is None ==> r matches Err(EngineError::InvalidCharacter(_)),
{
    let mut out: Vec<InputResult> = Vec::new();
    let n = source.unicode_len();
    let mut i: usize = 0;
    while i < n
        invariant
            n == source@.len(),
            i <= n,
            string_results(source@.subrange(0, i as int)) == Some(out@),
        decreases n - i,
    {
        let c = source.get_char(i);
        let ghost pre = source@.subrange(0, i as int);
        let ghost next = source@.subrange(0, i + 1);
        assert(next.drop_last() =~= pre);
        assert(next.last() == c);
        match push_char_results(&mut out, c) {
            Ok(()) => {},
            Err(e) => {
                proof {
                    lemma_string_results_prefix_none(source@, i + 1);
                }
                return Err(e);
            },
        }
        i = i + 1;
    }
    assert(source@.subrange(0, n as int) =~= source@);
    Ok(out)
}

/// A string with a character that has no key cannot be typed, whatever follows it.
proof fn lemma_string_results_prefix_none(s: Seq<char>, k: int)
    requires
        0 <= k <= s.len(),
        string_results(s.subrange(0, k)) is None,
    ensures
        string_results(s) is None,
    decreases s.len() - k,
{
    if k < s.len() {
        let next = s.subrange(0, k + 1);
        assert(next.drop_last() =~= s.subrange(0, k));
        lemma_string_results_prefix_none(s, k + 1);
    } else {
        assert(s.subrange(0, k) =~= s);
    }
}

proof fn lemma_unicode_results_prefix_none(s: Seq<char>, delay: u16, k: int)
    requires
        0 <= k <= s.len(),
        unicode_results(s.subrange(0, k), delay) is None,
    ensures
        unicode_results(s, delay) is None,
    decreases s.len() - k,
{
    if k < s.len() {
        let next = s.subrange(0, k + 1);
        assert(next.drop_last() =~= s.subrange(0, k));
        lemma_unicode_results_prefix_none(s, delay, k + 1);
    } else {
        assert(s.subrange(0, k) =~= s);
    }
}

fn hex_char_of(d: u32) -> (r: char)
    requires
        d < 16,
    ensures
        r == hex_char(d as nat),
{
    match d {
        0 => '0',
        1 => '1',
        2 => '2',
        3 => '3',
        4 => '4',
        5 => '5',
        6 => '6',
        7 => '7',
        8 => '8',
        9 => '9',
        10 => 'a',
        11 => 'b',
        12 => 'c',
        13 => 'd',
        14 => 'e',
        _ => 'f',
    }
}

/// Lowercase hexadecimal digits of `n`.
pub fn hex_of(n: u32) -> (r: Vec<char>)
    ensures
        r@ == hex_digits(n as nat),
    decreases n,
{
    if n < 16 {
        let mut v: Vec<char> = Vec::new();
        v.push(hex_char_of(n));
        assert(v@ =~= seq![hex_char(n as nat)]);
        v
    } else {
        let mut v = hex_of(n / 16);
        v.push(hex_char_of(n % 16));
        v
    }
}

/// The results that enter each code point of `source` through the IBus
/// sequence: Ctrl+Shift+U, its lowercase hexadecimal digits, Enter, then a
/// pause of `delay` milliseconds.
pub fn unicode_to_input(source: &str, delay: u16) -> (r: Result<Vec<InputResult>, EngineError>)
    ensures
        unicode_results(source@, delay) matches Some(v) ==> (r matches Ok(w) && w@ == v),
        unicode_results(source@, delay) is None ==> r matches Err(EngineError::InvalidCharacter(_)),
{
    let mut out: Vec<InputResult> = Vec::new();
    let n = source.unicode_len();
    let mut i: usize = 0;
    while i < n
        invariant
            n == source@.len(),
            i <= n,
            unicode_results(source@.subrange(0, i as int), delay) == Some(out@),
        decreases n - i,
    {
        let c = source.get_char(i);
        let ghost pre = source@.subrange(0, i as int);
        let ghost next = source@.subrange(0, i + 1);
        assert(next.drop_last() =~= pre);
        assert(next.last() == c);
        let ghost before = out@;
        let ctrl = KeyCode(KEY_LEFTCTRL);
        let shift = KeyCode(KEY_LEFTSHIFT);
        let u = KeyCode(KEY_U);
        out.push(InputResult::Press(ctrl));
        out.push(InputResult::Press(shift));
        out.push(InputResult::Press(u));
        out.push(InputResult::Hold(ctrl));
        out.push(InputResult::Hold(shift));
        out.push(InputResult::Hold(u));
        out.push(InputResult::Release(ctrl));
        out.push(InputResult::Release(shift));
        out.push(InputResult::Release(u));
        assert(out@ =~= before + unicode_prefix());
        let digits = hex_of(c as u32);
        let mut j: usize = 0;
        while j < digits.len()
            invariant
                j <= digits@.len(),
                i < n,
                n == source@.len(),
                next == source@.subrange(0, i + 1),
                next.drop_last() == pre,
                next.last() == c,
                digits@ == hex_digits(c as u32 as nat),
                string_results(digits@.subrange(0, j as int)) matches Some(v) && out@ == before + unicode_prefix() + v,
            decreases digits.len() - j,
        {
            let d = digits[j];
            let ghost dpre = digits@.subrange(0, j as int);
            let ghost dnext = digits@.subrange(0, j + 1);
            assert(dnext.drop_last() =~= dpre);
            assert(dnext.last() == d);
            let ghost v0 = string_results(dpre)->0;
            match push_char_results(&mut out, d) {
                Ok(()) => {
                    assert(out@ =~= before + unicode_prefix() + (v0 + char_results(d)->0));
                },
                Err(e) => {
                    proof {
                        lemma_string_results_prefix_none(digits@, j + 1);
                        assert(code_point_results(c, delay) is None);
                        lemma_unicode_results_prefix_none(source@, delay, i + 1);
                    }
                    return Err(e);
                },
            }
            j = j + 1;
        }
        assert(digits@.subrange(0, digits@.len() as int) =~= digits@);
        let ghost v = string_results(digits@)->0;
        let enter = KeyCode(KEY_ENTER);
        out.push(InputResult::Press(enter));
        out.push(InputResult::Release(enter));
        out.push(InputResult::Delay(delay as u32));
        assert(out@ =~= before + (unicode_prefix() + v + seq![
            InputResult::Press(KeyCode(KEY_ENTER)),
            InputResult::Release(KeyCode(KEY_ENTER)),
            InputResult::Delay(delay as u32),
        ]));
        i = i + 1;
    }
    assert(source@.subrange(0, n as int) =~= source@);
    Ok(out)
}

/// Whether `c` has the Unicode White_Space property: tab to carriage
/// return, space, next line, no-break space, ogham space mark, the spaces
/// from en quad to hair space, line and paragraph separators, narrow
/// no-break space, medium mathematical space and ideographic space.
pub open spec fn unicode_white_space(c: char) -> bool {
    let v = c as u32;
    (0x09 <= v && v <= 0x0d) || v == 0x20 || v == 0x85 || v == 0xa0 || v == 0x1680
        || (0x2000 <= v && v <= 0x200a) || v == 0x2028 || v == 0x2029 || v == 0x202f || v == 0x205f
        || v == 0x3000
}

fn is_space(c: char) -> (r: bool)
    ensures
        r == unicode_white_space(c),
{
    let v = c as u32;
    (0x09 <= v && v <= 0x0d) || v == 0x20 || v == 0x85 || v == 0xa0 || v == 0x1680
        || (0x2000 <= v && v <= 0x200a) || v == 0x2028 || v == 0x2029 || v == 0x202f || v == 0x205f
        || v == 0x3000
}

/// `s` without its trailing whitespace.
pub open spec fn trim_trailing(s: Seq<char>) -> Seq<char>
    decreases s.len(),
{
    if s.len() > 0 && unicode_white_space(s.last()) {
        trim_trailing(s.drop_last())
    } else {
        s
    }
}

/// The key results for a command's output, with its trailing whitespace
/// removed first where `trim` is set.
pub fn command_to_input(output: &str, trim: Option<bool>) -> (r: Result<Vec<InputResult>, EngineError>)
    ensures
        ({
            let text = if trim == Some(true) { trim_trailing(output@) } else { output@ };
            &&& string_results(text) matches Some(v) ==> (r matches Ok(w) && w@ == v)
            &&& string_results(text) is None ==> r matches Err(EngineError::InvalidCharacter(_))
        }),
{
    let n = output.unicode_len();
    let mut end: usize = n;
    if trim == Some(true) {
        assert(output@.subrange(0, n as int) =~= output@);
        while end > 0 && is_space(output.get_char(end - 1))
            invariant
                end <= n,
                n == output@.len(),
                trim_trailing(output@) == trim_trailing(output@.subrange(0, end as int)),
            decreases end,
        {
            let ghost s = output@.subrange(0, end as int);
            assert(s.drop_last() =~= output@.subrange(0, end - 1));
            end = end - 1;
        }
    }
    let text = output.substring_char(0, end);
    assert(text@ =~= output@.subrange(0, end as int));
    proof {
        if trim == Some(true) {
            let s = output@.subrange(0, end as int);
            assert(!(s.len() > 0 && unicode_white_space(s.last())));
        } else {
            assert(output@.subrange(0, n as int) =~= output@);
        }
    }
    string_to_input(text)
}


} // verus!
