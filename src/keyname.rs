use crate::input::{
    is_ascii_digit, is_ascii_lower, is_ascii_upper, to_upper, KEY_0, KEY_1, KEY_2, KEY_3, KEY_4, KEY_5, KEY_6,
    KEY_7, KEY_8, KEY_9, KEY_APOSTROPHE, KEY_BACKSLASH, KEY_COMMA, KEY_DOT, KEY_EQUAL, KEY_GRAVE, KEY_LEFTBRACE,
    KEY_MINUS, KEY_RIGHTBRACE, KEY_SEMICOLON, KEY_SLASH,
};
use crate::keycode::{KeyCode, SAFE_KEYCODE_START, SHIFTED_KEYCODE_START};
use vstd::prelude::*;
use vstd::string::*;

verus! {

/// The kernel code that evdev's name table gives to a key name.
pub uninterp spec fn key_code_named(name: Seq<char>) -> Option<u16>;

/// The kernel code of the key named `KEY_<c>`, for an upper-case ASCII
/// letter or a digit `c` (US layout scan codes).
pub open spec fn alnum_code(c: char) -> u16 {
    if c == '0' {
        11
    } else if c == '1' {
        2
    } else if c == '2' {
        3
    } else if c == '3' {
        4
    } else if c == '4' {
        5
    } else if c == '5' {
        6
    } else if c == '6' {
        7
    } else if c == '7' {
        8
    } else if c == '8' {
        9
    } else if c == '9' {
        10
    } else if c == 'A' {
        30
    } else if c == 'B' {
        48
    } else if c == 'C' {
        46
    } else if c == 'D' {
        32
    } else if c == 'E' {
        18
    } else if c == 'F' {
        33
    } else if c == 'G' {
        34
    } else if c == 'H' {
        35
    } else if c == 'I' {
        23
    } else if c == 'J' {
        36
    } else if c == 'K' {
        37
    } else if c == 'L' {
        38
    } else if c == 'M' {
        50
    } else if c == 'N' {
        49
    } else if c == 'O' {
        24
    } else if c == 'P' {
        25
    } else if c == 'Q' {
        16
    } else if c == 'R' {
        19
    } else if c == 'S' {
        31
    } else if c == 'T' {
        20
    } else if c == 'U' {
        22
    } else if c == 'V' {
        47
    } else if c == 'W' {
        17
    } else if c == 'X' {
        45
    } else if c == 'Y' {
        21
    } else if c == 'Z' {
        44
    } else {
        0
    }
}

/// Relies on evdev's `KeyCode::from_str`, which looks a kernel key name
/// (`KEY_A`, `KEY_LEFTSHIFT`, ...) up in evdev's fixed name table.
#[verifier::external_body]
pub(crate) fn key_code_by_name(name: &str) -> (r: Option<u16>)
    ensures
        r == key_code_named(name@),
        name@.len() == 5 && name@[0] == 'K' && name@[1] == 'E' && name@[2] == 'Y' && name@[3] == '_'
            && (is_ascii_upper(name@[4]) || is_ascii_digit(name@[4])) ==> r == Some(alnum_code(name@[4])),
{
    match <evdev::KeyCode as std::str::FromStr>::from_str(name) {
        Ok(k) => Some(k.code()),
        Err(_) => None,
    }
}

/// The kernel name of the key for an ASCII letter or digit.
pub fn alnum_key_name(c: char) -> (r: &'static str)
    requires
        is_ascii_upper(c) || is_ascii_lower(c) || is_ascii_digit(c),
    ensures
        r@ == seq!['K', 'E', 'Y', '_', to_upper(c)],
{
    match c {
        'A' | 'a' => {
            proof {
                reveal_strlit("KEY_A");
            }
            "KEY_A"
        },
        'B' | 'b' => {
            proof {
                reveal_strlit("KEY_B");
            }
            "KEY_B"
        },
        'C' | 'c' => {
            proof {
                reveal_strlit("KEY_C");
            }
            "KEY_C"
        },
        'D' | 'd' => {
            proof {
                reveal_strlit("KEY_D");
            }
            "KEY_D"
        },
        'E' | 'e' => {
            proof {
                reveal_strlit("KEY_E");
            }
            "KEY_E"
        },
        'F' | 'f' => {
            proof {
                reveal_strlit("KEY_F");
            }
            "KEY_F"
        },
        'G' | 'g' => {
            proof {
                reveal_strlit("KEY_G");
            }
            "KEY_G"
        },
        'H' | 'h' => {
            proof {
                reveal_strlit("KEY_H");
            }
            "KEY_H"
        },
        'I' | 'i' => {
            proof {
                reveal_strlit("KEY_I");
            }
            "KEY_I"
        },
        'J' | 'j' => {
            proof {
                reveal_strlit("KEY_J");
            }
            "KEY_J"
        },
        'K' | 'k' => {
            proof {
                reveal_strlit("KEY_K");
            }
            "KEY_K"
        },
        'L' | 'l' => {
            proof {
                reveal_strlit("KEY_L");
            }
            "KEY_L"
        },
        'M' | 'm' => {
            proof {
                reveal_strlit("KEY_M");
            }
            "KEY_M"
        },
        'N' | 'n' => {
            proof {
                reveal_strlit("KEY_N");
            }
            "KEY_N"
        },
        'O' | 'o' => {
            proof {
                reveal_strlit("KEY_O");
            }
            "KEY_O"
        },
        'P' | 'p' => {
            proof {
                reveal_strlit("KEY_P");
            }
            "KEY_P"
        },
        'Q' | 'q' => {
            proof {
                reveal_strlit("KEY_Q");
            }
            "KEY_Q"
        },
        'R' | 'r' => {
            proof {
                reveal_strlit("KEY_R");
            }
            "KEY_R"
        },
        'S' | 's' => {
            proof {
                reveal_strlit("KEY_S");
            }
            "KEY_S"
        },
        'T' | 't' => {
            proof {
                reveal_strlit("KEY_T");
            }
            "KEY_T"
        },
        'U' | 'u' => {
            proof {
                reveal_strlit("KEY_U");
            }
            "KEY_U"
        },
        'V' | 'v' => {
            proof {
                reveal_strlit("KEY_V");
            }
            "KEY_V"
        },
        'W' | 'w' => {
            proof {
                reveal_strlit("KEY_W");
            }
            "KEY_W"
        },
        'X' | 'x' => {
            proof {
                reveal_strlit("KEY_X");
            }
            "KEY_X"
        },
        'Y' | 'y' => {
            proof {
                reveal_strlit("KEY_Y");
            }
            "KEY_Y"
        },
        'Z' | 'z' => {
            proof {
                reveal_strlit("KEY_Z");
            }
            "KEY_Z"
        },
        '0' => {
            proof {
                reveal_strlit("KEY_0");
            }
            "KEY_0"
        },
        '1' => {
            proof {
                reveal_strlit("KEY_1");
            }
            "KEY_1"
        },
        '2' => {
            proof {
                reveal_strlit("KEY_2");
            }
            "KEY_2"
        },
        '3' => {
            proof {
                reveal_strlit("KEY_3");
            }
            "KEY_3"
        },
        '4' => {
            proof {
                reveal_strlit("KEY_4");
            }
            "KEY_4"
        },
        '5' => {
            proof {
                reveal_strlit("KEY_5");
            }
            "KEY_5"
        },
        '6' => {
            proof {
                reveal_strlit("KEY_6");
            }
            "KEY_6"
        },
        '7' => {
            proof {
                reveal_strlit("KEY_7");
            }
            "KEY_7"
        },
        '8' => {
            proof {
                reveal_strlit("KEY_8");
            }
            "KEY_8"
        },
        '9' => {
            proof {
                reveal_strlit("KEY_9");
            }
            "KEY_9"
        },
        _ => {
            proof {
                reveal_strlit("KEY_9");
            }
            "KEY_9"
        },
    }
}

/// Whether two strings hold the same characters.
pub fn str_eq(a: &str, b: &str) -> (r: bool)
    ensures
        r == (a@ == b@),
{
    let n = a.unicode_len();
    if n != b.unicode_len() {
        return false;
    }
    let mut i: usize = 0;
    while i < n
        invariant
            n == a@.len(),
            n == b@.len(),
            i <= n,
            a@.subrange(0, i as int) == b@.subrange(0, i as int),
        decreases n - i,
    {
        if a.get_char(i) != b.get_char(i) {
            assert(a@[i as int] != b@[i as int]);
            return false;
        }
        assert(a@.subrange(0, i + 1) =~= a@.subrange(0, i as int).push(a@[i as int]));
        assert(b@.subrange(0, i + 1) =~= b@.subrange(0, i as int).push(b@[i as int]));
        i = i + 1;
    }
    assert(a@.subrange(0, n as int) =~= a@);
    assert(b@.subrange(0, n as int) =~= b@);
    true
}

/// The physical key behind a shifted alias name (`KEY_EXCLAMATION` is
/// shift and `KEY_1`).
pub open spec fn shifted_alias(name: Seq<char>) -> Option<u16> {
    if name == "KEY_EXCLAMATION"@ {
        Some(KEY_1)
    } else if name == "KEY_AT"@ {
        Some(KEY_2)
    } else if name == "KEY_HASH"@ {
        Some(KEY_3)
    } else if name == "KEY_DOLLARSIGN"@ {
        Some(KEY_4)
    } else if name == "KEY_PERCENT"@ {
        Some(KEY_5)
    } else if name == "KEY_CARET"@ {
        Some(KEY_6)
    } else if name == "KEY_AMPERSAND"@ {
        Some(KEY_7)
    } else if name == "KEY_STAR"@ {
        Some(KEY_8)
    } else if name == "KEY_LEFTPAREN"@ {
        Some(KEY_9)
    } else if name == "KEY_RIGHTPAREN"@ {
        Some(KEY_0)
    } else if name == "KEY_UNDERSCORE"@ {
        Some(KEY_MINUS)
    } else if name == "KEY_PLUS"@ {
        Some(KEY_EQUAL)
    } else if name == "KEY_LEFTCURLY"@ {
        Some(KEY_LEFTBRACE)
    } else if name == "KEY_RIGHTCURLY"@ {
        Some(KEY_RIGHTBRACE)
    } else if name == "KEY_COLON"@ {
        Some(KEY_SEMICOLON)
    } else if name == "KEY_DOUBLEQUOTE"@ {
        Some(KEY_APOSTROPHE)
    } else if name == "KEY_LESS"@ {
        Some(KEY_COMMA)
    } else if name == "KEY_GREATER"@ {
        Some(KEY_DOT)
    } else if name == "KEY_QUESTION"@ {
        Some(KEY_SLASH)
    } else if name == "KEY_TILDE"@ {
        Some(KEY_GRAVE)
    } else if name == "KEY_PIPE"@ {
        Some(KEY_BACKSLASH)
    } else {
        None
    }
}

/// The physical key behind a shifted alias name.
pub fn shifted_alias_of(name: &str) -> (r: Option<u16>)
    ensures
        r == shifted_alias(name@),
{
    if str_eq(name, "KEY_EXCLAMATION") {
        Some(KEY_1)
    } else if str_eq(name, "KEY_AT") {
        Some(KEY_2)
    } else if str_eq(name, "KEY_HASH") {
        Some(KEY_3)
    } else if str_eq(name, "KEY_DOLLARSIGN") {
        Some(KEY_4)
    } else if str_eq(name, "KEY_PERCENT") {
        Some(KEY_5)
    } else if str_eq(name, "KEY_CARET") {
        Some(KEY_6)
    } else if str_eq(name, "KEY_AMPERSAND") {
        Some(KEY_7)
    } else if str_eq(name, "KEY_STAR") {
        Some(KEY_8)
    } else if str_eq(name, "KEY_LEFTPAREN") {
        Some(KEY_9)
    } else if str_eq(name, "KEY_RIGHTPAREN") {
        Some(KEY_0)
    } else if str_eq(name, "KEY_UNDERSCORE") {
        Some(KEY_MINUS)
    } else if str_eq(name, "KEY_PLUS") {
        Some(KEY_EQUAL)
    } else if str_eq(name, "KEY_LEFTCURLY") {
        Some(KEY_LEFTBRACE)
    } else if str_eq(name, "KEY_RIGHTCURLY") {
        Some(KEY_RIGHTBRACE)
    } else if str_eq(name, "KEY_COLON") {
        Some(KEY_SEMICOLON)
    } else if str_eq(name, "KEY_DOUBLEQUOTE") {
        Some(KEY_APOSTROPHE)
    } else if str_eq(name, "KEY_LESS") {
        Some(KEY_COMMA)
    } else if str_eq(name, "KEY_GREATER") {
        Some(KEY_DOT)
    } else if str_eq(name, "KEY_QUESTION") {
        Some(KEY_SLASH)
    } else if str_eq(name, "KEY_TILDE") {
        Some(KEY_GRAVE)
    } else if str_eq(name, "KEY_PIPE") {
        Some(KEY_BACKSLASH)
    } else {
        None
    }
}

/// The code that `name` resolves to when `custom` holds the custom names
/// allocated so far: a shifted alias, else a kernel key name, else a custom
/// code from 999 up (a name seen before keeps its code).
pub open spec fn resolved_code(custom: Seq<Seq<char>>, name: Seq<char>) -> u16 {
    match shifted_alias(name) {
        Some(k) => (SHIFTED_KEYCODE_START + k) as u16,
        None => match key_code_named(name) {
            Some(k) => k,
            None => match custom.index_of_first(name) {
                Some(i) => (SAFE_KEYCODE_START + i) as u16,
                None => (SAFE_KEYCODE_START + custom.len()) as u16,
            },
        },
    }
}

/// A new custom name is recorded; nothing else changes the custom names.
pub open spec fn allocated(custom: Seq<Seq<char>>, name: Seq<char>) -> Seq<Seq<char>> {
    if shifted_alias(name) is None && key_code_named(name) is None && !custom.contains(name) {
        custom.push(name)
    } else {
        custom
    }
}

/// Resolves key names while one configuration is read, handing out custom
/// codes from 999 up in the order the names are first seen.
#[derive(Debug)]
pub struct KeyCodeAllocator {
    names: Vec<String>,
}

impl KeyCodeAllocator {
    /// The custom names allocated so far, in order.
    pub closed spec fn custom(&self) -> Seq<Seq<char>> {
        self.names@.map_values(|s: String| s@)
    }

    pub fn new() -> (r: Self)
        ensures
            r.custom().len() == 0,
    {
        let r = KeyCodeAllocator { names: Vec::new() };
        assert(r.custom() =~= Seq::<Seq<char>>::empty());
        r
    }

    /// How many custom codes have been handed out.
    pub fn len(&self) -> (r: usize)
        ensures
            r == self.custom().len(),
    {
        self.names.len()
    }

    /// The code of the key named `name`.
    pub fn resolve(&mut self, name: &str) -> (r: KeyCode)
        requires
            old(self).custom().len() < 64536,
        ensures
            r.0 == resolved_code(old(self).custom(), name@),
            final(self).custom() == allocated(old(self).custom(), name@),
    {
        if let Some(k) = shifted_alias_of(name) {
            return KeyCode(SHIFTED_KEYCODE_START + k);
        }
        if let Some(k) = key_code_by_name(name) {
            return KeyCode(k);
        }
        let mut i: usize = 0;
        while i < self.names.len()
            invariant
                i <= self.names@.len(),
                self.custom() == old(self).custom(),
                self.names@.len() == self.custom().len(),
                self.names@.len() < 64536,
                shifted_alias(name@) is None,
                key_code_named(name@) is None,
                forall|j: int| 0 <= j < i ==> self.custom()[j] != name@,
            decreases self.names.len() - i,
        {
            if str_eq(self.names[i].as_str(), name) {
                proof {
                    let c = self.custom();
                    assert(c[i as int] == name@);
                    c.index_of_first_ensures(name@);
                    assert(c.contains(name@));
                    let k = c.index_of_first(name@)->Some_0;
                    if k < i {
                        assert(c[k] != name@);
                    }
                    if k > i {
                        assert(c[i as int] != name@);
                    }
                    assert(k == i);
                }
                return KeyCode(SAFE_KEYCODE_START + i as u16);
            }
            i = i + 1;
        }
        proof {
            self.custom().index_of_first_ensures(name@);
        }
        assert(!self.custom().contains(name@));
        let n = self.names.len();
        self.names.push(String::from_str(name));
        assert(self.custom() =~= old(self).custom().push(name@));
        KeyCode(SAFE_KEYCODE_START + n as u16)
    }
}

} // verus!
