//! The static table of key-code names: the keyboard block of the
//! platform's published input constants.  As with the type table, the
//! mapping is a closed set of static data: a code outside it is a fatal
//! decode error for the record that carries it.

use vstd::prelude::*;

verus! {

/// Whether a code value lies in the table.
pub open spec fn is_known_code(c: u16) -> bool {
    c <= 119 && c != 84
}

/// The symbolic name of a known code; empty outside the table.
pub open spec fn spec_code_name(c: u16) -> Seq<char> {
    if c == 0 {
        "KEY_RESERVED"@
    } else if c == 1 {
        "KEY_ESC"@
    } else if c == 2 {
        "KEY_1"@
    } else if c == 3 {
        "KEY_2"@
    } else if c == 4 {
        "KEY_3"@
    } else if c == 5 {
        "KEY_4"@
    } else if c == 6 {
        "KEY_5"@
    } else if c == 7 {
        "KEY_6"@
    } else if c == 8 {
        "KEY_7"@
    } else if c == 9 {
        "KEY_8"@
    } else if c == 10 {
        "KEY_9"@
    } else if c == 11 {
        "KEY_0"@
    } else if c == 12 {
        "KEY_MINUS"@
    } else if c == 13 {
        "KEY_EQUAL"@
    } else if c == 14 {
        "KEY_BACKSPACE"@
    } else if c == 15 {
        "KEY_TAB"@
    } else if c == 16 {
        "KEY_Q"@
    } else if c == 17 {
        "KEY_W"@
    } else if c == 18 {
        "KEY_E"@
    } else if c == 19 {
        "KEY_R"@
    } else if c == 20 {
        "KEY_T"@
    } else if c == 21 {
        "KEY_Y"@
    } else if c == 22 {
        "KEY_U"@
    } else if c == 23 {
        "KEY_I"@
    } else if c == 24 {
        "KEY_O"@
    } else if c == 25 {
        "KEY_P"@
    } else if c == 26 {
        "KEY_LEFTBRACE"@
    } else if c == 27 {
        "KEY_RIGHTBRACE"@
    } else if c == 28 {
        "KEY_ENTER"@
    } else if c == 29 {
        "KEY_LEFTCTRL"@
    } else if c == 30 {
        "KEY_A"@
    } else if c == 31 {
        "KEY_S"@
    } else if c == 32 {
        "KEY_D"@
    } else if c == 33 {
        "KEY_F"@
    } else if c == 34 {
        "KEY_G"@
    } else if c == 35 {
        "KEY_H"@
    } else if c == 36 {
        "KEY_J"@
    } else if c == 37 {
        "KEY_K"@
    } else if c == 38 {
        "KEY_L"@
    } else if c == 39 {
        "KEY_SEMICOLON"@
    } else if c == 40 {
        "KEY_APOSTROPHE"@
    } else if c == 41 {
        "KEY_GRAVE"@
    } else if c == 42 {
        "KEY_LEFTSHIFT"@
    } else if c == 43 {
        "KEY_BACKSLASH"@
    } else if c == 44 {
        "KEY_Z"@
    } else if c == 45 {
        "KEY_X"@
    } else if c == 46 {
        "KEY_C"@
    } else if c == 47 {
        "KEY_V"@
    } else if c == 48 {
        "KEY_B"@
    } else if c == 49 {
        "KEY_N"@
    } else if c == 50 {
        "KEY_M"@
    } else if c == 51 {
        "KEY_COMMA"@
    } else if c == 52 {
        "KEY_DOT"@
    } else if c == 53 {
        "KEY_SLASH"@
    } else if c == 54 {
        "KEY_RIGHTSHIFT"@
    } else if c == 55 {
        "KEY_KPASTERISK"@
    } else if c == 56 {
        "KEY_LEFTALT"@
    } else if c == 57 {
        "KEY_SPACE"@
    } else if c == 58 {
        "KEY_CAPSLOCK"@
    } else if c == 59 {
        "KEY_F1"@
    } else if c == 60 {
        "KEY_F2"@
    } else if c == 61 {
        "KEY_F3"@
    } else if c == 62 {
        "KEY_F4"@
    } else if c == 63 {
        "KEY_F5"@
    } else if c == 64 {
        "KEY_F6"@
    } else if c == 65 {
        "KEY_F7"@
    } else if c == 66 {
        "KEY_F8"@
    } else if c == 67 {
        "KEY_F9"@
    } else if c == 68 {
        "KEY_F10"@
    } else if c == 69 {
        "KEY_NUMLOCK"@
    } else if c == 70 {
        "KEY_SCROLLLOCK"@
    } else if c == 71 {
        "KEY_KP7"@
    } else if c == 72 {
        "KEY_KP8"@
    } else if c == 73 {
        "KEY_KP9"@
    } else if c == 74 {
        "KEY_KPMINUS"@
    } else if c == 75 {
        "KEY_KP4"@
    } else if c == 76 {
        "KEY_KP5"@
    } else if c == 77 {
        "KEY_KP6"@
    } else if c == 78 {
        "KEY_KPPLUS"@
    } else if c == 79 {
        "KEY_KP1"@
    } else if c == 80 {
        "KEY_KP2"@
    } else if c == 81 {
        "KEY_KP3"@
    } else if c == 82 {
        "KEY_KP0"@
    } else if c == 83 {
        "KEY_KPDOT"@
    } else if c == 85 {
        "KEY_ZENKAKUHANKAKU"@
    } else if c == 86 {
        "KEY_102ND"@
    } else if c == 87 {
        "KEY_F11"@
    } else if c == 88 {
        "KEY_F12"@
    } else if c == 89 {
        "KEY_RO"@
    } else if c == 90 {
        "KEY_KATAKANA"@
    } else if c == 91 {
        "KEY_HIRAGANA"@
    } else if c == 92 {
        "KEY_HENKAN"@
    } else if c == 93 {
        "KEY_KATAKANAHIRAGANA"@
    } else if c == 94 {
        "KEY_MUHENKAN"@
    } else if c == 95 {
        "KEY_KPJPCOMMA"@
    } else if c == 96 {
        "KEY_KPENTER"@
    } else if c == 97 {
        "KEY_RIGHTCTRL"@
    } else if c == 98 {
        "KEY_KPSLASH"@
    } else if c == 99 {
        "KEY_SYSRQ"@
    } else if c == 100 {
        "KEY_RIGHTALT"@
    } else if c == 101 {
        "KEY_LINEFEED"@
    } else if c == 102 {
        "KEY_HOME"@
    } else if c == 103 {
        "KEY_UP"@
    } else if c == 104 {
        "KEY_PAGEUP"@
    } else if c == 105 {
        "KEY_LEFT"@
    } else if c == 106 {
        "KEY_RIGHT"@
    } else if c == 107 {
        "KEY_END"@
    } else if c == 108 {
        "KEY_DOWN"@
    } else if c == 109 {
        "KEY_PAGEDOWN"@
    } else if c == 110 {
        "KEY_INSERT"@
    } else if c == 111 {
        "KEY_DELETE"@
    } else if c == 112 {
        "KEY_MACRO"@
    } else if c == 113 {
        "KEY_MUTE"@
    } else if c == 114 {
        "KEY_VOLUMEDOWN"@
    } else if c == 115 {
        "KEY_VOLUMEUP"@
    } else if c == 116 {
        "KEY_POWER"@
    } else if c == 117 {
        "KEY_KPEQUAL"@
    } else if c == 118 {
        "KEY_KPPLUSMINUS"@
    } else if c == 119 {
        "KEY_PAUSE"@
    } else {
        Seq::<char>::empty()
    }
}

/// The symbolic name of a key code from the table.
pub fn code(bytes: u16) -> (r: &'static str)
    requires
        is_known_code(bytes),
    ensures
        r@ == spec_code_name(bytes),
{
    if bytes == 0 {
        "KEY_RESERVED"
    } else if bytes == 1 {
        "KEY_ESC"
    } else if bytes == 2 {
        "KEY_1"
    } else if bytes == 3 {
        "KEY_2"
    } else if bytes == 4 {
        "KEY_3"
    } else if bytes == 5 {
        "KEY_4"
    } else if bytes == 6 {
        "KEY_5"
    } else if bytes == 7 {
        "KEY_6"
    } else if bytes == 8 {
        "KEY_7"
    } else if bytes == 9 {
        "KEY_8"
    } else if bytes == 10 {
        "KEY_9"
    } else if bytes == 11 {
        "KEY_0"
    } else if bytes == 12 {
        "KEY_MINUS"
    } else if bytes == 13 {
        "KEY_EQUAL"
    } else if bytes == 14 {
        "KEY_BACKSPACE"
    } else if bytes == 15 {
        "KEY_TAB"
    } else if bytes == 16 {
        "KEY_Q"
    } else if bytes == 17 {
        "KEY_W"
    } else if bytes == 18 {
        "KEY_E"
    } else if bytes == 19 {
        "KEY_R"
    } else if bytes == 20 {
        "KEY_T"
    } else if bytes == 21 {
        "KEY_Y"
    } else if bytes == 22 {
        "KEY_U"
    } else if bytes == 23 {
        "KEY_I"
    } else if bytes == 24 {
        "KEY_O"
    } else if bytes == 25 {
        "KEY_P"
    } else if bytes == 26 {
        "KEY_LEFTBRACE"
    } else if bytes == 27 {
        "KEY_RIGHTBRACE"
    } else if bytes == 28 {
        "KEY_ENTER"
    } else if bytes == 29 {
        "KEY_LEFTCTRL"
    } else if bytes == 30 {
        "KEY_A"
    } else if bytes == 31 {
        "KEY_S"
    } else if bytes == 32 {
        "KEY_D"
    } else if bytes == 33 {
        "KEY_F"
    } else if bytes == 34 {
        "KEY_G"
    } else if bytes == 35 {
        "KEY_H"
    } else if bytes == 36 {
        "KEY_J"
    } else if bytes == 37 {
        "KEY_K"
    } else if bytes == 38 {
        "KEY_L"
    } else if bytes == 39 {
        "KEY_SEMICOLON"
    } else if bytes == 40 {
        "KEY_APOSTROPHE"
    } else if bytes == 41 {
        "KEY_GRAVE"
    } else if bytes == 42 {
        "KEY_LEFTSHIFT"
    } else if bytes == 43 {
        "KEY_BACKSLASH"
    } else if bytes == 44 {
        "KEY_Z"
    } else if bytes == 45 {
        "KEY_X"
    } else if bytes == 46 {
        "KEY_C"
    } else if bytes == 47 {
        "KEY_V"
    } else if bytes == 48 {
        "KEY_B"
    } else if bytes == 49 {
        "KEY_N"
    } else if bytes == 50 {
        "KEY_M"
    } else if bytes == 51 {
        "KEY_COMMA"
    } else if bytes == 52 {
        "KEY_DOT"
    } else if bytes == 53 {
        "KEY_SLASH"
    } else if bytes == 54 {
        "KEY_RIGHTSHIFT"
    } else if bytes == 55 {
        "KEY_KPASTERISK"
    } else if bytes == 56 {
        "KEY_LEFTALT"
    } else if bytes == 57 {
        "KEY_SPACE"
    } else if bytes == 58 {
        "KEY_CAPSLOCK"
    } else if bytes == 59 {
        "KEY_F1"
    } else if bytes == 60 {
        "KEY_F2"
    } else if bytes == 61 {
        "KEY_F3"
    } else if bytes == 62 {
        "KEY_F4"
    } else if bytes == 63 {
        "KEY_F5"
    } else if bytes == 64 {
        "KEY_F6"
    } else if bytes == 65 {
        "KEY_F7"
    } else if bytes == 66 {
        "KEY_F8"
    } else if bytes == 67 {
        "KEY_F9"
    } else if bytes == 68 {
        "KEY_F10"
    } else if bytes == 69 {
        "KEY_NUMLOCK"
    } else if bytes == 70 {
        "KEY_SCROLLLOCK"
    } else if bytes == 71 {
        "KEY_KP7"
    } else if bytes == 72 {
        "KEY_KP8"
    } else if bytes == 73 {
        "KEY_KP9"
    } else if bytes == 74 {
        "KEY_KPMINUS"
    } else if bytes == 75 {
        "KEY_KP4"
    } else if bytes == 76 {
        "KEY_KP5"
    } else if bytes == 77 {
        "KEY_KP6"
    } else if bytes == 78 {
        "KEY_KPPLUS"
    } else if bytes == 79 {
        "KEY_KP1"
    } else if bytes == 80 {
        "KEY_KP2"
    } else if bytes == 81 {
        "KEY_KP3"
    } else if bytes == 82 {
        "KEY_KP0"
    } else if bytes == 83 {
        "KEY_KPDOT"
    } else if bytes == 85 {
        "KEY_ZENKAKUHANKAKU"
    } else if bytes == 86 {
        "KEY_102ND"
    } else if bytes == 87 {
        "KEY_F11"
    } else if bytes == 88 {
        "KEY_F12"
    } else if bytes == 89 {
        "KEY_RO"
    } else if bytes == 90 {
        "KEY_KATAKANA"
    } else if bytes == 91 {
        "KEY_HIRAGANA"
    } else if bytes == 92 {
        "KEY_HENKAN"
    } else if bytes == 93 {
        "KEY_KATAKANAHIRAGANA"
    } else if bytes == 94 {
        "KEY_MUHENKAN"
    } else if bytes == 95 {
        "KEY_KPJPCOMMA"
    } else if bytes == 96 {
        "KEY_KPENTER"
    } else if bytes == 97 {
        "KEY_RIGHTCTRL"
    } else if bytes == 98 {
        "KEY_KPSLASH"
    } else if bytes == 99 {
        "KEY_SYSRQ"
    } else if bytes == 100 {
        "KEY_RIGHTALT"
    } else if bytes == 101 {
        "KEY_LINEFEED"
    } else if bytes == 102 {
        "KEY_HOME"
    } else if bytes == 103 {
        "KEY_UP"
    } else if bytes == 104 {
        "KEY_PAGEUP"
    } else if bytes == 105 {
        "KEY_LEFT"
    } else if bytes == 106 {
        "KEY_RIGHT"
    } else if bytes == 107 {
        "KEY_END"
    } else if bytes == 108 {
        "KEY_DOWN"
    } else if bytes == 109 {
        "KEY_PAGEDOWN"
    } else if bytes == 110 {
        "KEY_INSERT"
    } else if bytes == 111 {
        "KEY_DELETE"
    } else if bytes == 112 {
        "KEY_MACRO"
    } else if bytes == 113 {
        "KEY_MUTE"
    } else if bytes == 114 {
        "KEY_VOLUMEDOWN"
    } else if bytes == 115 {
        "KEY_VOLUMEUP"
    } else if bytes == 116 {
        "KEY_POWER"
    } else if bytes == 117 {
        "KEY_KPEQUAL"
    } else if bytes == 118 {
        "KEY_KPPLUSMINUS"
    } else if bytes == 119 {
        "KEY_PAUSE"
    } else {
        assert(false);
        ""
    }
}

/// As `code`, for any value: nothing outside the table.
pub fn code_name(bytes: u16) -> (r: Option<&'static str>)
    ensures
        match r {
            Some(s) => is_known_code(bytes) && s@ == spec_code_name(bytes),
            None => !is_known_code(bytes),
        },
{
    if bytes <= 119 && bytes != 84 {
        Some(code(bytes))
    } else {
        None
    }
}

} // verus!
