use vstd::prelude::*;

verus! {

/// A physical key, named after the virtual key code that the keyboard driver
/// reports for it. `Null` stands for "no key": it is what a press of a bare
/// modifier, or a code that names no key, is read as.
#[allow(non_camel_case_types)]
#[derive(Clone, Copy, PartialEq, Eq, Debug, PartialOrd, Ord, Hash, Structural)]
pub enum KeyCode {
    kVK_ANSI_A,
    kVK_ANSI_S,
    kVK_ANSI_D,
    kVK_ANSI_F,
    kVK_ANSI_H,
    kVK_ANSI_G,
    kVK_ANSI_Z,
    kVK_ANSI_X,
    kVK_ANSI_C,
    kVK_ANSI_V,
    kVK_ISO_Section,
    kVK_ANSI_B,
    kVK_ANSI_Q,
    kVK_ANSI_W,
    kVK_ANSI_E,
    kVK_ANSI_R,
    kVK_ANSI_Y,
    kVK_ANSI_T,
    kVK_ANSI_1,
    kVK_ANSI_2,
    kVK_ANSI_3,
    kVK_ANSI_4,
    kVK_ANSI_6,
    kVK_ANSI_5,
    kVK_ANSI_Equal,
    kVK_ANSI_9,
    kVK_ANSI_7,
    kVK_ANSI_Minus,
    kVK_ANSI_8,
    kVK_ANSI_0,
    kVK_ANSI_RightBracket,
    kVK_ANSI_O,
    kVK_ANSI_U,
    kVK_ANSI_LeftBracket,
    kVK_ANSI_I,
    kVK_ANSI_P,
    kVK_Return,
    kVK_ANSI_L,
    kVK_ANSI_J,
    kVK_ANSI_Quote,
    kVK_ANSI_K,
    kVK_ANSI_Semicolon,
    kVK_ANSI_Backslash,
    kVK_ANSI_Comma,
    kVK_ANSI_Slash,
    kVK_ANSI_N,
    kVK_ANSI_M,
    kVK_ANSI_Period,
    kVK_Tab,
    kVK_Space,
    kVK_ANSI_Grave,
    kVK_Delete,
    kVK_Escape,
    kVK_RightCommand,
    kVK_Command,
    kVK_Shift,
    kVK_CapsLock,
    kVK_Option,
    kVK_Control,
    kVK_RightShift,
    kVK_RightOption,
    kVK_RightControl,
    kVK_Function,
    kVK_F17,
    kVK_ANSI_KeypadDecimal,
    kVK_ANSI_KeypadMultiply,
    kVK_ANSI_KeypadPlus,
    kVK_ANSI_KeypadClear,
    kVK_VolumeUp,
    kVK_VolumeDown,
    kVK_Mute,
    kVK_ANSI_KeypadDivide,
    kVK_ANSI_KeypadEnter,
    kVK_ANSI_KeypadMinus,
    kVK_F18,
    kVK_F19,
    kVK_ANSI_KeypadEquals,
    kVK_ANSI_Keypad0,
    kVK_ANSI_Keypad1,
    kVK_ANSI_Keypad2,
    kVK_ANSI_Keypad3,
    kVK_ANSI_Keypad4,
    kVK_ANSI_Keypad5,
    kVK_ANSI_Keypad6,
    kVK_ANSI_Keypad7,
    kVK_F20,
    kVK_ANSI_Keypad8,
    kVK_ANSI_Keypad9,
    kVK_JIS_Yen,
    kVK_JIS_Underscore,
    kVK_JIS_KeypadComma,
    kVK_F5,
    kVK_F6,
    kVK_F7,
    kVK_F3,
    kVK_F8,
    kVK_F9,
    kVK_JIS_Eisu,
    kVK_F11,
    kVK_JIS_Kana,
    kVK_F13,
    kVK_F16,
    kVK_F14,
    kVK_F10,
    kVK_F12,
    kVK_F15,
    kVK_Help,
    kVK_Home,
    kVK_PageUp,
    kVK_ForwardDelete,
    kVK_F4,
    kVK_End,
    kVK_F2,
    kVK_PageDown,
    kVK_F1,
    kVK_LeftArrow,
    kVK_RightArrow,
    kVK_DownArrow,
    kVK_UpArrow,
    Null,
}

/// The code that stands for `KeyCode::Null`. No key of the keyboard reports it.
pub const NULL_CODE: u16 = 0xFFFF;

impl KeyCode {
    /// The virtual key code of a key.
    pub open spec fn spec_code(self) -> u16 {
        match self {
            KeyCode::kVK_ANSI_A => 0x00,
            KeyCode::kVK_ANSI_S => 0x01,
            KeyCode::kVK_ANSI_D => 0x02,
            KeyCode::kVK_ANSI_F => 0x03,
            KeyCode::kVK_ANSI_H => 0x04,
            KeyCode::kVK_ANSI_G => 0x05,
            KeyCode::kVK_ANSI_Z => 0x06,
            KeyCode::kVK_ANSI_X => 0x07,
            KeyCode::kVK_ANSI_C => 0x08,
            KeyCode::kVK_ANSI_V => 0x09,
            KeyCode::kVK_ISO_Section => 0x0A,
            KeyCode::kVK_ANSI_B => 0x0B,
            KeyCode::kVK_ANSI_Q => 0x0C,
            KeyCode::kVK_ANSI_W => 0x0D,
            KeyCode::kVK_ANSI_E => 0x0E,
            KeyCode::kVK_ANSI_R => 0x0F,
            KeyCode::kVK_ANSI_Y => 0x10,
            KeyCode::kVK_ANSI_T => 0x11,
            KeyCode::kVK_ANSI_1 => 0x12,
            KeyCode::kVK_ANSI_2 => 0x13,
            KeyCode::kVK_ANSI_3 => 0x14,
            KeyCode::kVK_ANSI_4 => 0x15,
            KeyCode::kVK_ANSI_6 => 0x16,
            KeyCode::kVK_ANSI_5 => 0x17,
            KeyCode::kVK_ANSI_Equal => 0x18,
            KeyCode::kVK_ANSI_9 => 0x19,
            KeyCode::kVK_ANSI_7 => 0x1A,
            KeyCode::kVK_ANSI_Minus => 0x1B,
            KeyCode::kVK_ANSI_8 => 0x1C,
            KeyCode::kVK_ANSI_0 => 0x1D,
            KeyCode::kVK_ANSI_RightBracket => 0x1E,
            KeyCode::kVK_ANSI_O => 0x1F,
            KeyCode::kVK_ANSI_U => 0x20,
            KeyCode::kVK_ANSI_LeftBracket => 0x21,
            KeyCode::kVK_ANSI_I => 0x22,
            KeyCode::kVK_ANSI_P => 0x23,
            KeyCode::kVK_Return => 0x24,
            KeyCode::kVK_ANSI_L => 0x25,
            KeyCode::kVK_ANSI_J => 0x26,
            KeyCode::kVK_ANSI_Quote => 0x27,
            KeyCode::kVK_ANSI_K => 0x28,
            KeyCode::kVK_ANSI_Semicolon => 0x29,
            KeyCode::kVK_ANSI_Backslash => 0x2A,
            KeyCode::kVK_ANSI_Comma => 0x2B,
            KeyCode::kVK_ANSI_Slash => 0x2C,
            KeyCode::kVK_ANSI_N => 0x2D,
            KeyCode::kVK_ANSI_M => 0x2E,
            KeyCode::kVK_ANSI_Period => 0x2F,
            KeyCode::kVK_Tab => 0x30,
            KeyCode::kVK_Space => 0x31,
            KeyCode::kVK_ANSI_Grave => 0x32,
            KeyCode::kVK_Delete => 0x33,
            KeyCode::kVK_Escape => 0x35,
            KeyCode::kVK_RightCommand => 0x36,
            KeyCode::kVK_Command => 0x37,
            KeyCode::kVK_Shift => 0x38,
            KeyCode::kVK_CapsLock => 0x39,
            KeyCode::kVK_Option => 0x3A,
            KeyCode::kVK_Control => 0x3B,
            KeyCode::kVK_RightShift => 0x3C,
            KeyCode::kVK_RightOption => 0x3D,
            KeyCode::kVK_RightControl => 0x3E,
            KeyCode::kVK_Function => 0x3F,
            KeyCode::kVK_F17 => 0x40,
            KeyCode::kVK_ANSI_KeypadDecimal => 0x41,
            KeyCode::kVK_ANSI_KeypadMultiply => 0x43,
            KeyCode::kVK_ANSI_KeypadPlus => 0x45,
            KeyCode::kVK_ANSI_KeypadClear => 0x47,
            KeyCode::kVK_VolumeUp => 0x48,
            KeyCode::kVK_VolumeDown => 0x49,
            KeyCode::kVK_Mute => 0x4A,
            KeyCode::kVK_ANSI_KeypadDivide => 0x4B,
            KeyCode::kVK_ANSI_KeypadEnter => 0x4C,
            KeyCode::kVK_ANSI_KeypadMinus => 0x4E,
            KeyCode::kVK_F18 => 0x4F,
            KeyCode::kVK_F19 => 0x50,
            KeyCode::kVK_ANSI_KeypadEquals => 0x51,
            KeyCode::kVK_ANSI_Keypad0 => 0x52,
            KeyCode::kVK_ANSI_Keypad1 => 0x53,
            KeyCode::kVK_ANSI_Keypad2 => 0x54,
            KeyCode::kVK_ANSI_Keypad3 => 0x55,
            KeyCode::kVK_ANSI_Keypad4 => 0x56,
            KeyCode::kVK_ANSI_Keypad5 => 0x57,
            KeyCode::kVK_ANSI_Keypad6 => 0x58,
            KeyCode::kVK_ANSI_Keypad7 => 0x59,
            KeyCode::kVK_F20 => 0x5A,
            KeyCode::kVK_ANSI_Keypad8 => 0x5B,
            KeyCode::kVK_ANSI_Keypad9 => 0x5C,
            KeyCode::kVK_JIS_Yen => 0x5D,
            KeyCode::kVK_JIS_Underscore => 0x5E,
            KeyCode::kVK_JIS_KeypadComma => 0x5F,
            KeyCode::kVK_F5 => 0x60,
            KeyCode::kVK_F6 => 0x61,
            KeyCode::kVK_F7 => 0x62,
            KeyCode::kVK_F3 => 0x63,
            KeyCode::kVK_F8 => 0x64,
            KeyCode::kVK_F9 => 0x65,
            KeyCode::kVK_JIS_Eisu => 0x66,
            KeyCode::kVK_F11 => 0x67,
            KeyCode::kVK_JIS_Kana => 0x68,
            KeyCode::kVK_F13 => 0x69,
            KeyCode::kVK_F16 => 0x6A,
            KeyCode::kVK_F14 => 0x6B,
            KeyCode::kVK_F10 => 0x6D,
            KeyCode::kVK_F12 => 0x6F,
            KeyCode::kVK_F15 => 0x71,
            KeyCode::kVK_Help => 0x72,
            KeyCode::kVK_Home => 0x73,
            KeyCode::kVK_PageUp => 0x74,
            KeyCode::kVK_ForwardDelete => 0x75,
            KeyCode::kVK_F4 => 0x76,
            KeyCode::kVK_End => 0x77,
            KeyCode::kVK_F2 => 0x78,
            KeyCode::kVK_PageDown => 0x79,
            KeyCode::kVK_F1 => 0x7A,
            KeyCode::kVK_LeftArrow => 0x7B,
            KeyCode::kVK_RightArrow => 0x7C,
            KeyCode::kVK_DownArrow => 0x7D,
            KeyCode::kVK_UpArrow => 0x7E,
            KeyCode::Null => NULL_CODE,
        }
    }

    /// The name of a key, as it is written in text.
    pub open spec fn spec_name(self) -> Seq<char> {
        match self {
            KeyCode::kVK_ANSI_A => "kVK_ANSI_A"@,
            KeyCode::kVK_ANSI_S => "kVK_ANSI_S"@,
            KeyCode::kVK_ANSI_D => "kVK_ANSI_D"@,
            KeyCode::kVK_ANSI_F => "kVK_ANSI_F"@,
            KeyCode::kVK_ANSI_H => "kVK_ANSI_H"@,
            KeyCode::kVK_ANSI_G => "kVK_ANSI_G"@,
            KeyCode::kVK_ANSI_Z => "kVK_ANSI_Z"@,
            KeyCode::kVK_ANSI_X => "kVK_ANSI_X"@,
            KeyCode::kVK_ANSI_C => "kVK_ANSI_C"@,
            KeyCode::kVK_ANSI_V => "kVK_ANSI_V"@,
            KeyCode::kVK_ISO_Section => "kVK_ISO_Section"@,
            KeyCode::kVK_ANSI_B => "kVK_ANSI_B"@,
            KeyCode::kVK_ANSI_Q => "kVK_ANSI_Q"@,
            KeyCode::kVK_ANSI_W => "kVK_ANSI_W"@,
            KeyCode::kVK_ANSI_E => "kVK_ANSI_E"@,
            KeyCode::kVK_ANSI_R => "kVK_ANSI_R"@,
            KeyCode::kVK_ANSI_Y => "kVK_ANSI_Y"@,
            KeyCode::kVK_ANSI_T => "kVK_ANSI_T"@,
            KeyCode::kVK_ANSI_1 => "kVK_ANSI_1"@,
            KeyCode::kVK_ANSI_2 => "kVK_ANSI_2"@,
            KeyCode::kVK_ANSI_3 => "kVK_ANSI_3"@,
            KeyCode::kVK_ANSI_4 => "kVK_ANSI_4"@,
            KeyCode::kVK_ANSI_6 => "kVK_ANSI_6"@,
            KeyCode::kVK_ANSI_5 => "kVK_ANSI_5"@,
            KeyCode::kVK_ANSI_Equal => "kVK_ANSI_Equal"@,
            KeyCode::kVK_ANSI_9 => "kVK_ANSI_9"@,
            KeyCode::kVK_ANSI_7 => "kVK_ANSI_7"@,
            KeyCode::kVK_ANSI_Minus => "kVK_ANSI_Minus"@,
            KeyCode::kVK_ANSI_8 => "kVK_ANSI_8"@,
            KeyCode::kVK_ANSI_0 => "kVK_ANSI_0"@,
            KeyCode::kVK_ANSI_RightBracket => "kVK_ANSI_RightBracket"@,
            KeyCode::kVK_ANSI_O => "kVK_ANSI_O"@,
            KeyCode::kVK_ANSI_U => "kVK_ANSI_U"@,
            KeyCode::kVK_ANSI_LeftBracket => "kVK_ANSI_LeftBracket"@,
            KeyCode::kVK_ANSI_I => "kVK_ANSI_I"@,
            KeyCode::kVK_ANSI_P => "kVK_ANSI_P"@,
            KeyCode::kVK_Return => "kVK_Return"@,
            KeyCode::kVK_ANSI_L => "kVK_ANSI_L"@,
            KeyCode::kVK_ANSI_J => "kVK_ANSI_J"@,
            KeyCode::kVK_ANSI_Quote => "kVK_ANSI_Quote"@,
            KeyCode::kVK_ANSI_K => "kVK_ANSI_K"@,
            KeyCode::kVK_ANSI_Semicolon => "kVK_ANSI_Semicolon"@,
            KeyCode::kVK_ANSI_Backslash => "kVK_ANSI_Backslash"@,
            KeyCode::kVK_ANSI_Comma => "kVK_ANSI_Comma"@,
            KeyCode::kVK_ANSI_Slash => "kVK_ANSI_Slash"@,
            KeyCode::kVK_ANSI_N => "kVK_ANSI_N"@,
            KeyCode::kVK_ANSI_M => "kVK_ANSI_M"@,
            KeyCode::kVK_ANSI_Period => "kVK_ANSI_Period"@,
            KeyCode::kVK_Tab => "kVK_Tab"@,
            KeyCode::kVK_Space => "kVK_Space"@,
            KeyCode::kVK_ANSI_Grave => "kVK_ANSI_Grave"@,
            KeyCode::kVK_Delete => "kVK_Delete"@,
            KeyCode::kVK_Escape => "kVK_Escape"@,
            KeyCode::kVK_RightCommand => "kVK_RightCommand"@,
            KeyCode::kVK_Command => "kVK_Command"@,
            KeyCode::kVK_Shift => "kVK_Shift"@,
            KeyCode::kVK_CapsLock => "kVK_CapsLock"@,
            KeyCode::kVK_Option => "kVK_Option"@,
            KeyCode::kVK_Control => "kVK_Control"@,
            KeyCode::kVK_RightShift => "kVK_RightShift"@,
            KeyCode::kVK_RightOption => "kVK_RightOption"@,
            KeyCode::kVK_RightControl => "kVK_RightControl"@,
            KeyCode::kVK_Function => "kVK_Function"@,
            KeyCode::kVK_F17 => "kVK_F17"@,
            KeyCode::kVK_ANSI_KeypadDecimal => "kVK_ANSI_KeypadDecimal"@,
            KeyCode::kVK_ANSI_KeypadMultiply => "kVK_ANSI_KeypadMultiply"@,
            KeyCode::kVK_ANSI_KeypadPlus => "kVK_ANSI_KeypadPlus"@,
            KeyCode::kVK_ANSI_KeypadClear => "kVK_ANSI_KeypadClear"@,
            KeyCode::kVK_VolumeUp => "kVK_VolumeUp"@,
            KeyCode::kVK_VolumeDown => "kVK_VolumeDown"@,
            KeyCode::kVK_Mute => "kVK_Mute"@,
            KeyCode::kVK_ANSI_KeypadDivide => "kVK_ANSI_KeypadDivide"@,
            KeyCode::kVK_ANSI_KeypadEnter => "kVK_ANSI_KeypadEnter"@,
            KeyCode::kVK_ANSI_KeypadMinus => "kVK_ANSI_KeypadMinus"@,
            KeyCode::kVK_F18 => "kVK_F18"@,
            KeyCode::kVK_F19 => "kVK_F19"@,
            KeyCode::kVK_ANSI_KeypadEquals => "kVK_ANSI_KeypadEquals"@,
            KeyCode::kVK_ANSI_Keypad0 => "kVK_ANSI_Keypad0"@,
            KeyCode::kVK_ANSI_Keypad1 => "kVK_ANSI_Keypad1"@,
            KeyCode::kVK_ANSI_Keypad2 => "kVK_ANSI_Keypad2"@,
            KeyCode::kVK_ANSI_Keypad3 => "kVK_ANSI_Keypad3"@,
            KeyCode::kVK_ANSI_Keypad4 => "kVK_ANSI_Keypad4"@,
            KeyCode::kVK_ANSI_Keypad5 => "kVK_ANSI_Keypad5"@,
            KeyCode::kVK_ANSI_Keypad6 => "kVK_ANSI_Keypad6"@,
            KeyCode::kVK_ANSI_Keypad7 => "kVK_ANSI_Keypad7"@,
            KeyCode::kVK_F20 => "kVK_F20"@,
            KeyCode::kVK_ANSI_Keypad8 => "kVK_ANSI_Keypad8"@,
            KeyCode::kVK_ANSI_Keypad9 => "kVK_ANSI_Keypad9"@,
            KeyCode::kVK_JIS_Yen => "kVK_JIS_Yen"@,
            KeyCode::kVK_JIS_Underscore => "kVK_JIS_Underscore"@,
            KeyCode::kVK_JIS_KeypadComma => "kVK_JIS_KeypadComma"@,
            KeyCode::kVK_F5 => "kVK_F5"@,
            KeyCode::kVK_F6 => "kVK_F6"@,
            KeyCode::kVK_F7 => "kVK_F7"@,
            KeyCode::kVK_F3 => "kVK_F3"@,
            KeyCode::kVK_F8 => "kVK_F8"@,
            KeyCode::kVK_F9 => "kVK_F9"@,
            KeyCode::kVK_JIS_Eisu => "kVK_JIS_Eisu"@,
            KeyCode::kVK_F11 => "kVK_F11"@,
            KeyCode::kVK_JIS_Kana => "kVK_JIS_Kana"@,
            KeyCode::kVK_F13 => "kVK_F13"@,
            KeyCode::kVK_F16 => "kVK_F16"@,
            KeyCode::kVK_F14 => "kVK_F14"@,
            KeyCode::kVK_F10 => "kVK_F10"@,
            KeyCode::kVK_F12 => "kVK_F12"@,
            KeyCode::kVK_F15 => "kVK_F15"@,
            KeyCode::kVK_Help => "kVK_Help"@,
            KeyCode::kVK_Home => "kVK_Home"@,
            KeyCode::kVK_PageUp => "kVK_PageUp"@,
            KeyCode::kVK_ForwardDelete => "kVK_ForwardDelete"@,
            KeyCode::kVK_F4 => "kVK_F4"@,
            KeyCode::kVK_End => "kVK_End"@,
            KeyCode::kVK_F2 => "kVK_F2"@,
            KeyCode::kVK_PageDown => "kVK_PageDown"@,
            KeyCode::kVK_F1 => "kVK_F1"@,
            KeyCode::kVK_LeftArrow => "kVK_LeftArrow"@,
            KeyCode::kVK_RightArrow => "kVK_RightArrow"@,
            KeyCode::kVK_DownArrow => "kVK_DownArrow"@,
            KeyCode::kVK_UpArrow => "kVK_UpArrow"@,
            KeyCode::Null => "Null"@,
        }
    }

    /// The key that reports the code `v`: the one key other than `Null` whose code
    /// is `v`, and `Null` where there is none.
    pub open spec fn spec_from_code(v: u16) -> KeyCode {
        if exists|k: KeyCode| k != KeyCode::Null && k.spec_code() == v {
            choose|k: KeyCode| k != KeyCode::Null && k.spec_code() == v
        } else {
            KeyCode::Null
        }
    }

    /// The keys that only hold a modifier down.
    pub open spec fn spec_is_modifier(self) -> bool {
        ||| self == KeyCode::kVK_Option
        ||| self == KeyCode::kVK_RightOption
        ||| self == KeyCode::kVK_Shift
        ||| self == KeyCode::kVK_RightShift
        ||| self == KeyCode::kVK_Command
        ||| self == KeyCode::kVK_RightCommand
        ||| self == KeyCode::kVK_Control
        ||| self == KeyCode::kVK_RightControl
        ||| self == KeyCode::kVK_Function
    }

    /// No two keys share a code.
    pub proof fn lemma_code_injective(a: KeyCode, b: KeyCode)
        requires
            a.spec_code() == b.spec_code(),
        ensures
            a == b,
    {
    }

    /// Reading back the code of a key gives the key.
    pub proof fn lemma_code_round_trip(k: KeyCode)
        ensures
            KeyCode::spec_from_code(k.spec_code()) == k,
    {
        if k != KeyCode::Null {
            let found = KeyCode::spec_from_code(k.spec_code());
            KeyCode::lemma_code_injective(found, k);
        } else {
            assert forall|other: KeyCode| other != KeyCode::Null implies other.spec_code()
                != NULL_CODE by {
                if other.spec_code() == NULL_CODE {
                    KeyCode::lemma_code_injective(other, KeyCode::Null);
                }
            }
        }
    }

    /// A code that some key reports is the code of the key it is read as.
    pub proof fn lemma_from_code_keeps_code(v: u16)
        requires
            KeyCode::spec_from_code(v) != KeyCode::Null,
        ensures
            KeyCode::spec_from_code(v).spec_code() == v,
    {
    }

    /// The virtual key code of this key.
    pub fn code(&self) -> (v: u16)
        ensures
            v == self.spec_code(),
    {
        match self {
            KeyCode::kVK_ANSI_A => 0x00,
            KeyCode::kVK_ANSI_S => 0x01,
            KeyCode::kVK_ANSI_D => 0x02,
            KeyCode::kVK_ANSI_F => 0x03,
            KeyCode::kVK_ANSI_H => 0x04,
            KeyCode::kVK_ANSI_G => 0x05,
            KeyCode::kVK_ANSI_Z => 0x06,
            KeyCode::kVK_ANSI_X => 0x07,
            KeyCode::kVK_ANSI_C => 0x08,
            KeyCode::kVK_ANSI_V => 0x09,
            KeyCode::kVK_ISO_Section => 0x0A,
            KeyCode::kVK_ANSI_B => 0x0B,
            KeyCode::kVK_ANSI_Q => 0x0C,
            KeyCode::kVK_ANSI_W => 0x0D,
            KeyCode::kVK_ANSI_E => 0x0E,
            KeyCode::kVK_ANSI_R => 0x0F,
            KeyCode::kVK_ANSI_Y => 0x10,
            KeyCode::kVK_ANSI_T => 0x11,
            KeyCode::kVK_ANSI_1 => 0x12,
            KeyCode::kVK_ANSI_2 => 0x13,
            KeyCode::kVK_ANSI_3 => 0x14,
            KeyCode::kVK_ANSI_4 => 0x15,
            KeyCode::kVK_ANSI_6 => 0x16,
            KeyCode::kVK_ANSI_5 => 0x17,
            KeyCode::kVK_ANSI_Equal => 0x18,
            KeyCode::kVK_ANSI_9 => 0x19,
            KeyCode::kVK_ANSI_7 => 0x1A,
            KeyCode::kVK_ANSI_Minus => 0x1B,
            KeyCode::kVK_ANSI_8 => 0x1C,
            KeyCode::kVK_ANSI_0 => 0x1D,
            KeyCode::kVK_ANSI_RightBracket => 0x1E,
            KeyCode::kVK_ANSI_O => 0x1F,
            KeyCode::kVK_ANSI_U => 0x20,
            KeyCode::kVK_ANSI_LeftBracket => 0x21,
            KeyCode::kVK_ANSI_I => 0x22,
            KeyCode::kVK_ANSI_P => 0x23,
            KeyCode::kVK_Return => 0x24,
            KeyCode::kVK_ANSI_L => 0x25,
            KeyCode::kVK_ANSI_J => 0x26,
            KeyCode::kVK_ANSI_Quote => 0x27,
            KeyCode::kVK_ANSI_K => 0x28,
            KeyCode::kVK_ANSI_Semicolon => 0x29,
            KeyCode::kVK_ANSI_Backslash => 0x2A,
            KeyCode::kVK_ANSI_Comma => 0x2B,
            KeyCode::kVK_ANSI_Slash => 0x2C,
            KeyCode::kVK_ANSI_N => 0x2D,
            KeyCode::kVK_ANSI_M => 0x2E,
            KeyCode::kVK_ANSI_Period => 0x2F,
            KeyCode::kVK_Tab => 0x30,
            KeyCode::kVK_Space => 0x31,
            KeyCode::kVK_ANSI_Grave => 0x32,
            KeyCode::kVK_Delete => 0x33,
            KeyCode::kVK_Escape => 0x35,
            KeyCode::kVK_RightCommand => 0x36,
            KeyCode::kVK_Command => 0x37,
            KeyCode::kVK_Shift => 0x38,
            KeyCode::kVK_CapsLock => 0x39,
            KeyCode::kVK_Option => 0x3A,
            KeyCode::kVK_Control => 0x3B,
            KeyCode::kVK_RightShift => 0x3C,
            KeyCode::kVK_RightOption => 0x3D,
            KeyCode::kVK_RightControl => 0x3E,
            KeyCode::kVK_Function => 0x3F,
            KeyCode::kVK_F17 => 0x40,
            KeyCode::kVK_ANSI_KeypadDecimal => 0x41,
            KeyCode::kVK_ANSI_KeypadMultiply => 0x43,
            KeyCode::kVK_ANSI_KeypadPlus => 0x45,
            KeyCode::kVK_ANSI_KeypadClear => 0x47,
            KeyCode::kVK_VolumeUp => 0x48,
            KeyCode::kVK_VolumeDown => 0x49,
            KeyCode::kVK_Mute => 0x4A,
            KeyCode::kVK_ANSI_KeypadDivide => 0x4B,
            KeyCode::kVK_ANSI_KeypadEnter => 0x4C,
            KeyCode::kVK_ANSI_KeypadMinus => 0x4E,
            KeyCode::kVK_F18 => 0x4F,
            KeyCode::kVK_F19 => 0x50,
            KeyCode::kVK_ANSI_KeypadEquals => 0x51,
            KeyCode::kVK_ANSI_Keypad0 => 0x52,
            KeyCode::kVK_ANSI_Keypad1 => 0x53,
            KeyCode::kVK_ANSI_Keypad2 => 0x54,
            KeyCode::kVK_ANSI_Keypad3 => 0x55,
            KeyCode::kVK_ANSI_Keypad4 => 0x56,
            KeyCode::kVK_ANSI_Keypad5 => 0x57,
            KeyCode::kVK_ANSI_Keypad6 => 0x58,
            KeyCode::kVK_ANSI_Keypad7 => 0x59,
            KeyCode::kVK_F20 => 0x5A,
            KeyCode::kVK_ANSI_Keypad8 => 0x5B,
            KeyCode::kVK_ANSI_Keypad9 => 0x5C,
            KeyCode::kVK_JIS_Yen => 0x5D,
            KeyCode::kVK_JIS_Underscore => 0x5E,
            KeyCode::kVK_JIS_KeypadComma => 0x5F,
            KeyCode::kVK_F5 => 0x60,
            KeyCode::kVK_F6 => 0x61,
            KeyCode::kVK_F7 => 0x62,
            KeyCode::kVK_F3 => 0x63,
            KeyCode::kVK_F8 => 0x64,
            KeyCode::kVK_F9 => 0x65,
            KeyCode::kVK_JIS_Eisu => 0x66,
            KeyCode::kVK_F11 => 0x67,
            KeyCode::kVK_JIS_Kana => 0x68,
            KeyCode::kVK_F13 => 0x69,
            KeyCode::kVK_F16 => 0x6A,
            KeyCode::kVK_F14 => 0x6B,
            KeyCode::kVK_F10 => 0x6D,
            KeyCode::kVK_F12 => 0x6F,
            KeyCode::kVK_F15 => 0x71,
            KeyCode::kVK_Help => 0x72,
            KeyCode::kVK_Home => 0x73,
            KeyCode::kVK_PageUp => 0x74,
            KeyCode::kVK_ForwardDelete => 0x75,
            KeyCode::kVK_F4 => 0x76,
            KeyCode::kVK_End => 0x77,
            KeyCode::kVK_F2 => 0x78,
            KeyCode::kVK_PageDown => 0x79,
            KeyCode::kVK_F1 => 0x7A,
            KeyCode::kVK_LeftArrow => 0x7B,
            KeyCode::kVK_RightArrow => 0x7C,
            KeyCode::kVK_DownArrow => 0x7D,
            KeyCode::kVK_UpArrow => 0x7E,
            KeyCode::Null => NULL_CODE,
        }
    }

    /// The key that reports the code `v`.
    pub fn from_code(v: u16) -> (k: KeyCode)
        ensures
            k == KeyCode::spec_from_code(v),
    {
        let k = match v {
            0x00 => KeyCode::kVK_ANSI_A,
            0x01 => KeyCode::kVK_ANSI_S,
            0x02 => KeyCode::kVK_ANSI_D,
            0x03 => KeyCode::kVK_ANSI_F,
            0x04 => KeyCode::kVK_ANSI_H,
            0x05 => KeyCode::kVK_ANSI_G,
            0x06 => KeyCode::kVK_ANSI_Z,
            0x07 => KeyCode::kVK_ANSI_X,
            0x08 => KeyCode::kVK_ANSI_C,
            0x09 => KeyCode::kVK_ANSI_V,
            0x0A => KeyCode::kVK_ISO_Section,
            0x0B => KeyCode::kVK_ANSI_B,
            0x0C => KeyCode::kVK_ANSI_Q,
            0x0D => KeyCode::kVK_ANSI_W,
            0x0E => KeyCode::kVK_ANSI_E,
            0x0F => KeyCode::kVK_ANSI_R,
            0x10 => KeyCode::kVK_ANSI_Y,
            0x11 => KeyCode::kVK_ANSI_T,
            0x12 => KeyCode::kVK_ANSI_1,
            0x13 => KeyCode::kVK_ANSI_2,
            0x14 => KeyCode::kVK_ANSI_3,
            0x15 => KeyCode::kVK_ANSI_4,
            0x16 => KeyCode::kVK_ANSI_6,
            0x17 => KeyCode::kVK_ANSI_5,
            0x18 => KeyCode::kVK_ANSI_Equal,
            0x19 => KeyCode::kVK_ANSI_9,
            0x1A => KeyCode::kVK_ANSI_7,
            0x1B => KeyCode::kVK_ANSI_Minus,
            0x1C => KeyCode::kVK_ANSI_8,
            0x1D => KeyCode::kVK_ANSI_0,
            0x1E => KeyCode::kVK_ANSI_RightBracket,
            0x1F => KeyCode::kVK_ANSI_O,
            0x20 => KeyCode::kVK_ANSI_U,
            0x21 => KeyCode::kVK_ANSI_LeftBracket,
            0x22 => KeyCode::kVK_ANSI_I,
            0x23 => KeyCode::kVK_ANSI_P,
            0x24 => KeyCode::kVK_Return,
            0x25 => KeyCode::kVK_ANSI_L,
            0x26 => KeyCode::kVK_ANSI_J,
            0x27 => KeyCode::kVK_ANSI_Quote,
            0x28 => KeyCode::kVK_ANSI_K,
            0x29 => KeyCode::kVK_ANSI_Semicolon,
            0x2A => KeyCode::kVK_ANSI_Backslash,
            0x2B => KeyCode::kVK_ANSI_Comma,
            0x2C => KeyCode::kVK_ANSI_Slash,
            0x2D => KeyCode::kVK_ANSI_N,
            0x2E => KeyCode::kVK_ANSI_M,
            0x2F => KeyCode::kVK_ANSI_Period,
            0x30 => KeyCode::kVK_Tab,
            0x31 => KeyCode::kVK_Space,
            0x32 => KeyCode::kVK_ANSI_Grave,
            0x33 => KeyCode::kVK_Delete,
            0x35 => KeyCode::kVK_Escape,
            0x36 => KeyCode::kVK_RightCommand,
            0x37 => KeyCode::kVK_Command,
            0x38 => KeyCode::kVK_Shift,
            0x39 => KeyCode::kVK_CapsLock,
            0x3A => KeyCode::kVK_Option,
            0x3B => KeyCode::kVK_Control,
            0x3C => KeyCode::kVK_RightShift,
            0x3D => KeyCode::kVK_RightOption,
            0x3E => KeyCode::kVK_RightControl,
            0x3F => KeyCode::kVK_Function,
            0x40 => KeyCode::kVK_F17,
            0x41 => KeyCode::kVK_ANSI_KeypadDecimal,
            0x43 => KeyCode::kVK_ANSI_KeypadMultiply,
            0x45 => KeyCode::kVK_ANSI_KeypadPlus,
            0x47 => KeyCode::kVK_ANSI_KeypadClear,
            0x48 => KeyCode::kVK_VolumeUp,
            0x49 => KeyCode::kVK_VolumeDown,
            0x4A => KeyCode::kVK_Mute,
            0x4B => KeyCode::kVK_ANSI_KeypadDivide,
            0x4C => KeyCode::kVK_ANSI_KeypadEnter,
            0x4E => KeyCode::kVK_ANSI_KeypadMinus,
            0x4F => KeyCode::kVK_F18,
            0x50 => KeyCode::kVK_F19,
            0x51 => KeyCode::kVK_ANSI_KeypadEquals,
            0x52 => KeyCode::kVK_ANSI_Keypad0,
            0x53 => KeyCode::kVK_ANSI_Keypad1,
            0x54 => KeyCode::kVK_ANSI_Keypad2,
            0x55 => KeyCode::kVK_ANSI_Keypad3,
            0x56 => KeyCode::kVK_ANSI_Keypad4,
            0x57 => KeyCode::kVK_ANSI_Keypad5,
            0x58 => KeyCode::kVK_ANSI_Keypad6,
            0x59 => KeyCode::kVK_ANSI_Keypad7,
            0x5A => KeyCode::kVK_F20,
            0x5B => KeyCode::kVK_ANSI_Keypad8,
            0x5C => KeyCode::kVK_ANSI_Keypad9,
            0x5D => KeyCode::kVK_JIS_Yen,
            0x5E => KeyCode::kVK_JIS_Underscore,
            0x5F => KeyCode::kVK_JIS_KeypadComma,
            0x60 => KeyCode::kVK_F5,
            0x61 => KeyCode::kVK_F6,
            0x62 => KeyCode::kVK_F7,
            0x63 => KeyCode::kVK_F3,
            0x64 => KeyCode::kVK_F8,
            0x65 => KeyCode::kVK_F9,
            0x66 => KeyCode::kVK_JIS_Eisu,
            0x67 => KeyCode::kVK_F11,
            0x68 => KeyCode::kVK_JIS_Kana,
            0x69 => KeyCode::kVK_F13,
            0x6A => KeyCode::kVK_F16,
            0x6B => KeyCode::kVK_F14,
            0x6D => KeyCode::kVK_F10,
            0x6F => KeyCode::kVK_F12,
            0x71 => KeyCode::kVK_F15,
            0x72 => KeyCode::kVK_Help,
            0x73 => KeyCode::kVK_Home,
            0x74 => KeyCode::kVK_PageUp,
            0x75 => KeyCode::kVK_ForwardDelete,
            0x76 => KeyCode::kVK_F4,
            0x77 => KeyCode::kVK_End,
            0x78 => KeyCode::kVK_F2,
            0x79 => KeyCode::kVK_PageDown,
            0x7A => KeyCode::kVK_F1,
            0x7B => KeyCode::kVK_LeftArrow,
            0x7C => KeyCode::kVK_RightArrow,
            0x7D => KeyCode::kVK_DownArrow,
            0x7E => KeyCode::kVK_UpArrow,
            _ => KeyCode::Null,
        };
        proof {
            if k != KeyCode::Null {
                KeyCode::lemma_code_injective(KeyCode::spec_from_code(v), k);
            } else {
                assert forall|other: KeyCode| other != KeyCode::Null implies other.spec_code()
                    != v by {
                    if other.spec_code() == v {
                        KeyCode::lemma_code_round_trip(other);
                    }
                }
            }
        }
        k
    }

    /// The name of this key.
    pub fn name(&self) -> (s: &'static str)
        ensures
            s@ == self.spec_name(),
    {
        match self {
            KeyCode::kVK_ANSI_A => "kVK_ANSI_A",
            KeyCode::kVK_ANSI_S => "kVK_ANSI_S",
            KeyCode::kVK_ANSI_D => "kVK_ANSI_D",
            KeyCode::kVK_ANSI_F => "kVK_ANSI_F",
            KeyCode::kVK_ANSI_H => "kVK_ANSI_H",
            KeyCode::kVK_ANSI_G => "kVK_ANSI_G",
            KeyCode::kVK_ANSI_Z => "kVK_ANSI_Z",
            KeyCode::kVK_ANSI_X => "kVK_ANSI_X",
            KeyCode::kVK_ANSI_C => "kVK_ANSI_C",
            KeyCode::kVK_ANSI_V => "kVK_ANSI_V",
            KeyCode::kVK_ISO_Section => "kVK_ISO_Section",
            KeyCode::kVK_ANSI_B => "kVK_ANSI_B",
            KeyCode::kVK_ANSI_Q => "kVK_ANSI_Q",
            KeyCode::kVK_ANSI_W => "kVK_ANSI_W",
            KeyCode::kVK_ANSI_E => "kVK_ANSI_E",
            KeyCode::kVK_ANSI_R => "kVK_ANSI_R",
            KeyCode::kVK_ANSI_Y => "kVK_ANSI_Y",
            KeyCode::kVK_ANSI_T => "kVK_ANSI_T",
            KeyCode::kVK_ANSI_1 => "kVK_ANSI_1",
            KeyCode::kVK_ANSI_2 => "kVK_ANSI_2",
            KeyCode::kVK_ANSI_3 => "kVK_ANSI_3",
            KeyCode::kVK_ANSI_4 => "kVK_ANSI_4",
            KeyCode::kVK_ANSI_6 => "kVK_ANSI_6",
            KeyCode::kVK_ANSI_5 => "kVK_ANSI_5",
            KeyCode::kVK_ANSI_Equal => "kVK_ANSI_Equal",
            KeyCode::kVK_ANSI_9 => "kVK_ANSI_9",
            KeyCode::kVK_ANSI_7 => "kVK_ANSI_7",
            KeyCode::kVK_ANSI_Minus => "kVK_ANSI_Minus",
            KeyCode::kVK_ANSI_8 => "kVK_ANSI_8",
            KeyCode::kVK_ANSI_0 => "kVK_ANSI_0",
            KeyCode::kVK_ANSI_RightBracket => "kVK_ANSI_RightBracket",
            KeyCode::kVK_ANSI_O => "kVK_ANSI_O",
            KeyCode::kVK_ANSI_U => "kVK_ANSI_U",
            KeyCode::kVK_ANSI_LeftBracket => "kVK_ANSI_LeftBracket",
            KeyCode::kVK_ANSI_I => "kVK_ANSI_I",
            KeyCode::kVK_ANSI_P => "kVK_ANSI_P",
            KeyCode::kVK_Return => "kVK_Return",
            KeyCode::kVK_ANSI_L => "kVK_ANSI_L",
            KeyCode::kVK_ANSI_J => "kVK_ANSI_J",
            KeyCode::kVK_ANSI_Quote => "kVK_ANSI_Quote",
            KeyCode::kVK_ANSI_K => "kVK_ANSI_K",
            KeyCode::kVK_ANSI_Semicolon => "kVK_ANSI_Semicolon",
            KeyCode::kVK_ANSI_Backslash => "kVK_ANSI_Backslash",
            KeyCode::kVK_ANSI_Comma => "kVK_ANSI_Comma",
            KeyCode::kVK_ANSI_Slash => "kVK_ANSI_Slash",
            KeyCode::kVK_ANSI_N => "kVK_ANSI_N",
            KeyCode::kVK_ANSI_M => "kVK_ANSI_M",
            KeyCode::kVK_ANSI_Period => "kVK_ANSI_Period",
            KeyCode::kVK_Tab => "kVK_Tab",
            KeyCode::kVK_Space => "kVK_Space",
            KeyCode::kVK_ANSI_Grave => "kVK_ANSI_Grave",
            KeyCode::kVK_Delete => "kVK_Delete",
            KeyCode::kVK_Escape => "kVK_Escape",
            KeyCode::kVK_RightCommand => "kVK_RightCommand",
            KeyCode::kVK_Command => "kVK_Command",
            KeyCode::kVK_Shift => "kVK_Shift",
            KeyCode::kVK_CapsLock => "kVK_CapsLock",
            KeyCode::kVK_Option => "kVK_Option",
            KeyCode::kVK_Control => "kVK_Control",
            KeyCode::kVK_RightShift => "kVK_RightShift",
            KeyCode::kVK_RightOption => "kVK_RightOption",
            KeyCode::kVK_RightControl => "kVK_RightControl",
            KeyCode::kVK_Function => "kVK_Function",
            KeyCode::kVK_F17 => "kVK_F17",
            KeyCode::kVK_ANSI_KeypadDecimal => "kVK_ANSI_KeypadDecimal",
            KeyCode::kVK_ANSI_KeypadMultiply => "kVK_ANSI_KeypadMultiply",
            KeyCode::kVK_ANSI_KeypadPlus => "kVK_ANSI_KeypadPlus",
            KeyCode::kVK_ANSI_KeypadClear => "kVK_ANSI_KeypadClear",
            KeyCode::kVK_VolumeUp => "kVK_VolumeUp",
            KeyCode::kVK_VolumeDown => "kVK_VolumeDown",
            KeyCode::kVK_Mute => "kVK_Mute",
            KeyCode::kVK_ANSI_KeypadDivide => "kVK_ANSI_KeypadDivide",
            KeyCode::kVK_ANSI_KeypadEnter => "kVK_ANSI_KeypadEnter",
            KeyCode::kVK_ANSI_KeypadMinus => "kVK_ANSI_KeypadMinus",
            KeyCode::kVK_F18 => "kVK_F18",
            KeyCode::kVK_F19 => "kVK_F19",
            KeyCode::kVK_ANSI_KeypadEquals => "kVK_ANSI_KeypadEquals",
            KeyCode::kVK_ANSI_Keypad0 => "kVK_ANSI_Keypad0",
            KeyCode::kVK_ANSI_Keypad1 => "kVK_ANSI_Keypad1",
            KeyCode::kVK_ANSI_Keypad2 => "kVK_ANSI_Keypad2",
            KeyCode::kVK_ANSI_Keypad3 => "kVK_ANSI_Keypad3",
            KeyCode::kVK_ANSI_Keypad4 => "kVK_ANSI_Keypad4",
            KeyCode::kVK_ANSI_Keypad5 => "kVK_ANSI_Keypad5",
            KeyCode::kVK_ANSI_Keypad6 => "kVK_ANSI_Keypad6",
            KeyCode::kVK_ANSI_Keypad7 => "kVK_ANSI_Keypad7",
            KeyCode::kVK_F20 => "kVK_F20",
            KeyCode::kVK_ANSI_Keypad8 => "kVK_ANSI_Keypad8",
            KeyCode::kVK_ANSI_Keypad9 => "kVK_ANSI_Keypad9",
            KeyCode::kVK_JIS_Yen => "kVK_JIS_Yen",
            KeyCode::kVK_JIS_Underscore => "kVK_JIS_Underscore",
            KeyCode::kVK_JIS_KeypadComma => "kVK_JIS_KeypadComma",
            KeyCode::kVK_F5 => "kVK_F5",
            KeyCode::kVK_F6 => "kVK_F6",
            KeyCode::kVK_F7 => "kVK_F7",
            KeyCode::kVK_F3 => "kVK_F3",
            KeyCode::kVK_F8 => "kVK_F8",
            KeyCode::kVK_F9 => "kVK_F9",
            KeyCode::kVK_JIS_Eisu => "kVK_JIS_Eisu",
            KeyCode::kVK_F11 => "kVK_F11",
            KeyCode::kVK_JIS_Kana => "kVK_JIS_Kana",
            KeyCode::kVK_F13 => "kVK_F13",
            KeyCode::kVK_F16 => "kVK_F16",
            KeyCode::kVK_F14 => "kVK_F14",
            KeyCode::kVK_F10 => "kVK_F10",
            KeyCode::kVK_F12 => "kVK_F12",
            KeyCode::kVK_F15 => "kVK_F15",
            KeyCode::kVK_Help => "kVK_Help",
            KeyCode::kVK_Home => "kVK_Home",
            KeyCode::kVK_PageUp => "kVK_PageUp",
            KeyCode::kVK_ForwardDelete => "kVK_ForwardDelete",
            KeyCode::kVK_F4 => "kVK_F4",
            KeyCode::kVK_End => "kVK_End",
            KeyCode::kVK_F2 => "kVK_F2",
            KeyCode::kVK_PageDown => "kVK_PageDown",
            KeyCode::kVK_F1 => "kVK_F1",
            KeyCode::kVK_LeftArrow => "kVK_LeftArrow",
            KeyCode::kVK_RightArrow => "kVK_RightArrow",
            KeyCode::kVK_DownArrow => "kVK_DownArrow",
            KeyCode::kVK_UpArrow => "kVK_UpArrow",
            KeyCode::Null => "Null",
        }
    }

    /// Whether this key only holds a modifier down.
    pub fn is_modifier(&self) -> (b: bool)
        ensures
            b == self.spec_is_modifier(),
    {
        match self {
            KeyCode::kVK_Option
            | KeyCode::kVK_RightOption
            | KeyCode::kVK_Shift
            | KeyCode::kVK_RightShift
            | KeyCode::kVK_Command
            | KeyCode::kVK_RightCommand
            | KeyCode::kVK_Control
            | KeyCode::kVK_RightControl
            | KeyCode::kVK_Function => true,
            _ => false,
        }
    }
}

impl From<u16> for KeyCode {
    /// The key that reports the code `v`.
    fn from(v: u16) -> (k: KeyCode) {
        KeyCode::from_code(v)
    }
}

impl vstd::std_specs::convert::FromSpecImpl<u16> for KeyCode {
    open spec fn obeys_from_spec() -> bool {
        true
    }

    open spec fn from_spec(v: u16) -> KeyCode {
        KeyCode::spec_from_code(v)
    }
}

impl From<KeyCode> for u16 {
    /// The virtual key code of the key.
    fn from(k: KeyCode) -> (v: u16) {
        k.code()
    }
}

impl vstd::std_specs::convert::FromSpecImpl<KeyCode> for u16 {
    open spec fn obeys_from_spec() -> bool {
        true
    }

    open spec fn from_spec(k: KeyCode) -> u16 {
        k.spec_code()
    }
}

} // verus!
