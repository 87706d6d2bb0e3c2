use crate::error::{Failure, KeymapError};
use crate::keycode::KeyCode;
use crate::keys::{Chord, KeyModifier, KeySequence, KeySpec};
use vstd::prelude::*;

verus! {

/// The text that stands between the parts of a chord.
pub open spec fn plus() -> Seq<char> {
    " + "@
}

impl KeyModifier {
    /// The name of a modifier, as it is written in text.
    pub open spec fn spec_name(self) -> Seq<char> {
        match self {
            KeyModifier::Ctrl => "Ctrl"@,
            KeyModifier::Shift => "Shift"@,
            KeyModifier::Alt => "Alt"@,
            KeyModifier::Cmd => "Cmd"@,
            KeyModifier::Fn => "Fn"@,
        }
    }

    /// The modifier at a place of the declaration order.
    pub open spec fn at(r: int) -> KeyModifier {
        if r <= 0 {
            KeyModifier::Ctrl
        } else if r == 1 {
            KeyModifier::Shift
        } else if r == 2 {
            KeyModifier::Alt
        } else if r == 3 {
            KeyModifier::Cmd
        } else {
            KeyModifier::Fn
        }
    }

    /// The name of the modifier.
    pub fn name(&self) -> (s: &'static str)
        ensures
            s@ == self.spec_name(),
    {
        match self {
            KeyModifier::Ctrl => "Ctrl",
            KeyModifier::Shift => "Shift",
            KeyModifier::Alt => "Alt",
            KeyModifier::Cmd => "Cmd",
            KeyModifier::Fn => "Fn",
        }
    }

    /// The modifier as text: its name.
    pub fn to_string(&self) -> (s: String)
        ensures
            s@ == self.spec_name(),
    {
        self.name().to_owned()
    }
}

impl Chord {
    /// Whether a modifier before place `r` of the declaration order is held.
    pub open spec fn holds_before(self, r: int) -> bool {
        exists|i: int| 0 <= i < r && i < 5 && self.modifiers.contains(#[trigger] KeyModifier::at(i))
    }

    /// The names of the held modifiers before place `r` of the declaration
    /// order, in that order, with a plus sign between each two.
    pub open spec fn modifiers_text(self, r: int) -> Seq<char>
        decreases r,
    {
        if r <= 0 {
            Seq::<char>::empty()
        } else {
            let before = self.modifiers_text(r - 1);
            let m = KeyModifier::at(r - 1);
            if self.modifiers.contains(m) {
                if self.holds_before(r - 1) {
                    before + plus() + m.spec_name()
                } else {
                    before + m.spec_name()
                }
            } else {
                before
            }
        }
    }

    /// The chord as text: the names of the held modifiers in declaration
    /// order and then the name of the key, with a plus sign between each two.
    /// Where no key is pressed, only the modifiers are named; the chord of no
    /// modifier and no key is the empty text.
    pub open spec fn text(self) -> Seq<char> {
        if self.code == KeyCode::Null {
            self.modifiers_text(5)
        } else if self.holds_before(5) {
            self.modifiers_text(5) + plus() + self.code.spec_name()
        } else {
            self.modifiers_text(5) + self.code.spec_name()
        }
    }
}

/// The chords of `keys` before place `n` as text: each chord followed by a
/// blank.
pub open spec fn chords_text(keys: Seq<Chord>, n: int) -> Seq<char>
    decreases n,
{
    if n <= 0 {
        Seq::<char>::empty()
    } else {
        chords_text(keys, n - 1) + keys[n - 1].text() + " "@
    }
}

/// A sequence of chords as text: the chords, each followed by a blank, in
/// square brackets.
pub open spec fn sequence_text(keys: Seq<Chord>) -> Seq<char> {
    "["@ + chords_text(keys, keys.len() as int) + "]"@
}

impl KeySpec {
    /// Adds the name of the modifier at place `r` to the text, where the
    /// chord holds it.
    fn write_modifier(&self, out: &mut String, any: &mut bool, r: u8, m: KeyModifier)
        requires
            0 <= r < 5,
            m == KeyModifier::at(r as int),
            old(out)@ == self@.modifiers_text(r as int),
            *old(any) == self@.holds_before(r as int),
        ensures
            final(out)@ == self@.modifiers_text(r as int + 1),
            *final(any) == self@.holds_before(r as int + 1),
    {
        if self.has_modifier(m) {
            if *any {
                out.append(" + ");
            }
            out.append(m.name());
            *any = true;
            assert(self@.modifiers.contains(KeyModifier::at(r as int)));
        } else {
            proof {
                if self@.holds_before(r as int + 1) {
                    let i = choose|i: int|
                        0 <= i < r + 1 && i < 5 && self@.modifiers.contains(
                            #[trigger] KeyModifier::at(i),
                        );
                    assert(i != r);
                    assert(self@.modifiers.contains(KeyModifier::at(i)));
                }
            }
        }
        proof {
            if *old(any) {
                let i = choose|i: int|
                    0 <= i < r && i < 5 && self@.modifiers.contains(#[trigger] KeyModifier::at(i));
                assert(0 <= i < r + 1 && self@.modifiers.contains(KeyModifier::at(i)));
            }
        }
    }

    /// The chord as text.
    pub fn to_string(&self) -> (s: String)
        ensures
            s@ == self@.text(),
    {
        let mut out = String::new();
        let mut any = false;
        self.write_modifier(&mut out, &mut any, 0, KeyModifier::Ctrl);
        self.write_modifier(&mut out, &mut any, 1, KeyModifier::Shift);
        self.write_modifier(&mut out, &mut any, 2, KeyModifier::Alt);
        self.write_modifier(&mut out, &mut any, 3, KeyModifier::Cmd);
        self.write_modifier(&mut out, &mut any, 4, KeyModifier::Fn);
        if self.1 != KeyCode::Null {
            if any {
                out.append(" + ");
            }
            out.append(self.1.name());
        }
        out
    }
}

impl KeySequence {
    /// The sequence as text.
    pub fn to_string(&self) -> (s: String)
        ensures
            s@ == sequence_text(self@),
    {
        let mut out = "[".to_owned();
        let mut i: usize = 0;
        while i < self.0.len()
            invariant
                i <= self.0@.len(),
                out@ == "["@ + chords_text(self@, i as int),
            decreases self.0@.len() - i,
        {
            let key = self.0[i].to_string();
            out.append(key.as_str());
            out.append(" ");
            proof {
                assert(self@[i as int] == self.0@[i as int]@);
                assert(out@ =~= "["@ + chords_text(self@, i as int + 1));
            }
            i += 1;
        }
        out.append("]");
        out
    }
}

impl Failure {
    /// The error as text.
    pub open spec fn text(self) -> Seq<char> {
        match self {
            Failure::KeyNotFound(_, _) => "Key not found"@,
            Failure::KeyAlreadyBound(sequence, mode) => "Key("@ + sequence_text(sequence)
                + ") for mode "@ + mode + " is already bound"@,
            Failure::NoSuchMode(mode) => "No such mode: "@ + mode,
            Failure::InvalidSequence => "Invalid key sequence"@,
        }
    }
}

impl KeymapError {
    /// The error as text.
    pub fn to_string(&self) -> (s: String)
        ensures
            s@ == self@.text(),
    {
        match self {
            KeymapError::KeyNotFound(_, _) => "Key not found".to_owned(),
            KeymapError::KeyAlreadyBound(sequence, mode) => {
                let mut out = "Key(".to_owned();
                let text = sequence.to_string();
                out.append(text.as_str());
                out.append(") for mode ");
                out.append(mode.as_str());
                out.append(" is already bound");
                out
            },
            KeymapError::NoSuchMode(mode) => {
                let mut out = "No such mode: ".to_owned();
                out.append(mode.as_str());
                out
            },
            KeymapError::InvalidSequence => "Invalid key sequence".to_owned(),
        }
    }
}

} // verus!
