//! The keyboard interrupt: scancodes go through the PS/2 decoder, and what it
//! makes of them is gathered into lines.

use vstd::prelude::*;
use crate::interrupts::{Key, KeyBuffer};

verus! {

/// The PS/2 decoder `pc_keyboard::Keyboard` for the US layout with 104 keys and
/// scancode set 1. Its state is not seen from here.
#[verifier::external_body]
struct Decoder {
    inner: pc_keyboard::Keyboard<pc_keyboard::layouts::Us104Key, pc_keyboard::ScancodeSet1>,
}

/// `pc_keyboard::KeyEvent`: a key and whether it went down or up. It is handed
/// from one call of the decoder to the next and not looked into.
#[verifier::external_type_specification]
#[verifier::external_body]
pub struct ExKeyEvent(pc_keyboard::KeyEvent);

/// `pc_keyboard::KeyCode`: the name of a key. It is only compared with the
/// Enter key.
#[verifier::external_type_specification]
#[verifier::external_body]
pub struct ExKeyCode(pc_keyboard::KeyCode);

/// What the decoder makes of a key event.
pub enum Decoded {
    /// A key that stands for a character.
    Unicode(char),
    /// A key that stands for none.
    RawKey(pc_keyboard::KeyCode),
}

/// `Keyboard::new` for the US layout with 104 keys and scancode set 1: a decoder
/// in its start state. Nothing is claimed of it.
#[verifier::external_body]
fn new_decoder() -> Decoder {
    Decoder {
        inner: pc_keyboard::Keyboard::new(pc_keyboard::layouts::Us104Key, pc_keyboard::ScancodeSet1),
    }
}

/// `Keyboard::add_byte`: feeds one scancode byte to the decoder, which may
/// complete a key event. A byte that the decoder refuses gives none. Nothing is
/// claimed of the event.
#[verifier::external_body]
fn add_byte(decoder: &mut Decoder, byte: u8) -> Option<pc_keyboard::KeyEvent> {
    match decoder.inner.add_byte(byte) {
        Ok(ev) => ev,
        Err(_) => None,
    }
}

/// `Keyboard::process_keyevent`: what the key event means under the modifier keys
/// that are held; none for the modifier keys themselves and for releases.
/// Nothing is claimed of the result.
#[verifier::external_body]
fn process_keyevent(decoder: &mut Decoder, ev: pc_keyboard::KeyEvent) -> Option<Decoded> {
    match decoder.inner.process_keyevent(ev) {
        Some(pc_keyboard::DecodedKey::Unicode(c)) => Some(Decoded::Unicode(c)),
        Some(pc_keyboard::DecodedKey::RawKey(k)) => Some(Decoded::RawKey(k)),
        None => None,
    }
}

/// The comparison of a key code with `KeyCode::Enter`. Nothing is claimed of the
/// result.
#[verifier::external_body]
fn is_enter(code: &pc_keyboard::KeyCode) -> bool {
    *code == pc_keyboard::KeyCode::Enter
}

/// What is to be shown on the screen for a key.
pub enum Echo {
    /// This character.
    Char(char),
    /// The name of this key.
    Key(pc_keyboard::KeyCode),
}

/// What a decoded key is to the line buffer, and the key itself where it is only
/// to be shown: a line feed ends the line, and so does a key without a character
/// if `enter` says that it is the Enter key; any other character joins the
/// line; any other key is only shown.
pub open spec fn classify_spec(decoded: Decoded, enter: bool) -> (Key, Option<pc_keyboard::KeyCode>) {
    match decoded {
        Decoded::Unicode(c) => if c == '\n' {
            (Key::Enter, None)
        } else {
            (Key::Unicode(c), None)
        },
        Decoded::RawKey(code) => if enter {
            (Key::Enter, None)
        } else {
            (Key::Raw, Some(code))
        },
    }
}

/// What a decoded key is to the line buffer, and the key itself where it is only
/// to be shown. `enter` is what the comparison of a key without a character
/// with the Enter key gave; it counts for nothing where the key stands for a
/// character.
pub fn classify(decoded: Decoded, enter: bool) -> (r: (Key, Option<pc_keyboard::KeyCode>))
    ensures
        r == classify_spec(decoded, enter),
{
    match decoded {
        Decoded::Unicode(c) => if c == '\n' {
            (Key::Enter, None)
        } else {
            (Key::Unicode(c), None)
        },
        Decoded::RawKey(code) => if enter {
            (Key::Enter, None)
        } else {
            (Key::Raw, Some(code))
        },
    }
}

/// The keyboard: the decoder and the line typed so far.
pub struct KeyboardState {
    decoder: Decoder,
    line: KeyBuffer,
}

impl KeyboardState {
    /// The line typed so far.
    pub closed spec fn line(&self) -> Seq<u8> {
        self.line.keys@
    }

    /// A keyboard with nothing typed.
    pub fn new() -> (k: KeyboardState)
        ensures
            k.line() == Seq::<u8>::empty(),
    {
        KeyboardState { decoder: new_decoder(), line: KeyBuffer::new() }
    }

    /// Takes a key that the decoder has completed; `enter` is what the comparison
    /// of a key without a character with the Enter key gave. The Enter key and a
    /// line feed complete the line: it becomes the input that the next read
    /// gets, a new line is begun, and nothing is to be shown. Any other
    /// character joins the line, cut down to its low eight bits, and is to be
    /// shown. Any other key changes nothing and is to be shown by name.
    pub fn on_decoded(
        &mut self,
        decoded: Decoded,
        enter: bool,
        stdin_buf: &mut Option<Vec<u8>>,
    ) -> (r: Option<Echo>)
        ensures
            match classify_spec(decoded, enter) {
                (Key::Enter, _) => {
                    &&& r is None
                    &&& final(self).line() == Seq::<u8>::empty()
                    &&& (*final(stdin_buf)) is Some
                    &&& (*final(stdin_buf))->0@ == old(self).line()
                },
                (Key::Unicode(c), _) => {
                    &&& r == Some(Echo::Char(c))
                    &&& final(self).line() == old(self).line().push(c as u8)
                    &&& *final(stdin_buf) == *old(stdin_buf)
                },
                (Key::Raw, code) => {
                    &&& code is Some
                    &&& r == Some(Echo::Key(code->0))
                    &&& final(self).line() == old(self).line()
                    &&& *final(stdin_buf) == *old(stdin_buf)
                },
            },
    {
        let (key, code) = classify(decoded, enter);
        match self.line.on_key(key, stdin_buf) {
            Some(c) => Some(Echo::Char(c)),
            None => match code {
                Some(code) => Some(Echo::Key(code)),
                None => None,
            },
        }
    }

    /// Takes the scancode that the keyboard interrupt read from the data port. What
    /// the decoder makes of it decides what happens: nothing while no key is
    /// complete; on Enter the line typed becomes the input that the next read
    /// gets; a character joins the line and is to be shown; any other key is to
    /// be shown by name.
    pub fn on_scancode(&mut self, scancode: u8, stdin_buf: &mut Option<Vec<u8>>) -> (r: Option<Echo>)
        ensures
            match r {
                Some(Echo::Char(c)) => {
                    &&& c != '\n'
                    &&& final(self).line() == old(self).line().push(c as u8)
                    &&& *final(stdin_buf) == *old(stdin_buf)
                },
                Some(Echo::Key(_)) => {
                    &&& final(self).line() == old(self).line()
                    &&& *final(stdin_buf) == *old(stdin_buf)
                },
                None => {
                    ||| final(self).line() == old(self).line() && *final(stdin_buf) == *old(
                        stdin_buf,
                    )
                    ||| final(self).line() == Seq::<u8>::empty() && (*final(stdin_buf)) is Some && (
                    *final(stdin_buf))->0@ == old(self).line()
                },
            },
    {
        match add_byte(&mut self.decoder, scancode) {
            Some(key_evt) => match process_keyevent(&mut self.decoder, key_evt) {
                Some(decoded) => {
                    let enter = match &decoded {
                        Decoded::RawKey(code) => is_enter(code),
                        Decoded::Unicode(_) => false,
                    };
                    self.on_decoded(decoded, enter, stdin_buf)
                },
                None => None,
            },
            None => None,
        }
    }
}

} // verus!
