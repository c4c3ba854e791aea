use vstd::prelude::*;
use vstd::utf8::encode_scalar;
use crate::config::{command_views, Bindings, Command, CommandView};
use crate::shortcut::{KeyboardShortcut, ModKeys};
use crate::text::{control, is_control};

verus! {

/// The X11 keysym of the Escape key.
pub const KEYSYM_ESCAPE: u32 = 0xff1b;

/// The X11 keysym of the BackSpace key.
pub const KEYSYM_BACKSPACE: u32 = 0xff08;

/// One key press, as the keyboard grab reports it.
pub struct KeyPress {
    pub mod_keys: ModKeys,
    /// The hardware key code.
    pub key_code: u32,
    /// The key's symbol without shift, if it has one.
    pub key_sym: Option<u32>,
    /// The text that the input method made of the press; often empty.
    pub key_string: String,
}

/// What to do about one key press.
#[derive(Debug)]
pub enum Action {
    /// Stop the loop.
    Exit,
    /// Run these commands, detached, and go on.
    RunCommands(Vec<Command>),
    /// Delete the last word of the journal.
    DeleteWord,
    /// Delete the last character of the journal.
    DeleteChar,
    /// Tell the user how to really exit; change nothing.
    ExitHint,
    /// Append these characters to the journal, in order.
    Insert(Vec<char>),
    /// Nothing to do.
    Ignore,
}

/// Whether a character of typed text goes into the journal.
pub open spec fn should_insert_spec(chr: char) -> bool {
    chr == '\r' || chr == '\t' || !control(chr)
}

/// The character that the journal receives for a typed one: a carriage return becomes a
/// newline.
pub open spec fn normalize(chr: char) -> char {
    if chr == '\r' {
        '\n'
    } else {
        chr
    }
}

/// The characters that typed `text` appends to the journal.
pub open spec fn insertion(text: Seq<char>) -> Seq<char>
    decreases text.len(),
{
    if text.len() == 0 {
        Seq::empty()
    } else if should_insert_spec(text.last()) {
        insertion(text.drop_last()).push(normalize(text.last()))
    } else {
        insertion(text.drop_last())
    }
}

/// Control with shift and Escape: the one way out.
pub open spec fn is_exit_combo(kp: KeyPress) -> bool {
    kp.mod_keys.ctrl && kp.mod_keys.shift && kp.key_sym == Some(KEYSYM_ESCAPE)
}

/// Presses that people use to leave a program: Ctrl-C, Ctrl-D, Ctrl-\\, Ctrl-Z, Escape.
pub open spec fn looks_like_exit_spec(key_string: Seq<char>, key_sym: Option<u32>) -> bool {
    ||| key_string == seq!['\u{3}']
    ||| key_string == seq!['\u{4}']
    ||| key_string == seq!['\u{1c}']
    ||| key_string == seq!['\u{1a}']
    ||| key_sym == Some(KEYSYM_ESCAPE)
}

/// A keysym that stands for a printable Latin-1 character, whose code it equals.
pub open spec fn latin1_keysym(v: u32) -> bool {
    0x20 <= v <= 0x7E || 0xA0 <= v <= 0xFF
}

/// The key character of a press: the one its keysym stands for, else its text where that is
/// one character.
pub open spec fn event_key(kp: KeyPress) -> Option<char> {
    match kp.key_sym {
        Some(v) if latin1_keysym(v) => Some((v as u8) as char),
        _ => if kp.key_string@.len() == 1 {
            Some(kp.key_string@[0])
        } else {
            None
        },
    }
}

/// The shortcut that a press makes, if it has a key character.
pub open spec fn event_shortcut(kp: KeyPress) -> Option<KeyboardShortcut> {
    match event_key(kp) {
        Some(key) => Some(KeyboardShortcut { mod_keys: kp.mod_keys, key }),
        None => None,
    }
}

/// Whether a press matches a binding of `table`.
pub open spec fn is_bound(kp: KeyPress, table: Map<KeyboardShortcut, Seq<CommandView>>) -> bool {
    event_shortcut(kp) is Some && table.contains_key(event_shortcut(kp)->Some_0)
}

/// Whether a typed character goes into the journal: carriage return, tab, and every
/// character that is not a control character.
pub fn should_insert(chr: char) -> (r: bool)
    ensures
        r == should_insert_spec(chr),
{
    chr == '\r' || chr == '\t' || !is_control(chr)
}

/// Whether `s` is exactly the one character `c`.
fn is_single(s: &String, c: char) -> (r: bool)
    ensures
        r == (s@ == seq![c]),
{
    let t = s.as_str();
    if t.unicode_len() == 1 {
        let d = t.get_char(0);
        if d == c {
            assert(s@ =~= seq![c]);
        }
        d == c
    } else {
        proof {
            if s@ == seq![c] {
                assert(seq![c].len() == 1);
            }
        }
        false
    }
}

/// Whether a press looks like an attempt to leave: Ctrl-C, Ctrl-D, Ctrl-\\, Ctrl-Z or
/// Escape.
pub fn looks_like_exit(key_string: &String, key_sym: &Option<u32>) -> (r: bool)
    ensures
        r == looks_like_exit_spec(key_string@, *key_sym),
{
    is_single(key_string, '\u{3}') || is_single(key_string, '\u{4}') || is_single(
        key_string,
        '\u{1c}',
    ) || is_single(key_string, '\u{1a}') || *key_sym == Some(KEYSYM_ESCAPE)
}

/// The characters that typed text appends to the journal, in order.
pub fn insertion_of(text: &String) -> (r: Vec<char>)
    ensures
        r@ == insertion(text@),
{
    let t = text.as_str();
    let n = t.unicode_len();
    let mut out: Vec<char> = Vec::new();
    let mut i: usize = 0;
    assert(t@.take(0) =~= Seq::<char>::empty());
    while i < n
        invariant
            n == t@.len(),
            t@ == text@,
            i <= n,
            out@ == insertion(t@.take(i as int)),
        decreases n - i,
    {
        let c = t.get_char(i);
        proof {
            assert(t@.take(i + 1).drop_last() =~= t@.take(i as int));
            assert(t@.take(i + 1).last() == c);
        }
        if should_insert(c) {
            if c == '\r' {
                out.push('\n');
            } else {
                out.push(c);
            }
        }
        i = i + 1;
    }
    assert(t@.take(n as int) =~= t@);
    out
}

/// The key character of a press: the one its keysym stands for, else its text where that is
/// one character.
fn key_of(kp: &KeyPress) -> (r: Option<char>)
    ensures
        r == event_key(*kp),
{
    match kp.key_sym {
        Some(v) if 0x20 <= v && v <= 0x7E || 0xA0 <= v && v <= 0xFF => Some((v as u8) as char),
        _ => {
            let t = kp.key_string.as_str();
            if t.unicode_len() == 1 {
                Some(t.get_char(0))
            } else {
                None
            }
        },
    }
}

/// Decides what a key press does. In order, the first that applies: Ctrl+Shift+Escape
/// exits; a bound shortcut runs its commands; BackSpace deletes a word with Ctrl, else a
/// character; a press that looks like an exit gets a hint; typed text is inserted;
/// anything else is ignored. Exiting depends on nothing but the press.
pub fn decide(kp: &KeyPress, bindings: &Bindings) -> (r: Action)
    ensures
        is_exit_combo(*kp) ==> r is Exit,
        !is_exit_combo(*kp) && is_bound(*kp, bindings@) ==> r is RunCommands && command_views(
            r->RunCommands_0@,
        ) == bindings@[event_shortcut(*kp)->Some_0],
        !is_exit_combo(*kp) && !is_bound(*kp, bindings@) && kp.key_sym == Some(KEYSYM_BACKSPACE)
            ==> (if kp.mod_keys.ctrl {
            r is DeleteWord
        } else {
            r is DeleteChar
        }),
        !is_exit_combo(*kp) && !is_bound(*kp, bindings@) && kp.key_sym != Some(KEYSYM_BACKSPACE)
            && looks_like_exit_spec(kp.key_string@, kp.key_sym) ==> r is ExitHint,
        !is_exit_combo(*kp) && !is_bound(*kp, bindings@) && kp.key_sym != Some(KEYSYM_BACKSPACE)
            && !looks_like_exit_spec(kp.key_string@, kp.key_sym) && kp.key_string@.len() > 0
            ==> r is Insert && r->Insert_0@ == insertion(kp.key_string@),
        !is_exit_combo(*kp) && !is_bound(*kp, bindings@) && kp.key_sym != Some(KEYSYM_BACKSPACE)
            && !looks_like_exit_spec(kp.key_string@, kp.key_sym) && kp.key_string@.len() == 0
            ==> r is Ignore,
{
    if kp.mod_keys.ctrl && kp.mod_keys.shift && kp.key_sym == Some(KEYSYM_ESCAPE) {
        return Action::Exit;
    }
    if let Some(key) = key_of(kp) {
        let shortcut = KeyboardShortcut { mod_keys: kp.mod_keys, key };
        if let Some(commands) = bindings.resolve(&shortcut) {
            return Action::RunCommands(commands);
        }
    }
    if kp.key_sym == Some(KEYSYM_BACKSPACE) {
        if kp.mod_keys.ctrl {
            Action::DeleteWord
        } else {
            Action::DeleteChar
        }
    } else if looks_like_exit(&kp.key_string, &kp.key_sym) {
        Action::ExitHint
    } else if kp.key_string.as_str().unicode_len() > 0 {
        Action::Insert(insertion_of(&kp.key_string))
    } else {
        Action::Ignore
    }
}

/// A carriage return never reaches the journal as such: typed text never inserts one, a
/// lone carriage return inserts a newline, and a newline is the single byte 0x0A.
pub proof fn lemma_carriage_return(text: Seq<char>)
    ensures
        forall|i: int| 0 <= i < insertion(text).len() ==> insertion(text)[i] != '\r',
        insertion(seq!['\r']) == seq!['\n'],
        encode_scalar('\n' as u32) == seq![0x0Au8],
    decreases text.len(),
{
    if text.len() > 0 {
        let init = text.drop_last();
        lemma_carriage_return(init);
        assert(normalize(text.last()) != '\r');
        assert forall|i: int| 0 <= i < insertion(text).len() implies insertion(text)[i] != '\r' by {
            if should_insert_spec(text.last()) && i == insertion(init).len() {
                assert(insertion(text)[i] == normalize(text.last()));
            } else {
                assert(insertion(text)[i] == insertion(init)[i]);
            }
        }
    }
    let one = seq!['\r'];
    let e = Seq::<char>::empty();
    assert(one.drop_last() =~= e);
    assert(one.last() == '\r');
    assert(insertion(e) == e);
    assert(insertion(one) == insertion(e).push('\n'));
    assert(insertion(seq!['\r']) =~= seq!['\n']);
    assert(('\n' as u32) == 10u32);
    assert(encode_scalar('\n' as u32) =~= seq![0x0Au8]) by {
        assert((10u32 & 0x7F) as u8 == 10u8) by (bit_vector);
    }
}

} // verus!
