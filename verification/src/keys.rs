//! Keys: the chords that move the selection, and what a key stands for.

use vstd::prelude::*;
use crate::split::law_trim_removes_white_space;
use crate::split::lemma_until_char;
use crate::split::lemma_until_char_skip;
use crate::split::split_chars;
use crate::split::split_on;
use crate::split::trim;
use crate::split::trim_chars;
use crate::split::until_char;
use crate::text::ascii_lower;
use crate::text::char_texts;
use crate::text::copy_opt;
use crate::text::lowercase;
use crate::text::opt_text;
use crate::text::same_text;
use crate::text::string_of;
use crate::text::to_ascii_lower;
use crate::text::to_chars;
use crate::text::to_lowercase;
use crate::text::white_space;

verus! {

// ---------------------------------------------------------------------------------------
// Chords
// ---------------------------------------------------------------------------------------

/// Whether a text in lower case names the control key.
pub open spec fn names_ctrl(lower: Seq<char>) -> bool {
    lower == "ctrl"@ || lower == "control"@
}

/// The key of a chord that requires control or nothing: all segments but the last, in lower
/// case, name the control key, and the last is a single character.
pub open spec fn chord_parts(modifiers: Seq<Seq<char>>, key: Seq<char>) -> Option<(bool, char)> {
    if (forall|i: int| 0 <= i < modifiers.len() ==> names_ctrl(#[trigger] modifiers[i]))
        && key.len() == 1 {
        Some((modifiers.len() > 0, ascii_lower(key[0])))
    } else {
        None
    }
}

/// The segments of a chord, which plus signs separate, without the white space around them.
pub open spec fn segments(chord: Seq<char>) -> Seq<Seq<char>> {
    split_on(chord, '+').map_values(|s: Seq<char>| trim(s))
}

/// What a chord requires: whether the control key, and which character in ASCII lower case.
/// `None` for every other kind of chord.
pub open spec fn chord_of(chord: Seq<char>) -> Option<(bool, char)> {
    let segs = segments(chord);
    chord_parts(segs.drop_last().map_values(|s: Seq<char>| lowercase(s)), segs.last())
}

/// The parts of a chord, from the modifiers in lower case and the key.
pub fn chord_from_parts(modifiers: &Vec<String>, key: &Vec<char>) -> (r: Option<(bool, char)>)
    ensures
        r == chord_parts(crate::text::texts(modifiers@), key@),
{
    let ghost mods = crate::text::texts(modifiers@);
    let mut i: usize = 0;
    while i < modifiers.len()
        invariant
            i <= modifiers@.len(),
            mods == crate::text::texts(modifiers@),
            forall|k: int| 0 <= k < i ==> names_ctrl(#[trigger] mods[k]),
        decreases modifiers@.len() - i,
    {
        let m = modifiers[i].as_str();
        if !same_text(m, "ctrl") && !same_text(m, "control") {
            proof {
                assert(!names_ctrl(mods[i as int]));
            }
            return None;
        }
        i += 1;
    }
    if key.len() != 1 {
        return None;
    }
    Some((modifiers.len() > 0, to_ascii_lower(key[0])))
}

/// Reads a chord such as `ctrl+n`: the control key or nothing, and a single character.
pub fn chord_ctrl_char(chord: &str) -> (r: Option<(bool, char)>)
    ensures
        r == chord_of(chord@),
{
    let v = to_chars(chord);
    let parts = split_chars(&v, '+');
    let n = parts.len();
    let key = trim_chars(&parts[n - 1]);
    let ghost segs = segments(chord@);
    let mut modifiers: Vec<String> = Vec::new();
    let mut i: usize = 0;
    let ghost lows = segs.drop_last().map_values(|s: Seq<char>| lowercase(s));
    proof {
        assert(char_texts(parts@).len() == n);
        assert(segs.len() == n);
        assert(segs.last() == trim(char_texts(parts@)[n - 1]));
    }
    while i < n - 1
        invariant
            i <= n - 1,
            n == parts@.len(),
            segs.len() == n,
            segs == segments(chord@),
            char_texts(parts@) == split_on(chord@, '+'),
            lows == segs.drop_last().map_values(|s: Seq<char>| lowercase(s)),
            crate::text::texts(modifiers@) =~= lows.take(i as int),
        decreases n - 1 - i,
    {
        let seg = trim_chars(&parts[i]);
        let text = string_of(&seg);
        let low = to_lowercase(text.as_str());
        let ghost before = crate::text::texts(modifiers@);
        proof {
            assert(char_texts(parts@)[i as int] == parts@[i as int]@);
            assert(segs[i as int] == seg@);
            assert(lows[i as int] == low@);
        }
        modifiers.push(low);
        i += 1;
        proof {
            assert(crate::text::texts(modifiers@) =~= before.push(low@));
        }
    }
    proof {
        assert(lows.take(i as int) =~= lows);
    }
    chord_from_parts(&modifiers, &key)
}

/// A chord without modifiers never requires the control key, and one with a modifier always
/// does.
pub proof fn law_chord_requires_ctrl(chord: Seq<char>)
    ensures
        chord_of(chord) matches Some((ctrl, _)) ==> ctrl == chord.contains('+'),
{
    let parts = split_on(chord, '+');
    crate::split::lemma_until_char(chord, '+');
    let k = crate::split::until_char(chord, '+') as int;
    if k >= chord.len() {
        assert(parts.len() == 1);
        if chord.contains('+') {
            let i = choose|i: int| 0 <= i < chord.len() && chord[i] == '+';
            assert(chord[i] != '+');
        }
    } else {
        assert(chord[k] == '+');
        lemma_split_nonempty(chord.skip(k + 1), '+');
        assert(parts.len() >= 2);
    }
}

proof fn lemma_split_nonempty(s: Seq<char>, c: char)
    ensures
        split_on(s, c).len() >= 1,
{
}

// ---------------------------------------------------------------------------------------
// Key symbols
// ---------------------------------------------------------------------------------------

/// The character that `xkeysym::Keysym::key_char` gives for a key symbol.
pub uninterp spec fn keysym_char(sym: u32) -> Option<char>;

/// Calls `xkeysym::Keysym::key_char` for the symbol with this number. The contract says that
/// the character is determined by the number; the table behind it is not restated.
#[verifier::external_body]
pub(crate) fn key_char(sym: u32) -> (r: Option<char>)
    ensures
        r == keysym_char(sym),
{
    xkeysym::Keysym::from(sym).key_char()
}

/// A chord accepts a key that types the character `typed`.
pub open spec fn accepts(chord: Option<(bool, char)>, ctrl: bool, typed: Option<char>) -> bool {
    match (chord, typed) {
        (Some((need_ctrl, c)), Some(k)) => ctrl == need_ctrl && ascii_lower(k) == c,
        _ => false,
    }
}

/// Whether a chord accepts a key that types the character `typed`.
pub fn chord_accepts(chord: Option<(bool, char)>, ctrl: bool, typed: Option<char>) -> (r: bool)
    ensures
        r == accepts(chord, ctrl, typed),
{
    match (chord, typed) {
        (Some((need_ctrl, c)), Some(k)) => ctrl == need_ctrl && to_ascii_lower(k) == c,
        _ => false,
    }
}

/// Whether a chord accepts a key symbol.
pub fn nav_matches(chord: Option<(bool, char)>, ctrl_pressed: bool, sym: u32) -> (r: bool)
    ensures
        r == accepts(chord, ctrl_pressed, keysym_char(sym)),
{
    let typed = key_char(sym);
    chord_accepts(chord, ctrl_pressed, typed)
}

/// The chords that move the selection.
#[derive(Clone, Copy, Debug)]
pub struct NavKeys {
    pub select_next: Option<(bool, char)>,
    pub select_prev: Option<(bool, char)>,
}

/// What a key stands for.
#[derive(Debug)]
pub enum Key {
    Escape,
    Enter,
    Backspace,
    ArrowDown,
    ArrowUp,
    ArrowLeft,
    ArrowRight,
    Tab,
    Delete,
    Space,
    /// A key that types a text.
    Character(String),
}

/// The key symbol of the escape key.
pub const SYM_ESCAPE: u32 = 0xff1b;

/// The key symbol of the return key.
pub const SYM_RETURN: u32 = 0xff0d;

/// The key symbol of the backspace key.
pub const SYM_BACKSPACE: u32 = 0xff08;

/// The key symbol of the down arrow.
pub const SYM_DOWN: u32 = 0xff54;

/// The key symbol of the up arrow.
pub const SYM_UP: u32 = 0xff52;

/// The key symbol of the left arrow.
pub const SYM_LEFT: u32 = 0xff51;

/// The key symbol of the right arrow.
pub const SYM_RIGHT: u32 = 0xff53;

/// The key symbol of the tabulator key.
pub const SYM_TAB: u32 = 0xff09;

/// The key symbol of the tabulator key with shift.
pub const SYM_ISO_LEFT_TAB: u32 = 0xfe20;

/// The key symbol of the delete key.
pub const SYM_DELETE: u32 = 0xffff;

/// The key symbol of the space bar.
pub const SYM_SPACE: u32 = 0x0020;

/// What a key stands for, in a specification.
pub enum KeyModel {
    Escape,
    Enter,
    Backspace,
    ArrowDown,
    ArrowUp,
    ArrowLeft,
    ArrowRight,
    Tab,
    Delete,
    Space,
    Character(Seq<char>),
}

impl View for Key {
    type V = KeyModel;

    open spec fn view(&self) -> KeyModel {
        match self {
            Key::Escape => KeyModel::Escape,
            Key::Enter => KeyModel::Enter,
            Key::Backspace => KeyModel::Backspace,
            Key::ArrowDown => KeyModel::ArrowDown,
            Key::ArrowUp => KeyModel::ArrowUp,
            Key::ArrowLeft => KeyModel::ArrowLeft,
            Key::ArrowRight => KeyModel::ArrowRight,
            Key::Tab => KeyModel::Tab,
            Key::Delete => KeyModel::Delete,
            Key::Space => KeyModel::Space,
            Key::Character(s) => KeyModel::Character(s@),
        }
    }
}

/// What a key symbol stands for: first the named keys, then the chords that move the
/// selection, then the text that the key types. A key that is none of these stands for
/// nothing. `typed` is the character of the symbol, `text` what the key types.
pub open spec fn key_for(
    sym: u32,
    typed: Option<char>,
    text: Option<Seq<char>>,
    ctrl: bool,
    nav: NavKeys,
) -> Option<KeyModel> {
    if sym == SYM_ESCAPE {
        Some(KeyModel::Escape)
    } else if sym == SYM_RETURN {
        Some(KeyModel::Enter)
    } else if sym == SYM_BACKSPACE {
        Some(KeyModel::Backspace)
    } else if sym == SYM_DOWN {
        Some(KeyModel::ArrowDown)
    } else if sym == SYM_UP {
        Some(KeyModel::ArrowUp)
    } else if sym == SYM_LEFT {
        Some(KeyModel::ArrowLeft)
    } else if sym == SYM_RIGHT {
        Some(KeyModel::ArrowRight)
    } else if sym == SYM_TAB {
        Some(KeyModel::Tab)
    } else if sym == SYM_DELETE {
        Some(KeyModel::Delete)
    } else if sym == SYM_SPACE {
        Some(KeyModel::Space)
    } else if accepts(nav.select_next, ctrl, typed) {
        Some(KeyModel::ArrowDown)
    } else if accepts(nav.select_prev, ctrl, typed) {
        Some(KeyModel::ArrowUp)
    } else {
        match text {
            Some(t) => Some(KeyModel::Character(t)),
            None => None,
        }
    }
}

/// The model of an optional key.
pub open spec fn opt_key(k: Option<Key>) -> Option<KeyModel> {
    match k {
        Some(k) => Some(k@),
        None => None,
    }
}

/// What a key stands for, from its symbol, the character of the symbol and its text.
pub fn resolve_key(
    sym: u32,
    typed: Option<char>,
    text: &Option<String>,
    ctrl: bool,
    nav: NavKeys,
) -> (r: Option<Key>)
    ensures
        opt_key(r) == key_for(sym, typed, opt_text(*text), ctrl, nav),
{
    if sym == SYM_ESCAPE {
        Some(Key::Escape)
    } else if sym == SYM_RETURN {
        Some(Key::Enter)
    } else if sym == SYM_BACKSPACE {
        Some(Key::Backspace)
    } else if sym == SYM_DOWN {
        Some(Key::ArrowDown)
    } else if sym == SYM_UP {
        Some(Key::ArrowUp)
    } else if sym == SYM_LEFT {
        Some(Key::ArrowLeft)
    } else if sym == SYM_RIGHT {
        Some(Key::ArrowRight)
    } else if sym == SYM_TAB {
        Some(Key::Tab)
    } else if sym == SYM_DELETE {
        Some(Key::Delete)
    } else if sym == SYM_SPACE {
        Some(Key::Space)
    } else if chord_accepts(nav.select_next, ctrl, typed) {
        Some(Key::ArrowDown)
    } else if chord_accepts(nav.select_prev, ctrl, typed) {
        Some(Key::ArrowUp)
    } else {
        match copy_opt(text) {
            Some(t) => Some(Key::Character(t)),
            None => None,
        }
    }
}

/// What a key symbol with the text that it types stands for.
pub fn logical_key(sym: u32, text: &Option<String>, ctrl: bool, nav: NavKeys) -> (r: Option<Key>)
    ensures
        opt_key(r) == key_for(sym, keysym_char(sym), opt_text(*text), ctrl, nav),
{
    let typed = key_char(sym);
    resolve_key(sym, typed, text, ctrl, nav)
}

// ---------------------------------------------------------------------------------------
// Laws
// ---------------------------------------------------------------------------------------

/// The named keys are known by their symbols, whatever they type and whatever chords move
/// the selection.
pub proof fn law_named_keys(typed: Option<char>, text: Option<Seq<char>>, ctrl: bool, nav: NavKeys)
    ensures
        key_for(0xff1b, typed, text, ctrl, nav) == Some(KeyModel::Escape),
        key_for(0xff0d, typed, text, ctrl, nav) == Some(KeyModel::Enter),
        key_for(0xff08, typed, text, ctrl, nav) == Some(KeyModel::Backspace),
        key_for(0xff54, typed, text, ctrl, nav) == Some(KeyModel::ArrowDown),
        key_for(0xff52, typed, text, ctrl, nav) == Some(KeyModel::ArrowUp),
        key_for(0xff51, typed, text, ctrl, nav) == Some(KeyModel::ArrowLeft),
        key_for(0xff53, typed, text, ctrl, nav) == Some(KeyModel::ArrowRight),
        key_for(0xff09, typed, text, ctrl, nav) == Some(KeyModel::Tab),
        key_for(0xffff, typed, text, ctrl, nav) == Some(KeyModel::Delete),
        key_for(0x20, typed, text, ctrl, nav) == Some(KeyModel::Space),
{
}

/// Every other key moves the selection where a chord asks for its character, in either case,
/// and for the state of the control key, the chord that moves ahead first; and else it stands
/// for the text that it types.
pub proof fn law_other_keys(
    sym: u32,
    typed: Option<char>,
    text: Option<Seq<char>>,
    ctrl: bool,
    nav: NavKeys,
)
    requires
        sym != 0xff1b && sym != 0xff0d && sym != 0xff08 && sym != 0xff54 && sym != 0xff52,
        sym != 0xff51 && sym != 0xff53 && sym != 0xff09 && sym != 0xffff && sym != 0x20,
    ensures
        ({
            let next = typed is Some && nav.select_next == Some((ctrl, ascii_lower(typed->0)));
            let prev = typed is Some && nav.select_prev == Some((ctrl, ascii_lower(typed->0)));
            let key = key_for(sym, typed, text, ctrl, nav);
            &&& next ==> key == Some(KeyModel::ArrowDown)
            &&& prev && !next ==> key == Some(KeyModel::ArrowUp)
            &&& !prev && !next && text is None ==> key is None
            &&& !prev && !next && text is Some ==> key == Some(KeyModel::Character(text->0))
        }),
{
}

/// The lower-case form of an ASCII capital letter lies 32 above it; every other character is
/// its own.
pub proof fn law_ascii_letters_lowered(c: char)
    ensures
        'A' <= c && c <= 'Z' ==> ascii_lower(c) as int == c as int + 32,
        !('A' <= c && c <= 'Z') ==> ascii_lower(c) == c,
{
    if 'A' <= c && c <= 'Z' {
        assert(65 <= c as u8 <= 90);
    }
}

/// A single character is a chord without control, a character behind `ctrl+` or `control+`
/// one with control, and a text of several characters without a plus sign none. Which letters
/// the modifiers are in their lower-case forms says what they name.
pub proof fn law_chords(modifier: Seq<char>, c: char, key: Seq<char>)
    requires
        !modifier.contains('+'),
        c != '+' && !white_space(c),
        !key.contains('+'),
        key.len() == 0 || (!white_space(key[0]) && !white_space(key.last())),
        modifier.len() == 0 || (!white_space(modifier[0]) && !white_space(modifier.last())),
    ensures
        chord_of(seq![c]) == Some((false, ascii_lower(c))),
        key.len() != 1 ==> chord_of(key) is None,
        lowercase(modifier) == "ctrl"@ || lowercase(modifier) == "control"@ ==> chord_of(
            modifier + seq!['+', c],
        ) == Some((true, ascii_lower(c))),
        lowercase(modifier) != "ctrl"@ && lowercase(modifier) != "control"@ ==> chord_of(
            modifier + seq!['+', c],
        ) is None,
{
    let e = Seq::<char>::empty();
    let one = seq![c];
    lemma_until_char(one, '+');
    assert(split_on(one, '+') =~= seq![one]);
    law_trim_removes_white_space(e, one, e);
    assert(e + one + e =~= one);
    assert(segments(one) =~= seq![one]);
    assert(segments(one).drop_last().len() == 0);
    lemma_until_char(key, '+');
    if until_char(key, '+') < key.len() {
        assert(key.contains(key[until_char(key, '+') as int]));
    }
    assert(split_on(key, '+') =~= seq![key]);
    law_trim_removes_white_space(e, key, e);
    assert(e + key + e =~= key);
    assert(segments(key) =~= seq![key]);
    let chord = modifier + seq!['+', c];
    let n = modifier.len() as int;
    assert forall|j: int| 0 <= j < n implies chord[j] != '+' by {
        assert(modifier.contains(modifier[j]));
    }
    lemma_until_char_skip(chord, '+', n);
    assert(chord.skip(n)[0] == '+');
    assert(chord.take(n) =~= modifier);
    assert(chord.skip(n + 1) =~= one);
    assert(split_on(chord, '+') =~= seq![modifier, one]);
    law_trim_removes_white_space(e, modifier, e);
    assert(e + modifier + e =~= modifier);
    let segs = segments(chord);
    assert(segs =~= seq![modifier, one]);
    let mods = segs.drop_last().map_values(|s: Seq<char>| lowercase(s));
    assert(mods =~= seq![lowercase(modifier)]);
    assert(mods[0] == lowercase(modifier));
}

} // verus!
