use vstd::prelude::*;
use vstd::string::*;
use vstd::utf8::*;
use crate::config::Keybindings;
use crate::multiplexer::layout::SplitDirection;
use crate::text::{chars_of, trim_chars, trimmed};

verus! {

broadcast use vstd::string::group_string_axioms;

/// A named (non-character) key of the keyboard.
#[derive(Debug, Clone)]
pub enum NamedKey {
    Enter,
    Backspace,
    Tab,
    Escape,
    ArrowUp,
    ArrowDown,
    ArrowRight,
    ArrowLeft,
    Home,
    End,
    Delete,
    Insert,
    PageUp,
    PageDown,
    F1,
    F2,
    F3,
    F4,
    F5,
    F6,
    F7,
    F8,
    F9,
    F10,
    F11,
    F12,
    /// Any other named key, by its name (e.g. `Space`).
    Other(String),
}

/// A key press.
#[derive(Debug, Clone)]
pub enum Key {
    /// A key that produces characters, with the characters it produces.
    Character(String),
    Named(NamedKey),
    Unidentified,
}

/// Modifier keys held during a key press.
#[derive(Debug, Clone, Copy, PartialEq, Eq, Structural)]
pub struct Modifiers {
    pub control: bool,
    pub shift: bool,
    pub alt: bool,
}

impl Modifiers {
    /// No modifier.
    pub fn none() -> (m: Self)
        ensures
            m == (Modifiers { control: false, shift: false, alt: false }),
    {
        Modifiers { control: false, shift: false, alt: false }
    }

    /// Control alone.
    pub fn ctrl() -> (m: Self)
        ensures
            m == (Modifiers { control: true, shift: false, alt: false }),
    {
        Modifiers { control: true, shift: false, alt: false }
    }

    /// Control and shift.
    pub fn ctrl_shift() -> (m: Self)
        ensures
            m == (Modifiers { control: true, shift: true, alt: false }),
    {
        Modifiers { control: true, shift: true, alt: false }
    }
}

/// The name of a named key (`Tab`, `PageDown`, `F1`, …).
pub open spec fn key_name(n: NamedKey) -> Seq<char> {
    match n {
        NamedKey::Enter => "Enter"@,
        NamedKey::Backspace => "Backspace"@,
        NamedKey::Tab => "Tab"@,
        NamedKey::Escape => "Escape"@,
        NamedKey::ArrowUp => "ArrowUp"@,
        NamedKey::ArrowDown => "ArrowDown"@,
        NamedKey::ArrowRight => "ArrowRight"@,
        NamedKey::ArrowLeft => "ArrowLeft"@,
        NamedKey::Home => "Home"@,
        NamedKey::End => "End"@,
        NamedKey::Delete => "Delete"@,
        NamedKey::Insert => "Insert"@,
        NamedKey::PageUp => "PageUp"@,
        NamedKey::PageDown => "PageDown"@,
        NamedKey::F1 => "F1"@,
        NamedKey::F2 => "F2"@,
        NamedKey::F3 => "F3"@,
        NamedKey::F4 => "F4"@,
        NamedKey::F5 => "F5"@,
        NamedKey::F6 => "F6"@,
        NamedKey::F7 => "F7"@,
        NamedKey::F8 => "F8"@,
        NamedKey::F9 => "F9"@,
        NamedKey::F10 => "F10"@,
        NamedKey::F11 => "F11"@,
        NamedKey::F12 => "F12"@,
        NamedKey::Other(s) => s@,
    }
}

/// The name of a named key.
pub fn named_key_name(n: &NamedKey) -> (s: String)
    ensures
        s@ == key_name(*n),
{
    match n {
        NamedKey::Enter => String::from_str("Enter"),
        NamedKey::Backspace => String::from_str("Backspace"),
        NamedKey::Tab => String::from_str("Tab"),
        NamedKey::Escape => String::from_str("Escape"),
        NamedKey::ArrowUp => String::from_str("ArrowUp"),
        NamedKey::ArrowDown => String::from_str("ArrowDown"),
        NamedKey::ArrowRight => String::from_str("ArrowRight"),
        NamedKey::ArrowLeft => String::from_str("ArrowLeft"),
        NamedKey::Home => String::from_str("Home"),
        NamedKey::End => String::from_str("End"),
        NamedKey::Delete => String::from_str("Delete"),
        NamedKey::Insert => String::from_str("Insert"),
        NamedKey::PageUp => String::from_str("PageUp"),
        NamedKey::PageDown => String::from_str("PageDown"),
        NamedKey::F1 => String::from_str("F1"),
        NamedKey::F2 => String::from_str("F2"),
        NamedKey::F3 => String::from_str("F3"),
        NamedKey::F4 => String::from_str("F4"),
        NamedKey::F5 => String::from_str("F5"),
        NamedKey::F6 => String::from_str("F6"),
        NamedKey::F7 => String::from_str("F7"),
        NamedKey::F8 => String::from_str("F8"),
        NamedKey::F9 => String::from_str("F9"),
        NamedKey::F10 => String::from_str("F10"),
        NamedKey::F11 => String::from_str("F11"),
        NamedKey::F12 => String::from_str("F12"),
        NamedKey::Other(s) => s.clone(),
    }
}

/// `c` with ASCII upper-case letters made lower-case.
pub open spec fn ascii_lower(c: char) -> char {
    if 'A' <= c <= 'Z' {
        ((c as u32) + 32) as char
    } else {
        c
    }
}

/// `s` with ASCII upper-case letters made lower-case.
pub open spec fn lower(s: Seq<char>) -> Seq<char> {
    s.map_values(|c: char| ascii_lower(c))
}

/// `c` with an ASCII upper-case letter made lower-case.
pub fn to_ascii_lower(c: char) -> (r: char)
    ensures
        r == ascii_lower(c),
{
    if 'A' <= c && c <= 'Z' {
        let b = c as u32 + 32;
        assert(0x61 <= b <= 0x7a);
        char_from_ascii(b)
    } else {
        c
    }
}

fn char_from_ascii(b: u32) -> (c: char)
    requires
        b < 128,
    ensures
        c == b as char,
{
    let x = b as u8;
    x as char
}

/// What a binding asks for: its modifiers and its key (lower-case).
pub struct BindingSpec {
    pub ctrl: bool,
    pub shift: bool,
    pub alt: bool,
    pub key: Seq<char>,
}

/// A binding after one more `+`-separated part, white space around it
/// ignored: `ctrl`/`control`, `shift`, `alt` (any case) set modifiers,
/// anything else becomes the key.
pub open spec fn classify(b: BindingSpec, part: Seq<char>) -> BindingSpec {
    let p = lower(trimmed(part));
    if p == "ctrl"@ || p == "control"@ {
        BindingSpec { ctrl: true, ..b }
    } else if p == "shift"@ {
        BindingSpec { shift: true, ..b }
    } else if p == "alt"@ {
        BindingSpec { alt: true, ..b }
    } else {
        BindingSpec { key: p, ..b }
    }
}

/// The binding read from position `i` of `s` on, `cur` being the part read so far.
pub open spec fn parse_from(s: Seq<char>, i: int, cur: Seq<char>, b: BindingSpec) -> BindingSpec
    decreases s.len() - i,
{
    if i < 0 || i >= s.len() {
        classify(b, cur)
    } else if s[i] == '+' {
        parse_from(s, i + 1, Seq::empty(), classify(b, cur))
    } else {
        parse_from(s, i + 1, cur.push(s[i]), b)
    }
}

/// What the binding `s` (like `ctrl+shift+h`) asks for.
pub open spec fn parse_binding(s: Seq<char>) -> BindingSpec {
    parse_from(s, 0, Seq::empty(), BindingSpec { ctrl: false, shift: false, alt: false, key: Seq::empty() })
}

/// Whether the key press matches the binding: the same modifiers, and the
/// key's characters (or name) equal the binding's key up to ASCII case.
pub open spec fn spec_matches(key: Key, m: Modifiers, binding: Seq<char>) -> bool {
    let b = parse_binding(binding);
    &&& m.control == b.ctrl
    &&& m.shift == b.shift
    &&& m.alt == b.alt
    &&& b.key.len() > 0
    &&& match key {
        Key::Character(c) => lower(c@) == b.key,
        Key::Named(n) => lower(key_name(n)) == b.key,
        Key::Unidentified => false,
    }
}

/// Whether `a` and `b` are the same characters.
fn chars_eq(a: &Vec<char>, b: &Vec<char>) -> (r: bool)
    ensures
        r == (a@ == b@),
{
    if a.len() != b.len() {
        return false;
    }
    let mut i: usize = 0;
    while i < a.len()
        invariant
            i <= a@.len(),
            a@.len() == b@.len(),
            forall|j: int| 0 <= j < i ==> a@[j] == b@[j],
        decreases a@.len() - i,
    {
        if a[i] != b[i] {
            return false;
        }
        i = i + 1;
    }
    assert(a@ =~= b@);
    true
}

/// `v` in ASCII lower case.
fn lower_chars(v: &Vec<char>) -> (r: Vec<char>)
    ensures
        r@ == lower(v@),
{
    let mut r: Vec<char> = Vec::new();
    let mut i: usize = 0;
    while i < v.len()
        invariant
            i <= v@.len(),
            r@ == lower(v@.take(i as int)),
        decreases v@.len() - i,
    {
        r.push(to_ascii_lower(v[i]));
        i = i + 1;
        assert(r@ =~= lower(v@.take(i as int)));
    }
    assert(v@.take(v@.len() as int) =~= v@);
    r
}

fn classify_part(b: (bool, bool, bool, Vec<char>), part: &Vec<char>) -> (r: (bool, bool, bool, Vec<char>))
    ensures
        ({
            let c = classify(BindingSpec { ctrl: b.0, shift: b.1, alt: b.2, key: b.3@ }, part@);
            r.0 == c.ctrl && r.1 == c.shift && r.2 == c.alt && r.3@ == c.key
        }),
{
    let p = lower_chars(&trim_chars(part));
    let ctrl = chars_of("ctrl");
    let control = chars_of("control");
    let shift = chars_of("shift");
    let alt = chars_of("alt");
    if chars_eq(&p, &ctrl) || chars_eq(&p, &control) {
        (true, b.1, b.2, b.3)
    } else if chars_eq(&p, &shift) {
        (b.0, true, b.2, b.3)
    } else if chars_eq(&p, &alt) {
        (b.0, b.1, true, b.3)
    } else {
        (b.0, b.1, b.2, p)
    }
}

/// Whether the key press `key` with `modifiers` matches `binding` (like
/// `ctrl+shift+h` or `Ctrl + Shift + H`; parts are separated by `+`,
/// compared without the white space around them and without regard to
/// ASCII case).
pub fn matches_binding(key: &Key, modifiers: Modifiers, binding: &str) -> (r: bool)
    ensures
        r == spec_matches(*key, modifiers, binding@),
{
    let s = chars_of(binding);
    let mut b: (bool, bool, bool, Vec<char>) = (false, false, false, Vec::new());
    let mut cur: Vec<char> = Vec::new();
    let mut i: usize = 0;
    let ghost init = BindingSpec { ctrl: false, shift: false, alt: false, key: Seq::empty() };
    assert(b.3@ =~= Seq::<char>::empty());
    assert(cur@ =~= Seq::<char>::empty());
    while i < s.len()
        invariant
            i <= s@.len(),
            s@ == binding@,
            parse_binding(s@) == parse_from(
                s@,
                i as int,
                cur@,
                BindingSpec { ctrl: b.0, shift: b.1, alt: b.2, key: b.3@ },
            ),
        decreases s@.len() - i,
    {
        if s[i] == '+' {
            b = classify_part(b, &cur);
            cur = Vec::new();
            assert(cur@ =~= Seq::<char>::empty());
        } else {
            cur.push(s[i]);
        }
        i = i + 1;
    }
    b = classify_part(b, &cur);
    if modifiers.control != b.0 || modifiers.shift != b.1 || modifiers.alt != b.2 {
        return false;
    }
    if b.3.len() == 0 {
        return false;
    }
    match key {
        Key::Character(c) => {
            let cs = chars_of(c.as_str());
            let l = lower_chars(&cs);
            chars_eq(&l, &b.3)
        },
        Key::Named(n) => {
            let name = named_key_name(n);
            let cs = chars_of(name.as_str());
            let l = lower_chars(&cs);
            chars_eq(&l, &b.3)
        },
        Key::Unidentified => false,
    }
}

/// The bytes a terminal expects for a named key (VT/xterm sequences).
pub open spec fn named_key_bytes(n: NamedKey, shift: bool) -> Seq<u8> {
    match n {
        NamedKey::Enter => seq![0x0Du8],
        NamedKey::Backspace => seq![0x7Fu8],
        NamedKey::Tab => if shift {
            seq![0x1Bu8, 0x5B, 0x5A]
        } else {
            seq![0x09u8]
        },
        NamedKey::Escape => seq![0x1Bu8],
        NamedKey::ArrowUp => seq![0x1Bu8, 0x5B, 0x41],
        NamedKey::ArrowDown => seq![0x1Bu8, 0x5B, 0x42],
        NamedKey::ArrowRight => seq![0x1Bu8, 0x5B, 0x43],
        NamedKey::ArrowLeft => seq![0x1Bu8, 0x5B, 0x44],
        NamedKey::Home => seq![0x1Bu8, 0x5B, 0x48],
        NamedKey::End => seq![0x1Bu8, 0x5B, 0x46],
        NamedKey::Delete => seq![0x1Bu8, 0x5B, 0x33, 0x7E],
        NamedKey::Insert => seq![0x1Bu8, 0x5B, 0x32, 0x7E],
        NamedKey::PageUp => seq![0x1Bu8, 0x5B, 0x35, 0x7E],
        NamedKey::PageDown => seq![0x1Bu8, 0x5B, 0x36, 0x7E],
        NamedKey::F1 => seq![0x1Bu8, 0x4F, 0x50],
        NamedKey::F2 => seq![0x1Bu8, 0x4F, 0x51],
        NamedKey::F3 => seq![0x1Bu8, 0x4F, 0x52],
        NamedKey::F4 => seq![0x1Bu8, 0x4F, 0x53],
        NamedKey::F5 => seq![0x1Bu8, 0x5B, 0x31, 0x35, 0x7E],
        NamedKey::F6 => seq![0x1Bu8, 0x5B, 0x31, 0x37, 0x7E],
        NamedKey::F7 => seq![0x1Bu8, 0x5B, 0x31, 0x38, 0x7E],
        NamedKey::F8 => seq![0x1Bu8, 0x5B, 0x31, 0x39, 0x7E],
        NamedKey::F9 => seq![0x1Bu8, 0x5B, 0x32, 0x30, 0x7E],
        NamedKey::F10 => seq![0x1Bu8, 0x5B, 0x32, 0x31, 0x7E],
        NamedKey::F11 => seq![0x1Bu8, 0x5B, 0x32, 0x33, 0x7E],
        NamedKey::F12 => seq![0x1Bu8, 0x5B, 0x32, 0x34, 0x7E],
        NamedKey::Other(_) => Seq::empty(),
    }
}

/// Whether the text holds a printable character (not a control character).
pub open spec fn has_printable(t: Seq<char>) -> bool {
    exists|i: int| 0 <= i < t.len() && t[i] >= ' ' && t[i] != '\x7f'
}

/// The bytes sent to the program for a key press: Ctrl+letter gives its
/// control byte, printable text its UTF-8 encoding, named keys their
/// escape sequence, anything else nothing.
pub open spec fn key_bytes(key: Key, m: Modifiers, text: Option<Seq<char>>) -> Seq<u8> {
    let ctrl_letter = match key {
        Key::Character(c) => {
            let ch = ascii_lower(if c@.len() > 0 {
                c@[0]
            } else {
                '\0'
            });
            if m.control && !m.alt && 'a' <= ch <= 'z' {
                Some(((ch as u32) - 0x61 + 1) as u8)
            } else {
                None
            }
        },
        _ => None,
    };
    match ctrl_letter {
        Some(b) => seq![b],
        None => match text {
            Some(t) if t.len() > 0 && has_printable(t) => encode_utf8(t),
            _ => match key {
                Key::Named(n) => named_key_bytes(n, m.shift),
                _ => Seq::empty(),
            },
        },
    }
}

/// The bytes of a named key's sequence.
fn named_bytes(n: &NamedKey, shift: bool) -> (v: Vec<u8>)
    ensures
        v@ == named_key_bytes(*n, shift),
{
    let v: Vec<u8> = match n {
        NamedKey::Enter => vec![0x0D],
        NamedKey::Backspace => vec![0x7F],
        NamedKey::Tab => if shift {
            vec![0x1B, 0x5B, 0x5A]
        } else {
            vec![0x09]
        },
        NamedKey::Escape => vec![0x1B],
        NamedKey::ArrowUp => vec![0x1B, 0x5B, 0x41],
        NamedKey::ArrowDown => vec![0x1B, 0x5B, 0x42],
        NamedKey::ArrowRight => vec![0x1B, 0x5B, 0x43],
        NamedKey::ArrowLeft => vec![0x1B, 0x5B, 0x44],
        NamedKey::Home => vec![0x1B, 0x5B, 0x48],
        NamedKey::End => vec![0x1B, 0x5B, 0x46],
        NamedKey::Delete => vec![0x1B, 0x5B, 0x33, 0x7E],
        NamedKey::Insert => vec![0x1B, 0x5B, 0x32, 0x7E],
        NamedKey::PageUp => vec![0x1B, 0x5B, 0x35, 0x7E],
        NamedKey::PageDown => vec![0x1B, 0x5B, 0x36, 0x7E],
        NamedKey::F1 => vec![0x1B, 0x4F, 0x50],
        NamedKey::F2 => vec![0x1B, 0x4F, 0x51],
        NamedKey::F3 => vec![0x1B, 0x4F, 0x52],
        NamedKey::F4 => vec![0x1B, 0x4F, 0x53],
        NamedKey::F5 => vec![0x1B, 0x5B, 0x31, 0x35, 0x7E],
        NamedKey::F6 => vec![0x1B, 0x5B, 0x31, 0x37, 0x7E],
        NamedKey::F7 => vec![0x1B, 0x5B, 0x31, 0x38, 0x7E],
        NamedKey::F8 => vec![0x1B, 0x5B, 0x31, 0x39, 0x7E],
        NamedKey::F9 => vec![0x1B, 0x5B, 0x32, 0x30, 0x7E],
        NamedKey::F10 => vec![0x1B, 0x5B, 0x32, 0x31, 0x7E],
        NamedKey::F11 => vec![0x1B, 0x5B, 0x32, 0x33, 0x7E],
        NamedKey::F12 => vec![0x1B, 0x5B, 0x32, 0x34, 0x7E],
        NamedKey::Other(_) => Vec::new(),
    };
    assert(v@ =~= named_key_bytes(*n, shift));
    v
}

/// The bytes of `s`'s UTF-8 encoding.
fn utf8_bytes(s: &str) -> (v: Vec<u8>)
    ensures
        v@ == encode_utf8(s@),
{
    let b = s.as_bytes();
    let mut v: Vec<u8> = Vec::new();
    let mut i: usize = 0;
    while i < b.len()
        invariant
            i <= b@.len(),
            b@ == s.spec_bytes(),
            v@ == b@.take(i as int),
        decreases b@.len() - i,
    {
        v.push(b[i]);
        i = i + 1;
        assert(v@ =~= b@.take(i as int));
    }
    assert(b@.take(b@.len() as int) =~= b@);
    v
}

/// The bytes to send to the program in the pane for a key press with
/// `modifiers` producing `text`.
pub fn key_to_bytes(key: &Key, modifiers: Modifiers, text: Option<&str>) -> (v: Vec<u8>)
    ensures
        v@ == key_bytes(
            *key,
            modifiers,
            match text {
                Some(t) => Some(t@),
                None => None,
            },
        ),
{
    if modifiers.control && !modifiers.alt {
        if let Key::Character(c) = key {
            let cs = chars_of(c.as_str());
            let first = if cs.len() > 0 {
                cs[0]
            } else {
                '\0'
            };
            let ch = to_ascii_lower(first);
            if 'a' <= ch && ch <= 'z' {
                let b = (ch as u32 - 0x61 + 1) as u8;
                let v = vec![b];
                assert(v@ =~= seq![b]);
                return v;
            }
        }
    }
    if let Some(t) = text {
        let cs = chars_of(t);
        if cs.len() > 0 {
            let mut i: usize = 0;
            let mut found = false;
            while i < cs.len()
                invariant
                    i <= cs@.len(),
                    cs@ == t@,
                    found ==> has_printable(t@),
                    !found ==> forall|j: int| 0 <= j < i ==> !(cs@[j] >= ' ' && cs@[j] != '\x7f'),
                decreases cs@.len() - i,
            {
                if cs[i] >= ' ' && cs[i] != '\x7f' {
                    found = true;
                    assert(t@[i as int] >= ' ' && t@[i as int] != '\x7f');
                }
                i = i + 1;
            }
            if found {
                return utf8_bytes(t);
            }
        }
    }
    match key {
        Key::Named(n) => named_bytes(n, modifiers.shift),
        _ => Vec::new(),
    }
}

/// What a key press asks of the multiplexer.
#[derive(Debug, Clone)]
pub enum Command {
    ToggleHelp,
    CancelRename,
    CancelRenameWorkspace,
    SplitPane(SplitDirection),
    FocusNext,
    FocusPrev,
    ClosePane,
    StartRenameTab(usize),
    FocusTabNext,
    FocusTabPrev,
    FocusWorkspaceNext,
    FocusWorkspacePrev,
    NewTabIn(usize),
    NewWorkspace,
    KeyInput(Vec<u8>),
}

/// What the multiplexer is in the middle of when a key is pressed.
#[derive(Debug, Clone, Copy, Hash)]
pub struct KeyContext {
    pub renaming_tab: bool,
    pub renaming_workspace: bool,
    pub show_help: bool,
    pub active_tab_id: usize,
    pub active_workspace_id: usize,
}

/// Whether `key` is the named key `n` (among those without text).
pub open spec fn is_named(key: Key, n: NamedKey) -> bool {
    match key {
        Key::Named(k) => k == n,
        _ => false,
    }
}

/// What a command stands for, with the bytes of a key input as a sequence.
pub enum CommandModel {
    ToggleHelp,
    CancelRename,
    CancelRenameWorkspace,
    SplitPane(SplitDirection),
    FocusNext,
    FocusPrev,
    ClosePane,
    StartRenameTab(usize),
    FocusTabNext,
    FocusTabPrev,
    FocusWorkspaceNext,
    FocusWorkspacePrev,
    NewTabIn(usize),
    NewWorkspace,
    KeyInput(Seq<u8>),
}

impl View for Command {
    type V = CommandModel;

    open spec fn view(&self) -> CommandModel {
        match self {
            Command::ToggleHelp => CommandModel::ToggleHelp,
            Command::CancelRename => CommandModel::CancelRename,
            Command::CancelRenameWorkspace => CommandModel::CancelRenameWorkspace,
            Command::SplitPane(d) => CommandModel::SplitPane(*d),
            Command::FocusNext => CommandModel::FocusNext,
            Command::FocusPrev => CommandModel::FocusPrev,
            Command::ClosePane => CommandModel::ClosePane,
            Command::StartRenameTab(t) => CommandModel::StartRenameTab(*t),
            Command::FocusTabNext => CommandModel::FocusTabNext,
            Command::FocusTabPrev => CommandModel::FocusTabPrev,
            Command::FocusWorkspaceNext => CommandModel::FocusWorkspaceNext,
            Command::FocusWorkspacePrev => CommandModel::FocusWorkspacePrev,
            Command::NewTabIn(w) => CommandModel::NewTabIn(*w),
            Command::NewWorkspace => CommandModel::NewWorkspace,
            Command::KeyInput(v) => CommandModel::KeyInput(v@),
        }
    }
}

/// The command for a key press: F1 always toggles help; while help shows
/// only Escape (close the help) passes; else while renaming only Escape
/// (cancel) passes; otherwise the bindings are tried in order, and a key
/// bound to nothing is sent to the pane when it produces bytes.
pub open spec fn spec_dispatch(
    key: Key,
    m: Modifiers,
    text: Option<Seq<char>>,
    kb: Keybindings,
    ctx: KeyContext,
) -> Option<CommandModel> {
    if is_named(key, NamedKey::F1) {
        Some(CommandModel::ToggleHelp)
    } else if ctx.show_help {
        if is_named(key, NamedKey::Escape) {
            Some(CommandModel::ToggleHelp)
        } else {
            None
        }
    } else if ctx.renaming_tab || ctx.renaming_workspace {
        if is_named(key, NamedKey::Escape) {
            if ctx.renaming_workspace {
                Some(CommandModel::CancelRenameWorkspace)
            } else {
                Some(CommandModel::CancelRename)
            }
        } else {
            None
        }
    } else if spec_matches(key, m, kb.split_horizontal@) {
        Some(CommandModel::SplitPane(SplitDirection::Vertical))
    } else if spec_matches(key, m, kb.split_vertical@) {
        Some(CommandModel::SplitPane(SplitDirection::Horizontal))
    } else if spec_matches(key, m, kb.pane_next@) {
        Some(CommandModel::FocusNext)
    } else if spec_matches(key, m, kb.pane_prev@) {
        Some(CommandModel::FocusPrev)
    } else if spec_matches(key, m, kb.close_pane@) {
        Some(CommandModel::ClosePane)
    } else if spec_matches(key, m, kb.rename_pane@) {
        Some(CommandModel::StartRenameTab(ctx.active_tab_id))
    } else if spec_matches(key, m, kb.tab_next@) {
        Some(CommandModel::FocusTabNext)
    } else if spec_matches(key, m, kb.tab_prev@) {
        Some(CommandModel::FocusTabPrev)
    } else if spec_matches(key, m, kb.workspace_next@) {
        Some(CommandModel::FocusWorkspaceNext)
    } else if spec_matches(key, m, kb.workspace_prev@) {
        Some(CommandModel::FocusWorkspacePrev)
    } else if spec_matches(key, m, kb.tab_new@) {
        Some(CommandModel::NewTabIn(ctx.active_workspace_id))
    } else if spec_matches(key, m, kb.workspace_new@) {
        Some(CommandModel::NewWorkspace)
    } else {
        let bytes = key_bytes(key, m, text);
        if bytes.len() == 0 {
            None
        } else {
            Some(CommandModel::KeyInput(bytes))
        }
    }
}

fn is_f1(key: &Key) -> (b: bool)
    ensures
        b == is_named(*key, NamedKey::F1),
{
    match key {
        Key::Named(NamedKey::F1) => true,
        _ => false,
    }
}

fn is_escape(key: &Key) -> (b: bool)
    ensures
        b == is_named(*key, NamedKey::Escape),
{
    match key {
        Key::Named(NamedKey::Escape) => true,
        _ => false,
    }
}

/// The command a key press asks for, if any.
pub fn dispatch_key(
    key: &Key,
    modifiers: Modifiers,
    text: Option<&str>,
    kb: &Keybindings,
    ctx: KeyContext,
) -> (c: Option<Command>)
    ensures
        match c {
            Some(cmd) => Some(cmd@),
            None => None::<CommandModel>,
        } == spec_dispatch(
            *key,
            modifiers,
            match text {
                Some(t) => Some(t@),
                None => None,
            },
            *kb,
            ctx,
        ),
{
    if is_f1(key) {
        return Some(Command::ToggleHelp);
    }
    if ctx.show_help {
        if is_escape(key) {
            return Some(Command::ToggleHelp);
        }
        return None;
    }
    if ctx.renaming_tab || ctx.renaming_workspace {
        if is_escape(key) {
            return if ctx.renaming_workspace {
                Some(Command::CancelRenameWorkspace)
            } else {
                Some(Command::CancelRename)
            };
        }
        return None;
    }
    if matches_binding(key, modifiers, kb.split_horizontal.as_str()) {
        return Some(Command::SplitPane(SplitDirection::Vertical));
    }
    if matches_binding(key, modifiers, kb.split_vertical.as_str()) {
        return Some(Command::SplitPane(SplitDirection::Horizontal));
    }
    if matches_binding(key, modifiers, kb.pane_next.as_str()) {
        return Some(Command::FocusNext);
    }
    if matches_binding(key, modifiers, kb.pane_prev.as_str()) {
        return Some(Command::FocusPrev);
    }
    if matches_binding(key, modifiers, kb.close_pane.as_str()) {
        return Some(Command::ClosePane);
    }
    if matches_binding(key, modifiers, kb.rename_pane.as_str()) {
        return Some(Command::StartRenameTab(ctx.active_tab_id));
    }
    if matches_binding(key, modifiers, kb.tab_next.as_str()) {
        return Some(Command::FocusTabNext);
    }
    if matches_binding(key, modifiers, kb.tab_prev.as_str()) {
        return Some(Command::FocusTabPrev);
    }
    if matches_binding(key, modifiers, kb.workspace_next.as_str()) {
        return Some(Command::FocusWorkspaceNext);
    }
    if matches_binding(key, modifiers, kb.workspace_prev.as_str()) {
        return Some(Command::FocusWorkspacePrev);
    }
    if matches_binding(key, modifiers, kb.tab_new.as_str()) {
        return Some(Command::NewTabIn(ctx.active_workspace_id));
    }
    if matches_binding(key, modifiers, kb.workspace_new.as_str()) {
        return Some(Command::NewWorkspace);
    }
    let bytes = key_to_bytes(key, modifiers, text);
    if bytes.len() == 0 {
        None
    } else {
        Some(Command::KeyInput(bytes))
    }
}

/// F1 toggles the help whatever the modifiers, the bindings and the state
/// of the interface.
pub proof fn law_f1_always_toggles_help(
    m: Modifiers,
    text: Option<Seq<char>>,
    kb: Keybindings,
    ctx: KeyContext,
)
    ensures
        spec_dispatch(Key::Named(NamedKey::F1), m, text, kb, ctx) == Some(CommandModel::ToggleHelp),
{
}

/// While a rename is under way, or while the help shows, every key but F1
/// and Escape is swallowed: nothing reaches the pane or the bindings.
pub proof fn law_modal_states_swallow_keys(
    key: Key,
    m: Modifiers,
    text: Option<Seq<char>>,
    kb: Keybindings,
    ctx: KeyContext,
)
    requires
        ctx.renaming_tab || ctx.renaming_workspace || ctx.show_help,
        !is_named(key, NamedKey::F1),
        !is_named(key, NamedKey::Escape),
    ensures
        spec_dispatch(key, m, text, kb, ctx) is None,
{
}

/// Escape ends what is modal: the help first, then a workspace rename
/// before a tab rename.
pub proof fn law_escape_leaves_modal_state(
    m: Modifiers,
    text: Option<Seq<char>>,
    kb: Keybindings,
    ctx: KeyContext,
)
    requires
        ctx.renaming_tab || ctx.renaming_workspace || ctx.show_help,
    ensures
        spec_dispatch(Key::Named(NamedKey::Escape), m, text, kb, ctx) == Some(
            if ctx.show_help {
                CommandModel::ToggleHelp
            } else if ctx.renaming_workspace {
                CommandModel::CancelRenameWorkspace
            } else {
                CommandModel::CancelRename
            },
        ),
{
}

/// Every named key sends its VT / xterm sequence whatever modifiers are
/// held (Shift+Tab being back-tab): Enter CR, Backspace DEL, Tab HT, Escape
/// ESC, the arrows `ESC [ A` (up), `B` (down), `C` (right), `D` (left),
/// Home `ESC [ H`, End `ESC [ F`, Insert / Delete / Page Up / Page Down
/// `ESC [ 2~`, `3~`, `5~`, `6~`, F1–F4 `ESC O P`…`S`, F5–F12 `ESC [ 15~`,
/// `17~`…`21~`, `23~`, `24~`; other named keys send nothing. Text that
/// holds no printable character does not change that.
pub proof fn law_named_key_sequences(m: Modifiers, t: Seq<char>, other: String)
    ensures
        key_bytes(Key::Named(NamedKey::Enter), m, None) == seq![0x0Du8],
        key_bytes(Key::Named(NamedKey::Backspace), m, None) == seq![0x7Fu8],
        key_bytes(Key::Named(NamedKey::Tab), m, None) == if m.shift {
            seq![0x1Bu8, 0x5B, 0x5A]
        } else {
            seq![0x09u8]
        },
        key_bytes(Key::Named(NamedKey::Escape), m, None) == seq![0x1Bu8],
        key_bytes(Key::Named(NamedKey::ArrowUp), m, None) == seq![0x1Bu8, 0x5B, 0x41],
        key_bytes(Key::Named(NamedKey::ArrowDown), m, None) == seq![0x1Bu8, 0x5B, 0x42],
        key_bytes(Key::Named(NamedKey::ArrowRight), m, None) == seq![0x1Bu8, 0x5B, 0x43],
        key_bytes(Key::Named(NamedKey::ArrowLeft), m, None) == seq![0x1Bu8, 0x5B, 0x44],
        key_bytes(Key::Named(NamedKey::Home), m, None) == seq![0x1Bu8, 0x5B, 0x48],
        key_bytes(Key::Named(NamedKey::End), m, None) == seq![0x1Bu8, 0x5B, 0x46],
        key_bytes(Key::Named(NamedKey::Insert), m, None) == seq![0x1Bu8, 0x5B, 0x32, 0x7E],
        key_bytes(Key::Named(NamedKey::Delete), m, None) == seq![0x1Bu8, 0x5B, 0x33, 0x7E],
        key_bytes(Key::Named(NamedKey::PageUp), m, None) == seq![0x1Bu8, 0x5B, 0x35, 0x7E],
        key_bytes(Key::Named(NamedKey::PageDown), m, None) == seq![0x1Bu8, 0x5B, 0x36, 0x7E],
        key_bytes(Key::Named(NamedKey::F1), m, None) == seq![0x1Bu8, 0x4F, 0x50],
        key_bytes(Key::Named(NamedKey::F2), m, None) == seq![0x1Bu8, 0x4F, 0x51],
        key_bytes(Key::Named(NamedKey::F3), m, None) == seq![0x1Bu8, 0x4F, 0x52],
        key_bytes(Key::Named(NamedKey::F4), m, None) == seq![0x1Bu8, 0x4F, 0x53],
        key_bytes(Key::Named(NamedKey::F5), m, None) == seq![0x1Bu8, 0x5B, 0x31, 0x35, 0x7E],
        key_bytes(Key::Named(NamedKey::F6), m, None) == seq![0x1Bu8, 0x5B, 0x31, 0x37, 0x7E],
        key_bytes(Key::Named(NamedKey::F7), m, None) == seq![0x1Bu8, 0x5B, 0x31, 0x38, 0x7E],
        key_bytes(Key::Named(NamedKey::F8), m, None) == seq![0x1Bu8, 0x5B, 0x31, 0x39, 0x7E],
        key_bytes(Key::Named(NamedKey::F9), m, None) == seq![0x1Bu8, 0x5B, 0x32, 0x30, 0x7E],
        key_bytes(Key::Named(NamedKey::F10), m, None) == seq![0x1Bu8, 0x5B, 0x32, 0x31, 0x7E],
        key_bytes(Key::Named(NamedKey::F11), m, None) == seq![0x1Bu8, 0x5B, 0x32, 0x33, 0x7E],
        key_bytes(Key::Named(NamedKey::F12), m, None) == seq![0x1Bu8, 0x5B, 0x32, 0x34, 0x7E],
        key_bytes(Key::Named(NamedKey::Other(other)), m, None) == Seq::<u8>::empty(),
        key_bytes(Key::Unidentified, m, None) == Seq::<u8>::empty(),
        forall|n: NamedKey|
            !has_printable(t) ==> #[trigger] key_bytes(Key::Named(n), m, Some(t)) == key_bytes(
                Key::Named(n),
                m,
                None,
            ),
{
}

/// Control with a letter (and without Alt) sends that letter's control
/// byte, whatever its case and whatever text comes with it: `a` / `A` is
/// 0x01 … `z` / `Z` is 0x1A.
pub proof fn law_control_letters(s: String, m: Modifiers, text: Option<Seq<char>>)
    requires
        m.control,
        !m.alt,
        s@.len() > 0,
    ensures
        'a' <= s@[0] <= 'z' ==> key_bytes(Key::Character(s), m, text) == seq![((s@[0] as u32)
            - 0x60) as u8],
        'A' <= s@[0] <= 'Z' ==> key_bytes(Key::Character(s), m, text) == seq![((s@[0] as u32)
            - 0x40) as u8],
{
}

/// Without Control, a key that comes with text holding a printable
/// character sends that text, UTF-8 encoded, whatever the key.
pub proof fn law_text_is_sent(key: Key, m: Modifiers, t: Seq<char>)
    requires
        !m.control,
        t.len() > 0,
        exists|i: int| 0 <= i < t.len() && t[i] >= ' ' && t[i] != '\x7f',
    ensures
        key_bytes(key, m, Some(t)) == encode_utf8(t),
{
}

/// The bindings that dispatch a command, in the order they are tried.
pub open spec fn binding_list(kb: Keybindings) -> Seq<Seq<char>> {
    seq![
        kb.split_horizontal@,
        kb.split_vertical@,
        kb.pane_next@,
        kb.pane_prev@,
        kb.close_pane@,
        kb.rename_pane@,
        kb.tab_next@,
        kb.tab_prev@,
        kb.workspace_next@,
        kb.workspace_prev@,
        kb.tab_new@,
        kb.workspace_new@,
    ]
}

/// Whether the key press matches binding `idx` of `kb` and no other.
pub open spec fn only_binding(key: Key, m: Modifiers, kb: Keybindings, idx: int) -> bool {
    &&& 0 <= idx < binding_list(kb).len()
    &&& spec_matches(key, m, binding_list(kb)[idx])
    &&& forall|i: int|
        0 <= i < binding_list(kb).len() && i != idx ==> !spec_matches(key, m, #[trigger] binding_list(kb)[i])
}

/// Outside help and renaming, a key press that matches one binding asks for
/// that binding's command: split side by side (panes left / right, a
/// `Vertical` split), split stacked (`Horizontal`), next / previous pane,
/// close pane, rename the active tab, next / previous tab, next / previous
/// workspace, new tab in the active workspace, new workspace. A key that
/// matches no binding goes to the pane as its bytes, when it has any.
pub proof fn law_bindings_dispatch(
    key: Key,
    m: Modifiers,
    text: Option<Seq<char>>,
    kb: Keybindings,
    ctx: KeyContext,
)
    requires
        !ctx.show_help,
        !ctx.renaming_tab,
        !ctx.renaming_workspace,
        !is_named(key, NamedKey::F1),
    ensures
        only_binding(key, m, kb, 0) ==> spec_dispatch(key, m, text, kb, ctx) == Some(
            CommandModel::SplitPane(SplitDirection::Vertical),
        ),
        only_binding(key, m, kb, 1) ==> spec_dispatch(key, m, text, kb, ctx) == Some(
            CommandModel::SplitPane(SplitDirection::Horizontal),
        ),
        only_binding(key, m, kb, 2) ==> spec_dispatch(key, m, text, kb, ctx) == Some(
            CommandModel::FocusNext,
        ),
        only_binding(key, m, kb, 3) ==> spec_dispatch(key, m, text, kb, ctx) == Some(
            CommandModel::FocusPrev,
        ),
        only_binding(key, m, kb, 4) ==> spec_dispatch(key, m, text, kb, ctx) == Some(
            CommandModel::ClosePane,
        ),
        only_binding(key, m, kb, 5) ==> spec_dispatch(key, m, text, kb, ctx) == Some(
            CommandModel::StartRenameTab(ctx.active_tab_id),
        ),
        only_binding(key, m, kb, 6) ==> spec_dispatch(key, m, text, kb, ctx) == Some(
            CommandModel::FocusTabNext,
        ),
        only_binding(key, m, kb, 7) ==> spec_dispatch(key, m, text, kb, ctx) == Some(
            CommandModel::FocusTabPrev,
        ),
        only_binding(key, m, kb, 8) ==> spec_dispatch(key, m, text, kb, ctx) == Some(
            CommandModel::FocusWorkspaceNext,
        ),
        only_binding(key, m, kb, 9) ==> spec_dispatch(key, m, text, kb, ctx) == Some(
            CommandModel::FocusWorkspacePrev,
        ),
        only_binding(key, m, kb, 10) ==> spec_dispatch(key, m, text, kb, ctx) == Some(
            CommandModel::NewTabIn(ctx.active_workspace_id),
        ),
        only_binding(key, m, kb, 11) ==> spec_dispatch(key, m, text, kb, ctx) == Some(
            CommandModel::NewWorkspace,
        ),
        (forall|i: int| 0 <= i < binding_list(kb).len() ==> !spec_matches(key, m, #[trigger] binding_list(kb)[i]))
            ==> spec_dispatch(key, m, text, kb, ctx) == if key_bytes(key, m, text).len() == 0 {
            None
        } else {
            Some(CommandModel::KeyInput(key_bytes(key, m, text)))
        },
{
    let l = binding_list(kb);
    assert(l[0] == kb.split_horizontal@);
    assert(l[1] == kb.split_vertical@);
    assert(l[2] == kb.pane_next@);
    assert(l[3] == kb.pane_prev@);
    assert(l[4] == kb.close_pane@);
    assert(l[5] == kb.rename_pane@);
    assert(l[6] == kb.tab_next@);
    assert(l[7] == kb.tab_prev@);
    assert(l[8] == kb.workspace_next@);
    assert(l[9] == kb.workspace_prev@);
    assert(l[10] == kb.tab_new@);
    assert(l[11] == kb.workspace_new@);
}

} // verus!
