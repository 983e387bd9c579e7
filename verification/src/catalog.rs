//! The launcher catalog: entries, case-insensitive filtering, selection and
//! key handling, icon-repaint bookkeeping, and launch-command preparation.
//!
//! Everything here is the decision half of the interactive loop: the
//! surrounding program polls the terminal, tests the file system and spawns
//! processes, and hands the results in as plain values.

use vstd::prelude::*;
use vstd::string::StringExecFns;
use vstd::string::StringSliceAdditionalSpecFns;
use vstd::utf8::encode_utf8;

verus! {

/// A launchable catalog entry.
#[derive(Debug, Clone)]
pub struct AppEntry {
    pub name: String,
    pub exec_cmd: String,
    pub icon_path: Option<String>,
    pub comment: String,
    pub terminal: bool,
}

/// Builds a catalog entry from the fields of one desktop record; hidden
/// records yield no entry.
pub fn entry_from_fields(
    name: String,
    exec_cmd: String,
    icon_path: Option<String>,
    comment: String,
    terminal: bool,
    no_display: bool,
) -> (r: Option<AppEntry>)
    ensures
        no_display <==> r is None,
        r is Some ==> r->Some_0.name == name && r->Some_0.exec_cmd == exec_cmd && r->Some_0.icon_path
            == icon_path && r->Some_0.comment == comment && r->Some_0.terminal == terminal,
{
    if no_display {
        None
    } else {
        Some(AppEntry { name, exec_cmd, icon_path, comment, terminal })
    }
}

/// An ASCII byte lowercased; any other byte unchanged.
pub open spec fn lower_byte(b: u8) -> u8 {
    if 0x41 <= b <= 0x5a {
        (b + 0x20) as u8
    } else {
        b
    }
}

/// A byte run with its ASCII letters lowercased.
pub open spec fn lower_bytes(s: Seq<u8>) -> Seq<u8> {
    s.map_values(|b: u8| lower_byte(b))
}

/// Whether `needle` occurs contiguously inside `hay`.
pub open spec fn contains_seq(hay: Seq<u8>, needle: Seq<u8>) -> bool {
    exists|k: int|
        0 <= k <= hay.len() - needle.len() && #[trigger] hay.subrange(k, k + needle.len())
            == needle
}

/// The catalog filter's match: the filter occurs in the name, both read
/// case-insensitively (ASCII).
pub open spec fn spec_name_matches(name: Seq<u8>, filter: Seq<u8>) -> bool {
    contains_seq(lower_bytes(name), lower_bytes(filter))
}

fn lower_of_bytes(s: &[u8]) -> (r: Vec<u8>)
    ensures
        r@ == lower_bytes(s@),
{
    let mut r: Vec<u8> = Vec::new();
    let mut i: usize = 0;
    while i < s.len()
        invariant
            i <= s@.len(),
            r@ =~= lower_bytes(s@).subrange(0, i as int),
        decreases s@.len() - i,
    {
        let b = s[i];
        if 0x41 <= b && b <= 0x5a {
            r.push(b + 0x20);
        } else {
            r.push(b);
        }
        proof {
            assert(r@ =~= lower_bytes(s@).subrange(0, i + 1));
        }
        i += 1;
    }
    proof {
        assert(r@ =~= lower_bytes(s@));
    }
    r
}

fn match_at(hay: &Vec<u8>, needle: &Vec<u8>, k: usize) -> (r: bool)
    requires
        k + needle@.len() <= hay@.len(),
    ensures
        r <==> hay@.subrange(k as int, k + needle@.len()) == needle@,
{
    let hn = hay.len();
    let mut i: usize = 0;
    while i < needle.len()
        invariant
            i <= needle@.len(),
            hn == hay@.len(),
            k + needle@.len() <= hay@.len(),
            forall|j: int| 0 <= j < i ==> hay@[k + j] == needle@[j],
        decreases needle@.len() - i,
    {
        if hay[k + i] != needle[i] {
            proof {
                assert(hay@.subrange(k as int, k + needle@.len())[i as int] != needle@[i as int]);
            }
            return false;
        }
        i += 1;
    }
    proof {
        assert(hay@.subrange(k as int, k + needle@.len()) =~= needle@);
    }
    true
}

fn contains_bytes(hay: &Vec<u8>, needle: &Vec<u8>) -> (r: bool)
    ensures
        r == contains_seq(hay@, needle@),
{
    if needle.len() > hay.len() {
        return false;
    }
    let last = hay.len() - needle.len();
    let mut k: usize = 0;
    loop
        invariant
            k <= last,
            last <= hay@.len(),
            last == hay@.len() - needle@.len(),
            forall|j: int|
                0 <= j < k ==> #[trigger] hay@.subrange(j, j + needle@.len()) != needle@,
        decreases last - k,
    {
        if match_at(hay, needle, k) {
            return true;
        }
        if k == last {
            proof {
                if contains_seq(hay@, needle@) {
                    let j = choose|j: int|
                        0 <= j <= hay@.len() - needle@.len() && #[trigger] hay@.subrange(
                            j,
                            j + needle@.len(),
                        ) == needle@;
                    assert(hay@.subrange(j, j + needle@.len()) != needle@);
                }
            }
            return false;
        }
        k += 1;
    }
}

/// Whether one entry name matches the filter, case-insensitively.
pub fn name_matches(name: &str, filter: &Vec<u8>) -> (r: bool)
    ensures
        r == spec_name_matches(name.spec_bytes(), filter@),
{
    let hay = lower_of_bytes(name.as_bytes());
    let needle = lower_of_bytes(filter.as_slice());
    contains_bytes(&hay, &needle)
}

/// The filtered catalog view: the indices of the entries whose names match
/// the filter, in catalog order, each exactly once.
pub fn filter_entries(entries: &Vec<AppEntry>, filter: &Vec<u8>) -> (r: Vec<usize>)
    ensures
        forall|a: int, b: int| 0 <= a < b < r@.len() ==> r@[a] < r@[b],
        forall|a: int|
            0 <= a < r@.len() ==> r@[a] < entries@.len() && spec_name_matches(
                encode_utf8(entries@[r@[a] as int].name@),
                filter@,
            ),
        forall|i: int|
            0 <= i < entries@.len() && spec_name_matches(encode_utf8(entries@[i].name@), filter@)
                ==> exists|a: int| 0 <= a < r@.len() && r@[a] == i,
{
    let mut r: Vec<usize> = Vec::new();
    let mut i: usize = 0;
    while i < entries.len()
        invariant
            i <= entries@.len(),
            forall|a: int, b: int| 0 <= a < b < r@.len() ==> r@[a] < r@[b],
            forall|a: int|
                0 <= a < r@.len() ==> r@[a] < i && spec_name_matches(
                    encode_utf8(entries@[r@[a] as int].name@),
                    filter@,
                ),
            forall|j: int|
                0 <= j < i && spec_name_matches(encode_utf8(entries@[j].name@), filter@)
                    ==> exists|a: int| 0 <= a < r@.len() && r@[a] == j,
        decreases entries@.len() - i,
    {
        if name_matches(entries[i].name.as_str(), filter) {
            let ghost prev = r@;
            r.push(i);
            proof {
                assert(r@[r@.len() - 1] == i);
                assert(forall|a: int| 0 <= a < prev.len() ==> r@[a] == prev[a]);
            }
        }
        i += 1;
    }
    r
}

/// The UTF-8 bytes of one character.
pub open spec fn char_utf8(c: char) -> Seq<u8> {
    let u = c as int;
    if u < 0x80 {
        seq![u as u8]
    } else if u < 0x800 {
        seq![(0xc0 + u / 64) as u8, (0x80 + u % 64) as u8]
    } else if u < 0x10000 {
        seq![(0xe0 + u / 4096) as u8, (0x80 + (u / 64) % 64) as u8, (0x80 + u % 64) as u8]
    } else {
        seq![
            (0xf0 + u / 262144) as u8,
            (0x80 + (u / 4096) % 64) as u8,
            (0x80 + (u / 64) % 64) as u8,
            (0x80 + u % 64) as u8,
        ]
    }
}

/// Appends one typed character to the filter text.
fn push_char(filter: &mut Vec<u8>, c: char)
    ensures
        final(filter)@ == old(filter)@ + char_utf8(c),
{
    let u = c as u32;
    if u < 0x80 {
        filter.push(u as u8);
    } else if u < 0x800 {
        filter.push(0xc0 + (u / 64) as u8);
        filter.push(0x80 + (u % 64) as u8);
    } else if u < 0x10000 {
        filter.push(0xe0 + (u / 4096) as u8);
        filter.push(0x80 + ((u / 64) % 64) as u8);
        filter.push(0x80 + (u % 64) as u8);
    } else {
        filter.push(0xf0 + (u / 262144) as u8);
        filter.push(0x80 + ((u / 4096) % 64) as u8);
        filter.push(0x80 + ((u / 64) % 64) as u8);
        filter.push(0x80 + (u % 64) as u8);
    }
    proof {
        assert(filter@ =~= old(filter)@ + char_utf8(c));
    }
}

/// A key event the render loop reacts to.
#[derive(Clone, Copy, Debug)]
pub enum KeyInput {
    Char(char),
    Backspace,
    Up,
    Down,
    Enter,
    Esc,
    Other,
}

/// What the render loop does after one key: keep running, launch the
/// selected entry and exit, or just exit.
#[derive(Clone, Copy, PartialEq, Eq, Structural, Debug)]
pub enum UiAction {
    Continue,
    Launch(usize),
    Exit,
}

/// The interactive state the render loop owns: the filter text and the
/// selection index into the filtered view.
pub struct UiState {
    pub filter: Vec<u8>,
    pub selected: usize,
}

impl UiState {
    /// The initial interactive state: empty filter, first entry selected.
    pub fn new() -> (r: UiState)
        ensures
            r.filter@ == Seq::<u8>::empty(),
            r.selected == 0,
    {
        let filter: Vec<u8> = Vec::new();
        proof {
            assert(filter@ =~= Seq::<u8>::empty());
        }
        UiState { filter, selected: 0 }
    }
}

/// One step of the render loop's key handling, against the current filtered
/// view's length: typing appends to the filter and resets the selection,
/// backspace trims the filter, the arrows move the selection clamped to the
/// filtered bounds, enter launches the selection where one exists, and
/// escape exits.
pub fn handle_key(state: &mut UiState, key: KeyInput, filtered_len: usize) -> (r: UiAction)
    ensures
        match key {
            KeyInput::Char(c) => final(state).filter@ == old(state).filter@ + char_utf8(c)
                && final(state).selected == 0 && r == UiAction::Continue,
            KeyInput::Backspace => final(state).filter@ == (if old(state).filter@.len() > 0 {
                old(state).filter@.drop_last()
            } else {
                old(state).filter@
            }) && final(state).selected == old(state).selected && r == UiAction::Continue,
            KeyInput::Up => final(state).filter@ == old(state).filter@ && final(state).selected
                == (if old(state).selected > 0 {
                (old(state).selected - 1) as usize
            } else {
                0usize
            }) && r == UiAction::Continue,
            KeyInput::Down => final(state).filter@ == old(state).filter@ && final(state).selected
                == (if old(state).selected + 1 < filtered_len {
                (old(state).selected + 1) as usize
            } else {
                old(state).selected
            }) && r == UiAction::Continue,
            KeyInput::Enter => final(state).filter@ == old(state).filter@ && final(state).selected
                == old(state).selected && r == (if old(state).selected < filtered_len {
                UiAction::Launch(old(state).selected)
            } else {
                UiAction::Continue
            }),
            KeyInput::Esc => final(state).filter@ == old(state).filter@ && final(state).selected
                == old(state).selected && r == UiAction::Exit,
            KeyInput::Other => final(state).filter@ == old(state).filter@ && final(state).selected
                == old(state).selected && r == UiAction::Continue,
        },
{
    match key {
        KeyInput::Char(c) => {
            push_char(&mut state.filter, c);
            state.selected = 0;
            UiAction::Continue
        },
        KeyInput::Backspace => {
            if state.filter.len() > 0 {
                state.filter.pop();
            }
            UiAction::Continue
        },
        KeyInput::Up => {
            if state.selected > 0 {
                state.selected = state.selected - 1;
            }
            UiAction::Continue
        },
        KeyInput::Down => {
            if filtered_len > 0 && state.selected < filtered_len - 1 {
                state.selected = state.selected + 1;
            }
            UiAction::Continue
        },
        KeyInput::Enter => {
            if state.selected < filtered_len {
                UiAction::Launch(state.selected)
            } else {
                UiAction::Continue
            }
        },
        KeyInput::Esc => UiAction::Exit,
        KeyInput::Other => UiAction::Continue,
    }
}

/// The value an optional icon path denotes.
pub open spec fn opt_path_view(o: Option<String>) -> Option<Seq<char>> {
    match o {
        Some(p) => Some(p@),
        None => None,
    }
}

/// Whether the icon region must be repainted this tick: exactly when the
/// selected entry's icon path differs from the last painted one, so an
/// unchanged selection never repaints.
pub fn icon_needs_repaint(last: &Option<String>, current: &Option<String>) -> (r: bool)
    ensures
        r == (opt_path_view(*last) != opt_path_view(*current)),
{
    match (last, current) {
        (None, None) => false,
        (Some(a), Some(b)) => !a.eq(b),
        _ => true,
    }
}

/// Records what the paint step achieved: a painted icon becomes the last
/// painted path, no icon clears it, and a failed paint leaves it untouched.
pub fn icon_commit(last: &mut Option<String>, current: &Option<String>, painted: bool)
    ensures
        current is None ==> (*final(last)) is None,
        current is Some && painted ==> opt_path_view(*final(last)) == opt_path_view(*current),
        current is Some && !painted ==> opt_path_view(*final(last)) == opt_path_view(*old(last)),
{
    match current {
        None => {
            *last = None;
        },
        Some(p) => {
            if painted {
                *last = Some(p.clone());
            }
        },
    }
}

/// The candidate icon file paths for an icon name, in priority order.
pub fn icon_candidates(icon_name: &str) -> (r: Vec<String>)
    ensures
        r@.len() == 2,
        r@[0]@ == "/usr/share/icons/hicolor/48x48/apps/"@ + icon_name@ + ".png"@,
        r@[1]@ == "/usr/share/pixmaps/"@ + icon_name@ + ".png"@,
{
    let mut first = String::from_str("/usr/share/icons/hicolor/48x48/apps/");
    first.append(icon_name);
    first.append(".png");
    let mut second = String::from_str("/usr/share/pixmaps/");
    second.append(icon_name);
    second.append(".png");
    let mut r: Vec<String> = Vec::new();
    r.push(first);
    r.push(second);
    r
}

/// Picks the first candidate path that exists; whether each candidate
/// exists is handed in, since only the surrounding program can ask the file
/// system.
pub fn resolve_icon_path(candidates: &Vec<String>, exists: &Vec<bool>) -> (r: Option<String>)
    requires
        exists@.len() == candidates@.len(),
    ensures
        match r {
            Some(p) => exists|i: int|
                0 <= i < candidates@.len() && exists@[i] && p@ == candidates@[i]@ && forall|j: int|
                    0 <= j < i ==> !exists@[j],
            None => forall|i: int| 0 <= i < exists@.len() ==> !exists@[i],
        },
{
    let mut i: usize = 0;
    while i < candidates.len()
        invariant
            i <= candidates@.len(),
            exists@.len() == candidates@.len(),
            forall|j: int| 0 <= j < i ==> !exists@[j],
        decreases candidates@.len() - i,
    {
        if exists[i] {
            return Some(candidates[i].clone());
        }
        i += 1;
    }
    None
}

/// A placeholder byte that may follow `%` in a desktop Exec line.
pub open spec fn is_token_byte(b: u8) -> bool {
    b == 0x55 || b == 0x75 || b == 0x66 || b == 0x46 || b == 0x64 || b == 0x44 || b == 0x6e || b
        == 0x4e || b == 0x69 || b == 0x63 || b == 0x6b || b == 0x76 || b == 0x6d
}

/// The launch command with every placeholder token pair (`%U`, `%f`, ...)
/// removed, scanning left to right.
pub open spec fn spec_strip_tokens(s: Seq<u8>) -> Seq<u8>
    decreases s.len(),
{
    if s.len() == 0 {
        Seq::empty()
    } else if s.len() >= 2 && s[0] == 0x25 && is_token_byte(s[1]) {
        spec_strip_tokens(s.skip(2))
    } else {
        seq![s[0]] + spec_strip_tokens(s.skip(1))
    }
}

/// Prepares a catalog entry's command for launching: desktop-entry
/// placeholder tokens are stripped out.
pub fn strip_exec_tokens(cmd: &str) -> (r: Vec<u8>)
    ensures
        r@ == spec_strip_tokens(cmd.spec_bytes()),
{
    let b: &[u8] = cmd.as_bytes();
    let n = b.len();
    let mut out: Vec<u8> = Vec::new();
    let mut i: usize = 0;
    proof {
        assert(b@.skip(0) =~= b@);
        assert(out@ =~= Seq::<u8>::empty());
    }
    while i < n
        invariant
            i <= n,
            n == b@.len(),
            b@ == cmd.spec_bytes(),
            spec_strip_tokens(b@) == out@ + spec_strip_tokens(b@.skip(i as int)),
        decreases n - i,
    {
        let c = b[i];
        let is_pair = c == 0x25 && i + 1 < n && {
            let d = b[i + 1];
            d == 0x55 || d == 0x75 || d == 0x66 || d == 0x46 || d == 0x64 || d == 0x44 || d == 0x6e
                || d == 0x4e || d == 0x69 || d == 0x63 || d == 0x6b || d == 0x76 || d == 0x6d
        };
        if is_pair {
            proof {
                assert(b@.skip(i as int).skip(2) =~= b@.skip(i + 2));
            }
            i += 2;
        } else {
            let ghost prev = out@;
            out.push(c);
            proof {
                assert(b@.skip(i as int).skip(1) =~= b@.skip(i + 1));
                assert(b@.skip(i as int)[0] == b@[i as int]);
                assert(out@ + spec_strip_tokens(b@.skip(i + 1)) =~= prev + (seq![c]
                    + spec_strip_tokens(b@.skip(i + 1))));
            }
            i += 1;
        }
    }
    proof {
        assert(b@.skip(n as int) =~= Seq::<u8>::empty());
        assert(out@ + Seq::<u8>::empty() =~= out@);
    }
    out
}

} // verus!
