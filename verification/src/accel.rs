use vstd::prelude::*;
use vstd::string::StrSliceExecFns;

verus! {

/// A parsed key code: a letter or digit (stored upper-case), a function key
/// `F1` to `F12`, or one of the named keys the keybinding grammar knows
/// (whitespace keys, editing keys and the arrows).
#[derive(Clone, Copy, Debug, PartialEq, Eq, Structural)]
pub enum KeyCode {
    Character(char),
    Function(u8),
    Space,
    Enter,
    Escape,
    Tab,
    Backspace,
    Delete,
    ArrowUp,
    ArrowDown,
    ArrowLeft,
    ArrowRight,
}

/// A parsed keybinding: modifier flags plus one key code.
#[derive(Clone, Copy, Debug, PartialEq, Eq, Structural)]
pub struct Accelerator {
    pub shift: bool,
    pub ctrl: bool,
    pub alt: bool,
    pub meta: bool,
    pub code: KeyCode,
}

/// Which modifier flag a segment of an accelerator text names.
#[derive(Clone, Copy, Debug, PartialEq, Eq, Structural)]
pub enum ModifierKind {
    Shift,
    Ctrl,
    Alt,
    Meta,
}

/// Upper-cases one ASCII letter; leaves every other character as it is.
pub open spec fn spec_upper(c: char) -> char {
    if 'a' <= c && c <= 'z' {
        (((c as u8) - 32) as char)
    } else {
        c
    }
}

/// The sequence with every ASCII letter upper-cased.
pub open spec fn upper_seq(s: Seq<char>) -> Seq<char> {
    s.map_values(|c: char| spec_upper(c))
}

pub open spec fn is_letter(c: char) -> bool {
    ('a' <= c && c <= 'z') || ('A' <= c && c <= 'Z')
}

pub open spec fn is_digit(c: char) -> bool {
    '0' <= c && c <= '9'
}

/// Which modifier a segment names, ignoring letter case; `CTRL`/`CONTROL`,
/// `ALT`/`OPTION` and `SUPER`/`CMD`/`COMMAND`/`META` are synonyms.
pub open spec fn spec_modifier(s: Seq<char>) -> Option<ModifierKind> {
    let u = upper_seq(s);
    if u == seq!['S', 'H', 'I', 'F', 'T'] {
        Some(ModifierKind::Shift)
    } else if u == seq!['C', 'T', 'R', 'L'] || u == seq!['C', 'O', 'N', 'T', 'R', 'O', 'L'] {
        Some(ModifierKind::Ctrl)
    } else if u == seq!['A', 'L', 'T'] || u == seq!['O', 'P', 'T', 'I', 'O', 'N'] {
        Some(ModifierKind::Alt)
    } else if u == seq!['S', 'U', 'P', 'E', 'R'] || u == seq!['C', 'M', 'D'] || u == seq![
        'C',
        'O',
        'M',
        'M',
        'A',
        'N',
        'D',
    ] || u == seq!['M', 'E', 'T', 'A'] {
        Some(ModifierKind::Meta)
    } else {
        None
    }
}

/// The key code a final segment names, ignoring letter case, if any.
pub open spec fn spec_key(s: Seq<char>) -> Option<KeyCode> {
    if s.len() == 1 && (is_letter(s[0]) || is_digit(s[0])) {
        Some(KeyCode::Character(spec_upper(s[0])))
    } else if s.len() == 2 && spec_upper(s[0]) == 'F' && '1' <= s[1] && s[1] <= '9' {
        Some(KeyCode::Function(((s[1] as u8) - 48) as u8))
    } else if s.len() == 3 && spec_upper(s[0]) == 'F' && s[1] == '1' && '0' <= s[2] && s[2]
        <= '2' {
        Some(KeyCode::Function((10 + (s[2] as u8) - 48) as u8))
    } else if upper_seq(s) == seq!['S', 'P', 'A', 'C', 'E'] {
        Some(KeyCode::Space)
    } else if upper_seq(s) == seq!['E', 'N', 'T', 'E', 'R'] {
        Some(KeyCode::Enter)
    } else if upper_seq(s) == seq!['E', 'S', 'C', 'A', 'P', 'E'] {
        Some(KeyCode::Escape)
    } else if upper_seq(s) == seq!['T', 'A', 'B'] {
        Some(KeyCode::Tab)
    } else if upper_seq(s) == seq!['B', 'A', 'C', 'K', 'S', 'P', 'A', 'C', 'E'] {
        Some(KeyCode::Backspace)
    } else if upper_seq(s) == seq!['D', 'E', 'L', 'E', 'T', 'E'] {
        Some(KeyCode::Delete)
    } else if upper_seq(s) == seq!['A', 'R', 'R', 'O', 'W', 'U', 'P'] || upper_seq(s) == seq![
        'U',
        'P',
    ] {
        Some(KeyCode::ArrowUp)
    } else if upper_seq(s) == seq!['A', 'R', 'R', 'O', 'W', 'D', 'O', 'W', 'N'] || upper_seq(s)
        == seq!['D', 'O', 'W', 'N'] {
        Some(KeyCode::ArrowDown)
    } else if upper_seq(s) == seq!['A', 'R', 'R', 'O', 'W', 'L', 'E', 'F', 'T'] || upper_seq(s)
        == seq!['L', 'E', 'F', 'T'] {
        Some(KeyCode::ArrowLeft)
    } else if upper_seq(s) == seq!['A', 'R', 'R', 'O', 'W', 'R', 'I', 'G', 'H', 'T'] || upper_seq(
        s,
    ) == seq!['R', 'I', 'G', 'H', 'T'] {
        Some(KeyCode::ArrowRight)
    } else {
        None
    }
}

/// The position of the first `+` at or after `pos`, if any.
pub open spec fn first_plus_from(s: Seq<char>, pos: int) -> Option<int>
    decreases s.len() - pos,
{
    if pos < 0 || s.len() <= pos {
        None
    } else if s[pos] == '+' {
        Some(pos)
    } else {
        first_plus_from(s, pos + 1)
    }
}

/// Parses the suffix of `s` starting at `pos` against the grammar: zero or
/// more modifier segments, then one key segment, separated by `+`; the four
/// flags carry the modifiers read so far.
pub open spec fn spec_parse_from(
    s: Seq<char>,
    pos: int,
    shift: bool,
    ctrl: bool,
    alt: bool,
    meta: bool,
) -> Option<Accelerator>
    decreases s.len() - pos,
{
    if pos < 0 || s.len() < pos {
        None
    } else {
        match first_plus_from(s, pos) {
            None => match spec_key(s.subrange(pos, s.len() as int)) {
                Some(code) => Some(Accelerator { shift, ctrl, alt, meta, code }),
                None => None,
            },
            Some(i) => {
                if pos <= i && i < s.len() {
                    let seg = s.subrange(pos, i);
                    match spec_modifier(seg) {
                        Some(ModifierKind::Shift) => spec_parse_from(s, i + 1, true, ctrl, alt, meta),
                        Some(ModifierKind::Ctrl) => spec_parse_from(s, i + 1, shift, true, alt, meta),
                        Some(ModifierKind::Alt) => spec_parse_from(s, i + 1, shift, ctrl, true, meta),
                        Some(ModifierKind::Meta) => spec_parse_from(s, i + 1, shift, ctrl, alt, true),
                        None => None,
                    }
                } else {
                    None
                }
            },
        }
    }
}

/// What an accelerator text denotes, if it is well formed. This is the
/// grammar's whole definition; `parse_accelerator` returns exactly this.
pub open spec fn spec_parse_accel(s: Seq<char>) -> Option<Accelerator> {
    spec_parse_from(s, 0, false, false, false, false)
}

/// Upper-cases one ASCII letter.
pub fn upper_char(c: char) -> (r: char)
    ensures
        r == spec_upper(c),
{
    if 'a' <= c && c <= 'z' {
        ((c as u8) - 32) as char
    } else {
        c
    }
}

/// Compares the segment `v[lo..hi]` with an upper-case word, ignoring the
/// letter case of the segment.
fn seg_matches(v: &Vec<char>, lo: usize, hi: usize, word: &Vec<char>) -> (b: bool)
    requires
        lo <= hi && hi <= v.len(),
    ensures
        b == (upper_seq(v@.subrange(lo as int, hi as int)) == word@),
{
    let ghost seg = v@.subrange(lo as int, hi as int);
    if hi - lo != word.len() {
        proof {
            assert(upper_seq(seg).len() == seg.len());
        }
        return false;
    }
    let mut j: usize = 0;
    while j < word.len()
        invariant
            lo <= hi <= v.len(),
            word@.len() == hi - lo,
            j <= word.len(),
            seg == v@.subrange(lo as int, hi as int),
            forall|k: int| 0 <= k < j ==> upper_seq(seg)[k] == word@[k],
        decreases word.len() - j,
    {
        let c = upper_char(v[lo + j]);
        proof {
            assert(seg[j as int] == v@[lo + j as int]);
            assert(upper_seq(seg)[j as int] == spec_upper(seg[j as int]));
        }
        if c != word[j] {
            return false;
        }
        j += 1;
    }
    proof {
        assert(upper_seq(seg) =~= word@);
    }
    true
}

/// Classifies the segment `v[lo..hi]` as a modifier word, if it is one.
fn match_modifier(v: &Vec<char>, lo: usize, hi: usize) -> (r: Option<ModifierKind>)
    requires
        lo <= hi && hi <= v.len(),
    ensures
        r == spec_modifier(v@.subrange(lo as int, hi as int)),
{
    if seg_matches(v, lo, hi, &vec!['S', 'H', 'I', 'F', 'T']) {
        Some(ModifierKind::Shift)
    } else if seg_matches(v, lo, hi, &vec!['C', 'T', 'R', 'L']) || seg_matches(
        v,
        lo,
        hi,
        &vec!['C', 'O', 'N', 'T', 'R', 'O', 'L'],
    ) {
        Some(ModifierKind::Ctrl)
    } else if seg_matches(v, lo, hi, &vec!['A', 'L', 'T']) || seg_matches(
        v,
        lo,
        hi,
        &vec!['O', 'P', 'T', 'I', 'O', 'N'],
    ) {
        Some(ModifierKind::Alt)
    } else if seg_matches(v, lo, hi, &vec!['S', 'U', 'P', 'E', 'R']) || seg_matches(
        v,
        lo,
        hi,
        &vec!['C', 'M', 'D'],
    ) || seg_matches(v, lo, hi, &vec!['C', 'O', 'M', 'M', 'A', 'N', 'D']) || seg_matches(
        v,
        lo,
        hi,
        &vec!['M', 'E', 'T', 'A'],
    ) {
        Some(ModifierKind::Meta)
    } else {
        None
    }
}

/// Reads the segment `v[lo..hi]` as a key code, if it is one.
fn match_key(v: &Vec<char>, lo: usize, hi: usize) -> (r: Option<KeyCode>)
    requires
        lo <= hi && hi <= v.len(),
    ensures
        r == spec_key(v@.subrange(lo as int, hi as int)),
{
    let ghost seg = v@.subrange(lo as int, hi as int);
    let n: usize = hi - lo;
    if n == 1 {
        let c = v[lo];
        proof {
            assert(seg[0] == c);
        }
        if ('a' <= c && c <= 'z') || ('A' <= c && c <= 'Z') || ('0' <= c && c <= '9') {
            Some(KeyCode::Character(upper_char(c)))
        } else {
            proof {
                assert(upper_seq(seg).len() == 1);
            }
            None
        }
    } else if n == 2 && upper_char(v[lo]) == 'F' && '1' <= v[lo + 1] && v[lo + 1] <= '9' {
        proof {
            assert(seg[0] == v@[lo as int] && seg[1] == v@[lo + 1 as int]);
        }
        Some(KeyCode::Function((v[lo + 1] as u8) - 48))
    } else if n == 3 && upper_char(v[lo]) == 'F' && v[lo + 1] == '1' && '0' <= v[lo + 2] && v[lo
        + 2] <= '2' {
        proof {
            assert(seg[0] == v@[lo as int] && seg[1] == v@[lo + 1 as int] && seg[2] == v@[lo
                + 2 as int]);
        }
        Some(KeyCode::Function(10 + (v[lo + 2] as u8) - 48))
    } else if seg_matches(v, lo, hi, &vec!['S', 'P', 'A', 'C', 'E']) {
        proof {
            assert(seg.len() != 1 && !(seg.len() == 2 && spec_upper(seg[0]) == 'F' && '1' <= seg[1]
                && seg[1] <= '9') && !(seg.len() == 3 && spec_upper(seg[0]) == 'F' && seg[1] == '1'
                && '0' <= seg[2] && seg[2] <= '2'));
        }
        Some(KeyCode::Space)
    } else if seg_matches(v, lo, hi, &vec!['E', 'N', 'T', 'E', 'R']) {
        Some(KeyCode::Enter)
    } else if seg_matches(v, lo, hi, &vec!['E', 'S', 'C', 'A', 'P', 'E']) {
        Some(KeyCode::Escape)
    } else if seg_matches(v, lo, hi, &vec!['T', 'A', 'B']) {
        Some(KeyCode::Tab)
    } else if seg_matches(v, lo, hi, &vec!['B', 'A', 'C', 'K', 'S', 'P', 'A', 'C', 'E']) {
        Some(KeyCode::Backspace)
    } else if seg_matches(v, lo, hi, &vec!['D', 'E', 'L', 'E', 'T', 'E']) {
        Some(KeyCode::Delete)
    } else if seg_matches(v, lo, hi, &vec!['A', 'R', 'R', 'O', 'W', 'U', 'P']) || seg_matches(
        v,
        lo,
        hi,
        &vec!['U', 'P'],
    ) {
        Some(KeyCode::ArrowUp)
    } else if seg_matches(v, lo, hi, &vec!['A', 'R', 'R', 'O', 'W', 'D', 'O', 'W', 'N'])
        || seg_matches(v, lo, hi, &vec!['D', 'O', 'W', 'N']) {
        Some(KeyCode::ArrowDown)
    } else if seg_matches(v, lo, hi, &vec!['A', 'R', 'R', 'O', 'W', 'L', 'E', 'F', 'T'])
        || seg_matches(v, lo, hi, &vec!['L', 'E', 'F', 'T']) {
        Some(KeyCode::ArrowLeft)
    } else if seg_matches(v, lo, hi, &vec!['A', 'R', 'R', 'O', 'W', 'R', 'I', 'G', 'H', 'T'])
        || seg_matches(v, lo, hi, &vec!['R', 'I', 'G', 'H', 'T']) {
        Some(KeyCode::ArrowRight)
    } else {
        None
    }
}

/// Finds the first `+` at or after `start`.
fn find_plus(v: &Vec<char>, start: usize) -> (r: Option<usize>)
    requires
        start <= v.len(),
    ensures
        match r {
            Some(j) => start <= j < v.len() && first_plus_from(v@, start as int) == Some(j as int),
            None => first_plus_from(v@, start as int) is None,
        },
{
    let mut i: usize = start;
    while i < v.len()
        invariant
            start <= i <= v.len(),
            first_plus_from(v@, start as int) == first_plus_from(v@, i as int),
        decreases v.len() - i,
    {
        if v[i] == '+' {
            return Some(i);
        }
        i += 1;
    }
    None
}

/// Parses a whole character sequence as an accelerator.
fn parse_chars(v: &Vec<char>) -> (r: Option<Accelerator>)
    ensures
        r == spec_parse_accel(v@),
{
    let mut pos: usize = 0;
    let mut shift = false;
    let mut ctrl = false;
    let mut alt = false;
    let mut meta = false;
    loop
        invariant
            pos <= v.len(),
            spec_parse_from(v@, pos as int, shift, ctrl, alt, meta) == spec_parse_accel(v@),
        decreases v.len() - pos,
    {
        match find_plus(v, pos) {
            None => {
                let key = match_key(v, pos, v.len());
                return match key {
                    Some(code) => Some(Accelerator { shift, ctrl, alt, meta, code }),
                    None => None,
                };
            },
            Some(j) => {
                match match_modifier(v, pos, j) {
                    Some(ModifierKind::Shift) => {
                        shift = true;
                    },
                    Some(ModifierKind::Ctrl) => {
                        ctrl = true;
                    },
                    Some(ModifierKind::Alt) => {
                        alt = true;
                    },
                    Some(ModifierKind::Meta) => {
                        meta = true;
                    },
                    None => {
                        return None;
                    },
                }
                pos = j + 1;
            },
        }
    }
}

/// Parses an accelerator text such as `"CMD+Q"` or `"CTRL+SHIFT+F5"`: any
/// number of modifier segments, then one key segment, separated by `+`.
/// Letter case is ignored. Returns nothing when the text is malformed.
///
/// The grammar is deliberately small and fully stated by `spec_parse_accel`:
/// modifiers are `SHIFT`, `CTRL`/`CONTROL`, `ALT`/`OPTION` and
/// `SUPER`/`CMD`/`COMMAND`/`META`; keys are one letter or digit, `F1` to
/// `F12`, `SPACE`, `ENTER`, `ESCAPE`, `TAB`, `BACKSPACE`, `DELETE`, and the
/// arrows (`UP`/`ARROWUP` and so on). It is a strict subset of
/// what native keybinding parsers take: whitespace around segments is not
/// skipped, `+` is not itself a key, and a platform-resolved modifier such
/// as "command or control" is not recognized, since what it denotes depends
/// on the machine and this parser's result is a function of the text alone.
/// Anything outside the grammar is malformed and is reported through the
/// recoverable-error path when it arrives in an attribute patch.
pub fn parse_accelerator(s: &str) -> (r: Option<Accelerator>)
    ensures
        r == spec_parse_accel(s@),
{
    let n: usize = s.unicode_len();
    let mut v: Vec<char> = Vec::new();
    let mut i: usize = 0;
    while i < n
        invariant
            i <= n,
            n == s@.len(),
            v@ == s@.take(i as int),
        decreases n - i,
    {
        let c = s.get_char(i);
        v.push(c);
        proof {
            assert(v@ =~= s@.take((i + 1) as int));
        }
        i += 1;
    }
    proof {
        assert(v@ =~= s@);
    }
    parse_chars(&v)
}

} // verus!
