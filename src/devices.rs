use std::str::FromStr;
use vstd::prelude::*;
use vstd::string::*;

verus! {

/// `pat` occurs in `s` starting at position `i`.
pub open spec fn occurs_at(s: Seq<char>, pat: Seq<char>, i: int) -> bool {
    0 <= i && i + pat.len() <= s.len() && s.subrange(i, i + pat.len()) == pat
}

/// `pat` occurs somewhere in `s`.
pub open spec fn has_substring(s: Seq<char>, pat: Seq<char>) -> bool {
    exists|i: int| occurs_at(s, pat, i)
}

/// Whether `pat` occurs in `s`.
pub fn contains_text(s: &str, pat: &str) -> (r: bool)
    ensures
        r == has_substring(s@, pat@),
{
    let n = s.unicode_len();
    let m = pat.unicode_len();
    if m > n {
        return false;
    }
    let mut i: usize = 0;
    while i <= n - m
        invariant
            n == s@.len(),
            m == pat@.len(),
            m <= n,
            i <= n - m + 1,
            forall|k: int| 0 <= k < i ==> !occurs_at(s@, pat@, k),
        decreases n - m + 1 - i,
    {
        let mut j: usize = 0;
        let mut same = true;
        while j < m && same
            invariant
                n == s@.len(),
                m == pat@.len(),
                i + m <= n,
                j <= m,
                same == (forall|t: int| 0 <= t < j ==> s@[i + t] == pat@[t]),
            decreases m - j,
        {
            if s.get_char(i + j) != pat.get_char(j) {
                same = false;
            }
            j = j + 1;
        }
        if same {
            assert(s@.subrange(i as int, i + m) =~= pat@);
            assert(occurs_at(s@, pat@, i as int));
            return true;
        }
        proof {
            let t = choose|t: int| 0 <= t < j && s@[i + t] != pat@[t];
            if s@.subrange(i as int, i + m) == pat@ {
                assert(s@.subrange(i as int, i + m)[t] == s@[i + t]);
            }
        }
        i = i + 1;
    }
    false
}

/// What `str::to_lowercase` makes of a text.
pub uninterp spec fn lower_of(s: Seq<char>) -> Seq<char>;

/// Relies on `str::to_lowercase`: the result depends on the characters alone.
#[verifier::external_body]
fn lowercase(s: &str) -> (r: String)
    ensures
        r@ == lower_of(s@),
{
    s.to_lowercase()
}

/// A device counts as a keyboard when its lowercased name holds this marker.
pub open spec fn keyboard_marker() -> Seq<char> {
    "keyboard"@
}

/// A device with name `name` counts as a keyboard.
pub open spec fn keyboard_named(name: Seq<char>) -> bool {
    has_substring(lower_of(name), keyboard_marker())
}

/// Whether an already lowercased device name holds the keyboard marker.
pub fn has_keyboard_marker(lowered: &str) -> (r: bool)
    ensures
        r == has_substring(lowered@, keyboard_marker()),
{
    contains_text(lowered, "keyboard")
}

/// Classifies an opened device by its reported name, compared case-insensitively.
/// A device that reports no name is not a keyboard.
pub fn is_keyboard(name: Option<&str>) -> (r: bool)
    ensures
        r == match name {
            Some(n) => keyboard_named(n@),
            None => false,
        },
{
    match name {
        Some(n) => {
            let lowered = lowercase(n);
            has_keyboard_marker(lowered.as_str())
        },
        None => false,
    }
}

/// Device files of the input-event kind have this in their names.
pub open spec fn event_marker() -> Seq<char> {
    "event"@
}

/// Whether a device file name follows the input-event naming pattern.
pub fn is_event_name(name: &str) -> (r: bool)
    ensures
        r == has_substring(name@, event_marker()),
{
    contains_text(name, "event")
}

/// The names among `names` that follow the input-event pattern, in order.
pub open spec fn event_names(names: Seq<String>) -> Seq<String>
    decreases names.len(),
{
    if names.len() == 0 {
        Seq::empty()
    } else {
        let rest = event_names(names.drop_last());
        if has_substring(names.last()@, event_marker()) {
            rest.push(names.last())
        } else {
            rest
        }
    }
}

/// Filters a directory listing down to the input-event device identifiers.
pub fn select_event_names(names: &Vec<String>) -> (r: Vec<String>)
    ensures
        r@ == event_names(names@),
{
    let mut out: Vec<String> = Vec::new();
    let mut i: usize = 0;
    while i < names.len()
        invariant
            i <= names@.len(),
            out@ == event_names(names@.subrange(0, i as int)),
        decreases names@.len() - i,
    {
        proof {
            let post = names@.subrange(0, i + 1);
            assert(post.drop_last() == names@.subrange(0, i as int));
            assert(post.last() == names@[i as int]);
        }
        if is_event_name(names[i].as_str()) {
            out.push(names[i].clone());
        }
        i = i + 1;
    }
    assert(names@.subrange(0, names@.len() as int) == names@);
    out
}

/// The key code that evdev's key-name table gives a name, if it has one.
pub uninterp spec fn key_code_of(name: Seq<char>) -> Option<u16>;

/// Relies on evdev's `KeyCode::from_str`: a lookup of the name in its table
/// of key names; the code is the `KeyCode`'s field.
#[verifier::external_body]
fn lookup_key_code(name: &str) -> (r: Option<u16>)
    ensures
        r == key_code_of(name@),
{
    evdev::KeyCode::from_str(name).ok().map(|k| k.0)
}

/// The configuration could not be used.
#[derive(Clone, Copy, Debug, PartialEq, Eq, Structural)]
pub enum ConfigError {
    /// The target key's name is not in the key-name table.
    InvalidKey,
}

/// Resolves the configured target key name to its code.
pub fn resolve_target_key(name: &str) -> (r: Result<u16, ConfigError>)
    ensures
        match key_code_of(name@) {
            Some(c) => r == Ok::<u16, ConfigError>(c),
            None => r == Err::<u16, ConfigError>(ConfigError::InvalidKey),
        },
{
    match lookup_key_code(name) {
        Some(c) => Ok(c),
        None => Err(ConfigError::InvalidKey),
    }
}

} // verus!
