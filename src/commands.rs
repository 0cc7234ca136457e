//! Reading what the user types: command words, file extensions and
//! positions in seconds.
use vstd::prelude::*;

use crate::audio_container::OggContainer;
use crate::timing::{lemma_pow10_bounds, pow10, MICROS_PER_SECOND};

verus! {

/// The commands of the prompt.
#[derive(Debug, Clone, Copy, PartialEq, Eq)]
pub enum Command {
    Play,
    Save,
    SetStart,
    SetEnd,
    Quit,
    StopAudio,
    CommandList,
    SetSource,
}

/// Whether two texts are the same, character for character.
pub fn same_text(a: &str, b: &str) -> (r: bool)
    ensures
        r == (a@ == b@),
{
    let n = a.unicode_len();
    if n != b.unicode_len() {
        return false;
    }
    let mut i: usize = 0;
    while i < n
        invariant
            n == a@.len() == b@.len(),
            i <= n,
            a@.subrange(0, i as int) == b@.subrange(0, i as int),
        decreases n - i,
    {
        if a.get_char(i) != b.get_char(i) {
            assert(a@[i as int] != b@[i as int]);
            return false;
        }
        assert(a@.subrange(0, i + 1) =~= a@.subrange(0, i as int).push(a@[i as int]));
        assert(b@.subrange(0, i + 1) =~= b@.subrange(0, i as int).push(b@[i as int]));
        i = i + 1;
    }
    assert(a@ =~= a@.subrange(0, n as int));
    assert(b@ =~= b@.subrange(0, n as int));
    true
}

/// The command that a word names, if any; the match is case-sensitive.
pub open spec fn command_of(word: Seq<char>) -> Option<Command> {
    if word == "play"@ {
        Some(Command::Play)
    } else if word == "save"@ {
        Some(Command::Save)
    } else if word == "set_start"@ {
        Some(Command::SetStart)
    } else if word == "set_end"@ {
        Some(Command::SetEnd)
    } else if word == "quit"@ {
        Some(Command::Quit)
    } else if word == "stop_audio"@ {
        Some(Command::StopAudio)
    } else if word == "command_list"@ {
        Some(Command::CommandList)
    } else if word == "set_source"@ {
        Some(Command::SetSource)
    } else {
        None
    }
}

impl Command {
    /// Reads a command word (already stripped of surrounding whitespace).
    pub fn parse(word: &str) -> (r: Option<Command>)
        ensures
            r == command_of(word@),
    {
        if same_text(word, "play") {
            Some(Command::Play)
        } else if same_text(word, "save") {
            Some(Command::Save)
        } else if same_text(word, "set_start") {
            Some(Command::SetStart)
        } else if same_text(word, "set_end") {
            Some(Command::SetEnd)
        } else if same_text(word, "quit") {
            Some(Command::Quit)
        } else if same_text(word, "stop_audio") {
            Some(Command::StopAudio)
        } else if same_text(word, "command_list") {
            Some(Command::CommandList)
        } else if same_text(word, "set_source") {
            Some(Command::SetSource)
        } else {
            None
        }
    }
}

/// `ext` is the extension of `path`: the longest end of it without a dot,
/// so everything after the last dot, or the whole path if it has none.
pub open spec fn is_extension_of(ext: Seq<char>, path: Seq<char>) -> bool {
    &&& ext.len() <= path.len()
    &&& ext == path.subrange(path.len() - ext.len(), path.len() as int)
    &&& forall|k: int| 0 <= k < ext.len() ==> ext[k] != '.'
    &&& (ext.len() == path.len() || path[path.len() - ext.len() - 1] == '.')
}

/// The part of a path after its last dot, or the whole path without one.
pub fn get_file_extension_from_path(path: &String) -> (r: String)
    ensures
        is_extension_of(r@, path@),
{
    let s = path.as_str();
    let n = s.unicode_len();
    let mut i: usize = n;
    while i > 0 && s.get_char(i - 1) != '.'
        invariant
            i <= n == s@.len(),
            s@ == path@,
            forall|k: int| i <= k < n ==> s@[k] != '.',
        decreases i,
    {
        i = i - 1;
    }
    let ext = String::from_str(s.substring_char(i, n));
    assert(ext@ =~= path@.subrange(path@.len() - ext@.len(), path@.len() as int));
    ext
}

/// A path has one extension.
pub proof fn lemma_extension_unique(a: Seq<char>, b: Seq<char>, path: Seq<char>)
    requires
        is_extension_of(a, path),
        is_extension_of(b, path),
    ensures
        a == b,
{
    if a.len() < b.len() {
        let k = b.len() - a.len() - 1;
        assert(b[k] == path[path.len() - b.len() + k]);
        assert(b[k] != '.');
    } else if b.len() < a.len() {
        let k = a.len() - b.len() - 1;
        assert(a[k] == path[path.len() - a.len() + k]);
        assert(a[k] != '.');
    }
}

/// `c` is the lower-case letter `lower` or its upper-case form `upper`.
pub open spec fn letter_either_case(c: char, lower: char, upper: char) -> bool {
    c == lower || c == upper
}

/// The extension names the Ogg container, in any mix of cases.
pub open spec fn names_ogg(ext: Seq<char>) -> bool {
    &&& ext.len() == 3
    &&& letter_either_case(ext[0], 'o', 'O')
    &&& letter_either_case(ext[1], 'g', 'G')
    &&& letter_either_case(ext[2], 'g', 'G')
}

/// The container that reads and writes files with this extension.
pub fn get_supported_container_type(extension: &str) -> (r: Option<OggContainer>)
    ensures
        r is Some <==> names_ogg(extension@),
{
    if extension.unicode_len() != 3 {
        return None;
    }
    let a = extension.get_char(0);
    let b = extension.get_char(1);
    let c = extension.get_char(2);
    if (a == 'o' || a == 'O') && (b == 'g' || b == 'G') && (c == 'g' || c == 'G') {
        Some(OggContainer)
    } else {
        None
    }
}

/// What a line typed at the seconds prompt asks for.
#[derive(Debug, Clone, Copy, PartialEq, Eq)]
pub enum SecondsInput {
    /// A position, in microseconds.
    Seconds(u64),
    /// The word `back`: leave the value as it was.
    Back,
    /// Anything else: ask again.
    Invalid,
}

pub open spec fn is_digit(c: char) -> bool {
    '0' <= c && c <= '9'
}

pub open spec fn digit_value(c: char) -> nat {
    ((c as u32) - ('0' as u32)) as nat
}

pub open spec fn all_digits(s: Seq<char>) -> bool {
    forall|k: int| 0 <= k < s.len() ==> is_digit(#[trigger] s[k])
}

/// The number that a run of decimal digits writes.
pub open spec fn digits_value(s: Seq<char>) -> nat
    decreases s.len(),
{
    if s.len() == 0 {
        0
    } else {
        digits_value(s.drop_last()) * 10 + digit_value(s.last())
    }
}

/// `text` writes a non-negative decimal number whose digits before the
/// point are `whole` and after it `fraction`; the point may be left out
/// when nothing follows it, and at least one digit is present.
pub open spec fn decimal_parts(text: Seq<char>, whole: Seq<char>, fraction: Seq<char>) -> bool {
    &&& all_digits(whole)
    &&& all_digits(fraction)
    &&& whole.len() + fraction.len() > 0
    &&& (text == whole && fraction.len() == 0 || text == whole + seq!['.'] + fraction)
}

/// Microseconds that a decimal number of seconds writes; fraction digits
/// past the sixth are dropped.
pub open spec fn micros_of(whole: Seq<char>, fraction: Seq<char>) -> nat {
    let kept = if fraction.len() <= 6 {
        fraction
    } else {
        fraction.take(6)
    };
    digits_value(whole) * (MICROS_PER_SECOND as nat) + digits_value(kept) * pow10(
        (6 - kept.len()) as nat,
    )
}

/// What a typed line means: `back`, a number of seconds, or neither.
pub open spec fn seconds_input_of(text: Seq<char>, result: SecondsInput) -> bool {
    &&& (result == SecondsInput::Back <==> text == "back"@)
    &&& forall|w: Seq<char>, f: Seq<char>|
        #![trigger decimal_parts(text, w, f)]
        decimal_parts(text, w, f) ==> result == (if micros_of(w, f) <= u64::MAX {
            SecondsInput::Seconds(micros_of(w, f) as u64)
        } else {
            SecondsInput::Invalid
        })
    &&& (text != "back"@ && (forall|w: Seq<char>, f: Seq<char>|
        !#[trigger] decimal_parts(text, w, f))) ==> result == SecondsInput::Invalid
}

proof fn lemma_digits_prefix_le(s: Seq<char>, i: int)
    requires
        all_digits(s),
        0 <= i <= s.len(),
    ensures
        digits_value(s.take(i)) <= digits_value(s),
    decreases s.len(),
{
    if i == s.len() {
        assert(s.take(i) =~= s);
    } else {
        let t = s.drop_last();
        assert(all_digits(t)) by {
            assert forall|k: int| 0 <= k < t.len() implies is_digit(#[trigger] t[k]) by {
                assert(t[k] == s[k]);
            }
        }
        lemma_digits_prefix_le(t, i);
        assert(t.take(i) =~= s.take(i));
    }
}

proof fn lemma_digits_step(s: Seq<char>, i: int)
    requires
        0 <= i < s.len(),
    ensures
        digits_value(s.take(i + 1)) == digits_value(s.take(i)) * 10 + digit_value(s[i]),
{
    assert(s.take(i + 1).drop_last() =~= s.take(i));
}

proof fn lemma_digits_below_pow10(s: Seq<char>)
    requires
        all_digits(s),
    ensures
        digits_value(s) < pow10(s.len()),
    decreases s.len(),
{
    if s.len() > 0 {
        let t = s.drop_last();
        assert(all_digits(t)) by {
            assert forall|k: int| 0 <= k < t.len() implies is_digit(#[trigger] t[k]) by {
                assert(t[k] == s[k]);
            }
        }
        lemma_digits_below_pow10(t);
        assert(is_digit(s[s.len() - 1]));
        assert(digit_value(s.last()) <= 9);
    }
}

/// Whether every character of `text[from..to]` is a decimal digit.
fn all_digit_run(text: &str, from: usize, to: usize) -> (r: bool)
    requires
        from <= to <= text@.len(),
    ensures
        r == all_digits(text@.subrange(from as int, to as int)),
{
    let mut i: usize = from;
    while i < to
        invariant
            from <= i <= to <= text@.len(),
            forall|k: int| from <= k < i ==> is_digit(#[trigger] text@[k]),
        decreases to - i,
    {
        let c = text.get_char(i);
        if c < '0' || c > '9' {
            assert(text@.subrange(from as int, to as int)[i - from] == c);
            return false;
        }
        i = i + 1;
    }
    assert forall|k: int| 0 <= k < to - from implies is_digit(
        #[trigger] text@.subrange(from as int, to as int)[k],
    ) by {
        assert(text@.subrange(from as int, to as int)[k] == text@[from + k]);
    }
    true
}

/// The value of the digit run `text[from..to]`, or `None` where a character
/// in it is no digit or the value passes `limit`.
fn digit_run_value(text: &str, from: usize, to: usize, limit: u128) -> (r: Option<u128>)
    requires
        from <= to <= text@.len(),
        limit <= u64::MAX,
    ensures
        r matches Some(v) ==> all_digits(text@.subrange(from as int, to as int)) && v
            == digits_value(text@.subrange(from as int, to as int)) && v <= limit,
        r is None ==> !all_digits(text@.subrange(from as int, to as int)) || digits_value(
            text@.subrange(from as int, to as int),
        ) > limit,
{
    let ghost run = text@.subrange(from as int, to as int);
    let mut value: u128 = 0;
    let mut i: usize = from;
    while i < to
        invariant
            from <= i <= to <= text@.len(),
            run == text@.subrange(from as int, to as int),
            all_digits(run.take(i - from)),
            value == digits_value(run.take(i - from)),
            value <= limit <= u64::MAX,
        decreases to - i,
    {
        let c = text.get_char(i);
        assert(c == run[i - from]);
        if c < '0' || c > '9' {
            return None;
        }
        proof {
            lemma_digits_step(run, i - from);
            assert forall|k: int| 0 <= k < run.take(i - from + 1).len() implies is_digit(
                #[trigger] run.take(i - from + 1)[k],
            ) by {
                if k < i - from {
                    assert(run.take(i - from + 1)[k] == run.take(i - from)[k]);
                }
            }
        }
        value = value * 10 + (c as u32 - '0' as u32) as u128;
        if value > limit {
            proof {
                if all_digits(run) {
                    lemma_digits_prefix_le(run, i - from + 1);
                }
            }
            return None;
        }
        i = i + 1;
    }
    assert(run.take(to - from) =~= run);
    Some(value)
}

/// Reads a line typed at the seconds prompt (already stripped of
/// surrounding whitespace).
pub fn parse_seconds(text: &str) -> (r: SecondsInput)
    ensures
        seconds_input_of(text@, r),
{
    if same_text(text, "back") {
        proof {
            reveal_strlit("back");
            assert forall|w: Seq<char>, f: Seq<char>| !#[trigger] decimal_parts(text@, w, f) by {
                if decimal_parts(text@, w, f) {
                    if w.len() > 0 {
                        assert(text@[0] == w[0]);
                        assert(is_digit(w[0]));
                    } else {
                        assert(text@[0] == '.');
                    }
                }
            }
        }
        return SecondsInput::Back;
    }
    let n = text.unicode_len();
    let mut p: usize = 0;
    while p < n && text.get_char(p) != '.'
        invariant
            p <= n == text@.len(),
            forall|k: int| 0 <= k < p ==> text@[k] != '.',
        decreases n - p,
    {
        p = p + 1;
    }
    let ghost whole = text@.subrange(0, p as int);
    let ghost fraction = if p < n {
        text@.subrange(p + 1, n as int)
    } else {
        Seq::<char>::empty()
    };
    // Any split of the text into a decimal number is this one.
    assert forall|w: Seq<char>, f: Seq<char>| #[trigger]
        decimal_parts(text@, w, f) implies w == whole && f == fraction by {
        if text@ == w && f.len() == 0 {
            assert forall|k: int| 0 <= k < w.len() implies w[k] != '.' by {
                assert(is_digit(w[k]));
            }
            assert(p == n);
            assert(w =~= whole);
            assert(f =~= fraction);
        } else {
            assert(text@ == w + seq!['.'] + f);
            assert(text@[w.len() as int] == '.');
            assert forall|k: int| 0 <= k < w.len() implies text@[k] != '.' by {
                assert(text@[k] == w[k]);
                assert(is_digit(w[k]));
            }
            assert(p == w.len());
            assert(w =~= whole);
            assert(f =~= fraction);
        }
    }
    let frac_start: usize = if p < n {
        p + 1
    } else {
        n
    };
    let frac_len = n - frac_start;
    let kept_len: usize = if frac_len <= 6 {
        frac_len
    } else {
        6
    };
    assert(fraction =~= text@.subrange(frac_start as int, n as int));
    if p == n && n == 0 || p < n && n == 1 {
        // No digit at all: an empty line or a lone point.
        assert(whole.len() == 0 && fraction.len() == 0);
        assert forall|w: Seq<char>, f: Seq<char>| !#[trigger] decimal_parts(text@, w, f) by {
            if decimal_parts(text@, w, f) {
                assert(w == whole && f == fraction);
            }
        }
        return SecondsInput::Invalid;
    }
    let whole_value = match digit_run_value(text, 0, p, (u64::MAX / MICROS_PER_SECOND) as u128) {
        Some(v) => v,
        None => {
            proof {
                assert forall|w: Seq<char>, f: Seq<char>| #[trigger]
                    decimal_parts(text@, w, f) implies micros_of(w, f) > u64::MAX by {
                    assert(w == whole && f == fraction);
                    assert(all_digits(whole));
                    let dv = digits_value(w);
                    assert(dv > 18446744073709);
                    assert(dv * 1_000_000 > u64::MAX) by (nonlinear_arith)
                        requires
                            dv > 18446744073709,
                    ;
                }
            }
            return SecondsInput::Invalid;
        },
    };
    if !all_digit_run(text, frac_start, n) {
        return SecondsInput::Invalid;
    }
    let ghost kept = text@.subrange(frac_start as int, (frac_start + kept_len) as int);
    proof {
        assert forall|k: int| 0 <= k < kept.len() implies is_digit(#[trigger] kept[k]) by {
            assert(kept[k] == fraction[k]);
        }
        lemma_digits_below_pow10(kept);
        lemma_pow10_bounds(kept.len());
    }
    let kept_value = match digit_run_value(text, frac_start, frac_start + kept_len, 999_999) {
        Some(v) => v,
        None => {
            return SecondsInput::Invalid;
        },
    };
    let mut scale: u128 = 1;
    let mut k: usize = kept_len;
    while k < 6
        invariant
            kept_len <= k <= 6,
            scale == pow10((k - kept_len) as nat),
            scale <= 1_000_000,
        decreases 6 - k,
    {
        assert(pow10((k + 1 - kept_len) as nat) == 10 * pow10((k - kept_len) as nat));
        proof {
            lemma_pow10_bounds((k + 1 - kept_len) as nat);
        }
        scale = scale * 10;
        k = k + 1;
    }
    assert(kept_value * scale <= 999_999 * 1_000_000) by (nonlinear_arith)
        requires
            kept_value <= 999_999,
            scale <= 1_000_000,
    ;
    let total = whole_value * (MICROS_PER_SECOND as u128) + kept_value * scale;
    assert(text@.subrange(frac_start as int, (frac_start + kept_len) as int) =~= (if fraction.len()
        <= 6 {
        fraction
    } else {
        fraction.take(6)
    }));
    if total > u64::MAX as u128 {
        return SecondsInput::Invalid;
    }
    assert(decimal_parts(text@, whole, fraction)) by {
        if p < n {
            assert(text@ =~= whole + seq!['.'] + fraction);
        } else {
            assert(text@ =~= whole);
        }
    }
    SecondsInput::Seconds(total as u64)
}

/// The name a saved file gets: a name without a dot always gets `.ogg`
/// added; a name with one keeps its form where the part after the last dot
/// is the container's extension, in any case, and gets `.ogg` added
/// otherwise.
pub fn output_file_name(name: &String) -> (r: String)
    ensures
        (forall|k: int| 0 <= k < name@.len() ==> name@[k] != '.') ==> r@ == name@ + ".ogg"@,
        exists|e: Seq<char>| is_extension_of(e, name@),
        forall|e: Seq<char>|
            #![trigger is_extension_of(e, name@)]
            is_extension_of(e, name@) && e.len() < name@.len() ==> r@ == (if names_ogg(e) {
                name@
            } else {
                name@ + ".ogg"@
            }),
{
    let ext = get_file_extension_from_path(name);
    let has_dot = ext.as_str().unicode_len() < name.as_str().unicode_len();
    let mut r = name.clone();
    if !has_dot || get_supported_container_type(ext.as_str()).is_none() {
        r.append(".ogg");
    }
    proof {
        assert forall|e: Seq<char>| #[trigger]
            is_extension_of(e, name@) && e.len() < name@.len() implies r@ == (if names_ogg(e) {
            name@
        } else {
            name@ + ".ogg"@
        }) by {
            lemma_extension_unique(e, ext@, name@);
        }
        if forall|k: int| 0 <= k < name@.len() ==> name@[k] != '.' {
            if has_dot {
                assert(name@[name@.len() - ext@.len() - 1] == '.');
            }
        }
    }
    r
}

} // verus!
