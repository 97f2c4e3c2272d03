use vstd::prelude::*;

use std::sync::atomic::AtomicBool;
use std::sync::Arc;

use crate::license_policy::{AppError, ErrorCode};
use crate::text::push_char;
use crate::text_map::{entries_map, keys_ascending, TextMap};

verus! {

/// Launches managed programs; whether their logs are cleared on start is a switch that the
/// settings share with it.
pub struct NativeProcessDriver {
    pub clear_logs_on_start: Arc<AtomicBool>,
}

impl NativeProcessDriver {
    /// A driver that reads the shared switch on every launch.
    pub fn new(clear_logs_on_start: Arc<AtomicBool>) -> (driver: Self)
        ensures
            driver.clear_logs_on_start == clear_logs_on_start,
    {
        NativeProcessDriver { clear_logs_on_start }
    }
}

/// The most UTF-16 units a Windows command line or environment block may hold.
pub const WINDOWS_PROCESS_STRING_LIMIT: usize = 32_767;

/// Whether a character has the Unicode White_Space property (`char::is_whitespace`).
pub open spec fn is_white_space(c: char) -> bool {
    ||| '\u{9}' <= c <= '\u{d}'
    ||| c == ' '
    ||| c == '\u{85}'
    ||| c == '\u{a0}'
    ||| c == '\u{1680}'
    ||| '\u{2000}' <= c <= '\u{200a}'
    ||| c == '\u{2028}'
    ||| c == '\u{2029}'
    ||| c == '\u{202f}'
    ||| c == '\u{205f}'
    ||| c == '\u{3000}'
}

/// Whether a character has the Unicode White_Space property.
pub fn white_space(c: char) -> (space: bool)
    ensures
        space == is_white_space(c),
{
    ('\u{9}' <= c && c <= '\u{d}') || c == ' ' || c == '\u{85}' || c == '\u{a0}' || c == '\u{1680}'
        || ('\u{2000}' <= c && c <= '\u{200a}') || c == '\u{2028}' || c == '\u{2029}' || c
        == '\u{202f}' || c == '\u{205f}' || c == '\u{3000}'
}

/// `n` backslashes.
pub open spec fn backslashes(n: nat) -> Seq<char>
    decreases n,
{
    if n == 0 {
        Seq::empty()
    } else {
        backslashes((n - 1) as nat).push('\\')
    }
}

/// Whether an argument needs quotes: it is empty, or holds white space or a quote.
pub open spec fn needs_quotes(value: Seq<char>) -> bool {
    value.len() == 0 || exists|i: int| 0 <= i < value.len() && (is_white_space(#[trigger] value[i]) || value[i] == '"')
}

/// The quoted body of an argument after its first `k` characters, with `pending` backslashes
/// not yet written: a quote is preceded by twice the pending backslashes and one more, other
/// characters by the pending backslashes as they are, and the end by twice the pending ones.
pub open spec fn quoted_from(value: Seq<char>, k: int, pending: nat) -> Seq<char>
    decreases value.len() - k,
{
    if k >= value.len() {
        backslashes(pending * 2)
    } else if value[k] == '\\' {
        quoted_from(value, k + 1, pending + 1)
    } else if value[k] == '"' {
        backslashes(pending * 2 + 1) + seq!['"'] + quoted_from(value, k + 1, 0)
    } else {
        backslashes(pending) + seq![value[k]] + quoted_from(value, k + 1, 0)
    }
}

/// An argument as the Microsoft C runtime reads it back: as it is when it needs no quotes,
/// otherwise in quotes with backslashes escaped where they precede a quote.
pub open spec fn windows_quoted(value: Seq<char>) -> Seq<char> {
    if !needs_quotes(value) {
        value
    } else {
        seq!['"'] + quoted_from(value, 0, 0) + seq!['"']
    }
}

fn push_backslashes(out: &mut String, n: usize)
    ensures
        final(out)@ == old(out)@ + backslashes(n as nat),
    decreases n,
{
    if n > 0 {
        push_backslashes(out, n - 1);
        push_char(out, '\\');
        assert(old(out)@ + backslashes((n - 1) as nat) + seq!['\\'] =~= old(out)@ + backslashes(n as nat));
    } else {
        assert(old(out)@ + backslashes(0) =~= old(out)@);
    }
}

/// Quotes one argument of a Windows command line.
pub fn quote_windows(value: &str) -> (quoted: String)
    requires
        value@.len() < usize::MAX / 2,
    ensures
        quoted@ == windows_quoted(value@),
{
    let n = value.unicode_len();
    let mut plain = n > 0;
    let mut i: usize = 0;
    while i < n
        invariant
            n == value@.len(),
            i <= n,
            plain == (n > 0 && forall|j: int| 0 <= j < i ==> !(is_white_space(#[trigger] value@[j]) || value@[j] == '"')),
        decreases n - i,
    {
        let c = value.get_char(i);
        if white_space(c) || c == '"' {
            plain = false;
        }
        i = i + 1;
    }
    if plain {
        proof {
            if needs_quotes(value@) {
                let j = choose|j: int| 0 <= j < value@.len() && (is_white_space(#[trigger] value@[j]) || value@[j] == '"');
            }
        }
        return value.to_owned();
    }
    let mut quoted = String::new();
    push_char(&mut quoted, '"');
    let mut slashes: usize = 0;
    let mut k: usize = 0;
    while k < n
        invariant
            n == value@.len(),
            n < usize::MAX / 2,
            k <= n,
            slashes <= k,
            quoted@ + quoted_from(value@, k as int, slashes as nat) == seq!['"'] + quoted_from(value@, 0, 0),
        decreases n - k,
    {
        let c = value.get_char(k);
        let ghost before = quoted@;
        let ghost s0 = slashes as nat;
        let ghost rest = quoted_from(value@, k + 1, 0);
        if c == '\\' {
            slashes = slashes + 1;
        } else if c == '"' {
            push_backslashes(&mut quoted, slashes * 2 + 1);
            push_char(&mut quoted, '"');
            slashes = 0;
            assert(quoted_from(value@, k as int, s0) == backslashes(s0 * 2 + 1) + seq!['"'] + rest);
            assert(quoted@ + rest =~= before + (backslashes(s0 * 2 + 1) + seq!['"'] + rest));
        } else {
            push_backslashes(&mut quoted, slashes);
            slashes = 0;
            push_char(&mut quoted, c);
            assert(quoted_from(value@, k as int, s0) == backslashes(s0) + seq![c] + rest);
            assert(quoted@ + rest =~= before + (backslashes(s0) + seq![c] + rest));
        }
        k = k + 1;
    }
    let ghost before = quoted@;
    push_backslashes(&mut quoted, slashes * 2);
    push_char(&mut quoted, '"');
    proof {
        assert(quoted_from(value@, n as int, slashes as nat) == backslashes((slashes * 2) as nat));
        assert(!needs_quotes(value@) ==> plain) by {
            if !needs_quotes(value@) {
                assert forall|j: int| 0 <= j < n implies !(is_white_space(#[trigger] value@[j]) || value@[j] == '"') by {}
            }
        }
        assert(quoted@ =~= seq!['"'] + quoted_from(value@, 0, 0) + seq!['"']);
    }
    quoted
}


/// How the Microsoft C runtime reads the rest of a quoted argument, `pending` backslashes having
/// been seen just before `text`: backslashes before a quote are halved, an odd one making the
/// quote part of the argument and an even number letting it close the argument; backslashes
/// before anything else, and every other character, are kept as they are. The argument is read
/// only when a closing quote ends the text.
pub open spec fn runtime_quoted_rest(text: Seq<char>, pending: nat) -> Option<Seq<char>>
    decreases text.len(),
{
    if text.len() == 0 {
        None
    } else if text[0] == '\\' {
        runtime_quoted_rest(text.drop_first(), pending + 1)
    } else if text[0] == '"' {
        if pending % 2 == 0 {
            if text.len() == 1 {
                Some(backslashes(pending / 2))
            } else {
                None
            }
        } else {
            match runtime_quoted_rest(text.drop_first(), 0) {
                Some(rest) => Some(backslashes(pending / 2) + seq!['"'] + rest),
                None => None,
            }
        }
    } else {
        match runtime_quoted_rest(text.drop_first(), 0) {
            Some(rest) => Some(backslashes(pending) + seq![text[0]] + rest),
            None => None,
        }
    }
}

/// The one argument that the Microsoft C runtime reads from `text`: a text opening with a quote
/// is read as a quoted argument; any other is read as it is, when it is not empty and holds no
/// white space and no quote.
pub open spec fn runtime_argument(text: Seq<char>) -> Option<Seq<char>> {
    if text.len() > 0 && text[0] == '"' {
        runtime_quoted_rest(text.drop_first(), 0)
    } else if text.len() > 0 && forall|i: int|
        0 <= i < text.len() ==> !(is_white_space(#[trigger] text[i]) || text[i] == '"') {
        Some(text)
    } else {
        None
    }
}

proof fn lemma_runtime_reads_backslashes(m: nat, tail: Seq<char>, pending: nat)
    ensures
        runtime_quoted_rest(backslashes(m) + tail, pending) == runtime_quoted_rest(tail, pending + m),
    decreases m,
{
    if m == 0 {
        assert(backslashes(0) + tail =~= tail);
    } else {
        let one = seq!['\\'] + tail;
        assert(backslashes(m) + tail =~= backslashes((m - 1) as nat) + one);
        lemma_runtime_reads_backslashes((m - 1) as nat, one, pending);
        assert(one.drop_first() =~= tail);
    }
}

proof fn lemma_quoted_from_reads_back(value: Seq<char>, k: int, pending: nat)
    requires
        0 <= k <= value.len(),
    ensures
        runtime_quoted_rest(quoted_from(value, k, pending) + seq!['"'], 0) == Some(
            backslashes(pending) + value.subrange(k, value.len() as int),
        ),
    decreases value.len() - k,
{
    let close = seq!['"'];
    if k >= value.len() {
        lemma_runtime_reads_backslashes(pending * 2, close, 0);
        assert((pending * 2) % 2 == 0 && (pending * 2) / 2 == pending);
        assert(value.subrange(k, value.len() as int) =~= Seq::<char>::empty());
        assert(backslashes(pending) + Seq::<char>::empty() =~= backslashes(pending));
    } else if value[k] == '\\' {
        lemma_quoted_from_reads_back(value, k + 1, pending + 1);
        assert(backslashes(pending + 1) + value.subrange(k + 1, value.len() as int) =~= backslashes(pending)
            + value.subrange(k, value.len() as int));
    } else if value[k] == '"' {
        lemma_quoted_from_reads_back(value, k + 1, 0);
        let rest = quoted_from(value, k + 1, 0) + close;
        let text = close + rest;
        assert(quoted_from(value, k, pending) + close =~= backslashes(pending * 2 + 1) + text);
        lemma_runtime_reads_backslashes(pending * 2 + 1, text, 0);
        assert(text.drop_first() =~= rest);
        assert((pending * 2 + 1) % 2 == 1 && (pending * 2 + 1) / 2 == pending);
        assert(backslashes(0) + value.subrange(k + 1, value.len() as int) =~= value.subrange(k + 1, value.len() as int));
        assert(backslashes(pending) + seq!['"'] + value.subrange(k + 1, value.len() as int) =~= backslashes(pending)
            + value.subrange(k, value.len() as int));
    } else {
        lemma_quoted_from_reads_back(value, k + 1, 0);
        let rest = quoted_from(value, k + 1, 0) + close;
        let text = seq![value[k]] + rest;
        assert(quoted_from(value, k, pending) + close =~= backslashes(pending) + text);
        lemma_runtime_reads_backslashes(pending, text, 0);
        assert(text.drop_first() =~= rest);
        assert(backslashes(0) + value.subrange(k + 1, value.len() as int) =~= value.subrange(k + 1, value.len() as int));
        assert(backslashes(pending) + seq![value[k]] + value.subrange(k + 1, value.len() as int) =~= backslashes(pending)
            + value.subrange(k, value.len() as int));
    }
}

/// A quoted argument reads back as it was: the Microsoft C runtime reads from the quoted text of
/// any argument exactly that argument, its backslashes and quotes included, and no more.
pub proof fn lemma_windows_quoting_reads_back(value: Seq<char>)
    ensures
        runtime_argument(windows_quoted(value)) == Some(value),
{
    if needs_quotes(value) {
        let q = windows_quoted(value);
        assert(q[0] == '"');
        assert(q.drop_first() =~= quoted_from(value, 0, 0) + seq!['"']);
        lemma_quoted_from_reads_back(value, 0, 0);
        assert(backslashes(0) + value.subrange(0, value.len() as int) =~= value);
    } else {
        assert forall|i: int| 0 <= i < value.len() implies !(is_white_space(#[trigger] value[i]) || value[i] == '"') by {}
        assert(value[0] != '"');
    }
}

/// The UTF-16 units of a character.
pub open spec fn utf16_units(c: char) -> Seq<u16> {
    let x = c as u32;
    if x < 0x10000 {
        seq![x as u16]
    } else {
        seq![(0xD800 + (x - 0x10000) / 0x400) as u16, (0xDC00 + (x - 0x10000) % 0x400) as u16]
    }
}

/// The UTF-16 encoding of a text.
pub open spec fn utf16(s: Seq<char>) -> Seq<u16>
    decreases s.len(),
{
    if s.len() == 0 {
        Seq::empty()
    } else {
        utf16(s.drop_last()) + utf16_units(s.last())
    }
}

/// Appends the UTF-16 encoding of a text.
pub fn push_utf16(out: &mut Vec<u16>, s: &str)
    ensures
        final(out)@ == old(out)@ + utf16(s@),
{
    let ghost start = out@;
    let n = s.unicode_len();
    let mut i: usize = 0;
    while i < n
        invariant
            n == s@.len(),
            i <= n,
            out@ == start + utf16(s@.subrange(0, i as int)),
        decreases n - i,
    {
        let c = s.get_char(i);
        let x = c as u32;
        if x < 0x10000 {
            out.push(x as u16);
        } else {
            let y = x - 0x10000;
            out.push((0xD800 + y / 0x400) as u16);
            out.push((0xDC00 + y % 0x400) as u16);
        }
        proof {
            assert(s@.subrange(0, i + 1).drop_last() =~= s@.subrange(0, i as int));
            assert(out@ =~= start + utf16(s@.subrange(0, i + 1)));
        }
        i = i + 1;
    }
    assert(s@.subrange(0, n as int) =~= s@);
}

/// The upper-case form of a text by Unicode's rules, as `str::to_uppercase` gives it.
pub uninterp spec fn uppercase(text: Seq<char>) -> Seq<char>;

/// Upper-cases a text with `str::to_uppercase`. The contract claims only that the result is
/// the named value [`uppercase`] of the text: the case mapping is std's.
#[verifier::external_body]
fn uppercase_text(text: &str) -> (upper: String)
    ensures
        upper@ == uppercase(text@),
{
    text.to_uppercase()
}

/// The names of the variables a program started on Windows inherits from the application.
pub fn inherited_environment_keys() -> (keys: Vec<&'static str>)
    ensures
        keys@.len() == 10,
        keys@[0]@ == "APPDATA"@,
        keys@[1]@ == "COMSPEC"@,
        keys@[2]@ == "LOCALAPPDATA"@,
        keys@[3]@ == "PATH"@,
        keys@[4]@ == "PATHEXT"@,
        keys@[5]@ == "SYSTEMROOT"@,
        keys@[6]@ == "TEMP"@,
        keys@[7]@ == "TMP"@,
        keys@[8]@ == "USERPROFILE"@,
        keys@[9]@ == "WINDIR"@,
{
    vec![
        "APPDATA",
        "COMSPEC",
        "LOCALAPPDATA",
        "PATH",
        "PATHEXT",
        "SYSTEMROOT",
        "TEMP",
        "TMP",
        "USERPROFILE",
        "WINDIR",
    ]
}

/// The variables named in order, a later one replacing an earlier one of the same name.
pub open spec fn pairs_map(s: Seq<(String, String)>) -> Map<Seq<char>, Seq<char>>
    decreases s.len(),
{
    if s.len() == 0 {
        Map::empty()
    } else {
        pairs_map(s.drop_last()).insert(s.last().0@, s.last().1@)
    }
}

/// The environment a program starts with: the inherited variables, then each override under
/// its upper-case name, replacing a variable of that name.
pub open spec fn environment_map(inherited: Seq<(String, String)>, overrides: Seq<(String, String)>) -> Map<
    Seq<char>,
    Seq<char>,
>
    decreases overrides.len(),
{
    if overrides.len() == 0 {
        pairs_map(inherited)
    } else {
        environment_map(inherited, overrides.drop_last()).insert(uppercase(overrides.last().0@), overrides.last().1@)
    }
}

/// The units of one variable in an environment block: `name=value` and a terminating zero.
pub open spec fn variable_units(e: (String, String)) -> Seq<u16> {
    utf16(e.0@) + seq![61u16] + utf16(e.1@) + seq![0u16]
}

/// The units of variables, one after the other.
pub open spec fn variables_units(s: Seq<(String, String)>) -> Seq<u16>
    decreases s.len(),
{
    if s.len() == 0 {
        Seq::empty()
    } else {
        variables_units(s.drop_last()) + variable_units(s.last())
    }
}

/// A Windows environment block of variables given in the order of their names: each variable,
/// then a final zero.
pub open spec fn environment_units(s: Seq<(String, String)>) -> Seq<u16> {
    variables_units(s) + seq![0u16]
}

/// The message for an environment block that does not fit.
pub const ENVIRONMENT_TOO_LONG: &'static str = "Windows environment block exceeds 32767 UTF-16 units";

/// The environment block a program starts with on Windows: the `inherited` variables (the
/// application's values of the inherited names) and the program's `overrides`, each under its
/// upper-case name, listed in the order of their names; refused when it does not fit.
pub fn environment_block(inherited: &Vec<(String, String)>, overrides: &Vec<(String, String)>) -> (block: Result<
    Vec<u16>,
    AppError,
>)
    ensures
        exists|variables: Seq<(String, String)>|
            {
                &&& keys_ascending(variables)
                &&& entries_map(variables) == environment_map(inherited@, overrides@)
                &&& match block {
                    Ok(b) => b@ == environment_units(variables) && b@.len() <= WINDOWS_PROCESS_STRING_LIMIT,
                    Err(e) => e.code == ErrorCode::InvalidSpec && environment_units(variables).len()
                        > WINDOWS_PROCESS_STRING_LIMIT,
                }
            },
{
    let mut variables = TextMap::new();
    let mut i: usize = 0;
    while i < inherited.len()
        invariant
            i <= inherited@.len(),
            variables.well_formed(),
            variables@ == pairs_map(inherited@.subrange(0, i as int)),
        decreases inherited@.len() - i,
    {
        let (name, value) = &inherited[i];
        variables.insert(name.clone(), value.clone());
        proof {
            assert(inherited@.subrange(0, i + 1).drop_last() =~= inherited@.subrange(0, i as int));
        }
        i = i + 1;
    }
    assert(inherited@.subrange(0, i as int) =~= inherited@);
    let mut j: usize = 0;
    while j < overrides.len()
        invariant
            j <= overrides@.len(),
            variables.well_formed(),
            variables@ == environment_map(inherited@, overrides@.subrange(0, j as int)),
        decreases overrides@.len() - j,
    {
        let (name, value) = &overrides[j];
        variables.insert(uppercase_text(name.as_str()), value.clone());
        proof {
            assert(overrides@.subrange(0, j + 1).drop_last() =~= overrides@.subrange(0, j as int));
        }
        j = j + 1;
    }
    assert(overrides@.subrange(0, j as int) =~= overrides@);
    let entries = variables.entries();
    let mut units: Vec<u16> = Vec::new();
    let mut k: usize = 0;
    while k < entries.len()
        invariant
            k <= entries@.len(),
            units@ == variables_units(entries@.subrange(0, k as int)),
        decreases entries@.len() - k,
    {
        let ghost before = units@;
        push_utf16(&mut units, entries[k].0.as_str());
        units.push(61u16);
        push_utf16(&mut units, entries[k].1.as_str());
        units.push(0u16);
        proof {
            assert(entries@.subrange(0, k + 1).drop_last() =~= entries@.subrange(0, k as int));
            assert(units@ =~= before + variable_units(entries@[k as int]));
        }
        k = k + 1;
    }
    assert(entries@.subrange(0, k as int) =~= entries@);
    units.push(0u16);
    if units.len() > WINDOWS_PROCESS_STRING_LIMIT {
        return Err(AppError { code: ErrorCode::InvalidSpec, message: ENVIRONMENT_TOO_LONG.to_string(), details: None });
    }
    Ok(units)
}

/// The number of UTF-16 units that encode a text.
pub open spec fn utf16_len(s: Seq<char>) -> nat
    decreases s.len(),
{
    if s.len() == 0 {
        0
    } else {
        utf16_len(s.drop_last()) + if (s.last() as u32) < 0x10000 {
            1nat
        } else {
            2nat
        }
    }
}

proof fn lemma_utf16_len_grows(s: Seq<char>, i: int)
    requires
        0 <= i <= s.len(),
    ensures
        utf16_len(s.subrange(0, i)) <= utf16_len(s),
    decreases s.len() - i,
{
    if i < s.len() {
        lemma_utf16_len_grows(s, i + 1);
        assert(s.subrange(0, i + 1).drop_last() =~= s.subrange(0, i));
    } else {
        assert(s.subrange(0, i) =~= s);
    }
}

/// Whether a text, with its terminating zero, fits in a Windows process string.
pub fn fits_windows_process_string(s: &str) -> (fits: bool)
    ensures
        fits == (utf16_len(s@) + 1 <= WINDOWS_PROCESS_STRING_LIMIT),
{
    let n = s.unicode_len();
    let mut units: usize = 0;
    let mut i: usize = 0;
    while i < n
        invariant
            n == s@.len(),
            i <= n,
            units == utf16_len(s@.subrange(0, i as int)),
            units + 1 <= WINDOWS_PROCESS_STRING_LIMIT,
        decreases n - i,
    {
        let c = s.get_char(i);
        assert(s@.subrange(0, i + 1).drop_last() =~= s@.subrange(0, i as int));
        let width: usize = if (c as u32) < 0x10000 {
            1
        } else {
            2
        };
        if units + width + 1 > WINDOWS_PROCESS_STRING_LIMIT {
            proof {
                lemma_utf16_len_grows(s@, i + 1);
            }
            return false;
        }
        units = units + width;
        i = i + 1;
    }
    assert(s@.subrange(0, n as int) =~= s@);
    true
}

/// A Windows command line: the quoted executable, then each quoted argument after a space.
pub open spec fn command_line_of(executable: Seq<char>, arguments: Seq<Seq<char>>) -> Seq<char>
    decreases arguments.len(),
{
    if arguments.len() == 0 {
        windows_quoted(executable)
    } else {
        command_line_of(executable, arguments.drop_last()) + seq![' '] + windows_quoted(
            arguments.last(),
        )
    }
}

/// The message for a command line that does not fit.
pub const COMMAND_LINE_TOO_LONG: &'static str = "Windows command line exceeds 32767 UTF-16 units";

/// The command line that launches `executable` with `arguments`, refused when it does not fit.
pub fn build_command_line(executable: &str, arguments: &Vec<String>) -> (line: Result<String, AppError>)
    requires
        executable@.len() < usize::MAX / 2,
        forall|i: int| 0 <= i < arguments@.len() ==> #[trigger] arguments@[i]@.len() < usize::MAX / 2,
    ensures
        match line {
            Ok(text) => text@ == command_line_of(executable@, arguments@.map_values(|a: String| a@))
                && utf16_len(text@) + 1 <= WINDOWS_PROCESS_STRING_LIMIT,
            Err(e) => e.code == ErrorCode::InvalidSpec && utf16_len(
                command_line_of(executable@, arguments@.map_values(|a: String| a@)),
            ) + 1 > WINDOWS_PROCESS_STRING_LIMIT,
        },
{
    let ghost args = arguments@.map_values(|a: String| a@);
    let mut line = quote_windows(executable);
    let mut i: usize = 0;
    while i < arguments.len()
        invariant
            i <= arguments@.len(),
            args == arguments@.map_values(|a: String| a@),
            forall|j: int| 0 <= j < arguments@.len() ==> #[trigger] arguments@[j]@.len() < usize::MAX / 2,
            line@ == command_line_of(executable@, args.subrange(0, i as int)),
        decreases arguments@.len() - i,
    {
        push_char(&mut line, ' ');
        let quoted = quote_windows(arguments[i].as_str());
        let mut k: usize = 0;
        let ghost before = line@;
        let m = quoted.unicode_len();
        while k < m
            invariant
                m == quoted@.len(),
                k <= m,
                line@ == before + quoted@.subrange(0, k as int),
            decreases m - k,
        {
            push_char(&mut line, quoted.as_str().get_char(k));
            k = k + 1;
            assert(line@ =~= before + quoted@.subrange(0, k as int));
        }
        proof {
            assert(args.subrange(0, i + 1).drop_last() =~= args.subrange(0, i as int));
            assert(args.subrange(0, i + 1).last() == arguments@[i as int]@);
            assert(quoted@.subrange(0, m as int) =~= quoted@);
        }
        i = i + 1;
    }
    assert(args.subrange(0, arguments@.len() as int) =~= args);
    if fits_windows_process_string(line.as_str()) {
        Ok(line)
    } else {
        Err(AppError { code: ErrorCode::InvalidSpec, message: COMMAND_LINE_TOO_LONG.to_owned(), details: None })
    }
}


/// The output of one stream of a tool command, kept up to the limit that both of its streams
/// share.
pub struct OutputCollector {
    output: Vec<u8>,
    reported: bool,
}

impl OutputCollector {
    /// The bytes kept so far.
    pub closed spec fn kept(&self) -> Seq<u8> {
        self.output@
    }

    /// Whether this stream has reported that the limit was passed.
    pub closed spec fn reported(&self) -> bool {
        self.reported
    }

    pub fn new() -> (collector: Self)
        ensures
            collector.kept() == Seq::<u8>::empty(),
            !collector.reported(),
    {
        OutputCollector { output: Vec::new(), reported: false }
    }

    /// Takes a chunk that was read when both streams together had read `previous_total` bytes:
    /// keeps as much of it as still fits under `limit`, and says whether the limit is passed
    /// now for the first time on this stream (the tool is then stopped).
    pub fn accept(&mut self, chunk: &[u8], previous_total: usize, limit: usize) -> (report: bool)
        ensures
            ({
                let remaining = if previous_total < limit {
                    limit - previous_total
                } else {
                    0
                };
                let kept = if chunk@.len() < remaining {
                    chunk@.len() as int
                } else {
                    remaining
                };
                &&& final(self).kept() == old(self).kept() + chunk@.subrange(0, kept)
                &&& report == (chunk@.len() > remaining && !old(self).reported())
                &&& final(self).reported() == (old(self).reported() || chunk@.len() > remaining)
            }),
    {
        let remaining: usize = if previous_total < limit {
            limit - previous_total
        } else {
            0
        };
        let kept = if chunk.len() < remaining {
            chunk.len()
        } else {
            remaining
        };
        let ghost start = self.output@;
        let mut i: usize = 0;
        while i < kept
            invariant
                kept <= chunk@.len(),
                i <= kept,
                self.reported == old(self).reported,
                start == old(self).output@,
                self.output@ == start + chunk@.subrange(0, i as int),
            decreases kept - i,
        {
            self.output.push(chunk[i]);
            assert(chunk@.subrange(0, i + 1) =~= chunk@.subrange(0, i as int).push(chunk@[i as int]));
            i = i + 1;
        }
        assert(i == kept);
        let report = chunk.len() > remaining && !self.reported;
        if chunk.len() > remaining {
            self.reported = true;
        }
        report
    }

    /// The bytes kept.
    pub fn into_output(self) -> (output: Vec<u8>)
        ensures
            output@ == self.kept(),
    {
        self.output
    }
}

/// How a tool command ended: it exited, its output passed the limit, or it ran out of time.
#[derive(PartialEq, Eq, Structural, Clone, Copy, Debug)]
pub enum ToolCompletion {
    Exited,
    OutputLimit,
    Timeout,
}

/// Why a tool command failed.
#[derive(PartialEq, Eq, Structural, Clone, Copy, Debug)]
pub enum ToolFailure {
    OutputLimitExceeded,
    TimedOut,
}

/// The outcome of a tool command: it fails when its output passed the limit, whether that was
/// seen while it ran or counted after it exited, and when it ran out of time.
pub fn tool_outcome(completion: ToolCompletion, total_output: usize, limit: usize) -> (outcome: Result<(), ToolFailure>)
    ensures
        outcome == match completion {
            ToolCompletion::OutputLimit => Err::<(), ToolFailure>(ToolFailure::OutputLimitExceeded),
            ToolCompletion::Timeout => Err::<(), ToolFailure>(ToolFailure::TimedOut),
            ToolCompletion::Exited => if total_output > limit {
                Err::<(), ToolFailure>(ToolFailure::OutputLimitExceeded)
            } else {
                Ok::<(), ToolFailure>(())
            },
        },
{
    match completion {
        ToolCompletion::OutputLimit => Err(ToolFailure::OutputLimitExceeded),
        ToolCompletion::Timeout => Err(ToolFailure::TimedOut),
        ToolCompletion::Exited => if total_output > limit {
            Err(ToolFailure::OutputLimitExceeded)
        } else {
            Ok(())
        },
    }
}
} // verus!
