//! Filename rules and the CSV formula-injection guard.
use std::borrow::Cow;
use vstd::prelude::*;
use vstd::utf8::encode_utf8;

use crate::text::{chars_of, contains_char, same_chars, string_from_chars, utf8_len_exceeds};

verus! {

/// Longest filename accepted, in UTF-8 bytes.
pub const MAX_FILENAME_BYTES: usize = 255;

/// Number of reserved device names.
pub const RESERVED_NAME_COUNT: usize = 22;

/// Why a filename was rejected.
#[derive(Debug, Clone, PartialEq, Eq)]
pub enum FilenameError {
    Empty,
    PathSeparator,
    ControlCharacter,
    IllegalCharacter(char),
    TooLong,
    ReservedName(String),
    DotOrSpace,
}

impl FilenameError {
    /// A short human-readable description.
    pub fn message(&self) -> (r: &'static str) {
        match self {
            FilenameError::Empty => "filename must not be empty",
            FilenameError::PathSeparator => "filename must not contain a path separator",
            FilenameError::ControlCharacter => "filename must not contain control characters",
            FilenameError::IllegalCharacter(_) => "filename contains an illegal character",
            FilenameError::TooLong => "filename is too long (at most 255 bytes)",
            FilenameError::ReservedName(_) => "filename is a reserved system name",
            FilenameError::DotOrSpace =>
                "filename must not start or end with a dot or space, nor hold a full-width dot",
        }
    }
}

/// What `str::to_uppercase` returns for a string.
pub uninterp spec fn upper_of(s: Seq<char>) -> Seq<char>;

/// What `str::to_lowercase` returns for a string.
pub uninterp spec fn lower_of(s: Seq<char>) -> Seq<char>;

/// Relies on `str::to_uppercase`: the result depends on the characters alone.
#[verifier::external_body]
fn uppercase(s: &str) -> (r: String)
    ensures
        r@ == upper_of(s@),
{
    s.to_uppercase()
}

/// Relies on `str::to_lowercase`: the result depends on the characters alone.
#[verifier::external_body]
fn lowercase(s: &str) -> (r: String)
    ensures
        r@ == lower_of(s@),
{
    s.to_lowercase()
}

/// An ASCII control character (`char::is_ascii_control`): U+0000..U+001F and U+007F.
pub open spec fn is_control(c: char) -> bool {
    (c as u32) < 0x20 || c as u32 == 0x7f
}

pub open spec fn has_control(name: Seq<char>) -> bool {
    exists|i: int| 0 <= i < name.len() && is_control(#[trigger] name[i])
}

/// Characters that no filename may hold, in the order they are looked for.
pub open spec fn forbidden_chars() -> Seq<char> {
    seq!['<', '>', ':', '"', '|', '?', '*']
}

/// `k` is the first forbidden character (in list order) that `name` holds.
pub open spec fn is_first_forbidden(name: Seq<char>, k: int) -> bool {
    &&& 0 <= k < forbidden_chars().len()
    &&& name.contains(forbidden_chars()[k])
    &&& forall|j: int| 0 <= j < k ==> !name.contains(#[trigger] forbidden_chars()[j])
}

pub open spec fn has_forbidden(name: Seq<char>) -> bool {
    exists|k: int| 0 <= k < forbidden_chars().len() && name.contains(#[trigger] forbidden_chars()[k])
}

/// `i` is the position of the first `.` in `name`.
pub open spec fn is_first_dot(name: Seq<char>, i: int) -> bool {
    &&& 0 <= i < name.len()
    &&& name[i] == '.'
    &&& forall|j: int| 0 <= j < i ==> name[j] != '.'
}

/// The part of a filename before its first `.`.
pub open spec fn base_name(name: Seq<char>) -> Seq<char> {
    if exists|i: int| is_first_dot(name, i) {
        name.take(choose|i: int| is_first_dot(name, i))
    } else {
        name
    }
}

/// The reserved device names, by index.
pub open spec fn reserved_name_at(i: int) -> Seq<char> {
    if i == 0 { "CON"@ }
    else if i == 1 { "PRN"@ }
    else if i == 2 { "AUX"@ }
    else if i == 3 { "NUL"@ }
    else if i == 4 { "COM1"@ }
    else if i == 5 { "COM2"@ }
    else if i == 6 { "COM3"@ }
    else if i == 7 { "COM4"@ }
    else if i == 8 { "COM5"@ }
    else if i == 9 { "COM6"@ }
    else if i == 10 { "COM7"@ }
    else if i == 11 { "COM8"@ }
    else if i == 12 { "COM9"@ }
    else if i == 13 { "LPT1"@ }
    else if i == 14 { "LPT2"@ }
    else if i == 15 { "LPT3"@ }
    else if i == 16 { "LPT4"@ }
    else if i == 17 { "LPT5"@ }
    else if i == 18 { "LPT6"@ }
    else if i == 19 { "LPT7"@ }
    else if i == 20 { "LPT8"@ }
    else { "LPT9"@ }
}

pub open spec fn is_reserved(s: Seq<char>) -> bool {
    exists|i: int| 0 <= i < RESERVED_NAME_COUNT && s == #[trigger] reserved_name_at(i)
}

/// Starts or ends with a dot or a space, or holds a full-width or one-dot-leader dot.
pub open spec fn has_bad_dot_or_space(name: Seq<char>) -> bool {
    ||| name.len() > 0 && (name[0] == '.' || name[0] == ' ')
    ||| name.len() > 0 && (name.last() == '.' || name.last() == ' ')
    ||| name.contains('\u{3002}')
    ||| name.contains('\u{FF0E}')
    ||| name.contains('\u{2024}')
}

/// A filename that every rule accepts.
pub open spec fn filename_is_valid(name: Seq<char>) -> bool {
    &&& name.len() > 0
    &&& !name.contains('/')
    &&& !name.contains('\\')
    &&& !has_control(name)
    &&& !has_forbidden(name)
    &&& encode_utf8(name).len() <= MAX_FILENAME_BYTES
    &&& !is_reserved(upper_of(base_name(name)))
    &&& !has_bad_dot_or_space(name)
}

/// `e` is the error for the first rule, in order, that `name` breaks.
pub open spec fn rejects_with(name: Seq<char>, e: FilenameError) -> bool {
    if name.len() == 0 {
        e is Empty
    } else if name.contains('/') || name.contains('\\') {
        e is PathSeparator
    } else if has_control(name) {
        e is ControlCharacter
    } else if has_forbidden(name) {
        exists|k: int| is_first_forbidden(name, k) && e == FilenameError::IllegalCharacter(forbidden_chars()[k])
    } else if encode_utf8(name).len() > MAX_FILENAME_BYTES {
        e is TooLong
    } else if is_reserved(upper_of(base_name(name))) {
        e matches FilenameError::ReservedName(b) && b@ == base_name(name)
    } else if has_bad_dot_or_space(name) {
        e is DotOrSpace
    } else {
        false
    }
}

fn reserved_name(i: usize) -> (r: &'static str)
    requires
        i < RESERVED_NAME_COUNT,
    ensures
        r@ == reserved_name_at(i as int),
{
    match i {
        0 => "CON",
        1 => "PRN",
        2 => "AUX",
        3 => "NUL",
        4 => "COM1",
        5 => "COM2",
        6 => "COM3",
        7 => "COM4",
        8 => "COM5",
        9 => "COM6",
        10 => "COM7",
        11 => "COM8",
        12 => "COM9",
        13 => "LPT1",
        14 => "LPT2",
        15 => "LPT3",
        16 => "LPT4",
        17 => "LPT5",
        18 => "LPT6",
        19 => "LPT7",
        20 => "LPT8",
        _ => "LPT9",
    }
}

/// Whether an (already upper-cased) base name is a reserved device name.
pub fn is_reserved_name(upper_base: &str) -> (r: bool)
    ensures
        r == is_reserved(upper_base@),
{
    let target = chars_of(upper_base);
    let mut i: usize = 0;
    while i < RESERVED_NAME_COUNT
        invariant
            0 <= i <= RESERVED_NAME_COUNT,
            target@ == upper_base@,
            forall|j: int| 0 <= j < i ==> upper_base@ != #[trigger] reserved_name_at(j),
        decreases RESERVED_NAME_COUNT - i,
    {
        let candidate = chars_of(reserved_name(i));
        if same_chars(&candidate, &target) {
            return true;
        }
        i = i + 1;
    }
    false
}

fn forbidden_char(k: usize) -> (r: char)
    requires
        k < 7,
    ensures
        r == forbidden_chars()[k as int],
{
    match k {
        0 => '<',
        1 => '>',
        2 => ':',
        3 => '"',
        4 => '|',
        5 => '?',
        _ => '*',
    }
}

fn first_forbidden(cs: &Vec<char>) -> (r: Option<char>)
    ensures
        r is None <==> !has_forbidden(cs@),
        r matches Some(c) ==> exists|k: int| is_first_forbidden(cs@, k) && c == forbidden_chars()[k],
{
    let mut k: usize = 0;
    while k < 7
        invariant
            0 <= k <= 7,
            forbidden_chars().len() == 7,
            forall|j: int| 0 <= j < k ==> !cs@.contains(#[trigger] forbidden_chars()[j]),
        decreases 7 - k,
    {
        let c = forbidden_char(k);
        if contains_char(cs, c) {
            assert(is_first_forbidden(cs@, k as int));
            return Some(c);
        }
        k = k + 1;
    }
    None
}

fn find_control(cs: &Vec<char>) -> (r: bool)
    ensures
        r == has_control(cs@),
{
    let mut i: usize = 0;
    while i < cs.len()
        invariant
            0 <= i <= cs.len(),
            forall|j: int| 0 <= j < i ==> !is_control(#[trigger] cs@[j]),
        decreases cs.len() - i,
    {
        let c = cs[i];
        if (c as u32) < 0x20 || c as u32 == 0x7f {
            assert(is_control(cs@[i as int]));
            return true;
        }
        i = i + 1;
    }
    false
}

fn base_name_chars(cs: &Vec<char>) -> (r: Vec<char>)
    ensures
        r@ == base_name(cs@),
{
    let mut out: Vec<char> = Vec::new();
    let mut i: usize = 0;
    while i < cs.len()
        invariant
            0 <= i <= cs.len(),
            out@ == cs@.take(i as int),
            forall|j: int| 0 <= j < i ==> cs@[j] != '.',
        decreases cs.len() - i,
    {
        if cs[i] == '.' {
            assert(is_first_dot(cs@, i as int));
            proof {
                let k = choose|k: int| is_first_dot(cs@, k);
                assert(k == i) by {
                    if k < i {
                        assert(cs@[k] != '.');
                    } else if k > i {
                        assert(cs@[i as int] != '.');
                    }
                }
            }
            return out;
        }
        out.push(cs[i]);
        i = i + 1;
    }
    assert(cs@.take(cs.len() as int) =~= cs@);
    out
}

/// Checks a filename against the rules, in order: not empty; no `/` or `\`;
/// no ASCII control character; none of `< > : " | ? *`; at most 255 UTF-8
/// bytes; its part before the first `.`, upper-cased, is not a reserved device
/// name; it neither starts nor ends with a dot or a space and holds no
/// full-width dot. The error names the first rule broken.
pub fn validate_filename(filename: &str) -> (r: Result<(), FilenameError>)
    ensures
        r is Ok <==> filename_is_valid(filename@),
        r matches Err(e) ==> rejects_with(filename@, e),
{
    let cs = chars_of(filename);
    if cs.len() == 0 {
        return Err(FilenameError::Empty);
    }
    if contains_char(&cs, '/') || contains_char(&cs, '\\') {
        return Err(FilenameError::PathSeparator);
    }
    if find_control(&cs) {
        return Err(FilenameError::ControlCharacter);
    }
    match first_forbidden(&cs) {
        Some(c) => {
            return Err(FilenameError::IllegalCharacter(c));
        },
        None => {},
    }
    if utf8_len_exceeds(&cs, MAX_FILENAME_BYTES) {
        return Err(FilenameError::TooLong);
    }
    let base = string_from_chars(&base_name_chars(&cs));
    let upper = uppercase(base.as_str());
    if is_reserved_name(upper.as_str()) {
        return Err(FilenameError::ReservedName(base));
    }
    let n = cs.len();
    if cs[0] == '.' || cs[0] == ' ' || cs[n - 1] == '.' || cs[n - 1] == ' ' || contains_char(
        &cs,
        '\u{3002}',
    ) || contains_char(&cs, '\u{FF0E}') || contains_char(&cs, '\u{2024}') {
        return Err(FilenameError::DotOrSpace);
    }
    Ok(())
}

/// `lower_name` ends with `.` followed by `lower_ext`.
pub open spec fn ends_with_extension(lower_name: Seq<char>, lower_ext: Seq<char>) -> bool {
    let suffix = seq!['.'] + lower_ext;
    lower_name.len() >= suffix.len() && lower_name.subrange(
        lower_name.len() - suffix.len(),
        lower_name.len() as int,
    ) == suffix
}

/// What `ensure_extension` returns, given the case-folded name and extension.
pub open spec fn with_extension(
    name: Seq<char>,
    ext: Seq<char>,
    lower_name: Seq<char>,
    lower_ext: Seq<char>,
) -> Seq<char> {
    if ends_with_extension(lower_name, lower_ext) {
        name
    } else {
        name + seq!['.'] + ext
    }
}

/// Whether a lower-cased filename already ends with `.` and the lower-cased extension.
pub fn has_extension_folded(lower_name: &str, lower_ext: &str) -> (r: bool)
    ensures
        r == ends_with_extension(lower_name@, lower_ext@),
{
    let name = chars_of(lower_name);
    let ext = chars_of(lower_ext);
    let ghost suffix = seq!['.'] + ext@;
    if name.len() == 0 || name.len() - 1 < ext.len() {
        return false;
    }
    let start = name.len() - ext.len() - 1;
    assert(suffix[0] == '.');
    if name[start] != '.' {
        assert(!ends_with_extension(lower_name@, lower_ext@)) by {
            let sub = name@.subrange(start as int, name@.len() as int);
            if sub == suffix {
                assert(sub[0] == suffix[0]);
            }
        }
        return false;
    }
    let mut i: usize = 0;
    while i < ext.len()
        invariant
            0 <= i <= ext.len(),
            start + ext.len() + 1 == name.len(),
            name[start as int] == '.',
            suffix == seq!['.'] + ext@,
            name@ == lower_name@,
            ext@ == lower_ext@,
            forall|j: int| 0 <= j < i ==> name@[start + 1 + j] == ext@[j],
        decreases ext.len() - i,
    {
        if name[start + 1 + i] != ext[i] {
            assert(!ends_with_extension(lower_name@, lower_ext@)) by {
                let sub = name@.subrange(start as int, name@.len() as int);
                if sub == suffix {
                    assert(sub[i + 1] == suffix[i + 1]);
                }
            }
            return false;
        }
        i = i + 1;
    }
    assert(name@.subrange(start as int, name@.len() as int) =~= suffix);
    true
}

/// Appends `.` and the extension unless the name already ends with it,
/// compared without regard to case.
pub fn ensure_extension(filename: &str, extension: &str) -> (r: String)
    ensures
        r@ == with_extension(filename@, extension@, lower_of(filename@), lower_of(extension@)),
{
    let lower_name = lowercase(filename);
    let lower_ext = lowercase(extension);
    if has_extension_folded(lower_name.as_str(), lower_ext.as_str()) {
        filename.to_owned()
    } else {
        let mut out = filename.to_owned();
        out.append(".");
        out.append(extension);
        proof {
            reveal_strlit(".");
        }
        assert(out@ =~= filename@ + seq!['.'] + extension@);
        out
    }
}

/// The first character that makes a spreadsheet read a field as a formula.
pub open spec fn starts_formula(text: Seq<char>) -> bool {
    text.len() > 0 && (text[0] == '=' || text[0] == '+' || text[0] == '-' || text[0] == '@'
        || text[0] == '\t')
}

/// Prefixes `'` to a field that starts with `=`, `+`, `-`, `@` or a tab, so
/// that a spreadsheet shows it as text; other fields are returned borrowed.
pub fn escape_csv_injection(text: &str) -> (r: Cow<'_, str>)
    ensures
        starts_formula(text@) ==> r@ == seq!['\''] + text@ && r is Owned,
        !starts_formula(text@) ==> r@ == text@ && r is Borrowed,
{
    let cs = chars_of(text);
    if cs.len() > 0 && (cs[0] == '=' || cs[0] == '+' || cs[0] == '-' || cs[0] == '@' || cs[0]
        == '\t') {
        let mut out = "'".to_owned();
        out.append(text);
        proof {
            reveal_strlit("'");
        }
        assert(out@ =~= seq!['\''] + text@);
        Cow::Owned(out)
    } else {
        Cow::Borrowed(text)
    }
}

} // verus!
