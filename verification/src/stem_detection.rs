//! Naming a stem after the file it comes from.
//!
//! File names of stems usually carry the instrument: `Song - Vocals.wav`,
//! `song_drums.mp3`, `Track (Bass).flac`. The name of the stem is the first
//! known instrument found in the most telling part of the file name, or, where
//! none is found, the tidied file name itself.

use std::path::Path;
use vstd::prelude::*;
use vstd::string::StringExecFns;

verus! {

/// What `str::to_lowercase` makes of a text.
pub uninterp spec fn lowercase_of(text: Seq<char>) -> Seq<char>;

/// Whether `char::is_numeric` holds of a character.
pub uninterp spec fn is_numeric_char(c: char) -> bool;

/// What `char::to_uppercase` makes of a character: one or more characters.
pub uninterp spec fn uppercase_of(c: char) -> Seq<char>;

/// The text in lower case.
///
/// Trusted: the result is what `str::to_lowercase` returns, which depends on
/// the characters of the text alone.
#[verifier::external_body]
fn to_lowercase(text: &str) -> (lower: String)
    ensures
        lower@ == lowercase_of(text@),
{
    text.to_lowercase()
}

/// Whether a character is numeric.
///
/// Trusted: the result is what `char::is_numeric` returns.
#[verifier::external_body]
fn char_is_numeric(c: char) -> (numeric: bool)
    ensures
        numeric == is_numeric_char(c),
{
    c.is_numeric()
}

/// The upper-case form of a character, as a text.
///
/// Trusted: the result holds the characters that `char::to_uppercase` yields,
/// in order.
#[verifier::external_body]
fn char_to_uppercase(c: char) -> (upper: String)
    ensures
        upper@ == uppercase_of(c),
{
    c.to_uppercase().collect()
}

/// The file name without its extension, as `Path::file_stem` sees it.
///
/// Trusted: where a stem comes back it is a part of the text that was given.
/// Nothing else is claimed of it.
#[verifier::external_body]
fn file_stem(filename: &str) -> (stem: Option<String>)
    ensures
        stem matches Some(s) ==> occurs(filename@, s@),
{
    Some(Path::new(filename).file_stem()?.to_str()?.to_owned())
}

/// `needle` stands in `hay` at index `i`.
pub open spec fn occurs_at(hay: Seq<char>, needle: Seq<char>, i: int) -> bool {
    0 <= i && i + needle.len() <= hay.len() && hay.subrange(i, i + needle.len()) == needle
}

/// `needle` stands somewhere in `hay`.
pub open spec fn occurs(hay: Seq<char>, needle: Seq<char>) -> bool {
    exists|i: int| occurs_at(hay, needle, i)
}

/// Index of the first place where `needle` stands in `hay`.
#[verifier::opaque]
pub open spec fn first_at(hay: Seq<char>, needle: Seq<char>) -> Option<int> {
    if occurs(hay, needle) {
        Some(
            choose|i: int|
                occurs_at(hay, needle, i) && forall|j: int| 0 <= j < i ==> !occurs_at(hay, needle, j),
        )
    } else {
        None
    }
}

/// Index of the last place where the character `c` stands in `text`.
#[verifier::opaque]
pub open spec fn last_index_of(text: Seq<char>, c: char) -> Option<int> {
    if exists|i: int| 0 <= i < text.len() && text[i] == c {
        Some(
            choose|i: int|
                0 <= i < text.len() && text[i] == c && forall|j: int|
                    i < j < text.len() ==> text[j] != c,
        )
    } else {
        None
    }
}

/// The separator between a song title and what follows it.
pub open spec fn dash() -> Seq<char> {
    seq![' ', '-', ' ']
}

/// The second of the pieces that the separator `" - "` cuts a text into.
pub open spec fn after_dash(text: Seq<char>) -> Option<Seq<char>> {
    match first_at(text, dash()) {
        None => None,
        Some(p) => {
            let rest = text.skip(p + 3);
            match first_at(rest, dash()) {
                Some(q) => Some(rest.take(q)),
                None => Some(rest),
            }
        },
    }
}

/// What follows the last underscore; the whole text where there is none.
pub open spec fn after_underscore(text: Seq<char>) -> Seq<char> {
    match last_index_of(text, '_') {
        Some(i) => text.skip(i + 1),
        None => text,
    }
}

/// What stands between the first `(` and the first `)`, where both are there
/// in that order.
pub open spec fn in_parentheses(text: Seq<char>) -> Option<Seq<char>> {
    match (first_at(text, seq!['(']), first_at(text, seq![')'])) {
        (Some(open), Some(close)) => if close > open {
            Some(text.subrange(open + 1, close))
        } else {
            None
        },
        _ => None,
    }
}

/// Number of known instruments.
pub const KEYWORD_COUNT: usize = 14;

/// The known instruments in order of precedence, as they are searched for.
pub open spec fn keyword_at(k: int) -> Seq<char> {
    if k == 0 {
        "vocals"@
    } else if k == 1 {
        "vox"@
    } else if k == 2 {
        "drums"@
    } else if k == 3 {
        "bass"@
    } else if k == 4 {
        "keys"@
    } else if k == 5 {
        "keyboard"@
    } else if k == 6 {
        "piano"@
    } else if k == 7 {
        "guitar"@
    } else if k == 8 {
        "synth"@
    } else if k == 9 {
        "pad"@
    } else if k == 10 {
        "strings"@
    } else if k == 11 {
        "orchestra"@
    } else if k == 12 {
        "click"@
    } else {
        "guide"@
    }
}

/// The known instruments as they are shown.
pub open spec fn display_at(k: int) -> Seq<char> {
    if k == 0 {
        "Vocals"@
    } else if k == 1 {
        "Vox"@
    } else if k == 2 {
        "Drums"@
    } else if k == 3 {
        "Bass"@
    } else if k == 4 {
        "Keys"@
    } else if k == 5 {
        "Keyboard"@
    } else if k == 6 {
        "Piano"@
    } else if k == 7 {
        "Guitar"@
    } else if k == 8 {
        "Synth"@
    } else if k == 9 {
        "Pad"@
    } else if k == 10 {
        "Strings"@
    } else if k == 11 {
        "Orchestra"@
    } else if k == 12 {
        "Click"@
    } else {
        "Guide"@
    }
}

/// The first instrument, from number `from` on, whose keyword stands in `text`.
pub open spec fn keyword_from(text: Seq<char>, from: int) -> Option<int>
    decreases KEYWORD_COUNT - from,
{
    if from >= KEYWORD_COUNT {
        None
    } else if occurs(text, keyword_at(from)) {
        Some(from)
    } else {
        keyword_from(text, from + 1)
    }
}

/// The instrument of highest precedence whose keyword stands in `text`.
pub open spec fn keyword_in(text: Seq<char>) -> Option<int> {
    keyword_from(text, 0)
}

/// A character that is dropped from the end of a file name: a numeric
/// character, an underscore or a space.
pub open spec fn is_trailing_clutter(c: char) -> bool {
    is_numeric_char(c) || c == '_' || c == ' '
}

/// The text without the clutter at its end.
pub open spec fn trimmed(text: Seq<char>) -> Seq<char>
    decreases text.len(),
{
    if text.len() == 0 {
        text
    } else if is_trailing_clutter(text.last()) {
        trimmed(text.drop_last())
    } else {
        text
    }
}

/// The text takes fewer than two bytes in UTF-8: it is empty or a single
/// character of the ASCII range.
pub open spec fn is_tiny(text: Seq<char>) -> bool {
    text.len() == 0 || (text.len() == 1 && (text[0] as u32) < 0x80)
}

/// A tidy name made from a file name: clutter at the end is dropped, unless
/// that would leave fewer than two bytes, and the first character is put in
/// upper case.
pub open spec fn cleaned(name: Seq<char>) -> Seq<char> {
    let short = trimmed(name);
    let base = if is_tiny(short) {
        name
    } else {
        short
    };
    if base.len() == 0 {
        Seq::empty()
    } else {
        uppercase_of(base[0]) + base.skip(1)
    }
}

/// The name of the instrument found in a part of the file name, if any.
pub open spec fn label_in(part: Option<Seq<char>>) -> Option<Seq<char>> {
    match part {
        Some(text) => match keyword_in(text) {
            Some(k) => Some(display_at(k)),
            None => None,
        },
        None => None,
    }
}

/// The name of a stem, from its file name without extension and the same in
/// lower case. The parts of the lower-case name are searched in turn: what
/// follows the first `" - "`, what follows the last underscore, what stands in
/// parentheses, and the whole. The first part that holds a known instrument
/// decides. Where none does, the name is the tidied file name.
pub open spec fn stem_label(name: Seq<char>, lowercase: Seq<char>) -> Seq<char> {
    if label_in(after_dash(lowercase)) is Some {
        label_in(after_dash(lowercase))->0
    } else if label_in(Some(after_underscore(lowercase))) is Some {
        label_in(Some(after_underscore(lowercase)))->0
    } else if label_in(in_parentheses(lowercase)) is Some {
        label_in(in_parentheses(lowercase))->0
    } else if label_in(Some(lowercase)) is Some {
        label_in(Some(lowercase))->0
    } else {
        cleaned(name)
    }
}

/// The place that a search from the left comes to first is the first place.
pub proof fn lemma_first_at(hay: Seq<char>, needle: Seq<char>, i: int)
    requires
        occurs_at(hay, needle, i),
        forall|j: int| 0 <= j < i ==> !occurs_at(hay, needle, j),
    ensures
        first_at(hay, needle) == Some(i),
{
    reveal(first_at);
    let found = choose|k: int|
        occurs_at(hay, needle, k) && forall|j: int| 0 <= j < k ==> !occurs_at(hay, needle, j);
    if found < i {
        assert(!occurs_at(hay, needle, found));
    }
    if i < found {
        assert(!occurs_at(hay, needle, i));
    }
}

/// Where `needle` stands nowhere in `hay`, there is no first place.
pub proof fn lemma_first_at_none(hay: Seq<char>, needle: Seq<char>)
    requires
        forall|j: int| 0 <= j <= hay.len() ==> !occurs_at(hay, needle, j),
    ensures
        first_at(hay, needle) is None,
        !occurs(hay, needle),
{
    reveal(first_at);
}

/// Where the character stands nowhere in the text, there is no last place.
pub proof fn lemma_last_index_of_none(text: Seq<char>, c: char)
    requires
        forall|j: int| 0 <= j < text.len() ==> text[j] != c,
    ensures
        last_index_of(text, c) is None,
{
    reveal(last_index_of);
}

/// The place that a search from the right comes to first is the last place.
pub proof fn lemma_last_index_of(text: Seq<char>, c: char, i: int)
    requires
        0 <= i < text.len(),
        text[i] == c,
        forall|j: int| i < j < text.len() ==> text[j] != c,
    ensures
        last_index_of(text, c) == Some(i),
{
    reveal(last_index_of);
    let found = choose|k: int|
        0 <= k < text.len() && text[k] == c && forall|j: int| k < j < text.len() ==> text[j] != c;
    if found < i {
        assert(text[i] != c);
    }
    if i < found {
        assert(text[found] != c);
    }
}

/// The characters of a text.
pub fn to_chars(text: &str) -> (chars: Vec<char>)
    ensures
        chars@ == text@,
{
    let n = text.unicode_len();
    let mut chars: Vec<char> = Vec::new();
    let mut i: usize = 0;
    while i < n
        invariant
            i <= n,
            n == text@.len(),
            chars@ == text@.take(i as int),
        decreases n - i,
    {
        chars.push(text.get_char(i));
        assert(chars@ =~= text@.take(i + 1));
        i += 1;
    }
    assert(text@.take(n as int) =~= text@);
    chars
}

/// The characters of `text` from index `from` up to index `to`.
fn sub_chars(text: &Vec<char>, from: usize, to: usize) -> (part: Vec<char>)
    requires
        from <= to <= text@.len(),
    ensures
        part@ == text@.subrange(from as int, to as int),
{
    let mut part: Vec<char> = Vec::new();
    let mut i: usize = from;
    while i < to
        invariant
            from <= i <= to <= text@.len(),
            part@ == text@.subrange(from as int, i as int),
        decreases to - i,
    {
        part.push(text[i]);
        assert(part@ =~= text@.subrange(from as int, i + 1));
        i += 1;
    }
    part
}

/// Whether `needle` stands in `hay` at index `i`.
fn matches_at(hay: &Vec<char>, needle: &Vec<char>, i: usize) -> (found: bool)
    ensures
        found == occurs_at(hay@, needle@, i as int),
{
    if needle.len() > hay.len() || i > hay.len() - needle.len() {
        return false;
    }
    let mut k: usize = 0;
    while k < needle.len()
        invariant
            k <= needle.len(),
            i + needle.len() <= hay.len(),
            forall|d: int| 0 <= d < k ==> hay@[i + d] == needle@[d],
        decreases needle.len() - k,
    {
        if hay[i + k] != needle[k] {
            assert(hay@.subrange(i as int, i + needle@.len())[k as int] != needle@[k as int]);
            return false;
        }
        k += 1;
    }
    assert(hay@.subrange(i as int, i + needle@.len()) =~= needle@);
    true
}

/// Index of the first place where `needle` stands in `hay`.
fn find_first(hay: &Vec<char>, needle: &Vec<char>) -> (found: Option<usize>)
    ensures
        match found {
            Some(i) => first_at(hay@, needle@) == Some(i as int) && occurs_at(
                hay@,
                needle@,
                i as int,
            ),
            None => first_at(hay@, needle@) is None && !occurs(hay@, needle@),
        },
{
    if needle.len() > hay.len() {
        proof {
            lemma_first_at_none(hay@, needle@);
        }
        return None;
    }
    if needle.len() == 0 {
        proof {
            assert(hay@.subrange(0, 0) =~= needle@);
            lemma_first_at(hay@, needle@, 0);
        }
        return Some(0);
    }
    let last = hay.len() - needle.len();
    let mut i: usize = 0;
    while i <= last
        invariant
            i <= last + 1,
            last == hay.len() - needle.len(),
            0 < needle.len() <= hay.len(),
            forall|j: int| 0 <= j < i ==> !occurs_at(hay@, needle@, j),
        decreases last + 1 - i,
    {
        if matches_at(hay, needle, i) {
            proof {
                lemma_first_at(hay@, needle@, i as int);
            }
            return Some(i);
        }
        i += 1;
    }
    proof {
        lemma_first_at_none(hay@, needle@);
    }
    None
}

/// The three characters of the separator `" - "`.
fn dash_chars() -> (chars: Vec<char>)
    ensures
        chars@ == dash(),
{
    let mut chars: Vec<char> = Vec::new();
    chars.push(' ');
    chars.push('-');
    chars.push(' ');
    assert(chars@ =~= dash());
    chars
}

/// A single character as a text to search for.
fn one_char(c: char) -> (chars: Vec<char>)
    ensures
        chars@ == seq![c],
{
    let mut chars: Vec<char> = Vec::new();
    chars.push(c);
    assert(chars@ =~= seq![c]);
    chars
}

/// The second of the pieces that the separator `" - "` cuts a text into.
fn part_after_dash(text: &Vec<char>) -> (part: Option<Vec<char>>)
    ensures
        match part {
            Some(p) => after_dash(text@) == Some(p@),
            None => (after_dash(text@) is None),
        },
{
    let separator = dash_chars();
    match find_first(text, &separator) {
        None => None,
        Some(p) => {
            let n = text.len();
            assert(dash().len() == 3);
            let rest = sub_chars(text, p + 3, n);
            assert(rest@ =~= text@.skip(p + 3));
            match find_first(&rest, &separator) {
                Some(q) => {
                    let piece = sub_chars(&rest, 0, q);
                    assert(piece@ =~= rest@.take(q as int));
                    Some(piece)
                },
                None => Some(rest),
            }
        },
    }
}

/// What follows the last underscore; the whole text where there is none.
fn part_after_underscore(text: &Vec<char>) -> (part: Vec<char>)
    ensures
        part@ == after_underscore(text@),
{
    let mut i: usize = text.len();
    while i > 0
        invariant
            i <= text.len(),
            forall|j: int| i <= j < text.len() ==> text@[j] != '_',
        decreases i,
    {
        if text[i - 1] == '_' {
            proof {
                lemma_last_index_of(text@, '_', i - 1);
            }
            let part = sub_chars(text, i, text.len());
            assert(part@ =~= text@.skip(i as int));
            return part;
        }
        i -= 1;
    }
    proof {
        lemma_last_index_of_none(text@, '_');
    }
    let whole = sub_chars(text, 0, text.len());
    assert(whole@ =~= text@);
    whole
}

/// What stands between the first `(` and the first `)`.
fn part_in_parentheses(text: &Vec<char>) -> (part: Option<Vec<char>>)
    ensures
        match part {
            Some(p) => in_parentheses(text@) == Some(p@),
            None => (in_parentheses(text@) is None),
        },
{
    let open = match find_first(text, &one_char('(')) {
        Some(i) => i,
        None => {
            return None;
        },
    };
    let close = match find_first(text, &one_char(')')) {
        Some(i) => i,
        None => {
            return None;
        },
    };
    if close > open {
        Some(sub_chars(text, open + 1, close))
    } else {
        None
    }
}

/// Keyword and display name of instrument number `k`.
fn keyword(k: usize) -> (entry: (&'static str, &'static str))
    requires
        k < KEYWORD_COUNT,
    ensures
        entry.0@ == keyword_at(k as int),
        entry.1@ == display_at(k as int),
{
    if k == 0 {
        ("vocals", "Vocals")
    } else if k == 1 {
        ("vox", "Vox")
    } else if k == 2 {
        ("drums", "Drums")
    } else if k == 3 {
        ("bass", "Bass")
    } else if k == 4 {
        ("keys", "Keys")
    } else if k == 5 {
        ("keyboard", "Keyboard")
    } else if k == 6 {
        ("piano", "Piano")
    } else if k == 7 {
        ("guitar", "Guitar")
    } else if k == 8 {
        ("synth", "Synth")
    } else if k == 9 {
        ("pad", "Pad")
    } else if k == 10 {
        ("strings", "Strings")
    } else if k == 11 {
        ("orchestra", "Orchestra")
    } else if k == 12 {
        ("click", "Click")
    } else {
        ("guide", "Guide")
    }
}

/// The name of the instrument of highest precedence whose keyword stands in
/// `text`.
fn find_label(text: &Vec<char>) -> (label: Option<String>)
    ensures
        match label {
            Some(name) => label_in(Some(text@)) == Some(name@),
            None => (label_in(Some(text@)) is None),
        },
{
    let mut k: usize = 0;
    while k < KEYWORD_COUNT
        invariant
            k <= KEYWORD_COUNT,
            keyword_in(text@) == keyword_from(text@, k as int),
        decreases KEYWORD_COUNT - k,
    {
        let entry = keyword(k);
        let needle = to_chars(entry.0);
        if find_first(text, &needle).is_some() {
            return Some(entry.1.to_owned());
        }
        k += 1;
    }
    None
}

/// The name of the instrument found in a part of the file name, if any.
fn find_label_in(part: &Option<Vec<char>>) -> (label: Option<String>)
    ensures
        match (label, *part) {
            (Some(name), Some(text)) => label_in(Some(text@)) == Some(name@),
            (Some(_), None) => false,
            (None, Some(text)) => (label_in(Some(text@)) is None),
            (None, None) => true,
        },
{
    match part {
        Some(text) => find_label(text),
        None => None,
    }
}

/// A tidy name made from a file name: digits, underscores and spaces at the
/// end are dropped, unless that would leave fewer than two bytes, and the
/// first character is put in upper case.
pub fn clean_filename(name: &str) -> (tidy: String)
    ensures
        tidy@ == cleaned(name@),
{
    let chars = to_chars(name);
    let mut end: usize = chars.len();
    assert(name@.take(end as int) =~= name@);
    while end > 0 && is_clutter(chars[end - 1])
        invariant
            end <= chars.len(),
            chars@ == name@,
            trimmed(name@) == trimmed(name@.take(end as int)),
        decreases end,
    {
        proof {
            let upto = name@.take(end as int);
            assert(upto.last() == name@[end - 1]);
            assert(upto.drop_last() =~= name@.take(end - 1));
        }
        end -= 1;
    }
    proof {
        let upto = name@.take(end as int);
        if end > 0 {
            assert(upto.last() == name@[end - 1]);
        }
        assert(trimmed(upto) == upto);
    }
    let short = name.substring_char(0, end);
    assert(short@ =~= name@.take(end as int));
    assert(short@ == trimmed(name@));
    let tiny = end == 0 || (end == 1 && (chars[0] as u32) < 0x80);
    assert(tiny == is_tiny(short@));
    let base: &str = if tiny {
        name
    } else {
        short
    };
    let n = base.unicode_len();
    if n == 0 {
        return String::new();
    }
    let first = base.get_char(0);
    let rest = base.substring_char(1, n);
    assert(rest@ =~= base@.skip(1));
    char_to_uppercase(first).concat(rest)
}

/// Whether a character is dropped from the end of a file name.
fn is_clutter(c: char) -> (clutter: bool)
    ensures
        clutter == is_trailing_clutter(c),
{
    char_is_numeric(c) || c == '_' || c == ' '
}

/// The name of a stem, from its file name without extension and the same in
/// lower case.
pub fn stem_name_with(name: &str, lowercase: &str) -> (label: String)
    ensures
        label@ == stem_label(name@, lowercase@),
{
    let text = to_chars(lowercase);
    let dashed = part_after_dash(&text);
    match find_label_in(&dashed) {
        Some(label) => {
            return label;
        },
        None => {},
    }
    let tail = part_after_underscore(&text);
    match find_label(&tail) {
        Some(label) => {
            return label;
        },
        None => {},
    }
    let inner = part_in_parentheses(&text);
    match find_label_in(&inner) {
        Some(label) => {
            return label;
        },
        None => {},
    }
    match find_label(&text) {
        Some(label) => {
            return label;
        },
        None => {},
    }
    clean_filename(name)
}

/// The name of a stem, from its file name without extension.
pub fn stem_name_of(name: &str) -> (label: String)
    ensures
        label@ == stem_label(name@, lowercase_of(name@)),
{
    let lowercase = to_lowercase(name);
    stem_name_with(name, lowercase.as_str())
}

/// The name of a stem, from the name of its file. The extension is set aside
/// first; what is left is named as `stem_name_of` names it.
pub fn detect_stem_name(filename: &str) -> (label: String)
    ensures
        exists|name: Seq<char>|
            occurs(filename@, name) && label@ == #[trigger] stem_label(name, lowercase_of(name)),
{
    match file_stem(filename) {
        Some(stem) => stem_name_of(stem.as_str()),
        None => {
            assert(occurs_at(filename@, filename@, 0)) by {
                assert(filename@.subrange(0, filename@.len() as int) =~= filename@);
            }
            stem_name_of(filename)
        },
    }
}

} // verus!
