//! The syntax of one line of `nix.conf`: blank, comment, or `key = value`.

use crate::text::{
    ascii_space, chars_of, find_char, first_index, is_ascii_space, is_space, string_of, trim,
    trim_end, trim_end_at, trim_start_at, unicode_space,
};
use vstd::prelude::*;
use vstd::string::{StrSliceExecFns, StringExecFns};

verus! {

/// A blank line holds nothing but the five characters of `is_ascii_space`.
pub open spec fn blank(l: Seq<char>) -> bool {
    forall|i: int| 0 <= i < l.len() ==> is_ascii_space(#[trigger] l[i])
}

/// A comment line has `#` as its first character that is no white space.
/// White space here is what trimming removes, so that what stands before the
/// `#` of a comment is just what would be trimmed off a key.
pub open spec fn comment(l: Seq<char>) -> bool {
    exists|i: int|
        0 <= i < l.len() && #[trigger] l[i] == '#' && forall|j: int|
            0 <= j < i ==> is_space(#[trigger] l[j])
}

/// The line holds a `=`.
pub open spec fn has_eq(l: Seq<char>) -> bool {
    first_index(l, '=') < l.len()
}

/// What stands before the first `=`, without the white space around it.
pub open spec fn key_of(l: Seq<char>) -> Seq<char> {
    trim(l.take(first_index(l, '=') as int))
}

/// What stands after the first `=`, without the white space around it.
pub open spec fn value_of(l: Seq<char>) -> Seq<char> {
    trim(l.skip(first_index(l, '=') as int + 1))
}

/// The key and the value of a line that is no comment and holds a `=`.
pub open spec fn setting_of(l: Seq<char>) -> Option<(Seq<char>, Seq<char>)> {
    if comment(l) || !has_eq(l) {
        None
    } else {
        Some((key_of(l), value_of(l)))
    }
}

/// The setting line for a key and a value: `key = value`, and `key =` for an
/// empty value.
pub open spec fn pair_text(key: Seq<char>, value: Seq<char>) -> Seq<char> {
    if value.len() == 0 {
        key + seq![' ', '=']
    } else {
        key + seq![' ', '=', ' '] + value
    }
}

/// The four kinds of line.
#[derive(Clone, Copy, Debug, PartialEq, Eq, Structural)]
pub enum Kind {
    Blank,
    Comment,
    Setting,
    Malformed,
}

/// The kind of a line. A line is tested for being blank first, then for being
/// a comment, then for holding a `=`.
pub open spec fn kind_of(l: Seq<char>) -> Kind {
    if blank(l) {
        Kind::Blank
    } else if comment(l) {
        Kind::Comment
    } else if has_eq(l) {
        Kind::Setting
    } else {
        Kind::Malformed
    }
}

/// The form in which a document keeps a line: a blank line empty, a comment
/// without the white space at its end, a setting as `pair_text` writes it.
pub open spec fn canonical(l: Seq<char>) -> Seq<char> {
    match kind_of(l) {
        Kind::Blank => Seq::empty(),
        Kind::Comment => trim_end(l),
        Kind::Setting => pair_text(key_of(l), value_of(l)),
        Kind::Malformed => l,
    }
}

/// One line as the parser reads it.
pub enum Line {
    Blank,
    Comment { text: String },
    Setting { key: String, value: String },
    Malformed,
}

impl Line {
    /// The kind of line this is.
    pub open spec fn kind(self) -> Kind {
        match self {
            Line::Blank => Kind::Blank,
            Line::Comment { .. } => Kind::Comment,
            Line::Setting { .. } => Kind::Setting,
            Line::Malformed => Kind::Malformed,
        }
    }

    /// This is what reading `l` gives.
    pub open spec fn reads(self, l: Seq<char>) -> bool {
        &&& self.kind() == kind_of(l)
        &&& self matches Line::Comment { text } ==> text@ == trim_end(l)
        &&& self matches Line::Setting { key, value } ==> key@ == key_of(l) && value@ == value_of(l)
    }
}

/// The number of characters at the start of `v` that may stand in a blank
/// line.
fn leading_blanks(v: &Vec<char>) -> (k: usize)
    ensures
        k <= v.len(),
        forall|i: int| 0 <= i < k ==> is_ascii_space(#[trigger] v@[i]),
        k < v.len() ==> !is_ascii_space(v@[k as int]),
{
    let mut k: usize = 0;
    while k < v.len() && ascii_space(v[k])
        invariant
            k <= v.len(),
            forall|i: int| 0 <= i < k ==> is_ascii_space(#[trigger] v@[i]),
        decreases v.len() - k,
    {
        k += 1;
    }
    k
}

/// The number of characters at the start of `v` that trimming removes.
fn leading_spaces(v: &Vec<char>) -> (k: usize)
    ensures
        k <= v.len(),
        forall|i: int| 0 <= i < k ==> is_space(#[trigger] v@[i]),
        k < v.len() ==> !is_space(v@[k as int]),
{
    let mut k: usize = 0;
    while k < v.len() && unicode_space(v[k])
        invariant
            k <= v.len(),
            forall|i: int| 0 <= i < k ==> is_space(#[trigger] v@[i]),
        decreases v.len() - k,
    {
        k += 1;
    }
    k
}

/// Whether `v` is a blank line, and whether it is a comment.
fn blank_or_comment(v: &Vec<char>) -> (r: (bool, bool))
    ensures
        r.0 == blank(v@),
        r.1 == comment(v@),
{
    let blanks = leading_blanks(v);
    let k = leading_spaces(v);
    let is_hash = k < v.len() && v[k] == '#';
    proof {
        if blanks < v.len() {
            assert(!is_ascii_space(v@[blanks as int]));
        }
        if comment(v@) {
            let i = choose|i: int|
                0 <= i < v@.len() && #[trigger] v@[i] == '#' && forall|j: int|
                    0 <= j < i ==> is_space(#[trigger] v@[j]);
            if i < k {
                assert(is_space(v@[i]));
            } else if i > k {
                assert(is_space(v@[k as int]));
            }
        }
        if is_hash {
            assert(v@[k as int] == '#');
        }
    }
    (blanks == v.len(), is_hash)
}

/// Where the key starts and ends and where the value starts and ends, for a
/// line that holds a `=`.
fn setting_bounds(v: &Vec<char>) -> (r: Option<(usize, usize, usize, usize)>)
    ensures
        r is Some <==> has_eq(v@),
        r matches Some((key_from, key_to, from, to)) ==> {
            &&& key_from <= key_to <= from <= to <= v.len()
            &&& v@.subrange(key_from as int, key_to as int) == key_of(v@)
            &&& v@.subrange(from as int, to as int) == value_of(v@)
        },
{
    let eq = find_char(v, '=');
    if eq >= v.len() {
        return None;
    }
    let key_from = trim_start_at(v, 0, eq);
    let key_to = trim_end_at(v, key_from, eq);
    let from = trim_start_at(v, eq + 1, v.len());
    let to = trim_end_at(v, from, v.len());
    proof {
        assert(v@.subrange(0, eq as int) =~= v@.take(eq as int));
        assert(v@.subrange(eq as int + 1, v.len() as int) =~= v@.skip(eq as int + 1));
    }
    Some((key_from, key_to, from, to))
}

/// Whether the first character of `line` that is no white space is `#`.
pub fn is_comment(line: &str) -> (b: bool)
    ensures
        b == comment(line@),
{
    let v = chars_of(line);
    blank_or_comment(&v).1
}

/// Whether `line` holds white space only.
pub fn is_blank(line: &str) -> (b: bool)
    ensures
        b == blank(line@),
{
    let v = chars_of(line);
    blank_or_comment(&v).0
}

/// The key and the value of a setting line, each as a piece of `s`; `None` for
/// a comment and for a line without `=`.
pub fn setting<'a>(s: &'a str) -> (r: Option<(&'a str, &'a str)>)
    ensures
        r is Some <==> setting_of(s@) is Some,
        r matches Some((key, value)) ==> setting_of(s@) == Some((key@, value@)),
{
    let v = chars_of(s);
    if blank_or_comment(&v).1 {
        return None;
    }
    match setting_bounds(&v) {
        None => None,
        Some((key_from, key_to, from, to)) => {
            let key = s.substring_char(key_from, key_to);
            let value = s.substring_char(from, to);
            Some((key, value))
        },
    }
}

/// The setting line for `key` and `value`.
pub fn format_pair(key: &str, value: &str) -> (out: String)
    ensures
        out@ == pair_text(key@, value@),
{
    let mut out = String::from_str(key);
    out.push(' ');
    out.push('=');
    if value.unicode_len() > 0 {
        out.push(' ');
        out.append(value);
    }
    proof {
        assert(out@ =~= pair_text(key@, value@));
    }
    out
}

/// Reads one line: its kind, and what the document keeps of it.
pub fn read_line(line: &str) -> (out: Line)
    ensures
        out.reads(line@),
{
    let v = chars_of(line);
    let (is_blank, is_comment) = blank_or_comment(&v);
    if is_blank {
        Line::Blank
    } else if is_comment {
        let e = trim_end_at(&v, 0, v.len());
        proof {
            assert(v@.subrange(0, v.len() as int) =~= v@);
        }
        Line::Comment { text: string_of(&v, 0, e) }
    } else {
        match setting_bounds(&v) {
            None => Line::Malformed,
            Some((key_from, key_to, from, to)) => Line::Setting {
                key: string_of(&v, key_from, key_to),
                value: string_of(&v, from, to),
            },
        }
    }
}

} // verus!
