//! `nix.conf` as a document that can be read, edited and written back with
//! its comments and its layout kept.

use crate::digest::{digest_of, hashit, same_digest};
use crate::document::{
    comment_lines, find_key, lemma_find_key, lemma_find_key_is, lemma_insert_wf, lemma_remove_wf,
    record_lines, Document, Record,
};
use crate::lines::{lines_of, render, split_lines, terminated, views};
use crate::parse::{
    canonical_lines, comment_start, fault_at, first_fault_upto, lemma_comment_start,
    lemma_first_fault_stays, lemma_parse_wf, parse_lines, parse_text, records_upto, Fault,
};
use crate::roundtrip::{clean_comment, clean_setting, law_round_trip};
use crate::syntax::{format_pair, key_of, kind_of, read_line, Kind, Line};
use crate::text::{chars_of, push_decimal};
use vstd::pervasive::VecAdditionalExecFns;
use vstd::prelude::*;
use vstd::string::StringExecFns;

verus! {

/// Why a text could not be read. Line numbers count from 1.
#[derive(Debug, PartialEq, Eq)]
pub enum ParseError {
    /// The line is not blank, no comment, and holds no `=`. `text` is the
    /// line as it was read.
    MalformedLine { line: usize, text: String },
    /// The setting on `line` has the key of the setting on `first_line`.
    /// `text` is the second of the two lines as it was read.
    DuplicateKey { key: String, first_line: usize, line: usize, text: String },
}

impl View for ParseError {
    type V = Fault;

    open spec fn view(&self) -> Fault {
        match self {
            ParseError::MalformedLine { line, text } => Fault::Malformed {
                line: *line as int,
                text: text@,
            },
            ParseError::DuplicateKey { key, first_line, line, text } => Fault::Duplicate {
                key: key@,
                first_line: *first_line as int,
                line: *line as int,
                text: text@,
            },
        }
    }
}

impl ParseError {
    /// The error in words: the number of the line, what is wrong with it,
    /// and the line itself.
    pub fn message(&self) -> (out: String)
        ensures
            out@ == self@.message(),
    {
        let mut out = String::new();
        match self {
            ParseError::MalformedLine { line, text } => {
                push_decimal(&mut out, *line as u64);
                out.append(": Malformed line: ");
                out.append(text.as_str());
            },
            ParseError::DuplicateKey { key, first_line, line, text } => {
                push_decimal(&mut out, *line as u64);
                out.append(": Duplicate entry for `");
                out.append(key.as_str());
                out.append("` (first seen on ");
                push_decimal(&mut out, *first_line as u64);
                out.append("): ");
                out.append(text.as_str());
            },
        }
        proof {
            assert(out@ =~= self@.message());
        }
        out
    }
}

/// The records that three vectors of equal length hold.
pub open spec fn records_view(
    keys: Seq<String>,
    values: Seq<String>,
    spans: Seq<(usize, usize)>,
) -> Seq<Record> {
    Seq::new(
        keys.len(),
        |i: int|
            Record {
                key: keys[i]@,
                value: values[i]@,
                start: spans[i].0 as int,
                end: spans[i].1 as int,
            },
    )
}

/// The index of the entry with this key, or the number of entries.
fn position(keys: &Vec<String>, key: &String, Ghost(records): Ghost<Seq<Record>>) -> (k: usize)
    requires
        records.len() == keys.len(),
        forall|i: int| 0 <= i < keys.len() ==> (#[trigger] records[i]).key == keys@[i]@,
    ensures
        k == find_key(records, key@),
        k <= keys.len(),
{
    let mut k: usize = 0;
    while k < keys.len() && keys[k] != *key
        invariant
            k <= keys.len(),
            records.len() == keys.len(),
            forall|i: int| 0 <= i < keys.len() ==> (#[trigger] records[i]).key == keys@[i]@,
            forall|i: int| 0 <= i < k ==> (#[trigger] records[i]).key != key@,
        decreases keys.len() - k,
    {
        k += 1;
    }
    proof {
        lemma_find_key_is(records, key@, k as int);
    }
    k
}

/// What has been read of a text so far.
struct Reader {
    lines: Vec<String>,
    keys: Vec<String>,
    values: Vec<String>,
    spans: Vec<(usize, usize)>,
    comment_from: usize,
}

impl Reader {
    /// The reader has read the first `n` lines of `raw` without a fault.
    spec fn holds(&self, raw: Seq<Seq<char>>, n: int) -> bool {
        &&& 0 <= n <= raw.len()
        &&& views(self.lines@) == canonical_lines(raw).take(n)
        &&& self.keys.len() == self.values.len() == self.spans.len()
        &&& records_view(self.keys@, self.values@, self.spans@) == records_upto(raw, n)
        &&& self.comment_from == comment_start(raw, n)
    }

    /// Reads line `i`: keeps it in canonical form, and for a setting notes
    /// its record. A malformed line and a key that was seen before end the
    /// reading.
    fn parse1(&mut self, raw: &Vec<String>, i: usize) -> (r: Result<(), ParseError>)
        requires
            i < raw.len(),
            old(self).holds(views(raw@), i as int),
        ensures
            match fault_at(views(raw@), i as int) {
                Some(f) => r matches Err(e) && e@ == f,
                None => r is Ok && final(self).holds(views(raw@), i + 1),
            },
    {
        let ghost rv = views(raw@);
        let ghost before = views(self.lines@);
        proof {
            lemma_comment_start(rv, i as int);
            assert(rv[i as int] == raw@[i as int]@);
        }
        match read_line(raw[i].as_str()) {
            Line::Blank => {
                self.lines.push(String::new());
                self.comment_from = i + 1;
                proof {
                    assert(views(self.lines@) =~= before.push(Seq::empty()));
                    assert(views(self.lines@) =~= canonical_lines(rv).take(i + 1));
                }
                Ok(())
            },
            Line::Comment { text } => {
                proof {
                    assert(views(self.lines@.push(text)) =~= before.push(text@));
                    assert(before.push(text@) =~= canonical_lines(rv).take(i + 1));
                }
                self.lines.push(text);
                Ok(())
            },
            Line::Setting { key, value } => {
                let ghost above = records_upto(rv, i as int);
                let k = position(&self.keys, &key, Ghost(above));
                if k < self.keys.len() {
                    let first_line = self.spans[k].1;
                    proof {
                        assert(above[k as int].end == first_line);
                    }
                    return Err(
                        ParseError::DuplicateKey {
                            key,
                            first_line,
                            line: i + 1,
                            text: raw[i].clone(),
                        },
                    );
                }
                let line = format_pair(key.as_str(), value.as_str());
                proof {
                    assert(views(self.lines@.push(line)) =~= before.push(line@));
                    assert(before.push(line@) =~= canonical_lines(rv).take(i + 1));
                    assert(records_view(
                        self.keys@.push(key),
                        self.values@.push(value),
                        self.spans@.push((self.comment_from, (i + 1) as usize)),
                    ) =~= records_upto(rv, i + 1));
                }
                self.lines.push(line);
                self.keys.push(key);
                self.values.push(value);
                self.spans.push((self.comment_from, i + 1));
                self.comment_from = i + 1;
                Ok(())
            },
            Line::Malformed => Err(
                ParseError::MalformedLine { line: i + 1, text: raw[i].clone() },
            ),
        }
    }
}

/// In a well-formed document the record at index `k` lies inside the lines,
/// and every span below it starts no earlier than it ends and ends inside
/// the lines: what moving those spans by the lines of the record needs.
proof fn lemma_spans_below(
    d: Document,
    keys: Seq<String>,
    values: Seq<String>,
    spans: Seq<(usize, usize)>,
    k: int,
)
    requires
        d.wf(),
        d.records == records_view(keys, values, spans),
        keys.len() == spans.len(),
        0 <= k < spans.len(),
    ensures
        d.records[k].start == spans[k].0,
        d.records[k].end == spans[k].1,
        spans[k].0 < spans[k].1 <= d.lines.len(),
        forall|j: int|
            k < j < spans.len() ==> spans[k].1 - spans[k].0 <= (#[trigger] spans[j]).0 <= spans[j].1
                && spans[j].1 <= d.lines.len(),
{
    assert forall|j: int| k < j < spans.len() implies spans[k].1 - spans[k].0 <= (
    #[trigger] spans[j]).0 <= spans[j].1 && spans[j].1 <= d.lines.len() by {
        assert(d.records[k].end <= d.records[j].start);
        assert(d.records[j].start < d.records[j].end);
    }
}

/// The lines of a record as strings: one line after `# ` for each line of
/// `comment`, then the setting line.
fn record_strings(key: &str, value: &str, comment: &str) -> (out: Vec<String>)
    ensures
        views(out@) == record_lines(key@, value@, comment@),
{
    let chars = chars_of(comment);
    let raw = split_lines(&chars);
    let mut out: Vec<String> = Vec::new();
    let mut i: usize = 0;
    while i < raw.len()
        invariant
            i <= raw.len(),
            views(raw@) == lines_of(comment@),
            views(out@) == comment_lines(comment@).take(i as int),
        decreases raw.len() - i,
    {
        let mut line = String::new();
        line.push('#');
        line.push(' ');
        line.append(raw[i].as_str());
        proof {
            assert(views(raw@).len() == raw.len());
            assert(views(raw@)[i as int] == raw@[i as int]@);
            assert(line@ =~= seq!['#', ' '] + lines_of(comment@)[i as int]);
            assert(comment_lines(comment@)[i as int] == line@);
            assert(views(out@.push(line)) =~= views(out@).push(line@));
            assert(comment_lines(comment@).take(i as int).push(line@) =~= comment_lines(
                comment@,
            ).take(i + 1));
        }
        out.push(line);
        i += 1;
    }
    let last = format_pair(key, value);
    proof {
        assert(comment_lines(comment@).take(raw.len() as int) =~= comment_lines(comment@));
        assert(views(out@.push(last)) =~= record_lines(key@, value@, comment@));
    }
    out.push(last);
    out
}

/// Puts `new_lines` in place of `lines[start..end]`.
fn splice(lines: &mut Vec<String>, start: usize, end: usize, new_lines: Vec<String>)
    requires
        start <= end <= old(lines).len(),
    ensures
        views(final(lines)@) == views(old(lines)@).take(start as int) + views(new_lines@) + views(
            old(lines)@,
        ).skip(end as int),
        final(lines).len() == old(lines).len() - (end - start) + new_lines.len(),
{
    let mut middle = new_lines;
    let mut tail = lines.split_off(end);
    lines.truncate(start);
    lines.append(&mut middle);
    lines.append(&mut tail);
    proof {
        assert(views(lines@) =~= views(old(lines)@).take(start as int) + views(new_lines@) + views(
            old(lines)@,
        ).skip(end as int));
    }
}

/// Moves every span from index `from` on: up by `removed` lines, then down
/// by `added` lines.
fn adjust_offsets(spans: &mut Vec<(usize, usize)>, from: usize, removed: usize, added: usize)
    requires
        from <= old(spans).len(),
        forall|j: int|
            from <= j < old(spans).len() ==> removed <= (#[trigger] old(spans)@[j]).0 <= old(
                spans,
            )@[j].1 && old(spans)@[j].1 - removed + added <= usize::MAX,
    ensures
        final(spans).len() == old(spans).len(),
        forall|j: int| 0 <= j < from ==> (#[trigger] final(spans)@[j]) == old(spans)@[j],
        forall|j: int|
            from <= j < old(spans).len() ==> (#[trigger] final(spans)@[j]).0 == old(spans)@[j].0
                - removed + added && final(spans)@[j].1 == old(spans)@[j].1 - removed + added,
{
    let mut j: usize = from;
    while j < spans.len()
        invariant
            from <= j <= spans.len(),
            spans.len() == old(spans).len(),
            forall|i: int| 0 <= i < from ==> (#[trigger] spans@[i]) == old(spans)@[i],
            forall|i: int|
                from <= i < j ==> (#[trigger] spans@[i]).0 == old(spans)@[i].0 - removed + added
                    && spans@[i].1 == old(spans)@[i].1 - removed + added,
            forall|i: int| j <= i < spans.len() ==> (#[trigger] spans@[i]) == old(spans)@[i],
            forall|i: int|
                from <= i < old(spans).len() ==> removed <= (#[trigger] old(spans)@[i]).0 <= old(
                    spans,
                )@[i].1 && old(spans)@[i].1 - removed + added <= usize::MAX,
        decreases spans.len() - j,
    {
        let (a, b) = spans[j];
        proof {
            assert(spans@[j as int] == old(spans)@[j as int]);
        }
        spans.set(j, (a - removed + added, b - removed + added));
        j += 1;
    }
}

/// A value for a key, with the comment to write above it.
pub struct CommentedSetting {
    pub value: String,
    pub comment: String,
}

impl From<&str> for CommentedSetting {
    /// A value without a comment.
    fn from(value: &str) -> (out: Self)
        ensures
            out.value@ == value@,
            out.comment@ == Seq::<char>::empty(),
    {
        CommentedSetting { value: value.to_owned(), comment: String::new() }
    }
}

impl vstd::std_specs::convert::FromSpecImpl<&str> for CommentedSetting {
    open spec fn obeys_from_spec() -> bool {
        false
    }

    open spec fn from_spec(value: &str) -> Self {
        choose|out: CommentedSetting| out.value@ == value@ && out.comment@ == Seq::<char>::empty()
    }
}

/// `nix.conf`, read from a text: its lines, and for each key its value and
/// the lines of its record. Setting or removing a key rewrites that record
/// and leaves every other line as it is.
#[derive(Debug)]
pub struct NixConf {
    orig_hash: Vec<u8>,
    lines: Vec<String>,
    keys: Vec<String>,
    values: Vec<String>,
    spans: Vec<(usize, usize)>,
}

impl View for NixConf {
    type V = Document;

    closed spec fn view(&self) -> Document {
        Document {
            lines: views(self.lines@),
            records: records_view(self.keys@, self.values@, self.spans@),
        }
    }
}

impl NixConf {
    #[verifier::type_invariant]
    spec fn inv(&self) -> bool {
        &&& self.keys.len() == self.values.len() == self.spans.len()
        &&& self@.wf()
    }

    /// The digest of the text that the document was read from.
    pub closed spec fn source_digest(&self) -> Seq<u8> {
        self.orig_hash@
    }

    /// Reads a document from `conf`. Every line is kept in canonical form.
    /// The first malformed line, or the first setting of a key that was set
    /// above, is returned as the error, and nothing of the document then.
    pub fn read_from_str(conf: &str) -> (r: Result<NixConf, ParseError>)
        ensures
            match parse_text(conf@) {
                Ok(d) => r matches Ok(doc) && doc@ == d && d.wf() && doc.source_digest()
                    == digest_of(conf@),
                Err(f) => r matches Err(e) && e@ == f,
            },
    {
        let chars = chars_of(conf);
        let raw = split_lines(&chars);
        let ghost rv = views(raw@);
        let mut reader = Reader {
            lines: Vec::new(),
            keys: Vec::new(),
            values: Vec::new(),
            spans: Vec::new(),
            comment_from: 0,
        };
        proof {
            assert(views(reader.lines@) =~= canonical_lines(rv).take(0));
            assert(records_view(reader.keys@, reader.values@, reader.spans@) =~= records_upto(
                rv,
                0,
            ));
        }
        let mut i: usize = 0;
        while i < raw.len()
            invariant
                i <= raw.len(),
                rv == views(raw@),
                reader.holds(rv, i as int),
                first_fault_upto(rv, i as int) is None,
                parse_text(conf@) == parse_lines(rv),
            decreases raw.len() - i,
        {
            match reader.parse1(&raw, i) {
                Err(e) => {
                    proof {
                        lemma_first_fault_stays(rv, i + 1, rv.len() as int);
                    }
                    return Err(e);
                },
                Ok(()) => {},
            }
            i += 1;
        }
        proof {
            lemma_parse_wf(rv);
            assert(canonical_lines(rv).take(rv.len() as int) =~= canonical_lines(rv));
        }
        Ok(
            NixConf {
                orig_hash: hashit(conf),
                lines: reader.lines,
                keys: reader.keys,
                values: reader.values,
                spans: reader.spans,
            },
        )
    }

    /// The text of the document: its lines, each ended by a line feed.
    pub fn to_string_impl(&self) -> (out: String)
        ensures
            out@ == self@.text(),
    {
        render(&self.lines)
    }

    /// Whether the document is no longer written as the text it was read
    /// from, judged by the digests of the two texts.
    pub fn has_changed(&self) -> (changed: bool)
        ensures
            changed == (self.source_digest() != digest_of(self@.text())),
    {
        let text = self.to_string_impl();
        let now = hashit(text.as_str());
        !same_digest(&self.orig_hash, &now)
    }

    /// The value of `key`, where the document sets it.
    pub fn get(&self, key: &str) -> (value: Option<&String>)
        ensures
            value is Some <==> self@.has(key@),
            value matches Some(v) ==> self@.get(key@) == Some(v@),
    {
        proof {
            use_type_invariant(self);
        }
        let wanted = key.to_owned();
        let k = position(&self.keys, &wanted, Ghost(self@.records));
        if k < self.keys.len() {
            Some(&self.values[k])
        } else {
            None
        }
    }

    /// The document without a line, a record or a digest: what is left behind
    /// while the vectors of a document are taken out and rebuilt.
    fn empty() -> (out: NixConf)
        ensures
            out@ == (Document { lines: Seq::empty(), records: Seq::empty() }),
            out.source_digest() == Seq::<u8>::empty(),
    {
        let out = NixConf {
            orig_hash: Vec::new(),
            lines: Vec::new(),
            keys: Vec::new(),
            values: Vec::new(),
            spans: Vec::new(),
        };
        proof {
            assert(views(out.lines@) =~= Seq::<Seq<char>>::empty());
            assert(records_view(out.keys@, out.values@, out.spans@) =~= Seq::<Record>::empty());
        }
        out
    }

    /// Sets `key` to the value of `commented_value`. The record of the key is
    /// replaced by one line after `# ` for each line of the comment, and the
    /// setting line; a key that the document did not set gets its record at
    /// the end. Records below move by the difference in the number of lines,
    /// every other line stays. Returns the value that the key had.
    pub fn insert(&mut self, key: String, commented_value: CommentedSetting) -> (previous: Option<
        String,
    >)
        ensures
            final(self)@ == old(self)@.insert(
                key@,
                commented_value.value@,
                commented_value.comment@,
            ),
            final(self)@.wf(),
            final(self).source_digest() == old(self).source_digest(),
            previous is Some <==> old(self)@.has(key@),
            previous matches Some(v) ==> old(self)@.get(key@) == Some(v@),
    {
        proof {
            use_type_invariant(&*self);
            lemma_insert_wf(self@, key@, commented_value.value@, commented_value.comment@);
            lemma_find_key(self@.records, key@);
        }
        let ghost before = self@;
        let mut taken = NixConf::empty();
        core::mem::swap(self, &mut taken);
        let NixConf { orig_hash, mut lines, mut keys, mut values, mut spans } = taken;
        let CommentedSetting { value, comment } = commented_value;
        let mut new_lines = record_strings(key.as_str(), value.as_str(), comment.as_str());
        let ghost new_view = views(new_lines@);
        let added = new_lines.len();
        let k = position(&keys, &key, Ghost(before.records));
        let previous = if k < keys.len() {
            let (start, end) = spans[k];
            proof {
                lemma_spans_below(before, keys@, values@, spans@, k as int);
            }
            splice(&mut lines, start, end, new_lines);
            adjust_offsets(&mut spans, k + 1, end - start, added);
            spans.set(k, (start, start + added));
            let mut held = value;
            values.set_and_swap(k, &mut held);
            proof {
                assert(records_view(keys@, values@, spans@) =~= before.replaced(
                    k as int,
                    value@,
                    new_view,
                ).records);
            }
            Some(held)
        } else {
            let start = lines.len();
            lines.append(&mut new_lines);
            let end = lines.len();
            proof {
                assert(views(lines@) =~= before.lines + new_view);
                assert(records_view(
                    keys@.push(key),
                    values@.push(value),
                    spans@.push((start, end)),
                ) =~= before.appended(key@, value@, new_view).records);
            }
            keys.push(key);
            values.push(value);
            spans.push((start, end));
            None
        };
        *self = NixConf { orig_hash, lines, keys, values, spans };
        previous
    }

    /// Removes `key`: its record leaves the document, and records below
    /// move up by the number of its lines. Returns the value that the key
    /// had; a document that did not set the key stays as it is.
    pub fn remove(&mut self, key: String) -> (previous: Option<String>)
        ensures
            final(self)@ == old(self)@.remove(key@),
            final(self)@.wf(),
            final(self).source_digest() == old(self).source_digest(),
            previous is Some <==> old(self)@.has(key@),
            previous matches Some(v) ==> old(self)@.get(key@) == Some(v@),
            previous is None ==> final(self)@ == old(self)@,
    {
        proof {
            use_type_invariant(&*self);
            lemma_remove_wf(self@, key@);
            lemma_find_key(self@.records, key@);
        }
        let ghost before = self@;
        let k = position(&self.keys, &key, Ghost(before.records));
        if k >= self.keys.len() {
            return None;
        }
        let mut taken = NixConf::empty();
        core::mem::swap(self, &mut taken);
        let NixConf { orig_hash, mut lines, mut keys, mut values, mut spans } = taken;
        let (start, end) = spans[k];
        proof {
            lemma_spans_below(before, keys@, values@, spans@, k as int);
        }
        splice(&mut lines, start, end, Vec::new());
        adjust_offsets(&mut spans, k + 1, end - start, 0);
        keys.remove(k);
        let held = values.remove(k);
        spans.remove(k);
        proof {
            assert(views(lines@) =~= before.without(k as int).lines);
            assert(records_view(keys@, values@, spans@) =~= before.without(k as int).records);
        }
        *self = NixConf { orig_hash, lines, keys, values, spans };
        Some(held)
    }
}

/// A document that is written as the text it was read from has not changed:
/// `has_changed` returns `false` for it.
pub proof fn law_same_text_is_unchanged(doc: NixConf, conf: Seq<char>)
    requires
        doc.source_digest() == digest_of(conf),
        doc@.text() == conf,
    ensures
        !(doc.source_digest() != digest_of(doc@.text())),
{
}

/// Where `has_changed` returns `true`, the document is no longer written as
/// the text it was read from.
pub proof fn law_changed_means_rewritten(doc: NixConf, conf: Seq<char>)
    requires
        doc.source_digest() == digest_of(conf),
        doc.source_digest() != digest_of(doc@.text()),
    ensures
        doc@.text() != conf,
{
}

/// A document read from clean comment lines and canonical setting lines,
/// each ended by a line feed and no key set twice, has not changed:
/// `has_changed` returns `false` for it.
pub proof fn law_clean_text_is_unchanged(doc: NixConf, lines: Seq<Seq<char>>)
    requires
        lines.len() > 0,
        forall|i: int|
            0 <= i < lines.len() ==> clean_setting(#[trigger] lines[i]) || clean_comment(lines[i]),
        forall|i: int, j: int|
            0 <= i < j < lines.len() && kind_of(#[trigger] lines[i]) == Kind::Setting && kind_of(
                #[trigger] lines[j],
            ) == Kind::Setting ==> key_of(lines[i]) != key_of(lines[j]),
        parse_text(terminated(lines)) == Ok::<Document, Fault>(doc@),
        doc.source_digest() == digest_of(terminated(lines)),
    ensures
        !(doc.source_digest() != digest_of(doc@.text())),
{
    law_round_trip(lines);
}

} // verus!
