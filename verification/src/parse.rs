//! What reading a text gives: the document, or the first fault in it.

use crate::document::{find_key, lemma_find_key, Document, Record};
use crate::lines::lines_of;
use crate::syntax::{canonical, key_of, kind_of, pair_text, value_of, Kind};
use crate::text::decimal;
use vstd::prelude::*;

verus! {

/// Why a text is no document. Line numbers count from 1.
pub enum Fault {
    /// The line is not blank, no comment, and holds no `=`. `text` is the
    /// line as it was read.
    Malformed { line: int, text: Seq<char> },
    /// The setting on `line` has the key of the setting on `first_line`.
    /// `text` is the second of the two lines as it was read.
    Duplicate { key: Seq<char>, first_line: int, line: int, text: Seq<char> },
}

impl Fault {
    /// The fault in words, for whoever wrote the text.
    pub open spec fn message(self) -> Seq<char> {
        match self {
            Fault::Malformed { line, text } => decimal(line as nat) + ": Malformed line: "@ + text,
            Fault::Duplicate { key, first_line, line, text } => decimal(line as nat)
                + ": Duplicate entry for `"@ + key + "` (first seen on "@ + decimal(
                first_line as nat,
            ) + "): "@ + text,
        }
    }
}

/// The index at which the run of comment lines directly above line `i`
/// starts; `i` itself where the line above is no comment.
pub open spec fn comment_start(raw: Seq<Seq<char>>, i: int) -> int
    decreases i,
{
    if 0 < i <= raw.len() && kind_of(raw[i - 1]) == Kind::Comment {
        comment_start(raw, i - 1)
    } else {
        i
    }
}

/// The record of the setting on line `i`.
pub open spec fn record_at(raw: Seq<Seq<char>>, i: int) -> Record {
    Record {
        key: key_of(raw[i]),
        value: value_of(raw[i]),
        start: comment_start(raw, i),
        end: i + 1,
    }
}

/// The records of the settings among the first `n` lines, in their order.
pub open spec fn records_upto(raw: Seq<Seq<char>>, n: int) -> Seq<Record>
    decreases n,
{
    if n <= 0 {
        Seq::empty()
    } else if kind_of(raw[n - 1]) == Kind::Setting {
        records_upto(raw, n - 1).push(record_at(raw, n - 1))
    } else {
        records_upto(raw, n - 1)
    }
}

/// The fault that line `i` raises after the lines above it were read: it is
/// malformed, or it sets a key that a line above it has set.
pub open spec fn fault_at(raw: Seq<Seq<char>>, i: int) -> Option<Fault> {
    let above = records_upto(raw, i);
    match kind_of(raw[i]) {
        Kind::Malformed => Some(Fault::Malformed { line: i + 1, text: raw[i] }),
        Kind::Setting => if find_key(above, key_of(raw[i])) < above.len() {
            Some(
                Fault::Duplicate {
                    key: key_of(raw[i]),
                    first_line: above[find_key(above, key_of(raw[i]))].end,
                    line: i + 1,
                    text: raw[i],
                },
            )
        } else {
            None
        },
        _ => None,
    }
}

/// The fault of the first line among the first `n` that raises one.
pub open spec fn first_fault_upto(raw: Seq<Seq<char>>, n: int) -> Option<Fault>
    decreases n,
{
    if n <= 0 {
        None
    } else {
        match first_fault_upto(raw, n - 1) {
            Some(f) => Some(f),
            None => fault_at(raw, n - 1),
        }
    }
}

/// Each line in the form in which a document keeps it.
pub open spec fn canonical_lines(raw: Seq<Seq<char>>) -> Seq<Seq<char>> {
    Seq::new(raw.len(), |i: int| canonical(raw[i]))
}

/// What reading these lines gives: the first fault, or the document that
/// keeps every line in canonical form and has one record for each setting.
pub open spec fn parse_lines(raw: Seq<Seq<char>>) -> Result<Document, Fault> {
    match first_fault_upto(raw, raw.len() as int) {
        Some(f) => Err(f),
        None => Ok(
            Document { lines: canonical_lines(raw), records: records_upto(raw, raw.len() as int) },
        ),
    }
}

/// What reading a text gives.
pub open spec fn parse_text(text: Seq<char>) -> Result<Document, Fault> {
    parse_lines(lines_of(text))
}

/// The lines from `comment_start` up to the line itself are comments.
pub proof fn lemma_comment_start(raw: Seq<Seq<char>>, i: int)
    requires
        0 <= i <= raw.len(),
    ensures
        0 <= comment_start(raw, i) <= i,
        forall|j: int| comment_start(raw, i) <= j < i ==> kind_of(#[trigger] raw[j]) == Kind::Comment,
        comment_start(raw, i) > 0 ==> kind_of(raw[comment_start(raw, i) - 1]) != Kind::Comment,
    decreases i,
{
    if 0 < i && kind_of(raw[i - 1]) == Kind::Comment {
        lemma_comment_start(raw, i - 1);
    }
}

/// What the records of the first `n` lines are: each ends just below a
/// setting line and holds its key and value, they stand in order, and every
/// setting line has one.
pub proof fn lemma_records_upto(raw: Seq<Seq<char>>, n: int)
    requires
        0 <= n <= raw.len(),
    ensures
        forall|i: int|
            0 <= i < records_upto(raw, n).len() ==> {
                let r = #[trigger] records_upto(raw, n)[i];
                &&& 0 <= r.start < r.end <= n
                &&& kind_of(raw[r.end - 1]) == Kind::Setting
                &&& r == record_at(raw, r.end - 1)
            },
        forall|i: int, j: int|
            0 <= i < j < records_upto(raw, n).len() ==> (#[trigger] records_upto(raw, n)[i]).end <= (
            #[trigger] records_upto(raw, n)[j]).start,
        forall|k: int|
            0 <= k < n && kind_of(#[trigger] raw[k]) == Kind::Setting ==> exists|i: int|
                0 <= i < records_upto(raw, n).len() && (#[trigger] records_upto(raw, n)[i]).end == k
                    + 1,
    decreases n,
{
    if n > 0 {
        lemma_records_upto(raw, n - 1);
        let above = records_upto(raw, n - 1);
        let now = records_upto(raw, n);
        if kind_of(raw[n - 1]) == Kind::Setting {
            let rec = record_at(raw, n - 1);
            lemma_comment_start(raw, n - 1);
            assert forall|i: int, j: int| 0 <= i < j < now.len() implies (#[trigger] now[i]).end <= (
            #[trigger] now[j]).start by {
                if j == above.len() {
                    let a = above[i];
                    assert(now[i] == a);
                    assert(kind_of(raw[a.end - 1]) == Kind::Setting);
                    if rec.start < a.end {
                        assert(kind_of(raw[a.end - 1]) == Kind::Comment);
                    }
                } else {
                    assert(now[i] == above[i] && now[j] == above[j]);
                }
            }
            assert forall|k: int| 0 <= k < n && kind_of(#[trigger] raw[k]) == Kind::Setting implies exists|
                i: int,
            |
                0 <= i < now.len() && (#[trigger] now[i]).end == k + 1 by {
                if k == n - 1 {
                    assert(now[above.len() as int].end == k + 1);
                } else {
                    let i = choose|i: int|
                        0 <= i < above.len() && (#[trigger] above[i]).end == k + 1;
                    assert(now[i] == above[i]);
                }
            }
        } else {
            assert(now == above);
        }
    }
}

/// Where the first `n` lines raise no fault, none of them is malformed and no
/// two records of them have one key.
pub proof fn lemma_no_fault(raw: Seq<Seq<char>>, n: int)
    requires
        0 <= n <= raw.len(),
        first_fault_upto(raw, n) is None,
    ensures
        forall|k: int| 0 <= k < n ==> kind_of(#[trigger] raw[k]) != Kind::Malformed,
        forall|i: int, j: int|
            0 <= i < j < records_upto(raw, n).len() ==> (#[trigger] records_upto(raw, n)[i]).key != (
            #[trigger] records_upto(raw, n)[j]).key,
    decreases n,
{
    if n > 0 {
        lemma_no_fault(raw, n - 1);
        let above = records_upto(raw, n - 1);
        let now = records_upto(raw, n);
        if kind_of(raw[n - 1]) == Kind::Setting {
            lemma_find_key(above, key_of(raw[n - 1]));
            assert forall|i: int, j: int| 0 <= i < j < now.len() implies (#[trigger] now[i]).key != (
            #[trigger] now[j]).key by {
                if j == above.len() {
                    assert(now[i] == above[i]);
                } else {
                    assert(now[i] == above[i] && now[j] == above[j]);
                }
            }
        } else {
            assert(now == above);
        }
    }
}

/// A fault among the first `n` lines is the fault among any more lines.
pub proof fn lemma_first_fault_stays(raw: Seq<Seq<char>>, n: int, m: int)
    requires
        n <= m,
        first_fault_upto(raw, n) is Some,
    ensures
        first_fault_upto(raw, m) == first_fault_upto(raw, n),
    decreases m - n,
{
    if n < m {
        lemma_first_fault_stays(raw, n, m - 1);
    }
}

/// A document that was read is well formed.
pub proof fn lemma_parse_wf(raw: Seq<Seq<char>>)
    ensures
        parse_lines(raw) matches Ok(d) ==> d.wf(),
{
    let n = raw.len() as int;
    if first_fault_upto(raw, n) is None {
        lemma_records_upto(raw, n);
        lemma_no_fault(raw, n);
        let d = parse_lines(raw)->Ok_0;
        assert forall|i: int| 0 <= i < d.records.len() implies d.lines[(#[trigger] d.records[i]).end
            - 1] == pair_text(d.records[i].key, d.records[i].value) by {
            let r = d.records[i];
            assert(kind_of(raw[r.end - 1]) == Kind::Setting);
        }
    }
}

/// Lines of which none is malformed and no two settings have one key raise
/// no fault.
pub proof fn lemma_distinct_keys_no_fault(raw: Seq<Seq<char>>, n: int)
    requires
        0 <= n <= raw.len(),
        forall|i: int| 0 <= i < raw.len() ==> kind_of(#[trigger] raw[i]) != Kind::Malformed,
        forall|i: int, j: int|
            0 <= i < j < raw.len() && kind_of(#[trigger] raw[i]) == Kind::Setting && kind_of(
                #[trigger] raw[j],
            ) == Kind::Setting ==> key_of(raw[i]) != key_of(raw[j]),
    ensures
        first_fault_upto(raw, n) is None,
    decreases n,
{
    if n > 0 {
        lemma_distinct_keys_no_fault(raw, n - 1);
        if kind_of(raw[n - 1]) == Kind::Setting {
            let above = records_upto(raw, n - 1);
            let key = key_of(raw[n - 1]);
            lemma_records_upto(raw, n - 1);
            lemma_find_key(above, key);
            let k = find_key(above, key);
            if k < above.len() {
                let r = above[k];
                assert(r == record_at(raw, r.end - 1));
                assert(kind_of(raw[r.end - 1]) == Kind::Setting);
                assert(key_of(raw[r.end - 1]) == key_of(raw[n - 1]));
            }
        }
    }
}

/// No line is malformed, and no two setting lines have one key.
pub open spec fn faultless(raw: Seq<Seq<char>>) -> bool {
    &&& forall|i: int| 0 <= i < raw.len() ==> kind_of(#[trigger] raw[i]) != Kind::Malformed
    &&& forall|i: int, j: int|
        0 <= i < j < raw.len() && kind_of(#[trigger] raw[i]) == Kind::Setting && kind_of(
            #[trigger] raw[j],
        ) == Kind::Setting ==> key_of(raw[i]) != key_of(raw[j])
}

/// Lines are read as a document exactly when none of them is malformed and
/// no two settings have one key.
pub proof fn law_parse_succeeds_iff_faultless(raw: Seq<Seq<char>>)
    ensures
        parse_lines(raw) is Ok <==> faultless(raw),
{
    let n = raw.len() as int;
    if faultless(raw) {
        lemma_distinct_keys_no_fault(raw, n);
    }
    if first_fault_upto(raw, n) is None {
        lemma_no_fault(raw, n);
        lemma_records_upto(raw, n);
        let recs = records_upto(raw, n);
        assert forall|i: int, j: int|
            0 <= i < j < raw.len() && kind_of(#[trigger] raw[i]) == Kind::Setting && kind_of(
                #[trigger] raw[j],
            ) == Kind::Setting implies key_of(raw[i]) != key_of(raw[j]) by {
            let a = choose|a: int| 0 <= a < recs.len() && (#[trigger] recs[a]).end == i + 1;
            let b = choose|b: int| 0 <= b < recs.len() && (#[trigger] recs[b]).end == j + 1;
            assert(recs[a] == record_at(raw, i));
            assert(recs[b] == record_at(raw, j));
            if a < b {
                assert(recs[a].key != recs[b].key);
            } else if b < a {
                assert(recs[b].key != recs[a].key);
            }
        }
    }
}

/// A document that was read sets a key to a value exactly when a setting
/// line of the text has that key and that value.
pub proof fn law_get_after_parse(text: Seq<char>, key: Seq<char>, value: Seq<char>)
    requires
        parse_text(text) is Ok,
    ensures
        parse_text(text)->Ok_0.get(key) == Some(value) <==> exists|i: int|
            0 <= i < lines_of(text).len() && kind_of(#[trigger] lines_of(text)[i]) == Kind::Setting
                && key_of(lines_of(text)[i]) == key && value_of(lines_of(text)[i]) == value,
{
    let raw = lines_of(text);
    let n = raw.len() as int;
    let d = parse_text(text)->Ok_0;
    let recs = d.records;
    lemma_records_upto(raw, n);
    lemma_no_fault(raw, n);
    lemma_find_key(recs, key);
    let r = find_key(recs, key);
    if d.get(key) == Some(value) {
        let i = recs[r].end - 1;
        assert(recs[r] == record_at(raw, i));
        assert(kind_of(raw[i]) == Kind::Setting && key_of(raw[i]) == key && value_of(raw[i])
            == value);
    }
    if exists|i: int|
        0 <= i < raw.len() && kind_of(#[trigger] raw[i]) == Kind::Setting && key_of(raw[i]) == key
            && value_of(raw[i]) == value {
        let i = choose|i: int|
            0 <= i < raw.len() && kind_of(#[trigger] raw[i]) == Kind::Setting && key_of(raw[i])
                == key && value_of(raw[i]) == value;
        let a = choose|a: int| 0 <= a < recs.len() && (#[trigger] recs[a]).end == i + 1;
        assert(recs[a] == record_at(raw, i));
        assert(r <= a);
        if r < a {
            assert(recs[r].key != recs[a].key);
        }
    }
}

/// A text in which two settings have one key is no document. Where no line
/// above the second of them raises a fault, the error is the duplicate key
/// with the numbers of both lines.
pub proof fn law_duplicate_key(text: Seq<char>, i: int, j: int)
    requires
        0 <= i < j < lines_of(text).len(),
        kind_of(lines_of(text)[i]) == Kind::Setting,
        kind_of(lines_of(text)[j]) == Kind::Setting,
        key_of(lines_of(text)[i]) == key_of(lines_of(text)[j]),
    ensures
        parse_text(text) is Err,
        first_fault_upto(lines_of(text), j) is None ==> parse_text(text) == Err::<Document, Fault>(
            Fault::Duplicate {
                key: key_of(lines_of(text)[j]),
                first_line: i + 1,
                line: j + 1,
                text: lines_of(text)[j],
            },
        ),
{
    let raw = lines_of(text);
    let n = raw.len() as int;
    if first_fault_upto(raw, j) is Some {
        lemma_first_fault_stays(raw, j, n);
    } else {
        let above = records_upto(raw, j);
        let key = key_of(raw[j]);
        lemma_records_upto(raw, j);
        lemma_no_fault(raw, j);
        lemma_find_key(above, key);
        let at = choose|at: int| 0 <= at < above.len() && (#[trigger] above[at]).end == i + 1;
        assert(above[at] == record_at(raw, i));
        let k = find_key(above, key);
        assert(k <= at);
        if k < at {
            assert(above[k].key != above[at].key);
        }
        assert(fault_at(raw, j) == Some(
            Fault::Duplicate { key: key, first_line: i + 1, line: j + 1, text: raw[j] },
        ));
        assert(first_fault_upto(raw, j + 1) == fault_at(raw, j));
        lemma_first_fault_stays(raw, j + 1, n);
    }
}

} // verus!
