//! The mathematical model of a configuration document: its lines, and for
//! each key the record that holds it.
//!
//! A record is the run of comment lines directly above a setting line,
//! together with that line. Blank lines and comments that no setting follows
//! belong to no record.

use crate::lines::{document_text, lines_of};
use crate::syntax::pair_text;
use vstd::prelude::*;

verus! {

/// One setting: its key and value, and the half-open range of lines that
/// its record takes.
pub struct Record {
    pub key: Seq<char>,
    pub value: Seq<char>,
    pub start: int,
    pub end: int,
}

impl Record {
    /// The same record, `delta` lines further down.
    pub open spec fn shifted(self, delta: int) -> Record {
        Record { key: self.key, value: self.value, start: self.start + delta, end: self.end + delta }
    }
}

/// The index of the first record with this key, or the number of records
/// where none has it.
pub open spec fn find_key(records: Seq<Record>, key: Seq<char>) -> int
    decreases records.len(),
{
    if records.len() == 0 || records[0].key == key {
        0
    } else {
        1 + find_key(records.drop_first(), key)
    }
}

/// Where `find_key` points.
pub proof fn lemma_find_key(records: Seq<Record>, key: Seq<char>)
    ensures
        0 <= find_key(records, key) <= records.len(),
        forall|i: int| 0 <= i < find_key(records, key) ==> (#[trigger] records[i]).key != key,
        find_key(records, key) < records.len() ==> records[find_key(records, key)].key == key,
    decreases records.len(),
{
    if records.len() == 0 || records[0].key == key {
    } else {
        let rest = records.drop_first();
        lemma_find_key(rest, key);
        assert forall|i: int| 0 <= i < find_key(records, key) implies (#[trigger] records[i]).key
            != key by {
            if i > 0 {
                assert(records[i] == rest[i - 1]);
            }
        }
    }
}

/// An index with no record of this key before it, which holds one or is the
/// number of records, is what `find_key` returns.
pub proof fn lemma_find_key_is(records: Seq<Record>, key: Seq<char>, k: int)
    requires
        0 <= k <= records.len(),
        forall|i: int| 0 <= i < k ==> (#[trigger] records[i]).key != key,
        k < records.len() ==> records[k].key == key,
    ensures
        find_key(records, key) == k,
{
    lemma_find_key(records, key);
}

/// The lines that an insert writes for a comment: one for each line of the
/// comment text, each after `# `.
pub open spec fn comment_lines(comment: Seq<char>) -> Seq<Seq<char>> {
    Seq::new(lines_of(comment).len(), |i: int| seq!['#', ' '] + lines_of(comment)[i])
}

/// The lines of a new record: the comment lines, then the setting line.
pub open spec fn record_lines(key: Seq<char>, value: Seq<char>, comment: Seq<char>) -> Seq<
    Seq<char>,
> {
    comment_lines(comment).push(pair_text(key, value))
}

/// A document: the lines as they will be written, and the records in the
/// order in which they stand.
pub struct Document {
    pub lines: Seq<Seq<char>>,
    pub records: Seq<Record>,
}

impl Document {
    /// The records lie inside the lines, one after the other without
    /// overlap, no key occurs twice, and the last line of each record is the
    /// setting line of its key and value.
    pub open spec fn wf(self) -> bool {
        &&& forall|i: int|
            0 <= i < self.records.len() ==> 0 <= (#[trigger] self.records[i]).start
                < self.records[i].end <= self.lines.len()
        &&& forall|i: int, j: int|
            0 <= i < j < self.records.len() ==> (#[trigger] self.records[i]).end <= (
            #[trigger] self.records[j]).start
        &&& forall|i: int, j: int|
            0 <= i < j < self.records.len() ==> (#[trigger] self.records[i]).key != (
            #[trigger] self.records[j]).key
        &&& forall|i: int|
            0 <= i < self.records.len() ==> self.lines[(#[trigger] self.records[i]).end - 1]
                == pair_text(self.records[i].key, self.records[i].value)
    }

    /// The text that the document is written as.
    pub open spec fn text(self) -> Seq<char> {
        document_text(self.lines)
    }

    /// Whether a record has this key.
    pub open spec fn has(self, key: Seq<char>) -> bool {
        find_key(self.records, key) < self.records.len()
    }

    /// The value of this key, where a record has it.
    pub open spec fn get(self, key: Seq<char>) -> Option<Seq<char>> {
        if self.has(key) {
            Some(self.records[find_key(self.records, key)].value)
        } else {
            None
        }
    }

    /// The lines of the record at index `r`.
    pub open spec fn lines_of_record(self, r: int) -> Seq<Seq<char>> {
        self.lines.subrange(self.records[r].start, self.records[r].end)
    }

    /// The document in which `new_lines` stand in place of the record at
    /// index `r`, which now holds `value`. Records below it move by the
    /// difference in the number of lines; records above it stay.
    pub open spec fn replaced(self, r: int, value: Seq<char>, new_lines: Seq<Seq<char>>) -> Document {
        let old = self.records[r];
        let delta = new_lines.len() - (old.end - old.start);
        Document {
            lines: self.lines.take(old.start) + new_lines + self.lines.skip(old.end),
            records: Seq::new(
                self.records.len(),
                |j: int|
                    if j < r {
                        self.records[j]
                    } else if j == r {
                        Record {
                            key: old.key,
                            value: value,
                            start: old.start,
                            end: old.start + new_lines.len(),
                        }
                    } else {
                        self.records[j].shifted(delta)
                    },
            ),
        }
    }

    /// The document with a record of these lines for `key` added at its end.
    pub open spec fn appended(self, key: Seq<char>, value: Seq<char>, new_lines: Seq<Seq<char>>) -> Document {
        Document {
            lines: self.lines + new_lines,
            records: self.records.push(
                Record {
                    key: key,
                    value: value,
                    start: self.lines.len() as int,
                    end: (self.lines.len() + new_lines.len()) as int,
                },
            ),
        }
    }

    /// The document after `key` was set to `value` with `comment`: the
    /// record of a known key is replaced where it stands, that of a new key
    /// is added at the end.
    pub open spec fn insert(self, key: Seq<char>, value: Seq<char>, comment: Seq<char>) -> Document {
        if self.has(key) {
            self.replaced(find_key(self.records, key), value, record_lines(key, value, comment))
        } else {
            self.appended(key, value, record_lines(key, value, comment))
        }
    }

    /// The document without the record at index `r`. Records below it move up
    /// by the number of its lines.
    pub open spec fn without(self, r: int) -> Document {
        let old = self.records[r];
        Document {
            lines: self.lines.take(old.start) + self.lines.skip(old.end),
            records: Seq::new(
                (self.records.len() - 1) as nat,
                |j: int|
                    if j < r {
                        self.records[j]
                    } else {
                        self.records[j + 1].shifted(old.start - old.end)
                    },
            ),
        }
    }

    /// The document after `key` was removed: without its record where it has
    /// one, and unchanged where it has none.
    pub open spec fn remove(self, key: Seq<char>) -> Document {
        if self.has(key) {
            self.without(find_key(self.records, key))
        } else {
            self
        }
    }
}

/// Replacing a record by lines that end in the setting line of its key keeps
/// the document well formed.
pub proof fn lemma_replaced_wf(d: Document, r: int, value: Seq<char>, new_lines: Seq<Seq<char>>)
    requires
        d.wf(),
        0 <= r < d.records.len(),
        new_lines.len() > 0,
        new_lines.last() == pair_text(d.records[r].key, value),
    ensures
        d.replaced(r, value, new_lines).wf(),
{
    let n = d.replaced(r, value, new_lines);
    let old = d.records[r];
    let delta = new_lines.len() - (old.end - old.start);
    assert(n.lines.len() == d.lines.len() + delta);
    assert forall|i: int| 0 <= i < n.records.len() implies 0 <= (#[trigger] n.records[i]).start
        < n.records[i].end <= n.lines.len() by {
        if i > r {
            assert(d.records[r].end <= d.records[i].start);
        }
    }
    assert forall|i: int, j: int| 0 <= i < j < n.records.len() implies (#[trigger] n.records[i]).end
        <= (#[trigger] n.records[j]).start by {
        assert(d.records[i].end <= d.records[j].start);
        if i < r && j > r {
            assert(d.records[r].end <= d.records[j].start);
        }
    }
    assert forall|i: int, j: int| 0 <= i < j < n.records.len() implies (#[trigger] n.records[i]).key
        != (#[trigger] n.records[j]).key by {
        assert(d.records[i].key != d.records[j].key);
    }
    assert forall|i: int| 0 <= i < n.records.len() implies n.lines[(#[trigger] n.records[i]).end
        - 1] == pair_text(n.records[i].key, n.records[i].value) by {
        if i < r {
            assert(d.records[i].end <= d.records[r].start);
            assert(n.lines[d.records[i].end - 1] == d.lines[d.records[i].end - 1]);
        } else if i == r {
            assert(n.lines[old.start + new_lines.len() - 1] == new_lines[new_lines.len() - 1]);
        } else {
            assert(d.records[r].end <= d.records[i].start);
            assert(n.lines[d.records[i].end + delta - 1] == d.lines[d.records[i].end - 1]);
        }
    }
}

/// Adding a record for a new key at the end keeps the document well formed.
pub proof fn lemma_appended_wf(d: Document, key: Seq<char>, value: Seq<char>, new_lines: Seq<Seq<char>>)
    requires
        d.wf(),
        !d.has(key),
        new_lines.len() > 0,
        new_lines.last() == pair_text(key, value),
    ensures
        d.appended(key, value, new_lines).wf(),
{
    let n = d.appended(key, value, new_lines);
    lemma_find_key(d.records, key);
    let last = d.records.len() as int;
    assert forall|i: int| 0 <= i < n.records.len() implies 0 <= (#[trigger] n.records[i]).start
        < n.records[i].end <= n.lines.len() by {
        if i < last {
            assert(n.records[i] == d.records[i]);
        }
    }
    assert forall|i: int, j: int| 0 <= i < j < n.records.len() implies (#[trigger] n.records[i]).end
        <= (#[trigger] n.records[j]).start by {
        assert(n.records[i] == d.records[i]);
        if j < last {
            assert(n.records[j] == d.records[j]);
        }
    }
    assert forall|i: int, j: int| 0 <= i < j < n.records.len() implies (#[trigger] n.records[i]).key
        != (#[trigger] n.records[j]).key by {
        assert(n.records[i] == d.records[i]);
        if j < last {
            assert(n.records[j] == d.records[j]);
        }
    }
    assert forall|i: int| 0 <= i < n.records.len() implies n.lines[(#[trigger] n.records[i]).end
        - 1] == pair_text(n.records[i].key, n.records[i].value) by {
        if i < last {
            assert(n.records[i] == d.records[i]);
            assert(n.lines[d.records[i].end - 1] == d.lines[d.records[i].end - 1]);
        } else {
            assert(n.lines[d.lines.len() + new_lines.len() - 1] == new_lines[new_lines.len() - 1]);
        }
    }
}

/// Setting a key keeps the document well formed.
pub proof fn lemma_insert_wf(d: Document, key: Seq<char>, value: Seq<char>, comment: Seq<char>)
    requires
        d.wf(),
    ensures
        d.insert(key, value, comment).wf(),
{
    let new_lines = record_lines(key, value, comment);
    lemma_find_key(d.records, key);
    if d.has(key) {
        lemma_replaced_wf(d, find_key(d.records, key), value, new_lines);
    } else {
        lemma_appended_wf(d, key, value, new_lines);
    }
}

/// Taking a record out keeps the document well formed.
pub proof fn lemma_without_wf(d: Document, r: int)
    requires
        d.wf(),
        0 <= r < d.records.len(),
    ensures
        d.without(r).wf(),
{
    let n = d.without(r);
    let old = d.records[r];
    let delta = old.start - old.end;
    assert(n.lines.len() == d.lines.len() + delta);
    assert forall|i: int| 0 <= i < n.records.len() implies 0 <= (#[trigger] n.records[i]).start
        < n.records[i].end <= n.lines.len() by {
        if i >= r {
            assert(d.records[r].end <= d.records[i + 1].start);
        }
    }
    assert forall|i: int, j: int| 0 <= i < j < n.records.len() implies (#[trigger] n.records[i]).end
        <= (#[trigger] n.records[j]).start by {
        if j < r {
            assert(d.records[i].end <= d.records[j].start);
        } else if i < r {
            assert(d.records[i].end <= d.records[r].start);
            assert(d.records[r].end <= d.records[j + 1].start);
        } else {
            assert(d.records[i + 1].end <= d.records[j + 1].start);
        }
    }
    assert forall|i: int, j: int| 0 <= i < j < n.records.len() implies (#[trigger] n.records[i]).key
        != (#[trigger] n.records[j]).key by {
        if j < r {
            assert(d.records[i].key != d.records[j].key);
        } else if i < r {
            assert(d.records[i].key != d.records[j + 1].key);
        } else {
            assert(d.records[i + 1].key != d.records[j + 1].key);
        }
    }
    assert forall|i: int| 0 <= i < n.records.len() implies n.lines[(#[trigger] n.records[i]).end
        - 1] == pair_text(n.records[i].key, n.records[i].value) by {
        if i < r {
            assert(d.records[i].end <= d.records[r].start);
            assert(n.lines[d.records[i].end - 1] == d.lines[d.records[i].end - 1]);
        } else {
            assert(d.records[r].end <= d.records[i + 1].start);
            assert(n.lines[d.records[i + 1].end + delta - 1] == d.lines[d.records[i + 1].end - 1]);
        }
    }
}

/// Removing a key keeps the document well formed.
pub proof fn lemma_remove_wf(d: Document, key: Seq<char>)
    requires
        d.wf(),
    ensures
        d.remove(key).wf(),
{
    lemma_find_key(d.records, key);
    if d.has(key) {
        lemma_without_wf(d, find_key(d.records, key));
    }
}

/// Setting a key that the document sets already replaces the record of that
/// key alone: the lines above it and below it stay, every other record
/// keeps its place in the order, its key, its value and its lines, and the
/// key then has the new value.
pub proof fn law_insert_is_targeted(
    d: Document,
    key: Seq<char>,
    value: Seq<char>,
    comment: Seq<char>,
    other: int,
)
    requires
        d.wf(),
        d.has(key),
        0 <= other < d.records.len(),
        other != find_key(d.records, key),
    ensures
        ({
            let n = d.insert(key, value, comment);
            let r = find_key(d.records, key);
            &&& n.records.len() == d.records.len()
            &&& n.records[other].key == d.records[other].key
            &&& n.records[other].value == d.records[other].value
            &&& n.lines_of_record(other) == d.lines_of_record(other)
            &&& n.records[r].key == key
            &&& n.get(key) == Some(value)
            &&& n.lines_of_record(r) == record_lines(key, value, comment)
            &&& n.lines.take(d.records[r].start) == d.lines.take(d.records[r].start)
            &&& n.lines.skip(n.records[r].end) == d.lines.skip(d.records[r].end)
        }),
{
    let n = d.insert(key, value, comment);
    let r = find_key(d.records, key);
    let new_lines = record_lines(key, value, comment);
    lemma_find_key(d.records, key);
    let old = d.records[r];
    if other < r {
        assert(d.records[other].end <= d.records[r].start);
    } else {
        assert(d.records[r].end <= d.records[other].start);
    }
    assert(n.lines_of_record(other) =~= d.lines_of_record(other));
    assert(n.lines_of_record(r) =~= new_lines);
    assert(n.lines.take(old.start) =~= d.lines.take(old.start));
    assert(n.lines.skip(n.records[r].end) =~= d.lines.skip(old.end));
    assert forall|i: int| 0 <= i < r implies (#[trigger] n.records[i]).key != key by {
        assert(n.records[i] == d.records[i]);
    }
    lemma_find_key_is(n.records, key, r);
}

/// Setting a key gives it the value, whether the document set it before or
/// not, and leaves the value of every other key as it was.
pub proof fn law_insert_then_get(
    d: Document,
    key: Seq<char>,
    value: Seq<char>,
    comment: Seq<char>,
    other: Seq<char>,
)
    requires
        d.wf(),
    ensures
        d.insert(key, value, comment).get(key) == Some(value),
        other != key ==> d.insert(key, value, comment).get(other) == d.get(other),
{
    let n = d.insert(key, value, comment);
    let r = find_key(d.records, key);
    lemma_find_key(d.records, key);
    lemma_find_key(d.records, other);
    let o = find_key(d.records, other);
    if d.has(key) {
        assert forall|i: int| 0 <= i < r implies (#[trigger] n.records[i]).key != key by {
            assert(n.records[i] == d.records[i]);
        }
        lemma_find_key_is(n.records, key, r);
        if other != key {
            assert forall|i: int| 0 <= i < o implies (#[trigger] n.records[i]).key != other by {
                assert(n.records[i].key == d.records[i].key);
            }
            lemma_find_key_is(n.records, other, o);
        }
    } else {
        assert forall|i: int| 0 <= i < r implies (#[trigger] n.records[i]).key != key by {
            assert(n.records[i] == d.records[i]);
        }
        lemma_find_key_is(n.records, key, r);
        if other != key {
            let target = if o < d.records.len() {
                o
            } else {
                n.records.len() as int
            };
            assert forall|i: int| 0 <= i < target implies (#[trigger] n.records[i]).key
                != other by {
                if i < d.records.len() {
                    assert(n.records[i] == d.records[i]);
                }
            }
            if o < d.records.len() {
                assert(n.records[o] == d.records[o]);
            }
            lemma_find_key_is(n.records, other, target);
        }
    }
}

/// Removing a key that the document does not set changes nothing: the
/// document and its text stay as they are.
pub proof fn law_remove_unknown_is_noop(d: Document, key: Seq<char>)
    requires
        !d.has(key),
    ensures
        d.remove(key) == d,
        d.remove(key).text() == d.text(),
{
}

/// Removing a key that the document sets takes the lines of its record out
/// and nothing else: the key is set no more, and every other key keeps its
/// value.
pub proof fn law_remove_then_get(d: Document, key: Seq<char>, other: Seq<char>)
    requires
        d.wf(),
    ensures
        d.remove(key).get(key) is None,
        other != key ==> d.remove(key).get(other) == d.get(other),
        d.has(key) ==> d.remove(key).lines == d.lines.take(d.records[find_key(d.records, key)].start)
            + d.lines.skip(d.records[find_key(d.records, key)].end),
{
    let n = d.remove(key);
    let r = find_key(d.records, key);
    lemma_find_key(d.records, key);
    lemma_find_key(d.records, other);
    let o = find_key(d.records, other);
    if d.has(key) {
        assert forall|i: int| 0 <= i < n.records.len() implies (#[trigger] n.records[i]).key
            != key by {
            if i < r {
                assert(n.records[i] == d.records[i]);
            } else {
                assert(n.records[i].key == d.records[i + 1].key);
                assert(d.records[r].key != d.records[i + 1].key);
            }
        }
        lemma_find_key_is(n.records, key, n.records.len() as int);
        if other != key {
            let target = if o < r {
                o
            } else {
                o - 1
            };
            assert forall|i: int| 0 <= i < target implies (#[trigger] n.records[i]).key
                != other by {
                if i < r {
                    assert(n.records[i] == d.records[i]);
                } else {
                    assert(n.records[i].key == d.records[i + 1].key);
                }
            }
            if o < d.records.len() {
                assert(o != r);
                if o > r {
                    assert(n.records[target].key == d.records[o].key);
                    assert(n.records[target].value == d.records[o].value);
                }
            }
            lemma_find_key_is(n.records, other, target);
        }
    }
}

} // verus!
