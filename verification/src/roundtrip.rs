//! Reading and writing back: which texts come back unchanged, and that a
//! text that was written once is written the same ever after.

use crate::document::Record;
use crate::lines::{is_line, lemma_lines_of_terminated, lines_of, strip_cr, terminated};
use crate::parse::{
    canonical_lines, comment_start, fault_at, first_fault_upto, lemma_distinct_keys_no_fault,
    lemma_no_fault, parse_text, record_at, records_upto,
};
use crate::syntax::{blank, canonical, comment, key_of, kind_of, pair_text, value_of, Kind};
use crate::text::{
    first_index, is_ascii_space, is_space, is_trimmed, lemma_first_index, lemma_first_index_is,
    lemma_trim, lemma_trim_end, lemma_trim_fixed, lemma_trim_start, trim_start,
};
use vstd::prelude::*;

verus! {

/// `s` holds no line feed.
pub open spec fn one_line(s: Seq<char>) -> bool {
    forall|i: int| 0 <= i < s.len() ==> s[i] != '\n'
}

/// A key and a value as a canonical setting line holds them: the key holds
/// no `=`, neither has white space around it, and neither holds a line feed.
pub open spec fn clean_pair(key: Seq<char>, value: Seq<char>) -> bool {
    &&& one_line(key)
    &&& one_line(value)
    &&& forall|i: int| 0 <= i < key.len() ==> key[i] != '='
    &&& is_trimmed(key)
    &&& is_trimmed(value)
}

/// A canonical setting line: `key = value`, or `key =` for an empty value.
pub open spec fn clean_setting(l: Seq<char>) -> bool {
    exists|key: Seq<char>, value: Seq<char>|
        #![trigger pair_text(key, value)]
        clean_pair(key, value) && l == pair_text(key, value)
}

/// A comment line that starts with `#` and does not end in white space.
pub open spec fn clean_comment(l: Seq<char>) -> bool {
    &&& l.len() > 0
    &&& l[0] == '#'
    &&& one_line(l)
    &&& !is_space(l.last())
}

/// The setting line of a clean pair is read as it stands: it is kept
/// unchanged and gives back the key and the value, unless the key makes it a
/// comment, and then it is kept unchanged too.
pub proof fn lemma_pair_text_reads(key: Seq<char>, value: Seq<char>)
    requires
        clean_pair(key, value),
    ensures
        canonical(pair_text(key, value)) == pair_text(key, value),
        is_line(pair_text(key, value)),
        kind_of(pair_text(key, value)) == Kind::Setting || kind_of(pair_text(key, value))
            == Kind::Comment,
        kind_of(pair_text(key, value)) == Kind::Setting ==> key_of(pair_text(key, value)) == key
            && value_of(pair_text(key, value)) == value,
{
    let l = pair_text(key, value);
    let e = key.len() as int + 1;
    assert(l[e] == '=');
    assert(!is_ascii_space(l[e]));
    assert(!blank(l));
    assert(l.len() > 0 && !is_space(l.last())) by {
        if value.len() > 0 {
            assert(l.last() == value.last());
        } else {
            assert(l.last() == '=');
        }
    }
    assert(is_line(l)) by {
        assert forall|i: int| 0 <= i < l.len() implies l[i] != '\n' by {
            if i < key.len() {
                assert(l[i] == key[i]);
            } else if i >= key.len() + 3 {
                assert(l[i] == value[i - key.len() - 3]);
            }
        }
    }
    lemma_trim_fixed(l);
    assert forall|i: int| 0 <= i < e implies l[i] != '=' by {
        if i < key.len() {
            assert(l[i] == key[i]);
        }
    }
    lemma_first_index_is(l, '=', e);
    let head = key.push(' ');
    assert(l.take(e) =~= head);
    assert(head.drop_last() =~= key);
    lemma_trim_fixed(key);
    if key.len() == 0 {
        assert(head.drop_first() =~= key);
        assert(trim_start(head) == key);
    } else {
        assert(head.first() == key.first());
        lemma_trim_fixed(head);
    }
    assert(key_of(l) == key);
    if value.len() == 0 {
        assert(l.skip(e + 1) =~= Seq::<char>::empty());
        assert(value =~= Seq::<char>::empty());
        assert(value_of(l) == value);
    } else {
        let rest = l.skip(e + 1);
        assert(rest =~= seq![' '] + value);
        assert(rest.drop_first() =~= value);
        lemma_trim_fixed(value);
        assert(trim_start(rest) == value);
        assert(value_of(l) == value);
    }
}

/// A clean comment is a comment line and is kept as it stands.
pub proof fn lemma_clean_comment_reads(l: Seq<char>)
    requires
        clean_comment(l),
    ensures
        kind_of(l) == Kind::Comment,
        canonical(l) == l,
        is_line(l),
{
    assert(l[0] == '#');
    assert(!is_ascii_space(l[0]));
    assert(comment(l));
    lemma_trim_fixed(l);
}

/// What a document keeps of a well-formed line is kept unchanged when it is
/// read again, is of the same kind, and gives the same key and value.
pub proof fn lemma_canonical_stable(l: Seq<char>)
    requires
        one_line(l),
        kind_of(l) != Kind::Malformed,
    ensures
        kind_of(canonical(l)) == kind_of(l),
        canonical(canonical(l)) == canonical(l),
        is_line(canonical(l)),
        kind_of(l) == Kind::Setting ==> key_of(canonical(l)) == key_of(l) && value_of(
            canonical(l),
        ) == value_of(l),
{
    let c = canonical(l);
    if blank(l) {
        assert(blank(c));
    } else if comment(l) {
        lemma_trim_end(l);
        let i = choose|i: int|
            0 <= i < l.len() && #[trigger] l[i] == '#' && forall|j: int|
                0 <= j < i ==> is_space(#[trigger] l[j]);
        assert(!is_space(l[i]));
        assert(i < c.len());
        assert(c[i] == '#');
        assert forall|j: int| 0 <= j < i implies is_space(#[trigger] c[j]) by {
            assert(c[j] == l[j]);
        }
        assert(comment(c));
        assert(!is_ascii_space(c[i]));
        assert(!blank(c));
        assert(one_line(c)) by {
            assert forall|j: int| 0 <= j < c.len() implies c[j] != '\n' by {
                assert(c[j] == l[j]);
            }
        }
    } else {
        let e = first_index(l, '=') as int;
        lemma_first_index(l, '=');
        let k = key_of(l);
        let v = value_of(l);
        let head = l.take(e);
        let tail = l.skip(e + 1);
        lemma_trim_start(head);
        lemma_trim_end(trim_start(head));
        lemma_trim(head);
        lemma_trim_start(tail);
        lemma_trim_end(trim_start(tail));
        lemma_trim(tail);
        let from = head.len() - trim_start(head).len();
        assert forall|i: int| 0 <= i < k.len() implies k[i] == l[from + i] by {
            assert(k[i] == trim_start(head)[i]);
            assert(trim_start(head)[i] == head[from + i]);
        }
        let off = e + 1 + (tail.len() - trim_start(tail).len());
        assert forall|i: int| 0 <= i < v.len() implies v[i] == l[off + i] by {
            assert(v[i] == trim_start(tail)[i]);
            assert(trim_start(tail)[i] == tail[tail.len() - trim_start(tail).len() + i]);
        }
        assert(clean_pair(k, v)) by {
            assert forall|i: int| 0 <= i < k.len() implies k[i] != '=' && k[i] != '\n' by {
                assert(k[i] == l[from + i]);
            }
            assert forall|i: int| 0 <= i < v.len() implies v[i] != '\n' by {
                assert(v[i] == l[off + i]);
            }
        }
        lemma_pair_text_reads(k, v);
        if comment(c) {
            let i = choose|i: int|
                0 <= i < c.len() && #[trigger] c[i] == '#' && forall|j: int|
                    0 <= j < i ==> is_space(#[trigger] c[j]);
            assert(c[k.len() as int] == ' ');
            assert(c[k.len() as int + 1] == '=');
            if i > k.len() + 1 {
                assert(is_space(c[k.len() as int + 1]));
            }
            assert(i < k.len());
            if i > 0 {
                assert(c[0] == k[0]);
                assert(is_space(c[0]));
            }
            assert(k[0] == c[0]);
            assert(l[from] == '#');
            assert forall|j: int| 0 <= j < from implies is_space(#[trigger] l[j]) by {
                assert(l[j] == head[j]);
            }
            assert(comment(l));
        }
    }
}

/// The lines of a text hold no line feed.
pub proof fn lemma_lines_of_one_line(t: Seq<char>)
    ensures
        forall|i: int| 0 <= i < lines_of(t).len() ==> one_line(#[trigger] lines_of(t)[i]),
    decreases t.len(),
{
    if t.len() > 0 {
        let n = first_index(t, '\n') as int;
        lemma_first_index(t, '\n');
        if n >= t.len() {
            assert(one_line(t));
            assert(lines_of(t) =~= seq![t]);
        } else {
            let head = strip_cr(t.take(n));
            let rest = lines_of(t.skip(n + 1));
            lemma_lines_of_one_line(t.skip(n + 1));
            assert(one_line(head)) by {
                assert forall|i: int| 0 <= i < head.len() implies head[i] != '\n' by {
                    assert(head[i] == t[i]);
                }
            }
            assert forall|i: int| 0 <= i < lines_of(t).len() implies one_line(
                #[trigger] lines_of(t)[i],
            ) by {
                if i > 0 {
                    assert(lines_of(t)[i] == rest[i - 1]);
                }
            }
        }
    }
}

/// Lines that are of the same kinds and give the same keys and values give
/// the same records, and the ones raise a fault where the others do.
pub proof fn lemma_same_reading(a: Seq<Seq<char>>, b: Seq<Seq<char>>, n: int)
    requires
        a.len() == b.len(),
        0 <= n <= a.len(),
        forall|i: int| 0 <= i < a.len() ==> kind_of(#[trigger] a[i]) == kind_of(b[i]),
        forall|i: int|
            0 <= i < a.len() && kind_of(#[trigger] a[i]) == Kind::Setting ==> key_of(a[i])
                == key_of(b[i]) && value_of(a[i]) == value_of(b[i]),
    ensures
        comment_start(a, n) == comment_start(b, n),
        records_upto(a, n) == records_upto(b, n),
        first_fault_upto(a, n) is None <==> first_fault_upto(b, n) is None,
    decreases n,
{
    if n > 0 {
        lemma_same_reading(a, b, n - 1);
        assert(kind_of(a[n - 1]) == kind_of(b[n - 1]));
        if kind_of(a[n - 1]) == Kind::Setting {
            assert(record_at(a, n - 1) == record_at(b, n - 1));
        }
        assert(fault_at(a, n - 1) is None <==> fault_at(b, n - 1) is None);
    }
}

/// A text made of clean comment lines and canonical setting lines, each
/// ended by a line feed, in which no key is set twice, is read without a
/// fault and written back as it was.
pub proof fn law_round_trip(lines: Seq<Seq<char>>)
    requires
        lines.len() > 0,
        forall|i: int|
            0 <= i < lines.len() ==> clean_setting(#[trigger] lines[i]) || clean_comment(lines[i]),
        forall|i: int, j: int|
            0 <= i < j < lines.len() && kind_of(#[trigger] lines[i]) == Kind::Setting && kind_of(
                #[trigger] lines[j],
            ) == Kind::Setting ==> key_of(lines[i]) != key_of(lines[j]),
    ensures
        parse_text(terminated(lines)) matches Ok(d) && d.lines == lines && d.text() == terminated(
            lines,
        ),
{
    assert forall|i: int| 0 <= i < lines.len() implies is_line(#[trigger] lines[i]) && canonical(
        lines[i],
    ) == lines[i] && kind_of(lines[i]) != Kind::Malformed by {
        lemma_clean_line(lines[i]);
    }
    lemma_lines_of_terminated(lines);
    lemma_distinct_keys_no_fault(lines, lines.len() as int);
    assert(canonical_lines(lines) =~= lines);
}

/// A clean line is kept as it stands.
pub proof fn lemma_clean_line(l: Seq<char>)
    requires
        clean_setting(l) || clean_comment(l),
    ensures
        is_line(l),
        canonical(l) == l,
        kind_of(l) != Kind::Malformed,
{
    if clean_comment(l) {
        lemma_clean_comment_reads(l);
    } else {
        let (key, value) = choose|key: Seq<char>, value: Seq<char>|
            #![trigger pair_text(key, value)]
            clean_pair(key, value) && l == pair_text(key, value);
        lemma_pair_text_reads(key, value);
    }
}

/// Writing a document that was read and reading what was written gives a
/// document that is written the same again, with the same records; where the
/// text had a line at all, it is the same document.
pub proof fn law_write_is_fixed_point(text: Seq<char>)
    requires
        parse_text(text) is Ok,
    ensures
        ({
            let d = parse_text(text)->Ok_0;
            &&& parse_text(d.text()) matches Ok(again)
            &&& again.text() == d.text()
            &&& again.records == d.records
            &&& d.lines.len() > 0 ==> again == d
        }),
{
    let raw = lines_of(text);
    let n = raw.len() as int;
    let d = parse_text(text)->Ok_0;
    let c = canonical_lines(raw);
    if n == 0 {
        let t = seq!['\n'];
        assert(d.text() == t);
        lemma_first_index_is(t, '\n', 0);
        assert(t.take(0) =~= Seq::<char>::empty());
        assert(t.skip(1) =~= Seq::<char>::empty());
        let empty_line = Seq::<char>::empty();
        assert(lines_of(t.skip(1)) =~= Seq::<Seq<char>>::empty());
        assert(strip_cr(t.take(0)) == empty_line);
        assert(lines_of(t) =~= seq![empty_line]);
        let one = seq![empty_line];
        assert(blank(empty_line));
        assert(kind_of(one[0]) == Kind::Blank);
        assert(first_fault_upto(one, 0) is None);
        assert(fault_at(one, 0) is None);
        assert(first_fault_upto(one, 1) is None);
        assert(records_upto(one, 0) =~= Seq::<Record>::empty());
        assert(records_upto(one, 1) =~= d.records);
        assert(canonical_lines(one) =~= one);
        let again = parse_text(t)->Ok_0;
        assert(again.lines == one);
        assert(terminated(one.drop_first()) =~= Seq::<char>::empty());
        assert(terminated(one) =~= t);
    } else {
        lemma_no_fault(raw, n);
        lemma_lines_of_one_line(text);
        assert forall|i: int| 0 <= i < c.len() implies is_line(#[trigger] c[i]) && kind_of(c[i])
            == kind_of(raw[i]) && canonical(c[i]) == c[i] && (kind_of(c[i]) == Kind::Setting
            ==> key_of(c[i]) == key_of(raw[i]) && value_of(c[i]) == value_of(raw[i])) by {
            lemma_canonical_stable(raw[i]);
        }
        lemma_lines_of_terminated(c);
        lemma_same_reading(c, raw, n);
        assert(canonical_lines(c) =~= c);
    }
}

} // verus!
