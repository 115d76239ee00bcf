//! Splitting text into lines and joining lines into text.
//!
//! A line ends at a line feed; a carriage return directly before that line
//! feed belongs to the line ending. The last line needs no line feed.

use crate::text::{first_index, lemma_first_index_is, string_of};
use vstd::prelude::*;
use vstd::string::StringExecFns;

verus! {

/// What each string of `v` holds.
pub open spec fn views(v: Seq<String>) -> Seq<Seq<char>> {
    Seq::new(v.len(), |i: int| v[i]@)
}

/// `l` without one carriage return at its end.
pub open spec fn strip_cr(l: Seq<char>) -> Seq<char> {
    if l.len() > 0 && l.last() == '\r' {
        l.drop_last()
    } else {
        l
    }
}

/// The lines of `t`. Empty text has no line; text that ends in a line feed
/// has no empty line after it.
pub open spec fn lines_of(t: Seq<char>) -> Seq<Seq<char>>
    decreases t.len(),
{
    if t.len() == 0 {
        Seq::empty()
    } else {
        let n = first_index(t, '\n');
        if n >= t.len() {
            seq![t]
        } else {
            seq![strip_cr(t.take(n as int))] + lines_of(t.skip(n as int + 1))
        }
    }
}

/// Each line followed by a line feed, one after the other.
pub open spec fn terminated(lines: Seq<Seq<char>>) -> Seq<char>
    decreases lines.len(),
{
    if lines.len() == 0 {
        Seq::empty()
    } else {
        lines.first() + seq!['\n'] + terminated(lines.drop_first())
    }
}

/// The text of a document with these lines: the lines joined by line feeds,
/// and one line feed at the end. A document without lines is one line feed.
pub open spec fn document_text(lines: Seq<Seq<char>>) -> Seq<char> {
    if lines.len() == 0 {
        seq!['\n']
    } else {
        terminated(lines)
    }
}

/// `l` can stand as a line of a text: it holds no line feed and does not end
/// in a carriage return.
pub open spec fn is_line(l: Seq<char>) -> bool {
    &&& forall|i: int| 0 <= i < l.len() ==> l[i] != '\n'
    &&& l.len() > 0 ==> l.last() != '\r'
}

/// `terminated` takes one more line at the end.
pub proof fn lemma_terminated_push(lines: Seq<Seq<char>>, l: Seq<char>)
    ensures
        terminated(lines.push(l)) == terminated(lines) + l + seq!['\n'],
    decreases lines.len(),
{
    if lines.len() == 0 {
        assert(lines.push(l).drop_first() =~= lines);
        assert(terminated(lines.push(l)) =~= terminated(lines) + l + seq!['\n']);
    } else {
        lemma_terminated_push(lines.drop_first(), l);
        assert(lines.push(l).drop_first() =~= lines.drop_first().push(l));
        assert(terminated(lines.push(l)) =~= terminated(lines) + l + seq!['\n']);
    }
}

/// Splitting what `terminated` joined gives the lines back.
pub proof fn lemma_lines_of_terminated(lines: Seq<Seq<char>>)
    requires
        forall|i: int| 0 <= i < lines.len() ==> is_line(#[trigger] lines[i]),
    ensures
        lines_of(terminated(lines)) == lines,
    decreases lines.len(),
{
    if lines.len() == 0 {
        assert(lines_of(terminated(lines)) =~= lines);
    } else {
        let l = lines.first();
        let rest = lines.drop_first();
        let t = terminated(lines);
        assert(is_line(lines[0]));
        assert forall|i: int| 0 <= i < rest.len() implies is_line(#[trigger] rest[i]) by {
            assert(rest[i] == lines[i + 1]);
        }
        lemma_lines_of_terminated(rest);
        let k = l.len() as int;
        assert(t[k] == '\n');
        assert forall|i: int| 0 <= i < k implies t[i] != '\n' by {
            assert(t[i] == l[i]);
        }
        lemma_first_index_is(t, '\n', k);
        assert(t.take(k) =~= l);
        assert(t.skip(k + 1) =~= terminated(rest));
        assert(strip_cr(l) == l);
        assert(seq![l] + rest =~= lines);
    }
}

/// Splits `chars` into its lines.
pub fn split_lines(chars: &Vec<char>) -> (out: Vec<String>)
    ensures
        views(out@) == lines_of(chars@),
{
    let n = chars.len();
    let mut out: Vec<String> = Vec::new();
    let mut start: usize = 0;
    let mut i: usize = 0;
    proof {
        assert(chars@.skip(0) =~= chars@);
        assert(views(out@) + lines_of(chars@) =~= lines_of(chars@));
    }
    while i < n
        invariant
            n == chars.len(),
            start <= i <= n,
            forall|j: int| start <= j < i ==> chars@[j] != '\n',
            lines_of(chars@) == views(out@) + lines_of(chars@.skip(start as int)),
        decreases n - i,
    {
        if chars[i] == '\n' {
            let end: usize = if i > start && chars[i - 1] == '\r' {
                i - 1
            } else {
                i
            };
            let line = string_of(chars, start, end);
            proof {
                let t = chars@.skip(start as int);
                let k = i - start;
                lemma_first_index_is(t, '\n', k);
                assert(t.take(k) =~= chars@.subrange(start as int, i as int));
                assert(t.skip(k + 1) =~= chars@.skip(i + 1));
                assert(strip_cr(t.take(k)) =~= line@);
                assert(views(out@.push(line)) =~= views(out@) + seq![line@]);
            }
            out.push(line);
            start = i + 1;
        }
        i += 1;
    }
    if start < n {
        let line = string_of(chars, start, n);
        proof {
            let t = chars@.skip(start as int);
            lemma_first_index_is(t, '\n', t.len() as int);
            assert(t =~= chars@.subrange(start as int, n as int));
            assert(views(out@.push(line)) =~= views(out@) + seq![line@]);
        }
        out.push(line);
    } else {
        proof {
            assert(views(out@) + lines_of(chars@.skip(start as int)) =~= views(out@));
        }
    }
    out
}

/// The text of a document with these lines.
pub fn render(lines: &Vec<String>) -> (out: String)
    ensures
        out@ == document_text(views(lines@)),
{
    let mut out = String::new();
    if lines.len() == 0 {
        out.push('\n');
        proof {
            assert(out@ =~= seq!['\n']);
        }
        return out;
    }
    let mut i: usize = 0;
    while i < lines.len()
        invariant
            i <= lines.len(),
            out@ == terminated(views(lines@).take(i as int)),
        decreases lines.len() - i,
    {
        proof {
            let done = views(lines@).take(i as int);
            lemma_terminated_push(done, lines@[i as int]@);
            assert(done.push(lines@[i as int]@) =~= views(lines@).take(i + 1));
        }
        out.append(lines[i].as_str());
        out.push('\n');
        i += 1;
    }
    proof {
        assert(views(lines@).take(lines.len() as int) =~= views(lines@));
    }
    out
}

} // verus!
