//! HLS playlists: telling a playlist from other content, reading its lines,
//! finding the reference that a line holds and writing the line anew.

use vstd::prelude::*;
use crate::text::{
    append, chars_of, find, find_from, join, join_text, lemma_find_from, matches_at, occurs_at,
    slice_of, split, split_text, starts_with, string_of, texts, trim, trim_bounds, trim_start,
    trim_start_index,
};

verus! {

/// The line that every playlist starts with.
pub open spec fn signature() -> Seq<char> {
    seq!['#', 'E', 'X', 'T', 'M', '3', 'U']
}

/// Whether `text` is a playlist: after white space it starts with the
/// signature line.
pub open spec fn is_playlist(text: Seq<char>) -> bool {
    starts_with(trim_start(text), signature())
}

pub fn is_hls_manifest(text: &str) -> (b: bool)
    ensures
        b == is_playlist(text@),
{
    let v = chars_of(text);
    let lo = trim_start_index(v.as_slice());
    let sig: Vec<char> = vec!['#', 'E', 'X', 'T', 'M', '3', 'U'];
    assert(sig@ == signature());
    let b = matches_at(v.as_slice(), sig.as_slice(), lo);
    proof {
        let t = v@.skip(lo as int);
        if lo + sig.len() <= v.len() {
            assert(t.subrange(0, sig.len() as int) == v@.subrange(lo as int, lo + sig.len()));
        }
    }
    b
}

/// `line` without a carriage return at its end.
pub open spec fn strip_cr(line: Seq<char>) -> Seq<char> {
    if line.len() > 0 && line.last() == '\r' {
        line.drop_last()
    } else {
        line
    }
}

/// The lines of `text`. A line ends at a line feed, and a carriage return
/// just before that line feed is no part of it. What follows the last line
/// feed is a line too, unless it is empty.
pub open spec fn lines_of(text: Seq<char>) -> Seq<Seq<char>> {
    let pieces = split(text, '\n');
    let ended = Seq::new((pieces.len() - 1) as nat, |i: int| strip_cr(pieces[i]));
    if pieces.last().len() == 0 {
        ended
    } else {
        ended.push(pieces.last())
    }
}

pub fn split_lines(text: &str) -> (lines: Vec<String>)
    ensures
        texts(lines@) == lines_of(text@),
{
    let v = chars_of(text);
    let pieces = split_text(v.as_slice(), '\n');
    proof {
        crate::text::lemma_split_nonempty(v@, '\n');
    }
    let ghost p = texts(pieces@);
    let mut lines: Vec<String> = Vec::new();
    let mut i: usize = 0;
    while i + 1 < pieces.len()
        invariant
            pieces.len() >= 1,
            i + 1 <= pieces.len(),
            p == texts(pieces@),
            lines@.len() == i,
            forall|j: int| 0 <= j < i ==> lines@[j]@ == strip_cr(p[j]),
        decreases pieces.len() - i,
    {
        let piece = chars_of(pieces[i].as_str());
        let n = piece.len();
        let line = if n > 0 && piece[n - 1] == '\r' {
            let cut = slice_of(piece.as_slice(), 0, n - 1);
            assert(cut@ == piece@.drop_last());
            string_of(cut.as_slice())
        } else {
            pieces[i].clone()
        };
        lines.push(line);
        i += 1;
    }
    let ghost ended = Seq::new((p.len() - 1) as nat, |j: int| strip_cr(p[j]));
    assert(texts(lines@) =~= ended);
    let last = chars_of(pieces[i].as_str());
    if last.len() > 0 {
        lines.push(pieces[i].clone());
        assert(texts(lines@) =~= ended.push(p.last()));
    }
    lines
}

/// The text that opens a URI attribute.
pub open spec fn uri_opening() -> Seq<char> {
    seq!['U', 'R', 'I', '=', '"']
}

/// The bounds of the value of the first URI attribute in `line`: from just
/// after the first `URI="` to the next `"`. `None` where either is missing.
pub open spec fn uri_attribute(line: Seq<char>) -> Option<(int, int)> {
    match find_from(line, uri_opening(), 0) {
        Some(i) => match find_from(line, seq!['"'], i + 5) {
            Some(j) => Some((i + 5, j)),
            None => None,
        },
        None => None,
    }
}

/// The bounds, in characters, of the value of the first URI attribute in
/// `line`.
pub fn find_uri_attr(line: &str) -> (r: Option<(usize, usize)>)
    ensures
        match r {
            Some((start, end)) => uri_attribute(line@) == Some((start as int, end as int)) && start
                <= end < line@.len(),
            None => uri_attribute(line@).is_none(),
        },
{
    let v = chars_of(line);
    find_uri_value(v.as_slice())
}

fn find_uri_value(v: &[char]) -> (r: Option<(usize, usize)>)
    ensures
        match r {
            Some((start, end)) => uri_attribute(v@) == Some((start as int, end as int)) && start
                <= end < v.len(),
            None => uri_attribute(v@).is_none(),
        },
{
    let opening: Vec<char> = vec!['U', 'R', 'I', '=', '"'];
    assert(opening@ == uri_opening());
    let quote: Vec<char> = vec!['"'];
    assert(quote@ == seq!['"']);
    match find(v, opening.as_slice(), 0) {
        Some(i) => match find(v, quote.as_slice(), i + 5) {
            Some(j) => Some((i + 5, j)),
            None => None,
        },
        None => None,
    }
}

/// A reference found in a playlist line.
pub struct LineReference {
    /// The reference as it is written.
    pub uri: String,
    /// What stands before it in the line.
    pub before: String,
    /// What stands after it in the line.
    pub after: String,
}

pub struct ReferenceView {
    pub uri: Seq<char>,
    pub before: Seq<char>,
    pub after: Seq<char>,
}

impl View for LineReference {
    type V = ReferenceView;

    open spec fn view(&self) -> ReferenceView {
        ReferenceView { uri: self.uri@, before: self.before@, after: self.after@ }
    }
}

/// Whether a line is a tag or a comment: after white space it starts with
/// `#`.
pub open spec fn is_tag(line: Seq<char>) -> bool {
    trim(line).len() > 0 && trim(line)[0] == '#'
}

/// The reference that `line` holds. A line that starts, after white space,
/// with `#` is a tag or a comment: it holds the value of its first URI
/// attribute, if it has one. Any other line that is not blank is a
/// reference as a whole, without the white space around it.
pub open spec fn reference_in(line: Seq<char>) -> Option<ReferenceView> {
    let t = trim(line);
    if is_tag(line) {
        match uri_attribute(line) {
            Some((start, end)) => Some(
                ReferenceView {
                    uri: line.subrange(start, end),
                    before: line.take(start),
                    after: line.skip(end),
                },
            ),
            None => None,
        }
    } else if t.len() == 0 {
        None
    } else {
        Some(ReferenceView { uri: t, before: Seq::empty(), after: Seq::empty() })
    }
}

/// The line that replaces one with the reference `r`, once the reference
/// is to read `local`: nothing but the reference changes.
pub open spec fn rewritten(r: ReferenceView, local: Seq<char>) -> Seq<char> {
    r.before + local + r.after
}

/// In a tag, nothing but the value of the URI attribute is rewritten: the
/// value stands in the line just after `URI="` and just before a `"`, and
/// what is kept before and after it is the rest of the line.
pub proof fn lemma_tag_keeps_the_rest(line: Seq<char>)
    requires
        is_tag(line),
    ensures
        reference_in(line) matches Some(r) ==> {
            &&& r.before + r.uri + r.after == line
            &&& occurs_at(line, uri_opening(), r.before.len() - 5)
            &&& r.after.len() > 0
            &&& r.after[0] == '"'
            &&& forall|j: int| 0 <= j < r.uri.len() ==> r.uri[j] != '"'
        },
{
    lemma_find_from(line, uri_opening(), 0);
    match find_from(line, uri_opening(), 0) {
        Some(i) => {
            lemma_find_from(line, seq!['"'], i + 5);
            match find_from(line, seq!['"'], i + 5) {
                Some(j) => {
                    let r = reference_in(line).unwrap();
                    assert(r.before + r.uri + r.after =~= line);
                    assert(line.subrange(j, j + 1)[0] == line[j]);
                    assert forall|k: int| 0 <= k < r.uri.len() implies r.uri[k] != '"' by {
                        if r.uri[k] == '"' {
                            assert(line.subrange(i + 5 + k, i + 5 + k + 1) =~= seq!['"']);
                            assert(occurs_at(line, seq!['"'], i + 5 + k));
                        }
                    }
                },
                None => {},
            }
        },
        None => {},
    }
}

pub open spec fn option_view(r: Option<LineReference>) -> Option<ReferenceView> {
    match r {
        Some(x) => Some(x@),
        None => None,
    }
}

/// Finds the reference that a playlist line holds.
pub fn find_reference(line: &str) -> (r: Option<LineReference>)
    ensures
        option_view(r) == reference_in(line@),
{
    let v = chars_of(line);
    let (lo, hi) = trim_bounds(v.as_slice());
    if lo < hi && v[lo] == '#' {
        assert(trim(v@)[0] == v@[lo as int]);
        match find_uri_value(v.as_slice()) {
            Some((start, end)) => {
                let uri = slice_of(v.as_slice(), start, end);
                let before = slice_of(v.as_slice(), 0, start);
                let after = slice_of(v.as_slice(), end, v.len());
                assert(v@.subrange(0, start as int) == v@.take(start as int));
                assert(v@.subrange(end as int, v.len() as int) == v@.skip(end as int));
                Some(
                    LineReference {
                        uri: string_of(uri.as_slice()),
                        before: string_of(before.as_slice()),
                        after: string_of(after.as_slice()),
                    },
                )
            },
            None => None,
        }
    } else if lo == hi {
        None
    } else {
        assert(trim(v@)[0] == v@[lo as int]);
        let uri = slice_of(v.as_slice(), lo, hi);
        Some(LineReference { uri: string_of(uri.as_slice()), before: String::new(), after: String::new() })
    }
}

/// Writes the line anew with `local` in place of its reference.
pub fn rewrite_line(r: &LineReference, local: &str) -> (line: String)
    ensures
        line@ == rewritten(r@, local@),
{
    let mut out = chars_of(r.before.as_str());
    let middle = chars_of(local);
    append(&mut out, middle.as_slice());
    let tail = chars_of(r.after.as_str());
    append(&mut out, tail.as_slice());
    string_of(out.as_slice())
}

/// The text of a playlist with the lines `lines`: a line feed between
/// neighbours and one at the end.
pub open spec fn playlist_text(lines: Seq<Seq<char>>) -> Seq<char> {
    join(lines, seq!['\n']) + seq!['\n']
}

pub fn render_playlist(lines: &Vec<String>) -> (text: String)
    ensures
        text@ == playlist_text(texts(lines@)),
{
    let feed: Vec<char> = vec!['\n'];
    assert(feed@ == seq!['\n']);
    let mut out = join_text(lines, feed.as_slice());
    out.push('\n');
    assert(out@ == join(texts(lines@), seq!['\n']) + seq!['\n']);
    string_of(out.as_slice())
}

} // verus!
