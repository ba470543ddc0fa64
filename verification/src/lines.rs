//! The line scanner: from the text of a template to its significant lines.
//!
//! Lines end at a line feed; a carriage return directly before that line feed
//! belongs to the line ending. Blank lines and comment lines are left out,
//! but they count: a line keeps the number it has in the text.

use vstd::prelude::*;
use crate::text::{
    count_indentation, find, find_char, indentation, is_significant, is_significant_line,
    lemma_find_bounds, lemma_find_shift, substring, to_chars,
};

verus! {

/// A significant line of a template.
#[derive(Debug)]
pub struct Line {
    /// The line as written, without its line ending.
    pub text: String,
    /// The number of spaces before its first other character.
    pub indentation: usize,
    /// Its number in the template, counted from 1.
    pub number: usize,
}

/// A [`Line`] over a character sequence.
pub struct LineView {
    pub text: Seq<char>,
    pub indentation: nat,
    pub number: nat,
}

impl View for Line {
    type V = LineView;

    open spec fn view(&self) -> LineView {
        LineView {
            text: self.text@,
            indentation: self.indentation as nat,
            number: self.number as nat,
        }
    }
}

/// The views of a list of lines.
pub open spec fn line_views(lines: Seq<Line>) -> Seq<LineView> {
    Seq::new(lines.len(), |i: int| lines[i]@)
}

/// Where the line that starts at `from` stops: at the line feed that ends it,
/// or before the carriage return in front of that line feed, or at the end of
/// the text.
pub open spec fn line_stop(text: Seq<char>, from: int) -> int {
    let feed = find(text, '\n', from, text.len() as int);
    if from < feed < text.len() && text[feed - 1] == '\r' {
        feed - 1
    } else {
        feed
    }
}

/// The significant lines of `text` from position `from` on, where the line
/// that starts at `from` has the number `number`.
pub open spec fn scan_from(text: Seq<char>, from: int, number: nat) -> Seq<LineView>
    decreases text.len() - from,
{
    if 0 <= from < text.len() {
        proof {
            lemma_find_bounds(text, '\n', from, text.len() as int);
        }
        let raw = text.subrange(from, line_stop(text, from));
        let feed = find(text, '\n', from, text.len() as int);
        let rest = if feed < text.len() {
            scan_from(text, feed + 1, number + 1)
        } else {
            Seq::empty()
        };
        if is_significant(raw) {
            seq![LineView { text: raw, indentation: indentation(raw), number }] + rest
        } else {
            rest
        }
    } else {
        Seq::empty()
    }
}

/// The significant lines of `text`, in order, each with its indentation and
/// its number in `text`.
pub open spec fn scan(text: Seq<char>) -> Seq<LineView> {
    scan_from(text, 0, 1)
}

/// What is scanned from a position on depends only on the text from that
/// position on.
pub proof fn lemma_scan_shift(text: Seq<char>, from: int, number: nat)
    requires
        0 <= from <= text.len(),
    ensures
        scan_from(text, from, number) == scan_from(text.skip(from), 0, number),
    decreases text.len() - from,
{
    let tail = text.skip(from);
    if from < text.len() {
        let n = text.len() as int;
        let feed = find(text, '\n', from, n);
        let tail_feed = find(tail, '\n', 0, n - from);
        lemma_find_shift(text, '\n', from, 0, n - from);
        lemma_find_bounds(text, '\n', from, n);
        assert(tail_feed + from == feed);
        if from < feed {
            assert(tail[tail_feed - 1] == text[feed - 1]);
        }
        assert(line_stop(tail, 0) + from == line_stop(text, from));
        assert(tail.subrange(0, line_stop(tail, 0)) =~= text.subrange(from, line_stop(text, from)));
        if feed < n {
            lemma_scan_shift(text, feed + 1, number + 1);
            lemma_scan_shift(tail, tail_feed + 1, number + 1);
            assert(tail.skip(tail_feed + 1) =~= text.skip(feed + 1));
        }
    }
}

/// Scans `text` into its significant lines.
pub fn scan_lines(text: &str) -> (lines: Vec<Line>)
    ensures
        line_views(lines@) == scan(text@),
{
    let chars = to_chars(text);
    let n = chars.len();
    let mut lines: Vec<Line> = Vec::new();
    let mut from: usize = 0;
    let mut number: usize = 1;
    while from < n
        invariant
            n == chars.len(),
            chars@ == text@,
            from <= n,
            number <= from + 1,
            line_views(lines@) + scan_from(text@, from as int, number as nat) == scan(text@),
        decreases n - from,
    {
        let feed = find_char(&chars, '\n', from, n);
        let stop = if from < feed && feed < n && chars[feed - 1] == '\r' {
            feed - 1
        } else {
            feed
        };
        let raw = substring(text, from, stop);
        let raw_chars = to_chars(raw.as_str());
        let ghost before = line_views(lines@);
        let ghost rest = if feed < n {
            scan_from(text@, feed + 1, (number + 1) as nat)
        } else {
            Seq::empty()
        };
        if is_significant_line(&raw_chars) {
            let indentation = count_indentation(&raw_chars);
            let line = Line { text: raw, indentation, number };
            lines.push(line);
            proof {
                assert(line_views(lines@) =~= before.push(line@));
                assert(before.push(line@) + rest =~= before + (seq![line@] + rest));
            }
        }
        from = if feed < n {
            feed + 1
        } else {
            n
        };
        if from < n {
            number = number + 1;
        }
    }
    assert(line_views(lines@) + Seq::<LineView>::empty() =~= line_views(lines@));
    lines
}

} // verus!
