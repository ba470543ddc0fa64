//! Character-level building blocks of the template language: white space,
//! trimming, indentation, and the three shapes a significant line can have.
//!
//! Everything here is stated over `Seq<char>`, the view of a string. Positions
//! are character positions, never byte offsets.

use vstd::prelude::*;

verus! {

/// The characters that Unicode classes as `White_Space`.
pub open spec fn is_whitespace(c: char) -> bool {
    let code = c as u32;
    ||| 0x09 <= code <= 0x0D
    ||| code == 0x20
    ||| code == 0x85
    ||| code == 0xA0
    ||| code == 0x1680
    ||| 0x2000 <= code <= 0x200A
    ||| code == 0x2028
    ||| code == 0x2029
    ||| code == 0x202F
    ||| code == 0x205F
    ||| code == 0x3000
}

/// The first position in `lo..hi` that holds no white space, or `hi` if all do.
pub open spec fn trim_start(s: Seq<char>, lo: int, hi: int) -> int
    decreases hi - lo,
{
    if 0 <= lo < hi <= s.len() && is_whitespace(s[lo]) {
        trim_start(s, lo + 1, hi)
    } else {
        lo
    }
}

/// The position just past the last character in `lo..hi` that is no white
/// space, or `lo` if all are.
pub open spec fn trim_end(s: Seq<char>, lo: int, hi: int) -> int
    decreases hi - lo,
{
    if 0 <= lo < hi <= s.len() && is_whitespace(s[hi - 1]) {
        trim_end(s, lo, hi - 1)
    } else {
        hi
    }
}

/// The characters of `lo..hi` without the white space at either end.
pub open spec fn trimmed(s: Seq<char>, lo: int, hi: int) -> Seq<char> {
    s.subrange(trim_start(s, lo, hi), trim_end(s, trim_start(s, lo, hi), hi))
}

/// The first position in `lo..hi` that holds `c`, or `hi` if none does.
pub open spec fn find(s: Seq<char>, c: char, lo: int, hi: int) -> int
    decreases hi - lo,
{
    if 0 <= lo < hi <= s.len() && s[lo] != c {
        find(s, c, lo + 1, hi)
    } else {
        lo
    }
}

/// The number of space characters before the first character that is not a
/// space. A tab is not a space.
pub open spec fn indentation(s: Seq<char>) -> nat {
    find_not_space(s, 0) as nat
}

/// The first position at or after `lo` that holds no space character.
pub open spec fn find_not_space(s: Seq<char>, lo: int) -> int
    decreases s.len() - lo,
{
    if 0 <= lo < s.len() && s[lo] == ' ' {
        find_not_space(s, lo + 1)
    } else {
        lo
    }
}

/// A line is a comment when the first two characters after its leading white
/// space are `//`.
pub open spec fn is_comment(line: Seq<char>) -> bool {
    let start = trim_start(line, 0, line.len() as int);
    start + 1 < line.len() && line[start] == '/' && line[start + 1] == '/'
}

/// A line is blank when it holds nothing but white space.
pub open spec fn is_blank(line: Seq<char>) -> bool {
    trim_start(line, 0, line.len() as int) == line.len()
}

/// A line is significant when it is neither blank nor a comment.
pub open spec fn is_significant(line: Seq<char>) -> bool {
    !is_blank(line) && !is_comment(line)
}

/// The shape of a significant line, over character sequences.
pub enum LineKindView {
    /// `name:` opens the block of a widget of the named kind.
    Declaration { name: Seq<char> },
    /// `key: value` sets an attribute of the enclosing widget.
    Attribute { key: Seq<char>, value: Seq<char> },
    /// Anything without a colon.
    Other,
}

/// The shape of a significant line.
#[derive(Debug)]
pub enum LineKind {
    /// `name:` opens the block of a widget of the named kind.
    Declaration { name: String },
    /// `key: value` sets an attribute of the enclosing widget.
    Attribute { key: String, value: String },
    /// Anything without a colon.
    Other,
}

impl View for LineKind {
    type V = LineKindView;

    open spec fn view(&self) -> LineKindView {
        match self {
            LineKind::Declaration { name } => LineKindView::Declaration { name: name@ },
            LineKind::Attribute { key, value } => LineKindView::Attribute {
                key: key@,
                value: value@,
            },
            LineKind::Other => LineKindView::Other,
        }
    }
}

/// Classifies a line by its colons, white space at both ends set aside.
///
/// A line whose last character is a colon declares a widget; its name is what
/// stands before that colon, trimmed. Any other line that holds a colon sets
/// an attribute: the key is what stands before the first colon and the value
/// what stands after it, both trimmed. A line without a colon is neither.
pub open spec fn classify(line: Seq<char>) -> LineKindView {
    let start = trim_start(line, 0, line.len() as int);
    let end = trim_end(line, start, line.len() as int);
    if start < end && line[end - 1] == ':' {
        LineKindView::Declaration { name: trimmed(line, start, end - 1) }
    } else {
        let colon = find(line, ':', start, end);
        if colon < end {
            LineKindView::Attribute {
                key: trimmed(line, start, colon),
                value: trimmed(line, colon + 1, end),
            }
        } else {
            LineKindView::Other
        }
    }
}

/// `find` stays within the range it is given, and nothing before the position
/// it returns is the character sought.
pub proof fn lemma_find_bounds(s: Seq<char>, c: char, lo: int, hi: int)
    requires
        0 <= lo <= hi <= s.len(),
    ensures
        lo <= find(s, c, lo, hi) <= hi,
        forall|i: int| lo <= i < find(s, c, lo, hi) ==> #[trigger] s[i] != c,
        find(s, c, lo, hi) < hi ==> s[find(s, c, lo, hi)] == c,
    decreases hi - lo,
{
    if lo < hi && s[lo] != c {
        lemma_find_bounds(s, c, lo + 1, hi);
    }
}

/// `trim_start` returns `at` when everything before `at` is white space and
/// `at` is the end of the range or holds something else.
pub proof fn lemma_trim_start_is(s: Seq<char>, lo: int, hi: int, at: int)
    requires
        0 <= lo <= at <= hi <= s.len(),
        forall|i: int| lo <= i < at ==> is_whitespace(#[trigger] s[i]),
        at == hi || !is_whitespace(s[at]),
    ensures
        trim_start(s, lo, hi) == at,
    decreases at - lo,
{
    if lo < at {
        lemma_trim_start_is(s, lo + 1, hi, at);
    }
}

/// `trim_end` returns `at` when everything from `at` on is white space and
/// `at` is the start of the range or follows something else.
pub proof fn lemma_trim_end_is(s: Seq<char>, lo: int, hi: int, at: int)
    requires
        0 <= lo <= at <= hi <= s.len(),
        forall|i: int| at <= i < hi ==> is_whitespace(#[trigger] s[i]),
        at == lo || !is_whitespace(s[at - 1]),
    ensures
        trim_end(s, lo, hi) == at,
    decreases hi - at,
{
    if at < hi {
        lemma_trim_end_is(s, lo, hi - 1, at);
    }
}

/// `find` returns `at` when nothing before `at` is the character sought and
/// `at` is the end of the range or holds it.
pub proof fn lemma_find_is(s: Seq<char>, c: char, lo: int, hi: int, at: int)
    requires
        0 <= lo <= at <= hi <= s.len(),
        forall|i: int| lo <= i < at ==> #[trigger] s[i] != c,
        at == hi || s[at] == c,
    ensures
        find(s, c, lo, hi) == at,
    decreases at - lo,
{
    if lo < at {
        lemma_find_is(s, c, lo + 1, hi, at);
    }
}

/// The indentation of a line is `at` when it begins with `at` spaces and
/// ends there or goes on with something else.
pub proof fn lemma_indentation_is(s: Seq<char>, at: int)
    requires
        0 <= at <= s.len(),
        forall|i: int| 0 <= i < at ==> #[trigger] s[i] == ' ',
        at == s.len() || s[at] != ' ',
    ensures
        indentation(s) == at,
{
    lemma_find_not_space_is(s, 0, at);
}

proof fn lemma_find_not_space_is(s: Seq<char>, lo: int, at: int)
    requires
        0 <= lo <= at <= s.len(),
        forall|i: int| lo <= i < at ==> #[trigger] s[i] == ' ',
        at == s.len() || s[at] != ' ',
    ensures
        find_not_space(s, lo) == at,
    decreases at - lo,
{
    if lo < at {
        lemma_find_not_space_is(s, lo + 1, at);
    }
}

/// Searching a text behind its first `k` characters is searching the whole
/// text `k` positions further on.
pub proof fn lemma_find_shift(s: Seq<char>, c: char, k: int, lo: int, hi: int)
    requires
        0 <= k,
        0 <= lo <= hi,
        hi + k <= s.len(),
    ensures
        find(s.skip(k), c, lo, hi) + k == find(s, c, lo + k, hi + k),
    decreases hi - lo,
{
    if lo < hi {
        assert(s.skip(k)[lo] == s[lo + k]);
        if s[lo + k] != c {
            lemma_find_shift(s, c, k, lo + 1, hi);
        }
    }
}

/// Whether Unicode classes `c` as `White_Space`.
pub fn is_whitespace_char(c: char) -> (b: bool)
    ensures
        b == is_whitespace(c),
{
    let code: u32 = c as u32;
    (0x09 <= code && code <= 0x0D) || code == 0x20 || code == 0x85 || code == 0xA0 || code
        == 0x1680 || (0x2000 <= code && code <= 0x200A) || code == 0x2028 || code == 0x2029
        || code == 0x202F || code == 0x205F || code == 0x3000
}

/// The characters of `s`, in order.
pub fn to_chars(s: &str) -> (chars: Vec<char>)
    ensures
        chars@ == s@,
{
    let mut chars: Vec<char> = Vec::new();
    for c in it: s.chars()
        invariant
            chars@ == it.seq().take(it.index() as int),
            it.seq() == s@,
    {
        chars.push(c);
    }
    chars
}

/// The first position in `lo..hi` that holds no white space, or `hi`.
fn skip_whitespace(chars: &Vec<char>, lo: usize, hi: usize) -> (at: usize)
    requires
        lo <= hi <= chars.len(),
    ensures
        at == trim_start(chars@, lo as int, hi as int),
        lo <= at <= hi,
{
    let mut at: usize = lo;
    while at < hi && is_whitespace_char(chars[at])
        invariant
            lo <= at <= hi <= chars.len(),
            trim_start(chars@, lo as int, hi as int) == trim_start(chars@, at as int, hi as int),
        decreases hi - at,
    {
        at = at + 1;
    }
    at
}

/// The position just past the last character in `lo..hi` that is no white
/// space, or `lo`.
fn skip_whitespace_back(chars: &Vec<char>, lo: usize, hi: usize) -> (at: usize)
    requires
        lo <= hi <= chars.len(),
    ensures
        at == trim_end(chars@, lo as int, hi as int),
        lo <= at <= hi,
{
    let mut at: usize = hi;
    while lo < at && is_whitespace_char(chars[at - 1])
        invariant
            lo <= at <= hi <= chars.len(),
            trim_end(chars@, lo as int, hi as int) == trim_end(chars@, lo as int, at as int),
        decreases at - lo,
    {
        at = at - 1;
    }
    at
}

/// The first position in `lo..hi` that holds `c`, or `hi`.
pub(crate) fn find_char(chars: &Vec<char>, c: char, lo: usize, hi: usize) -> (at: usize)
    requires
        lo <= hi <= chars.len(),
    ensures
        at == find(chars@, c, lo as int, hi as int),
        lo <= at <= hi,
{
    let mut at: usize = lo;
    while at < hi && chars[at] != c
        invariant
            lo <= at <= hi <= chars.len(),
            find(chars@, c, lo as int, hi as int) == find(chars@, c, at as int, hi as int),
        decreases hi - at,
    {
        at = at + 1;
    }
    at
}

/// The number of leading space characters of `chars`.
pub fn count_indentation(chars: &Vec<char>) -> (count: usize)
    ensures
        count == indentation(chars@),
        count <= chars.len(),
{
    let mut at: usize = 0;
    while at < chars.len() && chars[at] == ' '
        invariant
            at <= chars.len(),
            find_not_space(chars@, 0) == find_not_space(chars@, at as int),
        decreases chars.len() - at,
    {
        at = at + 1;
    }
    at
}

/// Whether a line is neither blank nor a comment.
pub fn is_significant_line(chars: &Vec<char>) -> (b: bool)
    ensures
        b == is_significant(chars@),
{
    let start = skip_whitespace(chars, 0, chars.len());
    if start == chars.len() {
        false
    } else {
        !(start + 1 < chars.len() && chars[start] == '/' && chars[start + 1] == '/')
    }
}

/// Whether two strings hold the same characters.
pub fn same_text(a: &str, b: &str) -> (same: bool)
    ensures
        same == (a@ == b@),
{
    let left = to_chars(a);
    let right = to_chars(b);
    if left.len() != right.len() {
        return false;
    }
    let mut index: usize = 0;
    while index < left.len()
        invariant
            left@ == a@,
            right@ == b@,
            left.len() == right.len(),
            index <= left.len(),
            forall|j: int| 0 <= j < index ==> left@[j] == right@[j],
        decreases left.len() - index,
    {
        if left[index] != right[index] {
            assert(a@[index as int] != b@[index as int]);
            return false;
        }
        index = index + 1;
    }
    assert(left@ =~= right@);
    true
}

/// The characters `lo..hi` of `line` as a string of their own.
pub(crate) fn substring(line: &str, lo: usize, hi: usize) -> (part: String)
    requires
        lo <= hi <= line@.len(),
    ensures
        part@ == line@.subrange(lo as int, hi as int),
{
    line.substring_char(lo, hi).to_owned()
}

/// The characters of `lo..hi`, trimmed, as a string of their own.
fn trimmed_substring(line: &str, chars: &Vec<char>, lo: usize, hi: usize) -> (part: String)
    requires
        chars@ == line@,
        lo <= hi <= chars.len(),
    ensures
        part@ == trimmed(line@, lo as int, hi as int),
{
    let start = skip_whitespace(chars, lo, hi);
    let end = skip_whitespace_back(chars, start, hi);
    substring(line, start, end)
}

/// Classifies a line as a widget declaration, an attribute or neither.
pub fn classify_line(line: &str) -> (kind: LineKind)
    ensures
        kind@ == classify(line@),
{
    let chars = to_chars(line);
    let start = skip_whitespace(&chars, 0, chars.len());
    let end = skip_whitespace_back(&chars, start, chars.len());
    if start < end && chars[end - 1] == ':' {
        LineKind::Declaration { name: trimmed_substring(line, &chars, start, end - 1) }
    } else {
        let colon = find_char(&chars, ':', start, end);
        if colon < end {
            let key = trimmed_substring(line, &chars, start, colon);
            let value = trimmed_substring(line, &chars, colon + 1, end);
            LineKind::Attribute { key, value }
        } else {
            LineKind::Other
        }
    }
}

} // verus!
