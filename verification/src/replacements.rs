//! The substitution mapping and the interpolation of `{{key}}` placeholders.
//!
//! A placeholder token opens with `{{` and closes with the nearest `}}` that
//! follows; its key is what stands between them. Interpolation reads the
//! text once from left to right. A token whose key is in the mapping is
//! replaced by the mapped text, and reading continues after the token; the
//! inserted text is not read again. Everything else is copied as it stands.

use vstd::prelude::*;
use crate::text::{to_chars, substring};

verus! {

/// The mapping that a list of entries stands for, read from `from` on: of two
/// entries with the same key the one nearer the front counts.
pub open spec fn entries_map(entries: Seq<(Seq<char>, Seq<char>)>, from: int) -> Map<
    Seq<char>,
    Seq<char>,
>
    decreases entries.len() - from,
{
    if 0 <= from < entries.len() {
        entries_map(entries, from + 1).insert(entries[from].0, entries[from].1)
    } else {
        Map::empty()
    }
}

/// A mapping from placeholder keys to replacement texts.
#[derive(Debug)]
pub struct Replacements {
    entries: Vec<(Vec<char>, String)>,
}

impl Replacements {
    /// The entries over character sequences, newest first.
    pub closed spec fn entries(&self) -> Seq<(Seq<char>, Seq<char>)> {
        Seq::new(self.entries@.len(), |i: int| (self.entries@[i].0@, self.entries@[i].1@))
    }

    /// A mapping without entries.
    pub fn new() -> (replacements: Replacements)
        ensures
            replacements@ == Map::<Seq<char>, Seq<char>>::empty(),
    {
        Replacements { entries: Vec::new() }
    }

    /// Maps `key` to `value`. An earlier value for the same key is replaced;
    /// all other keys keep their values.
    pub fn insert(&mut self, key: &str, value: &str)
        ensures
            final(self)@ == old(self)@.insert(key@, value@),
    {
        let key_chars = to_chars(key);
        let value_text = value.to_owned();
        self.entries.insert(0, (key_chars, value_text));
        proof {
            let before = old(self).entries();
            let after = self.entries();
            assert(after.len() == before.len() + 1);
            assert(after[0] == (key@, value@));
            assert forall|i: int| 0 <= i < before.len() implies after[i + 1] == before[i] by {}
            lemma_entries_map_shift(after, before, 1, 0);
        }
    }

    /// The text that `key` is mapped to, if any.
    pub fn get(&self, key: &str) -> (found: Option<&String>)
        ensures
            found matches Some(value) ==> self@.contains_key(key@) && self@[key@] == value@,
            found is None ==> !self@.contains_key(key@),
    {
        let chars = to_chars(key);
        assert(chars@.subrange(0, chars@.len() as int) =~= key@);
        self.lookup(&chars, 0, chars.len())
    }

    /// The text that the key `chars[lo..hi]` is mapped to, if any.
    fn lookup(&self, chars: &Vec<char>, lo: usize, hi: usize) -> (found: Option<&String>)
        requires
            lo <= hi <= chars.len(),
        ensures
            found matches Some(value) ==> self@.contains_key(chars@.subrange(lo as int, hi as int))
                && self@[chars@.subrange(lo as int, hi as int)] == value@,
            found is None ==> !self@.contains_key(chars@.subrange(lo as int, hi as int)),
    {
        let ghost key = chars@.subrange(lo as int, hi as int);
        let mut index: usize = 0;
        while index < self.entries.len()
            invariant
                lo <= hi <= chars.len(),
                key == chars@.subrange(lo as int, hi as int),
                index <= self.entries.len(),
                forall|j: int| 0 <= j < index ==> (#[trigger] self.entries()[j]).0 != key,
            decreases self.entries.len() - index,
        {
            let entry = &self.entries[index];
            if same_chars(&entry.0, chars, lo, hi) {
                proof {
                    assert(self.entries()[index as int].0 == key);
                    lemma_entries_map_skip(self.entries(), key, 0, index as int);
                }
                return Some(&entry.1);
            }
            assert(self.entries()[index as int].0 != key);
            index = index + 1;
        }
        proof {
            lemma_entries_map_skip(self.entries(), key, 0, self.entries().len() as int);
        }
        None
    }
}

impl View for Replacements {
    type V = Map<Seq<char>, Seq<char>>;

    closed spec fn view(&self) -> Map<Seq<char>, Seq<char>> {
        entries_map(self.entries(), 0)
    }
}

/// Reading `longer` from `shift + from` on gives the same mapping as reading
/// `shorter` from `from` on, where `longer` is `shorter` behind `shift` more
/// entries.
proof fn lemma_entries_map_shift(
    longer: Seq<(Seq<char>, Seq<char>)>,
    shorter: Seq<(Seq<char>, Seq<char>)>,
    shift: int,
    from: int,
)
    requires
        0 <= shift,
        0 <= from,
        longer.len() == shorter.len() + shift,
        forall|i: int| 0 <= i < shorter.len() ==> longer[i + shift] == shorter[i],
    ensures
        entries_map(longer, from + shift) == entries_map(shorter, from),
    decreases shorter.len() - from,
{
    if from < shorter.len() {
        lemma_entries_map_shift(longer, shorter, shift, from + 1);
    }
}

/// Entries with other keys do not change what `key` is mapped to.
proof fn lemma_entries_map_skip(
    entries: Seq<(Seq<char>, Seq<char>)>,
    key: Seq<char>,
    from: int,
    to: int,
)
    requires
        0 <= from <= to <= entries.len(),
        forall|j: int| from <= j < to ==> (#[trigger] entries[j]).0 != key,
    ensures
        entries_map(entries, from).contains_key(key) == entries_map(entries, to).contains_key(key),
        entries_map(entries, from).contains_key(key) ==> entries_map(entries, from)[key]
            == entries_map(entries, to)[key],
    decreases to - from,
{
    if from < to {
        lemma_entries_map_skip(entries, key, from + 1, to);
    }
}

/// Whether `key` holds exactly the characters `chars[lo..hi]`.
fn same_chars(key: &Vec<char>, chars: &Vec<char>, lo: usize, hi: usize) -> (same: bool)
    requires
        lo <= hi <= chars.len(),
    ensures
        same == (key@ == chars@.subrange(lo as int, hi as int)),
{
    if key.len() != hi - lo {
        return false;
    }
    let mut index: usize = 0;
    while index < key.len()
        invariant
            lo <= hi <= chars.len(),
            key.len() == hi - lo,
            index <= key.len(),
            forall|j: int| 0 <= j < index ==> key@[j] == chars@[lo + j],
        decreases key.len() - index,
    {
        if key[index] != chars[lo + index] {
            assert(key@[index as int] != chars@.subrange(lo as int, hi as int)[index as int]);
            return false;
        }
        index = index + 1;
    }
    assert(key@ =~= chars@.subrange(lo as int, hi as int));
    true
}

/// The first position at or after `from` where `}}` stands, or the length of
/// `text` if it stands nowhere.
pub open spec fn find_close(text: Seq<char>, from: int) -> int
    decreases text.len() - from,
{
    if 0 <= from && from + 1 < text.len() {
        if text[from] == '}' && text[from + 1] == '}' {
            from
        } else {
            find_close(text, from + 1)
        }
    } else {
        text.len() as int
    }
}

/// The key of the placeholder token that starts at `at`, if one starts there.
pub open spec fn token_key(text: Seq<char>, at: int) -> Option<Seq<char>> {
    if 0 <= at && at + 1 < text.len() && text[at] == '{' && text[at + 1] == '{' && find_close(
        text,
        at + 2,
    ) < text.len() {
        Some(text.subrange(at + 2, find_close(text, at + 2)))
    } else {
        None
    }
}

/// Whether a token starts at `at` whose key the mapping holds.
pub open spec fn replaced_at(text: Seq<char>, map: Map<Seq<char>, Seq<char>>, at: int) -> bool {
    token_key(text, at) matches Some(key) && map.contains_key(key)
}

/// The interpolation of `text` from position `at` on.
pub open spec fn substitute_from(text: Seq<char>, map: Map<Seq<char>, Seq<char>>, at: int) -> Seq<
    char,
>
    decreases text.len() - at,
{
    if 0 <= at < text.len() {
        if replaced_at(text, map, at) {
            proof {
                lemma_find_close_bounds(text, at + 2);
            }
            map[token_key(text, at).unwrap()] + substitute_from(
                text,
                map,
                find_close(text, at + 2) + 2,
            )
        } else {
            seq![text[at]] + substitute_from(text, map, at + 1)
        }
    } else {
        Seq::empty()
    }
}

/// `text` with every placeholder token whose key is in `map` replaced by the
/// text that the key is mapped to.
pub open spec fn substitute(text: Seq<char>, map: Map<Seq<char>, Seq<char>>) -> Seq<char> {
    substitute_from(text, map, 0)
}

/// `text` without the pair of double quotes around it, if it stands in one.
pub open spec fn strip_quotes(text: Seq<char>) -> Seq<char> {
    if text.len() >= 2 && text[0] == '"' && text[text.len() - 1] == '"' {
        text.subrange(1, text.len() - 1)
    } else {
        text
    }
}

/// What a leaf draws for its stored text: the interpolated text, without its
/// surrounding quotes.
pub open spec fn spec_set_replacements(line: Seq<char>, map: Map<Seq<char>, Seq<char>>) -> Seq<
    char,
> {
    strip_quotes(substitute(line, map))
}

/// `find_close` returns a position of `}}` or the length of the text.
pub proof fn lemma_find_close_bounds(text: Seq<char>, from: int)
    requires
        0 <= from,
    ensures
        find_close(text, from) <= text.len(),
        from <= text.len() ==> from <= find_close(text, from),
        find_close(text, from) < text.len() ==> find_close(text, from) + 1 < text.len()
            && text[find_close(text, from)] == '}' && text[find_close(text, from) + 1] == '}',
    decreases text.len() - from,
{
    if from + 1 < text.len() {
        if !(text[from] == '}' && text[from + 1] == '}') {
            lemma_find_close_bounds(text, from + 1);
        }
    }
}

/// Text in which no token is replaced comes out of interpolation unchanged.
///
/// In particular a placeholder whose key the mapping does not hold is left in
/// the output as it was written.
pub proof fn lemma_substitute_without_match(text: Seq<char>, map: Map<Seq<char>, Seq<char>>)
    requires
        forall|at: int| 0 <= at < text.len() ==> !replaced_at(text, map, at),
    ensures
        substitute(text, map) == text,
{
    lemma_substitute_tail_without_match(text, map, 0);
    assert(text.subrange(0, text.len() as int) =~= text);
}

proof fn lemma_substitute_tail_without_match(
    text: Seq<char>,
    map: Map<Seq<char>, Seq<char>>,
    at: int,
)
    requires
        0 <= at <= text.len(),
        forall|i: int| at <= i < text.len() ==> !replaced_at(text, map, i),
    ensures
        substitute_from(text, map, at) == text.subrange(at, text.len() as int),
    decreases text.len() - at,
{
    if at < text.len() {
        lemma_substitute_tail_without_match(text, map, at + 1);
        assert(seq![text[at]] + text.subrange(at + 1, text.len() as int) =~= text.subrange(
            at,
            text.len() as int,
        ));
    } else {
        assert(text.subrange(at, text.len() as int) =~= Seq::<char>::empty());
    }
}

/// With an empty mapping interpolation changes nothing.
pub proof fn lemma_substitute_empty_map(text: Seq<char>)
    ensures
        substitute(text, Map::empty()) == text,
{
    lemma_substitute_without_match(text, Map::empty());
}

/// A token whose key the mapping holds is replaced by the mapped text, and
/// interpolation goes on behind the token.
pub proof fn lemma_substitute_token(
    text: Seq<char>,
    map: Map<Seq<char>, Seq<char>>,
    at: int,
    key: Seq<char>,
)
    requires
        0 <= at < text.len(),
        token_key(text, at) == Some(key),
        map.contains_key(key),
    ensures
        substitute_from(text, map, at) == map[key] + substitute_from(
            text,
            map,
            at + key.len() + 4,
        ),
{
    lemma_find_close_bounds(text, at + 2);
}

/// The first position at or after `from` where `}}` stands, or the length.
fn find_close_at(chars: &Vec<char>, from: usize) -> (at: usize)
    requires
        from <= chars.len(),
    ensures
        at == find_close(chars@, from as int),
        from <= at <= chars.len(),
{
    if chars.len() - from < 2 {
        return chars.len();
    }
    let last: usize = chars.len() - 1;
    let mut at: usize = from;
    while at < last && !(chars[at] == '}' && chars[at + 1] == '}')
        invariant
            last + 1 == chars.len(),
            from <= at <= last,
            find_close(chars@, from as int) == find_close(chars@, at as int),
        decreases last - at,
    {
        at = at + 1;
    }
    if at < last {
        at
    } else {
        chars.len()
    }
}

/// Replaces in `text` every placeholder token whose key `replacements` holds.
pub fn interpolate(text: &str, replacements: &Replacements) -> (out: String)
    ensures
        out@ == substitute(text@, replacements@),
{
    let chars = to_chars(text);
    let n = chars.len();
    let mut out = String::new();
    let mut run: usize = 0;
    let mut at: usize = 0;
    while at < n
        invariant
            n == chars.len(),
            chars@ == text@,
            run <= at <= n,
            out@ + chars@.subrange(run as int, at as int) + substitute_from(
                chars@,
                replacements@,
                at as int,
            ) == substitute(chars@, replacements@),
        decreases n - at,
    {
        let mut replaced = false;
        if at + 1 < n && chars[at] == '{' && chars[at + 1] == '{' {
            let close = find_close_at(&chars, at + 2);
            if close < n {
                proof {
                    lemma_find_close_bounds(chars@, at + 2);
                }
                match replacements.lookup(&chars, at + 2, close) {
                    Some(value) => {
                        let ghost before = out@;
                        let ghost key = chars@.subrange(at + 2, close as int);
                        let verbatim = text.substring_char(run, at);
                        out.append(verbatim);
                        out.append(value.as_str());
                        proof {
                            assert(token_key(chars@, at as int) == Some(key));
                            assert(replaced_at(chars@, replacements@, at as int));
                            assert(chars@.subrange(close + 2, close + 2) =~= Seq::<char>::empty());
                            assert(out@ + chars@.subrange(close + 2, close + 2) + substitute_from(
                                chars@,
                                replacements@,
                                close + 2,
                            ) =~= before + chars@.subrange(run as int, at as int) + (value@
                                + substitute_from(chars@, replacements@, close + 2)));
                        }
                        at = close + 2;
                        run = at;
                        replaced = true;
                    },
                    None => {
                        assert(!replaced_at(chars@, replacements@, at as int));
                    },
                }
            } else {
                assert(!replaced_at(chars@, replacements@, at as int));
            }
        } else {
            assert(!replaced_at(chars@, replacements@, at as int));
        }
        if !replaced {
            proof {
                assert(chars@.subrange(run as int, at + 1) =~= chars@.subrange(
                    run as int,
                    at as int,
                ) + seq![chars@[at as int]]);
                assert(out@ + chars@.subrange(run as int, at + 1) + substitute_from(
                    chars@,
                    replacements@,
                    at + 1,
                ) =~= out@ + chars@.subrange(run as int, at as int) + (seq![chars@[at as int]]
                    + substitute_from(chars@, replacements@, at + 1)));
            }
            at = at + 1;
        }
    }
    let tail = text.substring_char(run, n);
    proof {
        assert(out@ + chars@.subrange(run as int, n as int) + Seq::<char>::empty() =~= out@
            + chars@.subrange(run as int, n as int));
    }
    out.append(tail);
    out
}

/// Removes the pair of double quotes around `text`, if it stands in one.
pub fn unquote(text: String) -> (out: String)
    ensures
        out@ == strip_quotes(text@),
{
    let chars = to_chars(text.as_str());
    let n = chars.len();
    if n >= 2 && chars[0] == '"' && chars[n - 1] == '"' {
        substring(text.as_str(), 1, n - 1)
    } else {
        text
    }
}

} // verus!
