//! Text helpers: strings as sequences of characters.

use vstd::prelude::*;
use vstd::std_specs::iter::IteratorSpec;

verus! {

/// The characters of a string, in order.
pub fn chars_of(text: &str) -> (result: Vec<char>)
    ensures
        result@ == text@,
{
    broadcast use vstd::string::group_string_axioms;

    let mut result: Vec<char> = Vec::new();
    let mut rest = text.chars();
    loop
        invariant
            result@ + rest.remaining() == text@,
        ensures
            result@ == text@,
        decreases text@.len() - result@.len(),
    {
        match rest.next() {
            Some(c) => {
                result.push(c);
            },
            None => {
                break ;
            },
        }
    }
    result
}

/// Assumed of `String::push`, as its documentation says: it appends the
/// character to the end of the string.
pub assume_specification[ String::push ](text: &mut String, c: char)
    ensures
        final(text)@ == old(text)@.push(c),
;

/// Copies the characters `chars[from..to]`.
pub fn copy_range(chars: &Vec<char>, from: usize, to: usize) -> (result: Vec<char>)
    requires
        from <= to <= chars.len(),
    ensures
        result@ == chars@.subrange(from as int, to as int),
{
    let mut result: Vec<char> = Vec::new();
    let mut i: usize = from;
    while i < to
        invariant
            from <= i <= to <= chars.len(),
            result@ == chars@.subrange(from as int, i as int),
        decreases to - i,
    {
        result.push(chars[i]);
        i += 1;
    }
    result
}

/// Whether `c` is white space: the characters with the Unicode property
/// `White_Space`.
pub open spec fn is_space(c: char) -> bool {
    ||| '\u{9}' <= c <= '\u{D}'
    ||| c == ' '
    ||| c == '\u{85}'
    ||| c == '\u{A0}'
    ||| c == '\u{1680}'
    ||| '\u{2000}' <= c <= '\u{200A}'
    ||| c == '\u{2028}'
    ||| c == '\u{2029}'
    ||| c == '\u{202F}'
    ||| c == '\u{205F}'
    ||| c == '\u{3000}'
}

/// Whether `c` is white space.
pub fn is_space_char(c: char) -> (result: bool)
    ensures
        result == is_space(c),
{
    ('\u{9}' <= c && c <= '\u{D}') || c == ' ' || c == '\u{85}' || c == '\u{A0}' || c
        == '\u{1680}' || ('\u{2000}' <= c && c <= '\u{200A}') || c == '\u{2028}' || c
        == '\u{2029}' || c == '\u{202F}' || c == '\u{205F}' || c == '\u{3000}'
}

/// The kinds of runs that a text is cut into.
#[derive(Clone, Copy, Debug, PartialEq, Eq, Structural)]
pub enum Run {
    /// White space.
    Spaces,
    /// Anything but white space.
    Word,
    /// Anything but a line feed.
    Line,
}

impl Run {
    /// Whether `c` belongs to a run of this kind.
    pub open spec fn holds(self, c: char) -> bool {
        match self {
            Run::Spaces => is_space(c),
            Run::Word => !is_space(c),
            Run::Line => c != '\n',
        }
    }

    /// Whether `c` belongs to a run of this kind.
    pub fn has(&self, c: char) -> (result: bool)
        ensures
            result == self.holds(c),
    {
        match self {
            Run::Spaces => is_space_char(c),
            Run::Word => !is_space_char(c),
            Run::Line => c != '\n',
        }
    }
}

/// The index just past the run of the given kind that starts at `from`.
pub open spec fn run_end(text: Seq<char>, from: int, run: Run) -> int
    decreases text.len() - from,
{
    if 0 <= from < text.len() && run.holds(text[from]) {
        run_end(text, from + 1, run)
    } else {
        from
    }
}

/// A run ends where the text ends or where a character of another kind
/// stands, and holds characters of its kind only.
pub proof fn lemma_run_end(text: Seq<char>, from: int, run: Run)
    requires
        0 <= from <= text.len(),
    ensures
        from <= run_end(text, from, run) <= text.len(),
        forall|i: int| from <= i < run_end(text, from, run) ==> run.holds(#[trigger] text[i]),
        run_end(text, from, run) < text.len() ==> !run.holds(text[run_end(text, from, run)]),
    decreases text.len() - from,
{
    if from < text.len() && run.holds(text[from]) {
        lemma_run_end(text, from + 1, run);
    }
}

/// Finds the end of the run of the given kind that starts at `from`.
pub fn find_run_end(chars: &Vec<char>, from: usize, run: Run) -> (result: usize)
    requires
        from <= chars.len(),
    ensures
        result == run_end(chars@, from as int, run),
        from <= result <= chars.len(),
{
    let mut i: usize = from;
    while i < chars.len() && run.has(chars[i])
        invariant
            from <= i <= chars.len(),
            run_end(chars@, from as int, run) == run_end(chars@, i as int, run),
        decreases chars.len() - i,
    {
        i += 1;
    }
    i
}

/// The length of the text without the white space at its end.
pub open spec fn trimmed_len(text: Seq<char>) -> int
    decreases text.len(),
{
    if text.len() > 0 && is_space(text.last()) {
        trimmed_len(text.drop_last())
    } else {
        text.len() as int
    }
}

/// The text without the white space at its start and at its end.
pub open spec fn trimmed(text: Seq<char>) -> Seq<char> {
    let kept = text.take(trimmed_len(text));
    kept.skip(run_end(kept, 0, Run::Spaces))
}

/// The characters of `chars` without the white space at both ends.
pub fn trim(chars: &Vec<char>) -> (result: Vec<char>)
    ensures
        result@ == trimmed(chars@),
{
    let mut end: usize = chars.len();
    proof {
        assert(chars@.take(end as int) =~= chars@);
    }
    while end > 0 && is_space_char(chars[end - 1])
        invariant
            end <= chars.len(),
            trimmed_len(chars@) == trimmed_len(chars@.take(end as int)),
        decreases end,
    {
        proof {
            assert(chars@.take(end as int).drop_last() =~= chars@.take(end - 1));
        }
        end -= 1;
    }
    let kept = copy_range(chars, 0, end);
    proof {
        assert(kept@ =~= chars@.take(end as int));
    }
    let start = find_run_end(&kept, 0, Run::Spaces);
    let result = copy_range(&kept, start, end);
    proof {
        assert(kept@.subrange(start as int, end as int) =~= kept@.skip(start as int));
    }
    result
}

/// Whether `part` occurs in `text` as a run of neighbouring characters.
pub open spec fn has_part(text: Seq<char>, part: Seq<char>) -> bool {
    exists|at: int| occurs_at(text, part, at)
}

/// Whether `part` stands in `text` from the index `at` on.
pub open spec fn occurs_at(text: Seq<char>, part: Seq<char>, at: int) -> bool {
    0 <= at && at + part.len() <= text.len() && text.subrange(at, at + part.len()) == part
}

/// Whether `part` stands in `chars` from the index `at` on.
pub fn matches_at(chars: &Vec<char>, part: &Vec<char>, at: usize) -> (result: bool)
    requires
        at + part.len() <= chars.len(),
    ensures
        result == occurs_at(chars@, part@, at as int),
{
    let mut k: usize = 0;
    while k < part.len()
        invariant
            k <= part.len(),
            at + part.len() <= chars.len(),
            chars@.subrange(at as int, at + k) == part@.take(k as int),
        decreases part.len() - k,
    {
        if chars[at + k] != part[k] {
            proof {
                let whole = chars@.subrange(at as int, at + part.len());
                assert(whole[k as int] != part@[k as int]);
            }
            return false;
        }
        proof {
            assert(chars@.subrange(at as int, at + k + 1) =~= chars@.subrange(
                at as int,
                at + k,
            ).push(chars@[at + k]));
            assert(part@.take(k + 1) =~= part@.take(k as int).push(part@[k as int]));
        }
        k += 1;
    }
    proof {
        assert(part@.take(part.len() as int) =~= part@);
    }
    true
}

/// Whether `part` occurs in `chars`.
pub fn contains(chars: &Vec<char>, part: &Vec<char>) -> (result: bool)
    ensures
        result == has_part(chars@, part@),
{
    if part.len() > chars.len() {
        return false;
    }
    let last: usize = chars.len() - part.len();
    let mut at: usize = 0;
    loop
        invariant
            at <= last,
            last == chars.len() - part.len(),
            forall|i: int| 0 <= i < at ==> !occurs_at(chars@, part@, i),
        ensures
            at == last,
            forall|i: int| 0 <= i <= last ==> !occurs_at(chars@, part@, i),
        decreases last - at,
    {
        if matches_at(chars, part, at) {
            return true;
        }
        if at == last {
            break ;
        }
        at += 1;
    }
    false
}

} // verus!
