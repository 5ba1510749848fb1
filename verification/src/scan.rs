//! Scanning character sequences: occurrences, whitespace trimming, line
//! splitting and splitting at a character.
use vstd::prelude::*;

verus! {

/// `needle` occurs in `hay` starting at position `i`.
pub open spec fn occurs_at(hay: Seq<char>, needle: Seq<char>, i: int) -> bool {
    0 <= i && i + needle.len() <= hay.len() && hay.subrange(i, i + needle.len()) == needle
}

/// `hay` begins with `prefix`.
pub open spec fn starts_with(hay: Seq<char>, prefix: Seq<char>) -> bool {
    occurs_at(hay, prefix, 0)
}

/// `hay` ends with `suffix`.
pub open spec fn ends_with(hay: Seq<char>, suffix: Seq<char>) -> bool {
    occurs_at(hay, suffix, hay.len() - suffix.len())
}

/// `needle` occurs somewhere in `hay`.
pub open spec fn contains_text(hay: Seq<char>, needle: Seq<char>) -> bool {
    exists|i: int| occurs_at(hay, needle, i)
}

/// `i` is the first position at or after `from` where `needle` occurs.
pub open spec fn is_first_occurrence(hay: Seq<char>, needle: Seq<char>, from: int, i: int) -> bool {
    &&& from <= i
    &&& occurs_at(hay, needle, i)
    &&& forall|j: int| from <= j < i ==> !occurs_at(hay, needle, j)
}

/// The first position of `c` in `s`.
pub open spec fn spec_find_char(s: Seq<char>, c: char) -> Option<int>
    decreases s.len(),
{
    if s.len() == 0 {
        None
    } else if s[0] == c {
        Some(0)
    } else {
        match spec_find_char(s.drop_first(), c) {
            Some(i) => Some(i + 1),
            None => None,
        }
    }
}

/// `spec_find_char` is the first position holding the character.
pub proof fn lemma_find_char(s: Seq<char>, c: char)
    ensures
        match spec_find_char(s, c) {
            Some(i) => 0 <= i < s.len() && s[i] == c && forall|j: int| 0 <= j < i ==> s[j] != c,
            None => forall|j: int| 0 <= j < s.len() ==> s[j] != c,
        },
    decreases s.len(),
{
    if s.len() > 0 && s[0] != c {
        lemma_find_char(s.drop_first(), c);
        match spec_find_char(s.drop_first(), c) {
            Some(i) => {
                assert forall|j: int| 0 <= j < i + 1 implies s[j] != c by {
                    if j > 0 {
                        assert(s[j] == s.drop_first()[j - 1]);
                    }
                }
            },
            None => {
                assert forall|j: int| 0 <= j < s.len() implies s[j] != c by {
                    if j > 0 {
                        assert(s[j] == s.drop_first()[j - 1]);
                    }
                }
            },
        }
    }
}

/// A position with the character and none before it is what `spec_find_char` gives.
pub proof fn lemma_find_char_at(s: Seq<char>, c: char, i: int)
    requires
        0 <= i < s.len(),
        s[i] == c,
        forall|j: int| 0 <= j < i ==> s[j] != c,
    ensures
        spec_find_char(s, c) == Some(i),
{
    lemma_find_char(s, c);
    match spec_find_char(s, c) {
        Some(k) => {
            if k < i {
                assert(s[k] != c);
            } else if k > i {
                assert(s[i] != c);
            }
        },
        None => {
            assert(s[i] != c);
        },
    }
}

/// The text before and after the first occurrence of `c`.
pub open spec fn spec_split_once(s: Seq<char>, c: char) -> Option<(Seq<char>, Seq<char>)> {
    match spec_find_char(s, c) {
        Some(i) => Some((s.take(i), s.skip(i + 1))),
        None => None,
    }
}

/// The text before the first occurrence of `c`, or all of it.
pub open spec fn spec_before_char(s: Seq<char>, c: char) -> Seq<char> {
    match spec_find_char(s, c) {
        Some(i) => s.take(i),
        None => s,
    }
}

/// Unicode `White_Space`, as `char::is_whitespace` decides it.
pub open spec fn is_whitespace(c: char) -> bool {
    let u = c as u32;
    ||| 0x09 <= u <= 0x0d
    ||| u == 0x20
    ||| u == 0x85
    ||| u == 0xa0
    ||| u == 0x1680
    ||| 0x2000 <= u <= 0x200a
    ||| u == 0x2028
    ||| u == 0x2029
    ||| u == 0x202f
    ||| u == 0x205f
    ||| u == 0x3000
}

/// Whether a character is Unicode white space.
pub fn char_is_whitespace(c: char) -> (ws: bool)
    ensures
        ws == is_whitespace(c),
{
    let u = c as u32;
    (0x09 <= u && u <= 0x0d) || u == 0x20 || u == 0x85 || u == 0xa0 || u == 0x1680 || (0x2000
        <= u && u <= 0x200a) || u == 0x2028 || u == 0x2029 || u == 0x202f || u == 0x205f || u
        == 0x3000
}

/// The text without leading white space.
pub open spec fn spec_trim_start(s: Seq<char>) -> Seq<char>
    decreases s.len(),
{
    if s.len() > 0 && is_whitespace(s[0]) {
        spec_trim_start(s.drop_first())
    } else {
        s
    }
}

/// The text without trailing white space.
pub open spec fn spec_trim_end(s: Seq<char>) -> Seq<char>
    decreases s.len(),
{
    if s.len() > 0 && is_whitespace(s.last()) {
        spec_trim_end(s.drop_last())
    } else {
        s
    }
}

/// The text without leading and trailing white space.
pub open spec fn spec_trim(s: Seq<char>) -> Seq<char> {
    spec_trim_end(spec_trim_start(s))
}

/// A line as `str::lines` yields it: a `\r` before the line feed is dropped.
pub open spec fn spec_strip_cr(line: Seq<char>) -> Seq<char> {
    if line.len() > 0 && line.last() == '\r' {
        line.drop_last()
    } else {
        line
    }
}

/// The lines of a text as `str::lines` yields them: split at each line feed,
/// a `\r` before it dropped, no empty line after a final line feed.
pub open spec fn spec_lines(s: Seq<char>) -> Seq<Seq<char>>
    decreases s.len(),
{
    if s.len() == 0 {
        seq![]
    } else {
        match spec_find_char(s, '\n') {
            None => seq![s],
            Some(i) => {
                if 0 <= i < s.len() {
                    seq![spec_strip_cr(s.take(i))] + spec_lines(s.skip(i + 1))
                } else {
                    seq![]
                }
            },
        }
    }
}

/// The characters in positions `from..to`.
pub fn chars_subrange(chars: &[char], from: usize, to: usize) -> (part: Vec<char>)
    requires
        from <= to <= chars@.len(),
    ensures
        part@ == chars@.subrange(from as int, to as int),
{
    let mut part: Vec<char> = Vec::new();
    let mut i: usize = from;
    while i < to
        invariant
            from <= i <= to,
            to <= chars@.len(),
            part@ == chars@.subrange(from as int, i as int),
        decreases to - i,
    {
        part.push(chars[i]);
        assert(part@ =~= chars@.subrange(from as int, i + 1));
        i = i + 1;
    }
    part
}

/// Whether `needle` occurs in `hay` at position `at`.
pub fn occurs_at_exec(hay: &[char], needle: &[char], at: usize) -> (occurs: bool)
    ensures
        occurs == occurs_at(hay@, needle@, at as int),
{
    if at > hay.len() || needle.len() > hay.len() - at {
        return false;
    }
    let mut k: usize = 0;
    while k < needle.len()
        invariant
            at + needle@.len() <= hay@.len(),
            hay@.len() <= usize::MAX,
            0 <= k <= needle@.len(),
            forall|j: int| 0 <= j < k ==> hay@[at + j] == needle@[j],
        decreases needle@.len() - k,
    {
        if hay[at + k] != needle[k] {
            assert(hay@.subrange(at as int, at + needle@.len())[k as int] != needle@[k as int]);
            return false;
        }
        k = k + 1;
    }
    assert(hay@.subrange(at as int, at + needle@.len()) =~= needle@);
    true
}

/// The first position at or after `from` where `needle` occurs.
pub fn find_from(hay: &[char], needle: &[char], from: usize) -> (found: Option<usize>)
    ensures
        match found {
            Some(i) => is_first_occurrence(hay@, needle@, from as int, i as int),
            None => forall|j: int| from <= j ==> !occurs_at(hay@, needle@, j),
        },
{
    let mut i: usize = from;
    while i <= hay.len()
        invariant
            from <= i,
            forall|j: int| from <= j < i ==> !occurs_at(hay@, needle@, j),
        decreases hay@.len() + 1 - i,
    {
        if occurs_at_exec(hay, needle, i) {
            return Some(i);
        }
        if i == hay.len() {
            proof {
                assert forall|j: int| from <= j implies !occurs_at(hay@, needle@, j) by {
                    if j > i {
                        assert(j > hay@.len());
                    }
                }
            }
            return None;
        }
        i = i + 1;
    }
    proof {
        assert forall|j: int| from <= j implies !occurs_at(hay@, needle@, j) by {
            if j >= i {
                assert(j > hay@.len());
            }
        }
    }
    None
}

/// The first position at or after `from` where `needle` occurs.
pub open spec fn spec_first_from(hay: Seq<char>, needle: Seq<char>, from: int) -> Option<int>
    decreases hay.len() + 1 - from,
{
    if from > hay.len() {
        None
    } else if occurs_at(hay, needle, from) {
        Some(from)
    } else {
        spec_first_from(hay, needle, from + 1)
    }
}

/// `spec_first_from` is the first occurrence at or after `from`.
pub proof fn lemma_first_from(hay: Seq<char>, needle: Seq<char>, from: int)
    ensures
        match spec_first_from(hay, needle, from) {
            Some(i) => is_first_occurrence(hay, needle, from, i) && i + needle.len() <= hay.len(),
            None => forall|j: int| from <= j ==> !occurs_at(hay, needle, j),
        },
    decreases hay.len() + 1 - from,
{
    if from <= hay.len() && !occurs_at(hay, needle, from) {
        lemma_first_from(hay, needle, from + 1);
    }
}

/// The first position at or after `from` where `needle` occurs.
pub fn first_from(hay: &[char], needle: &[char], from: usize) -> (found: Option<usize>)
    ensures
        match found {
            Some(i) => spec_first_from(hay@, needle@, from as int) == Some(i as int),
            None => spec_first_from(hay@, needle@, from as int) is None,
        },
{
    proof {
        lemma_first_from(hay@, needle@, from as int);
    }
    let found = find_from(hay, needle, from);
    proof {
        match spec_first_from(hay@, needle@, from as int) {
            Some(k) => {
                match found {
                    Some(i) => {
                        if (i as int) < k {
                            assert(!occurs_at(hay@, needle@, i as int));
                        } else if (i as int) > k {
                            assert(!occurs_at(hay@, needle@, k));
                        }
                    },
                    None => {
                        assert(!occurs_at(hay@, needle@, k));
                    },
                }
            },
            None => {
                if let Some(i) = found {
                    assert(!occurs_at(hay@, needle@, i as int));
                }
            },
        }
    }
    found
}

/// Whether `hay` begins with `prefix`.
pub fn starts_with_exec(hay: &[char], prefix: &[char]) -> (starts: bool)
    ensures
        starts == starts_with(hay@, prefix@),
{
    occurs_at_exec(hay, prefix, 0)
}

/// Whether `hay` ends with `suffix`.
pub fn ends_with_exec(hay: &[char], suffix: &[char]) -> (ends: bool)
    ensures
        ends == ends_with(hay@, suffix@),
{
    if suffix.len() > hay.len() {
        return false;
    }
    occurs_at_exec(hay, suffix, hay.len() - suffix.len())
}

/// Whether `needle` occurs in `hay`.
pub fn contains_exec(hay: &[char], needle: &[char]) -> (contains: bool)
    ensures
        contains == contains_text(hay@, needle@),
{
    match find_from(hay, needle, 0) {
        Some(i) => true,
        None => false,
    }
}

/// The first position of `c`.
pub fn find_char(s: &[char], c: char) -> (found: Option<usize>)
    ensures
        match found {
            Some(i) => spec_find_char(s@, c) == Some(i as int),
            None => spec_find_char(s@, c) is None,
        },
{
    let mut i: usize = 0;
    while i < s.len()
        invariant
            0 <= i <= s@.len(),
            forall|j: int| 0 <= j < i ==> s@[j] != c,
        decreases s@.len() - i,
    {
        if s[i] == c {
            proof {
                lemma_find_char_at(s@, c, i as int);
            }
            return Some(i);
        }
        i = i + 1;
    }
    proof {
        lemma_find_char(s@, c);
        if let Some(k) = spec_find_char(s@, c) {
            assert(s@[k] != c);
        }
    }
    None
}

/// The text before and after the first occurrence of `c`.
pub fn split_once(s: &[char], c: char) -> (parts: Option<(Vec<char>, Vec<char>)>)
    ensures
        match parts {
            Some((before, after)) => spec_split_once(s@, c) == Some((before@, after@)),
            None => spec_split_once(s@, c) is None,
        },
{
    proof {
        lemma_find_char(s@, c);
    }
    match find_char(s, c) {
        Some(i) => {
            let n = s.len();
            assert(i < n);
            let before = chars_subrange(s, 0, i);
            let after = chars_subrange(s, i + 1, n);
            assert(before@ =~= s@.take(i as int));
            assert(after@ =~= s@.skip(i + 1));
            Some((before, after))
        },
        None => None,
    }
}

/// The text before the first occurrence of `c`, or all of it.
pub fn before_char(s: &[char], c: char) -> (before: Vec<char>)
    ensures
        before@ == spec_before_char(s@, c),
{
    proof {
        lemma_find_char(s@, c);
    }
    match find_char(s, c) {
        Some(i) => {
            let part = chars_subrange(s, 0, i);
            assert(part@ =~= s@.take(i as int));
            part
        },
        None => {
            let part = chars_subrange(s, 0, s.len());
            assert(part@ =~= s@);
            part
        },
    }
}

proof fn lemma_trim_start_skip(s: Seq<char>, i: int)
    requires
        0 <= i <= s.len(),
        forall|j: int| 0 <= j < i ==> is_whitespace(s[j]),
    ensures
        spec_trim_start(s) == spec_trim_start(s.skip(i)),
    decreases i,
{
    if i > 0 {
        assert(s.drop_first().skip(i - 1) =~= s.skip(i));
        lemma_trim_start_skip(s.drop_first(), i - 1);
    } else {
        assert(s.skip(0) =~= s);
    }
}

proof fn lemma_trim_end_take(s: Seq<char>, i: int)
    requires
        0 <= i <= s.len(),
        forall|j: int| i <= j < s.len() ==> is_whitespace(s[j]),
    ensures
        spec_trim_end(s) == spec_trim_end(s.take(i)),
    decreases s.len() - i,
{
    if i < s.len() {
        assert(s.drop_last().take(i) =~= s.take(i));
        lemma_trim_end_take(s.drop_last(), i);
    } else {
        assert(s.take(i) =~= s);
    }
}

/// The text without leading white space.
pub fn trim_start(s: &[char]) -> (trimmed: Vec<char>)
    ensures
        trimmed@ == spec_trim_start(s@),
{
    let mut start: usize = 0;
    while start < s.len() && char_is_whitespace(s[start])
        invariant
            0 <= start <= s@.len(),
            forall|j: int| 0 <= j < start ==> is_whitespace(s@[j]),
        decreases s@.len() - start,
    {
        start = start + 1;
    }
    proof {
        lemma_trim_start_skip(s@, start as int);
        assert(spec_trim_start(s@.skip(start as int)) == s@.skip(start as int));
        assert(s@.skip(start as int) =~= s@.subrange(start as int, s@.len() as int));
    }
    chars_subrange(s, start, s.len())
}

/// The text without leading and trailing white space.
pub fn trim(s: &[char]) -> (trimmed: Vec<char>)
    ensures
        trimmed@ == spec_trim(s@),
{
    let mut start: usize = 0;
    while start < s.len() && char_is_whitespace(s[start])
        invariant
            0 <= start <= s@.len(),
            forall|j: int| 0 <= j < start ==> is_whitespace(s@[j]),
        decreases s@.len() - start,
    {
        start = start + 1;
    }
    proof {
        lemma_trim_start_skip(s@, start as int);
        assert(spec_trim_start(s@.skip(start as int)) == s@.skip(start as int));
    }
    let ghost rest = s@.skip(start as int);
    let mut end: usize = s.len();
    while end > start && char_is_whitespace(s[end - 1])
        invariant
            start <= end <= s@.len(),
            rest == s@.skip(start as int),
            forall|j: int| end <= j < s@.len() ==> is_whitespace(s@[j]),
        decreases end - start,
    {
        end = end - 1;
    }
    proof {
        lemma_trim_end_take(rest, end - start);
        assert(rest.take(end - start) =~= s@.subrange(start as int, end as int));
        let t = rest.take(end - start);
        if t.len() > 0 {
            assert(t.last() == s@[end - 1]);
        }
    }
    chars_subrange(s, start, end)
}

/// The lines of a text, as `str::lines` splits them.
pub fn lines_of(text: &[char]) -> (lines: Vec<Vec<char>>)
    ensures
        lines@.len() == spec_lines(text@).len(),
        forall|i: int| 0 <= i < lines@.len() ==> #[trigger] lines@[i]@ == spec_lines(text@)[i],
{
    let mut lines: Vec<Vec<char>> = Vec::new();
    let mut pos: usize = 0;
    let ghost mut done: Seq<Seq<char>> = seq![];
    assert(text@.skip(0) =~= text@);
    assert(spec_lines(text@) =~= done + spec_lines(text@.skip(0)));
    while pos < text.len()
        invariant
            0 <= pos <= text@.len(),
            lines@.len() == done.len(),
            forall|i: int| 0 <= i < lines@.len() ==> #[trigger] lines@[i]@ == done[i],
            spec_lines(text@) == done + spec_lines(text@.skip(pos as int)),
        decreases text@.len() - pos,
    {
        let ghost rest = text@.skip(pos as int);
        let mut end: usize = pos;
        while end < text.len() && text[end] != '\n'
            invariant
                pos <= end <= text@.len(),
                forall|j: int| pos <= j < end ==> text@[j] != '\n',
            decreases text@.len() - end,
        {
            end = end + 1;
        }
        proof {
            lemma_find_char(rest, '\n');
        }
        if end == text.len() {
            let line = chars_subrange(text, pos, end);
            proof {
                assert(line@ =~= rest);
                if let Some(k) = spec_find_char(rest, '\n') {
                    assert(rest[k] == text@[pos + k]);
                }
                assert(spec_lines(rest) == seq![rest]);
                assert(spec_lines(text@.skip(end as int)) =~= seq![]);
                done = done.push(line@);
                assert(spec_lines(text@) =~= done + spec_lines(text@.skip(end as int)));
            }
            lines.push(line);
            pos = end;
        } else {
            let mut line_end = end;
            if line_end > pos && text[line_end - 1] == '\r' {
                line_end = line_end - 1;
            }
            let line = chars_subrange(text, pos, line_end);
            proof {
                let k = end - pos;
                assert forall|j: int| 0 <= j < k implies rest[j] != '\n' by {
                    assert(rest[j] == text@[pos + j]);
                }
                assert(rest[k] == text@[end as int]);
                lemma_find_char_at(rest, '\n', k);
                assert(rest.take(k) =~= text@.subrange(pos as int, end as int));
                assert(line@ =~= spec_strip_cr(rest.take(k)));
                assert(rest.skip(k + 1) =~= text@.skip(end + 1));
                assert(spec_lines(rest) == seq![spec_strip_cr(rest.take(k))] + spec_lines(
                    rest.skip(k + 1),
                ));
                done = done.push(line@);
                assert(spec_lines(text@) =~= done + spec_lines(text@.skip(end + 1)));
            }
            lines.push(line);
            pos = end + 1;
        }
    }
    proof {
        assert(text@.skip(pos as int).len() == 0);
        assert(spec_lines(text@) =~= done);
    }
    lines
}

} // verus!
