//! Lines of text, and the white space around them.
use vstd::prelude::*;

verus! {

/// The lines of a text, without the line feeds at their ends.
pub open spec fn lines_of(text: Seq<char>) -> Seq<Seq<char>>
    decreases text.len(),
{
    if text.len() == 0 {
        Seq::empty()
    } else if text[0] == '\n' {
        seq![Seq::<char>::empty()] + lines_of(text.drop_first())
    } else {
        let rest = lines_of(text.drop_first());
        if rest.len() == 0 {
            seq![seq![text[0]]]
        } else {
            seq![seq![text[0]] + rest[0]] + rest.drop_first()
        }
    }
}

/// The first line of a text ends at its first line feed.
pub proof fn lemma_first_line(line: Seq<char>, rest: Seq<char>)
    requires
        !line.contains('\n'),
    ensures
        lines_of(line + "\n"@ + rest) == seq![line] + lines_of(rest),
    decreases line.len(),
{
    reveal_strlit("\n");
    let text = line + "\n"@ + rest;
    if line.len() == 0 {
        assert(text.drop_first() =~= rest);
        assert(line =~= Seq::<char>::empty());
    } else {
        let tail = line.drop_first();
        assert forall|i: int| 0 <= i < tail.len() implies tail[i] != '\n' by {
            assert(line.contains(line[i + 1]));
        }
        lemma_first_line(tail, rest);
        assert(line.contains(line[0]));
        assert(text.drop_first() =~= tail + "\n"@ + rest);
        let below = seq![tail] + lines_of(rest);
        assert(below.drop_first() =~= lines_of(rest));
        assert(seq![text[0]] + tail =~= line);
    }
}

/// A text without line feeds is one line, unless it is empty.
pub proof fn lemma_only_line(line: Seq<char>)
    requires
        !line.contains('\n'),
    ensures
        lines_of(line) == (if line.len() == 0 {
            Seq::<Seq<char>>::empty()
        } else {
            seq![line]
        }),
    decreases line.len(),
{
    if line.len() > 0 {
        let tail = line.drop_first();
        assert(line.contains(line[0]));
        assert forall|i: int| 0 <= i < tail.len() implies tail[i] != '\n' by {
            assert(line.contains(line[i + 1]));
        }
        lemma_only_line(tail);
        if tail.len() == 0 {
            assert(seq![line[0]] =~= line);
        } else {
            assert(seq![line[0]] + tail =~= line);
            assert(seq![tail].drop_first() =~= Seq::<Seq<char>>::empty());
            assert(seq![line] + Seq::<Seq<char>>::empty() =~= seq![line]);
        }
    }
}

/// Whether Unicode counts a character as white space.
pub open spec fn white_space(c: char) -> bool {
    let n = c as u32;
    ||| 0x09 <= n <= 0x0d
    ||| n == 0x20
    ||| n == 0x85
    ||| n == 0xa0
    ||| n == 0x1680
    ||| 0x2000 <= n <= 0x200a
    ||| n == 0x2028
    ||| n == 0x2029
    ||| n == 0x202f
    ||| n == 0x205f
    ||| n == 0x3000
}

/// Whether Unicode counts a character as white space.
pub fn is_white_space(c: char) -> (white: bool)
    ensures
        white == white_space(c),
{
    let n: u32 = c as u32;
    (0x09 <= n && n <= 0x0d) || n == 0x20 || n == 0x85 || n == 0xa0 || n == 0x1680 || (0x2000 <= n
        && n <= 0x200a) || n == 0x2028 || n == 0x2029 || n == 0x202f || n == 0x205f || n == 0x3000
}

/// A text without the white space at its start.
pub open spec fn trimmed_start(text: Seq<char>) -> Seq<char>
    decreases text.len(),
{
    if text.len() > 0 && white_space(text[0]) {
        trimmed_start(text.drop_first())
    } else {
        text
    }
}

/// A text without the white space at its end.
pub open spec fn trimmed_end(text: Seq<char>) -> Seq<char>
    decreases text.len(),
{
    if text.len() > 0 && white_space(text.last()) {
        trimmed_end(text.drop_last())
    } else {
        text
    }
}

/// A text without the white space around it.
pub open spec fn trimmed(text: Seq<char>) -> Seq<char> {
    trimmed_end(trimmed_start(text))
}

/// The part of a text from `from` to `to`, without the white space around it.
pub(crate) fn trim(text: &str, from: usize, to: usize) -> (part: &str)
    requires
        from <= to <= text@.len(),
    ensures
        part@ == trimmed(text@.subrange(from as int, to as int)),
{
    let ghost whole = text@.subrange(from as int, to as int);
    let mut start: usize = from;
    while start < to && is_white_space(text.get_char(start))
        invariant
            from <= start <= to <= text@.len(),
            trimmed_start(text@.subrange(start as int, to as int)) == trimmed_start(whole),
        decreases to - start,
    {
        let ghost part = text@.subrange(start as int, to as int);
        start = start + 1;
        assert(part.drop_first() =~= text@.subrange(start as int, to as int));
    }
    let ghost rest = text@.subrange(start as int, to as int);
    let mut end: usize = to;
    while start < end && is_white_space(text.get_char(end - 1))
        invariant
            start <= end <= to <= text@.len(),
            trimmed_end(text@.subrange(start as int, end as int)) == trimmed_end(rest),
        decreases end - start,
    {
        let ghost part = text@.subrange(start as int, end as int);
        end = end - 1;
        assert(part.drop_last() =~= text@.subrange(start as int, end as int));
    }
    text.substring_char(start, end)
}

/// Lines put together again, each with a line feed at its end.
pub open spec fn unlines(lines: Seq<Seq<char>>) -> Seq<char>
    decreases lines.len(),
{
    if lines.len() == 0 {
        Seq::empty()
    } else {
        lines[0] + "\n"@ + unlines(lines.drop_first())
    }
}

/// The lines of a text hold no line feed, and make up the text, but for a line feed that may be
/// missing at its end.
pub proof fn lemma_lines_make_the_text(text: Seq<char>)
    ensures
        forall|i: int| 0 <= i < lines_of(text).len() ==> !(#[trigger] lines_of(text)[i]).contains('\n'),
        unlines(lines_of(text)) == (if text.len() == 0 || text.last() == '\n' {
            text
        } else {
            text + "\n"@
        }),
    decreases text.len(),
{
    reveal_strlit("\n");
    if text.len() > 0 {
        let tail = text.drop_first();
        let rest = lines_of(tail);
        let lines = lines_of(text);
        lemma_lines_make_the_text(tail);
        if text[0] == '\n' {
            assert(lines.drop_first() =~= rest);
            assert(unlines(lines) =~= "\n"@ + unlines(rest));
            assert forall|i: int| 1 <= i < lines.len() implies #[trigger] lines[i] == rest[i - 1] by {}
            if tail.len() == 0 {
                assert(text =~= "\n"@);
            } else {
                assert(tail.last() == text.last());
            }
        } else if rest.len() == 0 {
            if tail.len() > 0 {
                assert(unlines(rest).len() == 0);
            }
            assert(text =~= seq![text[0]]);
            assert(lines.drop_first() =~= Seq::empty());
            assert(unlines(lines) =~= text + "\n"@) by {
                reveal_with_fuel(unlines, 2);
            }
            assert(!lines[0].contains('\n'));
        } else {
            assert(lines.drop_first() =~= rest.drop_first());
            assert(unlines(lines) =~= seq![text[0]] + unlines(rest));
            assert forall|i: int| 1 <= i < lines.len() implies #[trigger] lines[i] == rest[i] by {}
            assert(!lines[0].contains('\n')) by {
                if lines[0].contains('\n') {
                    let k = choose|k: int| 0 <= k < lines[0].len() && lines[0][k] == '\n';
                    assert(rest[0][k - 1] == '\n');
                    assert(rest[0].contains('\n'));
                }
            }
            assert(tail.len() > 0);
            assert(tail.last() == text.last());
            assert(seq![text[0]] + tail =~= text);
            assert(seq![text[0]] + (tail + "\n"@) =~= text + "\n"@);
        }
    }
}

/// Trimming takes nothing but white space off the two ends, and leaves none there.
pub proof fn lemma_trimmed(text: Seq<char>) -> (ends: (int, int))
    ensures
        0 <= ends.0 <= ends.1 <= text.len(),
        trimmed(text) == text.subrange(ends.0, ends.1),
        forall|i: int| 0 <= i < ends.0 ==> white_space(#[trigger] text[i]),
        forall|i: int| ends.1 <= i < text.len() ==> white_space(#[trigger] text[i]),
        ends.0 < ends.1 ==> !white_space(text[ends.0]) && !white_space(text[ends.1 - 1]),
{
    let start = lemma_trimmed_start(text);
    let rest = trimmed_start(text);
    let end = lemma_trimmed_end(rest);
    assert(rest.subrange(0, end) =~= text.subrange(start, start + end));
    assert forall|i: int| start + end <= i < text.len() implies white_space(#[trigger] text[i]) by {
        assert(rest[i - start] == text[i]);
    }
    if end > 0 {
        assert(rest[end - 1] == text[start + end - 1]);
        assert(rest[0] == text[start]);
    }
    (start, start + end)
}

proof fn lemma_trimmed_start(text: Seq<char>) -> (start: int)
    ensures
        0 <= start <= text.len(),
        trimmed_start(text) == text.subrange(start, text.len() as int),
        forall|i: int| 0 <= i < start ==> white_space(#[trigger] text[i]),
        start < text.len() ==> !white_space(text[start]),
    decreases text.len(),
{
    if text.len() > 0 && white_space(text[0]) {
        let tail = text.drop_first();
        let start = lemma_trimmed_start(tail);
        assert(tail.subrange(start, tail.len() as int) =~= text.subrange(
            start + 1,
            text.len() as int,
        ));
        assert forall|i: int| 0 <= i < start + 1 implies white_space(#[trigger] text[i]) by {
            if i > 0 {
                assert(tail[i - 1] == text[i]);
            }
        }
        start + 1
    } else {
        assert(text.subrange(0, text.len() as int) =~= text);
        0
    }
}

proof fn lemma_trimmed_end(text: Seq<char>) -> (end: int)
    ensures
        0 <= end <= text.len(),
        trimmed_end(text) == text.subrange(0, end),
        forall|i: int| end <= i < text.len() ==> white_space(#[trigger] text[i]),
        end > 0 ==> !white_space(text[end - 1]),
    decreases text.len(),
{
    if text.len() > 0 && white_space(text.last()) {
        let head = text.drop_last();
        let end = lemma_trimmed_end(head);
        assert(head.subrange(0, end) =~= text.subrange(0, end));
        assert forall|i: int| end <= i < text.len() implies white_space(#[trigger] text[i]) by {
            if i < head.len() {
                assert(head[i] == text[i]);
            }
        }
        end
    } else {
        assert(text.subrange(0, text.len() as int) =~= text);
        text.len() as int
    }
}

} // verus!
