//! The version that a build reports.
use crate::text::{lemma_first_line, lemma_only_line, lines_of, trim, trimmed};
use vstd::prelude::*;

verus! {

/// The first of the lines that is neither empty nor a comment, without the white space around it.
pub open spec fn first_entry(lines: Seq<Seq<char>>) -> Option<Seq<char>>
    decreases lines.len(),
{
    if lines.len() == 0 {
        None
    } else {
        let entry = trimmed(lines[0]);
        if entry.len() > 0 && entry[0] != '#' {
            Some(entry)
        } else {
            first_entry(lines.drop_first())
        }
    }
}

/// The version that a file gives: its first line that is neither empty nor a comment.
pub fn read_version_override(contents: &str) -> (version: Option<String>)
    ensures
        match first_entry(lines_of(contents@)) {
            Some(entry) => version matches Some(v) && v@ == entry,
            None => version is None,
        },
{
    let len = contents.unicode_len();
    let mut start: usize = 0;
    let mut i: usize = 0;
    assert(contents@.skip(0) =~= contents@);
    while i < len
        invariant
            start <= i <= len == contents@.len(),
            first_entry(lines_of(contents@.skip(start as int))) == first_entry(lines_of(contents@)),
            forall|j: int| start <= j < i ==> (#[trigger] contents@[j]) != '\n',
        decreases len - i,
    {
        if contents.get_char(i) == '\n' {
            let entry = trim(contents, start, i);
            proof {
                let line = contents@.subrange(start as int, i as int);
                let rest = contents@.skip(i + 1);
                reveal_strlit("\n");
                assert(contents@.skip(start as int) =~= line + "\n"@ + rest);
                lemma_first_line(line, rest);
                assert((seq![line] + lines_of(rest)).drop_first() =~= lines_of(rest));
            }
            if !entry.is_empty() && entry.get_char(0) != '#' {
                return Some(entry.to_owned());
            }
            start = i + 1;
        }
        i = i + 1;
    }
    let entry = trim(contents, start, len);
    proof {
        let line = contents@.subrange(start as int, len as int);
        assert(contents@.skip(start as int) =~= line);
        lemma_only_line(line);
        assert(seq![line].drop_first() =~= Seq::<Seq<char>>::empty());
        reveal_with_fuel(first_entry, 2);
    }
    if !entry.is_empty() && entry.get_char(0) != '#' {
        Some(entry.to_owned())
    } else {
        None
    }
}

/// The version to report: that of the file, if there is one that gives any, or that of the package.
pub fn app_version(contents: Option<&str>, package_version: &str) -> (version: String)
    ensures
        version@ == match contents {
            Some(text) => match first_entry(lines_of(text@)) {
                Some(entry) => entry,
                None => package_version@,
            },
            None => package_version@,
        },
{
    let found = match contents {
        Some(text) => read_version_override(text),
        None => None,
    };
    match found {
        Some(version) => version,
        None => package_version.to_owned(),
    }
}

/// Whether a line gives a version: there is more on it than white space, and it is no comment.
pub open spec fn is_entry(line: Seq<char>) -> bool {
    trimmed(line).len() > 0 && trimmed(line)[0] != '#'
}

/// The version comes from the first line that gives one; there is none only if no line does.
pub proof fn lemma_first_entry(lines: Seq<Seq<char>>)
    ensures
        first_entry(lines) is None <==> forall|i: int|
            0 <= i < lines.len() ==> !is_entry(#[trigger] lines[i]),
        forall|i: int|
            0 <= i < lines.len() && is_entry(#[trigger] lines[i]) && (forall|j: int|
                0 <= j < i ==> !is_entry(#[trigger] lines[j])) ==> first_entry(lines) == Some(
                trimmed(lines[i]),
            ),
    decreases lines.len(),
{
    if lines.len() > 0 && !is_entry(lines[0]) {
        let rest = lines.drop_first();
        lemma_first_entry(rest);
        assert forall|i: int| 0 < i < lines.len() implies #[trigger] lines[i] == rest[i - 1] by {}
        assert forall|j: int| 0 <= j < rest.len() implies #[trigger] rest[j] == lines[j + 1] by {}
        assert forall|i: int|
            0 <= i < lines.len() && is_entry(#[trigger] lines[i]) && (forall|j: int|
                0 <= j < i ==> !is_entry(#[trigger] lines[j])) implies first_entry(lines) == Some(
            trimmed(lines[i]),
        ) by {
            assert(rest[i - 1] == lines[i]);
        }
    }
}

} // verus!
