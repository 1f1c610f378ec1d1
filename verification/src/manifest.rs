//! Recognising a Cargo manifest by its `[package]` or `[workspace]` table.

use vstd::prelude::*;

use crate::text::{chars_equal_text, chars_of, char_range, find_char, lemma_char_index_bounds, lines, lines_from, strip_cr, trim, trim_chars, until_char};

verus! {

/// The line, without a comment and surrounding whitespace, opens the
/// `[package]` or the `[workspace]` table.
pub open spec fn is_manifest_section(line: Seq<char>) -> bool {
    let t = trim(until_char(line, '#'));
    t == "[package]"@ || t == "[workspace]"@
}

/// Some line of the text opens a `[package]` or `[workspace]` table.
pub open spec fn looks_like_manifest(content: Seq<char>) -> bool {
    exists|k: int| 0 <= k < lines(content).len() && is_manifest_section(#[trigger] lines(content)[k])
}

fn section_in_chars(line: &Vec<char>) -> (r: bool)
    ensures
        r == is_manifest_section(line@),
{
    let cut = find_char(line, '#', 0);
    proof {
        lemma_char_index_bounds(line@, '#', 0);
    }
    let before = char_range(line, 0, cut);
    assert(before@ =~= until_char(line@, '#'));
    let t = trim_chars(&before);
    chars_equal_text(&t, "[package]") || chars_equal_text(&t, "[workspace]")
}

/// Whether a manifest line opens the `[package]` or `[workspace]` table.
pub fn is_cargo_manifest_section(line: &str) -> (r: bool)
    ensures
        r == is_manifest_section(line@),
{
    let chars = chars_of(line);
    section_in_chars(&chars)
}

/// Whether some line of a manifest's text opens the `[package]` or the
/// `[workspace]` table.
pub fn manifest_text_looks_like(content: &str) -> (r: bool)
    ensures
        r == looks_like_manifest(content@),
{
    let s = chars_of(content);
    let ghost all = lines(s@);
    let mut start: usize = 0;
    let ghost mut seen: Seq<Seq<char>> = seq![];
    while start < s.len()
        invariant
            start <= s.len(),
            all == lines(s@),
            s@ == content@,
            all == seen + lines_from(s@, start as int),
            forall|k: int| 0 <= k < seen.len() ==> !is_manifest_section(#[trigger] seen[k]),
        decreases s.len() - start,
    {
        let j = find_char(&s, '\n', start);
        proof {
            lemma_char_index_bounds(s@, '\n', start as int);
        }
        let mut line = char_range(&s, start, j);
        if j < s.len() && line.len() > 0 && line[line.len() - 1] == '\r' {
            line.pop();
        }
        let ghost expected = if j >= s.len() {
            s@.subrange(start as int, s@.len() as int)
        } else {
            strip_cr(s@.subrange(start as int, j as int))
        };
        assert(line@ =~= expected);
        assert(lines_from(s@, start as int)[0] == expected);
        assert(lines_from(s@, start as int).len() > 0);
        assert(all.len() > seen.len());
        assert(all[seen.len() as int] == lines_from(s@, start as int)[0]);
        if section_in_chars(&line) {
            assert(all[seen.len() as int] == expected);
            assert(is_manifest_section(lines(content@)[seen.len() as int]));
            return true;
        }
        proof {
            if j >= s.len() {
                assert(lines_from(s@, start as int) =~= seq![expected]);
                assert(lines_from(s@, (j + 1) as int) =~= seq![]);
            } else {
                assert(lines_from(s@, start as int) =~= seq![expected] + lines_from(s@, j + 1));
            }
            assert(all =~= seen.push(expected) + lines_from(s@, j + 1));
            seen = seen.push(expected);
        }
        start = if j >= s.len() { s.len() } else { j + 1 };
    }
    assert(lines_from(s@, start as int) =~= seq![]);
    assert(all =~= seen);
    false
}

} // verus!
