//! Reading a maze from text: one row per line, one tile per character.

use vstd::prelude::*;
use vstd::std_specs::iter::IteratorSpec;
use crate::maze::Maze;

verus! {

pub const NEWLINE: char = '\n';

pub const CARRIAGE_RETURN: char = '\r';

/// How many characters stand before the first line feed of `text`; the
/// length of `text` where it holds none.
pub open spec fn line_len(text: Seq<char>) -> int
    decreases text.len(),
{
    if text.len() == 0 || text[0] == NEWLINE {
        0
    } else {
        1 + line_len(text.drop_first())
    }
}

/// A line without the carriage return that ended it, if one did.
pub open spec fn without_cr(line: Seq<char>) -> Seq<char> {
    if line.len() > 0 && line.last() == CARRIAGE_RETURN {
        line.drop_last()
    } else {
        line
    }
}

/// The lines of a text. A line ends at a line feed, or at a carriage return
/// and a line feed, neither of which belongs to it. What follows the last
/// line feed is a line too, taken as it stands, unless it is empty.
pub open spec fn lines(text: Seq<char>) -> Seq<Seq<char>>
    decreases text.len(),
{
    let n = line_len(text);
    if text.len() == 0 {
        Seq::empty()
    } else if n >= text.len() {
        seq![text]
    } else {
        proof {
            lemma_line_len_bound(text);
        }
        seq![without_cr(text.subrange(0, n))] + lines(text.subrange(n + 1, text.len() as int))
    }
}

/// The rows of a maze as sequences of tiles.
pub open spec fn rows_of(maze: Seq<Vec<char>>) -> Seq<Seq<char>> {
    Seq::new(maze.len(), |j: int| maze[j]@)
}

/// The first line of a text ends no later than the text.
pub proof fn lemma_line_len_bound(text: Seq<char>)
    ensures
        0 <= line_len(text) <= text.len(),
    decreases text.len(),
{
    if text.len() > 0 && text[0] != NEWLINE {
        lemma_line_len_bound(text.drop_first());
    }
}

/// A text that starts with characters other than line feeds has its first
/// line end where they end, if a line feed or nothing follows them.
proof fn lemma_line_len_prefix(head: Seq<char>, tail: Seq<char>)
    requires
        forall|k: int| 0 <= k < head.len() ==> head[k] != NEWLINE,
        tail.len() == 0 || tail[0] == NEWLINE,
    ensures
        line_len(head + tail) == head.len(),
    decreases head.len(),
{
    let text = head + tail;
    if head.len() == 0 {
        assert(text =~= tail);
    } else {
        assert(text[0] == head[0]);
        assert(text.drop_first() =~= head.drop_first() + tail);
        lemma_line_len_prefix(head.drop_first(), tail);
    }
}

/// Splits a text into rows of tiles: every line is a row, every character of
/// it a tile.
pub fn parse_maze(text: &str) -> (maze: Maze)
    ensures
        rows_of(maze@) == lines(text@),
{
    broadcast use {vstd::string::axiom_spec_iter, vstd::string::next_postcondition};

    let mut maze: Maze = Vec::new();
    let mut row: Vec<char> = Vec::new();
    let mut chars = text.chars();
    let ghost all = text@;
    let ghost mut i: int = 0;
    assert(all.skip(0) =~= all);
    assert(row@ + all =~= all);
    assert(rows_of(maze@) + lines(all) =~= lines(all));
    loop
        invariant_except_break
            0 <= i <= all.len(),
            chars.remaining() == all.skip(i),
            lines(all) == rows_of(maze@) + lines(row@ + all.skip(i)),
        invariant
            forall|k: int| 0 <= k < row.len() ==> row[k] != NEWLINE,
        ensures
            lines(all) == rows_of(maze@) + lines(row@),
        decreases all.len() - i,
    {
        let ghost rest = all.skip(i);
        let ghost whole = row@ + rest;
        match chars.next() {
            None => {
                assert(whole =~= row@);
                break ;
            },
            Some(c) => {
                let ghost tail = all.skip(i + 1);
                assert(rest.drop_first() =~= tail);
                if c == NEWLINE {
                    proof {
                        lemma_line_len_prefix(row@, rest);
                        assert(whole.subrange(0, row.len() as int) =~= row@);
                        assert(whole.subrange(row.len() + 1, whole.len() as int) =~= tail);
                        assert(lines(whole) == seq![without_cr(row@)] + lines(tail));
                    }
                    let ghost full = row@;
                    let ghost rows_before = rows_of(maze@);
                    if row.len() > 0 && row[row.len() - 1] == CARRIAGE_RETURN {
                        row.pop();
                    }
                    assert(row@ =~= without_cr(full));
                    maze.push(row);
                    row = Vec::new();
                    proof {
                        assert(rows_of(maze@) =~= rows_before + seq![without_cr(full)]);
                        assert(row@ + tail =~= tail);
                        assert(rows_of(maze@) + lines(tail) =~= rows_before + (seq![without_cr(full)]
                            + lines(tail)));
                    }
                } else {
                    row.push(c);
                    assert(row@ + tail =~= whole);
                }
                proof {
                    i = i + 1;
                }
            },
        }
    }
    if row.len() > 0 {
        proof {
            lemma_line_len_prefix(row@, Seq::empty());
            assert(row@ + Seq::<char>::empty() =~= row@);
            assert(lines(row@) == seq![row@]);
        }
        let ghost rows_before = rows_of(maze@);
        let ghost last = row@;
        maze.push(row);
        assert(rows_of(maze@) =~= rows_before + seq![last]);
    } else {
        assert(row@ =~= Seq::<char>::empty());
        assert(rows_of(maze@) + lines(row@) =~= rows_of(maze@));
    }
    maze
}

} // verus!
