//! The board part of a notation as rows of characters, ready to be shown.

use vstd::prelude::*;

verus! {

/// The mark that stands for an empty square.
pub const EMPTY_MARK: char = '·';

/// A run of `n` marks for empty squares.
pub open spec fn marks(n: int) -> Seq<char> {
    Seq::new(n as nat, |i: int| EMPTY_MARK)
}

/// The rows that the first `n` characters of a board part make: a stroke
/// starts a new row, a digit adds that many marks for empty squares to the
/// row in hand, and every other character is added as it is.
pub open spec fn rows_of(text: Seq<char>, n: int) -> Seq<Seq<char>>
    decreases n,
{
    if n <= 0 {
        seq![Seq::<char>::empty()]
    } else {
        let before = rows_of(text, n - 1);
        let c = text[n - 1];
        if c == '/' {
            before.push(Seq::empty())
        } else if '0' <= c && c <= '9' {
            before.update(before.len() - 1, before.last() + marks(c as u32 - '0' as u32))
        } else {
            before.update(before.len() - 1, before.last().push(c))
        }
    }
}

pub proof fn lemma_rows_of_nonempty(text: Seq<char>, n: int)
    ensures
        rows_of(text, n).len() >= 1,
    decreases n,
{
    if n > 0 {
        lemma_rows_of_nonempty(text, n - 1);
    }
}

/// The rows of the board part of a notation, one list of characters for each rank.
pub fn parse_fen_pieces_to_board(fen: &str) -> (r: Vec<Vec<char>>)
    ensures
        r@.len() == rows_of(fen@, fen@.len() as int).len(),
        forall|i: int| 0 <= i < r@.len() ==> (#[trigger] r@[i])@ == rows_of(
            fen@,
            fen@.len() as int,
        )[i],
{
    let chars = crate::text::chars_of(fen);
    let mut rows: Vec<Vec<char>> = Vec::new();
    let mut row: Vec<char> = Vec::new();
    let mut i: usize = 0;
    while i < chars.len()
        invariant
            i <= chars.len(),
            chars@ == fen@,
            rows@.len() + 1 == rows_of(chars@, i as int).len(),
            forall|k: int| 0 <= k < rows@.len() ==> (#[trigger] rows@[k])@ == rows_of(
                chars@,
                i as int,
            )[k],
            row@ == rows_of(chars@, i as int).last(),
        decreases chars.len() - i,
    {
        let c = chars[i];
        proof {
            lemma_rows_of_nonempty(chars@, i as int);
        }
        if c == '/' {
            rows.push(row);
            row = Vec::new();
        } else if '0' <= c && c <= '9' {
            let count = c as u32 - '0' as u32;
            let ghost before = row@;
            let mut k: u32 = 0;
            while k < count
                invariant
                    k <= count,
                    row@ == before + marks(k as int),
                decreases count - k,
            {
                row.push(EMPTY_MARK);
                k += 1;
                proof {
                    assert(row@ =~= before + marks(k as int));
                }
            }
        } else {
            row.push(c);
        }
        i += 1;
    }
    rows.push(row);
    rows
}

} // verus!
