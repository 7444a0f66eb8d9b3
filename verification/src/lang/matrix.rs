use vstd::prelude::*;
use std::collections::HashMap;
use crate::lang::text::chars_of;

verus! {

/// The character that fills a short line, and stands for a cell outside the
/// grid.
pub const NUL: char = '\0';

/// The number of characters of `s` before its first line feed, or all of
/// them where it has none.
pub open spec fn line_length(s: Seq<char>) -> nat
    decreases s.len(),
{
    if s.len() > 0 && s[0] != '\n' {
        1 + line_length(s.drop_first())
    } else {
        0
    }
}

/// A line without the carriage return that stood before its line feed.
pub open spec fn without_return(line: Seq<char>) -> Seq<char> {
    if line.len() > 0 && line.last() == '\r' {
        line.drop_last()
    } else {
        line
    }
}

/// The lines of `s`. A line ends with a line feed, or with a carriage return
/// and a line feed, which are not part of it; the last line may end with the
/// text.
pub open spec fn lines(s: Seq<char>) -> Seq<Seq<char>>
    decreases s.len(),
{
    if s.len() == 0 {
        Seq::empty()
    } else {
        let n = line_length(s) as int;
        proof {
            lemma_line_length(s);
        }
        if n < s.len() {
            seq![without_return(s.take(n))] + lines(s.skip(n + 1))
        } else {
            seq![s]
        }
    }
}

/// The length of the longest of `rows`.
pub open spec fn widest(rows: Seq<Seq<char>>) -> nat
    decreases rows.len(),
{
    if rows.len() == 0 {
        0
    } else if rows.last().len() > widest(rows.drop_last()) {
        rows.last().len()
    } else {
        widest(rows.drop_last())
    }
}

/// `row` filled on the right with the null character up to `width`.
pub open spec fn padded(row: Seq<char>, width: nat) -> Seq<char> {
    if row.len() >= width {
        row
    } else {
        row + Seq::new((width - row.len()) as nat, |i: int| NUL)
    }
}

/// The grid of a source text: its lines, each filled up to the length of
/// the longest one.
pub open spec fn grid(s: Seq<char>) -> Seq<Seq<char>> {
    let rows = lines(s);
    Seq::new(rows.len(), |i: int| padded(rows[i], widest(rows)))
}

/// The rows of a matrix as sequences.
pub open spec fn rows_of(matrix: Seq<Vec<char>>) -> Seq<Seq<char>> {
    Seq::new(matrix.len(), |i: int| matrix[i]@)
}

/// The character at `row` and `col`, or the null character outside the
/// grid.
pub open spec fn cell(matrix: Seq<Seq<char>>, row: int, col: int) -> char {
    if 0 <= row < matrix.len() && 0 <= col < matrix[row].len() {
        matrix[row][col]
    } else {
        NUL
    }
}

/// The four cells next to `row` and `col`, under the letters of the
/// directions.
pub open spec fn neighbors(matrix: Seq<Seq<char>>, row: int, col: int) -> Map<char, char> {
    Map::empty().insert('N', cell(matrix, row - 1, col)).insert(
        'S',
        cell(matrix, row + 1, col),
    ).insert('W', cell(matrix, row, col - 1)).insert('E', cell(matrix, row, col + 1))
}

/// A line holds no line feed and ends at one or with the text.
pub proof fn lemma_line_length(s: Seq<char>)
    ensures
        line_length(s) <= s.len(),
        forall|i: int| 0 <= i < line_length(s) ==> #[trigger] s[i] != '\n',
        line_length(s) < s.len() ==> s[line_length(s) as int] == '\n',
    decreases s.len(),
{
    if s.len() > 0 && s[0] != '\n' {
        let rest = s.drop_first();
        lemma_line_length(rest);
        assert forall|i: int| 0 <= i < line_length(s) implies #[trigger] s[i] != '\n' by {
            if i > 0 {
                assert(s[i] == rest[i - 1]);
            }
        }
        if line_length(s) < s.len() {
            assert(s[line_length(s) as int] == rest[line_length(rest) as int]);
        }
    }
}

/// The line at the start of `s` has the length `n` where no line feed is
/// among the first `n` characters and the next one, if any, is one.
pub proof fn lemma_line_found(s: Seq<char>, n: int)
    requires
        0 <= n <= s.len(),
        forall|i: int| 0 <= i < n ==> #[trigger] s[i] != '\n',
        n < s.len() ==> s[n] == '\n',
    ensures
        line_length(s) == n,
    decreases n,
{
    if n > 0 {
        let rest = s.drop_first();
        assert forall|i: int| 0 <= i < n - 1 implies #[trigger] rest[i] != '\n' by {
            assert(rest[i] == s[i + 1]);
        }
        if n - 1 < rest.len() {
            assert(rest[n - 1] == s[n]);
        }
        lemma_line_found(rest, n - 1);
    }
}

/// No row is longer than the widest.
pub proof fn lemma_widest(rows: Seq<Seq<char>>, i: int)
    requires
        0 <= i < rows.len(),
    ensures
        rows[i].len() <= widest(rows),
    decreases rows.len(),
{
    if i < rows.len() - 1 {
        lemma_widest(rows.drop_last(), i);
    }
}

/// The lines of a source text.
fn split_lines(chars: &Vec<char>) -> (r: Vec<Vec<char>>)
    ensures
        rows_of(r@) == lines(chars@),
{
    let mut done: Vec<Vec<char>> = Vec::new();
    let mut line: Vec<char> = Vec::new();
    let mut i: usize = 0;
    proof {
        assert(chars@.skip(0) == chars@);
        assert(rows_of(done@) + lines(chars@) == lines(chars@));
    }
    while i < chars.len()
        invariant
            i <= chars.len(),
            line.len() <= i,
            line@ == chars@.subrange(i - line.len(), i as int),
            forall|k: int| 0 <= k < line.len() ==> #[trigger] line[k] != '\n',
            lines(chars@) == rows_of(done@) + lines(chars@.skip(i - line.len())),
        decreases chars.len() - i,
    {
        let c = chars[i];
        let ghost from = i - line.len();
        let ghost rest = chars@.skip(from);
        if c == '\n' {
            proof {
                assert forall|k: int| 0 <= k < line.len() implies #[trigger] rest[k] != '\n' by {
                    assert(rest[k] == line[k]);
                }
                assert(rest[line.len() as int] == c);
                lemma_line_found(rest, line.len() as int);
                assert(rest.take(line.len() as int) == line@);
                assert(rest.skip(line.len() + 1) == chars@.skip(i + 1));
            }
            let ghost whole = line@;
            if line.len() > 0 && line[line.len() - 1] == '\r' {
                line.pop();
            }
            assert(line@ == without_return(whole));
            let ghost before = done@;
            done.push(line);
            proof {
                assert(rows_of(done@) == rows_of(before) + seq![without_return(whole)]);
                assert(rows_of(before) + (seq![without_return(whole)] + lines(
                    chars@.skip(i + 1),
                )) == rows_of(done@) + lines(chars@.skip(i + 1)));
            }
            line = Vec::new();
        } else {
            line.push(c);
            proof {
                assert(line@ == chars@.subrange(from, i + 1));
            }
        }
        i = i + 1;
    }
    if line.len() > 0 {
        proof {
            let from = chars.len() - line.len();
            let rest = chars@.skip(from);
            assert(rest == line@);
            assert forall|k: int| 0 <= k < rest.len() implies #[trigger] rest[k] != '\n' by {
                assert(rest[k] == line[k]);
            }
            lemma_line_found(rest, rest.len() as int);
            assert(lines(rest) == seq![rest]);
        }
        let ghost before = done@;
        done.push(line);
        assert(rows_of(done@) == rows_of(before) + seq![line@]);
    } else {
        proof {
            assert(chars@.skip(chars.len() as int) == Seq::<char>::empty());
            assert(rows_of(done@) + Seq::<Seq<char>>::empty() == rows_of(done@));
        }
    }
    done
}

/// The source text as a rectangular matrix of characters: one row for each
/// line, short lines filled on the right with the null character.
pub fn chars(code: &str) -> (r: Vec<Vec<char>>)
    ensures
        rows_of(r@) == grid(code@),
{
    let text = chars_of(code);
    let mut rows = split_lines(&text);
    let ghost found = rows_of(rows@);
    let mut width: usize = 0;
    let mut i: usize = 0;
    while i < rows.len()
        invariant
            i <= rows.len(),
            width == widest(rows_of(rows@).take(i as int)),
        decreases rows.len() - i,
    {
        proof {
            assert(rows_of(rows@).take(i + 1).drop_last() == rows_of(rows@).take(i as int));
        }
        if rows[i].len() > width {
            width = rows[i].len();
        }
        i = i + 1;
    }
    proof {
        assert(rows_of(rows@).take(rows.len() as int) == rows_of(rows@));
    }
    let mut out: Vec<Vec<char>> = Vec::new();
    let mut j: usize = 0;
    while j < rows.len()
        invariant
            j <= rows.len(),
            out.len() == j,
            rows_of(rows@) == found,
            width == widest(found),
            forall|k: int| 0 <= k < j ==> (#[trigger] out[k])@ == padded(found[k], width as nat),
        decreases rows.len() - j,
    {
        let mut row: Vec<char> = Vec::new();
        let source = &rows[j];
        proof {
            lemma_widest(found, j as int);
            assert(found[j as int] == source@);
        }
        let mut k: usize = 0;
        while k < width
            invariant
                k <= width,
                source.len() <= width,
                row.len() == k,
                forall|n: int|
                    0 <= n < k ==> #[trigger] row[n] == (if n < source.len() {
                        source[n]
                    } else {
                        NUL
                    }),
            decreases width - k,
        {
            if k < source.len() {
                row.push(source[k]);
            } else {
                row.push(NUL);
            }
            k = k + 1;
        }
        assert(row@ == padded(source@, width as nat));
        out.push(row);
        j = j + 1;
    }
    assert(rows_of(out@) == grid(code@));
    out
}

/// The cell at `row` and `col`, either of which may lie outside the
/// indices.
fn cell_at(matrix: &Vec<Vec<char>>, row: Option<usize>, col: Option<usize>) -> (r: char)
    ensures
        r == (match (row, col) {
            (Some(i), Some(j)) => cell(rows_of(matrix@), i as int, j as int),
            _ => NUL,
        }),
{
    match (row, col) {
        (Some(i), Some(j)) => {
            if i < matrix.len() && j < matrix[i].len() {
                matrix[i][j]
            } else {
                NUL
            }
        },
        _ => NUL,
    }
}

/// `HashMap::insert` of the standard library, with characters for keys: the
/// map then holds `value` under `key`, and what it held under other keys
/// before. This is taken on trust: what `vstd` states of `insert` holds for
/// key types whose hashing it knows, and `char` is not among them.
#[verifier::external_body]
fn put(map: &mut HashMap<char, char>, key: char, value: char)
    ensures
        final(map)@ == old(map)@.insert(key, value),
{
    map.insert(key, value);
}

/// The characters in the four cells next to `loc`, which gives a row and a
/// column of the grid of `code`, under `'N'`, `'S'`, `'W'` and `'E'`; the
/// null character stands for a cell outside the grid.
pub fn neighboring(code: &str, loc: &[usize; 2]) -> (r: HashMap<char, char>)
    ensures
        r@ == neighbors(grid(code@), loc[0] as int, loc[1] as int),
{
    let matrix = chars(code);
    let row = loc[0];
    let col = loc[1];
    let mut found: HashMap<char, char> = HashMap::new();
    let north = cell_at(&matrix, row.checked_sub(1), Some(col));
    let south = cell_at(&matrix, row.checked_add(1), Some(col));
    let west = cell_at(&matrix, Some(row), col.checked_sub(1));
    let east = cell_at(&matrix, Some(row), col.checked_add(1));
    proof {
        let m = rows_of(matrix@);
        assert(north == cell(m, row - 1, col as int));
        assert(south == cell(m, row + 1, col as int));
        assert(west == cell(m, row as int, col - 1));
        if row < matrix.len() {
            assert(m[row as int].len() == matrix[row as int].len());
        }
        assert(east == cell(m, row as int, col + 1));
    }
    put(&mut found, 'N', north);
    put(&mut found, 'S', south);
    put(&mut found, 'W', west);
    put(&mut found, 'E', east);
    found
}

} // verus!
