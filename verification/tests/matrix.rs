use boxscript::lang::matrix::{chars, neighboring};
use std::collections::HashMap;

#[test]
fn it_turns_strings_to_chars() {
    assert_eq!(chars(&"ab\ncd"), vec![vec!['a', 'b'], vec!['c', 'd']]);

    assert_eq!(chars(&""), Vec::new() as Vec<Vec<char>>);

    assert_eq!(chars(&"ab\nc"), vec![vec!['a', 'b'], vec!['c', '\0']]);
}

#[test]
fn it_finds_neighbors() {
    assert_eq!(
        neighboring(&"ab\ncd", &[0, 0]),
        [('N', '\0'), ('S', 'c'), ('W', '\0'), ('E', 'b')]
            .iter()
            .cloned()
            .collect::<HashMap<char, char>>()
    );

    assert_eq!(
        neighboring(&"", &[0, 0]),
        [('N', '\0'), ('S', '\0'), ('W', '\0'), ('E', '\0')]
            .iter()
            .cloned()
            .collect::<HashMap<char, char>>()
    );

    assert_eq!(
        neighboring(&"abc\ndef\nghi", &[1, 1]),
        [('N', 'b'), ('S', 'h'), ('W', 'd'), ('E', 'f')]
            .iter()
            .cloned()
            .collect::<HashMap<char, char>>()
    );

    assert_eq!(
        neighboring(&"abc\ndef\nghi", &[100, 43000]),
        [('N', '\0'), ('S', '\0'), ('W', '\0'), ('E', '\0')]
            .iter()
            .cloned()
            .collect::<HashMap<char, char>>()
    );
}

fn expected_grid(code: &str) -> Vec<Vec<char>> {
    let width = code.lines().map(|line| line.chars().count()).max().unwrap_or(0);
    code.lines()
        .map(|line| {
            let mut row: Vec<char> = line.chars().collect();
            while row.len() < width {
                row.push('\0');
            }
            row
        })
        .collect()
}

#[test]
fn chars_splits_lines_as_the_standard_library_does() {
    let samples = [
        "",
        "\n",
        "\n\n",
        "a",
        "a\n",
        "a\n\n",
        "\na",
        "a\r\nbc\r\n",
        "a\rb\nc",
        "abc\r",
        "\r",
        "\r\n",
        "\r\r\n",
        "a\n\r\nbcd",
        "\u{2580}\u{2584}\n\u{2590}",
        "long line\nshort\n\nmiddle one\n",
    ];
    for code in samples {
        assert_eq!(chars(code), expected_grid(code), "for {:?}", code);
    }
}

#[test]
fn chars_pads_to_the_longest_line() {
    assert_eq!(
        chars("a\nbcd\n\nef"),
        vec![
            vec!['a', '\0', '\0'],
            vec!['b', 'c', 'd'],
            vec!['\0', '\0', '\0'],
            vec!['e', 'f', '\0'],
        ]
    );
    assert_eq!(chars("\n"), vec![Vec::<char>::new()]);
}

#[test]
fn neighboring_reads_padding_and_borders() {
    // The grid of "ab\nc" holds a null character at row 1, column 1.
    let found = neighboring("ab\nc", &[0, 1]);
    assert_eq!(found.len(), 4);
    assert_eq!(found[&'N'], '\0');
    assert_eq!(found[&'S'], '\0');
    assert_eq!(found[&'W'], 'a');
    assert_eq!(found[&'E'], '\0');

    let found = neighboring("abc\ndef\nghi", &[2, 0]);
    assert_eq!(found[&'N'], 'd');
    assert_eq!(found[&'S'], '\0');
    assert_eq!(found[&'W'], '\0');
    assert_eq!(found[&'E'], 'h');

    // One step outside the grid, the cells of its border are neighbours.
    let found = neighboring("abc\ndef\nghi", &[3, 1]);
    assert_eq!(found[&'N'], 'h');
    assert_eq!(found[&'S'], '\0');
    assert_eq!(found[&'W'], '\0');
    assert_eq!(found[&'E'], '\0');

    let found = neighboring("abc\ndef\nghi", &[1, 3]);
    assert_eq!(found[&'W'], 'f');
    assert_eq!(found[&'E'], '\0');
}

#[test]
fn neighboring_takes_the_largest_indices() {
    let found = neighboring("ab\ncd", &[usize::MAX, usize::MAX]);
    assert_eq!(
        found,
        [('N', '\0'), ('S', '\0'), ('W', '\0'), ('E', '\0')]
            .iter()
            .cloned()
            .collect::<HashMap<char, char>>()
    );
    let found = neighboring("ab\ncd", &[usize::MAX, 0]);
    assert_eq!(found[&'S'], '\0');
}
