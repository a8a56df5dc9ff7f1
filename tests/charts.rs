use soundalike::charts::phoneme_to_arpabet_positions;

fn s(x: &str) -> String {
    x.to_string()
}

fn positions() -> Vec<(String, usize, usize)> {
    vec![(s("a"), 0, 0), (s("i"), 4, 2), (s("a"), 2, 2), (s("u"), 1, 1)]
}

#[test]
fn codes_take_mean_positions() {
    let conv = vec![
        (s("AA"), vec![s("a")]),
        (s("AY"), vec![s("a"), s("i")]),
        (s("AW"), vec![s("a"), s("u"), s("i")]),
    ];
    assert_eq!(
        phoneme_to_arpabet_positions(&positions(), &conv),
        Some(vec![(s("AA"), 2, 2), (s("AY"), 3, 2), (s("AW"), 2, 1)])
    );
}

#[test]
fn codes_without_position_are_refused() {
    let missing = vec![(s("AA"), vec![s("a")]), (s("OY"), vec![s("o")])];
    assert_eq!(phoneme_to_arpabet_positions(&positions(), &missing), None);
    let empty = vec![(s("XX"), Vec::new())];
    assert_eq!(phoneme_to_arpabet_positions(&positions(), &empty), None);
    let big = vec![(s("big"), usize::MAX, 0)];
    let twice = vec![(s("X"), vec![s("big"), s("big")])];
    assert_eq!(phoneme_to_arpabet_positions(&big, &twice), None);
    assert_eq!(phoneme_to_arpabet_positions(&positions(), &Vec::new()), Some(vec![]));
}

use soundalike::charts::{conversion, phoneme_positions, split_tokens};

fn row(cells: &[&str]) -> Vec<String> {
    cells.iter().map(|c| s(c)).collect()
}

#[test]
fn tokens_split_at_whitespace() {
    assert_eq!(split_tokens(&s("  a\tbb  c ")), vec![s("a"), s("bb"), s("c")]);
    assert!(split_tokens(&s("   ")).is_empty());
}

#[test]
fn chart_cells_give_positions() {
    let rows = vec![
        row(&["", "front", "back"]),
        row(&["close", "i y", "u"]),
        row(&["mid", "", "o"]),
        row(&["open", "a", ""]),
    ];
    assert_eq!(
        phoneme_positions(&rows, 1),
        vec![
            (s("i"), 0, 0),
            (s("y"), 0, 0),
            (s("u"), 1, 0),
            (s("o"), 1, 1),
            (s("a"), 0, 2),
        ]
    );
    // two rows per step of the chart
    assert_eq!(
        phoneme_positions(&rows, 2),
        vec![
            (s("i"), 0, 0),
            (s("y"), 0, 0),
            (s("u"), 1, 0),
            (s("o"), 1, 0),
            (s("a"), 0, 1),
        ]
    );
    assert!(phoneme_positions(&Vec::new(), 1).is_empty());
}

#[test]
fn conversion_rows_split_phonemes() {
    let rows = vec![row(&["AY", "a i"]), row(&["AA", "a"])];
    assert_eq!(
        conversion(&rows),
        Some(vec![(s("AY"), vec![s("a"), s("i")]), (s("AA"), vec![s("a")])])
    );
    assert_eq!(conversion(&vec![row(&["AY"])]), None);
}
