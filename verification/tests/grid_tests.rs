use exa::grid::{fit, render_grid};

#[test]
fn fit_picks_most_columns_that_fit() {
    // Four entries of widths 3,5,2,4 into 14 cells with a 2-wide gap:
    // four columns need 20, three need 13, so three it is.
    let ws = vec![3usize, 5, 2, 4];
    let layout = fit(&ws, 14, 2, false).expect("three columns fit");
    assert_eq!(layout.columns, 3);
    assert_eq!(layout.rows, 2);
    assert_eq!(layout.widths, vec![5, 4, 0]);
}

#[test]
fn fit_never_exceeds_the_width() {
    // The one feasibility rule: the chosen shape's total width stays
    // within the budget.
    let ws = vec![7usize, 7, 7];
    let layout = fit(&ws, 20, 2, false).expect("two columns fit");
    assert_eq!(layout.columns, 2);
    let total: usize = layout.widths.iter().sum::<usize>() + 2 * (layout.columns - 1);
    assert!(total <= 20);
}

#[test]
fn fit_falls_back_when_one_column_is_too_wide() {
    let ws = vec![10usize, 3];
    assert!(fit(&ws, 5, 2, false).is_none());
}

#[test]
fn fit_single_entry() {
    let ws = vec![4usize];
    let layout = fit(&ws, 80, 2, false).expect("one entry always fits a wide terminal");
    assert_eq!(layout.columns, 1);
    assert_eq!(layout.rows, 1);
}

#[test]
fn render_grid_down_the_columns() {
    let names = vec!["aa".to_string(), "bbb".to_string(), "c".to_string()];
    let ws = vec![2usize, 3, 1];
    // Three columns need 10 > 9; two need 6, so two columns, filled
    // downwards: aa/bbb in the first, c in the second.
    let lines = render_grid(&names, &ws, 9, 2, false);
    assert_eq!(lines, vec!["aa   c".to_string(), "bbb".to_string()]);
}

#[test]
fn render_grid_across_the_rows() {
    let names = vec!["aa".to_string(), "bbb".to_string(), "c".to_string()];
    let ws = vec![2usize, 3, 1];
    let lines = render_grid(&names, &ws, 9, 2, true);
    assert_eq!(lines, vec!["aa  bbb".to_string(), "c".to_string()]);
}

#[test]
fn render_grid_one_per_line_when_nothing_fits() {
    let names = vec!["longname".to_string(), "evenlongername".to_string()];
    let ws = vec![8usize, 14];
    let lines = render_grid(&names, &ws, 4, 2, false);
    assert_eq!(lines, vec!["longname".to_string(), "evenlongername".to_string()]);
}

#[test]
fn render_grid_keeps_cell_text_whole() {
    // The last occupied cell of a row is never padded, so a name
    // that itself ends in spaces comes through untouched.
    let names = vec!["aa".to_string(), "b ".to_string()];
    let ws = vec![2usize, 2];
    let lines = render_grid(&names, &ws, 10, 2, false);
    assert_eq!(lines, vec!["aa  b ".to_string()]);
    let lines = render_grid(&names, &ws, 2, 2, false);
    assert_eq!(lines, vec!["aa".to_string(), "b ".to_string()]);
}

#[test]
fn render_grid_nothing_for_no_entries() {
    let names: Vec<String> = Vec::new();
    let ws: Vec<usize> = Vec::new();
    let lines = render_grid(&names, &ws, 80, 2, false);
    assert!(lines.is_empty());
}
