use pipequery::errors::InterpError;
use pipequery::output::{RowEnv, Table};

fn s(text: &str) -> String {
    String::from(text)
}

#[test]
fn new_table_is_header_only() {
    let table = Table::new();
    assert_eq!(table.row_count(), 1);
    assert_eq!(table.col_count(), 0);
}

#[test]
fn clear_empties_rows_and_widths() {
    let mut table = Table::new();
    table.add_col(&s("x"), None);
    table.try_add_row(vec![s("cell")]).unwrap();
    table.clear();
    assert_eq!(table.row_count(), 0);
}

#[test]
fn add_col_fills_existing_rows_with_the_marker() {
    let mut table = Table::new();
    table.add_col(&s("x"), None);
    table.try_add_row(vec![s("1")]).unwrap();
    table.add_col(&s("y"), None);
    assert_eq!(table.col_count(), 2);
    assert_eq!(table.get_cell(0, 1).as_str(), "y");
    assert_eq!(table.get_cell(1, 1).as_str(), "<Empty>");
}

#[test]
fn add_col_honours_an_explicit_fill() {
    let mut table = Table::new();
    table.add_col(&s("x"), None);
    table.try_add_row(vec![s("1")]).unwrap();
    table.add_col(&s("y"), Some(s("fill")));
    assert_eq!(table.get_cell(1, 1).as_str(), "fill");
}

#[test]
fn try_add_row_rejects_wrong_width_without_mutating() {
    let mut table = Table::new();
    table.add_col(&s("x"), None);
    let r = table.try_add_row(vec![s("a"), s("b")]);
    assert!(matches!(r, Err(InterpError::ShapeError)));
    assert_eq!(table.row_count(), 1);

    let r = table.try_add_row(vec![]);
    assert!(matches!(r, Err(InterpError::ShapeError)));
    assert_eq!(table.row_count(), 1);

    table.try_add_row(vec![s("a")]).unwrap();
    assert_eq!(table.row_count(), 2);
    assert_eq!(table.get_cell(1, 0).as_str(), "a");
}

#[test]
fn width_tracking_is_exact_after_adds_and_sets() {
    let mut table = Table::new();
    table.add_col(&s("col"), None);
    assert_eq!(table.get_width(0), 3);

    table.try_add_row(vec![s("<Empty>")]).unwrap();
    assert_eq!(table.get_width(0), 7);

    table.set_cell(0, 1, &s("very long value")).unwrap();
    assert_eq!(table.get_width(0), 15);

    table.set_cell(0, 1, &s("ab")).unwrap();
    assert_eq!(table.get_width(0), 3);
}

#[test]
fn width_tracking_covers_every_column() {
    let mut table = Table::new();
    table.add_col(&s("a"), None);
    table.add_col(&s("bb"), None);
    table.try_add_row(vec![s("xxxx"), s("y")]).unwrap();
    table.try_add_row(vec![s("z"), s("wwwww")]).unwrap();
    assert_eq!(table.get_width(0), 4);
    assert_eq!(table.get_width(1), 5);
}

#[test]
fn remove_row_shifts_later_rows_up_and_recomputes_widths() {
    let mut table = Table::new();
    table.add_col(&s("x"), None);
    table.try_add_row(vec![s("first and longest")]).unwrap();
    table.try_add_row(vec![s("second")]).unwrap();
    table.remove_row(1).unwrap();
    assert_eq!(table.row_count(), 2);
    assert_eq!(table.get_cell(1, 0).as_str(), "second");
    assert_eq!(table.get_width(0), 6);
}

#[test]
fn get_column_and_get_or_create_column() {
    let mut table = Table::new();
    table.add_col(&s("x"), None);
    assert_eq!(table.get_column("x").unwrap(), 0);
    assert!(matches!(
        table.get_column("missing"),
        Err(InterpError::LookupError { .. })
    ));

    assert_eq!(table.get_or_create_column(&s("x")).unwrap(), 0);
    assert_eq!(table.col_count(), 1);

    assert_eq!(table.get_or_create_column(&s("y")).unwrap(), 1);
    assert_eq!(table.col_count(), 2);
}

#[test]
fn create_column_fills_data_rows_with_empty_text() {
    let mut table = Table::new();
    table.add_col(&s("x"), None);
    table.try_add_row(vec![s("1")]).unwrap();
    let ix = table.create_column(&s("y")).unwrap();
    assert_eq!(ix, 1);
    assert_eq!(table.get_cell(1, 1).as_str(), "");
}

#[test]
fn row_env_maps_headers_to_cells_plus_rowcount() {
    let mut table = Table::new();
    table.add_col(&s("x"), None);
    table.add_col(&s("y"), None);
    table
        .try_add_row(vec![s("one"), s("two")])
        .unwrap();
    let env = table.get_row_env(1).unwrap();
    assert_eq!(env.get("x").unwrap().as_str(), "one");
    assert_eq!(env.get("y").unwrap().as_str(), "two");
    assert_eq!(env.get("$rowcount").unwrap().as_str(), "1");
    assert!(env.get("z").is_none());
}

#[test]
fn row_env_later_bindings_shadow_earlier_ones() {
    let mut env = RowEnv::new();
    env.insert(s("k"), s("first"));
    env.insert(s("k"), s("second"));
    assert_eq!(env.get("k").unwrap().as_str(), "second");
}
