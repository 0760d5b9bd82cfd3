use electric_client::shape::ShapeInput;
use electric_client::{
    ChangeHeaders, ChangeMessage, ControlKind, ControlMessage, JsonValue, Message, Operation,
    Row, ShapeData,
};

fn row(cells: &[(&str, &str)]) -> Row {
    cells.iter().map(|(k, v)| (k.to_string(), JsonValue::String(v.to_string()))).collect()
}

fn change(op: Operation, key: &str, cells: &[(&str, &str)]) -> Message {
    Message::Change(ChangeMessage {
        key: key.to_string(),
        value: row(cells),
        old_value: None,
        headers: ChangeHeaders { operation: op, txids: Vec::new(), lsn: None },
    })
}

fn control(kind: ControlKind) -> Message {
    Message::Control(ControlMessage { control: kind })
}

fn cell<'a>(r: &'a Row, name: &str) -> Option<&'a JsonValue> {
    r.iter().find(|(k, _)| k == name).map(|(_, v)| v)
}

fn text(s: &str) -> JsonValue {
    JsonValue::String(s.to_string())
}

#[test]
fn inserts_materialize_rows_in_key_order() {
    let mut shape = ShapeData::new();
    let notify = shape.process_batch(&vec![
        change(Operation::Insert, "2", &[("id", "2"), ("text", "Write tests")]),
        change(Operation::Insert, "1", &[("id", "1"), ("text", "Buy milk")]),
        control(ControlKind::UpToDate),
    ]);
    assert!(notify);
    assert_eq!(shape.len(), 2);
    let rows = shape.rows();
    assert_eq!(cell(&rows[0], "text"), Some(&text("Buy milk")));
    assert_eq!(cell(&rows[1], "text"), Some(&text("Write tests")));
}

#[test]
fn update_merges_changed_columns_only() {
    let mut shape = ShapeData::new();
    shape.process_batch(&vec![
        change(Operation::Insert, "10", &[("id", "10"), ("text", "original"), ("done", "false")]),
        control(ControlKind::UpToDate),
    ]);
    let notify = shape.process_batch(&vec![
        change(Operation::Update, "10", &[("id", "10"), ("text", "updated")]),
        control(ControlKind::UpToDate),
    ]);
    assert!(notify);
    let rows = shape.rows();
    assert_eq!(rows.len(), 1);
    assert_eq!(cell(&rows[0], "text"), Some(&text("updated")));
    assert_eq!(cell(&rows[0], "done"), Some(&text("false")));
}

#[test]
fn update_of_missing_row_creates_it() {
    let mut shape = ShapeData::new();
    shape.process_batch(&vec![change(Operation::Update, "7", &[("text", "new")])]);
    let rows = shape.rows();
    assert_eq!(rows.len(), 1);
    assert_eq!(rows[0], row(&[("text", "new")]));
}

#[test]
fn delete_removes_only_its_row() {
    let mut shape = ShapeData::new();
    shape.process_batch(&vec![
        change(Operation::Insert, "1", &[("text", "going away")]),
        change(Operation::Insert, "2", &[("text", "staying")]),
        change(Operation::Delete, "1", &[("id", "1")]),
        control(ControlKind::UpToDate),
    ]);
    let rows = shape.rows();
    assert_eq!(rows.len(), 1);
    assert_eq!(cell(&rows[0], "text"), Some(&text("staying")));
    shape.process_batch(&vec![change(Operation::Delete, "9", &[])]);
    assert_eq!(shape.len(), 1);
}

#[test]
fn must_refetch_empties_the_rows() {
    let mut shape = ShapeData::new();
    shape.process_batch(&vec![
        change(Operation::Insert, "1", &[("text", "row 1")]),
        change(Operation::Insert, "2", &[("text", "row 2")]),
        control(ControlKind::UpToDate),
    ]);
    assert_eq!(shape.len(), 2);
    let notify = shape.process_batch(&vec![control(ControlKind::MustRefetch)]);
    assert!(!notify);
    assert_eq!(shape.len(), 0);
    let notify = shape.process_batch(&vec![
        change(Operation::Insert, "3", &[("text", "fresh row")]),
        control(ControlKind::UpToDate),
    ]);
    assert!(notify);
    let rows = shape.rows();
    assert_eq!(rows.len(), 1);
    assert_eq!(cell(&rows[0], "text"), Some(&text("fresh row")));
}

#[test]
fn batch_with_up_to_date_and_must_refetch_does_not_notify() {
    let mut shape = ShapeData::new();
    let notify = shape.process_batch(&vec![
        change(Operation::Insert, "1", &[("text", "a")]),
        control(ControlKind::UpToDate),
        control(ControlKind::MustRefetch),
        change(Operation::Insert, "2", &[("text", "b")]),
    ]);
    assert!(!notify);
    let rows = shape.rows();
    assert_eq!(rows.len(), 1);
    assert_eq!(cell(&rows[0], "text"), Some(&text("b")));
}

#[test]
fn current_rows_empty_before_any_batch() {
    let shape = ShapeData::new();
    assert_eq!(shape.len(), 0);
    assert!(shape.rows().is_empty());
    let mut shape = ShapeData::new();
    assert!(!shape.process_batch(&vec![change(Operation::Insert, "1", &[("a", "b")])]));
    assert_eq!(shape.len(), 1);
}

#[test]
fn insert_replaces_a_whole_row() {
    let mut shape = ShapeData::new();
    shape.process_batch(&vec![
        change(Operation::Insert, "1", &[("a", "1"), ("b", "2")]),
        change(Operation::Insert, "1", &[("a", "3")]),
    ]);
    let rows = shape.rows();
    assert_eq!(rows, vec![row(&[("a", "3")])]);
}

#[test]
fn events_decide_what_the_shape_does() {
    let mut shape = ShapeData::new();
    let batch = vec![change(Operation::Insert, "1", &[("a", "b")]), control(ControlKind::UpToDate)];
    let r = shape.on_event(ShapeInput::Batch(&batch));
    assert!(r.notify && r.up_to_date && !r.stop && r.error.is_none());
    assert_eq!(shape.len(), 1);
    let loading = vec![change(Operation::Insert, "2", &[("a", "c")])];
    let r = shape.on_event(ShapeInput::Batch(&loading));
    assert!(!r.notify && !r.up_to_date && !r.stop);
    assert_eq!(shape.len(), 2);
    let r = shape.on_event(ShapeInput::Error("boom".to_string()));
    assert!(!r.notify && r.up_to_date && r.stop);
    assert_eq!(r.error.as_deref(), Some("boom"));
    assert_eq!(shape.len(), 2);
    let r = shape.on_event(ShapeInput::Closed);
    assert!(r.up_to_date && r.stop && r.error.is_none());
    let r = shape.on_event(ShapeInput::Disconnected);
    assert!(r.up_to_date && r.stop && !r.notify);
    assert_eq!(shape.len(), 2);
}
