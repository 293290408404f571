use flowy_ot::attributes::{Attribute, Attributes};
use flowy_ot::delta::Operation;
use flowy_ot::document::{rebuild_delta, transform, Document, OTError};
use flowy_ot::interval::Interval;

#[test]
fn fresh_document_is_empty() {
    let doc = Document::new();
    assert_eq!(doc.to_json(), "");
    assert!(!doc.can_undo());
    assert!(!doc.can_redo());
    assert_eq!(doc.next_rev_id().0, 1);
}

#[test]
fn edit_appends_and_inserts() {
    let mut doc = Document::new();
    doc.edit(0, "Hello");
    assert_eq!(doc.to_json(), "[~:H][~:e][~:l][~:l][~:o]");
    doc.edit(5, " World");
    assert_eq!(
        doc.to_json(),
        "[~:H][~:e][~:l][~:l][~:o][~: ][~:W][~:o][~:r][~:l][~:d]"
    );
    doc.edit(0, "> ");
    assert_eq!(
        doc.to_json(),
        "[~:>][~: ][~:H][~:e][~:l][~:l][~:o][~: ][~:W][~:o][~:r][~:l][~:d]"
    );
}

#[test]
fn format_stamps_merged_attributes() {
    let mut doc = Document::new();
    doc.edit(0, "Hello World");
    doc.format(Interval::new(0, 5), Attribute::Bold, true);
    assert_eq!(
        doc.to_json(),
        "[#b+:H][#b+:e][#b+:l][#b+:l][#b+:o][~: ][~:W][~:o][~:r][~:l][~:d]"
    );
}

#[test]
fn format_disable_leaves_removal_marker() {
    let mut doc = Document::new();
    doc.edit(0, "Hello");
    doc.format(Interval::new(0, 5), Attribute::Bold, true);
    doc.format(Interval::new(0, 2), Attribute::Bold, false);
    assert_eq!(doc.to_json(), "[#b-:H][#b-:e][#b+:l][#b+:l][#b+:o]");
}

#[test]
fn delete_removes_interval() {
    let mut doc = Document::new();
    doc.edit(0, "Hello World");
    doc.delete(Interval::new(5, 11));
    assert_eq!(doc.to_json(), "[~:H][~:e][~:l][~:l][~:o]");
}

#[test]
fn insertion_inherits_surrounding_formatting() {
    let mut doc = Document::new();
    doc.edit(0, "Hello");
    doc.format(Interval::new(0, 5), Attribute::Bold, true);
    doc.edit(2, "xy");
    assert_eq!(
        doc.to_json(),
        "[#b+:H][#b+:e][#b+:x][#b+:y][#b+:l][#b+:l][#b+:o]"
    );
}

#[test]
fn lookup_over_mixed_formatting_is_empty() {
    let mut doc = Document::new();
    doc.edit(0, "Hello World");
    doc.format(Interval::new(0, 5), Attribute::Bold, true);
    // The probe spans a bold run and an unformatted run, so the lookup finds
    // no shared formatting and the inherit path stamps "no formatting".
    doc.update_with_attribute(Attributes::Follow, Interval::new(3, 7));
    assert_eq!(
        doc.to_json(),
        "[#b+:H][#b+:e][#b+:l][.:l][.:o][.: ][.:W][~:o][~:r][~:l][~:d]"
    );
}

#[test]
fn undo_and_redo_walk_the_history() {
    let mut doc = Document::new();
    doc.edit(0, "Hello");
    doc.edit(5, " World");
    doc.format(Interval::new(0, 5), Attribute::Bold, true);
    let formatted = doc.to_json();

    let r = doc.undo().unwrap();
    assert_eq!(r.len, 11);
    assert_eq!(
        doc.to_json(),
        "[~:H][~:e][~:l][~:l][~:o][~: ][~:W][~:o][~:r][~:l][~:d]"
    );
    let r = doc.undo().unwrap();
    assert_eq!(r.len, 5);
    assert_eq!(doc.to_json(), "[~:H][~:e][~:l][~:l][~:o]");
    doc.redo().unwrap();
    doc.redo().unwrap();
    assert_eq!(doc.to_json(), formatted);
}

#[test]
fn undo_then_redo_restores_each_state() {
    let mut doc = Document::new();
    doc.edit(0, "ab");
    doc.edit(2, "cd");
    let after = doc.to_json();
    doc.undo().unwrap();
    doc.undo().unwrap();
    assert_eq!(doc.to_json(), "");
    doc.redo().unwrap();
    doc.redo().unwrap();
    assert_eq!(doc.to_json(), after);
}

#[test]
fn history_flags_follow_the_stacks() {
    let mut doc = Document::new();
    assert!(!doc.can_undo());
    assert!(!doc.can_redo());
    doc.edit(0, "a");
    assert!(doc.can_undo());
    assert!(!doc.can_redo());
    doc.undo().unwrap();
    assert!(!doc.can_undo());
    assert!(doc.can_redo());
    doc.redo().unwrap();
    assert!(doc.can_undo());
    assert!(!doc.can_redo());
}

#[test]
fn undo_on_empty_stack_fails() {
    let mut doc = Document::new();
    assert_eq!(doc.undo().unwrap_err(), OTError::UndoFail);
    assert_eq!(doc.redo().unwrap_err(), OTError::RedoFail);
}

#[test]
fn fresh_edit_clears_redo() {
    let mut doc = Document::new();
    doc.edit(0, "ab");
    doc.undo().unwrap();
    assert!(doc.can_redo());
    doc.edit(0, "xy");
    assert!(!doc.can_redo());
}

#[test]
fn empty_edit_changes_nothing_but_the_revision() {
    let mut doc = Document::new();
    doc.edit(0, "ab");
    let before = doc.to_json();
    let rev = doc.next_rev_id().0;
    doc.edit(1, "");
    assert_eq!(doc.to_json(), before);
    assert_eq!(doc.next_rev_id().0, rev + 1);
    assert!(!doc.can_redo());
}

#[test]
fn export_round_trip_after_state_import() {
    let mut doc = Document::new();
    doc.edit(0, "Hello");
    doc.format(Interval::new(1, 3), Attribute::Italic, true);
    let exported = doc.to_json();
    let snapshot = doc.data().clone();
    doc.set_data(snapshot);
    assert_eq!(doc.to_json(), exported);
    assert!(!doc.can_undo());
}

#[test]
fn rebuilt_delta_matches_document_length() {
    let mut doc = Document::new();
    doc.edit(0, "Hello World");
    doc.format(Interval::new(0, 5), Attribute::Bold, true);
    let d = rebuild_delta(doc.data(), Operation::Delete(4), Interval::new(2, 6));
    assert_eq!(d.base_len, 11);
    assert_eq!(d.target_len, 7);
}

#[test]
fn convergence_makes_both_sides_identical() {
    let mut left = Document::new();
    left.edit(0, "abc");
    left.format(Interval::new(0, 1), Attribute::Bold, true);
    let mut right = Document::new();
    right.edit(0, "XY");
    transform(&mut left, &mut right);
    assert_eq!(left.to_json(), right.to_json());
    assert_eq!(left.to_json(), "[#b+:a][~:b][~:c][~:X][~:Y]");
}

#[test]
fn convergence_of_edits_over_empty_ancestor() {
    let mut left = Document::new();
    let mut right = Document::new();
    right.edit(0, "z");
    transform(&mut left, &mut right);
    assert_eq!(left.to_json(), right.to_json());
    assert_eq!(left.to_json(), "[~:z]");
}
