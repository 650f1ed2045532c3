use lightswitch::unwind_info::{
    is_strictly_sorted, remove_redundant, remove_unnecessary_markers, CompactUnwindRow,
    CFA_TYPE_END_FDE_MARKER, CFA_TYPE_RBP_OFFSET, CFA_TYPE_RSP_OFFSET, RBP_TYPE_CFA_OFFSET,
    RBP_TYPE_UNCHANGED,
};

fn rule(pc: u64, cfa_type: u8, cfa_offset: i16) -> CompactUnwindRow {
    CompactUnwindRow {
        pc,
        cfa_type,
        rbp_type: RBP_TYPE_UNCHANGED,
        cfa_offset,
        rbp_offset: 0,
    }
}

#[test]
fn marker_before_adjacent_rule_is_dropped() {
    let mut rows = vec![
        rule(0x100, CFA_TYPE_RSP_OFFSET, 8),
        CompactUnwindRow::end_of_function(0x10f),
        rule(0x110, CFA_TYPE_RSP_OFFSET, 8),
        CompactUnwindRow::end_of_function(0x120),
    ];
    remove_unnecessary_markers(&mut rows);
    assert_eq!(
        rows,
        vec![
            rule(0x100, CFA_TYPE_RSP_OFFSET, 8),
            rule(0x110, CFA_TYPE_RSP_OFFSET, 8),
            CompactUnwindRow::end_of_function(0x120),
        ]
    );
}

#[test]
fn marker_before_gap_is_kept() {
    let mut rows = vec![
        rule(0x100, CFA_TYPE_RSP_OFFSET, 8),
        CompactUnwindRow::end_of_function(0x10f),
        rule(0x200, CFA_TYPE_RSP_OFFSET, 8),
    ];
    let before = rows.clone();
    remove_unnecessary_markers(&mut rows);
    assert_eq!(rows, before);
}

#[test]
fn marker_before_marker_is_kept() {
    let mut rows = vec![
        CompactUnwindRow::end_of_function(0x10f),
        CompactUnwindRow::end_of_function(0x110),
    ];
    let before = rows.clone();
    remove_unnecessary_markers(&mut rows);
    assert_eq!(rows, before);
}

#[test]
fn equal_rules_collapse_to_the_first() {
    let mut rows = vec![
        rule(0x100, CFA_TYPE_RSP_OFFSET, 8),
        rule(0x104, CFA_TYPE_RSP_OFFSET, 8),
        rule(0x108, CFA_TYPE_RSP_OFFSET, 16),
        rule(0x10c, CFA_TYPE_RSP_OFFSET, 16),
        rule(0x110, CFA_TYPE_RSP_OFFSET, 16),
        rule(0x114, CFA_TYPE_RBP_OFFSET, 16),
        rule(0x118, CFA_TYPE_RSP_OFFSET, 8),
    ];
    remove_redundant(&mut rows);
    assert_eq!(
        rows,
        vec![
            rule(0x100, CFA_TYPE_RSP_OFFSET, 8),
            rule(0x108, CFA_TYPE_RSP_OFFSET, 16),
            rule(0x114, CFA_TYPE_RBP_OFFSET, 16),
            rule(0x118, CFA_TYPE_RSP_OFFSET, 8),
        ]
    );
}

#[test]
fn rows_that_differ_in_the_frame_pointer_rule_stay() {
    let mut rows = vec![
        rule(0x100, CFA_TYPE_RSP_OFFSET, 8),
        CompactUnwindRow {
            pc: 0x101,
            cfa_type: CFA_TYPE_RSP_OFFSET,
            rbp_type: RBP_TYPE_CFA_OFFSET,
            cfa_offset: 8,
            rbp_offset: -16,
        },
        CompactUnwindRow {
            pc: 0x102,
            cfa_type: CFA_TYPE_RSP_OFFSET,
            rbp_type: RBP_TYPE_CFA_OFFSET,
            cfa_offset: 8,
            rbp_offset: -24,
        },
    ];
    let before = rows.clone();
    remove_redundant(&mut rows);
    assert_eq!(rows, before);
}

#[test]
fn both_passes_are_idempotent_and_leave_a_tight_table() {
    let mut rows = vec![
        rule(0x100, CFA_TYPE_RSP_OFFSET, 8),
        rule(0x104, CFA_TYPE_RSP_OFFSET, 8),
        CompactUnwindRow::end_of_function(0x10f),
        rule(0x110, CFA_TYPE_RSP_OFFSET, 8),
        rule(0x114, CFA_TYPE_RSP_OFFSET, 16),
        CompactUnwindRow::end_of_function(0x120),
        CompactUnwindRow::end_of_function(0x130),
        rule(0x140, CFA_TYPE_RBP_OFFSET, 16),
        CompactUnwindRow::end_of_function(0x150),
    ];
    assert!(is_strictly_sorted(&rows));
    remove_unnecessary_markers(&mut rows);
    let once = rows.clone();
    remove_unnecessary_markers(&mut rows);
    assert_eq!(rows, once);
    remove_redundant(&mut rows);
    let optimized = rows.clone();
    assert_eq!(
        optimized,
        vec![
            rule(0x100, CFA_TYPE_RSP_OFFSET, 8),
            rule(0x114, CFA_TYPE_RSP_OFFSET, 16),
            CompactUnwindRow::end_of_function(0x120),
            rule(0x140, CFA_TYPE_RBP_OFFSET, 16),
            CompactUnwindRow::end_of_function(0x150),
        ]
    );
    remove_redundant(&mut rows);
    assert_eq!(rows, optimized);
    remove_unnecessary_markers(&mut rows);
    assert_eq!(rows, optimized);
    assert!(is_strictly_sorted(&rows));
    for pair in rows.windows(2) {
        assert!(
            !(pair[0].cfa_type == CFA_TYPE_END_FDE_MARKER
                && pair[1].cfa_type != CFA_TYPE_END_FDE_MARKER
                && pair[1].pc == pair[0].pc + 1)
        );
    }
}

#[test]
fn empty_and_single_row_tables_stay() {
    let mut rows: Vec<CompactUnwindRow> = vec![];
    remove_unnecessary_markers(&mut rows);
    remove_redundant(&mut rows);
    assert!(rows.is_empty());
    let mut rows = vec![CompactUnwindRow::end_of_function(7)];
    remove_unnecessary_markers(&mut rows);
    remove_redundant(&mut rows);
    assert_eq!(rows, vec![CompactUnwindRow::end_of_function(7)]);
}

#[test]
fn marker_at_the_highest_address_is_kept() {
    let mut rows = vec![
        CompactUnwindRow::end_of_function(u64::MAX),
        rule(0, CFA_TYPE_RSP_OFFSET, 8),
    ];
    let before = rows.clone();
    remove_unnecessary_markers(&mut rows);
    assert_eq!(rows, before);
}

#[test]
fn sortedness_is_strict() {
    assert!(is_strictly_sorted(&vec![]));
    assert!(is_strictly_sorted(&vec![rule(1, CFA_TYPE_RSP_OFFSET, 8)]));
    assert!(!is_strictly_sorted(&vec![
        rule(1, CFA_TYPE_RSP_OFFSET, 8),
        rule(1, CFA_TYPE_RSP_OFFSET, 16)
    ]));
    assert!(!is_strictly_sorted(&vec![
        rule(2, CFA_TYPE_RSP_OFFSET, 8),
        rule(1, CFA_TYPE_RSP_OFFSET, 16)
    ]));
}

#[test]
fn marker_where_the_next_function_begins_is_dropped() {
    // The second function begins at the first address past the first.
    let mut rows = vec![
        rule(0x10, CFA_TYPE_RSP_OFFSET, 8),
        CompactUnwindRow::end_of_function(0x20),
        rule(0x20, CFA_TYPE_RSP_OFFSET, 16),
        CompactUnwindRow::end_of_function(0x30),
    ];
    assert!(!is_strictly_sorted(&rows));
    remove_unnecessary_markers(&mut rows);
    assert_eq!(
        rows,
        vec![
            rule(0x10, CFA_TYPE_RSP_OFFSET, 8),
            rule(0x20, CFA_TYPE_RSP_OFFSET, 16),
            CompactUnwindRow::end_of_function(0x30),
        ]
    );
    assert!(is_strictly_sorted(&rows));
    let once = rows.clone();
    remove_unnecessary_markers(&mut rows);
    assert_eq!(rows, once);
}

#[test]
fn marker_two_addresses_before_a_rule_is_kept() {
    let mut rows = vec![
        rule(0x10, CFA_TYPE_RSP_OFFSET, 8),
        CompactUnwindRow::end_of_function(0x20),
        rule(0x22, CFA_TYPE_RSP_OFFSET, 16),
    ];
    let before = rows.clone();
    remove_unnecessary_markers(&mut rows);
    assert_eq!(rows, before);
}

#[test]
fn marker_at_the_last_address_before_a_rule_at_the_same_address() {
    let mut rows =
        vec![CompactUnwindRow::end_of_function(u64::MAX), rule(u64::MAX, CFA_TYPE_RSP_OFFSET, 8)];
    remove_unnecessary_markers(&mut rows);
    assert_eq!(rows, vec![rule(u64::MAX, CFA_TYPE_RSP_OFFSET, 8)]);
}
