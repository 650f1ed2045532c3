use lightswitch::extract::are_functions_in_order;
use lightswitch::extract::{
    compact_unwind_info, is_supported_expression, translate_row, CfaRule, CfiRow,
    FrameDescription, Operation, RbpRule, UnwindInfoError, RBP_REGISTER, RSP_REGISTER,
};
use lightswitch::unwind_info::{
    remove_redundant, remove_unnecessary_markers, CompactUnwindRow, CFA_TYPE_END_FDE_MARKER,
    CFA_TYPE_EXPRESSION, CFA_TYPE_RBP_OFFSET, CFA_TYPE_RSP_OFFSET, CFA_TYPE_UNDEFINED,
    RBP_TYPE_CFA_OFFSET, RBP_TYPE_EXPRESSION, RBP_TYPE_SAME_VALUE, RBP_TYPE_UNCHANGED,
    RBP_TYPE_UNDEFINED,
};

fn plt() -> Vec<Operation> {
    vec![Operation::BaseRegister(RSP_REGISTER), Operation::Dereference, Operation::Constant]
}

fn rsp(start_address: u64, offset: i64) -> CfiRow {
    CfiRow {
        start_address,
        cfa: CfaRule::RegisterAndOffset { register: RSP_REGISTER, offset },
        rbp: RbpRule::Unchanged,
    }
}

fn function(initial_location: u64, address_range: u64, rows: Vec<CfiRow>) -> FrameDescription {
    FrameDescription { initial_location, address_range, rows }
}

fn compact(pc: u64, cfa_type: u8, cfa_offset: i16, rbp_type: u8, rbp_offset: i16) -> CompactUnwindRow {
    CompactUnwindRow { pc, cfa_type, rbp_type, cfa_offset, rbp_offset }
}

#[test]
fn each_rule_has_its_kind() {
    assert_eq!(
        translate_row(&rsp(0x10, 8)),
        Ok(compact(0x10, CFA_TYPE_RSP_OFFSET, 8, RBP_TYPE_UNCHANGED, 0))
    );
    assert_eq!(
        translate_row(&CfiRow {
            start_address: 0x20,
            cfa: CfaRule::RegisterAndOffset { register: RBP_REGISTER, offset: 16 },
            rbp: RbpRule::Offset(-16),
        }),
        Ok(compact(0x20, CFA_TYPE_RBP_OFFSET, 16, RBP_TYPE_CFA_OFFSET, -16))
    );
    assert_eq!(
        translate_row(&CfiRow {
            start_address: 0x30,
            cfa: CfaRule::Expression(plt()),
            rbp: RbpRule::SameValue,
        }),
        Ok(compact(0x30, CFA_TYPE_EXPRESSION, 0, RBP_TYPE_SAME_VALUE, 0))
    );
    assert_eq!(
        translate_row(&CfiRow {
            start_address: 0x40,
            cfa: CfaRule::RegisterAndOffset { register: 3, offset: 1 << 40 },
            rbp: RbpRule::Undefined,
        }),
        Ok(compact(0x40, CFA_TYPE_UNDEFINED, 0, RBP_TYPE_UNDEFINED, 0))
    );
    assert_eq!(
        translate_row(&CfiRow {
            start_address: 0x50,
            cfa: CfaRule::RegisterAndOffset { register: RSP_REGISTER, offset: -0x8000 },
            rbp: RbpRule::Expression(plt()),
        }),
        Ok(compact(0x50, CFA_TYPE_RSP_OFFSET, i16::MIN, RBP_TYPE_EXPRESSION, 0))
    );
    assert_eq!(RSP_REGISTER, 7);
    assert_eq!(RBP_REGISTER, 6);
}

#[test]
fn an_offset_that_does_not_fit_is_malformed() {
    assert_eq!(translate_row(&rsp(0x10, 0x8000)), Err(UnwindInfoError::MalformedCfi));
    assert_eq!(translate_row(&rsp(0x10, -0x8001)), Err(UnwindInfoError::MalformedCfi));
    assert!(translate_row(&rsp(0x10, 0x7fff)).is_ok());
    assert_eq!(
        translate_row(&CfiRow { rbp: RbpRule::Offset(i64::MAX), ..rsp(0x10, 8) }),
        Err(UnwindInfoError::MalformedCfi)
    );
}

#[test]
fn only_one_expression_is_recognised() {
    assert!(is_supported_expression(&plt()));
    assert!(!is_supported_expression(&vec![]));
    assert!(!is_supported_expression(&vec![
        Operation::BaseRegister(RBP_REGISTER),
        Operation::Dereference,
        Operation::Constant
    ]));
    assert!(!is_supported_expression(&vec![
        Operation::BaseRegister(RSP_REGISTER),
        Operation::Constant,
        Operation::Dereference
    ]));
    assert!(!is_supported_expression(&vec![
        Operation::BaseRegister(RSP_REGISTER),
        Operation::Dereference,
        Operation::Other
    ]));
    let mut longer = plt();
    longer.push(Operation::Constant);
    assert!(!is_supported_expression(&longer));
    assert_eq!(
        translate_row(&CfiRow {
            start_address: 1,
            cfa: CfaRule::Expression(longer),
            rbp: RbpRule::Unchanged
        }),
        Err(UnwindInfoError::UnsupportedExpression)
    );
    assert_eq!(
        translate_row(&CfiRow { rbp: RbpRule::Expression(vec![Operation::Other]), ..rsp(1, 8) }),
        Err(UnwindInfoError::UnsupportedExpression)
    );
    // Of two failures that of the frame address counts.
    assert_eq!(
        translate_row(&CfiRow {
            start_address: 1,
            cfa: CfaRule::Expression(vec![]),
            rbp: RbpRule::Offset(i64::MIN)
        }),
        Err(UnwindInfoError::UnsupportedExpression)
    );
}

#[test]
fn each_function_ends_in_its_marker() {
    let fdes = vec![
        function(0x100, 0x20, vec![rsp(0x100, 8), rsp(0x104, 16), rsp(0x11f, 8)]),
        function(0x200, 0x10, vec![rsp(0x200, 8)]),
    ];
    assert_eq!(
        compact_unwind_info(&fdes),
        Ok(vec![
            compact(0x100, CFA_TYPE_RSP_OFFSET, 8, RBP_TYPE_UNCHANGED, 0),
            compact(0x104, CFA_TYPE_RSP_OFFSET, 16, RBP_TYPE_UNCHANGED, 0),
            compact(0x11f, CFA_TYPE_RSP_OFFSET, 8, RBP_TYPE_UNCHANGED, 0),
            compact(0x120, CFA_TYPE_END_FDE_MARKER, 0, RBP_TYPE_UNCHANGED, 0),
            compact(0x200, CFA_TYPE_RSP_OFFSET, 8, RBP_TYPE_UNCHANGED, 0),
            compact(0x210, CFA_TYPE_END_FDE_MARKER, 0, RBP_TYPE_UNCHANGED, 0),
        ])
    );
}

#[test]
fn without_frame_descriptions_there_is_no_unwind_info() {
    assert_eq!(compact_unwind_info(&vec![]), Err(UnwindInfoError::NoUnwindInfo));
}

#[test]
fn an_unsupported_expression_fails_the_whole_table() {
    let fdes = vec![
        function(0x100, 0x20, vec![rsp(0x100, 8)]),
        function(
            0x200,
            0x10,
            vec![
                rsp(0x200, 8),
                CfiRow {
                    start_address: 0x204,
                    cfa: CfaRule::Expression(vec![Operation::Other]),
                    rbp: RbpRule::Unchanged,
                },
            ],
        ),
        function(0x300, 0x10, vec![rsp(0x300, 8)]),
    ];
    assert_eq!(compact_unwind_info(&fdes), Err(UnwindInfoError::UnsupportedExpression));
}

#[test]
fn a_frame_description_out_of_order_is_malformed() {
    // No rows.
    assert_eq!(
        compact_unwind_info(&vec![function(0x100, 0x20, vec![])]),
        Err(UnwindInfoError::MalformedCfi)
    );
    // A row before the function.
    assert_eq!(
        compact_unwind_info(&vec![function(0x100, 0x20, vec![rsp(0xff, 8)])]),
        Err(UnwindInfoError::MalformedCfi)
    );
    // A row at the end of the function, which is the first address past it.
    assert_eq!(
        compact_unwind_info(&vec![function(0x100, 0x20, vec![rsp(0x100, 8), rsp(0x120, 8)])]),
        Err(UnwindInfoError::MalformedCfi)
    );
    // Two rows at one address.
    assert_eq!(
        compact_unwind_info(&vec![function(0x100, 0x20, vec![rsp(0x104, 8), rsp(0x104, 16)])]),
        Err(UnwindInfoError::MalformedCfi)
    );
    // An end past the last address.
    assert_eq!(
        compact_unwind_info(&vec![function(u64::MAX, 1, vec![rsp(u64::MAX, 8)])]),
        Err(UnwindInfoError::MalformedCfi)
    );
    // The last function that fits.
    assert_eq!(
        compact_unwind_info(&vec![function(u64::MAX - 1, 1, vec![rsp(u64::MAX - 1, 8)])]),
        Ok(vec![
            compact(u64::MAX - 1, CFA_TYPE_RSP_OFFSET, 8, RBP_TYPE_UNCHANGED, 0),
            compact(u64::MAX, CFA_TYPE_END_FDE_MARKER, 0, RBP_TYPE_UNCHANGED, 0),
        ])
    );
    // The first failure counts.
    assert_eq!(
        compact_unwind_info(&vec![
            function(0x100, 0x20, vec![rsp(0x100, 1 << 20)]),
            function(
                0x200,
                0x20,
                vec![CfiRow {
                    start_address: 0x200,
                    cfa: CfaRule::Expression(vec![]),
                    rbp: RbpRule::Unchanged
                }]
            ),
        ]),
        Err(UnwindInfoError::MalformedCfi)
    );
}

#[test]
fn a_table_that_was_made_goes_through_the_passes() {
    // The second function begins one address past the marker of the first.
    let fdes = vec![
        function(0x100, 0x20, vec![rsp(0x100, 8), rsp(0x104, 8)]),
        function(0x121, 0x10, vec![rsp(0x121, 8)]),
    ];
    let mut rows = compact_unwind_info(&fdes).unwrap();
    assert_eq!(rows.len(), 5);
    remove_unnecessary_markers(&mut rows);
    remove_redundant(&mut rows);
    assert_eq!(
        rows,
        vec![
            compact(0x100, CFA_TYPE_RSP_OFFSET, 8, RBP_TYPE_UNCHANGED, 0),
            compact(0x131, CFA_TYPE_END_FDE_MARKER, 0, RBP_TYPE_UNCHANGED, 0),
        ]
    );
}

#[test]
fn functions_without_a_gap_give_a_table_that_can_be_packed() {
    let fdes = vec![
        function(0x10, 0x10, vec![rsp(0x10, 8), rsp(0x14, 16)]),
        function(0x20, 0x10, vec![rsp(0x20, 8)]),
    ];
    assert!(are_functions_in_order(&fdes));
    let mut rows = compact_unwind_info(&fdes).unwrap();
    // The marker of the first function and the first rule of the second
    // stand at one address.
    assert_eq!(rows[2], compact(0x20, CFA_TYPE_END_FDE_MARKER, 0, RBP_TYPE_UNCHANGED, 0));
    assert_eq!(rows[3], compact(0x20, CFA_TYPE_RSP_OFFSET, 8, RBP_TYPE_UNCHANGED, 0));
    remove_unnecessary_markers(&mut rows);
    remove_redundant(&mut rows);
    assert_eq!(
        rows,
        vec![
            compact(0x10, CFA_TYPE_RSP_OFFSET, 8, RBP_TYPE_UNCHANGED, 0),
            compact(0x14, CFA_TYPE_RSP_OFFSET, 16, RBP_TYPE_UNCHANGED, 0),
            compact(0x20, CFA_TYPE_RSP_OFFSET, 8, RBP_TYPE_UNCHANGED, 0),
            compact(0x30, CFA_TYPE_END_FDE_MARKER, 0, RBP_TYPE_UNCHANGED, 0),
        ]
    );
    assert!(lightswitch::unwind_info::is_strictly_sorted(&rows));
}

#[test]
fn functions_in_order_do_not_overlap() {
    assert!(are_functions_in_order(&vec![]));
    assert!(are_functions_in_order(&vec![function(0x10, 0x10, vec![])]));
    assert!(are_functions_in_order(&vec![
        function(0x10, 0x10, vec![]),
        function(0x20, 0x10, vec![]),
        function(0x40, 0x10, vec![]),
    ]));
    // The second begins inside the first.
    assert!(!are_functions_in_order(&vec![
        function(0x10, 0x11, vec![]),
        function(0x20, 0x10, vec![]),
    ]));
    // The second begins before the first.
    assert!(!are_functions_in_order(&vec![
        function(0x20, 0x10, vec![]),
        function(0x10, 0x10, vec![]),
    ]));
    // An end past the last address lies past every beginning.
    assert!(!are_functions_in_order(&vec![
        function(u64::MAX, 2, vec![]),
        function(u64::MAX, 1, vec![]),
    ]));
}
