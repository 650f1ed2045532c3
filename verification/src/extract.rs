//! From call-frame information to compact rows: what each rule becomes, and
//! how the rows of a function are closed by the marker of its end.
//!
//! The call-frame information comes as frame descriptions, one for each
//! function, each with the rows that its program gave, one for each address
//! at which the rules change. Reading them out of an object file is left
//! to the program built around the library.

use vstd::prelude::*;
use crate::unwind_laws::{lemma_last_row_stays, lemma_optimized_functions, lemma_passes_keep_rows};
use crate::unwind_info::{
    in_function_order, markers_are_necessary, rules_are_distinct, strictly_sorted,
    without_redundant, without_unnecessary_markers, CompactUnwindRow, CFA_TYPE_EXPRESSION, CFA_TYPE_RBP_OFFSET,
    CFA_TYPE_RSP_OFFSET, CFA_TYPE_UNDEFINED, RBP_TYPE_CFA_OFFSET, RBP_TYPE_EXPRESSION,
    RBP_TYPE_SAME_VALUE, RBP_TYPE_UNCHANGED, RBP_TYPE_UNDEFINED,
};

verus! {

/// The number of the frame pointer among the registers.
pub const RBP_REGISTER: u16 = 6;

/// The number of the stack pointer among the registers.
pub const RSP_REGISTER: u16 = 7;

/// Why the call-frame information of an executable gave no table.
#[derive(Clone, Copy, Debug, PartialEq, Eq, Structural)]
pub enum UnwindInfoError {
    /// A rule is the value of an expression that is not the one
    /// recognised.
    UnsupportedExpression,
    /// A frame description is not in order: it has no rows, its end lies
    /// past the last address, a row lies outside it or does not come
    /// after the row before, or an offset does not fit into a row.
    MalformedCfi,
    /// There is no frame description at all.
    NoUnwindInfo,
}

/// One step of an expression, as far as it matters here.
#[derive(Clone, Copy, Debug, PartialEq, Eq, Structural)]
pub enum Operation {
    /// The value of a register plus an offset.
    BaseRegister(u16),
    /// What lies at the address computed so far.
    Dereference,
    /// The value computed so far plus a constant.
    Constant,
    /// Anything else.
    Other,
}

/// How the canonical frame address is computed.
#[derive(Debug)]
pub enum CfaRule {
    RegisterAndOffset { register: u16, offset: i64 },
    Expression(Vec<Operation>),
}

/// How the frame pointer of the caller is recovered.
#[derive(Debug)]
pub enum RbpRule {
    /// There is no rule: the frame pointer was not touched.
    Unchanged,
    /// Saved at an offset from the canonical frame address.
    Offset(i64),
    SameValue,
    Undefined,
    Expression(Vec<Operation>),
}

/// The rules that hold from an address on.
#[derive(Debug)]
pub struct CfiRow {
    pub start_address: u64,
    pub cfa: CfaRule,
    pub rbp: RbpRule,
}

/// The call-frame information of one function.
#[derive(Debug)]
pub struct FrameDescription {
    pub initial_location: u64,
    pub address_range: u64,
    pub rows: Vec<CfiRow>,
}

/// The one expression that is recognised, as procedure linkage tables use
/// it: the stack pointer plus an offset, dereferenced, plus a constant.
pub open spec fn supported_expression(operations: Seq<Operation>) -> bool {
    &&& operations.len() == 3
    &&& operations[0] == Operation::BaseRegister(RSP_REGISTER)
    &&& operations[1] == Operation::Dereference
    &&& operations[2] == Operation::Constant
}

/// The offset fits into a row.
pub open spec fn fits_row(offset: i64) -> bool {
    -0x8000 <= offset <= 0x7fff
}

/// The kind and the offset that stand for a rule for the canonical frame
/// address. A register other than the stack and the frame pointer gives
/// an address that is not defined.
pub open spec fn cfa_of(rule: CfaRule) -> Result<(u8, i16), UnwindInfoError> {
    match rule {
        CfaRule::RegisterAndOffset { register, offset } => if register != RSP_REGISTER && register
            != RBP_REGISTER {
            Ok((CFA_TYPE_UNDEFINED, 0i16))
        } else if !fits_row(offset) {
            Err(UnwindInfoError::MalformedCfi)
        } else if register == RSP_REGISTER {
            Ok((CFA_TYPE_RSP_OFFSET, offset as i16))
        } else {
            Ok((CFA_TYPE_RBP_OFFSET, offset as i16))
        },
        CfaRule::Expression(operations) => if supported_expression(operations@) {
            Ok((CFA_TYPE_EXPRESSION, 0i16))
        } else {
            Err(UnwindInfoError::UnsupportedExpression)
        },
    }
}

/// The kind and the offset that stand for a rule for the frame pointer.
pub open spec fn rbp_of(rule: RbpRule) -> Result<(u8, i16), UnwindInfoError> {
    match rule {
        RbpRule::Unchanged => Ok((RBP_TYPE_UNCHANGED, 0i16)),
        RbpRule::Offset(offset) => if fits_row(offset) {
            Ok((RBP_TYPE_CFA_OFFSET, offset as i16))
        } else {
            Err(UnwindInfoError::MalformedCfi)
        },
        RbpRule::SameValue => Ok((RBP_TYPE_SAME_VALUE, 0i16)),
        RbpRule::Undefined => Ok((RBP_TYPE_UNDEFINED, 0i16)),
        RbpRule::Expression(operations) => if supported_expression(operations@) {
            Ok((RBP_TYPE_EXPRESSION, 0i16))
        } else {
            Err(UnwindInfoError::UnsupportedExpression)
        },
    }
}

/// The compact row for a row of the call-frame information; of two
/// failures that of the frame address counts.
pub open spec fn compact_row(row: CfiRow) -> Result<CompactUnwindRow, UnwindInfoError> {
    match cfa_of(row.cfa) {
        Err(e) => Err(e),
        Ok(cfa) => match rbp_of(row.rbp) {
            Err(e) => Err(e),
            Ok(rbp) => Ok(
                CompactUnwindRow {
                    pc: row.start_address,
                    cfa_type: cfa.0,
                    rbp_type: rbp.0,
                    cfa_offset: cfa.1,
                    rbp_offset: rbp.1,
                },
            ),
        },
    }
}

/// The first address past the function.
pub open spec fn function_end(fde: FrameDescription) -> int {
    fde.initial_location + fde.address_range
}

/// The row at place `i` lies inside the function and after the row
/// before it.
pub open spec fn row_in_place(fde: FrameDescription, i: int) -> bool {
    &&& fde.initial_location <= fde.rows@[i].start_address < function_end(fde)
    &&& i > 0 ==> fde.rows@[i - 1].start_address < fde.rows@[i].start_address
}

/// The compact rows for the first `n` rows of a function, or the first
/// failure among them.
pub open spec fn function_rows(fde: FrameDescription, n: int) -> Result<
    Seq<CompactUnwindRow>,
    UnwindInfoError,
>
    decreases n,
{
    if n <= 0 {
        Ok(Seq::empty())
    } else {
        match function_rows(fde, n - 1) {
            Err(e) => Err(e),
            Ok(rows) => if !row_in_place(fde, n - 1) {
                Err(UnwindInfoError::MalformedCfi)
            } else {
                match compact_row(fde.rows@[n - 1]) {
                    Err(e) => Err(e),
                    Ok(row) => Ok(rows.push(row)),
                }
            },
        }
    }
}

/// The table of one function: the compact rows for its rows, and the
/// marker of its end at the first address past it.
pub open spec fn function_table(fde: FrameDescription) -> Result<
    Seq<CompactUnwindRow>,
    UnwindInfoError,
> {
    if fde.rows@.len() == 0 || function_end(fde) > u64::MAX {
        Err(UnwindInfoError::MalformedCfi)
    } else {
        match function_rows(fde, fde.rows@.len() as int) {
            Err(e) => Err(e),
            Ok(rows) => Ok(rows.push(CompactUnwindRow::end_marker(function_end(fde) as u64))),
        }
    }
}

/// The tables of the first `n` functions, one after the other, or the
/// first failure among them.
pub open spec fn tables_of(fdes: Seq<FrameDescription>, n: int) -> Result<
    Seq<CompactUnwindRow>,
    UnwindInfoError,
>
    decreases n,
{
    if n <= 0 {
        Ok(Seq::empty())
    } else {
        match tables_of(fdes, n - 1) {
            Err(e) => Err(e),
            Ok(rows) => match function_table(fdes[n - 1]) {
                Err(e) => Err(e),
                Ok(table) => Ok(rows + table),
            },
        }
    }
}

/// The compact unwind table for the call-frame information of an
/// executable.
pub open spec fn unwind_table_of(fdes: Seq<FrameDescription>) -> Result<
    Seq<CompactUnwindRow>,
    UnwindInfoError,
> {
    if fdes.len() == 0 {
        Err(UnwindInfoError::NoUnwindInfo)
    } else {
        tables_of(fdes, fdes.len() as int)
    }
}

/// Says whether an expression is the one that is recognised.
pub fn is_supported_expression(operations: &Vec<Operation>) -> (supported: bool)
    ensures
        supported == supported_expression(operations@),
{
    if operations.len() != 3 {
        return false;
    }
    let first = match operations[0] {
        Operation::BaseRegister(register) => register == RSP_REGISTER,
        _ => false,
    };
    let second = match operations[1] {
        Operation::Dereference => true,
        _ => false,
    };
    let third = match operations[2] {
        Operation::Constant => true,
        _ => false,
    };
    first && second && third
}

/// The offset as a row holds it, if it fits.
fn row_offset(offset: i64) -> (fitted: Option<i16>)
    ensures
        fits_row(offset) ==> fitted == Some(offset as i16),
        !fits_row(offset) ==> fitted is None,
{
    if -0x8000 <= offset && offset <= 0x7fff {
        Some(offset as i16)
    } else {
        None
    }
}

/// The kind and the offset that stand for a rule for the canonical frame
/// address.
fn translate_cfa(rule: &CfaRule) -> (translated: Result<(u8, i16), UnwindInfoError>)
    ensures
        translated == cfa_of(*rule),
{
    match rule {
        CfaRule::RegisterAndOffset { register, offset } => {
            if *register != RSP_REGISTER && *register != RBP_REGISTER {
                return Ok((CFA_TYPE_UNDEFINED, 0i16));
            }
            match row_offset(*offset) {
                None => Err(UnwindInfoError::MalformedCfi),
                Some(fitted) => if *register == RSP_REGISTER {
                    Ok((CFA_TYPE_RSP_OFFSET, fitted))
                } else {
                    Ok((CFA_TYPE_RBP_OFFSET, fitted))
                },
            }
        },
        CfaRule::Expression(operations) => {
            if is_supported_expression(operations) {
                Ok((CFA_TYPE_EXPRESSION, 0i16))
            } else {
                Err(UnwindInfoError::UnsupportedExpression)
            }
        },
    }
}

/// The kind and the offset that stand for a rule for the frame pointer.
fn translate_rbp(rule: &RbpRule) -> (translated: Result<(u8, i16), UnwindInfoError>)
    ensures
        translated == rbp_of(*rule),
{
    match rule {
        RbpRule::Unchanged => Ok((RBP_TYPE_UNCHANGED, 0i16)),
        RbpRule::Offset(offset) => match row_offset(*offset) {
            None => Err(UnwindInfoError::MalformedCfi),
            Some(fitted) => Ok((RBP_TYPE_CFA_OFFSET, fitted)),
        },
        RbpRule::SameValue => Ok((RBP_TYPE_SAME_VALUE, 0i16)),
        RbpRule::Undefined => Ok((RBP_TYPE_UNDEFINED, 0i16)),
        RbpRule::Expression(operations) => {
            if is_supported_expression(operations) {
                Ok((RBP_TYPE_EXPRESSION, 0i16))
            } else {
                Err(UnwindInfoError::UnsupportedExpression)
            }
        },
    }
}

/// The compact row for a row of the call-frame information.
pub fn translate_row(row: &CfiRow) -> (translated: Result<CompactUnwindRow, UnwindInfoError>)
    ensures
        translated == compact_row(*row),
{
    let cfa = match translate_cfa(&row.cfa) {
        Ok(cfa) => cfa,
        Err(e) => {
            return Err(e);
        },
    };
    let rbp = match translate_rbp(&row.rbp) {
        Ok(rbp) => rbp,
        Err(e) => {
            return Err(e);
        },
    };
    Ok(
        CompactUnwindRow {
            pc: row.start_address,
            cfa_type: cfa.0,
            rbp_type: rbp.0,
            cfa_offset: cfa.1,
            rbp_offset: rbp.1,
        },
    )
}

proof fn lemma_function_rows_stay_failed(fde: FrameDescription, i: int, n: int)
    requires
        0 <= i <= n,
        function_rows(fde, i) is Err,
    ensures
        function_rows(fde, n) == function_rows(fde, i),
    decreases n - i,
{
    if i < n {
        lemma_function_rows_stay_failed(fde, i, n - 1);
    }
}

proof fn lemma_tables_stay_failed(fdes: Seq<FrameDescription>, i: int, n: int)
    requires
        0 <= i <= n,
        tables_of(fdes, i) is Err,
    ensures
        tables_of(fdes, n) == tables_of(fdes, i),
    decreases n - i,
{
    if i < n {
        lemma_tables_stay_failed(fdes, i, n - 1);
    }
}

/// Appends the table of one function: the compact rows for its rows, and
/// the marker of its end. On a failure `out` is left with the rows that
/// were appended before it.
fn append_function_table(out: &mut Vec<CompactUnwindRow>, fde: &FrameDescription) -> (result:
    Result<(), UnwindInfoError>)
    ensures
        match function_table(*fde) {
            Ok(table) => result is Ok && final(out)@ == old(out)@ + table,
            Err(e) => result == Err::<(), UnwindInfoError>(e),
        },
{
    let ghost start = out@;
    let n: usize = fde.rows.len();
    if n == 0 || fde.address_range > u64::MAX - fde.initial_location {
        return Err(UnwindInfoError::MalformedCfi);
    }
    let end: u64 = fde.initial_location + fde.address_range;
    let mut i: usize = 0;
    while i < n
        invariant
            i <= n,
            n == fde.rows@.len(),
            end == function_end(*fde),
            function_rows(*fde, i as int) is Ok,
            out@ == start + function_rows(*fde, i as int)->Ok_0,
        decreases n - i,
    {
        let row = &fde.rows[i];
        let in_place = fde.initial_location <= row.start_address && row.start_address < end && (i
            == 0 || fde.rows[i - 1].start_address < row.start_address);
        assert(in_place == row_in_place(*fde, i as int));
        if !in_place {
            proof {
                lemma_function_rows_stay_failed(*fde, i + 1, n as int);
            }
            return Err(UnwindInfoError::MalformedCfi);
        }
        match translate_row(row) {
            Err(e) => {
                proof {
                    lemma_function_rows_stay_failed(*fde, i + 1, n as int);
                }
                return Err(e);
            },
            Ok(compact) => {
                out.push(compact);
                assert(out@ =~= start + function_rows(*fde, i + 1)->Ok_0);
            },
        }
        i += 1;
    }
    out.push(CompactUnwindRow::end_of_function(end));
    assert(out@ =~= start + function_table(*fde)->Ok_0);
    Ok(())
}

/// The compact unwind table for the call-frame information of an
/// executable: for each function in turn the compact rows for its rows,
/// then the marker of its end. The first frame description that is not
/// in order, or that holds an expression that is not recognised, fails
/// the whole table; without any frame description there is no table.
pub fn compact_unwind_info(fdes: &Vec<FrameDescription>) -> (table: Result<
    Vec<CompactUnwindRow>,
    UnwindInfoError,
>)
    ensures
        match unwind_table_of(fdes@) {
            Ok(rows) => table is Ok && table->Ok_0@ == rows,
            Err(e) => table is Err && table->Err_0 == e,
        },
{
    let n: usize = fdes.len();
    if n == 0 {
        return Err(UnwindInfoError::NoUnwindInfo);
    }
    let mut rows: Vec<CompactUnwindRow> = Vec::new();
    let mut i: usize = 0;
    while i < n
        invariant
            i <= n,
            n == fdes@.len(),
            tables_of(fdes@, i as int) is Ok,
            rows@ == tables_of(fdes@, i as int)->Ok_0,
        decreases n - i,
    {
        match append_function_table(&mut rows, &fdes[i]) {
            Err(e) => {
                proof {
                    lemma_tables_stay_failed(fdes@, i + 1, n as int);
                }
                return Err(e);
            },
            Ok(()) => {},
        }
        i += 1;
    }
    Ok(rows)
}

proof fn lemma_function_rows_shape(fde: FrameDescription, n: int)
    requires
        0 <= n <= fde.rows@.len(),
        function_rows(fde, n) is Ok,
    ensures
        function_rows(fde, n)->Ok_0.len() == n,
        forall|i: int|
            0 <= i < n ==> {
                let row = #[trigger] function_rows(fde, n)->Ok_0[i];
                &&& row.is_rule()
                &&& row.pc == fde.rows@[i].start_address
                &&& fde.initial_location <= row.pc < function_end(fde)
            },
        forall|i: int, j: int|
            0 <= i < j < n ==> fde.rows@[i].start_address < fde.rows@[j].start_address,
    decreases n,
{
    if n > 0 {
        lemma_function_rows_shape(fde, n - 1);
        let shorter = function_rows(fde, n - 1)->Ok_0;
        let longer = function_rows(fde, n)->Ok_0;
        assert(row_in_place(fde, n - 1));
        assert(longer == shorter.push(compact_row(fde.rows@[n - 1])->Ok_0));
        assert forall|i: int| 0 <= i < n implies {
            let row = #[trigger] longer[i];
            &&& row.is_rule()
            &&& row.pc == fde.rows@[i].start_address
            &&& fde.initial_location <= row.pc < function_end(fde)
        } by {
            if i < n - 1 {
                assert(longer[i] == shorter[i]);
            }
        }
        assert forall|i: int, j: int| 0 <= i < j < n implies fde.rows@[i].start_address
            < fde.rows@[j].start_address by {
            if j == n - 1 && i < n - 2 {
                assert(fde.rows@[i].start_address < fde.rows@[n - 2].start_address);
            }
        }
    }
}

/// The table of a function holds at least one rule and then the marker
/// of the function's end, and nothing else: a rule for each row of the
/// call-frame information, at the address of the row, inside the function
/// and in strictly rising order, and after them one marker at the first
/// address past the function.
pub proof fn lemma_function_table_shape(fde: FrameDescription)
    requires
        function_table(fde) is Ok,
    ensures
        ({
            let table = function_table(fde)->Ok_0;
            let n = fde.rows@.len() as int;
            &&& n >= 1
            &&& table.len() == n + 1
            &&& forall|i: int|
                0 <= i < n ==> (#[trigger] table[i]).is_rule() && table[i].pc
                    == fde.rows@[i].start_address && fde.initial_location <= table[i].pc
                    < function_end(fde)
            &&& table[n] == CompactUnwindRow::end_marker(function_end(fde) as u64)
            &&& table[n].is_end_marker()
            &&& strictly_sorted(table)
        }),
{
    let n = fde.rows@.len() as int;
    let body = function_rows(fde, n)->Ok_0;
    let table = function_table(fde)->Ok_0;
    lemma_function_rows_shape(fde, n);
    assert(table == body.push(CompactUnwindRow::end_marker(function_end(fde) as u64)));
    assert forall|i: int| 0 <= i < n implies (#[trigger] table[i]).is_rule() && table[i].pc
        == fde.rows@[i].start_address && fde.initial_location <= table[i].pc < function_end(
        fde,
    ) by {
        assert(table[i] == body[i]);
    }
    assert forall|i: int, j: int| 0 <= i < j < table.len() implies table[i].pc < table[j].pc by {
        assert(table[i] == body[i]);
        if j < n {
            assert(table[j] == body[j]);
        }
    }
}

/// A table that was made is never empty: it ends in the marker of the
/// last function's end, which comes right after a rule of that function.
pub proof fn lemma_table_ends_in_marker(fdes: Seq<FrameDescription>)
    requires
        unwind_table_of(fdes) is Ok,
    ensures
        ({
            let rows = unwind_table_of(fdes)->Ok_0;
            let last = fdes.last();
            &&& rows.len() >= 2
            &&& rows.last() == CompactUnwindRow::end_marker(function_end(last) as u64)
            &&& rows[rows.len() - 2].is_rule()
            &&& rows[rows.len() - 2].pc == last.rows@.last().start_address
            &&& rows[rows.len() - 2].pc < rows.last().pc
        }),
{
    let n = fdes.len() as int;
    let last = fdes.last();
    let before = tables_of(fdes, n - 1)->Ok_0;
    let table = function_table(last)->Ok_0;
    lemma_function_table_shape(last);
    let rows = before + table;
    assert(rows.last() == table.last());
    assert(rows[rows.len() - 2] == table[table.len() - 2]);
}

/// The functions come in rising order and do not overlap: each begins at
/// or past the end of the one before it.
pub open spec fn functions_in_order(fdes: Seq<FrameDescription>) -> bool {
    forall|i: int|
        0 <= i < fdes.len() - 1 ==> function_end(#[trigger] fdes[i]) <= fdes[i
            + 1].initial_location
}

/// Says whether the functions come in rising order and do not overlap.
pub fn are_functions_in_order(fdes: &Vec<FrameDescription>) -> (in_order: bool)
    ensures
        in_order == functions_in_order(fdes@),
{
    let n: usize = fdes.len();
    if n == 0 {
        return true;
    }
    let mut i: usize = 0;
    while i < n - 1
        invariant
            i <= n - 1,
            n == fdes@.len(),
            forall|k: int|
                0 <= k < i ==> function_end(#[trigger] fdes@[k]) <= fdes@[k + 1].initial_location,
        decreases n - i,
    {
        let begins = fdes[i].initial_location;
        let next = fdes[i + 1].initial_location;
        if next < begins || fdes[i].address_range > next - begins {
            assert(!(function_end(fdes@[i as int]) <= fdes@[i + 1].initial_location));
            return false;
        }
        i += 1;
    }
    true
}

proof fn lemma_tables_in_function_order(fdes: Seq<FrameDescription>, n: int)
    requires
        0 <= n <= fdes.len(),
        functions_in_order(fdes),
        tables_of(fdes, n) is Ok,
    ensures
        in_function_order(tables_of(fdes, n)->Ok_0),
        n > 0 ==> {
            let rows = tables_of(fdes, n)->Ok_0;
            &&& rows.len() > 0
            &&& rows.last().is_end_marker()
            &&& rows.last().pc == function_end(fdes[n - 1])
        },
    decreases n,
{
    if n > 0 {
        lemma_tables_in_function_order(fdes, n - 1);
        lemma_function_table_shape(fdes[n - 1]);
        let before = tables_of(fdes, n - 1)->Ok_0;
        let table = function_table(fdes[n - 1])->Ok_0;
        let all = tables_of(fdes, n)->Ok_0;
        let rows = fdes[n - 1].rows@.len() as int;
        assert(all == before + table);
        assert(all.last() == table[rows]);
        assert forall|i: int| 0 <= i < all.len() - 1 implies {
            &&& (#[trigger] all[i]).pc <= all[i + 1].pc
            &&& all[i].pc == all[i + 1].pc ==> all[i].is_end_marker() && all[i + 1].is_rule()
            &&& all[i].is_end_marker() ==> !all[i + 1].is_end_marker()
        } by {
            if i + 1 < before.len() {
                assert(all[i] == before[i] && all[i + 1] == before[i + 1]);
            } else if i >= before.len() {
                let a = i - before.len();
                assert(all[i] == table[a] && all[i + 1] == table[a + 1]);
                assert(table[a].pc < table[a + 1].pc);
                assert(table[a].is_rule());
            } else {
                assert(all[i] == before.last());
                assert(all[i + 1] == table[0]);
                assert(table[0].is_rule());
                assert(function_end(fdes[n - 2]) <= fdes[(n - 2) + 1].initial_location);
            }
        }
    }
}

/// Where the functions come in rising order and do not overlap, the table
/// that is made comes function by function: its rows rise, and two of them
/// share an address only where a function begins at the end of the one
/// before it.
pub proof fn lemma_table_in_function_order(fdes: Seq<FrameDescription>)
    requires
        functions_in_order(fdes),
        unwind_table_of(fdes) is Ok,
    ensures
        in_function_order(unwind_table_of(fdes)->Ok_0),
{
    lemma_tables_in_function_order(fdes, fdes.len() as int);
}

/// Where the functions come in rising order and do not overlap, the table
/// that is made can be packed once the two passes went over it: it is not
/// empty, it is in strictly rising order, no two neighbours hold the same
/// rule, and no marker in it is unnecessary.
pub proof fn lemma_table_is_sorted(fdes: Seq<FrameDescription>)
    requires
        functions_in_order(fdes),
        unwind_table_of(fdes) is Ok,
    ensures
        ({
            let optimized = without_redundant(
                without_unnecessary_markers(unwind_table_of(fdes)->Ok_0),
            );
            &&& optimized.len() > 0
            &&& strictly_sorted(optimized)
            &&& rules_are_distinct(optimized)
            &&& markers_are_necessary(optimized)
        }),
{
    let table = unwind_table_of(fdes)->Ok_0;
    lemma_table_in_function_order(fdes);
    lemma_table_ends_in_marker(fdes);
    lemma_optimized_functions(table);
    // The last marker has no row after it, and stays.
    lemma_last_row_stays(table);
    lemma_passes_keep_rows(without_unnecessary_markers(table));
}

} // verus!
