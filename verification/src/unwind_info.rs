//! The compact unwind table: one fixed-width row per program-counter
//! transition, and the two passes that shrink a table without changing what
//! it says.

use vstd::prelude::*;

verus! {

/// Where the canonical frame address of a row comes from, as the kernel side
/// numbers it.
#[derive(Clone, Copy, Debug, PartialEq, Eq, Structural)]
pub enum CfaType {
    /// No rule is known.
    Undefined,
    /// The frame pointer plus an offset.
    RbpOffset,
    /// The stack pointer plus an offset.
    RspOffset,
    /// The value of one of the few recognised expressions.
    Expression,
    /// Not a rule: the address is the first one past a function.
    EndFdeMarker,
    /// Not a rule: the region that starts here has no unwind information.
    NoUnwindInfo,
}

/// How the caller's frame pointer is recovered, as the kernel side numbers it.
#[derive(Clone, Copy, Debug, PartialEq, Eq, Structural)]
pub enum RbpType {
    /// The frame pointer was not touched.
    Unchanged,
    /// Saved at an offset from the canonical frame address.
    CfaOffset,
    /// Keeps the value it had in the caller.
    SameValue,
    /// The value of an expression.
    Expression,
    /// Cannot be recovered.
    Undefined,
}

pub const CFA_TYPE_UNDEFINED: u8 = 0;

pub const CFA_TYPE_RBP_OFFSET: u8 = 1;

pub const CFA_TYPE_RSP_OFFSET: u8 = 2;

pub const CFA_TYPE_EXPRESSION: u8 = 3;

pub const CFA_TYPE_END_FDE_MARKER: u8 = 4;

pub const CFA_TYPE_NO_UNWIND_INFO: u8 = 5;

pub const RBP_TYPE_UNCHANGED: u8 = 0;

pub const RBP_TYPE_CFA_OFFSET: u8 = 1;

pub const RBP_TYPE_SAME_VALUE: u8 = 2;

pub const RBP_TYPE_EXPRESSION: u8 = 3;

pub const RBP_TYPE_UNDEFINED: u8 = 4;

impl CfaType {
    /// The number that stands for this variant in a row.
    pub open spec fn wire(self) -> u8 {
        match self {
            CfaType::Undefined => CFA_TYPE_UNDEFINED,
            CfaType::RbpOffset => CFA_TYPE_RBP_OFFSET,
            CfaType::RspOffset => CFA_TYPE_RSP_OFFSET,
            CfaType::Expression => CFA_TYPE_EXPRESSION,
            CfaType::EndFdeMarker => CFA_TYPE_END_FDE_MARKER,
            CfaType::NoUnwindInfo => CFA_TYPE_NO_UNWIND_INFO,
        }
    }

    pub fn to_wire(self) -> (code: u8)
        ensures
            code == self.wire(),
    {
        match self {
            CfaType::Undefined => CFA_TYPE_UNDEFINED,
            CfaType::RbpOffset => CFA_TYPE_RBP_OFFSET,
            CfaType::RspOffset => CFA_TYPE_RSP_OFFSET,
            CfaType::Expression => CFA_TYPE_EXPRESSION,
            CfaType::EndFdeMarker => CFA_TYPE_END_FDE_MARKER,
            CfaType::NoUnwindInfo => CFA_TYPE_NO_UNWIND_INFO,
        }
    }

    /// The variant that a number stands for, if it stands for one.
    pub fn from_wire(code: u8) -> (kind: Option<CfaType>)
        ensures
            kind matches Some(k) ==> k.wire() == code,
            kind is None <==> code > CFA_TYPE_NO_UNWIND_INFO,
    {
        if code == CFA_TYPE_UNDEFINED {
            Some(CfaType::Undefined)
        } else if code == CFA_TYPE_RBP_OFFSET {
            Some(CfaType::RbpOffset)
        } else if code == CFA_TYPE_RSP_OFFSET {
            Some(CfaType::RspOffset)
        } else if code == CFA_TYPE_EXPRESSION {
            Some(CfaType::Expression)
        } else if code == CFA_TYPE_END_FDE_MARKER {
            Some(CfaType::EndFdeMarker)
        } else if code == CFA_TYPE_NO_UNWIND_INFO {
            Some(CfaType::NoUnwindInfo)
        } else {
            None
        }
    }
}

impl RbpType {
    /// The number that stands for this variant in a row.
    pub open spec fn wire(self) -> u8 {
        match self {
            RbpType::Unchanged => RBP_TYPE_UNCHANGED,
            RbpType::CfaOffset => RBP_TYPE_CFA_OFFSET,
            RbpType::SameValue => RBP_TYPE_SAME_VALUE,
            RbpType::Expression => RBP_TYPE_EXPRESSION,
            RbpType::Undefined => RBP_TYPE_UNDEFINED,
        }
    }

    pub fn to_wire(self) -> (code: u8)
        ensures
            code == self.wire(),
    {
        match self {
            RbpType::Unchanged => RBP_TYPE_UNCHANGED,
            RbpType::CfaOffset => RBP_TYPE_CFA_OFFSET,
            RbpType::SameValue => RBP_TYPE_SAME_VALUE,
            RbpType::Expression => RBP_TYPE_EXPRESSION,
            RbpType::Undefined => RBP_TYPE_UNDEFINED,
        }
    }

    /// The variant that a number stands for, if it stands for one.
    pub fn from_wire(code: u8) -> (kind: Option<RbpType>)
        ensures
            kind matches Some(k) ==> k.wire() == code,
            kind is None <==> code > RBP_TYPE_UNDEFINED,
    {
        if code == RBP_TYPE_UNCHANGED {
            Some(RbpType::Unchanged)
        } else if code == RBP_TYPE_CFA_OFFSET {
            Some(RbpType::CfaOffset)
        } else if code == RBP_TYPE_SAME_VALUE {
            Some(RbpType::SameValue)
        } else if code == RBP_TYPE_EXPRESSION {
            Some(RbpType::Expression)
        } else if code == RBP_TYPE_UNDEFINED {
            Some(RbpType::Undefined)
        } else {
            None
        }
    }
}

/// One unwind rule: from `pc` on, until the next row, the caller's frame is
/// found as `cfa_type`/`cfa_offset` and `rbp_type`/`rbp_offset` say.
#[derive(Clone, Copy, Debug, PartialEq, Eq, Structural)]
pub struct CompactUnwindRow {
    pub pc: u64,
    pub cfa_type: u8,
    pub rbp_type: u8,
    pub cfa_offset: i16,
    pub rbp_offset: i16,
}

impl CompactUnwindRow {
    /// The row marks the end of a function.
    pub open spec fn is_end_marker(self) -> bool {
        self.cfa_type == CFA_TYPE_END_FDE_MARKER
    }

    /// The row is a rule, not one of the two sentinels.
    pub open spec fn is_rule(self) -> bool {
        self.cfa_type != CFA_TYPE_END_FDE_MARKER && self.cfa_type != CFA_TYPE_NO_UNWIND_INFO
    }

    /// Both rows say the same but for the address they start at.
    pub open spec fn same_rule(self, other: CompactUnwindRow) -> bool {
        &&& self.cfa_type == other.cfa_type
        &&& self.cfa_offset == other.cfa_offset
        &&& self.rbp_type == other.rbp_type
        &&& self.rbp_offset == other.rbp_offset
    }

    /// The sentinel that closes a function whose last byte is at `pc - 1`.
    pub open spec fn end_marker(pc: u64) -> CompactUnwindRow {
        CompactUnwindRow {
            pc,
            cfa_type: CFA_TYPE_END_FDE_MARKER,
            rbp_type: RBP_TYPE_UNCHANGED,
            cfa_offset: 0,
            rbp_offset: 0,
        }
    }

    /// The sentinel that closes a function whose last byte is at `pc - 1`.
    pub fn end_of_function(pc: u64) -> (row: CompactUnwindRow)
        ensures
            row == CompactUnwindRow::end_marker(pc),
    {
        CompactUnwindRow {
            pc,
            cfa_type: CFA_TYPE_END_FDE_MARKER,
            rbp_type: RBP_TYPE_UNCHANGED,
            cfa_offset: 0,
            rbp_offset: 0,
        }
    }

    pub fn holds_rule(&self) -> (b: bool)
        ensures
            b == self.is_rule(),
    {
        self.cfa_type != CFA_TYPE_END_FDE_MARKER && self.cfa_type != CFA_TYPE_NO_UNWIND_INFO
    }

    pub fn has_same_rule(&self, other: &CompactUnwindRow) -> (b: bool)
        ensures
            b == self.same_rule(*other),
    {
        self.cfa_type == other.cfa_type && self.cfa_offset == other.cfa_offset && self.rbp_type
            == other.rbp_type && self.rbp_offset == other.rbp_offset
    }
}

/// The rows come in strictly rising order of `pc`.
pub open spec fn strictly_sorted(rows: Seq<CompactUnwindRow>) -> bool {
    forall|i: int, j: int| 0 <= i < j < rows.len() ==> rows[i].pc < rows[j].pc
}

/// The rows come function by function: in rising order of `pc`, where two
/// neighbours share an address only if the first is the marker that ends a
/// function and the second a rule of the function that follows it, and no
/// marker follows a marker.
pub open spec fn in_function_order(rows: Seq<CompactUnwindRow>) -> bool {
    forall|i: int|
        0 <= i < rows.len() - 1 ==> {
            &&& (#[trigger] rows[i]).pc <= rows[i + 1].pc
            &&& rows[i].pc == rows[i + 1].pc ==> rows[i].is_end_marker() && rows[i + 1].is_rule()
            &&& rows[i].is_end_marker() ==> !rows[i + 1].is_end_marker()
        }
}

/// Row `i` is an end-of-function marker that is not needed, because the row
/// after it is a rule that begins where the marker stands or at the very
/// next address.
///
/// A marker stands at the first address past its function. Where the next
/// function begins at that address there is no gap between the two, and
/// the rule takes the marker's place. Where it begins one address later,
/// the one address between them is not worth a row: without the marker it
/// falls to the rule before.
pub open spec fn unnecessary_marker(rows: Seq<CompactUnwindRow>, i: int) -> bool {
    &&& 0 <= i
    &&& i + 1 < rows.len()
    &&& rows[i].is_end_marker()
    &&& rows[i + 1].is_rule()
    &&& (rows[i + 1].pc == rows[i].pc || rows[i + 1].pc == rows[i].pc + 1)
}

/// Row `i` repeats the rule of the row before it.
pub open spec fn redundant_row(rows: Seq<CompactUnwindRow>, i: int) -> bool {
    &&& 0 < i < rows.len()
    &&& rows[i - 1].same_rule(rows[i])
}

/// The first `n` rows without the unnecessary markers among them.
pub open spec fn necessary_prefix(rows: Seq<CompactUnwindRow>, n: int) -> Seq<CompactUnwindRow>
    decreases n,
{
    if n <= 0 {
        Seq::empty()
    } else if unnecessary_marker(rows, n - 1) {
        necessary_prefix(rows, n - 1)
    } else {
        necessary_prefix(rows, n - 1).push(rows[n - 1])
    }
}

/// The table without its unnecessary markers, the other rows in their order.
pub open spec fn without_unnecessary_markers(rows: Seq<CompactUnwindRow>) -> Seq<
    CompactUnwindRow,
> {
    necessary_prefix(rows, rows.len() as int)
}

/// The first `n` rows without those that repeat the rule of the row before.
pub open spec fn distinct_prefix(rows: Seq<CompactUnwindRow>, n: int) -> Seq<CompactUnwindRow>
    decreases n,
{
    if n <= 0 {
        Seq::empty()
    } else if redundant_row(rows, n - 1) {
        distinct_prefix(rows, n - 1)
    } else {
        distinct_prefix(rows, n - 1).push(rows[n - 1])
    }
}

/// The table with every run of equal rules collapsed to its first row.
pub open spec fn without_redundant(rows: Seq<CompactUnwindRow>) -> Seq<CompactUnwindRow> {
    distinct_prefix(rows, rows.len() as int)
}

/// No marker in the table is unnecessary.
pub open spec fn markers_are_necessary(rows: Seq<CompactUnwindRow>) -> bool {
    forall|i: int| 0 <= i < rows.len() ==> !unnecessary_marker(rows, i)
}

/// No row in the table repeats the rule of the row before it.
pub open spec fn rules_are_distinct(rows: Seq<CompactUnwindRow>) -> bool {
    forall|i: int| 0 < i < rows.len() ==> !(#[trigger] rows[i]).same_rule(rows[i - 1])
}

/// Says whether the rows come in strictly rising order of `pc`.
pub fn is_strictly_sorted(rows: &Vec<CompactUnwindRow>) -> (sorted: bool)
    ensures
        sorted == strictly_sorted(rows@),
{
    let n: usize = rows.len();
    if n == 0 {
        return true;
    }
    let mut i: usize = 1;
    while i < n
        invariant
            1 <= i <= n,
            n == rows.len(),
            forall|a: int, b: int| 0 <= a < b < i ==> rows[a].pc < rows[b].pc,
        decreases n - i,
    {
        if rows[i - 1].pc >= rows[i].pc {
            return false;
        }
        i += 1;
    }
    true
}

/// Drops every end-of-function marker that is directly followed by a rule
/// at the marker's own address or at the next one. Markers in front of a
/// gap stay: they end a region in which unwinding is possible.
pub fn remove_unnecessary_markers(info: &mut Vec<CompactUnwindRow>)
    ensures
        final(info)@ == without_unnecessary_markers(old(info)@),
{
    let ghost orig = info@;
    let n: usize = info.len();
    let mut new_i: usize = 0;
    let mut i: usize = 0;
    while i < n
        invariant
            info.len() == n,
            orig.len() == n,
            new_i <= i <= n,
            info@.subrange(0, new_i as int) == necessary_prefix(orig, i as int),
            forall|k: int| i <= k < n ==> info[k] == orig[k],
        decreases n - i,
    {
        let row = info[i];
        let unnecessary = row.cfa_type == CFA_TYPE_END_FDE_MARKER && i + 1 < n && info[i
            + 1].holds_rule() && (info[i + 1].pc == row.pc || (row.pc < u64::MAX && info[i
            + 1].pc == row.pc + 1));
        assert(unnecessary == unnecessary_marker(orig, i as int));
        if !unnecessary {
            let ghost before = info@;
            info[new_i] = row;
            assert(info@.subrange(0, new_i + 1) == before.subrange(0, new_i as int).push(row));
            new_i += 1;
        }
        i += 1;
    }
    info.truncate(new_i);
}

/// Collapses every run of rows with the same rule to the first row of the
/// run, which holds the lowest address.
pub fn remove_redundant(info: &mut Vec<CompactUnwindRow>)
    ensures
        final(info)@ == without_redundant(old(info)@),
{
    let ghost orig = info@;
    let n: usize = info.len();
    let mut last_row: Option<CompactUnwindRow> = None;
    let mut new_i: usize = 0;
    let mut i: usize = 0;
    while i < n
        invariant
            info.len() == n,
            orig.len() == n,
            new_i <= i <= n,
            info@.subrange(0, new_i as int) == distinct_prefix(orig, i as int),
            forall|k: int| i <= k < n ==> info[k] == orig[k],
            last_row == (if i == 0 {
                None
            } else {
                Some(orig[i - 1])
            }),
        decreases n - i,
    {
        let row = info[i];
        let redundant = match last_row {
            Some(last) => last.has_same_rule(&row),
            None => false,
        };
        assert(redundant == redundant_row(orig, i as int));
        if !redundant {
            let ghost before = info@;
            info[new_i] = row;
            assert(info@.subrange(0, new_i + 1) == before.subrange(0, new_i as int).push(row));
            new_i += 1;
        }
        last_row = Some(row);
        i += 1;
    }
    info.truncate(new_i);
}

} // verus!
