//! The record decoder: from the bytes of one row to its typed column values.
//!
//! A record is laid out in four parts, each placed relative to the end of the
//! part before it:
//!
//! 1. the header: the identifier of the last fixed column stored (one byte),
//!    the identifier of the last variable column stored (one byte), the offset
//!    of the variable section (two bytes), and the presence bitmap of the
//!    fixed columns, one bit per stored fixed column;
//! 2. the fixed columns, each at the offset its definition declares;
//! 3. the variable section: one two-byte entry per stored variable column,
//!    holding the offset at which the column's bytes end (the top bit marks a
//!    stored null), followed by the bytes themselves;
//! 4. the tagged section, if any bytes remain: four-byte entries of column
//!    identifier and offset, closed by an entry with identifier zero whose
//!    offset is the end of the last value, followed by the values.
use crate::constants::{
    flag_set, has_flag, CodePage, ColumnType, LAST_FIXED_ID, TAGGED_FLAG_LONG_VALUE,
    TAGGED_FLAG_MULTI_VALUE, TAGGED_HAS_FLAGS, VARIABLE_NULL_BIT,
};
use crate::error::EseError;
use crate::types::{
    decode_value, fields_view, lemma_multi_value_view, spec_decode_value, values_view,
    columns_view, ColumnDef, ColumnValue, ColumnView, Field, FieldView, Record, SchemaView,
    TableSchema, ValueView,
};
use crate::utils::{le_u16, le_u32, read_u16_le, read_u32_le};
use vstd::prelude::*;
use vstd::slice::slice_subrange;

verus! {

/// The three groups of columns of a record.
#[derive(Clone, Copy, Debug, PartialEq, Eq, Structural)]
pub enum Section {
    Fixed,
    Variable,
    Tagged,
}

/// The number of fixed columns that the record stores: the identifier of the
/// last one.
pub open spec fn fixed_count(b: Seq<u8>) -> int {
    b[0] as int
}

/// The number of variable columns that the record stores.
pub open spec fn variable_count(b: Seq<u8>) -> int {
    if b[1] > LAST_FIXED_ID {
        b[1] - LAST_FIXED_ID
    } else {
        0
    }
}

/// Where the variable section starts.
pub open spec fn variable_offset(b: Seq<u8>) -> int {
    le_u16(b, 2)
}

/// Where the fixed columns start: behind the header and its presence bitmap.
pub open spec fn fixed_base(b: Seq<u8>) -> int {
    4 + (fixed_count(b) + 7) / 8
}

/// Whether the header fits the buffer and its sections do not overlap.
pub open spec fn header_ok(b: Seq<u8>) -> bool {
    &&& b.len() >= 4
    &&& fixed_base(b) <= variable_offset(b)
    &&& variable_offset(b) + 2 * variable_count(b) <= b.len()
}

/// The value of bit `k` of a byte.
pub open spec fn bit_mask(k: int) -> int {
    if k == 0 {
        1
    } else if k == 1 {
        2
    } else if k == 2 {
        4
    } else if k == 3 {
        8
    } else if k == 4 {
        16
    } else if k == 5 {
        32
    } else if k == 6 {
        64
    } else {
        128
    }
}

/// Whether the record stores a value for the fixed column `id`.
pub open spec fn fixed_present(b: Seq<u8>, id: int) -> bool {
    &&& 1 <= id <= fixed_count(b)
    &&& flag_set(b[4 + (id - 1) / 8] as int, bit_mask((id - 1) % 8))
}

/// Entry `j` of the variable-column offset table.
pub open spec fn var_entry(b: Seq<u8>, j: int) -> int {
    le_u16(b, variable_offset(b) + 2 * j)
}

/// Where the bytes of variable column `j` end, relative to the variable data.
pub open spec fn var_end(b: Seq<u8>, j: int) -> int {
    var_entry(b, j) % (VARIABLE_NULL_BIT as int)
}

/// Whether variable column `j` is stored as null.
pub open spec fn var_null(b: Seq<u8>, j: int) -> bool {
    var_entry(b, j) >= VARIABLE_NULL_BIT
}

/// Where the bytes of variable column `j` start, relative to the variable data.
pub open spec fn var_start(b: Seq<u8>, j: int) -> int {
    if j <= 0 {
        0
    } else {
        var_end(b, j - 1)
    }
}

/// Where the variable data starts: behind the offset table.
pub open spec fn variable_data(b: Seq<u8>) -> int {
    variable_offset(b) + 2 * variable_count(b)
}

/// Whether every entry of the offset table ends at or after its start and
/// inside the buffer.
pub open spec fn var_table_ok(b: Seq<u8>) -> bool {
    forall|j: int|
        0 <= j < variable_count(b) ==> var_start(b, j) <= #[trigger] var_end(b, j)
            && variable_data(b) + var_end(b, j) <= b.len()
}

/// Where the tagged section starts: behind the last variable value.
pub open spec fn tagged_base(b: Seq<u8>) -> int {
    variable_data(b) + var_start(b, variable_count(b))
}

/// The column identifier of entry `k` of the tagged table at `t`.
pub open spec fn tag_id(b: Seq<u8>, t: int, k: int) -> int {
    le_u16(b, t + 4 * k)
}

/// The offset word of entry `k` of the tagged table at `t`.
pub open spec fn tag_word(b: Seq<u8>, t: int, k: int) -> int {
    le_u16(b, t + 4 * k + 2)
}

/// Where the value of entry `k` starts, relative to `t`.
pub open spec fn tag_off(b: Seq<u8>, t: int, k: int) -> int {
    tag_word(b, t, k) % (TAGGED_HAS_FLAGS as int)
}

/// Whether the value of entry `k` starts with a flags byte.
pub open spec fn tag_has_flags(b: Seq<u8>, t: int, k: int) -> bool {
    flag_set(tag_word(b, t, k), TAGGED_HAS_FLAGS as int)
}

/// Whether the tagged table at `t` has exactly `n` entries before its end
/// marker.
pub open spec fn tagged_table(b: Seq<u8>, t: int, n: nat) -> bool {
    &&& t + 4 * (n + 1) <= b.len()
    &&& tag_id(b, t, n as int) == 0
    &&& forall|k: int| 0 <= k < n ==> #[trigger] tag_id(b, t, k) != 0
}

/// The number of entries of the record's tagged table.
pub open spec fn tagged_count(b: Seq<u8>) -> nat {
    if tagged_base(b) == b.len() {
        0
    } else {
        choose|n: nat| tagged_table(b, tagged_base(b), n)
    }
}

/// Whether the offsets of a tagged table of `n` entries lie behind the table,
/// inside the buffer, and never descend.
pub open spec fn tagged_offsets_ok(b: Seq<u8>, t: int, n: nat) -> bool {
    &&& forall|k: int|
        0 <= k <= n ==> 4 * (n + 1) <= #[trigger] tag_off(b, t, k) && t + tag_off(b, t, k)
            <= b.len()
    &&& forall|k: int| 0 <= k < n ==> #[trigger] tag_off(b, t, k) <= tag_off(b, t, k + 1)
}

/// Whether the record has no tagged section or a valid one.
pub open spec fn tagged_ok(b: Seq<u8>) -> bool {
    tagged_base(b) == b.len() || ((exists|n: nat| tagged_table(b, tagged_base(b), n))
        && tagged_offsets_ok(b, tagged_base(b), tagged_count(b)))
}

/// Whether the structure of the record is sound: header, offset table and
/// tagged table all lie inside the buffer with offsets that never descend.
pub open spec fn layout_ok(b: Seq<u8>) -> bool {
    header_ok(b) && var_table_ok(b) && tagged_ok(b)
}

/// The index of the first entry for column `id` at or after `k`, or `n`.
pub open spec fn find_tag(b: Seq<u8>, t: int, n: int, id: int, k: int) -> int
    decreases n - k,
{
    if k >= n {
        n
    } else if tag_id(b, t, k) == id {
        k
    } else {
        find_tag(b, t, n, id, k + 1)
    }
}

/// One stored value of a column: a long-value key where `long` is set, else a
/// value of the column's type.
pub open spec fn scalar_value(ty: ColumnType, cp: CodePage, long: bool, p: Seq<u8>) -> Option<
    ValueView,
> {
    if long {
        if p.len() == 4 {
            Some(ValueView::LongValueRef(le_u32(p, 0) as u32))
        } else {
            None
        }
    } else {
        spec_decode_value(ty, cp, p)
    }
}

/// Appends `rest` to `head`, where `rest` exists.
pub open spec fn prepend(head: Seq<ValueView>, rest: Option<Seq<ValueView>>) -> Option<
    Seq<ValueView>,
> {
    match rest {
        Some(r) => Some(head + r),
        None => None,
    }
}

/// The values stored from `pos` on in a multi-valued payload: each is a
/// two-byte length followed by that many bytes.
pub open spec fn multi_values(
    ty: ColumnType,
    cp: CodePage,
    long: bool,
    p: Seq<u8>,
    pos: int,
) -> Option<Seq<ValueView>>
    decreases p.len() - pos,
{
    if pos < 0 || pos > p.len() {
        None
    } else if pos == p.len() {
        Some(Seq::empty())
    } else if pos + 2 > p.len() || pos + 2 + le_u16(p, pos) > p.len() {
        None
    } else {
        let end = pos + 2 + le_u16(p, pos);
        match scalar_value(ty, cp, long, p.subrange(pos + 2, end)) {
            Some(v) => prepend(seq![v], multi_values(ty, cp, long, p, end)),
            None => None,
        }
    }
}

/// The value of a tagged column whose payload follows a flags byte.
pub open spec fn flagged_value(ty: ColumnType, cp: CodePage, flags: u8, p: Seq<u8>) -> Option<
    ValueView,
> {
    let long = flag_set(flags as int, TAGGED_FLAG_LONG_VALUE as int);
    if flag_set(flags as int, TAGGED_FLAG_MULTI_VALUE as int) {
        match multi_values(ty, cp, long, p, 0) {
            Some(vs) => Some(ValueView::MultiValue(vs)),
            None => None,
        }
    } else {
        scalar_value(ty, cp, long, p)
    }
}

/// The value that the stored bytes `raw` of a tagged column stand for.
pub open spec fn tagged_value(ty: ColumnType, cp: CodePage, has_flags: bool, raw: Seq<u8>) -> Option<
    ValueView,
> {
    if raw.len() == 0 {
        if has_flags {
            None
        } else {
            Some(ValueView::Null)
        }
    } else if has_flags {
        flagged_value(ty, cp, raw[0], raw.subrange(1, raw.len() as int))
    } else {
        spec_decode_value(ty, cp, raw)
    }
}

/// What a record of sound layout holds for one column of a section: `None`
/// where the column's bytes cannot be decoded, `Some(None)` where the record
/// does not hold the column, else its value.
pub open spec fn slot(kind: Section, c: ColumnView, b: Seq<u8>) -> Option<Option<ValueView>> {
    match kind {
        Section::Fixed => {
            if !fixed_present(b, c.id as int) {
                Some(Some(ValueView::Null))
            } else if fixed_base(b) + c.offset + c.size > variable_offset(b) {
                None
            } else {
                let start = fixed_base(b) + c.offset;
                match spec_decode_value(
                    c.column_type,
                    c.code_page,
                    b.subrange(start, start + c.size),
                ) {
                    Some(v) => Some(Some(v)),
                    None => None,
                }
            }
        },
        Section::Variable => {
            let j = c.id - LAST_FIXED_ID - 1;
            if j < 0 || j >= variable_count(b) {
                Some(None)
            } else if var_null(b, j) {
                Some(Some(ValueView::Null))
            } else {
                match spec_decode_value(
                    c.column_type,
                    c.code_page,
                    b.subrange(variable_data(b) + var_start(b, j), variable_data(b) + var_end(b, j)),
                ) {
                    Some(v) => Some(Some(v)),
                    None => None,
                }
            }
        },
        Section::Tagged => {
            let t = tagged_base(b);
            let n = tagged_count(b) as int;
            let k = find_tag(b, t, n, c.id as int, 0);
            if k >= n {
                Some(None)
            } else {
                match tagged_value(
                    c.column_type,
                    c.code_page,
                    tag_has_flags(b, t, k),
                    b.subrange(t + tag_off(b, t, k), t + tag_off(b, t, k + 1)),
                ) {
                    Some(v) => Some(Some(v)),
                    None => None,
                }
            }
        },
    }
}

/// The fields that a record of sound layout holds for the first `n` columns
/// of a section, in order; `None` where one of them cannot be decoded.
pub open spec fn section_fields(kind: Section, cols: Seq<ColumnView>, b: Seq<u8>, n: nat) -> Option<
    Seq<FieldView>,
>
    decreases n,
{
    if n == 0 {
        Some(Seq::empty())
    } else {
        match (section_fields(kind, cols, b, (n - 1) as nat), slot(kind, cols[n - 1], b)) {
            (Some(fs), Some(Some(v))) => Some(
                fs.push(FieldView { column_id: cols[n - 1].id, value: v }),
            ),
            (Some(fs), Some(None)) => Some(fs),
            _ => None,
        }
    }
}

/// The row that the bytes `b` hold under schema `s`: the fields of the fixed
/// columns, then of the variable columns, then of the tagged columns; `None`
/// where the layout is unsound or a value cannot be decoded.
pub open spec fn spec_decode_record(s: SchemaView, b: Seq<u8>) -> Option<Seq<FieldView>> {
    if !layout_ok(b) {
        None
    } else {
        match (
            section_fields(Section::Fixed, s.fixed, b, s.fixed.len()),
            section_fields(Section::Variable, s.variable, b, s.variable.len()),
            section_fields(Section::Tagged, s.tagged, b, s.tagged.len()),
        ) {
            (Some(f), Some(v), Some(t)) => Some(f + v + t),
            _ => None,
        }
    }
}

/// Once a prefix of a section cannot be decoded, no longer prefix can.
pub proof fn lemma_section_none_extends(
    kind: Section,
    cols: Seq<ColumnView>,
    b: Seq<u8>,
    n: nat,
    m: nat,
)
    requires
        n <= m,
        section_fields(kind, cols, b, n).is_none(),
    ensures
        section_fields(kind, cols, b, m).is_none(),
    decreases m,
{
    if n < m {
        lemma_section_none_extends(kind, cols, b, n, (m - 1) as nat);
    }
}

/// The positions of the sections of one record, read from its header.
pub struct Layout {
    pub fixed_count: usize,
    pub variable_count: usize,
    pub variable_offset: usize,
    pub fixed_base: usize,
    pub variable_data: usize,
    pub tagged_base: usize,
    pub tagged_count: usize,
}

impl Layout {
    /// Whether the positions are those of the record `b`.
    pub open spec fn matches(&self, b: Seq<u8>) -> bool {
        &&& self.fixed_count == fixed_count(b)
        &&& self.variable_count == variable_count(b)
        &&& self.variable_offset == variable_offset(b)
        &&& self.fixed_base == fixed_base(b)
        &&& self.variable_data == variable_data(b)
        &&& self.tagged_base == tagged_base(b)
        &&& self.tagged_count == tagged_count(b)
    }
}

/// Counts the entries of the tagged table at `t` up to its end marker.
fn count_tagged(bytes: &[u8], t: usize) -> (r: Option<usize>)
    requires
        t <= bytes@.len(),
    ensures
        match r {
            Some(n) => tagged_table(bytes@, t as int, n as nat),
            None => !exists|n: nat| tagged_table(bytes@, t as int, n),
        },
{
    let total: usize = bytes.len();
    let room: usize = (total - t) / 4;
    let mut k: usize = 0;
    while k < room
        invariant
            total == bytes@.len(),
            t <= total,
            room == (total - t) / 4,
            k <= room,
            forall|i: int| 0 <= i < k ==> #[trigger] tag_id(bytes@, t as int, i) != 0,
        decreases room - k,
    {
        let id: u16 = read_u16_le(bytes, t + 4 * k).unwrap();
        if id == 0 {
            return Some(k);
        }
        k = k + 1;
    }
    assert forall|n: nat| !tagged_table(bytes@, t as int, n) by {
        if tagged_table(bytes@, t as int, n) {
            assert(n < k);
            assert(tag_id(bytes@, t as int, n as int) != 0);
        }
    }
    None
}

/// A tagged table has one entry count only.
pub proof fn lemma_tagged_count_unique(b: Seq<u8>, t: int, n: nat, m: nat)
    requires
        tagged_table(b, t, n),
        tagged_table(b, t, m),
    ensures
        n == m,
{
    if n < m {
        assert(tag_id(b, t, n as int) != 0);
    }
    if m < n {
        assert(tag_id(b, t, m as int) != 0);
    }
}

/// Checks the offsets of a tagged table of `n` entries.
fn check_tagged_offsets(bytes: &[u8], t: usize, n: usize) -> (r: bool)
    requires
        tagged_table(bytes@, t as int, n as nat),
    ensures
        r == tagged_offsets_ok(bytes@, t as int, n as nat),
{
    let total: usize = bytes.len();
    let room: usize = total - t;
    let table: usize = 4 * (n + 1);
    let mut prev: usize = 0;
    let mut k: usize = 0;
    while k <= n
        invariant
            total == bytes@.len(),
            t + 4 * (n + 1) <= total,
            room == total - t,
            table == 4 * (n + 1),
            k <= n + 1,
            k > 0 ==> prev == tag_off(bytes@, t as int, k - 1),
            forall|i: int|
                0 <= i < k ==> table <= #[trigger] tag_off(bytes@, t as int, i) && t + tag_off(
                    bytes@,
                    t as int,
                    i,
                ) <= total,
            forall|i: int|
                0 <= i < k - 1 ==> #[trigger] tag_off(bytes@, t as int, i) <= tag_off(
                    bytes@,
                    t as int,
                    i + 1,
                ),
        decreases n + 1 - k,
    {
        let word: u16 = read_u16_le(bytes, t + 4 * k + 2).unwrap();
        let off: usize = (word % TAGGED_HAS_FLAGS) as usize;
        if off < table || off > room || (k > 0 && prev > off) {
            proof {
                if off < table || off > room {
                    assert(!(table <= tag_off(bytes@, t as int, k as int) && t + tag_off(
                        bytes@,
                        t as int,
                        k as int,
                    ) <= total));
                } else {
                    assert(tag_off(bytes@, t as int, k - 1) > tag_off(bytes@, t as int, k - 1 + 1));
                }
            }
            return false;
        }
        prev = off;
        k = k + 1;
    }
    true
}

/// Reads and checks the structure of a record.
pub fn parse_layout(bytes: &[u8]) -> (r: Result<Layout, EseError>)
    ensures
        match r {
            Ok(l) => layout_ok(bytes@) && l.matches(bytes@),
            Err(e) => e == EseError::RecordDecode && !layout_ok(bytes@),
        },
{
    let total: usize = bytes.len();
    if total < 4 {
        return Err(EseError::RecordDecode);
    }
    let fixed: usize = bytes[0] as usize;
    let last_variable: usize = bytes[1] as usize;
    let variable: usize = if last_variable > 127 {
        last_variable - 127
    } else {
        0
    };
    let offset: usize = read_u16_le(bytes, 2).unwrap() as usize;
    let base: usize = 4 + (fixed + 7) / 8;
    if base > offset || offset > total || 2 * variable > total - offset {
        return Err(EseError::RecordDecode);
    }
    let data: usize = offset + 2 * variable;
    let mut prev: usize = 0;
    let mut j: usize = 0;
    while j < variable
        invariant
            total == bytes@.len(),
            header_ok(bytes@),
            variable == variable_count(bytes@),
            offset == variable_offset(bytes@),
            data == variable_data(bytes@),
            j <= variable,
            prev == var_start(bytes@, j as int),
            data + prev <= total,
            forall|i: int|
                0 <= i < j ==> var_start(bytes@, i) <= #[trigger] var_end(bytes@, i)
                    && variable_data(bytes@) + var_end(bytes@, i) <= bytes@.len(),
        decreases variable - j,
    {
        let entry: u16 = read_u16_le(bytes, offset + 2 * j).unwrap();
        let end: usize = (entry % VARIABLE_NULL_BIT) as usize;
        if end < prev || end > total - data {
            assert(!(var_start(bytes@, j as int) <= var_end(bytes@, j as int) && variable_data(
                bytes@,
            ) + var_end(bytes@, j as int) <= bytes@.len()));
            return Err(EseError::RecordDecode);
        }
        prev = end;
        j = j + 1;
    }
    let tagged: usize = data + prev;
    let mut count: usize = 0;
    if tagged < total {
        match count_tagged(bytes, tagged) {
            Some(n) => {
                proof {
                    lemma_tagged_count_unique(bytes@, tagged as int, n as nat, tagged_count(bytes@));
                }
                if !check_tagged_offsets(bytes, tagged, n) {
                    return Err(EseError::RecordDecode);
                }
                count = n;
            },
            None => {
                return Err(EseError::RecordDecode);
            },
        }
    }
    Ok(
        Layout {
            fixed_count: fixed,
            variable_count: variable,
            variable_offset: offset,
            fixed_base: base,
            variable_data: data,
            tagged_base: tagged,
            tagged_count: count,
        },
    )
}

/// The mask of bit `k` of a byte.
fn mask_of(k: usize) -> (r: u32)
    requires
        k < 8,
    ensures
        r == bit_mask(k as int),
{
    if k == 0 {
        1
    } else if k == 1 {
        2
    } else if k == 2 {
        4
    } else if k == 3 {
        8
    } else if k == 4 {
        16
    } else if k == 5 {
        32
    } else if k == 6 {
        64
    } else {
        128
    }
}

/// Decodes one stored value: a long-value key where `long` is set, else a
/// value of the column's type.
pub fn decode_scalar(ty: ColumnType, cp: CodePage, long: bool, p: &[u8]) -> (r: Result<
    ColumnValue,
    EseError,
>)
    ensures
        match r {
            Ok(v) => scalar_value(ty, cp, long, p@) == Some(v@),
            Err(e) => e == EseError::RecordDecode && scalar_value(ty, cp, long, p@).is_none(),
        },
{
    if long {
        if p.len() == 4 {
            Ok(ColumnValue::LongValueRef(read_u32_le(p, 0).unwrap()))
        } else {
            Err(EseError::RecordDecode)
        }
    } else {
        decode_value(ty, cp, p)
    }
}

/// Decodes the length-prefixed values of a multi-valued payload.
pub fn decode_multi(ty: ColumnType, cp: CodePage, long: bool, p: &[u8]) -> (r: Result<
    Vec<ColumnValue>,
    EseError,
>)
    ensures
        match r {
            Ok(v) => multi_values(ty, cp, long, p@, 0) == Some(values_view(v@)),
            Err(e) => e == EseError::RecordDecode && multi_values(ty, cp, long, p@, 0).is_none(),
        },
{
    let total: usize = p.len();
    let mut items: Vec<ColumnValue> = Vec::new();
    let mut pos: usize = 0;
    assert(values_view(items@) + multi_values(ty, cp, long, p@, 0).unwrap() =~= multi_values(
        ty,
        cp,
        long,
        p@,
        0,
    ).unwrap());
    while pos < total
        invariant
            total == p@.len(),
            pos <= total,
            multi_values(ty, cp, long, p@, 0) == prepend(
                values_view(items@),
                multi_values(ty, cp, long, p@, pos as int),
            ),
        decreases total - pos,
    {
        if total - pos < 2 {
            return Err(EseError::RecordDecode);
        }
        let len: usize = read_u16_le(p, pos).unwrap() as usize;
        if len > total - pos - 2 {
            return Err(EseError::RecordDecode);
        }
        let end: usize = pos + 2 + len;
        let part: &[u8] = slice_subrange(p, pos + 2, end);
        match decode_scalar(ty, cp, long, part) {
            Ok(v) => {
                let ghost before = values_view(items@);
                let ghost rest = multi_values(ty, cp, long, p@, end as int);
                items.push(v);
                proof {
                    assert(values_view(items@) =~= before + seq![v@]);
                    if rest.is_some() {
                        assert(before + (seq![v@] + rest.unwrap()) =~= (before + seq![v@])
                            + rest.unwrap());
                    }
                }
            },
            Err(e) => {
                return Err(EseError::RecordDecode);
            },
        }
        pos = end;
    }
    assert(values_view(items@) + Seq::<ValueView>::empty() =~= values_view(items@));
    Ok(items)
}

/// Decodes the stored bytes of a tagged column.
pub fn decode_tagged(ty: ColumnType, cp: CodePage, has_flags: bool, raw: &[u8]) -> (r: Result<
    ColumnValue,
    EseError,
>)
    ensures
        match r {
            Ok(v) => tagged_value(ty, cp, has_flags, raw@) == Some(v@),
            Err(e) => e == EseError::RecordDecode && tagged_value(ty, cp, has_flags, raw@).is_none(),
        },
{
    let total: usize = raw.len();
    if total == 0 {
        if has_flags {
            return Err(EseError::RecordDecode);
        }
        return Ok(ColumnValue::Null);
    }
    if !has_flags {
        return decode_value(ty, cp, raw);
    }
    let flags: u8 = raw[0];
    let p: &[u8] = slice_subrange(raw, 1, total);
    let long: bool = has_flag(flags as u32, TAGGED_FLAG_LONG_VALUE as u32);
    if has_flag(flags as u32, TAGGED_FLAG_MULTI_VALUE as u32) {
        match decode_multi(ty, cp, long, p) {
            Ok(items) => {
                proof {
                    lemma_multi_value_view(items);
                }
                Ok(ColumnValue::MultiValue(items))
            },
            Err(e) => Err(EseError::RecordDecode),
        }
    } else {
        decode_scalar(ty, cp, long, p)
    }
}

/// Decodes what the record holds for one column of a section: `Ok(None)`
/// where the record does not hold the column.
pub fn decode_slot(kind: Section, c: &ColumnDef, bytes: &[u8], l: &Layout) -> (r: Result<
    Option<ColumnValue>,
    EseError,
>)
    requires
        layout_ok(bytes@),
        l.matches(bytes@),
    ensures
        match r {
            Ok(Some(v)) => slot(kind, c@, bytes@) == Some(Some(v@)),
            Ok(None) => slot(kind, c@, bytes@) == Some(None::<ValueView>),
            Err(e) => e == EseError::RecordDecode && slot(kind, c@, bytes@).is_none(),
        },
{
    let total: usize = bytes.len();
    match kind {
        Section::Fixed => {
            if c.id < 1 || c.id as usize > l.fixed_count {
                return Ok(Some(ColumnValue::Null));
            }
            let bit: usize = (c.id - 1) as usize;
            let byte: u8 = bytes[4 + bit / 8];
            if !has_flag(byte as u32, mask_of(bit % 8)) {
                return Ok(Some(ColumnValue::Null));
            }
            let end: u64 = l.fixed_base as u64 + c.offset as u64 + c.size as u64;
            if end > l.variable_offset as u64 {
                return Err(EseError::RecordDecode);
            }
            let start: usize = l.fixed_base + c.offset as usize;
            let part: &[u8] = slice_subrange(bytes, start, start + c.size as usize);
            match decode_value(c.column_type, c.code_page, part) {
                Ok(v) => Ok(Some(v)),
                Err(e) => Err(EseError::RecordDecode),
            }
        },
        Section::Variable => {
            if c.id < 128 || (c.id - 128) as usize >= l.variable_count {
                return Ok(None);
            }
            let j: usize = (c.id - 128) as usize;
            let entry: u16 = read_u16_le(bytes, l.variable_offset + 2 * j).unwrap();
            if entry >= VARIABLE_NULL_BIT {
                return Ok(Some(ColumnValue::Null));
            }
            let start: usize = if j == 0 {
                0
            } else {
                (read_u16_le(bytes, l.variable_offset + 2 * (j - 1)).unwrap()
                    % VARIABLE_NULL_BIT) as usize
            };
            let end: usize = (entry % VARIABLE_NULL_BIT) as usize;
            assert(var_start(bytes@, j as int) <= var_end(bytes@, j as int) && variable_data(
                bytes@,
            ) + var_end(bytes@, j as int) <= bytes@.len());
            let part: &[u8] = slice_subrange(bytes, l.variable_data + start, l.variable_data + end);
            match decode_value(c.column_type, c.code_page, part) {
                Ok(v) => Ok(Some(v)),
                Err(e) => Err(EseError::RecordDecode),
            }
        },
        Section::Tagged => {
            let t: usize = l.tagged_base;
            let n: usize = l.tagged_count;
            if n == 0 {
                return Ok(None);
            }
            let mut k: usize = 0;
            while k < n
                invariant
                    kind == Section::Tagged,
                    total == bytes@.len(),
                    layout_ok(bytes@),
                    l.matches(bytes@),
                    t == l.tagged_base,
                    n == l.tagged_count,
                    n > 0,
                    k <= n,
                    find_tag(bytes@, t as int, n as int, c.id as int, 0) == find_tag(
                        bytes@,
                        t as int,
                        n as int,
                        c.id as int,
                        k as int,
                    ),
                decreases n - k,
            {
                assert(tagged_table(bytes@, t as int, n as nat));
                let id: u16 = read_u16_le(bytes, t + 4 * k).unwrap();
                if id as u32 == c.id {
                    assert(find_tag(bytes@, t as int, n as int, c.id as int, k as int) == k);
                    let word: u16 = read_u16_le(bytes, t + 4 * k + 2).unwrap();
                    let next: u16 = read_u16_le(bytes, t + 4 * (k + 1) + 2).unwrap();
                    let start: usize = (word % TAGGED_HAS_FLAGS) as usize;
                    let end: usize = (next % TAGGED_HAS_FLAGS) as usize;
                    let has_flags: bool = has_flag(word as u32, TAGGED_HAS_FLAGS as u32);
                    assert(tagged_offsets_ok(bytes@, t as int, n as nat));
                    assert(tag_off(bytes@, t as int, k as int) <= tag_off(
                        bytes@,
                        t as int,
                        k as int + 1,
                    ));
                    assert(t + tag_off(bytes@, t as int, k as int + 1) <= total);
                    let part: &[u8] = slice_subrange(bytes, t + start, t + end);
                    return match decode_tagged(c.column_type, c.code_page, has_flags, part) {
                        Ok(v) => Ok(Some(v)),
                        Err(e) => Err(EseError::RecordDecode),
                    };
                }
                k = k + 1;
            }
            Ok(None)
        },
    }
}

/// Decodes the columns of one section and appends their fields to `out`.
pub fn decode_section(
    kind: Section,
    cols: &Vec<ColumnDef>,
    bytes: &[u8],
    l: &Layout,
    out: &mut Vec<Field>,
) -> (r: Result<(), EseError>)
    requires
        layout_ok(bytes@),
        l.matches(bytes@),
    ensures
        match section_fields(kind, columns_view(cols@), bytes@, cols@.len()) {
            Some(fs) => r.is_ok() && fields_view(final(out)@) == fields_view(old(out)@) + fs,
            None => r == Err::<(), EseError>(EseError::RecordDecode),
        },
{
    let n: usize = cols.len();
    let ghost cv = columns_view(cols@);
    let ghost before = fields_view(out@);
    let mut i: usize = 0;
    assert(before + Seq::<FieldView>::empty() =~= before);
    while i < n
        invariant
            n == cols@.len(),
            i <= n,
            cv == columns_view(cols@),
            layout_ok(bytes@),
            l.matches(bytes@),
            section_fields(kind, cv, bytes@, i as nat).is_some(),
            fields_view(out@) == before + section_fields(kind, cv, bytes@, i as nat).unwrap(),
        decreases n - i,
    {
        let c: &ColumnDef = &cols[i];
        assert(cv[i as int] == c@);
        let ghost prefix = section_fields(kind, cv, bytes@, i as nat).unwrap();
        match decode_slot(kind, c, bytes, l) {
            Ok(Some(v)) => {
                let ghost f = FieldView { column_id: c.id, value: v@ };
                let ghost earlier = out@;
                out.push(Field { column_id: c.id, value: v });
                assert(fields_view(out@) =~= fields_view(earlier).push(f));
                assert(fields_view(out@) =~= before + prefix.push(f));
            },
            Ok(None) => {},
            Err(e) => {
                proof {
                    lemma_section_none_extends(kind, cv, bytes@, (i + 1) as nat, n as nat);
                }
                return Err(EseError::RecordDecode);
            },
        }
        i = i + 1;
    }
    Ok(())
}

/// Decodes the bytes of one row against the schema of its table.
///
/// The result holds a field for every fixed column of the schema (`Null`
/// where the row stores none), and for each variable and tagged column that
/// the row stores. The call fails with `RecordDecode`, and only then, where
/// an offset of the row descends or points outside the buffer, or where the
/// bytes of a column do not fit its type.
pub fn decode_record(schema: &TableSchema, raw_bytes: &[u8]) -> (r: Result<Record, EseError>)
    ensures
        match r {
            Ok(rec) => spec_decode_record(schema@, raw_bytes@) == Some(rec@),
            Err(e) => e == EseError::RecordDecode && spec_decode_record(
                schema@,
                raw_bytes@,
            ).is_none(),
        },
{
    let l: Layout = match parse_layout(raw_bytes) {
        Ok(l) => l,
        Err(e) => {
            return Err(EseError::RecordDecode);
        },
    };
    let mut out: Vec<Field> = Vec::new();
    assert(fields_view(out@) =~= Seq::<FieldView>::empty());
    match decode_section(Section::Fixed, &schema.fixed, raw_bytes, &l, &mut out) {
        Ok(()) => {},
        Err(e) => {
            return Err(EseError::RecordDecode);
        },
    }
    match decode_section(Section::Variable, &schema.variable, raw_bytes, &l, &mut out) {
        Ok(()) => {},
        Err(e) => {
            return Err(EseError::RecordDecode);
        },
    }
    match decode_section(Section::Tagged, &schema.tagged, raw_bytes, &l, &mut out) {
        Ok(()) => {},
        Err(e) => {
            return Err(EseError::RecordDecode);
        },
    }
    proof {
        let f = section_fields(Section::Fixed, schema@.fixed, raw_bytes@, schema@.fixed.len()).unwrap();
        assert(Seq::<FieldView>::empty() + f =~= f);
    }
    Ok(Record { fields: out })
}

/// A record whose offset table holds an entry that ends behind the buffer is
/// not decoded, under any schema.
pub proof fn lemma_variable_overrun_is_rejected(s: SchemaView, b: Seq<u8>, j: int)
    requires
        0 <= j < variable_count(b),
        variable_data(b) + var_end(b, j) > b.len(),
    ensures
        !layout_ok(b),
        spec_decode_record(s, b).is_none(),
{
}

/// A record whose offset table descends is not decoded, under any schema.
pub proof fn lemma_descending_offsets_are_rejected(s: SchemaView, b: Seq<u8>, j: int)
    requires
        0 < j < variable_count(b),
        var_end(b, j) < var_end(b, j - 1),
    ensures
        !layout_ok(b),
        spec_decode_record(s, b).is_none(),
{
    assert(!(var_start(b, j) <= var_end(b, j)));
}

/// A decoded record holds a field for every fixed column of the schema, in
/// schema order, before any other field.
pub proof fn lemma_fixed_columns_have_slots(s: SchemaView, b: Seq<u8>, n: nat)
    requires
        n <= s.fixed.len(),
        section_fields(Section::Fixed, s.fixed, b, n).is_some(),
    ensures
        section_fields(Section::Fixed, s.fixed, b, n).unwrap().len() == n,
        forall|i: int|
            0 <= i < n ==> (#[trigger] section_fields(
                Section::Fixed,
                s.fixed,
                b,
                n,
            ).unwrap()[i]).column_id == s.fixed[i].id,
    decreases n,
{
    if n > 0 {
        lemma_fixed_columns_have_slots(s, b, (n - 1) as nat);
    }
}

} // verus!
