//! The encoding of a row, as a mathematical function, and the proof that the
//! record decoder returns exactly the row that was encoded.
//!
//! Nothing here runs. The encoder states what the bytes of a row are; the
//! lemmas relate it to the decoder of [`crate::record`].
use crate::constants::{CodePage, ColumnType};
use crate::cursor::row_of;
use crate::error::EseError;
use crate::constants::flag_set;
use crate::record::{
    bit_mask, find_tag, fixed_base, fixed_count, fixed_present, header_ok,
    lemma_tagged_count_unique, multi_values, section_fields, slot, spec_decode_record, tag_has_flags, tag_id, tag_off, tag_word, tagged_base,
    tagged_count, tagged_offsets_ok, tagged_ok, tagged_table, tagged_value, var_end, var_entry,
    var_null, var_start, var_table_ok, variable_count, variable_data, variable_offset, Section,
};
use crate::types::{
    follows, guid_at, id_fits, ids_ascend, spec_decode_value, text_units,
    ColumnView, FieldView, Guid, SchemaView, ValueView,
};
use crate::utils::{be_u32, be_u64, le_u16, le_u32, le_u64};
use vstd::prelude::*;

verus! {

/// The two bytes of a 16-bit pattern, least significant first.
pub open spec fn u16_bytes(v: int) -> Seq<u8> {
    seq![(v % 256) as u8, (v / 256 % 256) as u8]
}

/// The four bytes of a 32-bit pattern, least significant first.
pub open spec fn u32_bytes(v: int) -> Seq<u8> {
    u16_bytes(v % 0x1_0000) + u16_bytes(v / 0x1_0000)
}

/// The eight bytes of a 64-bit pattern, least significant first.
pub open spec fn u64_bytes(v: int) -> Seq<u8> {
    u32_bytes(v % 0x1_0000_0000) + u32_bytes(v / 0x1_0000_0000)
}

/// The four bytes of a 32-bit pattern, most significant first.
pub open spec fn u32_bytes_be(v: int) -> Seq<u8> {
    seq![
        (v / 0x100_0000 % 256) as u8,
        (v / 0x1_0000 % 256) as u8,
        (v / 0x100 % 256) as u8,
        (v % 256) as u8,
    ]
}

/// The eight bytes of a 64-bit pattern, most significant first.
pub open spec fn u64_bytes_be(v: int) -> Seq<u8> {
    u32_bytes_be(v / 0x1_0000_0000) + u32_bytes_be(v % 0x1_0000_0000)
}

/// The bit pattern of a signed number of `modulus` patterns.
pub open spec fn pattern(v: int, modulus: int) -> int {
    if v < 0 {
        v + modulus
    } else {
        v
    }
}

/// Reading two bytes inside a part of a buffer is reading them in the part.
pub proof fn lemma_le_u16_in_part(b: Seq<u8>, start: int, end: int, off: int)
    requires
        0 <= start <= off,
        off + 2 <= end <= b.len(),
    ensures
        le_u16(b, off) == le_u16(b.subrange(start, end), off - start),
{
}

/// Reading four bytes inside a part of a buffer is reading them in the part.
pub proof fn lemma_le_u32_in_part(b: Seq<u8>, start: int, end: int, off: int)
    requires
        0 <= start <= off,
        off + 4 <= end <= b.len(),
    ensures
        le_u32(b, off) == le_u32(b.subrange(start, end), off - start),
{
}

/// The bytes of a 16-bit pattern read back give the pattern.
pub proof fn lemma_u16_round_trip(v: int)
    requires
        0 <= v < 0x1_0000,
    ensures
        u16_bytes(v).len() == 2,
        le_u16(u16_bytes(v), 0) == v,
{
}

/// The bytes of a 32-bit pattern read back give the pattern.
pub proof fn lemma_u32_round_trip(v: int)
    requires
        0 <= v < 0x1_0000_0000,
    ensures
        u32_bytes(v).len() == 4,
        le_u32(u32_bytes(v), 0) == v,
{
    lemma_u16_round_trip(v % 0x1_0000);
    lemma_u16_round_trip(v / 0x1_0000);
    let b = u32_bytes(v);
    assert(b.subrange(0, 2) =~= u16_bytes(v % 0x1_0000));
    assert(b.subrange(2, 4) =~= u16_bytes(v / 0x1_0000));
    lemma_le_u16_in_part(b, 0, 2, 0);
    lemma_le_u16_in_part(b, 2, 4, 2);
}

/// The bytes of a 64-bit pattern read back give the pattern.
pub proof fn lemma_u64_round_trip(v: int)
    requires
        0 <= v < 0x1_0000_0000_0000_0000,
    ensures
        u64_bytes(v).len() == 8,
        le_u64(u64_bytes(v), 0) == v,
{
    lemma_u32_round_trip(v % 0x1_0000_0000);
    lemma_u32_round_trip(v / 0x1_0000_0000);
    let b = u64_bytes(v);
    assert(b.subrange(0, 4) =~= u32_bytes(v % 0x1_0000_0000));
    assert(b.subrange(4, 8) =~= u32_bytes(v / 0x1_0000_0000));
    lemma_le_u32_in_part(b, 0, 4, 0);
    lemma_le_u32_in_part(b, 4, 8, 4);
}

/// The bytes of a 32-bit pattern, most significant first, read back give the
/// pattern.
pub proof fn lemma_u32_be_round_trip(v: int)
    requires
        0 <= v < 0x1_0000_0000,
    ensures
        u32_bytes_be(v).len() == 4,
        be_u32(u32_bytes_be(v), 0) == v,
{
}

/// The bytes of a 64-bit pattern, most significant first, read back give the
/// pattern.
pub proof fn lemma_u64_be_round_trip(v: int)
    requires
        0 <= v < 0x1_0000_0000_0000_0000,
    ensures
        u64_bytes_be(v).len() == 8,
        be_u64(u64_bytes_be(v), 0) == v,
{
    lemma_u32_be_round_trip(v / 0x1_0000_0000);
    lemma_u32_be_round_trip(v % 0x1_0000_0000);
    let b = u64_bytes_be(v);
    let hi = u32_bytes_be(v / 0x1_0000_0000);
    let lo = u32_bytes_be(v % 0x1_0000_0000);
    assert(b[0] == hi[0] && b[1] == hi[1] && b[2] == hi[2] && b[3] == hi[3]);
    assert(b[4] == lo[0] && b[5] == lo[1] && b[6] == lo[2] && b[7] == lo[3]);
}

/// The stored bytes of text: two bytes per unit for a wide code page, one
/// byte per unit otherwise.
pub open spec fn text_bytes(cp: CodePage, units: Seq<u16>) -> Seq<u8> {
    if cp.spec_is_wide() {
        Seq::new(2 * units.len(), |i: int| u16_bytes(units[i / 2] as int)[i % 2])
    } else {
        Seq::new(units.len(), |i: int| (units[i] % 256) as u8)
    }
}

/// The stored bytes of an identifier.
pub open spec fn guid_bytes(g: Guid) -> Seq<u8> {
    u32_bytes(g.data1 as int) + u16_bytes(g.data2 as int) + u16_bytes(g.data3 as int)
        + u64_bytes_be(g.data4 as int)
}

/// The stored bytes of one value: of a value that a column type decodes to,
/// or of a long-value reference.
pub open spec fn encode_value(v: ValueView) -> Seq<u8> {
    match v {
        ValueView::Bool(b) => seq![if b { 1u8 } else { 0u8 }],
        ValueView::UInt8(x) => seq![x],
        ValueView::Int16(x) => u16_bytes(pattern(x as int, 0x1_0000)),
        ValueView::UInt16(x) => u16_bytes(x as int),
        ValueView::Int32(x) => u32_bytes(pattern(x as int, 0x1_0000_0000)),
        ValueView::UInt32(x) => u32_bytes(x as int),
        ValueView::Float32(x) => u32_bytes(x as int),
        ValueView::Int64(x) => u64_bytes(pattern(x as int, 0x1_0000_0000_0000_0000)),
        ValueView::Float64(x) => u64_bytes(x as int),
        ValueView::DateTime(x) => u64_bytes(x as int),
        ValueView::Guid(g) => guid_bytes(g),
        ValueView::Binary(b) => b,
        ValueView::Text(cp, u) => text_bytes(cp, u),
        ValueView::LongValueRef(key) => u32_bytes(key as int),
        _ => Seq::empty(),
    }
}

/// Whether `v` is a value that a column of type `ty` and code page `cp`
/// holds: of the variant that the type decodes to, and, for text, of the
/// column's code page with units that the code page can store.
pub open spec fn value_fits(ty: ColumnType, cp: CodePage, v: ValueView) -> bool {
    match ty {
        ColumnType::Bit => v is Bool,
        ColumnType::UnsignedByte => v is UInt8,
        ColumnType::Short => v is Int16,
        ColumnType::UnsignedShort => v is UInt16,
        ColumnType::Long => v is Int32,
        ColumnType::UnsignedLong => v is UInt32,
        ColumnType::Currency | ColumnType::LongLong => v is Int64,
        ColumnType::IeeeSingle => v is Float32,
        ColumnType::IeeeDouble => v is Float64,
        ColumnType::DateTime => v is DateTime,
        ColumnType::Guid => v is Guid,
        ColumnType::Nil | ColumnType::Binary | ColumnType::LongBinary | ColumnType::Slv => v is Binary,
        ColumnType::Text | ColumnType::LongText => v matches ValueView::Text(c, u) && c == cp && (
        cp.spec_is_wide() || forall|i: int| 0 <= i < u.len() ==> #[trigger] u[i] < 256),
    }
}

/// Stored text read back gives the text.
pub proof fn lemma_text_round_trip(cp: CodePage, u: Seq<u16>)
    requires
        cp.spec_is_wide() || forall|i: int| 0 <= i < u.len() ==> #[trigger] u[i] < 256,
    ensures
        text_units(cp, text_bytes(cp, u)) == Some(u),
{
    let b = text_bytes(cp, u);
    let back = text_units(cp, b).unwrap();
    if cp.spec_is_wide() {
        assert forall|i: int| 0 <= i < u.len() implies back[i] == u[i] by {
            lemma_u16_round_trip(u[i] as int);
            assert((2 * i) / 2 == i && (2 * i) % 2 == 0);
            assert((2 * i + 1) / 2 == i && (2 * i + 1) % 2 == 1);
            assert(b[2 * i] == u16_bytes(u[i] as int)[0]);
            assert(b[2 * i + 1] == u16_bytes(u[i] as int)[1]);
        }
        assert(back =~= u);
    } else {
        assert forall|i: int| 0 <= i < u.len() implies back[i] == u[i] by {
            assert(u[i] < 256);
        }
        assert(back =~= u);
    }
}

/// A stored identifier read back gives the identifier.
pub proof fn lemma_guid_round_trip(g: Guid)
    ensures
        guid_bytes(g).len() == 16,
        guid_at(guid_bytes(g)) == g,
{
    let b = guid_bytes(g);
    lemma_u32_round_trip(g.data1 as int);
    lemma_u16_round_trip(g.data2 as int);
    lemma_u16_round_trip(g.data3 as int);
    lemma_u64_be_round_trip(g.data4 as int);
    assert(b.subrange(0, 4) =~= u32_bytes(g.data1 as int));
    assert(b.subrange(4, 6) =~= u16_bytes(g.data2 as int));
    assert(b.subrange(6, 8) =~= u16_bytes(g.data3 as int));
    let tail = u64_bytes_be(g.data4 as int);
    assert(b.subrange(8, 16) =~= tail);
    lemma_le_u32_in_part(b, 0, 4, 0);
    lemma_le_u16_in_part(b, 4, 6, 4);
    lemma_le_u16_in_part(b, 6, 8, 6);
    assert forall|k: int| 0 <= k < 8 implies b[8 + k] == tail[k] by {
        assert(b.subrange(8, 16)[k] == b[8 + k]);
    }
    assert(be_u32(b, 8) == be_u32(tail, 0));
    assert(be_u32(b, 12) == be_u32(tail, 4));
}

/// Round trip of one value: the stored bytes of a value that fits its column
/// decode to the value.
pub proof fn lemma_value_round_trip(ty: ColumnType, cp: CodePage, v: ValueView)
    requires
        value_fits(ty, cp, v),
    ensures
        spec_decode_value(ty, cp, encode_value(v)) == Some(v),
{
    match v {
        ValueView::Int16(x) => {
            lemma_u16_round_trip(pattern(x as int, 0x1_0000));
        },
        ValueView::UInt16(x) => {
            lemma_u16_round_trip(x as int);
        },
        ValueView::Int32(x) => {
            lemma_u32_round_trip(pattern(x as int, 0x1_0000_0000));
        },
        ValueView::UInt32(x) => {
            lemma_u32_round_trip(x as int);
        },
        ValueView::Float32(x) => {
            lemma_u32_round_trip(x as int);
        },
        ValueView::Int64(x) => {
            lemma_u64_round_trip(pattern(x as int, 0x1_0000_0000_0000_0000));
        },
        ValueView::Float64(x) => {
            lemma_u64_round_trip(x as int);
        },
        ValueView::DateTime(x) => {
            lemma_u64_round_trip(x as int);
        },
        ValueView::Guid(g) => {
            lemma_guid_round_trip(g);
        },
        ValueView::Text(c, u) => {
            lemma_text_round_trip(cp, u);
        },
        _ => {},
    }
}

/// The number of bytes of the first `n` of `parts`.
pub open spec fn total_len(parts: Seq<Seq<u8>>, n: int) -> int
    decreases n,
{
    if n <= 0 {
        0
    } else {
        total_len(parts, n - 1) + parts[n - 1].len()
    }
}

/// The first `n` of `parts`, one after the other.
pub open spec fn flatten(parts: Seq<Seq<u8>>, n: int) -> Seq<u8>
    decreases n,
{
    if n <= 0 {
        Seq::empty()
    } else {
        flatten(parts, n - 1) + parts[n - 1]
    }
}

/// The length of joined parts is the sum of their lengths.
pub proof fn lemma_flatten_len(parts: Seq<Seq<u8>>, n: int)
    requires
        0 <= n <= parts.len(),
    ensures
        flatten(parts, n).len() == total_len(parts, n),
        total_len(parts, n) >= 0,
    decreases n,
{
    if n > 0 {
        lemma_flatten_len(parts, n - 1);
    }
}

/// Longer prefixes have more bytes.
pub proof fn lemma_total_monotone(parts: Seq<Seq<u8>>, i: int, j: int)
    requires
        0 <= i <= j <= parts.len(),
    ensures
        0 <= total_len(parts, i) <= total_len(parts, j),
    decreases j,
{
    lemma_flatten_len(parts, i);
    if i < j {
        lemma_total_monotone(parts, i, j - 1);
    }
}

/// Part `i` of joined parts lies at the bytes from the length of the parts
/// before it on.
pub proof fn lemma_flatten_part(parts: Seq<Seq<u8>>, n: int, i: int)
    requires
        0 <= i < n <= parts.len(),
    ensures
        total_len(parts, i + 1) <= flatten(parts, n).len(),
        flatten(parts, n).subrange(total_len(parts, i), total_len(parts, i + 1)) == parts[i],
    decreases n,
{
    lemma_flatten_len(parts, n);
    lemma_flatten_len(parts, n - 1);
    lemma_flatten_len(parts, i);
    if i == n - 1 {
        assert(flatten(parts, n).subrange(total_len(parts, i), total_len(parts, i + 1))
            =~= parts[i]);
    } else {
        lemma_flatten_part(parts, n - 1, i);
        lemma_total_monotone(parts, i + 1, n - 1);
        assert(flatten(parts, n).subrange(total_len(parts, i), total_len(parts, i + 1))
            =~= flatten(parts, n - 1).subrange(total_len(parts, i), total_len(parts, i + 1)));
    }
}

/// Where the column with identifier `id` stands among `cols`, searching from
/// `from`; the number of columns where there is none.
pub open spec fn position_of(cols: Seq<ColumnView>, id: int, from: int) -> int
    decreases cols.len() - from,
{
    if from < 0 || from >= cols.len() {
        cols.len() as int
    } else if cols[from].id == id {
        from
    } else {
        position_of(cols, id, from + 1)
    }
}

/// Ascending identifiers ascend over any distance.
pub proof fn lemma_ids_order(cols: Seq<ColumnView>, lo: int, hi: int, i: int, j: int)
    requires
        ids_ascend(cols, lo, hi),
        0 <= i < j < cols.len(),
    ensures
        cols[i].id < cols[j].id,
    decreases j - i,
{
    assert(id_fits(cols, j, lo, hi));
    if i < j - 1 {
        lemma_ids_order(cols, lo, hi, i, j - 1);
    }
}

/// Among ascending identifiers a column is found at its own position.
pub proof fn lemma_position_of_own(cols: Seq<ColumnView>, lo: int, hi: int, i: int, from: int)
    requires
        ids_ascend(cols, lo, hi),
        0 <= from <= i < cols.len(),
    ensures
        position_of(cols, cols[i].id as int, from) == i,
    decreases i - from,
{
    if from < i {
        lemma_ids_order(cols, lo, hi, from, i);
        lemma_position_of_own(cols, lo, hi, i, from + 1);
    }
}

/// What the search finds has the identifier that was searched.
pub proof fn lemma_position_of_found(cols: Seq<ColumnView>, id: int, from: int)
    requires
        0 <= from,
    ensures
        from <= position_of(cols, id, from) || position_of(cols, id, from) == cols.len(),
        position_of(cols, id, from) <= cols.len(),
        position_of(cols, id, from) < cols.len() ==> cols[position_of(cols, id, from)].id == id,
    decreases cols.len() - from,
{
    if from < cols.len() && cols[from].id != id {
        lemma_position_of_found(cols, id, from + 1);
    }
}

/// One if `p` holds, else zero.
pub open spec fn bit(p: bool) -> int {
    if p {
        1
    } else {
        0
    }
}

/// The byte whose bit `k` says whether `f` holds of `base + k`.
pub open spec fn pack_byte(f: spec_fn(int) -> bool, base: int) -> int {
    bit(f(base)) + 2 * bit(f(base + 1)) + 4 * bit(f(base + 2)) + 8 * bit(f(base + 3)) + 16 * bit(
        f(base + 4),
    ) + 32 * bit(f(base + 5)) + 64 * bit(f(base + 6)) + 128 * bit(f(base + 7))
}

/// Bit `k` of a packed byte says whether `f` holds of `base + k`.
pub proof fn lemma_pack_byte(f: spec_fn(int) -> bool, base: int, k: int)
    requires
        0 <= k < 8,
    ensures
        0 <= pack_byte(f, base) < 256,
        flag_set(pack_byte(f, base), bit_mask(k)) == f(base + k),
{
}

/// A row to encode: for each column of the schema, what the row stores.
pub ghost struct Row {
    /// For each fixed column its value; `None` where the row stores none.
    pub fixed: Seq<Option<ValueView>>,
    /// For each variable column its value; `None` for a stored null.
    pub variable: Seq<Option<ValueView>>,
    /// The number of variable columns that the row stores: the first so many
    /// of the schema. The others are absent from the row.
    pub stored_variable: nat,
    /// For each tagged column its value; `None` where the row does not hold
    /// the column.
    pub tagged: Seq<Option<ValueView>>,
}

/// `n` zero bytes.
pub open spec fn zeros(n: int) -> Seq<u8> {
    Seq::new(n as nat, |i: int| 0u8)
}

/// The bytes of the slot of a fixed column.
pub open spec fn fixed_part(c: ColumnView, cell: Option<ValueView>) -> Seq<u8> {
    match cell {
        Some(v) => encode_value(v),
        None => zeros(c.size as int),
    }
}

/// The slots of the fixed columns.
pub open spec fn fixed_parts(s: SchemaView, row: Row) -> Seq<Seq<u8>> {
    Seq::new(s.fixed.len(), |i: int| fixed_part(s.fixed[i], row.fixed[i]))
}

/// The identifier of the last fixed column, zero where there is none.
pub open spec fn last_fixed(s: SchemaView) -> int {
    if s.fixed.len() == 0 {
        0
    } else {
        s.fixed.last().id as int
    }
}

/// Whether the row stores a value for the fixed column `id`.
pub open spec fn fixed_stored(s: SchemaView, row: Row, id: int) -> bool {
    let i = position_of(s.fixed, id, 0);
    0 <= i < s.fixed.len() && row.fixed[i].is_some()
}

/// The presence bitmap: bit `id - 1` says whether fixed column `id` is stored.
pub open spec fn enc_bitmap(s: SchemaView, row: Row) -> Seq<u8> {
    Seq::new(
        ((last_fixed(s) + 7) / 8) as nat,
        |m: int| pack_byte(|id: int| fixed_stored(s, row, id), 8 * m + 1) as u8,
    )
}

/// The fixed section.
pub open spec fn enc_fixed(s: SchemaView, row: Row) -> Seq<u8> {
    flatten(fixed_parts(s, row), s.fixed.len() as int)
}

/// Where the fixed section of the encoded row starts.
pub open spec fn enc_base(s: SchemaView, row: Row) -> int {
    4 + enc_bitmap(s, row).len() as int
}

/// Where the variable section of the encoded row starts.
pub open spec fn enc_variable_offset(s: SchemaView, row: Row) -> int {
    enc_base(s, row) + enc_fixed(s, row).len() as int
}

/// The number of entries of the offset table: up to the identifier of the
/// last variable column stored.
pub open spec fn variable_slots(s: SchemaView, row: Row) -> int {
    if row.stored_variable == 0 {
        0
    } else {
        s.variable[row.stored_variable - 1].id - 127
    }
}

/// What entry `j` of the offset table stores: the value of the variable
/// column with identifier `128 + j`, if the schema has one and it is stored
/// with a value.
pub open spec fn variable_cell(s: SchemaView, row: Row, j: int) -> Option<ValueView> {
    let i = position_of(s.variable, 128 + j, 0);
    if 0 <= i < row.stored_variable {
        row.variable[i]
    } else {
        None
    }
}

/// The bytes of entry `j` of the variable section.
pub open spec fn variable_part(s: SchemaView, row: Row, j: int) -> Seq<u8> {
    match variable_cell(s, row, j) {
        Some(v) => encode_value(v),
        None => Seq::empty(),
    }
}

/// The bytes of the entries of the variable section.
pub open spec fn variable_parts(s: SchemaView, row: Row) -> Seq<Seq<u8>> {
    Seq::new(variable_slots(s, row) as nat, |j: int| variable_part(s, row, j))
}

/// Entry `j` of the offset table: where the bytes of the entry end, with the
/// top bit set for a stored null.
pub open spec fn variable_word(s: SchemaView, row: Row, j: int) -> int {
    total_len(variable_parts(s, row), j + 1) + if variable_cell(s, row, j).is_none() {
        0x8000int
    } else {
        0
    }
}

/// The offset table.
pub open spec fn enc_variable_table(s: SchemaView, row: Row) -> Seq<u8> {
    Seq::new(
        (2 * variable_slots(s, row)) as nat,
        |p: int| u16_bytes(variable_word(s, row, p / 2))[p % 2],
    )
}

/// The bytes of the variable columns.
pub open spec fn enc_variable_data(s: SchemaView, row: Row) -> Seq<u8> {
    flatten(variable_parts(s, row), variable_slots(s, row))
}

/// The header: last fixed identifier, last variable identifier, offset of the
/// variable section.
pub open spec fn enc_header(s: SchemaView, row: Row) -> Seq<u8> {
    seq![last_fixed(s) as u8, (127 + variable_slots(s, row)) as u8] + u16_bytes(
        enc_variable_offset(s, row),
    )
}

/// The record up to the end of the variable section.
pub open spec fn enc_front(s: SchemaView, row: Row) -> Seq<u8> {
    enc_header(s, row) + enc_bitmap(s, row) + enc_fixed(s, row) + enc_variable_table(s, row)
        + enc_variable_data(s, row)
}

/// Whether the fixed and variable values of the row fit the schema and the
/// limits of the layout.
pub open spec fn front_fits(s: SchemaView, row: Row) -> bool {
    &&& s.wf()
    &&& row.fixed.len() == s.fixed.len()
    &&& row.variable.len() == s.variable.len()
    &&& row.stored_variable <= s.variable.len()
    &&& forall|i: int|
        0 <= i < s.fixed.len() ==> (#[trigger] row.fixed[i] matches Some(v) ==> value_fits(
            s.fixed[i].column_type,
            s.fixed[i].code_page,
            v,
        ) && encode_value(v).len() == s.fixed[i].size)
    &&& forall|i: int|
        0 <= i < row.stored_variable ==> (#[trigger] row.variable[i] matches Some(v)
            ==> value_fits(s.variable[i].column_type, s.variable[i].code_page, v))
    &&& enc_variable_offset(s, row) < 0x1_0000
    &&& enc_variable_data(s, row).len() < 0x8000
}

/// The parts of the front of an encoded row lie one after the other, and the
/// header says where.
pub proof fn lemma_front_layout(s: SchemaView, row: Row, tail: Seq<u8>)
    requires
        front_fits(s, row),
    ensures
        ({
            let b = enc_front(s, row) + tail;
            let base = enc_base(s, row);
            let vo = enc_variable_offset(s, row);
            let slots = variable_slots(s, row);
            let data = vo + 2 * slots;
            &&& 0 <= slots <= 128
            &&& fixed_count(b) == last_fixed(s)
            &&& variable_count(b) == slots
            &&& variable_offset(b) == vo
            &&& fixed_base(b) == base
            &&& variable_data(b) == data
            &&& header_ok(b)
            &&& b.len() == data + enc_variable_data(s, row).len() + tail.len()
            &&& b.subrange(4, base) == enc_bitmap(s, row)
            &&& b.subrange(base, vo) == enc_fixed(s, row)
            &&& b.subrange(vo, data) == enc_variable_table(s, row)
            &&& b.subrange(data, data + enc_variable_data(s, row).len()) == enc_variable_data(
                s,
                row,
            )
            &&& b.subrange(data + enc_variable_data(s, row).len(), b.len() as int) == tail
        }),
{
    let b = enc_front(s, row) + tail;
    let base = enc_base(s, row);
    let vo = enc_variable_offset(s, row);
    let slots = variable_slots(s, row);
    let data = vo + 2 * slots;
    if row.stored_variable > 0 {
        assert(id_fits(s.variable, row.stored_variable - 1, 128, 255));
    }
    if s.fixed.len() > 0 {
        assert(id_fits(s.fixed, s.fixed.len() - 1, 1, 127));
    }
    lemma_u16_round_trip(vo);
    let h = enc_header(s, row);
    assert(h.len() == 4);
    assert(h.subrange(2, 4) =~= u16_bytes(vo));
    assert(b.subrange(0, 4) =~= h);
    lemma_le_u16_in_part(b, 0, 4, 2);
    lemma_le_u16_in_part(h, 2, 4, 2);
    assert(b[0] == h[0] && b[1] == h[1]);
    assert(b.subrange(4, base) =~= enc_bitmap(s, row));
    assert(b.subrange(base, vo) =~= enc_fixed(s, row));
    assert(b.subrange(vo, data) =~= enc_variable_table(s, row));
    assert(b.subrange(data, data + enc_variable_data(s, row).len()) =~= enc_variable_data(
        s,
        row,
    ));
    assert(b.subrange(data + enc_variable_data(s, row).len(), b.len() as int) =~= tail);
}

/// The value that decoding gives for a cell: the stored value, or null.
pub open spec fn cell_value(cell: Option<ValueView>) -> ValueView {
    match cell {
        Some(v) => v,
        None => ValueView::Null,
    }
}

/// Each fixed column starts where the slots before it end.
pub proof fn lemma_fixed_offsets(s: SchemaView, row: Row, i: int)
    requires
        front_fits(s, row),
        0 <= i < s.fixed.len(),
    ensures
        s.fixed[i].offset == total_len(fixed_parts(s, row), i),
        s.fixed[i].offset + s.fixed[i].size == total_len(fixed_parts(s, row), i + 1),
    decreases i,
{
    assert(follows(s.fixed, i));
    if i > 0 {
        lemma_fixed_offsets(s, row, i - 1);
    }
}

/// Decoding the slot of a fixed column of an encoded row gives the value of
/// the row, or null where the row stores none.
pub proof fn lemma_fixed_slot(s: SchemaView, row: Row, tail: Seq<u8>, i: int)
    requires
        front_fits(s, row),
        0 <= i < s.fixed.len(),
    ensures
        slot(Section::Fixed, s.fixed[i], enc_front(s, row) + tail) == Some(
            Some(cell_value(row.fixed[i])),
        ),
{
    let b = enc_front(s, row) + tail;
    let c = s.fixed[i];
    let id = c.id as int;
    let parts = fixed_parts(s, row);
    let n = s.fixed.len() as int;
    lemma_front_layout(s, row, tail);
    assert(id_fits(s.fixed, i, 1, 127));
    if i < n - 1 {
        lemma_ids_order(s.fixed, 1, 127, i, n - 1);
    }
    let m = (id - 1) / 8;
    let k = (id - 1) % 8;
    let f = |x: int| fixed_stored(s, row, x);
    lemma_pack_byte(f, 8 * m + 1, k);
    lemma_position_of_own(s.fixed, 1, 127, i, 0);
    let bm = enc_bitmap(s, row);
    assert(0 <= m < bm.len());
    assert(b.subrange(4, enc_base(s, row))[m] == b[4 + m]);
    assert(bm[m] == pack_byte(f, 8 * m + 1) as u8);
    assert(f(8 * m + 1 + k) == fixed_stored(s, row, id));
    assert(fixed_present(b, id) == row.fixed[i].is_some());
    if let Some(v) = row.fixed[i] {
        lemma_fixed_offsets(s, row, i);
        lemma_total_monotone(parts, i + 1, n);
        lemma_flatten_part(parts, n, i);
        lemma_flatten_len(parts, n);
        let base = enc_base(s, row);
        let area = enc_fixed(s, row);
        let start = base + c.offset;
        assert(b.subrange(start, start + c.size) =~= area.subrange(
            c.offset as int,
            c.offset + c.size,
        ));
        lemma_value_round_trip(c.column_type, c.code_page, v);
    }
}

/// The fields of the fixed columns: one for each, in schema order.
pub open spec fn expected_fixed(s: SchemaView, row: Row, n: nat) -> Seq<FieldView> {
    Seq::new(
        n,
        |i: int| FieldView { column_id: s.fixed[i].id, value: cell_value(row.fixed[i]) },
    )
}

/// Decoding the fixed section of an encoded row gives the fixed values of
/// the row.
pub proof fn lemma_fixed_section(s: SchemaView, row: Row, tail: Seq<u8>, n: nat)
    requires
        front_fits(s, row),
        n <= s.fixed.len(),
    ensures
        section_fields(Section::Fixed, s.fixed, enc_front(s, row) + tail, n) == Some(
            expected_fixed(s, row, n),
        ),
    decreases n,
{
    if n > 0 {
        lemma_fixed_section(s, row, tail, (n - 1) as nat);
        lemma_fixed_slot(s, row, tail, n - 1);
        assert(expected_fixed(s, row, (n - 1) as nat).push(
            FieldView { column_id: s.fixed[n - 1].id, value: cell_value(row.fixed[n - 1]) },
        ) =~= expected_fixed(s, row, n));
    } else {
        assert(expected_fixed(s, row, 0) =~= Seq::<FieldView>::empty());
    }
}

/// Entry `j` of the offset table of an encoded row holds where the bytes of
/// the entry end and whether it is null.
pub proof fn lemma_variable_entry(s: SchemaView, row: Row, tail: Seq<u8>, j: int)
    requires
        front_fits(s, row),
        0 <= j < variable_slots(s, row),
    ensures
        var_end(enc_front(s, row) + tail, j) == total_len(variable_parts(s, row), j + 1),
        var_null(enc_front(s, row) + tail, j) == variable_cell(s, row, j).is_none(),
        0 <= total_len(variable_parts(s, row), j + 1) <= enc_variable_data(s, row).len(),
{
    let b = enc_front(s, row) + tail;
    let parts = variable_parts(s, row);
    let slots = variable_slots(s, row);
    lemma_front_layout(s, row, tail);
    lemma_total_monotone(parts, j + 1, slots);
    lemma_flatten_len(parts, slots);
    let vo = enc_variable_offset(s, row);
    let table = enc_variable_table(s, row);
    let word = variable_word(s, row, j);
    lemma_u16_round_trip(word);
    lemma_le_u16_in_part(b, vo, vo + 2 * slots, vo + 2 * j);
    assert((2 * j) / 2 == j && (2 * j) % 2 == 0);
    assert((2 * j + 1) / 2 == j && (2 * j + 1) % 2 == 1);
    assert(table[2 * j] == u16_bytes(word)[0]);
    assert(table[2 * j + 1] == u16_bytes(word)[1]);
    assert(var_entry(b, j) == word);
}

/// The offset table of an encoded row is sound, and the tagged section
/// starts behind the variable data.
pub proof fn lemma_variable_table(s: SchemaView, row: Row, tail: Seq<u8>)
    requires
        front_fits(s, row),
    ensures
        var_table_ok(enc_front(s, row) + tail),
        tagged_base(enc_front(s, row) + tail) == enc_variable_offset(s, row) + 2 * variable_slots(
            s,
            row,
        ) + enc_variable_data(s, row).len(),
        forall|j: int|
            0 <= j <= variable_slots(s, row) ==> #[trigger] var_start(
                enc_front(s, row) + tail,
                j,
            ) == total_len(variable_parts(s, row), j),
{
    let b = enc_front(s, row) + tail;
    let parts = variable_parts(s, row);
    let slots = variable_slots(s, row);
    lemma_front_layout(s, row, tail);
    lemma_flatten_len(parts, slots);
    assert forall|j: int| 0 <= j <= slots implies #[trigger] var_start(b, j) == total_len(
        parts,
        j,
    ) by {
        if j > 0 {
            lemma_variable_entry(s, row, tail, j - 1);
        }
    }
    assert forall|j: int| 0 <= j < variable_count(b) implies var_start(b, j) <= #[trigger] var_end(
        b,
        j,
    ) && variable_data(b) + var_end(b, j) <= b.len() by {
        lemma_variable_entry(s, row, tail, j);
        lemma_total_monotone(parts, j, j + 1);
        assert(var_start(b, j) == total_len(parts, j));
    }
}

/// Decoding a variable column of an encoded row gives the value of the row,
/// null for a stored null, and nothing for a column that the row does not
/// store.
pub proof fn lemma_variable_slot(s: SchemaView, row: Row, tail: Seq<u8>, i: int)
    requires
        front_fits(s, row),
        0 <= i < s.variable.len(),
    ensures
        slot(Section::Variable, s.variable[i], enc_front(s, row) + tail) == if i
            < row.stored_variable {
            Some(Some(cell_value(row.variable[i])))
        } else {
            Some(None::<ValueView>)
        },
{
    let b = enc_front(s, row) + tail;
    let c = s.variable[i];
    let j = c.id - 128;
    let slots = variable_slots(s, row);
    let parts = variable_parts(s, row);
    let stored = row.stored_variable as int;
    lemma_front_layout(s, row, tail);
    assert(id_fits(s.variable, i, 128, 255));
    if i >= stored {
        if stored > 0 {
            lemma_ids_order(s.variable, 128, 255, stored - 1, i);
        }
    } else {
        if i < stored - 1 {
            lemma_ids_order(s.variable, 128, 255, i, stored - 1);
        }
        lemma_position_of_own(s.variable, 128, 255, i, 0);
        assert(variable_cell(s, row, j) == row.variable[i]);
        lemma_variable_entry(s, row, tail, j);
        lemma_variable_table(s, row, tail);
        assert(var_start(b, j) == total_len(parts, j));
        if let Some(v) = row.variable[i] {
            lemma_flatten_part(parts, slots, j);
            lemma_flatten_len(parts, slots);
            let data = variable_data(b);
            assert(b.subrange(data + total_len(parts, j), data + total_len(parts, j + 1))
                =~= enc_variable_data(s, row).subrange(
                total_len(parts, j),
                total_len(parts, j + 1),
            ));
            lemma_value_round_trip(c.column_type, c.code_page, v);
        }
    }
}

/// The fields of the variable columns: one for each column stored, in schema
/// order.
pub open spec fn expected_variable(s: SchemaView, row: Row, n: nat) -> Seq<FieldView> {
    Seq::new(
        if n < row.stored_variable {
            n
        } else {
            row.stored_variable
        },
        |i: int| FieldView { column_id: s.variable[i].id, value: cell_value(row.variable[i]) },
    )
}

/// Decoding the variable section of an encoded row gives the variable values
/// of the row.
pub proof fn lemma_variable_section(s: SchemaView, row: Row, tail: Seq<u8>, n: nat)
    requires
        front_fits(s, row),
        n <= s.variable.len(),
    ensures
        section_fields(Section::Variable, s.variable, enc_front(s, row) + tail, n) == Some(
            expected_variable(s, row, n),
        ),
    decreases n,
{
    if n > 0 {
        lemma_variable_section(s, row, tail, (n - 1) as nat);
        lemma_variable_slot(s, row, tail, n - 1);
        if n - 1 < row.stored_variable {
            assert(expected_variable(s, row, (n - 1) as nat).push(
                FieldView {
                    column_id: s.variable[n - 1].id,
                    value: cell_value(row.variable[n - 1]),
                },
            ) =~= expected_variable(s, row, n));
        } else {
            assert(expected_variable(s, row, (n - 1) as nat) =~= expected_variable(s, row, n));
        }
    } else {
        assert(expected_variable(s, row, 0) =~= Seq::<FieldView>::empty());
    }
}

/// The bytes of the values of a multi-valued column: each value behind its
/// length in two bytes.
pub open spec fn multi_parts(vs: Seq<ValueView>) -> Seq<Seq<u8>> {
    Seq::new(
        vs.len(),
        |k: int| u16_bytes(encode_value(vs[k]).len() as int) + encode_value(vs[k]),
    )
}

/// Whether `v` can stand in a multi-value of a column: a long-value
/// reference where the multi-value holds references, else a value of the
/// column's type with a length that two bytes can hold.
pub open spec fn element_fits(ty: ColumnType, cp: CodePage, long: bool, v: ValueView) -> bool {
    if long {
        v is LongValueRef
    } else {
        value_fits(ty, cp, v) && encode_value(v).len() < 0x1_0000
    }
}

/// Whether every one of `vs` can stand in a multi-value of the column.
pub open spec fn elements_fit(ty: ColumnType, cp: CodePage, long: bool, vs: Seq<ValueView>) -> bool {
    forall|k: int| 0 <= k < vs.len() ==> element_fits(ty, cp, long, #[trigger] vs[k])
}

/// Whether a multi-value holds long-value references.
pub open spec fn multi_long(vs: Seq<ValueView>) -> bool {
    vs.len() > 0 && vs[0] is LongValueRef
}

/// Whether `vs` are the values of a multi-value of the column: all of them
/// long-value references, or all of them values of the column's type.
pub open spec fn multi_fits(ty: ColumnType, cp: CodePage, vs: Seq<ValueView>) -> bool {
    elements_fit(ty, cp, multi_long(vs), vs)
}

/// Round trip of the values of a multi-valued column, from value `k` on.
pub proof fn lemma_multi_round_trip(
    ty: ColumnType,
    cp: CodePage,
    long: bool,
    vs: Seq<ValueView>,
    k: int,
)
    requires
        elements_fit(ty, cp, long, vs),
        0 <= k <= vs.len(),
    ensures
        multi_values(
            ty,
            cp,
            long,
            flatten(multi_parts(vs), vs.len() as int),
            total_len(multi_parts(vs), k),
        ) == Some(vs.subrange(k, vs.len() as int)),
    decreases vs.len() - k,
{
    let parts = multi_parts(vs);
    let n = vs.len() as int;
    let p = flatten(parts, n);
    let pos = total_len(parts, k);
    lemma_flatten_len(parts, n);
    lemma_total_monotone(parts, k, n);
    if k == n {
        assert(vs.subrange(k, n) =~= Seq::<ValueView>::empty());
    } else {
        let v = vs[k];
        let body = encode_value(v);
        assert(element_fits(ty, cp, long, v));
        if let ValueView::LongValueRef(key) = v {
            lemma_u32_round_trip(key as int);
        }
        lemma_flatten_part(parts, n, k);
        lemma_total_monotone(parts, k + 1, n);
        lemma_u16_round_trip(body.len() as int);
        let end = total_len(parts, k + 1);
        assert(parts[k].len() == 2 + body.len());
        assert(end == pos + 2 + body.len());
        lemma_le_u16_in_part(p, pos, end, pos);
        assert(parts[k].subrange(0, 2) =~= u16_bytes(body.len() as int));
        lemma_le_u16_in_part(parts[k], 0, 2, 0);
        assert(le_u16(p, pos) == body.len());
        assert(p.subrange(pos + 2, end) =~= body) by {
            assert(p.subrange(pos, end) == parts[k]);
            assert(p.subrange(pos + 2, end) =~= parts[k].subrange(2, parts[k].len() as int));
        }
        if !long {
            lemma_value_round_trip(ty, cp, v);
        }
        lemma_multi_round_trip(ty, cp, long, vs, k + 1);
        assert(seq![v] + vs.subrange(k + 1, n) =~= vs.subrange(k, n));
    }
}

/// Whether the stored bytes of a tagged value start with a flags byte.
pub open spec fn tagged_flagged(v: ValueView) -> bool {
    match v {
        ValueView::Null => false,
        ValueView::MultiValue(_) => true,
        ValueView::LongValueRef(_) => true,
        _ => encode_value(v).len() == 0,
    }
}

/// The stored bytes of a tagged value. A null has none. A multi-value and a
/// long-value reference follow a flags byte that says so; the flags byte of
/// a multi-value of references says both. Any other value is stored as it
/// is, but for a value without bytes, which follows an empty flags byte to
/// tell it from null.
pub open spec fn stored_tagged(v: ValueView) -> Seq<u8> {
    match v {
        ValueView::Null => Seq::empty(),
        ValueView::MultiValue(vs) => seq![if multi_long(vs) { 12u8 } else { 8u8 }] + flatten(
            multi_parts(vs),
            vs.len() as int,
        ),
        ValueView::LongValueRef(k) => seq![4u8] + u32_bytes(k as int),
        _ => if encode_value(v).len() == 0 {
            seq![0u8]
        } else {
            encode_value(v)
        },
    }
}

/// Whether `v` is a value that a tagged column holds: null, a long-value
/// reference, a multi-value of values of the column's type or of long-value
/// references, or one value of the column's type.
pub open spec fn tagged_fits(ty: ColumnType, cp: CodePage, v: ValueView) -> bool {
    match v {
        ValueView::Null => true,
        ValueView::LongValueRef(_) => true,
        ValueView::MultiValue(vs) => multi_fits(ty, cp, vs),
        _ => value_fits(ty, cp, v),
    }
}

/// Round trip of one tagged value.
pub proof fn lemma_tagged_value_round_trip(ty: ColumnType, cp: CodePage, v: ValueView)
    requires
        tagged_fits(ty, cp, v),
    ensures
        tagged_value(ty, cp, tagged_flagged(v), stored_tagged(v)) == Some(v),
{
    let raw = stored_tagged(v);
    match v {
        ValueView::Null => {},
        ValueView::LongValueRef(k) => {
            let p = raw.subrange(1, raw.len() as int);
            assert(p =~= u32_bytes(k as int));
            lemma_u32_round_trip(k as int);
            assert(flag_set(4, 4) && !flag_set(4, 8));
        },
        ValueView::MultiValue(vs) => {
            let p = raw.subrange(1, raw.len() as int);
            assert(p =~= flatten(multi_parts(vs), vs.len() as int));
            lemma_multi_round_trip(ty, cp, multi_long(vs), vs, 0);
            assert(vs.subrange(0, vs.len() as int) =~= vs);
            assert(flag_set(8, 8) && !flag_set(8, 4));
            assert(flag_set(12, 8) && flag_set(12, 4));
        },
        _ => {
            lemma_value_round_trip(ty, cp, v);
            if encode_value(v).len() == 0 {
                let p = raw.subrange(1, raw.len() as int);
                assert(p =~= encode_value(v));
                assert(!flag_set(0, 8) && !flag_set(0, 4));
            }
        },
    }
}

/// One entry of the tagged table of an encoded row.
pub ghost struct TagEntry {
    /// The position of the column among the tagged columns of the schema.
    pub column: int,
    pub id: int,
    pub flagged: bool,
    pub bytes: Seq<u8>,
}

/// The entry of tagged column `i`.
pub open spec fn tag_entry(s: SchemaView, row: Row, i: int) -> TagEntry {
    TagEntry {
        column: i,
        id: s.tagged[i].id as int,
        flagged: tagged_flagged(row.tagged[i].unwrap()),
        bytes: stored_tagged(row.tagged[i].unwrap()),
    }
}

/// The entries of the first `n` tagged columns: one for each column that the
/// row holds, in schema order.
pub open spec fn tag_entries(s: SchemaView, row: Row, n: int) -> Seq<TagEntry>
    decreases n,
{
    if n <= 0 {
        Seq::empty()
    } else if row.tagged[n - 1].is_some() {
        tag_entries(s, row, n - 1).push(tag_entry(s, row, n - 1))
    } else {
        tag_entries(s, row, n - 1)
    }
}

/// Every entry is the entry of a column that the row holds, and stands where
/// the entries of the columns before that column end.
pub proof fn lemma_entries_columns(s: SchemaView, row: Row, n: int, k: int)
    requires
        0 <= n <= row.tagged.len(),
        0 <= k < tag_entries(s, row, n).len(),
    ensures
        ({
            let e = tag_entries(s, row, n)[k];
            &&& 0 <= e.column < n
            &&& row.tagged[e.column].is_some()
            &&& e == tag_entry(s, row, e.column)
            &&& tag_entries(s, row, e.column).len() == k
        }),
    decreases n,
{
    if n > 0 {
        if k < tag_entries(s, row, n - 1).len() {
            lemma_entries_columns(s, row, n - 1, k);
        }
    }
}

/// The entries of more columns start with the entries of fewer.
pub proof fn lemma_entries_prefix(s: SchemaView, row: Row, n: int, m: int, k: int)
    requires
        0 <= n <= m <= row.tagged.len(),
        0 <= k < tag_entries(s, row, n).len(),
    ensures
        k < tag_entries(s, row, m).len(),
        tag_entries(s, row, m)[k] == tag_entries(s, row, n)[k],
    decreases m,
{
    if n < m {
        lemma_entries_prefix(s, row, n, m - 1, k);
    }
}

/// The bytes of the entries.
pub open spec fn tag_parts(e: Seq<TagEntry>) -> Seq<Seq<u8>> {
    Seq::new(e.len(), |k: int| e[k].bytes)
}

/// Where the bytes of entry `k` start, from the start of the tagged section.
pub open spec fn tag_offset(e: Seq<TagEntry>, k: int) -> int {
    4 * (e.len() + 1) + total_len(tag_parts(e), k)
}

/// The offset word of entry `k`: the offset, with the flags bit.
pub open spec fn tag_word_of(e: Seq<TagEntry>, k: int) -> int {
    tag_offset(e, k) + if 0 <= k < e.len() && e[k].flagged {
        0x4000int
    } else {
        0
    }
}

/// The identifier of entry `k`; zero for the end marker.
pub open spec fn tag_id_of(e: Seq<TagEntry>, k: int) -> int {
    if 0 <= k < e.len() {
        e[k].id
    } else {
        0
    }
}

/// The tagged table: the entries and the end marker.
pub open spec fn enc_tag_table(e: Seq<TagEntry>) -> Seq<u8> {
    Seq::new(
        (4 * (e.len() + 1)) as nat,
        |p: int|
            if p % 4 < 2 {
                u16_bytes(tag_id_of(e, p / 4))[p % 4]
            } else {
                u16_bytes(tag_word_of(e, p / 4))[p % 4 - 2]
            },
    )
}

/// The entries of the row.
pub open spec fn row_entries(s: SchemaView, row: Row) -> Seq<TagEntry> {
    tag_entries(s, row, s.tagged.len() as int)
}

/// The tagged section: nothing for a row without tagged values, else the
/// table and the values.
pub open spec fn enc_tagged(s: SchemaView, row: Row) -> Seq<u8> {
    let e = row_entries(s, row);
    if e.len() == 0 {
        Seq::empty()
    } else {
        enc_tag_table(e) + flatten(tag_parts(e), e.len() as int)
    }
}

/// The bytes of a row under a schema.
pub open spec fn encode_row(s: SchemaView, row: Row) -> Seq<u8> {
    enc_front(s, row) + enc_tagged(s, row)
}

/// Whether a row can be stored under a schema: the schema is valid, the row
/// has a cell for every column, every value is one that its column holds, a
/// fixed value fills its slot, and the sections keep within the range of
/// their offsets.
pub open spec fn row_fits(s: SchemaView, row: Row) -> bool {
    &&& front_fits(s, row)
    &&& row.tagged.len() == s.tagged.len()
    &&& forall|i: int|
        0 <= i < s.tagged.len() ==> (#[trigger] row.tagged[i] matches Some(v) ==> tagged_fits(
            s.tagged[i].column_type,
            s.tagged[i].code_page,
            v,
        ))
    &&& enc_tagged(s, row).len() < 0x4000
}

/// Where the tagged section of an encoded row starts.
pub open spec fn enc_tagged_base(s: SchemaView, row: Row) -> int {
    enc_variable_offset(s, row) + 2 * variable_slots(s, row) + enc_variable_data(s, row).len()
}

/// Entry `k` of a tagged table, the end marker included, holds the
/// identifier and the offset word of the entry.
pub proof fn lemma_table_entry(e: Seq<TagEntry>, k: int)
    requires
        0 <= k <= e.len(),
        0 <= tag_id_of(e, k) < 0x1_0000,
        0 <= tag_word_of(e, k) < 0x1_0000,
    ensures
        enc_tag_table(e).len() == 4 * (e.len() + 1),
        le_u16(enc_tag_table(e), 4 * k) == tag_id_of(e, k),
        le_u16(enc_tag_table(e), 4 * k + 2) == tag_word_of(e, k),
{
    let table = enc_tag_table(e);
    let id = tag_id_of(e, k);
    let word = tag_word_of(e, k);
    lemma_u16_round_trip(id);
    lemma_u16_round_trip(word);
    assert((4 * k) / 4 == k && (4 * k) % 4 == 0);
    assert((4 * k + 1) / 4 == k && (4 * k + 1) % 4 == 1);
    assert((4 * k + 2) / 4 == k && (4 * k + 2) % 4 == 2);
    assert((4 * k + 3) / 4 == k && (4 * k + 3) % 4 == 3);
    assert(table[4 * k] == u16_bytes(id)[0]);
    assert(table[4 * k + 1] == u16_bytes(id)[1]);
    assert(table[4 * k + 2] == u16_bytes(word)[0]);
    assert(table[4 * k + 3] == u16_bytes(word)[1]);
}

/// Reading entry `k` of the table at `t` of a buffer is reading it in the
/// table, where the buffer holds the table at `t`.
pub proof fn lemma_table_in_buffer(b: Seq<u8>, t: int, table: Seq<u8>, k: int)
    requires
        0 <= t,
        0 <= k,
        4 * k + 4 <= table.len(),
        t + table.len() <= b.len(),
        b.subrange(t, t + table.len()) == table,
    ensures
        tag_id(b, t, k) == le_u16(table, 4 * k),
        tag_word(b, t, k) == le_u16(table, 4 * k + 2),
{
    lemma_le_u16_in_part(b, t, t + table.len(), t + 4 * k);
    lemma_le_u16_in_part(b, t, t + table.len(), t + 4 * k + 2);
}

/// Where the tagged section of an encoded row lies.
pub proof fn lemma_tagged_position(s: SchemaView, row: Row)
    requires
        row_fits(s, row),
    ensures
        ({
            let b = encode_row(s, row);
            let t = enc_tagged_base(s, row);
            let e = row_entries(s, row);
            &&& 0 <= t
            &&& tagged_base(b) == t
            &&& b.len() == t + enc_tagged(s, row).len()
            &&& b.subrange(t, b.len() as int) == enc_tagged(s, row)
            &&& e.len() > 0 ==> enc_tagged(s, row).len() == 4 * (e.len() + 1) + total_len(
                tag_parts(e),
                e.len() as int,
            ) && b.subrange(t, t + 4 * (e.len() + 1)) == enc_tag_table(e) && b.subrange(
                t + 4 * (e.len() + 1),
                b.len() as int,
            ) == flatten(tag_parts(e), e.len() as int)
        }),
{
    let b = encode_row(s, row);
    let t = enc_tagged_base(s, row);
    let e = row_entries(s, row);
    let tail = enc_tagged(s, row);
    lemma_front_layout(s, row, tail);
    lemma_variable_table(s, row, tail);
    if e.len() > 0 {
        lemma_flatten_len(tag_parts(e), e.len() as int);
        assert(b.subrange(t, t + 4 * (e.len() + 1)) =~= enc_tag_table(e));
        assert(b.subrange(t + 4 * (e.len() + 1), b.len() as int) =~= flatten(
            tag_parts(e),
            e.len() as int,
        ));
    }
}

/// The identifiers of the entries are those of tagged columns.
pub proof fn lemma_entry_id(s: SchemaView, row: Row, k: int)
    requires
        row_fits(s, row),
        0 <= k < row_entries(s, row).len(),
    ensures
        256 <= tag_id_of(row_entries(s, row), k) <= 0xffff,
        0 <= row_entries(s, row)[k].column < s.tagged.len(),
        row.tagged[row_entries(s, row)[k].column].is_some(),
        tag_id_of(row_entries(s, row), k) == s.tagged[row_entries(s, row)[k].column].id,
        tag_entries(s, row, row_entries(s, row)[k].column).len() == k,
{
    let e = row_entries(s, row);
    lemma_entries_columns(s, row, s.tagged.len() as int, k);
    assert(id_fits(s.tagged, e[k].column, 256, 0xffff));
}

/// An offset word gives back its offset and its flags bit.
pub proof fn lemma_offset_word(offset: int, flagged: bool)
    requires
        0 <= offset < 0x4000,
    ensures
        (offset + if flagged { 0x4000int } else { 0 }) % 0x4000 == offset,
        flag_set(offset + if flagged { 0x4000int } else { 0 }, 0x4000) == flagged,
{
}

/// Entry `k` of the tagged table of an encoded row, the end marker included,
/// holds the identifier, the offset and the flags bit of the entry.
pub proof fn lemma_tag_entry_read(s: SchemaView, row: Row, k: int)
    requires
        row_fits(s, row),
        0 <= k <= row_entries(s, row).len(),
        row_entries(s, row).len() > 0,
    ensures
        ({
            let b = encode_row(s, row);
            let t = enc_tagged_base(s, row);
            let e = row_entries(s, row);
            &&& tagged_base(b) == t
            &&& b.len() == t + enc_tagged(s, row).len()
            &&& t + 4 * (e.len() + 1) <= b.len()
            &&& tag_id(b, t, k) == tag_id_of(e, k)
            &&& tag_off(b, t, k) == tag_offset(e, k)
            &&& tag_has_flags(b, t, k) == (k < e.len() && e[k].flagged)
            &&& 4 * (e.len() + 1) <= tag_offset(e, k)
            &&& t + tag_offset(e, k) <= b.len()
        }),
{
    let b = encode_row(s, row);
    let t = enc_tagged_base(s, row);
    let e = row_entries(s, row);
    let n = e.len() as int;
    lemma_tagged_position(s, row);
    lemma_total_monotone(tag_parts(e), k, n);
    if k < n {
        lemma_entry_id(s, row, k);
    }
    lemma_table_entry(e, k);
    lemma_table_in_buffer(b, t, enc_tag_table(e), k);
    lemma_offset_word(tag_offset(e, k), k < n && e[k].flagged);
    assert(tag_word(b, t, k) == tag_word_of(e, k));
}

/// The tagged section of an encoded row is sound and has one entry for each
/// tagged column that the row holds.
pub proof fn lemma_tagged_layout(s: SchemaView, row: Row)
    requires
        row_fits(s, row),
    ensures
        tagged_base(encode_row(s, row)) == enc_tagged_base(s, row),
        tagged_ok(encode_row(s, row)),
        tagged_count(encode_row(s, row)) == row_entries(s, row).len(),
{
    let b = encode_row(s, row);
    let t = enc_tagged_base(s, row);
    let e = row_entries(s, row);
    let n = e.len();
    let tail = enc_tagged(s, row);
    lemma_front_layout(s, row, tail);
    lemma_variable_table(s, row, tail);
    if n > 0 {
        assert forall|k: int| 0 <= k < n implies #[trigger] tag_id(b, t, k) != 0 by {
            lemma_tag_entry_read(s, row, k);
            lemma_entries_columns(s, row, s.tagged.len() as int, k);
            assert(id_fits(s.tagged, e[k].column, 256, 0xffff));
        }
        lemma_tag_entry_read(s, row, n as int);
        assert(tagged_table(b, t, n));
        lemma_tagged_count_unique(b, t, n, tagged_count(b));
        let parts = tag_parts(e);
        assert forall|k: int| 0 <= k <= n implies 4 * (n + 1) <= #[trigger] tag_off(b, t, k) && t
            + tag_off(b, t, k) <= b.len() by {
            lemma_tag_entry_read(s, row, k);
        }
        assert forall|k: int| 0 <= k < n implies #[trigger] tag_off(b, t, k) <= tag_off(
            b,
            t,
            k + 1,
        ) by {
            lemma_tag_entry_read(s, row, k);
            lemma_tag_entry_read(s, row, k + 1);
            lemma_total_monotone(parts, k, k + 1);
        }
        assert(tagged_offsets_ok(b, t, n));
    }
}

/// A search that passes over entries of other columns goes on behind them.
pub proof fn lemma_find_tag_skips(b: Seq<u8>, t: int, n: int, id: int, from: int, upto: int)
    requires
        0 <= from <= upto <= n,
        forall|k: int| from <= k < upto ==> #[trigger] tag_id(b, t, k) != id,
    ensures
        find_tag(b, t, n, id, from) == find_tag(b, t, n, id, upto),
    decreases upto - from,
{
    if from < upto {
        lemma_find_tag_skips(b, t, n, id, from + 1, upto);
    }
}

/// The entry of a column has an identifier that no other column has.
pub proof fn lemma_other_entry_differs(s: SchemaView, row: Row, i: int, k: int)
    requires
        row_fits(s, row),
        0 <= i < s.tagged.len(),
        0 <= k < row_entries(s, row).len(),
        row_entries(s, row)[k].column != i,
    ensures
        tag_id(encode_row(s, row), enc_tagged_base(s, row), k) != s.tagged[i].id,
{
    let e = row_entries(s, row);
    lemma_tag_entry_read(s, row, k);
    lemma_entry_id(s, row, k);
    let m = e[k].column;
    if m < i {
        lemma_ids_order(s.tagged, 256, 0xffff, m, i);
    } else {
        lemma_ids_order(s.tagged, 256, 0xffff, i, m);
    }
}

/// The entry of a tagged column that the row holds stands where the entries
/// of the columns before it end.
pub proof fn lemma_own_entry(s: SchemaView, row: Row, i: int)
    requires
        row_fits(s, row),
        0 <= i < s.tagged.len(),
        row.tagged[i].is_some(),
    ensures
        tag_entries(s, row, i).len() < row_entries(s, row).len(),
        row_entries(s, row)[tag_entries(s, row, i).len() as int] == tag_entry(s, row, i),
{
    let r = tag_entries(s, row, i).len() as int;
    assert(tag_entries(s, row, i + 1) == tag_entries(s, row, i).push(tag_entry(s, row, i)));
    lemma_entries_prefix(s, row, i + 1, s.tagged.len() as int, r);
}

/// The stored bytes of entry `r` of an encoded row.
pub proof fn lemma_entry_bytes(s: SchemaView, row: Row, r: int)
    requires
        row_fits(s, row),
        0 <= r < row_entries(s, row).len(),
    ensures
        ({
            let b = encode_row(s, row);
            let t = enc_tagged_base(s, row);
            let e = row_entries(s, row);
            b.subrange(t + tag_offset(e, r), t + tag_offset(e, r + 1)) == e[r].bytes
        }),
{
    let b = encode_row(s, row);
    let t = enc_tagged_base(s, row);
    let e = row_entries(s, row);
    let n = e.len() as int;
    let parts = tag_parts(e);
    let data = flatten(parts, n);
    lemma_tagged_position(s, row);
    lemma_flatten_part(parts, n, r);
    lemma_flatten_len(parts, n);
    lemma_total_monotone(parts, r, r + 1);
    lemma_total_monotone(parts, r + 1, n);
    let start = t + 4 * (n + 1);
    assert(b.subrange(start, b.len() as int) == data);
    assert(b.subrange(start + total_len(parts, r), start + total_len(parts, r + 1))
        =~= data.subrange(total_len(parts, r), total_len(parts, r + 1)));
}

/// Decoding a tagged column that an encoded row does not hold gives nothing.
pub proof fn lemma_tagged_slot_absent(s: SchemaView, row: Row, i: int)
    requires
        row_fits(s, row),
        0 <= i < s.tagged.len(),
        row.tagged[i].is_none(),
    ensures
        slot(Section::Tagged, s.tagged[i], encode_row(s, row)) == Some(None::<ValueView>),
{
    let b = encode_row(s, row);
    let t = enc_tagged_base(s, row);
    let e = row_entries(s, row);
    let n = e.len() as int;
    let id = s.tagged[i].id as int;
    lemma_tagged_layout(s, row);
    assert forall|k: int| 0 <= k < n implies #[trigger] tag_id(b, t, k) != id by {
        lemma_entry_id(s, row, k);
        lemma_other_entry_differs(s, row, i, k);
    }
    lemma_find_tag_skips(b, t, n, id, 0, n);
}

/// Decoding a tagged column that an encoded row holds gives its value.
pub proof fn lemma_tagged_slot_present(s: SchemaView, row: Row, i: int)
    requires
        row_fits(s, row),
        0 <= i < s.tagged.len(),
        row.tagged[i].is_some(),
    ensures
        slot(Section::Tagged, s.tagged[i], encode_row(s, row)) == Some(Some(row.tagged[i].unwrap())),
{
    let b = encode_row(s, row);
    let t = enc_tagged_base(s, row);
    let e = row_entries(s, row);
    let n = e.len() as int;
    let c = s.tagged[i];
    let id = c.id as int;
    let v = row.tagged[i].unwrap();
    let r = tag_entries(s, row, i).len() as int;
    lemma_tagged_layout(s, row);
    lemma_own_entry(s, row, i);
    assert forall|k: int| 0 <= k < r implies #[trigger] tag_id(b, t, k) != id by {
        lemma_entry_id(s, row, k);
        lemma_other_entry_differs(s, row, i, k);
    }
    lemma_find_tag_skips(b, t, n, id, 0, r);
    lemma_tag_entry_read(s, row, r);
    lemma_tag_entry_read(s, row, r + 1);
    assert(find_tag(b, t, n, id, r) == r);
    lemma_entry_bytes(s, row, r);
    lemma_tagged_value_round_trip(c.column_type, c.code_page, v);
}

/// Decoding a tagged column of an encoded row gives the value of the row,
/// and nothing for a column that the row does not hold.
pub proof fn lemma_tagged_slot(s: SchemaView, row: Row, i: int)
    requires
        row_fits(s, row),
        0 <= i < s.tagged.len(),
    ensures
        slot(Section::Tagged, s.tagged[i], encode_row(s, row)) == match row.tagged[i] {
            Some(v) => Some(Some(v)),
            None => Some(None::<ValueView>),
        },
{
    if row.tagged[i].is_some() {
        lemma_tagged_slot_present(s, row, i);
    } else {
        lemma_tagged_slot_absent(s, row, i);
    }
}

/// The fields of the first `n` tagged columns: one for each column that the
/// row holds, in schema order.
pub open spec fn expected_tagged(s: SchemaView, row: Row, n: nat) -> Seq<FieldView>
    decreases n,
{
    if n == 0 {
        Seq::empty()
    } else {
        match row.tagged[n - 1] {
            Some(v) => expected_tagged(s, row, (n - 1) as nat).push(
                FieldView { column_id: s.tagged[n - 1].id, value: v },
            ),
            None => expected_tagged(s, row, (n - 1) as nat),
        }
    }
}

/// Decoding the tagged section of an encoded row gives the tagged values of
/// the row.
pub proof fn lemma_tagged_section(s: SchemaView, row: Row, n: nat)
    requires
        row_fits(s, row),
        n <= s.tagged.len(),
    ensures
        section_fields(Section::Tagged, s.tagged, encode_row(s, row), n) == Some(
            expected_tagged(s, row, n),
        ),
    decreases n,
{
    if n > 0 {
        lemma_tagged_section(s, row, (n - 1) as nat);
        lemma_tagged_slot(s, row, n - 1);
    }
}

/// The fields of a row: those of its fixed columns, then of the variable
/// columns it stores, then of the tagged columns it holds.
pub open spec fn row_fields(s: SchemaView, row: Row) -> Seq<FieldView> {
    expected_fixed(s, row, s.fixed.len()) + expected_variable(s, row, s.variable.len())
        + expected_tagged(s, row, s.tagged.len())
}

/// Round trip of a record: decoding the bytes of a row gives exactly the
/// values of the row. Every fixed column has its value, or null where the
/// row stores none; every variable column that the row stores has its value,
/// an empty value being a value and a stored null being null, and the
/// variable columns that the row does not store have no field; every tagged
/// column that the row holds has its value, a multi-value with its values in
/// order.
pub proof fn lemma_record_round_trip(s: SchemaView, row: Row)
    requires
        row_fits(s, row),
    ensures
        spec_decode_record(s, encode_row(s, row)) == Some(row_fields(s, row)),
{
    let tail = enc_tagged(s, row);
    lemma_front_layout(s, row, tail);
    lemma_variable_table(s, row, tail);
    lemma_tagged_layout(s, row);
    lemma_fixed_section(s, row, tail, s.fixed.len());
    lemma_variable_section(s, row, tail, s.variable.len());
    lemma_tagged_section(s, row, s.tagged.len());
}

/// The row that a cursor yields for a node whose data is the bytes of a row
/// is that row.
pub proof fn lemma_row_of_encoded(s: SchemaView, row: Row)
    requires
        row_fits(s, row),
    ensures
        row_of(s, encode_row(s, row)) == Ok::<Option<Seq<FieldView>>, EseError>(
            Some(row_fields(s, row)),
        ),
{
    lemma_record_round_trip(s, row);
}

} // verus!
