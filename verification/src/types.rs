//! Decoded values, records and the schema that a record is decoded against.
use crate::constants::{
    CodePage, ColumnType, LAST_FIXED_ID, LAST_TAGGED_ID, LAST_VARIABLE_ID,
};
use crate::error::EseError;
use crate::utils::{
    copy_range, le_u16, le_u32, le_u64, be_u64, read_u16_le, read_u32_le, read_u64_be,
    read_u64_le, signed16, signed32, signed64, to_i16, to_i32, to_i64,
};
use vstd::prelude::*;

verus! {

/// A 128-bit globally unique identifier in its four stored parts. The first
/// three are stored least significant byte first; the last eight bytes are
/// kept in stored order, the first of them most significant.
#[derive(Clone, Copy, Debug, PartialEq, Eq, Structural)]
pub struct Guid {
    pub data1: u32,
    pub data2: u16,
    pub data3: u16,
    pub data4: u64,
}

/// The value of one column of one row.
#[derive(Debug, PartialEq, Eq)]
pub enum ColumnValue {
    /// The column is present and holds no value.
    Null,
    Bool(bool),
    Int8(i8),
    UInt8(u8),
    Int16(i16),
    UInt16(u16),
    Int32(i32),
    UInt32(u32),
    Int64(i64),
    UInt64(u64),
    /// A single-precision number, as its IEEE 754 bit pattern.
    Float32(u32),
    /// A double-precision number, as its IEEE 754 bit pattern.
    Float64(u64),
    /// A point in time, as the stored 64-bit count.
    DateTime(u64),
    Guid(Guid),
    Binary(Vec<u8>),
    /// Text as the code units of its code page: one unit per byte for the
    /// single-byte code pages, one per byte pair for UTF-16.
    Text(CodePage, Vec<u16>),
    /// The values of a multi-valued column, in stored order.
    MultiValue(Vec<ColumnValue>),
    /// The key under which the value is kept in the table's long-value tree.
    LongValueRef(u32),
    /// The bytes of a long value, gathered from the long-value tree.
    LongValue(Vec<u8>),
}

/// The mathematical value of a [`ColumnValue`].
pub ghost enum ValueView {
    Null,
    Bool(bool),
    Int8(i8),
    UInt8(u8),
    Int16(i16),
    UInt16(u16),
    Int32(i32),
    UInt32(u32),
    Int64(i64),
    UInt64(u64),
    Float32(u32),
    Float64(u64),
    DateTime(u64),
    Guid(Guid),
    Binary(Seq<u8>),
    Text(CodePage, Seq<u16>),
    MultiValue(Seq<ValueView>),
    LongValueRef(u32),
    LongValue(Seq<u8>),
}

/// The mathematical value of a column value.
pub open spec fn value_view(v: ColumnValue) -> ValueView
    decreases v, 0nat,
{
    match v {
        ColumnValue::Null => ValueView::Null,
        ColumnValue::Bool(b) => ValueView::Bool(b),
        ColumnValue::Int8(x) => ValueView::Int8(x),
        ColumnValue::UInt8(x) => ValueView::UInt8(x),
        ColumnValue::Int16(x) => ValueView::Int16(x),
        ColumnValue::UInt16(x) => ValueView::UInt16(x),
        ColumnValue::Int32(x) => ValueView::Int32(x),
        ColumnValue::UInt32(x) => ValueView::UInt32(x),
        ColumnValue::Int64(x) => ValueView::Int64(x),
        ColumnValue::UInt64(x) => ValueView::UInt64(x),
        ColumnValue::Float32(x) => ValueView::Float32(x),
        ColumnValue::Float64(x) => ValueView::Float64(x),
        ColumnValue::DateTime(x) => ValueView::DateTime(x),
        ColumnValue::Guid(g) => ValueView::Guid(g),
        ColumnValue::Binary(x) => ValueView::Binary(x@),
        ColumnValue::Text(cp, x) => ValueView::Text(cp, x@),
        ColumnValue::MultiValue(items) => ValueView::MultiValue(
            values_prefix_view(items, items@.len()),
        ),
        ColumnValue::LongValueRef(k) => ValueView::LongValueRef(k),
        ColumnValue::LongValue(x) => ValueView::LongValue(x@),
    }
}

/// The views of the first `n` of `items`.
pub open spec fn values_prefix_view(items: Vec<ColumnValue>, n: nat) -> Seq<ValueView>
    decreases items, n,
{
    if n == 0 || n > items@.len() {
        Seq::empty()
    } else {
        values_prefix_view(items, (n - 1) as nat).push(value_view(items@[n - 1]))
    }
}

impl View for ColumnValue {
    type V = ValueView;

    open spec fn view(&self) -> ValueView {
        value_view(*self)
    }
}

/// Copies a byte vector.
pub fn copy_bytes(v: &Vec<u8>) -> (r: Vec<u8>)
    ensures
        r@ == v@,
{
    let out: Vec<u8> = copy_range(v.as_slice(), 0, v.len());
    assert(out@ =~= v@);
    out
}

/// Copies a vector of code units.
pub fn copy_units(v: &Vec<u16>) -> (r: Vec<u16>)
    ensures
        r@ == v@,
{
    let n: usize = v.len();
    let mut out: Vec<u16> = Vec::new();
    let mut i: usize = 0;
    while i < n
        invariant
            n == v@.len(),
            i <= n,
            out@ == v@.subrange(0, i as int),
        decreases n - i,
    {
        out.push(v[i]);
        i = i + 1;
        assert(out@ =~= v@.subrange(0, i as int));
    }
    assert(out@ =~= v@);
    out
}

impl Clone for ColumnValue {
    /// A copy of the value: it has the same view.
    fn clone(&self) -> (r: ColumnValue)
        ensures
            r@ == self@,
        decreases self,
    {
        match self {
            ColumnValue::Null => ColumnValue::Null,
            ColumnValue::Bool(b) => ColumnValue::Bool(*b),
            ColumnValue::Int8(x) => ColumnValue::Int8(*x),
            ColumnValue::UInt8(x) => ColumnValue::UInt8(*x),
            ColumnValue::Int16(x) => ColumnValue::Int16(*x),
            ColumnValue::UInt16(x) => ColumnValue::UInt16(*x),
            ColumnValue::Int32(x) => ColumnValue::Int32(*x),
            ColumnValue::UInt32(x) => ColumnValue::UInt32(*x),
            ColumnValue::Int64(x) => ColumnValue::Int64(*x),
            ColumnValue::UInt64(x) => ColumnValue::UInt64(*x),
            ColumnValue::Float32(x) => ColumnValue::Float32(*x),
            ColumnValue::Float64(x) => ColumnValue::Float64(*x),
            ColumnValue::DateTime(x) => ColumnValue::DateTime(*x),
            ColumnValue::Guid(g) => ColumnValue::Guid(*g),
            ColumnValue::Binary(b) => ColumnValue::Binary(copy_bytes(b)),
            ColumnValue::Text(cp, u) => ColumnValue::Text(*cp, copy_units(u)),
            ColumnValue::MultiValue(items) => {
                let n: usize = items.len();
                let mut out: Vec<ColumnValue> = Vec::new();
                let mut i: usize = 0;
                while i < n
                    invariant
                        n == items@.len(),
                        i <= n,
                        self == (ColumnValue::MultiValue(*items)),
                        out@.len() == i,
                        forall|k: int| 0 <= k < i ==> (#[trigger] out@[k])@ == items@[k]@,
                    decreases n - i,
                {
                    assert(decreases_to!(*items => items[i as int]));
                    assert(self is MultiValue && self->MultiValue_0 == *items);
                    assert(decreases_to!(*self => self->MultiValue_0));
                    let item: ColumnValue = items[i].clone();
                    out.push(item);
                    i = i + 1;
                }
                proof {
                    lemma_multi_value_view(*items);
                    lemma_multi_value_view(out);
                    assert(values_view(out@) =~= values_view(items@));
                }
                ColumnValue::MultiValue(out)
            },
            ColumnValue::LongValueRef(k) => ColumnValue::LongValueRef(*k),
            ColumnValue::LongValue(b) => ColumnValue::LongValue(copy_bytes(b)),
        }
    }
}

/// The views of a sequence of values, element by element.
pub open spec fn values_view(v: Seq<ColumnValue>) -> Seq<ValueView> {
    Seq::new(v.len(), |i: int| v[i]@)
}

/// The first `n` element views, by index.
pub proof fn lemma_values_prefix_view(items: Vec<ColumnValue>, n: nat)
    requires
        n <= items@.len(),
    ensures
        values_prefix_view(items, n) == values_view(items@.subrange(0, n as int)),
    decreases n,
{
    if n > 0 {
        lemma_values_prefix_view(items, (n - 1) as nat);
    }
    assert(values_prefix_view(items, n) =~= values_view(items@.subrange(0, n as int)));
}

/// The view of a multi-valued column value is the views of its elements.
pub proof fn lemma_multi_value_view(v: Vec<ColumnValue>)
    ensures
        ColumnValue::MultiValue(v)@ == ValueView::MultiValue(values_view(v@)),
{
    lemma_values_prefix_view(v, v@.len());
    assert(v@.subrange(0, v@.len() as int) =~= v@);
}

/// The code units of stored text: byte pairs for a wide code page (an odd
/// number of bytes is no text), single bytes otherwise.
pub open spec fn text_units(cp: CodePage, b: Seq<u8>) -> Option<Seq<u16>> {
    if cp.spec_is_wide() {
        if b.len() % 2 == 0 {
            Some(Seq::new(b.len() / 2, |i: int| le_u16(b, 2 * i) as u16))
        } else {
            None
        }
    } else {
        Some(Seq::new(b.len(), |i: int| b[i] as u16))
    }
}

/// The identifier stored in sixteen bytes.
pub open spec fn guid_at(b: Seq<u8>) -> Guid {
    Guid {
        data1: le_u32(b, 0) as u32,
        data2: le_u16(b, 4) as u16,
        data3: le_u16(b, 6) as u16,
        data4: be_u64(b, 8) as u64,
    }
}

/// The value that the bytes `b` hold for a column of type `ty`; `None` where
/// the number of bytes does not fit the type.
pub open spec fn spec_decode_value(ty: ColumnType, cp: CodePage, b: Seq<u8>) -> Option<
    ValueView,
> {
    match ty {
        ColumnType::Nil | ColumnType::Binary | ColumnType::LongBinary | ColumnType::Slv => Some(
            ValueView::Binary(b),
        ),
        ColumnType::Text | ColumnType::LongText => match text_units(cp, b) {
            Some(u) => Some(ValueView::Text(cp, u)),
            None => None,
        },
        _ => if ty.spec_width() != Some(b.len() as usize) {
            None
        } else {
            Some(
                match ty {
                    ColumnType::Bit => ValueView::Bool(b[0] != 0),
                    ColumnType::UnsignedByte => ValueView::UInt8(b[0]),
                    ColumnType::Short => ValueView::Int16(signed16(le_u16(b, 0)) as i16),
                    ColumnType::UnsignedShort => ValueView::UInt16(le_u16(b, 0) as u16),
                    ColumnType::Long => ValueView::Int32(signed32(le_u32(b, 0)) as i32),
                    ColumnType::UnsignedLong => ValueView::UInt32(le_u32(b, 0) as u32),
                    ColumnType::IeeeSingle => ValueView::Float32(le_u32(b, 0) as u32),
                    ColumnType::IeeeDouble => ValueView::Float64(le_u64(b, 0) as u64),
                    ColumnType::DateTime => ValueView::DateTime(le_u64(b, 0) as u64),
                    ColumnType::Guid => ValueView::Guid(guid_at(b)),
                    _ => ValueView::Int64(signed64(le_u64(b, 0)) as i64),
                },
            )
        },
    }
}

/// Decodes stored text into its code units.
pub fn decode_text(cp: CodePage, bytes: &[u8]) -> (r: Option<Vec<u16>>)
    ensures
        match r {
            Some(u) => text_units(cp, bytes@) == Some(u@),
            None => text_units(cp, bytes@).is_none(),
        },
{
    let n: usize = bytes.len();
    let mut out: Vec<u16> = Vec::new();
    if cp.is_wide() {
        if n % 2 != 0 {
            return None;
        }
        let mut i: usize = 0;
        while i < n / 2
            invariant
                n == bytes@.len(),
                n % 2 == 0,
                i <= n / 2,
                out@.len() == i,
                forall|k: int| 0 <= k < i ==> out@[k] == le_u16(bytes@, 2 * k) as u16,
            decreases n / 2 - i,
        {
            let u: u16 = read_u16_le(bytes, 2 * i).unwrap();
            out.push(u);
            i = i + 1;
        }
        assert(out@ =~= text_units(cp, bytes@).unwrap());
        Some(out)
    } else {
        let mut i: usize = 0;
        while i < n
            invariant
                n == bytes@.len(),
                i <= n,
                out@.len() == i,
                forall|k: int| 0 <= k < i ==> out@[k] == bytes@[k] as u16,
            decreases n - i,
        {
            out.push(bytes[i] as u16);
            i = i + 1;
        }
        assert(out@ =~= text_units(cp, bytes@).unwrap());
        Some(out)
    }
}

/// Decodes the stored bytes of one value of a column of type `ty`.
///
/// Numeric types are read least significant byte first and need exactly the
/// width of the type; text is read through the code page; binary types keep
/// the bytes as they are.
pub fn decode_value(ty: ColumnType, cp: CodePage, bytes: &[u8]) -> (r: Result<
    ColumnValue,
    EseError,
>)
    ensures
        match r {
            Ok(v) => spec_decode_value(ty, cp, bytes@) == Some(v@),
            Err(e) => e == EseError::RecordDecode && spec_decode_value(ty, cp, bytes@).is_none(),
        },
{
    let n: usize = bytes.len();
    match ty {
        ColumnType::Nil | ColumnType::Binary | ColumnType::LongBinary | ColumnType::Slv => {
            let v: Vec<u8> = copy_range(bytes, 0, n);
            assert(v@ =~= bytes@);
            Ok(ColumnValue::Binary(v))
        },
        ColumnType::Text | ColumnType::LongText => {
            match decode_text(cp, bytes) {
                Some(u) => Ok(ColumnValue::Text(cp, u)),
                None => Err(EseError::RecordDecode),
            }
        },
        _ => {
            if ty.width() != Some(n) {
                return Err(EseError::RecordDecode);
            }
            Ok(
                match ty {
                    ColumnType::Bit => ColumnValue::Bool(bytes[0] != 0),
                    ColumnType::UnsignedByte => ColumnValue::UInt8(bytes[0]),
                    ColumnType::Short => ColumnValue::Int16(
                        to_i16(read_u16_le(bytes, 0).unwrap()),
                    ),
                    ColumnType::UnsignedShort => ColumnValue::UInt16(
                        read_u16_le(bytes, 0).unwrap(),
                    ),
                    ColumnType::Long => ColumnValue::Int32(to_i32(read_u32_le(bytes, 0).unwrap())),
                    ColumnType::UnsignedLong => ColumnValue::UInt32(
                        read_u32_le(bytes, 0).unwrap(),
                    ),
                    ColumnType::IeeeSingle => ColumnValue::Float32(read_u32_le(bytes, 0).unwrap()),
                    ColumnType::IeeeDouble => ColumnValue::Float64(read_u64_le(bytes, 0).unwrap()),
                    ColumnType::DateTime => ColumnValue::DateTime(read_u64_le(bytes, 0).unwrap()),
                    ColumnType::Guid => ColumnValue::Guid(
                        Guid {
                            data1: read_u32_le(bytes, 0).unwrap(),
                            data2: read_u16_le(bytes, 4).unwrap(),
                            data3: read_u16_le(bytes, 6).unwrap(),
                            data4: read_u64_be(bytes, 8).unwrap(),
                        },
                    ),
                    _ => ColumnValue::Int64(to_i64(read_u64_le(bytes, 0).unwrap())),
                },
            )
        },
    }
}

/// One decoded column of a row.
#[derive(Debug, PartialEq, Eq)]
pub struct Field {
    pub column_id: u32,
    pub value: ColumnValue,
}

/// The mathematical value of a [`Field`].
pub ghost struct FieldView {
    pub column_id: u32,
    pub value: ValueView,
}

impl View for Field {
    type V = FieldView;

    open spec fn view(&self) -> FieldView {
        FieldView { column_id: self.column_id, value: self.value@ }
    }
}

/// The views of a sequence of fields, element by element.
pub open spec fn fields_view(v: Seq<Field>) -> Seq<FieldView> {
    Seq::new(v.len(), |i: int| v[i]@)
}

impl Clone for Field {
    /// A copy of the field: it has the same view.
    fn clone(&self) -> (r: Field)
        ensures
            r@ == self@,
    {
        Field { column_id: self.column_id, value: self.value.clone() }
    }
}

/// The position of the first field of column `id` among `fields`, or the
/// number of fields where the column does not occur.
pub open spec fn field_position(fields: Seq<FieldView>, id: u32, from: int) -> int
    decreases fields.len() - from,
{
    if from < 0 || from >= fields.len() {
        fields.len() as int
    } else if fields[from].column_id == id {
        from
    } else {
        field_position(fields, id, from + 1)
    }
}

/// One decoded row: the columns that the row holds, fixed columns first, then
/// variable columns, then tagged columns, each group in schema order.
///
/// Every fixed column of the schema has a field (`Null` where the row stores
/// no value for it). A variable or tagged column that the row does not store
/// has no field at all.
#[derive(Debug, PartialEq, Eq)]
pub struct Record {
    pub fields: Vec<Field>,
}

impl View for Record {
    type V = Seq<FieldView>;

    open spec fn view(&self) -> Seq<FieldView> {
        fields_view(self.fields@)
    }
}

impl Clone for Record {
    /// A copy of the row: it has the same view.
    fn clone(&self) -> (r: Record)
        ensures
            r@ == self@,
    {
        let n: usize = self.fields.len();
        let mut out: Vec<Field> = Vec::new();
        let mut i: usize = 0;
        while i < n
            invariant
                n == self.fields@.len(),
                i <= n,
                out@.len() == i,
                forall|k: int| 0 <= k < i ==> (#[trigger] out@[k])@ == self.fields@[k]@,
            decreases n - i,
        {
            out.push(self.fields[i].clone());
            i = i + 1;
        }
        assert(fields_view(out@) =~= fields_view(self.fields@));
        Record { fields: out }
    }
}

impl Record {
    /// The number of columns that the row holds.
    pub fn len(&self) -> (r: usize)
        ensures
            r == self@.len(),
    {
        self.fields.len()
    }

    /// The key of the long value that field `i` refers to; `None` where the
    /// field holds anything but a long-value reference.
    pub fn long_value_key(&self, i: usize) -> (r: Option<u32>)
        requires
            i < self@.len(),
        ensures
            r == match self@[i as int].value {
                ValueView::LongValueRef(key) => Some(key),
                _ => None,
            },
    {
        assert(self@[i as int] == self.fields@[i as int]@);
        match &self.fields[i].value {
            ColumnValue::LongValueRef(key) => Some(*key),
            _ => None,
        }
    }

    /// Gives field `i` the value `value`.
    pub fn set_value(&mut self, i: usize, value: ColumnValue)
        requires
            i < old(self)@.len(),
        ensures
            final(self)@ == old(self)@.update(
                i as int,
                FieldView { column_id: old(self)@[i as int].column_id, value: value@ },
            ),
    {
        let ghost before = self.fields@;
        let id: u32 = self.fields[i].column_id;
        self.fields[i] = Field { column_id: id, value: value };
        assert(self.fields@ == before.update(i as int, self.fields@[i as int]));
        assert(fields_view(self.fields@) =~= fields_view(before).update(
            i as int,
            FieldView { column_id: before[i as int].column_id, value: value@ },
        ));
    }

    /// The value of column `id`; `None` where the row does not hold the column.
    pub fn get(&self, id: u32) -> (r: Option<&ColumnValue>)
        ensures
            match r {
                Some(v) => {
                    let k = field_position(self@, id, 0);
                    0 <= k < self@.len() && self@[k].value == v@ && *v == self.fields@[k].value
                },
                None => field_position(self@, id, 0) == self@.len(),
            },
    {
        let n: usize = self.fields.len();
        let mut i: usize = 0;
        while i < n
            invariant
                i <= n,
                n == self.fields@.len(),
                field_position(self@, id, 0) == field_position(self@, id, i as int),
            decreases n - i,
        {
            if self.fields[i].column_id == id {
                return Some(&self.fields[i].value);
            }
            i = i + 1;
        }
        None
    }
}

/// The definition of one column, as the catalog records it.
#[derive(Debug, PartialEq, Eq)]
pub struct ColumnDef {
    /// The column identifier: 1 to 127 for fixed columns, 128 to 255 for
    /// variable columns, 256 and above for tagged columns.
    pub id: u32,
    pub name: Vec<u8>,
    pub column_type: ColumnType,
    /// The number of bytes declared for the column.
    pub size: u32,
    /// For a fixed column, where its bytes start within the fixed section.
    pub offset: u32,
    pub code_page: CodePage,
    pub flags: u32,
    pub default_value: Vec<u8>,
}

/// The mathematical value of a [`ColumnDef`].
pub ghost struct ColumnView {
    pub id: u32,
    pub name: Seq<u8>,
    pub column_type: ColumnType,
    pub size: u32,
    pub offset: u32,
    pub code_page: CodePage,
    pub flags: u32,
    pub default_value: Seq<u8>,
}

impl View for ColumnDef {
    type V = ColumnView;

    open spec fn view(&self) -> ColumnView {
        ColumnView {
            id: self.id,
            name: self.name@,
            column_type: self.column_type,
            size: self.size,
            offset: self.offset,
            code_page: self.code_page,
            flags: self.flags,
            default_value: self.default_value@,
        }
    }
}

/// The views of a sequence of column definitions, element by element.
pub open spec fn columns_view(v: Seq<ColumnDef>) -> Seq<ColumnView> {
    Seq::new(v.len(), |i: int| v[i]@)
}

impl Clone for ColumnDef {
    /// A copy of the definition: it has the same view.
    fn clone(&self) -> (r: ColumnDef)
        ensures
            r@ == self@,
    {
        ColumnDef {
            id: self.id,
            name: copy_bytes(&self.name),
            column_type: self.column_type,
            size: self.size,
            offset: self.offset,
            code_page: self.code_page,
            flags: self.flags,
            default_value: copy_bytes(&self.default_value),
        }
    }
}

/// Copies a list of column definitions.
pub fn copy_columns(cols: &Vec<ColumnDef>) -> (r: Vec<ColumnDef>)
    ensures
        columns_view(r@) == columns_view(cols@),
{
    let n: usize = cols.len();
    let mut out: Vec<ColumnDef> = Vec::new();
    let mut i: usize = 0;
    while i < n
        invariant
            n == cols@.len(),
            i <= n,
            out@.len() == i,
            forall|k: int| 0 <= k < i ==> (#[trigger] out@[k])@ == cols@[k]@,
        decreases n - i,
    {
        out.push(cols[i].clone());
        i = i + 1;
    }
    assert(columns_view(out@) =~= columns_view(cols@));
    out
}

/// The layout of the rows of one table.
#[derive(Debug, PartialEq, Eq)]
pub struct TableSchema {
    /// The object identifier of the table.
    pub table_id: u32,
    pub name: Vec<u8>,
    /// The page number of the root of the table's tree.
    pub root_page: u32,
    /// The page number of the root of the table's long-value tree, if it has one.
    pub long_value_root: Option<u32>,
    /// The fixed columns by ascending identifier, each with its offset.
    pub fixed: Vec<ColumnDef>,
    /// The variable columns by ascending identifier.
    pub variable: Vec<ColumnDef>,
    /// The tagged columns by ascending identifier.
    pub tagged: Vec<ColumnDef>,
}

/// The mathematical value of a [`TableSchema`].
pub ghost struct SchemaView {
    pub table_id: u32,
    pub name: Seq<u8>,
    pub root_page: u32,
    pub long_value_root: Option<u32>,
    pub fixed: Seq<ColumnView>,
    pub variable: Seq<ColumnView>,
    pub tagged: Seq<ColumnView>,
}

/// Whether the identifier of column `i` lies in `lo..=hi` and above the
/// identifier of the column before it.
pub open spec fn id_fits(cols: Seq<ColumnView>, i: int, lo: int, hi: int) -> bool {
    &&& lo <= cols[i].id <= hi
    &&& i > 0 ==> cols[i - 1].id < cols[i].id
}

/// Whether the identifiers of `cols` lie in `lo..=hi` and ascend strictly.
pub open spec fn ids_ascend(cols: Seq<ColumnView>, lo: int, hi: int) -> bool {
    forall|i: int| 0 <= i < cols.len() ==> #[trigger] id_fits(cols, i, lo, hi)
}

/// Whether column `i` starts where the column before it ends.
pub open spec fn follows(cols: Seq<ColumnView>, i: int) -> bool {
    cols[i].offset == if i > 0 {
        cols[i - 1].offset + cols[i - 1].size
    } else {
        0
    }
}

/// Whether each fixed column starts where the one before it ends.
pub open spec fn offsets_packed(cols: Seq<ColumnView>) -> bool {
    forall|i: int| 0 <= i < cols.len() ==> #[trigger] follows(cols, i)
}

impl SchemaView {
    /// The validity of a schema: identifiers in the range of their group and
    /// ascending, fixed columns packed one after the other.
    pub open spec fn wf(self) -> bool {
        &&& ids_ascend(self.fixed, 1, LAST_FIXED_ID as int)
        &&& ids_ascend(self.variable, LAST_FIXED_ID + 1, LAST_VARIABLE_ID as int)
        &&& ids_ascend(self.tagged, LAST_VARIABLE_ID + 1, LAST_TAGGED_ID as int)
        &&& offsets_packed(self.fixed)
    }
}

impl Clone for TableSchema {
    /// A copy of the schema: it has the same view.
    fn clone(&self) -> (r: TableSchema)
        ensures
            r@ == self@,
    {
        TableSchema {
            table_id: self.table_id,
            name: copy_bytes(&self.name),
            root_page: self.root_page,
            long_value_root: self.long_value_root,
            fixed: copy_columns(&self.fixed),
            variable: copy_columns(&self.variable),
            tagged: copy_columns(&self.tagged),
        }
    }
}

impl View for TableSchema {
    type V = SchemaView;

    open spec fn view(&self) -> SchemaView {
        SchemaView {
            table_id: self.table_id,
            name: self.name@,
            root_page: self.root_page,
            long_value_root: self.long_value_root,
            fixed: columns_view(self.fixed@),
            variable: columns_view(self.variable@),
            tagged: columns_view(self.tagged@),
        }
    }
}

/// The position of the first of `cols` named `name` at or after `from`, or
/// the number of columns where there is none.
pub open spec fn column_position(cols: Seq<ColumnView>, name: Seq<u8>, from: int) -> int
    decreases cols.len() - from,
{
    if from < 0 || from >= cols.len() {
        cols.len() as int
    } else if cols[from].name == name {
        from
    } else {
        column_position(cols, name, from + 1)
    }
}

/// The first of `cols` named `name`.
pub open spec fn named_column(cols: Seq<ColumnView>, name: Seq<u8>) -> Option<ColumnView> {
    let k = column_position(cols, name, 0);
    if 0 <= k < cols.len() {
        Some(cols[k])
    } else {
        None
    }
}

/// The column of the schema named `name`: the first of that name among the
/// fixed columns, else among the variable columns, else among the tagged ones.
pub open spec fn spec_find_column(s: SchemaView, name: Seq<u8>) -> Option<ColumnView> {
    match named_column(s.fixed, name) {
        Some(c) => Some(c),
        None => match named_column(s.variable, name) {
            Some(c) => Some(c),
            None => named_column(s.tagged, name),
        },
    }
}

/// Finds the first of `cols` named `name`.
fn find_named_column<'a>(cols: &'a Vec<ColumnDef>, name: &[u8]) -> (r: Option<&'a ColumnDef>)
    ensures
        match r {
            Some(c) => named_column(columns_view(cols@), name@) == Some(c@),
            None => named_column(columns_view(cols@), name@).is_none(),
        },
{
    let n: usize = cols.len();
    let ghost cv = columns_view(cols@);
    let mut i: usize = 0;
    while i < n
        invariant
            n == cols@.len(),
            i <= n,
            cv == columns_view(cols@),
            column_position(cv, name@, 0) == column_position(cv, name@, i as int),
        decreases n - i,
    {
        assert(cv[i as int] == cols@[i as int]@);
        let c: &ColumnDef = &cols[i];
        let m: usize = c.name.len();
        let mut same: bool = m == name.len();
        let mut k: usize = 0;
        while same && k < m
            invariant
                m == c.name@.len(),
                same ==> m == name@.len(),
                k <= m,
                same ==> forall|j: int| 0 <= j < k ==> c.name@[j] == name@[j],
                !same ==> c.name@ != name@,
            decreases m - k,
        {
            if c.name[k] != name[k] {
                same = false;
            }
            k = k + 1;
        }
        if same {
            assert(c.name@ =~= name@);
            return Some(c);
        }
        i = i + 1;
    }
    None
}

impl TableSchema {
    /// The definition of the column named `name`; `ColumnNotFound` where the
    /// table has no column of the name. Names are compared byte by byte.
    pub fn find_column(&self, name: &[u8]) -> (r: Result<&ColumnDef, EseError>)
        ensures
            match spec_find_column(self@, name@) {
                Some(c) => r.is_ok() && r.unwrap()@ == c,
                None => r.is_err() && r.unwrap_err() == EseError::ColumnNotFound,
            },
    {
        match find_named_column(&self.fixed, name) {
            Some(c) => Ok(c),
            None => match find_named_column(&self.variable, name) {
                Some(c) => Ok(c),
                None => match find_named_column(&self.tagged, name) {
                    Some(c) => Ok(c),
                    None => Err(EseError::ColumnNotFound),
                },
            },
        }
    }

    /// The value that `row` holds for the column named `name`: `Ok(None)`
    /// where the row does not hold the column, `ColumnNotFound` where the
    /// table has no column of the name.
    pub fn value_of<'a>(&self, row: &'a Record, name: &[u8]) -> (r: Result<
        Option<&'a ColumnValue>,
        EseError,
    >)
        ensures
            match spec_find_column(self@, name@) {
                None => r.is_err() && r.unwrap_err() == EseError::ColumnNotFound,
                Some(c) => {
                    let k = field_position(row@, c.id, 0);
                    r.is_ok() && match r.unwrap() {
                        Some(v) => 0 <= k < row@.len() && row@[k].value == v@,
                        None => k == row@.len(),
                    }
                },
            },
    {
        match self.find_column(name) {
            Ok(c) => Ok(row.get(c.id)),
            Err(e) => Err(EseError::ColumnNotFound),
        }
    }
}

} // verus!
