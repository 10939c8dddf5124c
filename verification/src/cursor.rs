//! Traversal of a table's tree: the pages of a file, the descent to a leaf,
//! the cursor that yields one decoded row per call in either direction, the
//! search for a key, and the gathering of long values.
use crate::constants::{flag_set, PAGE_FLAG_LEAF};
use crate::error::EseError;
use crate::page::{
    child_of, decode_page, next_page, node_count, page_flags, page_report, page_valid,
    read_sibling, sibling_of, spec_node, Node, NodeView, Page, PageFormat,
};
use crate::record::{decode_record, spec_decode_record};
use crate::types::{
    lemma_multi_value_view, values_view, ColumnValue, FieldView, Record, SchemaView,
    TableSchema, ValueView,
};
use crate::utils::{append_range, be_u32, read_u32_be};
use vstd::prelude::*;
use vstd::slice::slice_subrange;

verus! {

/// Where page `n` starts in the file: the file header and its copy take the
/// place of the first two pages.
pub open spec fn page_offset(fmt: PageFormat, n: u32) -> int {
    (n + 1) * fmt.page_size
}

/// The bytes of page `n`.
pub open spec fn page_bytes(file: Seq<u8>, fmt: PageFormat, n: u32) -> Seq<u8> {
    file.subrange(page_offset(fmt, n), page_offset(fmt, n) + fmt.page_size)
}

/// Whether the file holds page `n`.
pub open spec fn page_in_file(file: Seq<u8>, fmt: PageFormat, n: u32) -> bool {
    page_offset(fmt, n) + fmt.page_size <= file.len()
}

/// Whether the file holds page `n` and the page is valid.
pub open spec fn page_ok(file: Seq<u8>, fmt: PageFormat, n: u32) -> bool {
    &&& page_in_file(file, fmt, n)
    &&& page_valid(page_bytes(file, fmt, n), fmt)
}

/// The pages of a database file.
#[derive(Clone, Copy, Debug)]
pub struct PageSource<'a> {
    pub data: &'a [u8],
    pub format: PageFormat,
}

impl<'a> PageSource<'a> {
    /// The bytes of page `n`; `None` where the file does not hold the page.
    pub fn page_raw(&self, n: u32) -> (r: Option<&'a [u8]>)
        ensures
            match r {
                Some(raw) => page_in_file(self.data@, self.format, n) && raw@ == page_bytes(
                    self.data@,
                    self.format,
                    n,
                ),
                None => !page_in_file(self.data@, self.format, n),
            },
    {
        let size: u64 = self.format.page_size as u64;
        let index: u64 = n as u64 + 1;
        assert(index * size <= 0x1_0000_0000 * 0xffff_ffff) by (nonlinear_arith)
            requires
                index <= 0x1_0000_0000,
                size <= 0xffff_ffff,
        ;
        let start: u64 = index * size;
        let total: usize = self.data.len();
        if start + size > total as u64 {
            return None;
        }
        Some(slice_subrange(self.data, start as usize, (start + size) as usize))
    }

    /// Decodes page `n` of the file.
    ///
    /// Fails with `Format`, and only then, where the file does not hold the
    /// page or the page is not valid.
    pub fn page(&self, n: u32) -> (r: Result<Page<'a>, EseError>)
        ensures
            match r {
                Ok(p) => {
                    &&& page_ok(self.data@, self.format, n)
                    &&& p.wf()
                    &&& p.raw@ == page_bytes(self.data@, self.format, n)
                    &&& p.number == n
                    &&& p.format == self.format
                },
                Err(e) => e == EseError::Format && !page_ok(self.data@, self.format, n),
            },
    {
        match self.page_raw(n) {
            Some(raw) => decode_page(n, raw, self.format.page_size, self.format.revision),
            None => Err(EseError::Format),
        }
    }
}

/// The way a cursor moves through the rows of a table.
#[derive(Clone, Copy, Debug, PartialEq, Eq, Structural)]
pub enum Direction {
    /// From the first row to the last, by ascending key.
    Forward,
    /// From the last row to the first, by descending key.
    Backward,
}

/// The leaf at the edge of the tree under `page`, found within `fuel`
/// levels: at each branch the child of the first node is followed, or, going
/// backward, of the last.
pub open spec fn edge_leaf(
    file: Seq<u8>,
    fmt: PageFormat,
    page: u32,
    direction: Direction,
    fuel: nat,
) -> Result<u32, EseError>
    decreases fuel,
{
    if fuel == 0 || !page_ok(file, fmt, page) {
        Err(EseError::Format)
    } else {
        let raw = page_bytes(file, fmt, page);
        if flag_set(page_flags(raw), PAGE_FLAG_LEAF as int) {
            Ok(page)
        } else {
            let pick = if direction is Forward {
                0
            } else {
                node_count(raw) - 1
            };
            match spec_node(raw, fmt, pick) {
                None => Err(EseError::Format),
                Some(n) => match child_of(n.data) {
                    None => Err(EseError::Format),
                    Some(c) => edge_leaf(file, fmt, c, direction, (fuel - 1) as nat),
                },
            }
        }
    }
}

/// The leftmost leaf under `page`.
pub open spec fn first_leaf(file: Seq<u8>, fmt: PageFormat, page: u32, fuel: nat) -> Result<
    u32,
    EseError,
> {
    edge_leaf(file, fmt, page, Direction::Forward, fuel)
}

/// Descends from `root` to the leaf at the edge of its tree: the leftmost
/// going forward, the rightmost going backward.
///
/// Fails with `Format` where a page on the way is missing or invalid, a
/// branch has no child to follow, or no leaf is reached within `fuel` levels.
pub fn find_edge_leaf(source: &PageSource, root: u32, direction: Direction, fuel: u64) -> (r:
    Result<u32, EseError>)
    ensures
        r == edge_leaf(source.data@, source.format, root, direction, fuel as nat),
{
    let mut page: u32 = root;
    let mut left: u64 = fuel;
    while left > 0
        invariant
            edge_leaf(source.data@, source.format, root, direction, fuel as nat) == edge_leaf(
                source.data@,
                source.format,
                page,
                direction,
                left as nat,
            ),
        decreases left,
    {
        let p: Page = match source.page(page) {
            Ok(p) => p,
            Err(e) => {
                return Err(EseError::Format);
            },
        };
        if p.is_leaf() {
            return Ok(page);
        }
        let count: usize = p.node_count();
        let pick: usize = match direction {
            Direction::Forward => 0,
            Direction::Backward => {
                if count == 0 {
                    return Err(EseError::Format);
                }
                count - 1
            },
        };
        let n: Node = match p.node(pick) {
            Ok(n) => n,
            Err(e) => {
                return Err(EseError::Format);
            },
        };
        match n.child_page() {
            Some(c) => {
                page = c;
            },
            None => {
                return Err(EseError::Format);
            },
        }
        left = left - 1;
    }
    Err(EseError::Format)
}

/// Descends from `root` to the leftmost leaf of its tree.
pub fn find_first_leaf(source: &PageSource, root: u32, fuel: u64) -> (r: Result<u32, EseError>)
    ensures
        r == first_leaf(source.data@, source.format, root, fuel as nat),
{
    find_edge_leaf(source, root, Direction::Forward, fuel)
}

/// Finds the leaf that the parents name behind the leaf that holds `key`.
pub fn find_further_leaf(
    source: &PageSource,
    root: u32,
    key: &[u8],
    direction: Direction,
    fuel: u64,
) -> (r: Option<u32>)
    ensures
        r == further_leaf(source.data@, source.format, root, key@, direction, fuel as nat),
{
    let mut page: u32 = root;
    let mut named: Option<u32> = None;
    let mut left: u64 = fuel;
    while left > 0
        invariant
            beside_the_way(source.data@, source.format, root, key@, direction, None, fuel as nat)
                == beside_the_way(
                source.data@,
                source.format,
                page,
                key@,
                direction,
                named,
                left as nat,
            ),
        decreases left,
    {
        let p: Page = match source.page(page) {
            Ok(p) => p,
            Err(e) => {
                return None;
            },
        };
        if p.is_leaf() {
            return match named {
                None => None,
                Some(c) => match find_edge_leaf(source, c, direction, fuel) {
                    Ok(leaf) => Some(leaf),
                    Err(e) => None,
                },
            };
        }
        let bound: usize = match search_page(&p, key, false) {
            Ok(b) => b,
            Err(e) => {
                return None;
            },
        };
        let pick: usize = if bound == 0 {
            0
        } else {
            bound - 1
        };
        let side: Option<usize> = match direction {
            Direction::Forward => Some(pick + 1),
            Direction::Backward => if pick == 0 {
                None
            } else {
                Some(pick - 1)
            },
        };
        let below: Option<u32> = match side {
            Some(k) => match p.node(k) {
                Ok(n) => match n.child_page() {
                    Some(c) => Some(c),
                    None => named,
                },
                Err(e) => named,
            },
            None => named,
        };
        let n: Node = match p.node(pick) {
            Ok(n) => n,
            Err(e) => {
                return None;
            },
        };
        match n.child_page() {
            Some(c) => {
                page = c;
                named = below;
            },
            None => {
                return None;
            },
        }
        left = left - 1;
    }
    None
}

/// Where a cursor stands.
#[derive(Clone, Copy, Debug, PartialEq, Eq, Structural)]
pub enum CursorState {
    /// Before the first row: where a forward cursor starts and a backward
    /// cursor ends.
    BeforeFirst,
    /// At leaf `page`. Going forward, `tag_index` is the node of the next
    /// row. Going backward, it is the number of nodes of the leaf still to
    /// yield: the next row is that of the node before it, and an index above
    /// the number of nodes stands for that number.
    Positioned { page: u32, tag_index: usize },
    /// Behind the last row: where a backward cursor starts and a forward
    /// cursor ends.
    AfterLast,
    /// The traversal is over: no call yields a row any more.
    Exhausted,
}

/// What a cursor walks: the file, the schema of the table with its root
/// page, the direction, and the key at which the walk ends, if it has one.
pub ghost struct Scan {
    pub file: Seq<u8>,
    pub fmt: PageFormat,
    pub schema: SchemaView,
    pub direction: Direction,
    pub bound: Option<Seq<u8>>,
}

/// What one call of [`TableCursor::next_row`] does.
pub ghost struct Step {
    /// Where the cursor stands after the call.
    pub state: CursorState,
    /// The steps the cursor has left after the call.
    pub fuel: nat,
    /// What the call returns.
    pub result: Result<Option<Seq<FieldView>>, EseError>,
    /// The checksum mismatch of the page that the call took a node from.
    pub warning: Option<EseError>,
}

/// The row stored in a node's data, decoded against `schema`.
pub open spec fn row_of(schema: SchemaView, data: Seq<u8>) -> Result<
    Option<Seq<FieldView>>,
    EseError,
> {
    match spec_decode_record(schema, data) {
        Some(fs) => Ok(Some(fs)),
        None => Err(EseError::RecordDecode),
    }
}

/// Whether `key` lies beyond the bound of the walk: above it going forward,
/// below it going backward.
pub open spec fn past_bound(direction: Direction, bound: Option<Seq<u8>>, key: Seq<u8>) -> bool {
    match bound {
        None => false,
        Some(b) => match direction {
            Direction::Forward => !key_le(key, b),
            Direction::Backward => !key_le(b, key),
        },
    }
}

/// The end of a walk: nothing is yielded, the cursor is exhausted.
pub open spec fn finish(fuel: nat) -> Step {
    Step { state: CursorState::Exhausted, fuel: fuel, result: Ok(None), warning: None }
}

/// The failure of a walk: the error is reported, the cursor is exhausted.
pub open spec fn fail(fuel: nat, e: EseError) -> Step {
    Step { state: CursorState::Exhausted, fuel: fuel, result: Err(e), warning: None }
}

/// The step that takes node `k` of the valid page `page` and leaves the
/// cursor at `next`: the row of the node, or the end of the walk where the
/// key of the node lies beyond the bound. A node that cannot be split and a
/// row that cannot be decoded are reported, and the cursor passes over them.
pub open spec fn visit(scan: Scan, page: u32, k: int, next: CursorState, fuel: nat) -> Step {
    let raw = page_bytes(scan.file, scan.fmt, page);
    match spec_node(raw, scan.fmt, k) {
        None => Step {
            state: next,
            fuel: (fuel - 1) as nat,
            result: Err(EseError::Format),
            warning: page_report(raw, scan.fmt, page),
        },
        Some(n) => if past_bound(scan.direction, scan.bound, n.key) {
            finish((fuel - 1) as nat)
        } else {
            Step {
                state: next,
                fuel: (fuel - 1) as nat,
                result: row_of(scan.schema, n.data),
                warning: page_report(raw, scan.fmt, page),
            }
        },
    }
}

/// Where a cursor stands when it leaves a leaf for the leaf beside it:
/// exhausted where there is none.
pub open spec fn at_sibling(direction: Direction, sibling: int) -> CursorState {
    if sibling == 0 {
        CursorState::Exhausted
    } else {
        entering(direction, sibling as u32)
    }
}

/// The child that the branches name beside the way to `key`, searched from
/// `page` down: at each branch the way follows the child of the last node
/// whose key is at most `key`, and the child of the node beside it in the
/// direction of the walk, if there is one, becomes the child named; `named`
/// is the child named further up. `None` where the way cannot be followed.
pub open spec fn beside_the_way(
    file: Seq<u8>,
    fmt: PageFormat,
    page: u32,
    key: Seq<u8>,
    direction: Direction,
    named: Option<u32>,
    fuel: nat,
) -> Option<u32>
    decreases fuel,
{
    if fuel == 0 || !page_ok(file, fmt, page) {
        None
    } else {
        let raw = page_bytes(file, fmt, page);
        if flag_set(page_flags(raw), PAGE_FLAG_LEAF as int) {
            named
        } else {
            match search(raw, fmt, key, false, 0, node_count(raw)) {
                Err(_) => None,
                Ok(bound) => {
                    let pick = if bound == 0 {
                        0
                    } else {
                        bound - 1
                    };
                    let side = if direction is Forward {
                        pick + 1
                    } else {
                        pick - 1
                    };
                    let below = match spec_node(raw, fmt, side) {
                        Some(n) => match child_of(n.data) {
                            Some(c) => Some(c),
                            None => named,
                        },
                        None => named,
                    };
                    match spec_node(raw, fmt, pick) {
                        None => None,
                        Some(n) => match child_of(n.data) {
                            None => None,
                            Some(c) => beside_the_way(
                                file,
                                fmt,
                                c,
                                key,
                                direction,
                                below,
                                (fuel - 1) as nat,
                            ),
                        },
                    }
                },
            }
        }
    }
}

/// The leaf that the parents name behind the leaf that holds `key`, in the
/// direction of the walk: the leaf at the near edge of the subtree that the
/// branches name beside the way to `key`. `None` where they name none.
pub open spec fn further_leaf(
    file: Seq<u8>,
    fmt: PageFormat,
    root: u32,
    key: Seq<u8>,
    direction: Direction,
    fuel: nat,
) -> Option<u32> {
    match beside_the_way(file, fmt, root, key, direction, None, fuel) {
        None => None,
        Some(c) => match edge_leaf(file, fmt, c, direction, fuel) {
            Ok(leaf) => Some(leaf),
            Err(_) => None,
        },
    }
}

/// Where a cursor stands when it enters leaf `page` from its near edge.
pub open spec fn entering(direction: Direction, page: u32) -> CursorState {
    CursorState::Positioned {
        page: page,
        tag_index: if direction is Forward {
            0
        } else {
            usize::MAX
        },
    }
}

/// Whether the leaf `leaf` leads on from `key` in the direction of a walk:
/// it is a valid page, and the key of its first node in that direction lies
/// beyond `key`. A leaf that does not lead on would bring the walk back to
/// rows it has passed.
pub open spec fn leads_on(
    file: Seq<u8>,
    fmt: PageFormat,
    leaf: u32,
    key: Seq<u8>,
    direction: Direction,
) -> bool {
    let raw = page_bytes(file, fmt, leaf);
    let near = if direction is Forward {
        0
    } else {
        node_count(raw) - 1
    };
    &&& page_ok(file, fmt, leaf)
    &&& match spec_node(raw, fmt, near) {
        None => false,
        Some(n) => if direction is Forward {
            !key_le(n.key, key)
        } else {
            !key_le(key, n.key)
        },
    }
}

/// Where a cursor goes from the end of the valid leaf `page`: to the sibling
/// that the leaf names; where it names none, to the further leaf that the
/// parents name behind the last key of the leaf, if that leaf leads on;
/// else nowhere: the cursor is exhausted.
pub open spec fn onward(scan: Scan, page: u32, fuel: nat) -> CursorState {
    let raw = page_bytes(scan.file, scan.fmt, page);
    let forward = scan.direction is Forward;
    let beside = at_sibling(scan.direction, sibling_of(raw, forward));
    let edge = if forward {
        node_count(raw) - 1
    } else {
        0
    };
    if !(beside is Exhausted) {
        beside
    } else {
        match spec_node(raw, scan.fmt, edge) {
            None => CursorState::Exhausted,
            Some(n) => match further_leaf(
                scan.file,
                scan.fmt,
                scan.schema.root_page,
                n.key,
                scan.direction,
                fuel,
            ) {
                Some(leaf) => if leads_on(scan.file, scan.fmt, leaf, n.key, scan.direction) {
                    entering(scan.direction, leaf)
                } else {
                    CursorState::Exhausted
                },
                None => CursorState::Exhausted,
            },
        }
    }
}

/// One call of `next_row` on a cursor that stands at `state` with `fuel`
/// steps left.
///
/// An exhausted cursor yields nothing and stays exhausted; so does a cursor
/// that stands where its direction ends. A cursor that stands where its
/// direction starts descends to the leaf at that edge of the tree. A
/// positioned cursor yields the row of its node and moves to the next node
/// in its direction; at the end of a leaf it moves to the sibling leaf, or,
/// where the leaf names none, to the further leaf that the parents name, or,
/// where there is none, is exhausted. A leaf that the file holds but that is
/// no valid page is reported as `Format`, and the cursor passes over it to
/// the sibling that its header names. A leaf that the file does not hold,
/// or the end of the fuel, is reported and exhausts the cursor.
pub open spec fn step(scan: Scan, state: CursorState, fuel: nat) -> Step
    decreases fuel,
{
    let file = scan.file;
    let fmt = scan.fmt;
    let forward = scan.direction is Forward;
    match state {
        CursorState::Exhausted => finish(fuel),
        CursorState::BeforeFirst | CursorState::AfterLast => {
            if (state is BeforeFirst) != forward {
                finish(fuel)
            } else if fuel == 0 {
                fail(fuel, EseError::Format)
            } else {
                match edge_leaf(file, fmt, scan.schema.root_page, scan.direction, fuel) {
                    Err(e) => fail(fuel, e),
                    Ok(leaf) => step(scan, entering(scan.direction, leaf), (fuel - 1) as nat),
                }
            }
        },
        CursorState::Positioned { page, tag_index } => {
            if fuel == 0 || !page_in_file(file, fmt, page) {
                fail(fuel, EseError::Format)
            } else {
                let raw = page_bytes(file, fmt, page);
                let beside = at_sibling(scan.direction, sibling_of(raw, forward));
                if !page_valid(raw, fmt) {
                    Step {
                        state: beside,
                        fuel: (fuel - 1) as nat,
                        result: Err(EseError::Format),
                        warning: None,
                    }
                } else if forward {
                    if tag_index < node_count(raw) {
                        visit(
                            scan,
                            page,
                            tag_index as int,
                            CursorState::Positioned {
                                page: page,
                                tag_index: (tag_index + 1) as usize,
                            },
                            fuel,
                        )
                    } else if onward(scan, page, fuel) is Exhausted {
                        finish(fuel)
                    } else {
                        step(scan, onward(scan, page, fuel), (fuel - 1) as nat)
                    }
                } else {
                    let left = if tag_index > node_count(raw) {
                        node_count(raw)
                    } else {
                        tag_index as int
                    };
                    if left > 0 {
                        visit(
                            scan,
                            page,
                            left - 1,
                            CursorState::Positioned { page: page, tag_index: (left - 1) as usize },
                            fuel,
                        )
                    } else if onward(scan, page, fuel) is Exhausted {
                        finish(fuel)
                    } else {
                        step(scan, onward(scan, page, fuel), (fuel - 1) as nat)
                    }
                }
            }
        },
    }
}

/// Whether a returned row is the row that the model gives.
pub open spec fn yields(
    r: Result<Option<Record>, EseError>,
    s: Result<Option<Seq<FieldView>>, EseError>,
) -> bool {
    match (r, s) {
        (Ok(Some(rec)), Ok(Some(fs))) => rec@ == fs,
        (Ok(None), Ok(None)) => true,
        (Err(a), Err(b)) => a == b,
        _ => false,
    }
}

/// The bound of a walk as a byte string.
pub open spec fn bound_view(bound: Option<Vec<u8>>) -> Option<Seq<u8>> {
    match bound {
        Some(b) => Some(b@),
        None => None,
    }
}

/// A cursor over the rows of one table.
///
/// The cursor holds numbers only: the page and the node it stands at. Every
/// call reads the page it needs from the file anew.
#[derive(Debug)]
pub struct TableCursor<'a> {
    pub source: PageSource<'a>,
    pub schema: TableSchema,
    pub state: CursorState,
    pub direction: Direction,
    /// The key at which the walk ends: going forward, the first row with a
    /// key above it ends the walk; going backward, the first with a key
    /// below it.
    pub bound: Option<Vec<u8>>,
    /// The steps the cursor may still take; a sound file never uses them up.
    pub steps_left: u64,
    /// The checksum mismatch of the page that the last call of `next_row`
    /// took a node from, where that page has one. The row was decoded all
    /// the same.
    pub page_warning: Option<EseError>,
}

impl<'a> TableCursor<'a> {
    /// A forward cursor before the first row of the table that `schema`
    /// describes, without bound.
    pub fn new(source: PageSource<'a>, schema: TableSchema) -> (r: TableCursor<'a>)
        ensures
            r.source == source,
            r.schema == schema,
            r.state == CursorState::BeforeFirst,
            r.direction == Direction::Forward,
            r.bound.is_none(),
            r.steps_left == source.data@.len(),
            r.page_warning.is_none(),
    {
        let n: usize = source.data.len();
        TableCursor {
            source: source,
            schema: schema,
            state: CursorState::BeforeFirst,
            direction: Direction::Forward,
            bound: None,
            steps_left: n as u64,
            page_warning: None,
        }
    }

    /// What the cursor walks.
    pub open spec fn scan(&self) -> Scan {
        Scan {
            file: self.source.data@,
            fmt: self.source.format,
            schema: self.schema@,
            direction: self.direction,
            bound: bound_view(self.bound),
        }
    }

    /// What the next call of `next_row` does.
    pub open spec fn next_step(&self) -> Step {
        step(self.scan(), self.state, self.steps_left as nat)
    }

    /// Turns the cursor to walk forward from before the first row.
    pub fn rewind(&mut self)
        ensures
            final(self).source == old(self).source,
            final(self).schema == old(self).schema,
            final(self).bound == old(self).bound,
            final(self).state == CursorState::BeforeFirst,
            final(self).direction == Direction::Forward,
            final(self).steps_left == old(self).source.data@.len(),
            final(self).page_warning.is_none(),
    {
        self.state = CursorState::BeforeFirst;
        self.direction = Direction::Forward;
        self.steps_left = self.source.data.len() as u64;
        self.page_warning = None;
    }

    /// Turns the cursor to walk backward from behind the last row.
    pub fn to_end(&mut self)
        ensures
            final(self).source == old(self).source,
            final(self).schema == old(self).schema,
            final(self).bound == old(self).bound,
            final(self).state == CursorState::AfterLast,
            final(self).direction == Direction::Backward,
            final(self).steps_left == old(self).source.data@.len(),
            final(self).page_warning.is_none(),
    {
        self.state = CursorState::AfterLast;
        self.direction = Direction::Backward;
        self.steps_left = self.source.data.len() as u64;
        self.page_warning = None;
    }

    /// Sets or removes the key at which the walk ends.
    pub fn set_bound(&mut self, bound: Option<Vec<u8>>)
        ensures
            final(self).source == old(self).source,
            final(self).schema == old(self).schema,
            final(self).state == old(self).state,
            final(self).direction == old(self).direction,
            final(self).steps_left == old(self).steps_left,
            final(self).page_warning == old(self).page_warning,
            final(self).bound == bound,
    {
        self.bound = bound;
    }

    /// Whether `key` lies beyond the bound of the walk.
    fn is_past_bound(&self, key: &[u8]) -> (r: bool)
        ensures
            r == past_bound(self.direction, bound_view(self.bound), key@),
    {
        match &self.bound {
            None => false,
            Some(b) => match self.direction {
                Direction::Forward => !key_at_most(key, b.as_slice()),
                Direction::Backward => !key_at_most(b.as_slice(), key),
            },
        }
    }

    /// Takes node `k` of the page `p` and leaves the cursor at `next`.
    fn visit_node(&mut self, p: &Page, k: usize, next: CursorState) -> (r: Result<
        Option<Record>,
        EseError,
    >)
        requires
            p.wf(),
            old(self).steps_left > 0,
            page_ok(old(self).source.data@, old(self).source.format, p.number),
            p.raw@ == page_bytes(old(self).source.data@, old(self).source.format, p.number),
            p.format == old(self).source.format,
        ensures
            final(self).source == old(self).source,
            final(self).schema == old(self).schema,
            final(self).direction == old(self).direction,
            final(self).bound == old(self).bound,
            ({
                let s = visit(old(self).scan(), p.number, k as int, next, old(self).steps_left as nat);
                &&& final(self).state == s.state
                &&& final(self).steps_left == s.fuel
                &&& final(self).page_warning == s.warning
                &&& yields(r, s.result)
            }),
            final(self).steps_left < old(self).steps_left,
    {
        self.steps_left = self.steps_left - 1;
        let n: Node = match p.node(k) {
            Ok(n) => n,
            Err(e) => {
                self.state = next;
                self.page_warning = p.checksum_error();
                return Err(EseError::Format);
            },
        };
        if self.is_past_bound(n.key.as_slice()) {
            self.state = CursorState::Exhausted;
            self.page_warning = None;
            return Ok(None);
        }
        self.state = next;
        self.page_warning = p.checksum_error();
        match decode_record(&self.schema, n.data) {
            Ok(rec) => Ok(Some(rec)),
            Err(e) => Err(EseError::RecordDecode),
        }
    }

    /// Where the cursor goes from the end of the leaf `p`, which names no
    /// sibling: to the further leaf that the parents name, if they name one.
    fn leave_leaf(&self, p: &Page) -> (r: CursorState)
        requires
            p.wf(),
            page_ok(self.source.data@, self.source.format, p.number),
            p.raw@ == page_bytes(self.source.data@, self.source.format, p.number),
            p.format == self.source.format,
            sibling_of(p.raw@, self.direction is Forward) == 0,
        ensures
            r == onward(self.scan(), p.number, self.steps_left as nat),
    {
        let count: usize = p.node_count();
        if count == 0 {
            return CursorState::Exhausted;
        }
        let edge: usize = match self.direction {
            Direction::Forward => count - 1,
            Direction::Backward => 0,
        };
        let n: Node = match p.node(edge) {
            Ok(n) => n,
            Err(e) => {
                return CursorState::Exhausted;
            },
        };
        match find_further_leaf(
            &self.source,
            self.schema.root_page,
            n.key.as_slice(),
            self.direction,
            self.steps_left,
        ) {
            Some(leaf) => {
                if self.leads_on(leaf, n.key.as_slice()) {
                    CursorState::Positioned {
                        page: leaf,
                        tag_index: match self.direction {
                            Direction::Forward => 0,
                            Direction::Backward => usize::MAX,
                        },
                    }
                } else {
                    CursorState::Exhausted
                }
            },
            None => CursorState::Exhausted,
        }
    }

    /// Whether the leaf `leaf` leads on from `key` in the direction of the
    /// cursor.
    fn leads_on(&self, leaf: u32, key: &[u8]) -> (r: bool)
        ensures
            r == leads_on(self.source.data@, self.source.format, leaf, key@, self.direction),
    {
        let q: Page = match self.source.page(leaf) {
            Ok(q) => q,
            Err(e) => {
                return false;
            },
        };
        let count: usize = q.node_count();
        match self.direction {
            Direction::Forward => match q.node(0) {
                Ok(n) => !key_at_most(n.key.as_slice(), key),
                Err(e) => false,
            },
            Direction::Backward => {
                if count == 0 {
                    return false;
                }
                match q.node(count - 1) {
                    Ok(n) => !key_at_most(key, n.key.as_slice()),
                    Err(e) => false,
                }
            },
        }
    }

    /// Ends the walk.
    fn end_walk(&mut self)
        ensures
            final(self).source == old(self).source,
            final(self).schema == old(self).schema,
            final(self).direction == old(self).direction,
            final(self).bound == old(self).bound,
            final(self).steps_left == old(self).steps_left,
            final(self).state == CursorState::Exhausted,
            final(self).page_warning.is_none(),
    {
        self.state = CursorState::Exhausted;
        self.page_warning = None;
    }

    /// Yields the next row of the table in the direction of the cursor, in
    /// the order of the leaves and of the nodes within each leaf; `None`
    /// behind the last row, or at the first row beyond the bound.
    ///
    /// Once the cursor is exhausted every call returns `Ok(None)` and leaves
    /// it exhausted. A row that cannot be decoded is returned as
    /// `RecordDecode`, a node that cannot be read as `Format`; the cursor
    /// then stands at the next node, so the caller may go on. A leaf that
    /// the file holds but that is no valid page is returned as `Format`; the
    /// cursor then stands at the sibling that the header of the leaf names,
    /// so the caller may go on there. A leaf that the file does not hold is
    /// returned as `Format` and exhausts the cursor. Where the page that the
    /// row came from has a checksum mismatch, the row is returned all the
    /// same and `page_warning` holds the mismatch.
    pub fn next_row(&mut self) -> (r: Result<Option<Record>, EseError>)
        ensures
            final(self).source == old(self).source,
            final(self).schema == old(self).schema,
            final(self).direction == old(self).direction,
            final(self).bound == old(self).bound,
            final(self).state == old(self).next_step().state,
            final(self).steps_left == old(self).next_step().fuel,
            final(self).page_warning == old(self).next_step().warning,
            yields(r, old(self).next_step().result),
            old(self).state is Exhausted ==> r == Ok::<Option<Record>, EseError>(None)
                && final(self).state is Exhausted,
            final(self).steps_left <= old(self).steps_left,
            (r matches Ok(Some(_))) ==> final(self).steps_left < old(self).steps_left,
            r.is_err() ==> final(self).steps_left < old(self).steps_left
                || final(self).state is Exhausted,
    {
        let ghost goal = self.next_step();
        loop
            invariant
                self.source == old(self).source,
                self.schema == old(self).schema,
                self.direction == old(self).direction,
                self.bound == old(self).bound,
                self.steps_left <= old(self).steps_left,
                self.next_step() == goal,
                goal == old(self).next_step(),
                old(self).state is Exhausted ==> self.state is Exhausted,
            decreases self.steps_left,
        {
            let forward: bool = match self.direction {
                Direction::Forward => true,
                Direction::Backward => false,
            };
            match self.state {
                CursorState::Exhausted => {
                    self.end_walk();
                    return Ok(None);
                },
                CursorState::BeforeFirst | CursorState::AfterLast => {
                    let at_start: bool = match self.state {
                        CursorState::BeforeFirst => forward,
                        _ => !forward,
                    };
                    if !at_start {
                        self.end_walk();
                        return Ok(None);
                    }
                    if self.steps_left == 0 {
                        self.end_walk();
                        return Err(EseError::Format);
                    }
                    let leaf: u32 = match find_edge_leaf(
                        &self.source,
                        self.schema.root_page,
                        self.direction,
                        self.steps_left,
                    ) {
                        Ok(leaf) => leaf,
                        Err(e) => {
                            self.end_walk();
                            return Err(e);
                        },
                    };
                    let index: usize = if forward {
                        0
                    } else {
                        usize::MAX
                    };
                    self.state = CursorState::Positioned { page: leaf, tag_index: index };
                    self.steps_left = self.steps_left - 1;
                },
                CursorState::Positioned { page, tag_index } => {
                    if self.steps_left == 0 {
                        self.end_walk();
                        return Err(EseError::Format);
                    }
                    let raw: &[u8] = match self.source.page_raw(page) {
                        Some(raw) => raw,
                        None => {
                            self.end_walk();
                            return Err(EseError::Format);
                        },
                    };
                    let sibling: u32 = read_sibling(raw, forward);
                    let beside: CursorState = if sibling == 0 {
                        CursorState::Exhausted
                    } else {
                        CursorState::Positioned {
                            page: sibling,
                            tag_index: if forward {
                                0
                            } else {
                                usize::MAX
                            },
                        }
                    };
                    let p: Page = match decode_page(
                        page,
                        raw,
                        self.source.format.page_size,
                        self.source.format.revision,
                    ) {
                        Ok(p) => p,
                        Err(e) => {
                            self.state = beside;
                            self.steps_left = self.steps_left - 1;
                            self.page_warning = None;
                            return Err(EseError::Format);
                        },
                    };
                    let count: usize = p.node_count();
                    if forward {
                        if tag_index < count {
                            return self.visit_node(
                                &p,
                                tag_index,
                                CursorState::Positioned { page: page, tag_index: tag_index + 1 },
                            );
                        }
                    } else {
                        let left: usize = if tag_index > count {
                            count
                        } else {
                            tag_index
                        };
                        if left > 0 {
                            return self.visit_node(
                                &p,
                                left - 1,
                                CursorState::Positioned { page: page, tag_index: left - 1 },
                            );
                        }
                    }
                    let next: CursorState = if sibling != 0 {
                        beside
                    } else {
                        self.leave_leaf(&p)
                    };
                    match next {
                        CursorState::Exhausted => {
                            self.end_walk();
                            return Ok(None);
                        },
                        _ => {
                            self.state = next;
                            self.steps_left = self.steps_left - 1;
                        },
                    }
                },
            }
        }
    }
}

/// The key of the head of long value `id` in the long-value tree: the
/// identifier in four bytes, most significant first. The keys of the
/// segments of the value extend it by the offset of the segment.
pub open spec fn value_key(id: u32) -> Seq<u8> {
    seq![
        (id / 0x100_0000) as u8,
        (id / 0x1_0000 % 256) as u8,
        (id / 0x100 % 256) as u8,
        (id % 256) as u8,
    ]
}

/// Builds the key of the head of long value `id`.
pub fn make_value_key(id: u32) -> (r: Vec<u8>)
    ensures
        r@ == value_key(id),
{
    let mut key: Vec<u8> = Vec::new();
    key.push((id / 0x100_0000) as u8);
    key.push((id / 0x1_0000 % 256) as u8);
    key.push((id / 0x100 % 256) as u8);
    key.push((id % 256) as u8);
    assert(key@ =~= value_key(id));
    key
}

/// Whether `key` belongs to long value `id`: the key of its head, or of one
/// of its segments.
pub open spec fn belongs_to(key: Seq<u8>, id: u32) -> bool {
    (key.len() == 4 || key.len() == 8) && be_u32(key, 0) == id
}

/// Whether `key` is the key of a segment of long value `id`: the identifier
/// followed by the segment's offset, four bytes each, most significant first.
pub open spec fn segment_of(key: Seq<u8>, id: u32) -> bool {
    key.len() == 8 && be_u32(key, 0) == id
}

/// What a node adds to long value `id`: its data where it is a segment of
/// the value, nothing otherwise.
pub open spec fn piece(n: NodeView, id: u32) -> Seq<u8> {
    if segment_of(n.key, id) {
        n.data
    } else {
        Seq::empty()
    }
}

/// Appends to `out` what the node adds to long value `id`, and says whether
/// the node belongs to the value.
fn take_piece(out: &mut Vec<u8>, n: &Node, id: u32) -> (r: bool)
    ensures
        r == belongs_to(n@.key, id),
        final(out)@ == old(out)@ + piece(n@, id),
{
    let len: usize = n.key.len();
    let same: bool = read_u32_be(n.key.as_slice(), 0) == Some(id);
    if len == 8 && same {
        append_range(out, n.data, 0, n.data.len());
        assert(n.data@.subrange(0, n.data@.len() as int) =~= n.data@);
    } else {
        assert(out@ + Seq::<u8>::empty() =~= out@);
    }
    (len == 4 || len == 8) && same
}

/// Puts `head` before the bytes of `rest`, where `rest` is no error.
pub open spec fn join(head: Seq<u8>, rest: Result<Seq<u8>, EseError>) -> Result<
    Seq<u8>,
    EseError,
> {
    match rest {
        Ok(r) => Ok(head + r),
        Err(e) => Err(e),
    }
}

/// The segments of long value `id` from node `index` of leaf `page` on,
/// through the right siblings, joined in stored order, up to the first node
/// that belongs to another value or the end of the leaves.
#[verifier::opaque]
pub open spec fn segments_from(
    file: Seq<u8>,
    fmt: PageFormat,
    id: u32,
    page: u32,
    index: int,
    fuel: nat,
) -> Result<Seq<u8>, EseError>
    decreases fuel,
{
    if fuel == 0 || !page_ok(file, fmt, page) {
        Err(EseError::Format)
    } else {
        let raw = page_bytes(file, fmt, page);
        if index < node_count(raw) {
            match spec_node(raw, fmt, index) {
                None => Err(EseError::Format),
                Some(n) => if belongs_to(n.key, id) {
                    join(
                        piece(n, id),
                        segments_from(file, fmt, id, page, index + 1, (fuel - 1) as nat),
                    )
                } else {
                    Ok(Seq::empty())
                },
            }
        } else if next_page(raw) == 0 {
            Ok(Seq::empty())
        } else {
            segments_from(file, fmt, id, next_page(raw) as u32, 0, (fuel - 1) as nat)
        }
    }
}

/// The bytes of long value `id` in the long-value tree rooted at `root`: the
/// tree is searched for the key of the value, and the segments found from
/// there on are joined in key order. A value without any byte is reported as
/// `RecordDecode`: the tree holds no such value.
pub open spec fn long_value(file: Seq<u8>, fmt: PageFormat, root: u32, id: u32, fuel: nat) -> Result<
    Seq<u8>,
    EseError,
> {
    match seek_position(file, fmt, root, value_key(id), fuel) {
        Err(e) => Err(e),
        Ok((leaf, index)) => match segments_from(file, fmt, id, leaf, index, fuel) {
            Err(e) => Err(e),
            Ok(bytes) => if bytes.len() == 0 {
                Err(EseError::RecordDecode)
            } else {
                Ok(bytes)
            },
        },
    }
}

/// One step of [`segments_from`].
pub proof fn lemma_segments_step(
    file: Seq<u8>,
    fmt: PageFormat,
    id: u32,
    page: u32,
    index: int,
    fuel: nat,
)
    ensures
        segments_from(file, fmt, id, page, index, fuel) == if fuel == 0 || !page_ok(
            file,
            fmt,
            page,
        ) {
            Err::<Seq<u8>, EseError>(EseError::Format)
        } else if index < node_count(page_bytes(file, fmt, page)) {
            match spec_node(page_bytes(file, fmt, page), fmt, index) {
                None => Err(EseError::Format),
                Some(n) => if belongs_to(n.key, id) {
                    join(
                        piece(n, id),
                        segments_from(file, fmt, id, page, index + 1, (fuel - 1) as nat),
                    )
                } else {
                    Ok(Seq::empty())
                },
            }
        } else if next_page(page_bytes(file, fmt, page)) == 0 {
            Ok(Seq::empty())
        } else {
            segments_from(
                file,
                fmt,
                id,
                next_page(page_bytes(file, fmt, page)) as u32,
                0,
                (fuel - 1) as nat,
            )
        },
{
    reveal(segments_from);
}

/// Joining in two steps is joining once.
pub proof fn lemma_join_twice(a: Seq<u8>, b: Seq<u8>, rest: Result<Seq<u8>, EseError>)
    ensures
        join(a, join(b, rest)) == join(a + b, rest),
{
    if let Ok(r) = rest {
        assert(a + (b + r) =~= (a + b) + r);
    }
}

/// Gathers the segments of long value `id` from node `start` of the leaf
/// `leaf` on.
pub fn gather_segments(source: &PageSource, id: u32, leaf: u32, start: usize, fuel: u64) -> (r:
    Result<Vec<u8>, EseError>)
    ensures
        match r {
            Ok(v) => segments_from(
                source.data@,
                source.format,
                id,
                leaf,
                start as int,
                fuel as nat,
            ) == Ok::<Seq<u8>, EseError>(v@),
            Err(e) => segments_from(
                source.data@,
                source.format,
                id,
                leaf,
                start as int,
                fuel as nat,
            ) == Err::<Seq<u8>, EseError>(e),
        },
{
    let ghost goal = segments_from(
        source.data@,
        source.format,
        id,
        leaf,
        start as int,
        fuel as nat,
    );
    let mut out: Vec<u8> = Vec::new();
    let mut page: u32 = leaf;
    let mut index: usize = start;
    let mut left: u64 = fuel;
    proof {
        lemma_join_twice(Seq::empty(), Seq::empty(), goal);
        assert(Seq::<u8>::empty() + Seq::<u8>::empty() =~= Seq::<u8>::empty());
        if let Ok(g) = goal {
            assert(Seq::<u8>::empty() + g =~= g);
        }
    }
    while left > 0
        invariant
            goal == segments_from(
                source.data@,
                source.format,
                id,
                leaf,
                start as int,
                fuel as nat,
            ),
            goal == join(
                out@,
                segments_from(source.data@, source.format, id, page, index as int, left as nat),
            ),
        decreases left,
    {
        proof {
            lemma_segments_step(source.data@, source.format, id, page, index as int, left as nat);
        }
        let p: Page = match source.page(page) {
            Ok(p) => p,
            Err(e) => {
                return Err(EseError::Format);
            },
        };
        if index < p.node_count() {
            let n: Node = match p.node(index) {
                Ok(n) => n,
                Err(e) => {
                    return Err(EseError::Format);
                },
            };
            let ghost before = out@;
            let ghost rest = segments_from(
                source.data@,
                source.format,
                id,
                page,
                index + 1,
                (left - 1) as nat,
            );
            let belongs: bool = take_piece(&mut out, &n, id);
            if !belongs {
                assert(out@ + Seq::<u8>::empty() =~= out@);
                assert(before + Seq::<u8>::empty() =~= before);
                return Ok(out);
            }
            proof {
                lemma_join_twice(before, piece(n@, id), rest);
            }
            index = index + 1;
        } else if p.next_page == 0 {
            assert(out@ + Seq::<u8>::empty() =~= out@);
            return Ok(out);
        } else {
            page = p.next_page;
            index = 0;
        }
        left = left - 1;
    }
    proof {
        lemma_segments_step(source.data@, source.format, id, page, index as int, 0);
    }
    Err(EseError::Format)
}

/// Reads long value `id` from the long-value tree rooted at `root`.
pub fn read_long_value(source: &PageSource, root: u32, id: u32) -> (r: Result<Vec<u8>, EseError>)
    ensures
        match r {
            Ok(v) => long_value(
                source.data@,
                source.format,
                root,
                id,
                source.data@.len(),
            ) == Ok::<Seq<u8>, EseError>(v@),
            Err(e) => long_value(
                source.data@,
                source.format,
                root,
                id,
                source.data@.len(),
            ) == Err::<Seq<u8>, EseError>(e),
        },
{
    let fuel: u64 = source.data.len() as u64;
    let key: Vec<u8> = make_value_key(id);
    let (leaf, index) = match find_position(source, root, key.as_slice(), fuel) {
        Ok(found) => found,
        Err(e) => {
            return Err(e);
        },
    };
    match gather_segments(source, id, leaf, index, fuel) {
        Ok(v) => {
            if v.len() == 0 {
                Err(EseError::RecordDecode)
            } else {
                Ok(v)
            }
        },
        Err(e) => Err(e),
    }
}

/// One long-value reference that could not be resolved.
#[derive(Clone, Copy, Debug, PartialEq, Eq, Structural)]
pub struct Unresolved {
    /// The index of the field that holds the reference.
    pub field: usize,
    /// The key of the long value.
    pub key: u32,
    /// Why the value could not be read.
    pub error: EseError,
}

/// What long-value references are resolved against: a file and the root of
/// a long-value tree, if there is one.
pub ghost struct Lookup {
    pub file: Seq<u8>,
    pub fmt: PageFormat,
    pub root: Option<u32>,
}

/// The bytes of long value `key`; `RecordDecode` where there is no
/// long-value tree.
pub open spec fn looked_up(l: Lookup, key: u32) -> Result<Seq<u8>, EseError> {
    match l.root {
        None => Err(EseError::RecordDecode),
        Some(root) => long_value(l.file, l.fmt, root, key, l.file.len()),
    }
}

/// The value `v` with its long-value references resolved: a reference that
/// the tree resolves becomes the bytes it refers to, also inside a
/// multi-value; every other value stays as it is.
pub open spec fn resolved_value(l: Lookup, v: ValueView) -> ValueView
    decreases v, 0nat,
{
    match v {
        ValueView::LongValueRef(key) => match looked_up(l, key) {
            Ok(bytes) => ValueView::LongValue(bytes),
            Err(_) => v,
        },
        ValueView::MultiValue(vs) => ValueView::MultiValue(resolved_prefix(l, vs, vs.len())),
        _ => v,
    }
}

/// The first `n` of `vs`, resolved.
pub open spec fn resolved_prefix(l: Lookup, vs: Seq<ValueView>, n: nat) -> Seq<ValueView>
    decreases vs, n,
{
    if n == 0 || n > vs.len() {
        Seq::empty()
    } else {
        resolved_prefix(l, vs, (n - 1) as nat).push(resolved_value(l, vs[n - 1]))
    }
}

/// The references of the value `v` of field `field` that cannot be
/// resolved, in stored order.
pub open spec fn value_failures(l: Lookup, v: ValueView, field: usize) -> Seq<Unresolved>
    decreases v, 0nat,
{
    match v {
        ValueView::LongValueRef(key) => match looked_up(l, key) {
            Ok(_) => Seq::empty(),
            Err(e) => seq![Unresolved { field: field, key: key, error: e }],
        },
        ValueView::MultiValue(vs) => failures_prefix(l, vs, vs.len(), field),
        _ => Seq::empty(),
    }
}

/// The references of the first `n` of `vs` that cannot be resolved.
pub open spec fn failures_prefix(l: Lookup, vs: Seq<ValueView>, n: nat, field: usize) -> Seq<
    Unresolved,
>
    decreases vs, n,
{
    if n == 0 || n > vs.len() {
        Seq::empty()
    } else {
        failures_prefix(l, vs, (n - 1) as nat, field) + value_failures(l, vs[n - 1], field)
    }
}

/// The references of the first `n` fields that cannot be resolved, each
/// with the index of its field.
pub open spec fn record_failures(l: Lookup, fields: Seq<FieldView>, n: nat) -> Seq<Unresolved>
    decreases n,
{
    if n == 0 {
        Seq::empty()
    } else {
        record_failures(l, fields, (n - 1) as nat) + value_failures(
            l,
            fields[n - 1].value,
            (n - 1) as usize,
        )
    }
}

impl<'a> TableCursor<'a> {
    /// The bytes of the long value that `key` refers to, gathered from the
    /// table's long-value tree: the tree is searched for the key, and the
    /// segments stored under it are joined in key order.
    ///
    /// Fails with `RecordDecode` where the table has no long-value tree or the
    /// tree holds no byte under the key, and with `Format` where a page of the
    /// tree is missing or invalid.
    pub fn resolve_long_value(&self, key: u32) -> (r: Result<Vec<u8>, EseError>)
        ensures
            match self.schema.long_value_root {
                None => r == Err::<Vec<u8>, EseError>(EseError::RecordDecode),
                Some(root) => match r {
                    Ok(v) => long_value(
                        self.source.data@,
                        self.source.format,
                        root,
                        key,
                        self.source.data@.len(),
                    ) == Ok::<Seq<u8>, EseError>(v@),
                    Err(e) => long_value(
                        self.source.data@,
                        self.source.format,
                        root,
                        key,
                        self.source.data@.len(),
                    ) == Err::<Seq<u8>, EseError>(e),
                },
            },
    {
        match self.schema.long_value_root {
            None => Err(EseError::RecordDecode),
            Some(root) => read_long_value(&self.source, root, key),
        }
    }

    /// Replaces a long-value reference by the bytes it refers to; any other
    /// value is returned as it is.
    pub fn resolve(&self, value: ColumnValue) -> (r: Result<ColumnValue, EseError>)
        ensures
            match value {
                ColumnValue::LongValueRef(key) => match self.schema.long_value_root {
                    None => r == Err::<ColumnValue, EseError>(EseError::RecordDecode),
                    Some(root) => match long_value(
                        self.source.data@,
                        self.source.format,
                        root,
                        key,
                        self.source.data@.len(),
                    ) {
                        Ok(bytes) => r.is_ok() && r.unwrap()@ == ValueView::LongValue(bytes),
                        Err(e) => r == Err::<ColumnValue, EseError>(e),
                    },
                },
                _ => r == Ok::<ColumnValue, EseError>(value),
            },
    {
        match value {
            ColumnValue::LongValueRef(key) => match self.resolve_long_value(key) {
                Ok(bytes) => Ok(ColumnValue::LongValue(bytes)),
                Err(e) => Err(e),
            },
            other => Ok(other),
        }
    }

    /// The value `v` with its long-value references resolved: a reference
    /// becomes the bytes it refers to, also inside a multi-value; a reference
    /// that cannot be resolved stays a reference and is added to `failures`
    /// with the index `field`, its key and the error.
    pub fn resolve_value(&self, v: &ColumnValue, field: usize, failures: &mut Vec<Unresolved>) -> (r:
        ColumnValue)
        ensures
            r@ == resolved_value(self.lookup(), v@),
            final(failures)@ == old(failures)@ + value_failures(self.lookup(), v@, field),
        decreases v,
    {
        match v {
            ColumnValue::LongValueRef(key) => match self.resolve_long_value(*key) {
                Ok(bytes) => {
                    assert(failures@ + Seq::<Unresolved>::empty() =~= failures@);
                    ColumnValue::LongValue(bytes)
                },
                Err(e) => {
                    failures.push(Unresolved { field: field, key: *key, error: e });
                    assert(final(failures)@ =~= old(failures)@ + seq![
                        Unresolved { field: field, key: *key, error: e },
                    ]);
                    ColumnValue::LongValueRef(*key)
                },
            },
            ColumnValue::MultiValue(items) => {
                let n: usize = items.len();
                let ghost vs = values_view(items@);
                let ghost start = failures@;
                let mut out: Vec<ColumnValue> = Vec::new();
                let mut i: usize = 0;
                proof {
                    lemma_multi_value_view(*items);
                    assert(start + Seq::<Unresolved>::empty() =~= start);
                    assert(values_view(out@) =~= Seq::<ValueView>::empty());
                }
                while i < n
                    invariant
                        n == items@.len(),
                        i <= n,
                        v == (ColumnValue::MultiValue(*items)),
                        vs == values_view(items@),
                        values_view(out@) == resolved_prefix(self.lookup(), vs, i as nat),
                        failures@ == start + failures_prefix(self.lookup(), vs, i as nat, field),
                    decreases n - i,
                {
                    assert(decreases_to!(*items => items[i as int]));
                    assert(v is MultiValue && v->MultiValue_0 == *items);
                    assert(decreases_to!(*v => v->MultiValue_0));
                    let ghost before = failures@;
                    let ghost done = values_view(out@);
                    let item: ColumnValue = self.resolve_value(&items[i], field, failures);
                    out.push(item);
                    proof {
                        assert(vs[i as int] == items@[i as int]@);
                        assert(values_view(out@) =~= done.push(item@));
                        assert(start + (failures_prefix(self.lookup(), vs, i as nat, field)
                            + value_failures(self.lookup(), vs[i as int], field)) =~= before
                            + value_failures(self.lookup(), vs[i as int], field));
                    }
                    i = i + 1;
                }
                proof {
                    lemma_multi_value_view(out);
                }
                ColumnValue::MultiValue(out)
            },
            other => {
                assert(failures@ + Seq::<Unresolved>::empty() =~= failures@);
                other.clone()
            },
        }
    }

    /// Replaces every long-value reference among the fields of `record`, also
    /// inside multi-values, by the bytes it refers to, and returns the
    /// references that could not be resolved, each with the index of its
    /// field, its key and the error. Such a reference stays a reference;
    /// every other value stays as it is.
    pub fn resolve_record(&self, record: &mut Record) -> (r: Vec<Unresolved>)
        ensures
            final(record)@.len() == old(record)@.len(),
            forall|i: int|
                0 <= i < old(record)@.len() ==> (#[trigger] final(record)@[i]).column_id == old(
                    record,
                )@[i].column_id && final(record)@[i].value == resolved_value(
                    self.lookup(),
                    old(record)@[i].value,
                ),
            r@ == record_failures(self.lookup(), old(record)@, old(record)@.len()),
    {
        let n: usize = record.len();
        let ghost start = record@;
        let mut failures: Vec<Unresolved> = Vec::new();
        let mut i: usize = 0;
        while i < n
            invariant
                start.len() == n,
                record@.len() == n,
                i <= n,
                forall|k: int|
                    0 <= k < i ==> (#[trigger] record@[k]).column_id == start[k].column_id
                        && record@[k].value == resolved_value(self.lookup(), start[k].value),
                forall|k: int| i <= k < n ==> #[trigger] record@[k] == start[k],
                failures@ == record_failures(self.lookup(), start, i as nat),
            decreases n - i,
        {
            assert(record@[i as int] == record.fields@[i as int]@);
            let value: ColumnValue = self.resolve_value(&record.fields[i].value, i, &mut failures);
            record.set_value(i, value);
            i = i + 1;
        }
        failures
    }

    /// What resolves the long-value references of this cursor: the file and
    /// the long-value tree of the table.
    pub open spec fn lookup(&self) -> Lookup {
        Lookup {
            file: self.source.data@,
            fmt: self.source.format,
            root: self.schema.long_value_root,
        }
    }

    /// Where the cursor stands.
    pub fn state(&self) -> (r: CursorState)
        ensures
            r == self.state,
    {
        self.state
    }
}

/// Whether key `a`, from byte `i` on, is at most key `b`: keys are ordered
/// as byte strings, a prefix before its extensions.
pub open spec fn key_le_from(a: Seq<u8>, b: Seq<u8>, i: int) -> bool
    decreases a.len() - i,
{
    if i < 0 || i >= a.len() {
        true
    } else if i >= b.len() {
        false
    } else if a[i] != b[i] {
        a[i] < b[i]
    } else {
        key_le_from(a, b, i + 1)
    }
}

/// Whether key `a` is at most key `b`.
pub open spec fn key_le(a: Seq<u8>, b: Seq<u8>) -> bool {
    key_le_from(a, b, 0)
}

/// Compares two keys as byte strings.
pub fn key_at_most(a: &[u8], b: &[u8]) -> (r: bool)
    ensures
        r == key_le(a@, b@),
{
    let n: usize = a.len();
    let m: usize = b.len();
    let mut i: usize = 0;
    while i < n
        invariant
            n == a@.len(),
            m == b@.len(),
            i <= n,
            key_le(a@, b@) == key_le_from(a@, b@, i as int),
        decreases n - i,
    {
        if i >= m {
            return false;
        }
        if a[i] != b[i] {
            return a[i] < b[i];
        }
        i = i + 1;
    }
    true
}

/// Whether a node with key `key` lies before the place that a search for
/// `target` looks for: with `strict`, the keys below the target; without,
/// the keys up to the target.
pub open spec fn before_target(key: Seq<u8>, target: Seq<u8>, strict: bool) -> bool {
    if strict {
        !key_le(target, key)
    } else {
        key_le(key, target)
    }
}

/// The result of the binary search among the nodes `lo..hi` of a page: the
/// index at which the halving ends. `Format` where a node that the search
/// looks at cannot be split.
pub open spec fn search(
    raw: Seq<u8>,
    fmt: PageFormat,
    target: Seq<u8>,
    strict: bool,
    lo: int,
    hi: int,
) -> Result<int, EseError>
    decreases hi - lo,
{
    if lo >= hi {
        Ok(lo)
    } else {
        let mid = lo + (hi - lo) / 2;
        match spec_node(raw, fmt, mid) {
            None => Err(EseError::Format),
            Some(n) => if before_target(n.key, target, strict) {
                search(raw, fmt, target, strict, mid + 1, hi)
            } else {
                search(raw, fmt, target, strict, lo, mid)
            },
        }
    }
}

/// On a page whose nodes are ordered with respect to the target (no node
/// before the target follows a node that is not), the binary search ends at
/// the boundary: every node below the result lies before the target, and no
/// node from the result on does.
pub proof fn lemma_search_finds_boundary(
    raw: Seq<u8>,
    fmt: PageFormat,
    target: Seq<u8>,
    strict: bool,
    lo: int,
    hi: int,
)
    requires
        0 <= lo <= hi <= node_count(raw),
        forall|i: int| lo <= i < hi ==> (#[trigger] spec_node(raw, fmt, i)).is_some(),
        forall|i: int, j: int|
            lo <= i <= j < hi && before_target(
                (#[trigger] spec_node(raw, fmt, j)).unwrap().key,
                target,
                strict,
            ) ==> before_target((#[trigger] spec_node(raw, fmt, i)).unwrap().key, target, strict),
    ensures
        search(raw, fmt, target, strict, lo, hi).is_ok(),
        lo <= search(raw, fmt, target, strict, lo, hi).unwrap() <= hi,
        forall|i: int|
            lo <= i < search(raw, fmt, target, strict, lo, hi).unwrap() ==> before_target(
                (#[trigger] spec_node(raw, fmt, i)).unwrap().key,
                target,
                strict,
            ),
        forall|i: int|
            search(raw, fmt, target, strict, lo, hi).unwrap() <= i < hi ==> !before_target(
                (#[trigger] spec_node(raw, fmt, i)).unwrap().key,
                target,
                strict,
            ),
    decreases hi - lo,
{
    if lo < hi {
        let mid = lo + (hi - lo) / 2;
        let n = spec_node(raw, fmt, mid).unwrap();
        if before_target(n.key, target, strict) {
            lemma_search_finds_boundary(raw, fmt, target, strict, mid + 1, hi);
            let r = search(raw, fmt, target, strict, lo, hi).unwrap();
            assert forall|i: int| lo <= i < r implies before_target(
                (#[trigger] spec_node(raw, fmt, i)).unwrap().key,
                target,
                strict,
            ) by {
                if i <= mid {
                    assert(spec_node(raw, fmt, mid).is_some());
                }
            }
        } else {
            lemma_search_finds_boundary(raw, fmt, target, strict, lo, mid);
            let r = search(raw, fmt, target, strict, lo, hi).unwrap();
            assert forall|i: int| r <= i < hi implies !before_target(
                (#[trigger] spec_node(raw, fmt, i)).unwrap().key,
                target,
                strict,
            ) by {
                if i >= mid {
                    assert(spec_node(raw, fmt, mid).is_some());
                }
            }
        }
    }
}

/// The order of keys is transitive.
pub proof fn lemma_key_le_transitive(a: Seq<u8>, b: Seq<u8>, c: Seq<u8>, i: int)
    requires
        0 <= i,
        key_le_from(a, b, i),
        key_le_from(b, c, i),
    ensures
        key_le_from(a, c, i),
    decreases a.len() - i,
{
    if i < a.len() && a[i] == b[i] && b[i] == c[i] {
        lemma_key_le_transitive(a, b, c, i + 1);
    }
}

/// Whether the keys of the nodes `lo..hi` of a page never descend.
pub open spec fn keys_ascend(raw: Seq<u8>, fmt: PageFormat, lo: int, hi: int) -> bool {
    forall|i: int, j: int|
        lo <= i <= j < hi ==> key_le(
            (#[trigger] spec_node(raw, fmt, i)).unwrap().key,
            (#[trigger] spec_node(raw, fmt, j)).unwrap().key,
        )
}

/// On a page whose keys never descend, the binary search for the greatest
/// key at most the target ends behind that key: every node below the result
/// has a key at most the target, and every node from the result on has a key
/// above it.
pub proof fn lemma_search_on_ordered_page(
    raw: Seq<u8>,
    fmt: PageFormat,
    target: Seq<u8>,
    strict: bool,
)
    requires
        forall|i: int| 0 <= i < node_count(raw) ==> (#[trigger] spec_node(raw, fmt, i)).is_some(),
        keys_ascend(raw, fmt, 0, node_count(raw)),
    ensures
        search(raw, fmt, target, strict, 0, node_count(raw)).is_ok(),
        0 <= search(raw, fmt, target, strict, 0, node_count(raw)).unwrap() <= node_count(raw),
        forall|i: int|
            0 <= i < search(raw, fmt, target, strict, 0, node_count(raw)).unwrap()
                ==> before_target((#[trigger] spec_node(raw, fmt, i)).unwrap().key, target, strict),
        forall|i: int|
            search(raw, fmt, target, strict, 0, node_count(raw)).unwrap() <= i < node_count(raw)
                ==> !before_target(
                (#[trigger] spec_node(raw, fmt, i)).unwrap().key,
                target,
                strict,
            ),
{
    let n = node_count(raw);
    assert forall|i: int, j: int|
        0 <= i <= j < n && before_target(
            (#[trigger] spec_node(raw, fmt, j)).unwrap().key,
            target,
            strict,
        ) implies before_target((#[trigger] spec_node(raw, fmt, i)).unwrap().key, target, strict) by {
        let ki = spec_node(raw, fmt, i).unwrap().key;
        let kj = spec_node(raw, fmt, j).unwrap().key;
        assert(key_le(ki, kj));
        if strict {
            if key_le(target, ki) {
                lemma_key_le_transitive(target, ki, kj, 0);
            }
        } else {
            lemma_key_le_transitive(ki, kj, target, 0);
        }
    }
    lemma_search_finds_boundary(raw, fmt, target, strict, 0, n);
}

/// Searches the nodes of a page for the boundary of `target` by halving.
pub fn search_page(p: &Page, target: &[u8], strict: bool) -> (r: Result<usize, EseError>)
    requires
        p.wf(),
    ensures
        match r {
            Ok(i) => search(p.raw@, p.format, target@, strict, 0, node_count(p.raw@)) == Ok::<
                int,
                EseError,
            >(i as int) && i <= node_count(p.raw@),
            Err(e) => search(p.raw@, p.format, target@, strict, 0, node_count(p.raw@)) == Err::<
                int,
                EseError,
            >(e),
        },
{
    let count: usize = p.node_count();
    let mut lo: usize = 0;
    let mut hi: usize = count;
    while lo < hi
        invariant
            p.wf(),
            count == node_count(p.raw@),
            lo <= hi <= count,
            search(p.raw@, p.format, target@, strict, 0, count as int) == search(
                p.raw@,
                p.format,
                target@,
                strict,
                lo as int,
                hi as int,
            ),
        decreases hi - lo,
    {
        let mid: usize = lo + (hi - lo) / 2;
        let n: Node = match p.node(mid) {
            Ok(n) => n,
            Err(e) => {
                return Err(EseError::Format);
            },
        };
        let before: bool = if strict {
            !key_at_most(target, n.key.as_slice())
        } else {
            key_at_most(n.key.as_slice(), target)
        };
        if before {
            lo = mid + 1;
        } else {
            hi = mid;
        }
    }
    Ok(lo)
}

/// Where a search for `target` from `page` down ends: the leaf and the index
/// of the node at which the rows from the target on start.
///
/// At a branch the child of the last node whose key is at most the target is
/// followed, or the first child where every key is above the target. At the
/// leaf the index is that of the first node whose key is not below the
/// target; it is the number of nodes where every key is below.
pub open spec fn seek_position(
    file: Seq<u8>,
    fmt: PageFormat,
    page: u32,
    target: Seq<u8>,
    fuel: nat,
) -> Result<(u32, int), EseError>
    decreases fuel,
{
    if fuel == 0 || !page_ok(file, fmt, page) {
        Err(EseError::Format)
    } else {
        let raw = page_bytes(file, fmt, page);
        let leaf = flag_set(page_flags(raw), PAGE_FLAG_LEAF as int);
        match search(raw, fmt, target, leaf, 0, node_count(raw)) {
            Err(e) => Err(e),
            Ok(bound) => if leaf {
                Ok((page, bound))
            } else {
                let pick = if bound == 0 {
                    0
                } else {
                    bound - 1
                };
                match spec_node(raw, fmt, pick) {
                    None => Err(EseError::Format),
                    Some(n) => match child_of(n.data) {
                        None => Err(EseError::Format),
                        Some(c) => seek_position(file, fmt, c, target, (fuel - 1) as nat),
                    },
                }
            },
        }
    }
}

/// Descends from `root` to the leaf and the node at which the rows from
/// `target` on start.
pub fn find_position(source: &PageSource, root: u32, target: &[u8], fuel: u64) -> (r: Result<
    (u32, usize),
    EseError,
>)
    ensures
        match r {
            Ok((page, index)) => seek_position(
                source.data@,
                source.format,
                root,
                target@,
                fuel as nat,
            ) == Ok::<(u32, int), EseError>((page, index as int)),
            Err(e) => seek_position(source.data@, source.format, root, target@, fuel as nat)
                == Err::<(u32, int), EseError>(e),
        },
{
    let mut page: u32 = root;
    let mut left: u64 = fuel;
    while left > 0
        invariant
            seek_position(source.data@, source.format, root, target@, fuel as nat)
                == seek_position(source.data@, source.format, page, target@, left as nat),
        decreases left,
    {
        let p: Page = match source.page(page) {
            Ok(p) => p,
            Err(e) => {
                return Err(EseError::Format);
            },
        };
        let leaf: bool = p.is_leaf();
        let bound: usize = match search_page(&p, target, leaf) {
            Ok(b) => b,
            Err(e) => {
                return Err(e);
            },
        };
        if leaf {
            return Ok((page, bound));
        }
        let pick: usize = if bound == 0 {
            0
        } else {
            bound - 1
        };
        let n: Node = match p.node(pick) {
            Ok(n) => n,
            Err(e) => {
                return Err(EseError::Format);
            },
        };
        match n.child_page() {
            Some(c) => {
                page = c;
            },
            None => {
                return Err(EseError::Format);
            },
        }
        left = left - 1;
    }
    Err(EseError::Format)
}

impl<'a> TableCursor<'a> {
    /// Places the cursor at the first row whose key is not below `key`, so
    /// that the next call of `next_row` yields that row, or the first row of
    /// a leaf further right where the leaf found holds no such row.
    ///
    /// Fails with `Format` where a page on the way is missing or invalid or a
    /// node cannot be split; the cursor then stands where it stood.
    pub fn seek(&mut self, key: &[u8]) -> (r: Result<(), EseError>)
        ensures
            final(self).source == old(self).source,
            final(self).schema == old(self).schema,
            final(self).direction == old(self).direction,
            final(self).bound == old(self).bound,
            final(self).page_warning == old(self).page_warning,
            match seek_position(
                old(self).source.data@,
                old(self).source.format,
                old(self).schema.root_page,
                key@,
                old(self).source.data@.len(),
            ) {
                Ok((page, index)) => r.is_ok() && final(self).state == (CursorState::Positioned {
                    page: page,
                    tag_index: index as usize,
                }) && final(self).steps_left == old(self).source.data@.len(),
                Err(e) => r == Err::<(), EseError>(e) && final(self).state == old(self).state
                    && final(self).steps_left == old(self).steps_left,
            },
    {
        let fuel: u64 = self.source.data.len() as u64;
        match find_position(&self.source, self.schema.root_page, key, fuel) {
            Ok((page, index)) => {
                self.state = CursorState::Positioned { page: page, tag_index: index };
                self.steps_left = fuel;
                Ok(())
            },
            Err(e) => Err(e),
        }
    }
}

/// An exhausted cursor stays exhausted: a call of `next_row` yields no row,
/// reports no error and changes neither the state nor the steps left,
/// whatever the file holds and whichever way the cursor walks.
pub proof fn lemma_exhausted_is_final(scan: Scan, fuel: nat)
    ensures
        step(scan, CursorState::Exhausted, fuel) == finish(fuel),
        finish(fuel).state == CursorState::Exhausted,
        finish(fuel).result == Ok::<Option<Seq<FieldView>>, EseError>(None),
{
}

/// Once a call of `next_row` has yielded nothing, every later call yields
/// nothing: the call that returns `Ok(None)` leaves the cursor exhausted.
pub proof fn lemma_none_is_final(scan: Scan, state: CursorState, fuel: nat)
    requires
        step(scan, state, fuel).result == Ok::<Option<Seq<FieldView>>, EseError>(None),
    ensures
        step(scan, state, fuel).state == CursorState::Exhausted,
        step(scan, step(scan, state, fuel).state, step(scan, state, fuel).fuel).result == Ok::<
            Option<Seq<FieldView>>,
            EseError,
        >(None),
    decreases fuel,
{
    let file = scan.file;
    let fmt = scan.fmt;
    let forward = scan.direction is Forward;
    match state {
        CursorState::Exhausted => {},
        CursorState::BeforeFirst | CursorState::AfterLast => {
            if (state is BeforeFirst) == forward && fuel > 0 {
                if let Ok(leaf) = edge_leaf(file, fmt, scan.schema.root_page, scan.direction, fuel) {
                    lemma_none_is_final(scan, entering(scan.direction, leaf), (fuel - 1) as nat);
                }
            }
        },
        CursorState::Positioned { page, tag_index } => {
            if fuel > 0 && page_in_file(file, fmt, page) {
                let raw = page_bytes(file, fmt, page);
                let next = onward(scan, page, fuel);
                let at_end = if forward {
                    tag_index >= node_count(raw)
                } else {
                    tag_index == 0 || node_count(raw) == 0
                };
                if page_valid(raw, fmt) && at_end && !(next is Exhausted) {
                    lemma_none_is_final(scan, next, (fuel - 1) as nat);
                }
            }
        },
    }
}

/// What `calls` calls of `next_row` return, one after the other, on a cursor
/// that stands at `state` with `fuel` steps left.
pub open spec fn walk(scan: Scan, state: CursorState, fuel: nat, calls: nat) -> Seq<
    Result<Option<Seq<FieldView>>, EseError>,
>
    decreases calls,
{
    if calls == 0 {
        Seq::empty()
    } else {
        let s = step(scan, state, fuel);
        seq![s.result] + walk(scan, s.state, s.fuel, (calls - 1) as nat)
    }
}

/// The rows `rows` from row `i` on, each as the result of a call, and behind
/// them the result of the call that finds no row.
pub open spec fn rows_then_none(rows: Seq<Seq<FieldView>>, i: int) -> Seq<
    Result<Option<Seq<FieldView>>, EseError>,
> {
    Seq::new(
        (rows.len() - i + 1) as nat,
        |j: int|
            if i + j < rows.len() {
                Ok(Some(rows[i + j]))
            } else {
                Ok(None)
            },
    )
}

/// Whether the leaf `page` holds exactly the rows `rows` of the table: it is
/// the root page of the table, a valid leaf without right sibling, with one
/// node for each row, and the data of node `i` decodes to row `i` under the
/// schema of the walk.
#[verifier::opaque]
pub open spec fn leaf_holds(scan: Scan, page: u32, rows: Seq<Seq<FieldView>>) -> bool {
    let raw = page_bytes(scan.file, scan.fmt, page);
    &&& page == scan.schema.root_page
    &&& page_ok(scan.file, scan.fmt, page)
    &&& flag_set(page_flags(raw), PAGE_FLAG_LEAF as int)
    &&& next_page(raw) == 0
    &&& node_count(raw) == rows.len()
    &&& forall|i: int|
        0 <= i < rows.len() ==> (#[trigger] spec_node(raw, scan.fmt, i)).is_some() && row_of(
            scan.schema,
            spec_node(raw, scan.fmt, i).unwrap().data,
        ) == Ok::<Option<Seq<FieldView>>, EseError>(Some(rows[i]))
}

/// One call of `next_row` on a forward cursor without bound that stands at
/// node `i` of a leaf that holds the rows `rows`: row `i` and the move to
/// the next node, or nothing behind the last row.
pub proof fn lemma_step_on_leaf(
    scan: Scan,
    page: u32,
    rows: Seq<Seq<FieldView>>,
    i: int,
    fuel: nat,
)
    requires
        scan.direction is Forward,
        scan.bound.is_none(),
        leaf_holds(scan, page, rows),
        0 <= i <= rows.len(),
        fuel > 0,
    ensures
        ({
            let s = step(scan, CursorState::Positioned { page: page, tag_index: i as usize }, fuel);
            if i < rows.len() {
                &&& s.state == CursorState::Positioned { page: page, tag_index: (i + 1) as usize }
                &&& s.fuel == fuel - 1
                &&& s.result == Ok::<Option<Seq<FieldView>>, EseError>(Some(rows[i]))
            } else {
                &&& s.state == CursorState::Exhausted
                &&& s.result == Ok::<Option<Seq<FieldView>>, EseError>(None)
            }
        }),
{
    reveal(leaf_holds);
    let raw = page_bytes(scan.file, scan.fmt, page);
    assert(raw.len() >= 24);
    if i < rows.len() {
        assert(spec_node(raw, scan.fmt, i).is_some());
    }
}

/// A forward cursor without bound that stands at node `i` of a leaf that
/// holds the rows `rows` yields the rows from `i` on in stored order, one for
/// each call, and nothing on the call behind the last.
pub proof fn lemma_walk_of_leaf(
    scan: Scan,
    page: u32,
    rows: Seq<Seq<FieldView>>,
    i: int,
    fuel: nat,
)
    requires
        scan.direction is Forward,
        scan.bound.is_none(),
        leaf_holds(scan, page, rows),
        0 <= i <= rows.len(),
        fuel > rows.len() - i,
    ensures
        walk(
            scan,
            CursorState::Positioned { page: page, tag_index: i as usize },
            fuel,
            (rows.len() - i + 1) as nat,
        ) == rows_then_none(rows, i),
    decreases rows.len() - i,
{
    let state = CursorState::Positioned { page: page, tag_index: i as usize };
    let calls = (rows.len() - i + 1) as nat;
    let s = step(scan, state, fuel);
    lemma_step_on_leaf(scan, page, rows, i, fuel);
    if i < rows.len() {
        lemma_walk_of_leaf(scan, page, rows, i + 1, (fuel - 1) as nat);
        let rest = walk(scan, s.state, s.fuel, (calls - 1) as nat);
        assert(rest == rows_then_none(rows, i + 1));
        assert(seq![s.result] + rest =~= rows_then_none(rows, i));
    } else {
        assert(walk(scan, s.state, s.fuel, 0) =~= Seq::empty());
        assert(seq![s.result] + walk(scan, s.state, s.fuel, 0) =~= rows_then_none(rows, i));
    }
}

/// The rows of a table of one leaf: a forward cursor without bound, opened
/// on a table whose root page is a leaf that holds the rows `rows`, yields
/// them in stored order, one for each call of `next_row`, and nothing on the
/// call behind the last.
pub proof fn lemma_walk_of_table(scan: Scan, rows: Seq<Seq<FieldView>>, fuel: nat)
    requires
        scan.direction is Forward,
        scan.bound.is_none(),
        leaf_holds(scan, scan.schema.root_page, rows),
        fuel > rows.len() + 1,
    ensures
        walk(scan, CursorState::BeforeFirst, fuel, (rows.len() + 1) as nat) == rows_then_none(
            rows,
            0,
        ),
{
    reveal(leaf_holds);
    let root = scan.schema.root_page;
    let first = CursorState::Positioned { page: root, tag_index: 0 };
    assert(edge_leaf(scan.file, scan.fmt, root, scan.direction, fuel) == Ok::<u32, EseError>(root));
    assert(step(scan, CursorState::BeforeFirst, fuel) == step(scan, first, (fuel - 1) as nat));
    lemma_walk_of_leaf(scan, root, rows, 0, (fuel - 1) as nat);
    let calls = (rows.len() + 1) as nat;
    assert(walk(scan, CursorState::BeforeFirst, fuel, calls) =~= walk(
        scan,
        first,
        (fuel - 1) as nat,
        calls,
    ));
}

/// What the nodes `i..j` of a page add to long value `id`, joined in
/// stored order.
pub open spec fn pieces(raw: Seq<u8>, fmt: PageFormat, id: u32, i: int, j: int) -> Seq<u8>
    decreases j - i,
{
    if i >= j {
        Seq::empty()
    } else {
        piece(spec_node(raw, fmt, i).unwrap(), id) + pieces(raw, fmt, id, i + 1, j)
    }
}

/// Whether the nodes `i..j` of a page can be read and all belong to long
/// value `id`.
pub open spec fn run_of(raw: Seq<u8>, fmt: PageFormat, id: u32, i: int, j: int) -> bool {
    &&& 0 <= i <= j <= node_count(raw)
    &&& forall|k: int|
        i <= k < j ==> (#[trigger] spec_node(raw, fmt, k)).is_some() && belongs_to(
            spec_node(raw, fmt, k).unwrap().key,
            id,
        )
}

/// Whether long value `id` ends at node `j` of leaf `page`: the leaf ends
/// there and has no right sibling, or node `j` belongs to another value.
pub open spec fn ends_at(file: Seq<u8>, fmt: PageFormat, id: u32, page: u32, j: int) -> bool {
    let raw = page_bytes(file, fmt, page);
    &&& page_ok(file, fmt, page)
    &&& 0 <= j <= node_count(raw)
    &&& if j == node_count(raw) {
        next_page(raw) == 0
    } else {
        spec_node(raw, fmt, j).is_some() && !belongs_to(spec_node(raw, fmt, j).unwrap().key, id)
    }
}

/// Over a run of nodes that belong to a long value, gathering the value adds
/// what each node adds, in stored order, and goes on behind the run.
pub proof fn lemma_segments_run(
    file: Seq<u8>,
    fmt: PageFormat,
    id: u32,
    page: u32,
    i: int,
    j: int,
    fuel: nat,
)
    requires
        page_ok(file, fmt, page),
        run_of(page_bytes(file, fmt, page), fmt, id, i, j),
        fuel >= j - i,
    ensures
        segments_from(file, fmt, id, page, i, fuel) == join(
            pieces(page_bytes(file, fmt, page), fmt, id, i, j),
            segments_from(file, fmt, id, page, j, (fuel - (j - i)) as nat),
        ),
    decreases j - i,
{
    let raw = page_bytes(file, fmt, page);
    if i < j {
        assert(spec_node(raw, fmt, i).is_some());
        lemma_segments_step(file, fmt, id, page, i, fuel);
        lemma_segments_run(file, fmt, id, page, i + 1, j, (fuel - 1) as nat);
        lemma_join_twice(
            piece(spec_node(raw, fmt, i).unwrap(), id),
            pieces(raw, fmt, id, i + 1, j),
            segments_from(file, fmt, id, page, j, (fuel - (j - i)) as nat),
        );
    } else {
        let rest = segments_from(file, fmt, id, page, j, fuel);
        if let Ok(r) = rest {
            assert(Seq::<u8>::empty() + r =~= r);
        }
    }
}

/// Where a long value ends, gathering adds nothing more: no byte is taken
/// from the nodes of another value.
pub proof fn lemma_segments_end(
    file: Seq<u8>,
    fmt: PageFormat,
    id: u32,
    page: u32,
    j: int,
    fuel: nat,
)
    requires
        ends_at(file, fmt, id, page, j),
        fuel > 0,
    ensures
        segments_from(file, fmt, id, page, j, fuel) == Ok::<Seq<u8>, EseError>(Seq::empty()),
{
    lemma_segments_step(file, fmt, id, page, j, fuel);
}

/// A long value of two segments on one leaf: where nodes `i` and `i + 1` are
/// segments of long value `id` and the value ends behind them, the value
/// gathered from node `i` on is the data of the first segment followed by
/// the data of the second, and nothing else.
pub proof fn lemma_two_segments(
    file: Seq<u8>,
    fmt: PageFormat,
    id: u32,
    page: u32,
    i: int,
    fuel: nat,
)
    requires
        page_ok(file, fmt, page),
        0 <= i,
        i + 2 <= node_count(page_bytes(file, fmt, page)),
        spec_node(page_bytes(file, fmt, page), fmt, i).is_some(),
        spec_node(page_bytes(file, fmt, page), fmt, i + 1).is_some(),
        segment_of(spec_node(page_bytes(file, fmt, page), fmt, i).unwrap().key, id),
        segment_of(spec_node(page_bytes(file, fmt, page), fmt, i + 1).unwrap().key, id),
        ends_at(file, fmt, id, page, i + 2),
        fuel >= 3,
    ensures
        segments_from(file, fmt, id, page, i, fuel) == Ok::<Seq<u8>, EseError>(
            spec_node(page_bytes(file, fmt, page), fmt, i).unwrap().data + spec_node(
                page_bytes(file, fmt, page),
                fmt,
                i + 1,
            ).unwrap().data,
        ),
{
    let raw = page_bytes(file, fmt, page);
    let d0 = spec_node(raw, fmt, i).unwrap().data;
    let d1 = spec_node(raw, fmt, i + 1).unwrap().data;
    assert(run_of(raw, fmt, id, i, i + 2)) by {
        assert forall|k: int| i <= k < i + 2 implies (#[trigger] spec_node(raw, fmt, k)).is_some()
            && belongs_to(spec_node(raw, fmt, k).unwrap().key, id) by {
            if k == i {
            } else {
                assert(k == i + 1);
            }
        }
    }
    lemma_segments_run(file, fmt, id, page, i, i + 2, fuel);
    lemma_segments_end(file, fmt, id, page, i + 2, (fuel - 2) as nat);
    assert(pieces(raw, fmt, id, i, i + 2) =~= d0 + d1) by {
        assert(pieces(raw, fmt, id, i + 2, i + 2) =~= Seq::<u8>::empty());
        assert(pieces(raw, fmt, id, i + 1, i + 2) =~= d1);
    }
    assert((d0 + d1) + Seq::<u8>::empty() =~= d0 + d1);
}

/// A long value of two segments on two leaves: where the last node of leaf
/// `page` and the first node of its right sibling are segments of long value
/// `id` and the value ends behind the second, the value gathered from the
/// first on is the data of the first segment followed by the data of the
/// second, and nothing else.
pub proof fn lemma_two_segments_on_two_leaves(
    file: Seq<u8>,
    fmt: PageFormat,
    id: u32,
    page: u32,
    fuel: nat,
)
    requires
        page_ok(file, fmt, page),
        node_count(page_bytes(file, fmt, page)) >= 1,
        next_page(page_bytes(file, fmt, page)) != 0,
        page_ok(file, fmt, next_page(page_bytes(file, fmt, page)) as u32),
        node_count(page_bytes(file, fmt, next_page(page_bytes(file, fmt, page)) as u32)) >= 1,
        spec_node(
            page_bytes(file, fmt, page),
            fmt,
            node_count(page_bytes(file, fmt, page)) - 1,
        ).is_some(),
        spec_node(
            page_bytes(file, fmt, next_page(page_bytes(file, fmt, page)) as u32),
            fmt,
            0,
        ).is_some(),
        segment_of(
            spec_node(
                page_bytes(file, fmt, page),
                fmt,
                node_count(page_bytes(file, fmt, page)) - 1,
            ).unwrap().key,
            id,
        ),
        segment_of(
            spec_node(
                page_bytes(file, fmt, next_page(page_bytes(file, fmt, page)) as u32),
                fmt,
                0,
            ).unwrap().key,
            id,
        ),
        ends_at(file, fmt, id, next_page(page_bytes(file, fmt, page)) as u32, 1),
        fuel >= 4,
    ensures
        segments_from(
            file,
            fmt,
            id,
            page,
            node_count(page_bytes(file, fmt, page)) - 1,
            fuel,
        ) == Ok::<Seq<u8>, EseError>(
            spec_node(
                page_bytes(file, fmt, page),
                fmt,
                node_count(page_bytes(file, fmt, page)) - 1,
            ).unwrap().data + spec_node(
                page_bytes(file, fmt, next_page(page_bytes(file, fmt, page)) as u32),
                fmt,
                0,
            ).unwrap().data,
        ),
{
    let raw = page_bytes(file, fmt, page);
    let last = node_count(raw) - 1;
    let next = next_page(raw) as u32;
    let raw1 = page_bytes(file, fmt, next);
    let d0 = spec_node(raw, fmt, last).unwrap().data;
    let d1 = spec_node(raw1, fmt, 0).unwrap().data;
    lemma_segments_step(file, fmt, id, page, last, fuel);
    lemma_segments_step(file, fmt, id, page, last + 1, (fuel - 1) as nat);
    lemma_segments_step(file, fmt, id, next, 0, (fuel - 2) as nat);
    lemma_segments_end(file, fmt, id, next, 1, (fuel - 3) as nat);
    assert(d1 + Seq::<u8>::empty() =~= d1);
}

/// The bytes of a long value are what is gathered from the place where the
/// search for its key ends: where that gives bytes, they are the value.
pub proof fn lemma_long_value_found(
    file: Seq<u8>,
    fmt: PageFormat,
    root: u32,
    id: u32,
    fuel: nat,
    leaf: u32,
    index: int,
    bytes: Seq<u8>,
)
    requires
        seek_position(file, fmt, root, value_key(id), fuel) == Ok::<(u32, int), EseError>(
            (leaf, index),
        ),
        segments_from(file, fmt, id, leaf, index, fuel) == Ok::<Seq<u8>, EseError>(bytes),
        bytes.len() > 0,
    ensures
        long_value(file, fmt, root, id, fuel) == Ok::<Seq<u8>, EseError>(bytes),
{
}

} // verus!
