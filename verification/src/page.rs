//! The page layer: from one fixed-size page buffer to its header fields, its
//! tags and the key and data of each node.
//!
//! A page starts with a header of 40 bytes (80 in the extended layout of large
//! pages). The nodes grow forward from the end of the header. The last four
//! bytes of the page describe the key prefix that the nodes of the page
//! share. The tag array grows backward from there: tag `i` occupies the four
//! bytes that end `4 * (i + 1)` bytes before the end of the page and holds the
//! size and the offset of the bytes of node `i`. A page with N tags has N
//! nodes.
use crate::constants::{
    flag_set, has_flag, NODE_FLAG_COMMON_KEY, NODE_FLAG_DEFUNCT, PAGE_FLAG_EMPTY, PAGE_FLAG_INDEX, PAGE_FLAG_LEAF,
    PAGE_FLAG_LONG_VALUE, PAGE_FLAG_PARENT, PAGE_FLAG_ROOT, PAGE_FLAG_SPACE_TREE,
    PAGE_HEADER_LEN, PAGE_HEADER_LEN_EXTENDED, REVISION_ECC_CHECKSUM, REVISION_EXTENDED_PAGE,
    SMALL_PAGE_LIMIT,
};
use crate::error::EseError;
use crate::header::{
    checksum_words, is_supported_page_size, lemma_damage_changes_checksum,
    supported_page_size, xor_words,
};
use crate::utils::{append_range, copy_range, le_u16, le_u32, le_u64, read_u16_le, read_u32_le, read_u64_le};
use vstd::prelude::*;
use vstd::slice::slice_subrange;

verus! {

/// What decides the layout of a page: the page size and the format revision
/// of the file.
#[derive(Clone, Copy, Debug, PartialEq, Eq, Structural)]
pub struct PageFormat {
    pub page_size: u32,
    pub revision: u32,
}

/// One entry of the tag array: the bytes it addresses, relative to the end of
/// the page header, and the flags of the node.
#[derive(Clone, Copy, Debug, PartialEq, Eq, Structural)]
pub struct Tag {
    pub offset: u16,
    pub size: u16,
    pub flags: u8,
}

/// What the nodes of a page hold.
#[derive(Clone, Copy, Debug, PartialEq, Eq, Structural)]
pub enum PageKind {
    /// Child page numbers: the page is no leaf.
    Branch,
    /// Rows of a table.
    Records,
    /// Entries of an index.
    IndexEntries,
    /// Segments of long values.
    LongValues,
    /// Extents of a space tree.
    SpaceTree,
}

/// What the nodes of a page with the flags `flags` hold.
pub open spec fn kind_of(flags: int) -> PageKind {
    if !flag_set(flags, PAGE_FLAG_LEAF as int) {
        PageKind::Branch
    } else if flag_set(flags, PAGE_FLAG_SPACE_TREE as int) {
        PageKind::SpaceTree
    } else if flag_set(flags, PAGE_FLAG_INDEX as int) {
        PageKind::IndexEntries
    } else if flag_set(flags, PAGE_FLAG_LONG_VALUE as int) {
        PageKind::LongValues
    } else {
        PageKind::Records
    }
}

/// Whether pages of this format use the extended layout.
pub open spec fn extended(fmt: PageFormat) -> bool {
    fmt.revision >= REVISION_EXTENDED_PAGE && fmt.page_size > SMALL_PAGE_LIMIT
}

/// The length of the page header.
pub open spec fn header_len(fmt: PageFormat) -> int {
    if extended(fmt) {
        PAGE_HEADER_LEN_EXTENDED as int
    } else {
        PAGE_HEADER_LEN as int
    }
}

/// One more than the largest size or offset that a tag can hold.
pub open spec fn tag_modulus(fmt: PageFormat) -> int {
    if extended(fmt) {
        0x8000
    } else {
        0x2000
    }
}

/// The number of tags of the page: one for each node.
pub open spec fn tag_count(raw: Seq<u8>) -> int {
    le_u16(raw, 34)
}

/// Where the descriptor of the shared key prefix is stored: the last four
/// bytes of the page.
pub open spec fn prefix_pos(fmt: PageFormat) -> int {
    fmt.page_size - 4
}

/// Where tag `i` is stored.
pub open spec fn tag_pos(fmt: PageFormat, i: int) -> int {
    fmt.page_size - 4 * (i + 2)
}

/// The number of bytes that the descriptor at `pos` addresses.
pub open spec fn desc_size(raw: Seq<u8>, fmt: PageFormat, pos: int) -> int {
    le_u16(raw, pos) % tag_modulus(fmt)
}

/// Where the bytes of the descriptor at `pos` start, relative to the end of
/// the page header.
pub open spec fn desc_offset(raw: Seq<u8>, fmt: PageFormat, pos: int) -> int {
    le_u16(raw, pos + 2) % tag_modulus(fmt)
}

/// Where the bytes of the descriptor at `pos` start within the page.
pub open spec fn desc_start(raw: Seq<u8>, fmt: PageFormat, pos: int) -> int {
    header_len(fmt) + desc_offset(raw, fmt, pos)
}

/// Where the descriptors start: the end of the room for node bytes.
pub open spec fn data_limit(raw: Seq<u8>, fmt: PageFormat) -> int {
    fmt.page_size - 4 * (tag_count(raw) + 1)
}

/// Whether the bytes of the descriptor at `pos` lie between the page header
/// and the descriptors.
pub open spec fn desc_in_page(raw: Seq<u8>, fmt: PageFormat, pos: int) -> bool {
    desc_start(raw, fmt, pos) + desc_size(raw, fmt, pos) <= data_limit(raw, fmt)
}

/// The flags of the descriptor at `pos`: the top three bits of the offset
/// word, or in the extended layout the top three bits of the second byte
/// addressed, where the page holds that byte.
pub open spec fn desc_flags(raw: Seq<u8>, fmt: PageFormat, pos: int) -> int {
    if extended(fmt) {
        if desc_in_page(raw, fmt, pos) && desc_size(raw, fmt, pos) >= 2 {
            raw[desc_start(raw, fmt, pos) + 1] as int / 32
        } else {
            0
        }
    } else {
        le_u16(raw, pos + 2) / 0x2000
    }
}

/// The bytes that the descriptor at `pos` addresses.
pub open spec fn desc_bytes(raw: Seq<u8>, fmt: PageFormat, pos: int) -> Seq<u8> {
    raw.subrange(desc_start(raw, fmt, pos), desc_start(raw, fmt, pos) + desc_size(raw, fmt, pos))
}

/// The descriptor at `pos`.
pub open spec fn spec_desc(raw: Seq<u8>, fmt: PageFormat, pos: int) -> Tag {
    Tag {
        offset: desc_offset(raw, fmt, pos) as u16,
        size: desc_size(raw, fmt, pos) as u16,
        flags: desc_flags(raw, fmt, pos) as u8,
    }
}

/// The number of bytes that tag `i` addresses.
pub open spec fn tag_size(raw: Seq<u8>, fmt: PageFormat, i: int) -> int {
    desc_size(raw, fmt, tag_pos(fmt, i))
}

/// Where the bytes of tag `i` start within the page.
pub open spec fn tag_start(raw: Seq<u8>, fmt: PageFormat, i: int) -> int {
    desc_start(raw, fmt, tag_pos(fmt, i))
}

/// The flags of tag `i`.
pub open spec fn tag_flags(raw: Seq<u8>, fmt: PageFormat, i: int) -> int {
    desc_flags(raw, fmt, tag_pos(fmt, i))
}

/// Whether the bytes of tag `i` lie inside the page, between the page header
/// and the descriptors.
pub open spec fn tag_in_page(raw: Seq<u8>, fmt: PageFormat, i: int) -> bool {
    desc_in_page(raw, fmt, tag_pos(fmt, i))
}

/// The bytes that tag `i` addresses.
pub open spec fn tag_bytes(raw: Seq<u8>, fmt: PageFormat, i: int) -> Seq<u8> {
    desc_bytes(raw, fmt, tag_pos(fmt, i))
}

/// Tag `i` of the page.
pub open spec fn spec_tag(raw: Seq<u8>, fmt: PageFormat, i: int) -> Tag {
    spec_desc(raw, fmt, tag_pos(fmt, i))
}

/// Whether `raw` has the structure of a page: the size of one, and a tag
/// array that leaves room for the page header. A tag that addresses bytes
/// outside the page does not make the page invalid: it makes its node
/// unreadable.
pub open spec fn page_valid(raw: Seq<u8>, fmt: PageFormat) -> bool {
    &&& supported_page_size(fmt.page_size as int)
    &&& raw.len() == fmt.page_size
    &&& header_len(fmt) + 4 * (tag_count(raw) + 1) <= fmt.page_size
}

/// Where the checksum-covered region of a page starts.
pub open spec fn checksum_start(fmt: PageFormat) -> int {
    if fmt.revision < REVISION_ECC_CHECKSUM {
        4
    } else {
        8
    }
}

/// The checksum recomputed over the covered region of the page.
pub open spec fn page_checksum(raw: Seq<u8>, fmt: PageFormat) -> u32 {
    xor_words(raw, checksum_start(fmt), ((fmt.page_size - checksum_start(fmt)) / 4) as nat)
}

/// The flags of the page.
pub open spec fn page_flags(raw: Seq<u8>) -> int {
    le_u32(raw, 36)
}

/// The number of the leaf to the right of the page; zero where there is none.
pub open spec fn next_page(raw: Seq<u8>) -> int {
    le_u32(raw, 20)
}

/// The number of the leaf to the left of the page; zero where there is none.
pub open spec fn previous_page(raw: Seq<u8>) -> int {
    le_u32(raw, 16)
}

/// The number of the leaf beside the page in the direction of a walk, read
/// from the page header whatever the rest of the page holds; zero where
/// there is none or the buffer is too short to name one.
pub open spec fn sibling_of(raw: Seq<u8>, forward: bool) -> int {
    if raw.len() < 24 {
        0
    } else if forward {
        next_page(raw)
    } else {
        previous_page(raw)
    }
}

/// Reads the number of the leaf beside a page from its header.
pub fn read_sibling(raw: &[u8], forward: bool) -> (r: u32)
    ensures
        r == sibling_of(raw@, forward),
{
    let at: usize = if forward {
        20
    } else {
        16
    };
    if raw.len() < 24 {
        0
    } else {
        read_u32_le(raw, at).unwrap()
    }
}

/// The checksum mismatch of page `number`, where the stored checksum is not
/// the recomputed one.
pub open spec fn page_report(raw: Seq<u8>, fmt: PageFormat, number: u32) -> Option<EseError> {
    if le_u32(raw, 0) == page_checksum(raw, fmt) {
        None
    } else {
        Some(
            EseError::PageChecksum {
                page: number,
                stored: le_u32(raw, 0) as u32,
                computed: page_checksum(raw, fmt),
            },
        )
    }
}

/// The number of nodes of the page: the number of its tags.
pub open spec fn node_count(raw: Seq<u8>) -> int {
    tag_count(raw)
}

/// The key prefix that the nodes of the page share: the bytes that the
/// prefix descriptor addresses. A root page has none, nor has a page whose
/// prefix descriptor addresses bytes outside the page.
pub open spec fn key_prefix(raw: Seq<u8>, fmt: PageFormat) -> Seq<u8> {
    if flag_set(page_flags(raw), PAGE_FLAG_ROOT as int) || !desc_in_page(
        raw,
        fmt,
        prefix_pos(fmt),
    ) {
        Seq::empty()
    } else {
        desc_bytes(raw, fmt, prefix_pos(fmt))
    }
}

/// The mathematical value of a node: its full key, its data with the place
/// of the data in the page, and its flags.
pub ghost struct NodeView {
    pub key: Seq<u8>,
    pub data_start: int,
    pub data: Seq<u8>,
    pub flags: u8,
}

/// A key-size word of a node, without the flag bits that the extended layout
/// keeps in it.
pub open spec fn size_word(fmt: PageFormat, word: int) -> int {
    if extended(fmt) {
        word % 0x2000
    } else {
        word
    }
}

/// The node stored in the bytes `d`, which start at `start` within the page:
/// `None` where the key sizes of the node exceed its bytes or the prefix.
pub open spec fn split_node(
    d: Seq<u8>,
    start: int,
    prefix: Seq<u8>,
    flags: int,
    fmt: PageFormat,
) -> Option<NodeView> {
    if flag_set(flags, NODE_FLAG_COMMON_KEY as int) {
        if d.len() < 4 {
            None
        } else {
            let shared = size_word(fmt, le_u16(d, 0));
            let local = le_u16(d, 2);
            if shared > prefix.len() || 4 + local > d.len() {
                None
            } else {
                Some(
                    NodeView {
                        key: prefix.subrange(0, shared) + d.subrange(4, 4 + local),
                        data_start: start + 4 + local,
                        data: d.subrange(4 + local, d.len() as int),
                        flags: flags as u8,
                    },
                )
            }
        }
    } else {
        if d.len() < 2 {
            None
        } else {
            let local = size_word(fmt, le_u16(d, 0));
            if 2 + local > d.len() {
                None
            } else {
                Some(
                    NodeView {
                        key: d.subrange(2, 2 + local),
                        data_start: start + 2 + local,
                        data: d.subrange(2 + local, d.len() as int),
                        flags: flags as u8,
                    },
                )
            }
        }
    }
}

/// Node `i` of a valid page: `None` where `i` is no node of the page, where
/// its tag addresses bytes outside the page, or where the key sizes of the
/// node exceed its bytes or the page's prefix.
pub open spec fn spec_node(raw: Seq<u8>, fmt: PageFormat, i: int) -> Option<NodeView> {
    if i < 0 || i >= node_count(raw) || !tag_in_page(raw, fmt, i) {
        None
    } else {
        split_node(
            tag_bytes(raw, fmt, i),
            tag_start(raw, fmt, i),
            key_prefix(raw, fmt),
            tag_flags(raw, fmt, i),
            fmt,
        )
    }
}

/// Splits the bytes of one node into key and data.
fn read_node<'a>(d: &'a [u8], start: usize, prefix: &[u8], flags: u8, fmt: PageFormat) -> (r:
    Result<Node<'a>, EseError>)
    requires
        start + d@.len() <= usize::MAX,
    ensures
        match r {
            Ok(n) => split_node(d@, start as int, prefix@, flags as int, fmt) == Some(n@)
                && start <= n.data_start <= start + d@.len() && n.data@ == d@.subrange(
                n.data_start - start,
                d@.len() as int,
            ),
            Err(e) => e == EseError::Format && split_node(
                d@,
                start as int,
                prefix@,
                flags as int,
                fmt,
            ).is_none(),
        },
{
    let len: usize = d.len();
    let wide: bool = is_extended(fmt);
    if has_flag(flags as u32, NODE_FLAG_COMMON_KEY as u32) {
        if len < 4 {
            return Err(EseError::Format);
        }
        let first: u16 = read_u16_le(d, 0).unwrap();
        let shared: usize = if wide {
            (first % 0x2000) as usize
        } else {
            first as usize
        };
        let local: usize = read_u16_le(d, 2).unwrap() as usize;
        if shared > prefix.len() || local > len - 4 {
            return Err(EseError::Format);
        }
        let mut key: Vec<u8> = copy_range(prefix, 0, shared);
        append_range(&mut key, d, 4, local);
        let data: &'a [u8] = slice_subrange(d, 4 + local, len);
        Ok(Node { key: key, data_start: start + 4 + local, data: data, flags: flags })
    } else {
        if len < 2 {
            return Err(EseError::Format);
        }
        let first: u16 = read_u16_le(d, 0).unwrap();
        let local: usize = if wide {
            (first % 0x2000) as usize
        } else {
            first as usize
        };
        if local > len - 2 {
            return Err(EseError::Format);
        }
        let key: Vec<u8> = copy_range(d, 2, local);
        let data: &'a [u8] = slice_subrange(d, 2 + local, len);
        Ok(Node { key: key, data_start: start + 2 + local, data: data, flags: flags })
    }
}

/// The child page that the data of a branch node names.
pub open spec fn child_of(data: Seq<u8>) -> Option<u32> {
    if data.len() >= 4 {
        Some(le_u32(data, 0) as u32)
    } else {
        None
    }
}

/// One node of a page.
#[derive(Debug, PartialEq, Eq)]
pub struct Node<'a> {
    /// The full key: the shared prefix followed by the node's own bytes.
    pub key: Vec<u8>,
    /// Where the data starts within the page.
    pub data_start: usize,
    /// The data: a record on a leaf, a child page number on a branch.
    pub data: &'a [u8],
    pub flags: u8,
}

impl<'a> View for Node<'a> {
    type V = NodeView;

    open spec fn view(&self) -> NodeView {
        NodeView {
            key: self.key@,
            data_start: self.data_start as int,
            data: self.data@,
            flags: self.flags,
        }
    }
}

impl<'a> Node<'a> {
    /// Whether the node is marked as deleted.
    pub fn is_defunct(&self) -> (r: bool)
        ensures
            r == flag_set(self.flags as int, NODE_FLAG_DEFUNCT as int),
    {
        has_flag(self.flags as u32, NODE_FLAG_DEFUNCT as u32)
    }

    /// The child page of a branch node; `None` where the data is too short to
    /// name one.
    pub fn child_page(&self) -> (r: Option<u32>)
        ensures
            r == child_of(self.data@),
    {
        read_u32_le(self.data, 0)
    }
}

/// A decoded page: the header fields, the descriptor of the shared key
/// prefix, the tag array with one tag for each node, and the buffer that
/// they address.
#[derive(Debug)]
pub struct Page<'a> {
    pub number: u32,
    pub format: PageFormat,
    pub raw: &'a [u8],
    pub stored_checksum: u32,
    pub computed_checksum: u32,
    pub last_modified: u64,
    pub previous_page: u32,
    pub next_page: u32,
    pub father_data_page: u32,
    pub available_data_size: u16,
    pub available_uncommitted: u16,
    pub first_available_offset: u16,
    pub flags: u32,
    /// The descriptor of the key prefix that the nodes share.
    pub prefix: Tag,
    /// The tags of the nodes: tag `i` addresses the bytes of node `i`.
    pub tags: Vec<Tag>,
}

impl<'a> Page<'a> {
    /// The validity of a page value: its buffer is a valid page and every
    /// field holds what the buffer stores.
    pub open spec fn wf(&self) -> bool {
        &&& page_valid(self.raw@, self.format)
        &&& self.stored_checksum == le_u32(self.raw@, 0)
        &&& self.computed_checksum == page_checksum(self.raw@, self.format)
        &&& self.last_modified == le_u64(self.raw@, 8)
        &&& self.previous_page == previous_page(self.raw@)
        &&& self.next_page == next_page(self.raw@)
        &&& self.father_data_page == le_u32(self.raw@, 24)
        &&& self.available_data_size == le_u16(self.raw@, 28)
        &&& self.available_uncommitted == le_u16(self.raw@, 30)
        &&& self.first_available_offset == le_u16(self.raw@, 32)
        &&& self.flags == page_flags(self.raw@)
        &&& self.prefix == spec_desc(self.raw@, self.format, prefix_pos(self.format))
        &&& self.tags@.len() == tag_count(self.raw@)
        &&& forall|i: int|
            0 <= i < self.tags@.len() ==> #[trigger] self.tags@[i] == spec_tag(
                self.raw@,
                self.format,
                i,
            )
    }

    /// Whether the stored checksum is the recomputed one.
    pub open spec fn spec_checksum_ok(&self) -> bool {
        self.stored_checksum == self.computed_checksum
    }

    /// Whether the stored checksum is the recomputed one.
    #[verifier::when_used_as_spec(spec_checksum_ok)]
    pub fn checksum_ok(&self) -> (r: bool)
        ensures
            r == self.spec_checksum_ok(),
    {
        self.stored_checksum == self.computed_checksum
    }

    /// The checksum mismatch of the page, if there is one. The page is
    /// decoded and usable either way.
    pub fn checksum_error(&self) -> (r: Option<EseError>)
        ensures
            self.wf() ==> r == page_report(self.raw@, self.format, self.number),
            r == if self.spec_checksum_ok() {
                None::<EseError>
            } else {
                Some(
                    EseError::PageChecksum {
                        page: self.number,
                        stored: self.stored_checksum,
                        computed: self.computed_checksum,
                    },
                )
            },
    {
        if self.stored_checksum == self.computed_checksum {
            None
        } else {
            Some(
                EseError::PageChecksum {
                    page: self.number,
                    stored: self.stored_checksum,
                    computed: self.computed_checksum,
                },
            )
        }
    }

    /// Whether the page is the root of its tree.
    pub fn is_root(&self) -> (r: bool)
        ensures
            r == flag_set(self.flags as int, PAGE_FLAG_ROOT as int),
    {
        has_flag(self.flags, PAGE_FLAG_ROOT)
    }

    /// Whether the page is a leaf: its nodes hold records or long-value
    /// segments, not child pages.
    pub fn is_leaf(&self) -> (r: bool)
        ensures
            r == flag_set(self.flags as int, PAGE_FLAG_LEAF as int),
    {
        has_flag(self.flags, PAGE_FLAG_LEAF)
    }

    /// Whether the page is a branch: its nodes name child pages.
    pub fn is_branch(&self) -> (r: bool)
        ensures
            r == flag_set(self.flags as int, PAGE_FLAG_PARENT as int),
    {
        has_flag(self.flags, PAGE_FLAG_PARENT)
    }

    /// Whether the page belongs to a long-value tree.
    pub fn is_long_value(&self) -> (r: bool)
        ensures
            r == flag_set(self.flags as int, PAGE_FLAG_LONG_VALUE as int),
    {
        has_flag(self.flags, PAGE_FLAG_LONG_VALUE)
    }

    /// Whether the page belongs to a space tree.
    pub fn is_space_tree(&self) -> (r: bool)
        ensures
            r == flag_set(self.flags as int, PAGE_FLAG_SPACE_TREE as int),
    {
        has_flag(self.flags, PAGE_FLAG_SPACE_TREE)
    }

    /// Whether the page belongs to an index.
    pub fn is_index(&self) -> (r: bool)
        ensures
            r == flag_set(self.flags as int, PAGE_FLAG_INDEX as int),
    {
        has_flag(self.flags, PAGE_FLAG_INDEX)
    }

    /// Whether the page is marked as holding no nodes.
    pub fn is_empty(&self) -> (r: bool)
        ensures
            r == flag_set(self.flags as int, PAGE_FLAG_EMPTY as int),
    {
        has_flag(self.flags, PAGE_FLAG_EMPTY)
    }

    /// What the nodes of the page hold.
    pub fn kind(&self) -> (r: PageKind)
        ensures
            r == kind_of(self.flags as int),
    {
        if !self.is_leaf() {
            PageKind::Branch
        } else if self.is_space_tree() {
            PageKind::SpaceTree
        } else if self.is_index() {
            PageKind::IndexEntries
        } else if self.is_long_value() {
            PageKind::LongValues
        } else {
            PageKind::Records
        }
    }

    /// The number of nodes of the page: the number of its tags.
    pub fn node_count(&self) -> (r: usize)
        requires
            self.wf(),
        ensures
            r == node_count(self.raw@),
            r == self.tags@.len(),
    {
        self.tags.len()
    }

    /// The byte range that a descriptor addresses within the page buffer, as
    /// start and end; `None` where it addresses bytes outside the page.
    fn range_of(&self, t: Tag, pos: usize) -> (r: Option<(usize, usize)>)
        requires
            self.wf(),
            t == spec_desc(self.raw@, self.format, pos as int),
        ensures
            match r {
                Some((start, end)) => {
                    &&& desc_in_page(self.raw@, self.format, pos as int)
                    &&& start == desc_start(self.raw@, self.format, pos as int)
                    &&& end == start + desc_size(self.raw@, self.format, pos as int)
                    &&& header_len(self.format) <= start <= end <= self.raw@.len()
                },
                None => !desc_in_page(self.raw@, self.format, pos as int),
            },
    {
        let start: usize = page_header_len(self.format) + t.offset as usize;
        let end: usize = start + t.size as usize;
        let limit: usize = self.raw.len() - 4 * (self.tags.len() + 1);
        if end <= limit {
            Some((start, end))
        } else {
            None
        }
    }

    /// The byte range of tag `i` within the page buffer, as start and end;
    /// `None` where the tag addresses bytes outside the page.
    pub fn tag_range(&self, i: usize) -> (r: Option<(usize, usize)>)
        requires
            self.wf(),
            i < self.tags@.len(),
        ensures
            match r {
                Some((start, end)) => {
                    &&& tag_in_page(self.raw@, self.format, i as int)
                    &&& start == tag_start(self.raw@, self.format, i as int)
                    &&& end == start + tag_size(self.raw@, self.format, i as int)
                    &&& header_len(self.format) <= start <= end <= self.raw@.len()
                },
                None => !tag_in_page(self.raw@, self.format, i as int),
            },
    {
        let t: Tag = self.tags[i];
        assert(t == spec_tag(self.raw@, self.format, i as int));
        self.range_of(t, self.raw.len() - 4 * (i + 2))
    }

    /// The byte range of the key prefix that the nodes of the page share.
    pub fn prefix_range(&self) -> (r: (usize, usize))
        requires
            self.wf(),
        ensures
            r.0 <= r.1 <= self.raw@.len(),
            self.raw@.subrange(r.0 as int, r.1 as int) == key_prefix(self.raw@, self.format),
    {
        if self.is_root() {
            assert(self.raw@.subrange(0, 0) =~= Seq::<u8>::empty());
            return (0, 0);
        }
        match self.range_of(self.prefix, self.raw.len() - 4) {
            Some(range) => range,
            None => {
                assert(self.raw@.subrange(0, 0) =~= Seq::<u8>::empty());
                (0, 0)
            },
        }
    }

    /// Node `i` of the page: its full key, its data and its flags.
    ///
    /// Fails with `Format` where the page has no node `i`, where the tag of
    /// the node addresses bytes outside the page, or where the key sizes
    /// that the node declares exceed its bytes or the shared prefix. The
    /// other nodes of the page stay readable.
    pub fn node(&self, i: usize) -> (r: Result<Node<'a>, EseError>)
        requires
            self.wf(),
        ensures
            match r {
                Ok(n) => spec_node(self.raw@, self.format, i as int) == Some(n@)
                    && n.data_start + n.data@.len() <= self.raw@.len() && n.data@
                    == self.raw@.subrange(n.data_start as int, n.data_start + n.data@.len()),
                Err(e) => e == EseError::Format && spec_node(
                    self.raw@,
                    self.format,
                    i as int,
                ).is_none(),
            },
    {
        if i >= self.node_count() {
            return Err(EseError::Format);
        }
        let t: Tag = self.tags[i];
        assert(t == spec_tag(self.raw@, self.format, i as int));
        let (start, end) = match self.tag_range(i) {
            Some(range) => range,
            None => {
                return Err(EseError::Format);
            },
        };
        let d: &'a [u8] = slice_subrange(self.raw, start, end);
        let (p0, p1) = self.prefix_range();
        let prefix: &[u8] = slice_subrange(self.raw, p0, p1);
        match read_node(d, start, prefix, t.flags, self.format) {
            Ok(n) => {
                assert(n.data@ =~= self.raw@.subrange(
                    n.data_start as int,
                    n.data_start + n.data@.len(),
                ));
                Ok(n)
            },
            Err(e) => Err(EseError::Format),
        }
    }
}

/// Whether pages of this format use the extended layout.
pub fn is_extended(fmt: PageFormat) -> (r: bool)
    ensures
        r == extended(fmt),
{
    fmt.revision >= REVISION_EXTENDED_PAGE && fmt.page_size > SMALL_PAGE_LIMIT
}

/// The length of the page header of this format.
pub fn page_header_len(fmt: PageFormat) -> (r: usize)
    ensures
        r == header_len(fmt),
{
    if is_extended(fmt) {
        PAGE_HEADER_LEN_EXTENDED
    } else {
        PAGE_HEADER_LEN
    }
}

/// Reads the descriptor at `pos` of a page whose descriptors fit the buffer.
fn read_desc(raw: &[u8], fmt: PageFormat, count: usize, pos: usize) -> (r: Tag)
    requires
        supported_page_size(fmt.page_size as int),
        raw@.len() == fmt.page_size,
        count == tag_count(raw@),
        header_len(fmt) + 4 * (count + 1) <= fmt.page_size,
        pos + 4 <= raw@.len(),
    ensures
        r == spec_desc(raw@, fmt, pos as int),
{
    let size: usize = fmt.page_size as usize;
    let size_word: u16 = read_u16_le(raw, pos).unwrap();
    let offset_word: u16 = read_u16_le(raw, pos + 2).unwrap();
    let wide: bool = is_extended(fmt);
    let modulus: u16 = if wide {
        0x8000
    } else {
        0x2000
    };
    let len: u16 = size_word % modulus;
    let offset: u16 = offset_word % modulus;
    let start: usize = page_header_len(fmt) + offset as usize;
    let inside: bool = start + len as usize <= size - 4 * (count + 1);
    let flags: u8 = if wide {
        if inside && len >= 2 {
            raw[start + 1] / 32
        } else {
            0
        }
    } else {
        (offset_word / 0x2000) as u8
    };
    Tag { offset: offset, size: len, flags: flags }
}

/// Decodes one page.
///
/// `raw_bytes` is the whole page, `page_size` bytes long; `format_version` is
/// the format revision of the file. The page has as many nodes as its tag
/// array has tags. The call fails with `Format`, and only then, where the
/// buffer has not the size of a page or the tag array leaves no room for the
/// page header. A tag that addresses bytes outside the page fails the node
/// it stands for, not the page. A checksum mismatch does not fail the call:
/// the page is returned with both checksums, and [`Page::checksum_error`]
/// reports the mismatch.
pub fn decode_page<'a>(
    page_number: u32,
    raw_bytes: &'a [u8],
    page_size: u32,
    format_version: u32,
) -> (r: Result<Page<'a>, EseError>)
    ensures
        match r {
            Ok(p) => {
                &&& p.wf()
                &&& p.raw@ == raw_bytes@
                &&& p.number == page_number
                &&& p.format == (PageFormat { page_size: page_size, revision: format_version })
                &&& p.tags@.len() == tag_count(raw_bytes@)
            },
            Err(e) => e == EseError::Format && !page_valid(
                raw_bytes@,
                PageFormat { page_size: page_size, revision: format_version },
            ),
        },
{
    let fmt: PageFormat = PageFormat { page_size: page_size, revision: format_version };
    if !is_supported_page_size(page_size) || raw_bytes.len() != page_size as usize {
        return Err(EseError::Format);
    }
    let size: usize = page_size as usize;
    let count: usize = read_u16_le(raw_bytes, 34).unwrap() as usize;
    if page_header_len(fmt) + 4 * (count + 1) > size {
        return Err(EseError::Format);
    }
    let prefix: Tag = read_desc(raw_bytes, fmt, count, size - 4);
    let mut tags: Vec<Tag> = Vec::new();
    let mut i: usize = 0;
    while i < count
        invariant
            fmt == (PageFormat { page_size: page_size, revision: format_version }),
            size == page_size,
            supported_page_size(fmt.page_size as int),
            raw_bytes@.len() == fmt.page_size,
            count == tag_count(raw_bytes@),
            header_len(fmt) + 4 * (count + 1) <= fmt.page_size,
            i <= count,
            tags@.len() == i,
            forall|k: int| 0 <= k < i ==> #[trigger] tags@[k] == spec_tag(raw_bytes@, fmt, k),
        decreases count - i,
    {
        let t: Tag = read_desc(raw_bytes, fmt, count, size - 4 * (i + 2));
        tags.push(t);
        i = i + 1;
    }
    let first: usize = if format_version < REVISION_ECC_CHECKSUM {
        4
    } else {
        8
    };
    let computed: u32 = checksum_words(raw_bytes, first, (size - first) / 4);
    Ok(
        Page {
            number: page_number,
            format: fmt,
            raw: raw_bytes,
            stored_checksum: read_u32_le(raw_bytes, 0).unwrap(),
            computed_checksum: computed,
            last_modified: read_u64_le(raw_bytes, 8).unwrap(),
            previous_page: read_u32_le(raw_bytes, 16).unwrap(),
            next_page: read_u32_le(raw_bytes, 20).unwrap(),
            father_data_page: read_u32_le(raw_bytes, 24).unwrap(),
            available_data_size: read_u16_le(raw_bytes, 28).unwrap(),
            available_uncommitted: read_u16_le(raw_bytes, 30).unwrap(),
            first_available_offset: read_u16_le(raw_bytes, 32).unwrap(),
            flags: read_u32_le(raw_bytes, 36).unwrap(),
            prefix: prefix,
            tags: tags,
        },
    )
}

/// On a valid page, a tag that addresses bytes inside the page addresses
/// bytes behind the page header and before the descriptors, hence inside
/// the page buffer.
pub proof fn lemma_tags_in_page(raw: Seq<u8>, fmt: PageFormat, i: int)
    requires
        page_valid(raw, fmt),
        0 <= i < tag_count(raw),
        tag_in_page(raw, fmt, i),
    ensures
        header_len(fmt) <= tag_start(raw, fmt, i),
        tag_start(raw, fmt, i) + tag_size(raw, fmt, i) <= data_limit(raw, fmt),
        data_limit(raw, fmt) <= raw.len(),
        tag_bytes(raw, fmt, i).len() == tag_size(raw, fmt, i),
{
}

/// A valid page with N tags has N nodes, and every node that can be read has
/// its key suffix and its data inside the bytes of its tag, hence inside the
/// page buffer; its data is the bytes of the buffer at that place.
pub proof fn lemma_nodes_in_page(raw: Seq<u8>, fmt: PageFormat, i: int)
    requires
        page_valid(raw, fmt),
        spec_node(raw, fmt, i).is_some(),
    ensures
        0 <= i < node_count(raw),
        node_count(raw) == tag_count(raw),
        ({
            let n = spec_node(raw, fmt, i).unwrap();
            &&& tag_start(raw, fmt, i) <= n.data_start
            &&& n.data_start + n.data.len() == tag_start(raw, fmt, i) + tag_size(raw, fmt, i)
            &&& n.data_start + n.data.len() <= raw.len()
            &&& n.data == raw.subrange(n.data_start, n.data_start + n.data.len())
        }),
{
    lemma_tags_in_page(raw, fmt, i);
    let n = spec_node(raw, fmt, i).unwrap();
    assert(n.data =~= raw.subrange(n.data_start, n.data_start + n.data.len()));
}

/// The stored checksums decide nothing about the structure of a page: two
/// buffers that differ in their first eight bytes only are valid pages
/// together, with the same tags and the same nodes.
pub proof fn lemma_checksum_is_not_structure(a: Seq<u8>, b: Seq<u8>, fmt: PageFormat, i: int)
    requires
        a.len() == b.len(),
        forall|k: int| 8 <= k < a.len() ==> a[k] == b[k],
        page_valid(a, fmt),
    ensures
        page_valid(b, fmt),
        tag_count(b) == tag_count(a),
        0 <= i < tag_count(a) ==> spec_tag(b, fmt, i) == spec_tag(a, fmt, i),
        spec_node(b, fmt, i) == spec_node(a, fmt, i),
{
    assert(tag_count(b) == tag_count(a));
    assert(page_flags(b) == page_flags(a));
    lemma_same_desc(a, b, fmt, prefix_pos(fmt));
    if 0 <= i < tag_count(a) {
        lemma_same_desc(a, b, fmt, tag_pos(fmt, i));
    }
}

/// Two valid pages that agree from their eighth byte on hold the same
/// descriptor at `pos`, and it addresses the same bytes.
pub proof fn lemma_same_desc(a: Seq<u8>, b: Seq<u8>, fmt: PageFormat, pos: int)
    requires
        a.len() == b.len(),
        forall|k: int| 8 <= k < a.len() ==> a[k] == b[k],
        page_valid(a, fmt),
        tag_count(a) == tag_count(b),
        header_len(fmt) <= pos,
        pos + 4 <= a.len(),
    ensures
        spec_desc(b, fmt, pos) == spec_desc(a, fmt, pos),
        desc_in_page(b, fmt, pos) == desc_in_page(a, fmt, pos),
        desc_start(b, fmt, pos) == desc_start(a, fmt, pos),
        desc_in_page(a, fmt, pos) ==> desc_bytes(b, fmt, pos) == desc_bytes(a, fmt, pos),
{
    if desc_in_page(a, fmt, pos) {
        assert(desc_bytes(b, fmt, pos) =~= desc_bytes(a, fmt, pos));
    }
}

/// Damage is reported: a buffer that differs in one byte of the
/// checksum-covered region from a page whose stored checksum is the
/// recomputed one has a stored checksum that is not the recomputed one. Where
/// the buffer is still a valid page, `decode_page` returns it, and
/// `Page::checksum_error` reports the mismatch.
pub proof fn lemma_damaged_page_is_reported(
    a: Seq<u8>,
    b: Seq<u8>,
    fmt: PageFormat,
    number: u32,
    k: int,
)
    requires
        supported_page_size(fmt.page_size as int),
        a.len() == fmt.page_size,
        b.len() == fmt.page_size,
        page_report(a, fmt, number).is_none(),
        checksum_start(fmt) <= k < fmt.page_size,
        a[k] != b[k],
        forall|j: int| 0 <= j < a.len() && j != k ==> a[j] == b[j],
    ensures
        page_report(b, fmt, number).is_some(),
        page_report(b, fmt, number) == Some(
            EseError::PageChecksum {
                page: number,
                stored: le_u32(a, 0) as u32,
                computed: page_checksum(b, fmt),
            },
        ),
{
    let first = checksum_start(fmt);
    let count = ((fmt.page_size - first) / 4) as nat;
    lemma_damage_changes_checksum(a, b, first, count, k);
    assert(le_u32(b, 0) == le_u32(a, 0));
}

} // verus!
