//! The file header: signature, format version, page size, state, checksum.
use crate::constants::{
    FORMAT_VERSION, HEADER_MIN_LEN, HEADER_SIGNATURE, MAX_FORMAT_REVISION,
};
use crate::error::EseError;
use crate::utils::{le_u32, le_u64, read_u32_le, read_u64_le};
use vstd::prelude::*;

verus! {

/// The decoded fields of the file header.
#[derive(Clone, Copy, Debug, PartialEq, Eq, Structural)]
pub struct FileHeader {
    /// The checksum stored in the first four bytes.
    pub checksum: u32,
    pub signature: u32,
    pub version: u32,
    pub file_type: u32,
    pub database_time: u64,
    pub creation_time: u64,
    pub database_state: u32,
    pub attach_time: u64,
    pub format_revision: u32,
    pub page_size: u32,
}

/// The state in which the database was left.
#[derive(Clone, Copy, Debug, PartialEq, Eq, Structural)]
pub enum DatabaseState {
    JustCreated,
    DirtyShutdown,
    CleanShutdown,
    BeingConverted,
    ForceDetach,
    /// A state code that names none of the known states.
    Unknown(u32),
}

/// The state that a state code stands for.
pub open spec fn state_of(code: u32) -> DatabaseState {
    if code == 1 {
        DatabaseState::JustCreated
    } else if code == 2 {
        DatabaseState::DirtyShutdown
    } else if code == 3 {
        DatabaseState::CleanShutdown
    } else if code == 4 {
        DatabaseState::BeingConverted
    } else if code == 5 {
        DatabaseState::ForceDetach
    } else {
        DatabaseState::Unknown(code)
    }
}

impl FileHeader {
    /// The state in which the database was left.
    pub fn state(&self) -> (r: DatabaseState)
        ensures
            r == state_of(self.database_state),
    {
        match self.database_state {
            1 => DatabaseState::JustCreated,
            2 => DatabaseState::DirtyShutdown,
            3 => DatabaseState::CleanShutdown,
            4 => DatabaseState::BeingConverted,
            5 => DatabaseState::ForceDetach,
            other => DatabaseState::Unknown(other),
        }
    }

    /// Whether the database was shut down cleanly, so that its pages hold
    /// every committed change.
    pub fn is_clean(&self) -> (r: bool)
        ensures
            r == (state_of(self.database_state) == DatabaseState::CleanShutdown),
    {
        self.database_state == 3
    }
}

/// Whether `size` is a page size of the format.
pub open spec fn supported_page_size(size: int) -> bool {
    size == 2048 || size == 4096 || size == 8192 || size == 16384 || size == 32768
}

/// Tests whether `size` is a page size of the format.
pub fn is_supported_page_size(size: u32) -> (r: bool)
    ensures
        r == supported_page_size(size as int),
{
    size == 2048 || size == 4096 || size == 8192 || size == 16384 || size == 32768
}

/// The exclusive-or of the signature seed and `count` 32-bit words of `b`
/// starting at byte `first`.
pub open spec fn xor_words(b: Seq<u8>, first: int, count: nat) -> u32
    decreases count,
{
    if count == 0 {
        HEADER_SIGNATURE
    } else {
        xor_words(b, first, (count - 1) as nat) ^ (le_u32(b, first + 4 * (count - 1)) as u32)
    }
}

/// Folds `count` words of `bytes` starting at byte `first` into a checksum.
pub fn checksum_words(bytes: &[u8], first: usize, count: usize) -> (r: u32)
    requires
        first + 4 * count <= bytes@.len(),
    ensures
        r == xor_words(bytes@, first as int, count as nat),
{
    let total: usize = bytes.len();
    let mut acc: u32 = HEADER_SIGNATURE;
    let mut i: usize = 0;
    while i < count
        invariant
            total == bytes@.len(),
            first + 4 * count <= total,
            i <= count,
            acc == xor_words(bytes@, first as int, i as nat),
        decreases count - i,
    {
        let w: u32 = read_u32_le(bytes, first + 4 * i).unwrap();
        acc = acc ^ w;
        i = i + 1;
    }
    acc
}

/// The number of whole words of a header buffer behind its stored checksum.
pub open spec fn header_words(b: Seq<u8>) -> nat {
    if b.len() < 4 {
        0
    } else {
        (b.len() / 4 - 1) as nat
    }
}

/// The checksum recomputed over every whole word behind the stored one.
pub open spec fn header_checksum(b: Seq<u8>) -> u32 {
    xor_words(b, 4, header_words(b))
}

/// Why the header in `b` cannot be used, if it cannot: the structure first,
/// then the version, then the page size.
pub open spec fn header_fault(b: Seq<u8>) -> Option<EseError> {
    if b.len() < HEADER_MIN_LEN || le_u32(b, 4) != HEADER_SIGNATURE {
        Some(EseError::Format)
    } else if le_u32(b, 8) != FORMAT_VERSION || le_u32(b, 232) > MAX_FORMAT_REVISION {
        Some(
            EseError::UnsupportedVersion {
                version: le_u32(b, 8) as u32,
                revision: le_u32(b, 232) as u32,
            },
        )
    } else if !supported_page_size(le_u32(b, 236)) {
        Some(EseError::Format)
    } else {
        None
    }
}

/// The fields of the header in `b`, each exactly as stored.
pub open spec fn header_fields(b: Seq<u8>) -> FileHeader {
    FileHeader {
        checksum: le_u32(b, 0) as u32,
        signature: le_u32(b, 4) as u32,
        version: le_u32(b, 8) as u32,
        file_type: le_u32(b, 12) as u32,
        database_time: le_u64(b, 16) as u64,
        creation_time: le_u64(b, 28) as u64,
        database_state: le_u32(b, 52) as u32,
        attach_time: le_u64(b, 72) as u64,
        format_revision: le_u32(b, 232) as u32,
        page_size: le_u32(b, 236) as u32,
    }
}

/// What [`parse`] returns for the header in `b`.
pub open spec fn spec_parse(b: Seq<u8>) -> Result<FileHeader, EseError> {
    match header_fault(b) {
        Some(e) => Err(e),
        None => if le_u32(b, 0) == header_checksum(b) {
            Ok(header_fields(b))
        } else {
            Err(
                EseError::Checksum {
                    stored: le_u32(b, 0) as u32,
                    computed: header_checksum(b),
                },
            )
        },
    }
}

/// Decodes the header fields without judging the checksum.
///
/// Fails with `Format` where the buffer is shorter than the header or the
/// signature differs, with `UnsupportedVersion` where version or revision are
/// outside the known range, with `Format` where the page size is none of the
/// format's.
pub fn decode(bytes: &[u8]) -> (r: Result<FileHeader, EseError>)
    ensures
        match header_fault(bytes@) {
            Some(e) => r == Err::<FileHeader, EseError>(e),
            None => r == Ok::<FileHeader, EseError>(header_fields(bytes@)),
        },
        r matches Ok(h) ==> h.page_size == le_u32(bytes@, 236) && h.version == le_u32(bytes@, 8)
            && h.format_revision == le_u32(bytes@, 232) && supported_page_size(
            h.page_size as int,
        ),
{
    if bytes.len() < HEADER_MIN_LEN {
        return Err(EseError::Format);
    }
    let signature: u32 = read_u32_le(bytes, 4).unwrap();
    if signature != HEADER_SIGNATURE {
        return Err(EseError::Format);
    }
    let version: u32 = read_u32_le(bytes, 8).unwrap();
    let revision: u32 = read_u32_le(bytes, 232).unwrap();
    if version != FORMAT_VERSION || revision > MAX_FORMAT_REVISION {
        return Err(EseError::UnsupportedVersion { version: version, revision: revision });
    }
    let page_size: u32 = read_u32_le(bytes, 236).unwrap();
    if !is_supported_page_size(page_size) {
        return Err(EseError::Format);
    }
    Ok(
        FileHeader {
            checksum: read_u32_le(bytes, 0).unwrap(),
            signature: signature,
            version: version,
            file_type: read_u32_le(bytes, 12).unwrap(),
            database_time: read_u64_le(bytes, 16).unwrap(),
            creation_time: read_u64_le(bytes, 28).unwrap(),
            database_state: read_u32_le(bytes, 52).unwrap(),
            attach_time: read_u64_le(bytes, 72).unwrap(),
            format_revision: revision,
            page_size: page_size,
        },
    )
}

/// What [`verify_checksum`] returns for the buffer `b`.
pub open spec fn checksum_verdict(b: Seq<u8>) -> Result<(), EseError> {
    if b.len() < 4 {
        Err(EseError::Format)
    } else if le_u32(b, 0) == header_checksum(b) {
        Ok(())
    } else {
        Err(EseError::Checksum { stored: le_u32(b, 0) as u32, computed: header_checksum(b) })
    }
}

/// Recomputes the header checksum and compares it with the stored one.
///
/// The mismatch is reported as `Checksum`; a caller may go on with the
/// decoded header all the same. A buffer too short to hold a checksum is
/// reported as `Format`.
pub fn verify_checksum(bytes: &[u8]) -> (r: Result<(), EseError>)
    ensures
        r == checksum_verdict(bytes@),
{
    if bytes.len() < 4 {
        return Err(EseError::Format);
    }
    let stored: u32 = read_u32_le(bytes, 0).unwrap();
    let computed: u32 = checksum_words(bytes, 4, bytes.len() / 4 - 1);
    if stored == computed {
        Ok(())
    } else {
        Err(EseError::Checksum { stored: stored, computed: computed })
    }
}

/// Validates and decodes the file header.
///
/// The fields of the result are the stored bytes, field by field. The call
/// fails with `Format` on a short buffer, a wrong signature or an unknown
/// page size, with `UnsupportedVersion` on a version or revision outside the
/// known range, and with `Checksum` where the stored checksum differs from
/// the one recomputed over the buffer.
pub fn parse(bytes: &[u8]) -> (r: Result<FileHeader, EseError>)
    ensures
        r == spec_parse(bytes@),
        r matches Ok(h) ==> h.page_size == le_u32(bytes@, 236) && h.version == le_u32(bytes@, 8)
            && h.format_revision == le_u32(bytes@, 232),
{
    match decode(bytes) {
        Ok(h) => match verify_checksum(bytes) {
            Ok(()) => Ok(h),
            Err(e) => Err(e),
        },
        Err(e) => Err(e),
    }
}

/// Buffers that agree on the words folded have the same checksum.
pub proof fn lemma_same_words(a: Seq<u8>, b: Seq<u8>, first: int, count: nat)
    requires
        0 <= first,
        first + 4 * count <= a.len(),
        a.len() == b.len(),
        forall|j: int| first <= j < first + 4 * count ==> a[j] == b[j],
    ensures
        xor_words(a, first, count) == xor_words(b, first, count),
    decreases count,
{
    if count > 0 {
        lemma_same_words(a, b, first, (count - 1) as nat);
    }
}

/// A word with one byte changed is another word.
pub proof fn lemma_changed_word(a: Seq<u8>, b: Seq<u8>, off: int, k: int)
    requires
        0 <= off <= k < off + 4,
        off + 4 <= a.len(),
        a.len() == b.len(),
        a[k] != b[k],
        forall|j: int| off <= j < off + 4 && j != k ==> a[j] == b[j],
    ensures
        le_u32(a, off) != le_u32(b, off),
        0 <= le_u32(a, off) < 0x1_0000_0000,
        0 <= le_u32(b, off) < 0x1_0000_0000,
{
}

/// Folding the same word into different checksums gives different
/// checksums, and so does folding different words into the same checksum.
pub proof fn lemma_xor_keeps_difference(x: u32, y: u32, w: u32, v: u32)
    ensures
        x != y ==> x ^ w != y ^ w,
        w != v ==> x ^ w != x ^ v,
{
    assert(x != y ==> x ^ w != y ^ w) by (bit_vector);
    assert(w != v ==> x ^ w != x ^ v) by (bit_vector);
}

/// One changed byte among the words folded changes the checksum.
pub proof fn lemma_damage_changes_checksum(a: Seq<u8>, b: Seq<u8>, first: int, count: nat, k: int)
    requires
        0 <= first,
        first + 4 * count <= a.len(),
        a.len() == b.len(),
        first <= k < first + 4 * count,
        a[k] != b[k],
        forall|j: int| 0 <= j < a.len() && j != k ==> a[j] == b[j],
    ensures
        xor_words(a, first, count) != xor_words(b, first, count),
    decreases count,
{
    let last = first + 4 * (count - 1);
    let wa = le_u32(a, last) as u32;
    let wb = le_u32(b, last) as u32;
    let xa = xor_words(a, first, (count - 1) as nat);
    let xb = xor_words(b, first, (count - 1) as nat);
    lemma_xor_keeps_difference(xa, xb, wa, wb);
    if k >= last {
        lemma_same_words(a, b, first, (count - 1) as nat);
        lemma_changed_word(a, b, last, k);
    } else {
        lemma_damage_changes_checksum(a, b, first, (count - 1) as nat, k);
        assert(le_u32(a, last) == le_u32(b, last));
    }
}

} // verus!
