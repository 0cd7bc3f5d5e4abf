use vstd::prelude::*;

use vstd::bytes::{
    spec_u32_from_le_bytes, spec_u32_to_le_bytes, spec_u64_from_le_bytes, spec_u64_to_le_bytes,
    u32_from_le_bytes, u32_to_le_bytes, u64_from_le_bytes, u64_to_le_bytes,
};
use vstd::utf8::{encode_utf8, valid_utf8};

use crate::archive::codec::{zstd_compress, zstd_decompress, zstd_stream_decode, zstd_stream_encode};
use crate::archive::select::{bytes_equal, select_index, select_optimal, PayloadName, X86Level};
use crate::text::string_from_utf8;

verus! {

/// Size of the fixed footer at the end of every archive.
pub const FOOTER_SIZE: usize = 33;

/// The final footer byte: a format marker that is always `1`.
pub const IS_LAUNCHED: u8 = 1;

/// Smallest possible manifest entry: name length, empty name, payload offset and size.
pub const MIN_ENTRY_SIZE: u64 = 20;

/// Longest payload name, in bytes.
pub const MAX_NAME_SIZE: usize = 4096;

/// Largest decompressed payload: 1 GiB.
pub const MAX_DECOMPRESSED_PAYLOAD_SIZE: u64 = 1073741824;

/// The zstd compression level of payloads.
pub const ZSTD_COMPRESSION_LEVEL: i32 = 15;

/// A payload described for selection: its name, the offset and length of its zstd
/// frame, and its length before compression.
pub struct Entry {
    pub name: String,
    pub offset: u64,
    pub compressed_size: u64,
    pub decompressed_size: u64,
}

impl PayloadName for Entry {
    open spec fn name_bytes(&self) -> Seq<u8> {
        encode_utf8(self.name@)
    }

    fn payload_name(&self) -> (r: &str) {
        self.name.as_str()
    }
}

/// A manifest entry as the archive stores it: the payload's name, and the offset and
/// size of its zstd frame.
pub struct ManifestEntry {
    pub name: String,
    pub offset: u64,
    pub size: u64,
}

/// The mathematical content of a manifest entry.
pub struct EntryView {
    pub name: Seq<u8>,
    pub offset: u64,
    pub size: u64,
}

impl ManifestEntry {
    pub open spec fn view(self) -> EntryView {
        EntryView { name: encode_utf8(self.name@), offset: self.offset, size: self.size }
    }
}

impl PayloadName for ManifestEntry {
    open spec fn name_bytes(&self) -> Seq<u8> {
        encode_utf8(self.name@)
    }

    fn payload_name(&self) -> (r: &str) {
        self.name.as_str()
    }
}

/// Every way in which packing or reading an archive can fail.
#[derive(Debug, Clone, Copy, PartialEq, Eq, Structural)]
pub enum ArchiveError {
    /// More payloads than a `u32` entry count can describe.
    TooManyPayloads,
    /// A payload is larger than the 1 GiB decompressed-size limit.
    PayloadTooLarge,
    /// The zstd encoder reported an error.
    CompressionFailed,
    /// A payload path has no valid file name.
    NoFileName,
    /// A payload file name is longer than 4096 bytes.
    NameTooLong,
    /// The file is shorter than the footer.
    FileTooSmall,
    /// The footer does not start with the magic bytes.
    InvalidMagic,
    /// The final footer byte is not `1`.
    InvalidLaunchFlag,
    /// The manifest offset plus its size overflows.
    ManifestRangeOverflow,
    /// The manifest is shorter than its entry count, or does not end where the footer begins.
    InvalidManifestRange,
    /// The entry count cannot fit in the manifest.
    InvalidEntryCount,
    /// A manifest entry extends beyond the manifest.
    EntryOutOfBounds,
    /// A stored payload name is longer than 4096 bytes.
    StoredNameTooLong,
    /// A stored payload name is not valid UTF-8.
    InvalidName,
    /// A payload's offset plus its size overflows.
    PayloadRangeOverflow,
    /// A payload's bytes reach into the manifest.
    PayloadOverlapsManifest,
    /// The selected payload decompresses to more than the 1 GiB limit.
    DecompressedTooLarge,
    /// The manifest holds bytes after its last entry.
    TrailingManifestData,
    /// No payload fits the current host.
    NoCompatibleBinary,
    /// The selected payload is not valid zstd data.
    PayloadDecodeFailed,
}

/// The class of an error, as the I/O layer reports it.
#[derive(Debug, Clone, Copy, PartialEq, Eq, Structural)]
pub enum ErrorClass {
    /// The caller's input cannot be packed.
    InvalidInput,
    /// The archive is malformed.
    InvalidData,
    /// No payload fits the host.
    NotFound,
    /// The compressor failed.
    Other,
}

/// Packing refuses its input; reading finds malformed data, or no fitting payload.
pub open spec fn error_class(e: ArchiveError) -> ErrorClass {
    match e {
        ArchiveError::TooManyPayloads | ArchiveError::PayloadTooLarge | ArchiveError::NoFileName
        | ArchiveError::NameTooLong => ErrorClass::InvalidInput,
        ArchiveError::CompressionFailed => ErrorClass::Other,
        ArchiveError::NoCompatibleBinary => ErrorClass::NotFound,
        _ => ErrorClass::InvalidData,
    }
}

impl ArchiveError {
    /// The class of this error.
    pub fn kind(&self) -> (k: ErrorClass)
        ensures
            k == error_class(*self),
    {
        match self {
            ArchiveError::TooManyPayloads | ArchiveError::PayloadTooLarge
            | ArchiveError::NoFileName | ArchiveError::NameTooLong => ErrorClass::InvalidInput,
            ArchiveError::CompressionFailed => ErrorClass::Other,
            ArchiveError::NoCompatibleBinary => ErrorClass::NotFound,
            _ => ErrorClass::InvalidData,
        }
    }
}

// ---------------------------------------------------------------------------
// The byte layout
// ---------------------------------------------------------------------------

/// The eight magic bytes `VPKFOOT\0` that start the footer.
pub open spec fn footer_magic() -> Seq<u8> {
    seq![86u8, 80u8, 75u8, 70u8, 79u8, 79u8, 84u8, 0u8]
}

pub open spec fn u32_at(data: Seq<u8>, pos: int) -> u32 {
    spec_u32_from_le_bytes(data.subrange(pos, pos + 4))
}

pub open spec fn u64_at(data: Seq<u8>, pos: int) -> u64 {
    spec_u64_from_le_bytes(data.subrange(pos, pos + 8))
}

/// The footer: magic, manifest offset, manifest size, native identity, launch marker.
pub open spec fn encode_footer(manifest_offset: u64, manifest_size: u64, native_hash: u64) -> Seq<u8> {
    footer_magic() + spec_u64_to_le_bytes(manifest_offset) + spec_u64_to_le_bytes(manifest_size)
        + spec_u64_to_le_bytes(native_hash) + seq![IS_LAUNCHED]
}

/// One manifest entry: name length, name, payload offset and payload size.
pub open spec fn encode_entry(e: EntryView) -> Seq<u8> {
    spec_u32_to_le_bytes(e.name.len() as u32) + e.name + spec_u64_to_le_bytes(e.offset)
        + spec_u64_to_le_bytes(e.size)
}

/// The entries of a manifest, one after the other.
pub open spec fn encode_entries(es: Seq<EntryView>) -> Seq<u8>
    decreases es.len(),
{
    if es.len() == 0 {
        Seq::empty()
    } else {
        encode_entries(es.drop_last()) + encode_entry(es.last())
    }
}

/// The manifest: the entry count followed by the entries.
pub open spec fn encode_manifest(es: Seq<EntryView>) -> Seq<u8> {
    spec_u32_to_le_bytes(es.len() as u32) + encode_entries(es)
}

// ---------------------------------------------------------------------------
// Reading
// ---------------------------------------------------------------------------

/// Parses the manifest entry at `pos`, in a manifest ending at `end` and starting at
/// `manifest_offset`; gives the entry and the position after it.
pub open spec fn parse_entry(data: Seq<u8>, pos: int, end: int, manifest_offset: u64) -> Result<
    (EntryView, int),
    ArchiveError,
> {
    if pos + 4 > end {
        Err(ArchiveError::EntryOutOfBounds)
    } else {
        let name_len = u32_at(data, pos) as int;
        if name_len > MAX_NAME_SIZE {
            Err(ArchiveError::StoredNameTooLong)
        } else if pos + 4 + name_len + 16 > end {
            Err(ArchiveError::EntryOutOfBounds)
        } else {
            let name = data.subrange(pos + 4, pos + 4 + name_len);
            let at = pos + 4 + name_len;
            let offset = u64_at(data, at);
            let size = u64_at(data, at + 8);
            if !valid_utf8(name) {
                Err(ArchiveError::InvalidName)
            } else if offset + size > u64::MAX {
                Err(ArchiveError::PayloadRangeOverflow)
            } else if offset + size > manifest_offset {
                Err(ArchiveError::PayloadOverlapsManifest)
            } else {
                Ok((EntryView { name, offset, size }, at + 16))
            }
        }
    }
}

/// Parses `count` consecutive manifest entries from `pos`.
pub open spec fn parse_entries(
    data: Seq<u8>,
    pos: int,
    end: int,
    manifest_offset: u64,
    count: nat,
) -> Result<(Seq<EntryView>, int), ArchiveError>
    decreases count,
{
    if count == 0 {
        Ok((Seq::empty(), pos))
    } else {
        match parse_entry(data, pos, end, manifest_offset) {
            Err(e) => Err(e),
            Ok((entry, next)) => match parse_entries(data, next, end, manifest_offset, (count - 1) as nat) {
                Err(e) => Err(e),
                Ok((rest, last)) => Ok((seq![entry] + rest, last)),
            },
        }
    }
}

/// Parses the footer and the manifest of an archive; gives the entries and the stored
/// native identity.
pub open spec fn parse_archive(data: Seq<u8>) -> Result<(Seq<EntryView>, Seq<u8>), ArchiveError> {
    let len = data.len() as int;
    if len < FOOTER_SIZE {
        Err(ArchiveError::FileTooSmall)
    } else {
        let footer = len - FOOTER_SIZE;
        let manifest_offset = u64_at(data, footer + 8);
        let manifest_size = u64_at(data, footer + 16);
        let native_hash = data.subrange(footer + 24, footer + 32);
        if data.subrange(footer, footer + 8) != footer_magic() {
            Err(ArchiveError::InvalidMagic)
        } else if data[len - 1] != IS_LAUNCHED {
            Err(ArchiveError::InvalidLaunchFlag)
        } else if manifest_offset + manifest_size > u64::MAX {
            Err(ArchiveError::ManifestRangeOverflow)
        } else if manifest_size < 4 || manifest_offset + manifest_size != footer {
            Err(ArchiveError::InvalidManifestRange)
        } else {
            let count = u32_at(data, manifest_offset as int);
            if count > (manifest_size - 4) / (MIN_ENTRY_SIZE as int) {
                Err(ArchiveError::InvalidEntryCount)
            } else {
                match parse_entries(
                    data,
                    manifest_offset + 4,
                    footer,
                    manifest_offset,
                    count as nat,
                ) {
                    Err(e) => Err(e),
                    Ok((entries, last)) => if last != footer {
                        Err(ArchiveError::TrailingManifestData)
                    } else {
                        Ok((entries, native_hash))
                    },
                }
            }
        }
    }
}

/// The names of a list of entry views.
pub open spec fn view_names(entries: Seq<EntryView>) -> Seq<Seq<u8>> {
    entries.map_values(|e: EntryView| e.name)
}

/// The largest output that reading a payload asks of the decoder: one byte more than
/// the 1 GiB limit, so that a larger payload shows itself.
pub open spec fn decode_limit() -> u64 {
    (MAX_DECOMPRESSED_PAYLOAD_SIZE + 1) as u64
}

/// The payload of an entry: its zstd frame decoded to its end, which must give at most
/// 1 GiB.
pub open spec fn decode_entry(data: Seq<u8>, e: EntryView) -> Result<Seq<u8>, ArchiveError> {
    let frame = data.subrange(e.offset as int, e.offset + e.size);
    match zstd_stream_decode(frame, decode_limit()) {
        None => Err(ArchiveError::PayloadDecodeFailed),
        Some(out) => if out.len() > MAX_DECOMPRESSED_PAYLOAD_SIZE {
            Err(ArchiveError::DecompressedTooLarge)
        } else {
            Ok(out)
        },
    }
}

/// What reading an archive gives on a host of `level` whose native identity is `current`.
pub open spec fn read_back_spec(data: Seq<u8>, level: X86Level, current: Option<u64>) -> Result<
    Seq<u8>,
    ArchiveError,
> {
    match parse_archive(data) {
        Err(e) => Err(e),
        Ok((entries, native_hash)) => match select_index(
            view_names(entries),
            native_hash,
            level,
            current,
        ) {
            None => Err(ArchiveError::NoCompatibleBinary),
            Some(i) => decode_entry(data, entries[i]),
        },
    }
}

/// The file ends in a footer with the magic bytes and the launch marker.
pub open spec fn is_archive_spec(data: Seq<u8>) -> bool {
    let len = data.len() as int;
    &&& len >= FOOTER_SIZE
    &&& data.subrange(len - FOOTER_SIZE, len - FOOTER_SIZE + 8) == footer_magic()
    &&& data[len - 1] == IS_LAUNCHED
}

fn read_u32(data: &[u8], pos: usize) -> (v: u32)
    requires
        pos + 4 <= data@.len(),
    ensures
        v == u32_at(data@, pos as int),
{
    let len = data.len();
    assert(pos + 4 <= len);
    u32_from_le_bytes(&data[pos..pos + 4])
}

fn read_u64(data: &[u8], pos: usize) -> (v: u64)
    requires
        pos + 8 <= data@.len(),
    ensures
        v == u64_at(data@, pos as int),
{
    let len = data.len();
    assert(pos + 8 <= len);
    u64_from_le_bytes(&data[pos..pos + 8])
}

fn footer_magic_bytes() -> (v: Vec<u8>)
    ensures
        v@ == footer_magic(),
{
    let v: Vec<u8> = vec![86u8, 80u8, 75u8, 70u8, 79u8, 79u8, 84u8, 0u8];
    assert(v@ == footer_magic());
    v
}

/// Verifies that reading `size` bytes at `position` stays inside a manifest ending at `end`.
pub fn ensure_available(position: usize, end: usize, size: usize) -> (r: Result<(), ArchiveError>)
    ensures
        position + size <= end ==> r is Ok,
        position + size > end ==> r == Err::<(), ArchiveError>(ArchiveError::EntryOutOfBounds),
{
    if position > end || size > end - position {
        Err(ArchiveError::EntryOutOfBounds)
    } else {
        Ok(())
    }
}

/// Parses one manifest entry at `pos`.
fn read_entry(data: &[u8], pos: usize, end: usize, manifest_offset: u64) -> (r: Result<
    (ManifestEntry, usize),
    ArchiveError,
>)
    requires
        pos <= end,
        end <= data@.len(),
        manifest_offset <= data@.len(),
    ensures
        match parse_entry(data@, pos as int, end as int, manifest_offset) {
            Ok((v, next)) => r matches Ok((e, q)) && e.view() == v && q == next && e.offset + e.size
                <= manifest_offset,
            Err(err) => r == Err::<(ManifestEntry, usize), ArchiveError>(err),
        },
{
    let len = data.len();
    assert(end <= len);
    if let Err(e) = ensure_available(pos, end, 4) {
        return Err(e);
    }
    let name_len = read_u32(data, pos) as usize;
    if name_len > MAX_NAME_SIZE {
        return Err(ArchiveError::StoredNameTooLong);
    }
    if let Err(e) = ensure_available(pos + 4, end, name_len + 16) {
        return Err(e);
    }
    let at = pos + 4 + name_len;
    let name = match string_from_utf8(&data[pos + 4..at]) {
        Some(name) => name,
        None => return Err(ArchiveError::InvalidName),
    };
    let offset = read_u64(data, at);
    let size = read_u64(data, at + 8);
    let payload_end = match offset.checked_add(size) {
        Some(payload_end) => payload_end,
        None => return Err(ArchiveError::PayloadRangeOverflow),
    };
    if payload_end > manifest_offset {
        return Err(ArchiveError::PayloadOverlapsManifest);
    }
    Ok((ManifestEntry { name, offset, size }, at + 16))
}

/// The results of parsing a prefix of the entries followed by the rest.
pub open spec fn prepend_entries(
    done: Seq<EntryView>,
    rest: Result<(Seq<EntryView>, int), ArchiveError>,
) -> Result<(Seq<EntryView>, int), ArchiveError> {
    match rest {
        Err(e) => Err(e),
        Ok((es, last)) => Ok((done + es, last)),
    }
}

/// What the manifest gives once its entries have been parsed.
pub open spec fn finish_manifest(
    parsed: Result<(Seq<EntryView>, int), ArchiveError>,
    footer: int,
    native_hash: Seq<u8>,
) -> Result<(Seq<EntryView>, Seq<u8>), ArchiveError> {
    match parsed {
        Err(e) => Err(e),
        Ok((entries, last)) => if last != footer {
            Err(ArchiveError::TrailingManifestData)
        } else {
            Ok((entries, native_hash))
        },
    }
}

proof fn lemma_prepend_step(
    done: Seq<EntryView>,
    v: EntryView,
    rest: Result<(Seq<EntryView>, int), ArchiveError>,
)
    ensures
        prepend_entries(done, prepend_entries(seq![v], rest)) == prepend_entries(done + seq![v], rest),
{
    if let Ok((es, last)) = rest {
        assert(done + (seq![v] + es) =~= (done + seq![v]) + es);
    }
}

/// The views of a list of entries.
pub open spec fn entry_views(entries: Seq<ManifestEntry>) -> Seq<EntryView> {
    entries.map_values(|e: ManifestEntry| e.view())
}

/// Validates the footer and the manifest and returns the entries with the stored native
/// identity.
pub fn read_manifest(data: &[u8]) -> (r: Result<(Vec<ManifestEntry>, &[u8]), ArchiveError>)
    ensures
        match parse_archive(data@) {
            Ok((views, native_hash)) => r matches Ok((entries, h)) && entry_views(entries@) == views
                && h@ == native_hash && forall|i: int|
                0 <= i < entries@.len() ==> #[trigger] entries@[i].offset + entries@[i].size
                    <= data@.len(),
            Err(e) => r matches Err(err) && err == e,
        },
{
    let len = data.len();
    if len < FOOTER_SIZE {
        return Err(ArchiveError::FileTooSmall);
    }
    let footer = len - FOOTER_SIZE;
    let magic = footer_magic_bytes();
    if !bytes_equal(&data[footer..footer + 8], magic.as_slice()) {
        return Err(ArchiveError::InvalidMagic);
    }
    let manifest_offset = read_u64(data, footer + 8);
    let manifest_size = read_u64(data, footer + 16);
    let native_hash = &data[footer + 24..footer + 32];
    if data[len - 1] != IS_LAUNCHED {
        return Err(ArchiveError::InvalidLaunchFlag);
    }
    let manifest_end = match manifest_offset.checked_add(manifest_size) {
        Some(manifest_end) => manifest_end,
        None => return Err(ArchiveError::ManifestRangeOverflow),
    };
    if manifest_size < 4 || manifest_end != footer as u64 {
        return Err(ArchiveError::InvalidManifestRange);
    }
    let start = manifest_offset as usize;
    let end = footer;
    let entry_count = read_u32(data, start);
    if entry_count as u64 > (manifest_size - 4) / MIN_ENTRY_SIZE {
        return Err(ArchiveError::InvalidEntryCount);
    }
    let ghost whole = parse_entries(data@, start + 4, end as int, manifest_offset, entry_count as nat);
    assert(parse_archive(data@) == finish_manifest(whole, end as int, native_hash@));
    let mut entries: Vec<ManifestEntry> = Vec::new();
    let mut pos = start + 4;
    let mut k: u32 = 0;
    while k < entry_count
        invariant
            k <= entry_count,
            start + 4 <= pos <= end,
            end <= data@.len(),
            manifest_offset == start,
            start <= end,
            whole == parse_entries(data@, start + 4, end as int, manifest_offset, entry_count as nat),
            parse_archive(data@) == finish_manifest(whole, end as int, native_hash@),
            native_hash@.len() == 8,
            whole == prepend_entries(
                entry_views(entries@),
                parse_entries(data@, pos as int, end as int, manifest_offset, (entry_count - k) as nat),
            ),
            entries@.len() == k,
            forall|i: int|
                0 <= i < entries@.len() ==> #[trigger] entries@[i].offset + entries@[i].size
                    <= manifest_offset,
        decreases entry_count - k,
    {
        let ghost before = entries@;
        let (entry, next) = match read_entry(data, pos, end, manifest_offset) {
            Ok(found) => found,
            Err(e) => return Err(e),
        };
        entries.push(entry);
        proof {
            assert(entry_views(entries@) == entry_views(before) + seq![entry.view()]);
            lemma_prepend_step(
                entry_views(before),
                entry.view(),
                parse_entries(data@, next as int, end as int, manifest_offset, (entry_count - k - 1) as nat),
            );
        }
        pos = next;
        k = k + 1;
    }
    if pos != end {
        return Err(ArchiveError::TrailingManifestData);
    }
    proof {
        assert(entry_views(entries@) + Seq::<EntryView>::empty() == entry_views(entries@));
        assert(parse_entries(data@, pos as int, end as int, manifest_offset, 0) == Ok::<
            (Seq<EntryView>, int),
            ArchiveError,
        >((Seq::<EntryView>::empty(), pos as int)));
        assert forall|i: int| 0 <= i < entries@.len() implies #[trigger] entries@[i].offset
            + entries@[i].size <= data@.len() by {}
    }
    Ok((entries, native_hash))
}

/// Decodes the zstd frame of `entry`, which must give at most 1 GiB.
fn decompress_payload(data: &[u8], entry: &ManifestEntry) -> (r: Result<Vec<u8>, ArchiveError>)
    requires
        entry.offset + entry.size <= data@.len(),
    ensures
        match decode_entry(data@, entry.view()) {
            Ok(bytes) => r matches Ok(v) && v@ == bytes,
            Err(e) => r matches Err(err) && err == e,
        },
{
    let len = data.len();
    assert(entry.offset + entry.size <= len);
    let start = entry.offset as usize;
    let stop = start + entry.size as usize;
    match zstd_decompress(&data[start..stop], MAX_DECOMPRESSED_PAYLOAD_SIZE + 1) {
        None => Err(ArchiveError::PayloadDecodeFailed),
        Some(payload) => if payload.len() as u64 > MAX_DECOMPRESSED_PAYLOAD_SIZE {
            Err(ArchiveError::DecompressedTooLarge)
        } else {
            Ok(payload)
        },
    }
}

/// Validates the footer and the manifest of an archive, selects the payload that a host
/// of `level` with native identity `current_native_hash` runs, and returns its bytes.
pub fn read_back(data: &[u8], level: X86Level, current_native_hash: Option<u64>) -> (r: Result<
    Vec<u8>,
    ArchiveError,
>)
    ensures
        match read_back_spec(data@, level, current_native_hash) {
            Ok(bytes) => r matches Ok(v) && v@ == bytes,
            Err(e) => r matches Err(err) && err == e,
        },
{
    let (entries, native_hash) = match read_manifest(data) {
        Ok(found) => found,
        Err(e) => return Err(e),
    };
    proof {
        assert(crate::archive::select::entry_names(entries@) == view_names(entry_views(entries@)));
    }
    let entry = match select_optimal(entries.as_slice(), native_hash, level, current_native_hash) {
        Ok(entry) => entry,
        Err(e) => return Err(e),
    };
    proof {
        let i = select_index(
            crate::archive::select::entry_names(entries@),
            native_hash@,
            level,
            current_native_hash,
        ).unwrap();
        crate::archive::select::lemma_select_index_in_range(
            crate::archive::select::entry_names(entries@),
            native_hash@,
            level,
            current_native_hash,
        );
        assert(entries@[i].offset + entries@[i].size <= data@.len());
        assert(entry_views(entries@)[i] == entries@[i].view());
    }
    decompress_payload(data, entry)
}

/// Checks the fixed footer magic and launch marker, without parsing the manifest.
pub fn is_archive(data: &[u8]) -> (r: bool)
    ensures
        r == is_archive_spec(data@),
{
    let len = data.len();
    if len < FOOTER_SIZE {
        return false;
    }
    let footer = len - FOOTER_SIZE;
    let magic = footer_magic_bytes();
    bytes_equal(&data[footer..footer + 8], magic.as_slice()) && data[len - 1] == IS_LAUNCHED
}


// ---------------------------------------------------------------------------
// Packing
// ---------------------------------------------------------------------------

/// One payload to pack: its file name, when the path has a valid one, and its bytes.
pub struct PayloadInput {
    pub name: Option<String>,
    pub data: Vec<u8>,
}

/// The mathematical content of a payload to pack.
pub struct PayloadView {
    pub name: Option<Seq<char>>,
    pub data: Seq<u8>,
}

impl PayloadInput {
    pub open spec fn view(self) -> PayloadView {
        PayloadView {
            name: match self.name {
                Some(name) => Some(name@),
                None => None,
            },
            data: self.data@,
        }
    }
}

/// The views of a list of payloads.
pub open spec fn payload_views(payloads: Seq<PayloadInput>) -> Seq<PayloadView> {
    payloads.map_values(|p: PayloadInput| p.view())
}

/// The zstd frame stored for a payload's bytes: level 15, with a content checksum.
pub open spec fn payload_frame(data: Seq<u8>) -> Option<Seq<u8>> {
    zstd_stream_encode(data, ZSTD_COMPRESSION_LEVEL, true)
}

/// Why a payload cannot be packed, in the order in which packing finds it: its size,
/// then its compression, then its file name.
pub open spec fn payload_failure(p: PayloadView) -> Option<ArchiveError> {
    if p.data.len() > MAX_DECOMPRESSED_PAYLOAD_SIZE {
        Some(ArchiveError::PayloadTooLarge)
    } else if payload_frame(p.data) is None {
        Some(ArchiveError::CompressionFailed)
    } else {
        match p.name {
            None => Some(ArchiveError::NoFileName),
            Some(name) => if encode_utf8(name).len() > MAX_NAME_SIZE {
                Some(ArchiveError::NameTooLong)
            } else {
                None
            },
        }
    }
}

/// The failure of the first payload that cannot be packed.
pub open spec fn first_failure(ps: Seq<PayloadView>) -> Option<ArchiveError>
    decreases ps.len(),
{
    if ps.len() == 0 {
        None
    } else {
        match payload_failure(ps[0]) {
            Some(e) => Some(e),
            None => first_failure(ps.drop_first()),
        }
    }
}

/// The frames, one after the other.
pub open spec fn concat_frames(frames: Seq<Seq<u8>>) -> Seq<u8>
    decreases frames.len(),
{
    if frames.len() == 0 {
        Seq::empty()
    } else {
        concat_frames(frames.drop_last()) + frames.last()
    }
}

/// The stored frames of the payloads.
pub open spec fn packed_frames(ps: Seq<PayloadView>) -> Seq<Seq<u8>> {
    ps.map_values(|p: PayloadView| payload_frame(p.data).unwrap())
}

/// The UTF-8 bytes of a payload's file name.
pub open spec fn payload_name_bytes(p: PayloadView) -> Seq<u8> {
    encode_utf8(p.name.unwrap())
}

/// The manifest entries of the payloads, whose frames follow one another from `base` on.
pub open spec fn packed_entries(base: int, ps: Seq<PayloadView>) -> Seq<EntryView> {
    Seq::new(
        ps.len(),
        |i: int|
            EntryView {
                name: payload_name_bytes(ps[i]),
                offset: (base + concat_frames(packed_frames(ps).take(i)).len()) as u64,
                size: packed_frames(ps)[i].len() as u64,
            },
    )
}

/// The archive of a launcher and payloads: the launcher, the payload frames, the manifest
/// and the footer.
pub open spec fn packed_archive(launcher: Seq<u8>, ps: Seq<PayloadView>, native_hash: u64) -> Seq<
    u8,
> {
    let blob = launcher + concat_frames(packed_frames(ps));
    let manifest = encode_manifest(packed_entries(launcher.len() as int, ps));
    blob + manifest + encode_footer(blob.len() as u64, manifest.len() as u64, native_hash)
}

/// What packing gives.
pub open spec fn pack_spec(launcher: Seq<u8>, ps: Seq<PayloadView>, native_hash: Option<u64>) -> Result<
    Seq<u8>,
    ArchiveError,
> {
    if ps.len() > u32::MAX {
        Err(ArchiveError::TooManyPayloads)
    } else {
        match first_failure(ps) {
            Some(e) => Err(e),
            None => Ok(
                packed_archive(
                    launcher,
                    ps,
                    match native_hash {
                        Some(h) => h,
                        None => 0,
                    },
                ),
            ),
        }
    }
}

/// Every payload's frame gives its bytes back when the reader decodes it.
pub open spec fn frames_round_trip(ps: Seq<PayloadView>) -> bool {
    forall|i: int|
        0 <= i < ps.len() ==> zstd_stream_decode(#[trigger] packed_frames(ps)[i], decode_limit())
            == Some(ps[i].data)
}

pub(crate) fn append_bytes(out: &mut Vec<u8>, bytes: &[u8])
    ensures
        final(out)@ == old(out)@ + bytes@,
{
    let ghost before = out@;
    out.extend_from_slice(bytes);
    assert(out@ =~= before + bytes@);
}

proof fn lemma_first_failure_skip(ps: Seq<PayloadView>, i: int)
    requires
        0 <= i <= ps.len(),
        forall|j: int| 0 <= j < i ==> payload_failure(#[trigger] ps[j]) is None,
    ensures
        first_failure(ps) == first_failure(ps.skip(i)),
    decreases i,
{
    if i > 0 {
        let rest = ps.drop_first();
        assert forall|j: int| 0 <= j < i - 1 implies payload_failure(#[trigger] rest[j]) is None by {
            assert(rest[j] == ps[j + 1]);
        }
        lemma_first_failure_skip(rest, i - 1);
        assert(rest.skip(i - 1) =~= ps.skip(i));
    } else {
        assert(ps.skip(0) =~= ps);
    }
}

/// Builds an archive by appending the zstd-compressed payloads, a manifest and a footer
/// to the launcher. The footer records `native_hash`, or zero without one.
pub fn pack_files(launcher: &[u8], payloads: &[PayloadInput], native_hash: Option<u64>) -> (r:
    Result<Vec<u8>, ArchiveError>)
    ensures
        match pack_spec(launcher@, payload_views(payloads@), native_hash) {
            Ok(bytes) => r matches Ok(v) && v@ == bytes,
            Err(e) => r matches Err(err) && err == e,
        },
        r is Ok ==> frames_round_trip(payload_views(payloads@)),
{
    let ghost ps = payload_views(payloads@);
    if payloads.len() as u64 > 0xffff_ffffu64 {
        return Err(ArchiveError::TooManyPayloads);
    }
    let entry_count = payloads.len() as u32;
    let mut output: Vec<u8> = Vec::new();
    append_bytes(&mut output, launcher);
    let mut entries: Vec<ManifestEntry> = Vec::new();
    let mut i: usize = 0;
    assert(ps.skip(0) =~= ps);
    while i < payloads.len()
        invariant
            i <= payloads@.len(),
            ps.len() <= u32::MAX,
            entries@.len() == i,
            forall|j: int|
                0 <= j < entries@.len() ==> (#[trigger] entries@[j]).view().name.len()
                    <= MAX_NAME_SIZE,
            ps == payload_views(payloads@),
            ps.len() == payloads@.len(),
            forall|j: int| 0 <= j < i ==> payload_failure(#[trigger] ps[j]) is None,
            first_failure(ps) == first_failure(ps.skip(i as int)),
            output@ == launcher@ + concat_frames(packed_frames(ps).take(i as int)),
            entry_views(entries@) == packed_entries(launcher@.len() as int, ps).take(i as int),
            forall|j: int|
                0 <= j < i ==> zstd_stream_decode(#[trigger] packed_frames(ps)[j], decode_limit())
                    == Some(ps[j].data),
        decreases payloads@.len() - i,
    {
        let payload = &payloads[i];
        let ghost p = ps[i as int];
        assert(p == payload.view());
        assert(ps.skip(i as int)[0] == p);
        assert(ps.skip(i as int).drop_first() =~= ps.skip(i + 1));
        assert(ps.skip(i as int).len() > 0);
        let offset = output.len() as u64;
        let decompressed_size = payload.data.len() as u64;
        if decompressed_size > MAX_DECOMPRESSED_PAYLOAD_SIZE {
            return Err(ArchiveError::PayloadTooLarge);
        }
        let frame = match zstd_compress(payload.data.as_slice(), ZSTD_COMPRESSION_LEVEL, true) {
            Some(frame) => frame,
            None => return Err(ArchiveError::CompressionFailed),
        };
        // The frame is decoded again, as the reader will decode it, and must give the
        // payload back.
        match zstd_decompress(frame.as_slice(), MAX_DECOMPRESSED_PAYLOAD_SIZE + 1) {
            Some(decoded) => if !bytes_equal(decoded.as_slice(), payload.data.as_slice()) {
                return Err(ArchiveError::CompressionFailed);
            },
            None => return Err(ArchiveError::CompressionFailed),
        }
        let name = match &payload.name {
            Some(name) => name.clone(),
            None => return Err(ArchiveError::NoFileName),
        };
        if name.as_str().as_bytes().len() > MAX_NAME_SIZE {
            return Err(ArchiveError::NameTooLong);
        }
        let ghost before_output = output@;
        let ghost before_entries = entry_views(entries@);
        append_bytes(&mut output, frame.as_slice());
        let size = frame.len() as u64;
        entries.push(ManifestEntry { name, offset, size });
        proof {
            let pf = packed_frames(ps);
            assert(pf[i as int] == frame@);
            assert(pf.take(i + 1).drop_last() =~= pf.take(i as int));
            assert(pf.take(i + 1).last() == frame@);
            assert(output@ =~= launcher@ + concat_frames(pf.take(i + 1)));
            assert(entry_views(entries@) =~= before_entries.push(entries@[i as int].view()));
            assert(entry_views(entries@) =~= packed_entries(launcher@.len() as int, ps).take(i + 1));
            assert(payload.data@.len() <= decode_limit());
        }
        i = i + 1;
    }
    proof {
        lemma_first_failure_skip(ps, i as int);
        assert(ps.skip(i as int) =~= Seq::<PayloadView>::empty());
        assert(packed_frames(ps).take(i as int) =~= packed_frames(ps));
        assert(packed_entries(launcher@.len() as int, ps).take(i as int) =~= packed_entries(
            launcher@.len() as int,
            ps,
        ));
    }
    let ghost blob = output@;
    let ghost all_entries = entry_views(entries@);
    let manifest_offset = output.len() as u64;
    let count_bytes = u32_to_le_bytes(entry_count);
    append_bytes(&mut output, count_bytes.as_slice());
    let mut k: usize = 0;
    while k < entries.len()
        invariant
            k <= entries@.len(),
            all_entries == entry_views(entries@),
            output@ == blob + spec_u32_to_le_bytes(entry_count) + encode_entries(
                all_entries.take(k as int),
            ),
            forall|j: int|
                0 <= j < entries@.len() ==> (#[trigger] entries@[j]).view().name.len()
                    <= MAX_NAME_SIZE,
        decreases entries@.len() - k,
    {
        let entry = &entries[k];
        let name_bytes = entry.name.as_str().as_bytes();
        let ghost before = output@;
        append_bytes(&mut output, u32_to_le_bytes(name_bytes.len() as u32).as_slice());
        append_bytes(&mut output, name_bytes);
        append_bytes(&mut output, u64_to_le_bytes(entry.offset).as_slice());
        append_bytes(&mut output, u64_to_le_bytes(entry.size).as_slice());
        proof {
            let taken = all_entries.take(k + 1);
            assert(taken.drop_last() =~= all_entries.take(k as int));
            assert(taken.last() == entry.view());
            assert(output@ =~= before + encode_entry(entry.view()));
        }
        k = k + 1;
    }
    let manifest_size = output.len() as u64 - manifest_offset;
    append_bytes(&mut output, footer_magic_bytes().as_slice());
    append_bytes(&mut output, u64_to_le_bytes(manifest_offset).as_slice());
    append_bytes(&mut output, u64_to_le_bytes(manifest_size).as_slice());
    let hash = match native_hash {
        Some(h) => h,
        None => 0,
    };
    append_bytes(&mut output, u64_to_le_bytes(hash).as_slice());
    output.push(IS_LAUNCHED);
    proof {
        assert(all_entries.take(k as int) =~= all_entries);
        let manifest = encode_manifest(packed_entries(launcher@.len() as int, ps));
        assert(manifest =~= spec_u32_to_le_bytes(entry_count) + encode_entries(all_entries));
        assert(output@ =~= packed_archive(launcher@, ps, hash));
    }
    Ok(output)
}

} // verus!
