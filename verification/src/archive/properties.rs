use vstd::prelude::*;

use vstd::bytes::{
    lemma_auto_spec_u32_to_from_le_bytes, lemma_auto_spec_u64_to_from_le_bytes, spec_u32_to_le_bytes,
    spec_u64_to_le_bytes,
};
use vstd::utf8::{encode_utf8, encode_utf8_valid_utf8, valid_utf8};

use crate::archive::codec::zstd_stream_decode;
use crate::archive::format::{
    concat_frames, decode_entry, encode_entries, encode_entry, encode_footer, encode_manifest,
    first_failure, footer_magic, frames_round_trip, is_archive_spec, packed_archive, packed_entries,
    decode_limit, packed_frames, parse_archive, parse_entries, parse_entry, payload_failure, payload_name_bytes,
    read_back_spec, u32_at, u64_at, view_names, ArchiveError, EntryView, PayloadView, FOOTER_SIZE,
    IS_LAUNCHED, MAX_DECOMPRESSED_PAYLOAD_SIZE, MAX_NAME_SIZE,
};
use crate::archive::select::{
    ascii_lower, is_separator, names_native, candidate, fallback_from, first_match, label_matches_spec, label_of, level_pred, level_target,
    lemma_first_match_sound, names_level, native_identity_matches, native_pred, native_target,
    select_index, X86Level,
};

verus! {

/// The file names of the payloads, as UTF-8 bytes.
pub open spec fn payload_names(ps: Seq<PayloadView>) -> Seq<Seq<u8>> {
    ps.map_values(|p: PayloadView| payload_name_bytes(p))
}

/// An entry that the reader accepts inside a manifest starting at `manifest_offset`.
pub open spec fn entry_acceptable(e: EntryView, manifest_offset: u64) -> bool {
    &&& e.name.len() <= MAX_NAME_SIZE
    &&& valid_utf8(e.name)
    &&& e.offset + e.size <= manifest_offset
}

proof fn lemma_encode_entry_len(e: EntryView)
    ensures
        encode_entry(e).len() == 20 + e.name.len(),
{
    lemma_auto_spec_u32_to_from_le_bytes();
    lemma_auto_spec_u64_to_from_le_bytes();
    assert(spec_u64_to_le_bytes(e.offset).len() == 8);
    assert(spec_u64_to_le_bytes(e.size).len() == 8);
    assert(spec_u32_to_le_bytes(e.name.len() as u32).len() == 4);
}

proof fn lemma_encode_entries_front(es: Seq<EntryView>)
    requires
        es.len() > 0,
    ensures
        encode_entries(es) == encode_entry(es[0]) + encode_entries(es.drop_first()),
    decreases es.len(),
{
    if es.len() == 1 {
        assert(es.drop_last() =~= Seq::<EntryView>::empty());
        assert(es.drop_first() =~= Seq::<EntryView>::empty());
        assert(encode_entries(es) =~= encode_entry(es[0]) + encode_entries(es.drop_first()));
    } else {
        let init = es.drop_last();
        lemma_encode_entries_front(init);
        assert(init.drop_first() =~= es.drop_first().drop_last());
        assert(es.drop_first().last() == es.last());
        assert(init[0] == es[0]);
        assert(encode_entries(es) =~= encode_entry(es[0]) + encode_entries(es.drop_first()));
    }
}

proof fn lemma_encode_entries_len(es: Seq<EntryView>)
    ensures
        encode_entries(es).len() >= 20 * es.len(),
    decreases es.len(),
{
    if es.len() > 0 {
        lemma_encode_entries_len(es.drop_last());
        lemma_encode_entry_len(es.last());
    }
}

/// The reader parses encoded, acceptable entries back.
proof fn lemma_parse_encoded_entries(
    data: Seq<u8>,
    pos: int,
    end: int,
    manifest_offset: u64,
    es: Seq<EntryView>,
)
    requires
        0 <= pos <= end <= data.len(),
        data.subrange(pos, end) == encode_entries(es),
        forall|i: int| 0 <= i < es.len() ==> entry_acceptable(#[trigger] es[i], manifest_offset),
    ensures
        parse_entries(data, pos, end, manifest_offset, es.len()) == Ok::<
            (Seq<EntryView>, int),
            ArchiveError,
        >((es, end)),
    decreases es.len(),
{
    lemma_auto_spec_u32_to_from_le_bytes();
    lemma_auto_spec_u64_to_from_le_bytes();
    if es.len() == 0 {
        assert(data.subrange(pos, end).len() == 0);
        assert(es =~= Seq::<EntryView>::empty());
    } else {
        let e = es[0];
        let rest = es.drop_first();
        lemma_encode_entries_front(es);
        lemma_encode_entry_len(e);
        assert(entry_acceptable(e, manifest_offset));
        let enc = encode_entry(e);
        let whole = data.subrange(pos, end);
        let nl = e.name.len() as int;
        let next = pos + 20 + nl;
        assert(whole == enc + encode_entries(rest));
        assert(whole.len() == end - pos);
        assert(pos + 20 + nl <= end);
        assert(whole.subrange(0, enc.len() as int) =~= enc);
        assert(data.subrange(pos, pos + 4) =~= enc.subrange(0, 4));
        assert(enc.subrange(0, 4) =~= spec_u32_to_le_bytes(nl as u32));
        assert(u32_at(data, pos) == nl as u32);
        assert(data.subrange(pos + 4, pos + 4 + nl) =~= enc.subrange(4, 4 + nl));
        assert(enc.subrange(4, 4 + nl) =~= e.name);
        assert(data.subrange(pos + 4 + nl, pos + 12 + nl) =~= enc.subrange(4 + nl, 12 + nl));
        assert(enc.subrange(4 + nl, 12 + nl) =~= spec_u64_to_le_bytes(e.offset));
        assert(data.subrange(pos + 12 + nl, pos + 20 + nl) =~= enc.subrange(12 + nl, 20 + nl));
        assert(enc.subrange(12 + nl, 20 + nl) =~= spec_u64_to_le_bytes(e.size));
        assert(u64_at(data, pos + 4 + nl) == e.offset);
        assert(u64_at(data, pos + 12 + nl) == e.size);
        assert(parse_entry(data, pos, end, manifest_offset) == Ok::<(EntryView, int), ArchiveError>(
            (e, next),
        ));
        assert(data.subrange(next, end) =~= whole.subrange(enc.len() as int, whole.len() as int));
        assert(data.subrange(next, end) =~= encode_entries(rest));
        assert forall|i: int| 0 <= i < rest.len() implies entry_acceptable(
            #[trigger] rest[i],
            manifest_offset,
        ) by {
            assert(rest[i] == es[i + 1]);
        }
        lemma_parse_encoded_entries(data, next, end, manifest_offset, rest);
        assert(seq![e] + rest =~= es);
    }
}

proof fn lemma_concat_step(frames: Seq<Seq<u8>>, i: int)
    requires
        0 <= i < frames.len(),
    ensures
        concat_frames(frames.take(i + 1)) == concat_frames(frames.take(i)) + frames[i],
{
    assert(frames.take(i + 1).drop_last() =~= frames.take(i));
    assert(frames.take(i + 1).last() == frames[i]);
}

/// The frames before the `j`-th start the concatenation of all frames.
proof fn lemma_concat_prefix(frames: Seq<Seq<u8>>, j: int)
    requires
        0 <= j <= frames.len(),
    ensures
        concat_frames(frames.take(j)).len() <= concat_frames(frames).len(),
        concat_frames(frames).subrange(0, concat_frames(frames.take(j)).len() as int)
            == concat_frames(frames.take(j)),
    decreases frames.len(),
{
    if j == frames.len() {
        assert(frames.take(j) =~= frames);
        assert(concat_frames(frames).subrange(0, concat_frames(frames).len() as int) =~= concat_frames(
            frames,
        ));
    } else {
        let init = frames.drop_last();
        assert(init.take(j) =~= frames.take(j));
        lemma_concat_prefix(init, j);
        let c = concat_frames(frames.take(j));
        assert(concat_frames(frames).subrange(0, c.len() as int) =~= concat_frames(init).subrange(
            0,
            c.len() as int,
        ));
    }
}

/// The `i`-th frame stands in the concatenation right after the frames before it.
proof fn lemma_concat_slot(frames: Seq<Seq<u8>>, i: int)
    requires
        0 <= i < frames.len(),
    ensures
        concat_frames(frames.take(i)).len() + frames[i].len() <= concat_frames(frames).len(),
        concat_frames(frames).subrange(
            concat_frames(frames.take(i)).len() as int,
            (concat_frames(frames.take(i)).len() + frames[i].len()) as int,
        ) == frames[i],
{
    lemma_concat_step(frames, i);
    lemma_concat_prefix(frames, i + 1);
    let before = concat_frames(frames.take(i));
    let upto = concat_frames(frames.take(i + 1));
    let all = concat_frames(frames);
    assert(all.subrange(before.len() as int, upto.len() as int) =~= upto.subrange(
        before.len() as int,
        upto.len() as int,
    ));
    assert(upto.subrange(before.len() as int, upto.len() as int) =~= frames[i]);
}

proof fn lemma_no_failure(ps: Seq<PayloadView>)
    requires
        first_failure(ps) is None,
    ensures
        forall|i: int| 0 <= i < ps.len() ==> payload_failure(#[trigger] ps[i]) is None,
    decreases ps.len(),
{
    if ps.len() > 0 {
        lemma_no_failure(ps.drop_first());
        assert forall|i: int| 0 <= i < ps.len() implies payload_failure(#[trigger] ps[i]) is None by {
            if i > 0 {
                assert(ps[i] == ps.drop_first()[i - 1]);
            }
        }
    }
}

/// Every archive that packing builds carries the footer that `is_archive` recognizes.
pub proof fn lemma_packed_is_archive(launcher: Seq<u8>, ps: Seq<PayloadView>, native_hash: u64)
    ensures
        is_archive_spec(packed_archive(launcher, ps, native_hash)),
{
    lemma_auto_spec_u64_to_from_le_bytes();
    let blob = launcher + concat_frames(packed_frames(ps));
    let manifest = encode_manifest(packed_entries(launcher.len() as int, ps));
    let footer = encode_footer(blob.len() as u64, manifest.len() as u64, native_hash);
    let data = packed_archive(launcher, ps, native_hash);
    assert(footer.len() == FOOTER_SIZE);
    let start = (blob.len() + manifest.len()) as int;
    assert(data.subrange(start, start + 8) =~= footer.subrange(0, 8));
    assert(footer.subrange(0, 8) =~= footer_magic());
    assert(data[data.len() - 1] == footer[32]);
}

/// A file is recognized as an archive exactly when it is at least 33 bytes long, its
/// last 33 bytes start with the magic `VPKFOOT\0`, and its last byte is `1`; that is,
/// exactly when the reader finds the file long enough and its footer's magic and launch
/// marker right. A file without the footer magic is never an archive.
pub proof fn lemma_is_archive_exactly_footer(data: Seq<u8>)
    ensures
        is_archive_spec(data) <==> {
            &&& data.len() >= 33
            &&& data.subrange(data.len() - 33, data.len() - 25) == seq![
                86u8,
                80u8,
                75u8,
                70u8,
                79u8,
                79u8,
                84u8,
                0u8,
            ]
            &&& data[data.len() - 1] == 1u8
        },
        is_archive_spec(data) <==> !(parse_archive(data) matches Err(e) && (e
            == ArchiveError::FileTooSmall || e == ArchiveError::InvalidMagic || e
            == ArchiveError::InvalidLaunchFlag)),
{
    if data.len() >= FOOTER_SIZE {
        let footer = data.len() - FOOTER_SIZE;
        let manifest_offset = u64_at(data, footer + 8);
        let count = u32_at(data, manifest_offset as int);
        lemma_entry_errors(data, manifest_offset + 4, footer, manifest_offset, count as nat);
    }
}

/// The errors that parsing manifest entries can give.
proof fn lemma_entry_errors(data: Seq<u8>, pos: int, end: int, manifest_offset: u64, count: nat)
    ensures
        parse_entries(data, pos, end, manifest_offset, count) matches Err(e) ==> {
            ||| e == ArchiveError::EntryOutOfBounds
            ||| e == ArchiveError::StoredNameTooLong
            ||| e == ArchiveError::InvalidName
            ||| e == ArchiveError::PayloadRangeOverflow
            ||| e == ArchiveError::PayloadOverlapsManifest
        },
    decreases count,
{
    if count > 0 {
        if let Ok((e, next)) = parse_entry(data, pos, end, manifest_offset) {
            lemma_entry_errors(data, next, end, manifest_offset, (count - 1) as nat);
        }
    }
}

/// Whatever the reader accepts, `is_archive` recognizes.
pub proof fn lemma_accepted_is_archive(data: Seq<u8>)
    requires
        parse_archive(data) is Ok,
    ensures
        is_archive_spec(data),
{
}

/// Reading back a packed archive gives the bytes of the payload that the host selects
/// among the packed payload names with the packed native identity. The hypotheses are
/// those under which packing succeeds: at most `u32::MAX` payloads, none refused, every
/// frame decompressing to its payload (which packing guarantees of the frames it
/// writes), and an archive whose length fits in a `u64`.
pub proof fn lemma_read_back_of_packed(
    launcher: Seq<u8>,
    ps: Seq<PayloadView>,
    native_hash: u64,
    level: X86Level,
    current: Option<u64>,
)
    requires
        ps.len() <= u32::MAX,
        first_failure(ps) is None,
        frames_round_trip(ps),
        packed_archive(launcher, ps, native_hash).len() <= u64::MAX,
    ensures
        read_back_spec(packed_archive(launcher, ps, native_hash), level, current) == match select_index(
            payload_names(ps),
            spec_u64_to_le_bytes(native_hash),
            level,
            current,
        ) {
            Some(i) => Ok::<Seq<u8>, ArchiveError>(ps[i].data),
            None => Err(ArchiveError::NoCompatibleBinary),
        },
{
    lemma_auto_spec_u32_to_from_le_bytes();
    lemma_auto_spec_u64_to_from_le_bytes();
    lemma_no_failure(ps);
    let frames = packed_frames(ps);
    let all = concat_frames(frames);
    let base = launcher.len() as int;
    let blob = launcher + all;
    let es = packed_entries(base, ps);
    let manifest = encode_manifest(es);
    let moff = blob.len() as u64;
    let msize = manifest.len() as u64;
    let footer_bytes = encode_footer(moff, msize, native_hash);
    let data = packed_archive(launcher, ps, native_hash);
    assert(data == blob + manifest + footer_bytes);
    assert(footer_bytes.len() == FOOTER_SIZE);
    let footer = data.len() - FOOTER_SIZE;
    assert(footer == blob.len() + manifest.len());
    assert(moff == blob.len());
    assert(msize == manifest.len());
    // The footer.
    assert(data.subrange(footer, data.len() as int) =~= footer_bytes);
    assert(data.subrange(footer, footer + 8) =~= footer_magic());
    assert(data.subrange(footer + 8, footer + 16) =~= spec_u64_to_le_bytes(moff));
    assert(data.subrange(footer + 16, footer + 24) =~= spec_u64_to_le_bytes(msize));
    assert(data.subrange(footer + 24, footer + 32) =~= spec_u64_to_le_bytes(native_hash));
    assert(data[data.len() - 1] == IS_LAUNCHED);
    assert(u64_at(data, footer + 8) == moff);
    assert(u64_at(data, footer + 16) == msize);
    // The manifest.
    let entries_bytes = encode_entries(es);
    assert(manifest == spec_u32_to_le_bytes(ps.len() as u32) + entries_bytes);
    assert(data.subrange(moff as int, moff + 4) =~= spec_u32_to_le_bytes(ps.len() as u32));
    assert(u32_at(data, moff as int) == ps.len());
    lemma_encode_entries_len(es);
    assert(msize >= 4);
    assert(ps.len() <= (msize - 4) / 20) by (nonlinear_arith)
        requires
            msize - 4 >= 20 * ps.len(),
    ;
    assert(data.subrange(moff + 4, footer) =~= entries_bytes);
    assert forall|i: int| 0 <= i < es.len() implies entry_acceptable(#[trigger] es[i], moff) by {
        assert(payload_failure(ps[i]) is None);
        lemma_concat_slot(frames, i);
        encode_utf8_valid_utf8(ps[i].name.unwrap());
    }
    lemma_parse_encoded_entries(data, moff + 4, footer, moff, es);
    assert(parse_archive(data) == Ok::<(Seq<EntryView>, Seq<u8>), ArchiveError>(
        (es, spec_u64_to_le_bytes(native_hash)),
    ));
    // The selection.
    assert(view_names(es) =~= payload_names(ps));
    // The payload.
    crate::archive::select::lemma_select_index_in_range(
        payload_names(ps),
        spec_u64_to_le_bytes(native_hash),
        level,
        current,
    );
    if let Some(i) = select_index(payload_names(ps), spec_u64_to_le_bytes(native_hash), level, current) {
        let e = es[i];
        lemma_concat_slot(frames, i);
        let before = concat_frames(frames.take(i)).len();
        assert(e.offset == base + before);
        assert(data.subrange(e.offset as int, e.offset + e.size) =~= all.subrange(
            before as int,
            (before + frames[i].len()) as int,
        ));
        assert(zstd_stream_decode(frames[i], decode_limit()) == Some(ps[i].data));
        assert(decode_entry(data, e) == Ok::<Seq<u8>, ArchiveError>(ps[i].data));
    }
}

proof fn lemma_candidate_of_rank(d: X86Level)
    ensures
        candidate(3 - d.rank()) == d,
        0 <= 3 - d.rank() < 4,
{
}

/// The index of the candidate whose payload fallback selection takes, from the `k`-th
/// candidate on; `4` when it takes none.
spec fn fallback_candidate(names: Seq<Seq<u8>>, level: X86Level, k: int) -> int
    decreases 4 - k,
{
    if k >= 4 {
        4
    } else if candidate(k).rank() <= level.rank() && first_match(
        names,
        level_pred(candidate(k)),
    ) is Some {
        k
    } else {
        fallback_candidate(names, level, k + 1)
    }
}

proof fn lemma_fallback_characterization(names: Seq<Seq<u8>>, level: X86Level, k: int)
    requires
        0 <= k <= 4,
    ensures
        k <= fallback_candidate(names, level, k) <= 4,
        fallback_candidate(names, level, k) < 4 ==> {
            let m = fallback_candidate(names, level, k);
            &&& candidate(m).rank() <= level.rank()
            &&& fallback_from(names, level, k) == first_match(names, level_pred(candidate(m)))
            &&& first_match(names, level_pred(candidate(m))) is Some
        },
        fallback_candidate(names, level, k) == 4 ==> fallback_from(names, level, k) is None,
        forall|m2: int|
            k <= m2 < fallback_candidate(names, level, k) && candidate(m2).rank() <= level.rank()
                ==> first_match(names, level_pred(#[trigger] candidate(m2))) is None,
    decreases 4 - k,
{
    if k < 4 {
        lemma_fallback_characterization(names, level, k + 1);
    }
}

/// Selection without a usable `native` payload takes a payload naming the highest
/// x86-64 level that both the host supports and some payload names: the chosen name
/// names a level at most the host's, and no payload names a higher level that the host
/// still supports. It finds nothing exactly when no payload names a level that the host
/// supports.
pub proof fn lemma_selection_prefers_highest_level(
    names: Seq<Seq<u8>>,
    stored: Seq<u8>,
    level: X86Level,
    current: Option<u64>,
)
    requires
        !(native_identity_matches(stored, current) && first_match(names, native_pred()) is Some),
    ensures
        select_index(names, stored, level, current) matches Some(i) ==> exists|c: X86Level|
            c.rank() <= level.rank() && #[trigger] names_level(names[i], c) && forall|
                d: X86Level,
                j: int,
            |
                c.rank() < d.rank() <= level.rank() && 0 <= j < names.len() ==> !(#[trigger] names_level(names[j], d)),
        select_index(names, stored, level, current) is None <==> forall|d: X86Level, j: int|
            d.rank() <= level.rank() && 0 <= j < names.len() ==> !(#[trigger] names_level(names[j], d)),
{
    lemma_fallback_characterization(names, level, 0);
    if let Some(i) = select_index(names, stored, level, current) {
        let m = fallback_candidate(names, level, 0);
        let c = candidate(m);
        lemma_first_match_sound(names, level_pred(c));
        assert(level_pred(c)(names[i]));
        assert(names_level(names[i], c));
        assert forall|d: X86Level, j: int|
            c.rank() < d.rank() <= level.rank() && 0 <= j < names.len() implies !(#[trigger] names_level(names[j], d)) by {
            lemma_candidate_of_rank(d);
            let m2 = 3 - d.rank();
            assert(candidate(m2) == d);
            lemma_first_match_sound(names, level_pred(d));
            assert(!level_pred(d)(names[j]));
        }
        if forall|d: X86Level, j: int|
            d.rank() <= level.rank() && 0 <= j < names.len() ==> !(#[trigger] names_level(names[j], d)) {
            assert(!names_level(names[i], c));
        }
    } else {
        assert forall|d: X86Level, j: int|
            d.rank() <= level.rank() && 0 <= j < names.len() implies !(#[trigger] names_level(names[j], d)) by {
            lemma_candidate_of_rank(d);
            let m = 3 - d.rank();
            assert(candidate(m) == d);
            lemma_first_match_sound(names, level_pred(d));
            assert(!level_pred(d)(names[j]));
        }
    }
}

/// A `native` payload is chosen when the stored native identity matches the host's and
/// the archive holds one: the first payload naming `native` is then selected.
pub proof fn lemma_selection_uses_native(
    names: Seq<Seq<u8>>,
    stored: Seq<u8>,
    level: X86Level,
    current: Option<u64>,
)
    requires
        native_identity_matches(stored, current),
        first_match(names, native_pred()) is Some,
    ensures
        select_index(names, stored, level, current) == first_match(names, native_pred()),
{
}

proof fn lemma_parsed_entries_acceptable(
    data: Seq<u8>,
    pos: int,
    end: int,
    manifest_offset: u64,
    count: nat,
)
    requires
        0 <= pos,
        end <= data.len(),
    ensures
        parse_entries(data, pos, end, manifest_offset, count) matches Ok((es, last)) ==> {
            &&& es.len() == count
            &&& forall|i: int|
                0 <= i < es.len() ==> entry_acceptable(#[trigger] es[i], manifest_offset)
        },
    decreases count,
{
    if count > 0 {
        if let Ok((e, next)) = parse_entry(data, pos, end, manifest_offset) {
            lemma_parsed_entries_acceptable(data, next, end, manifest_offset, (count - 1) as nat);
            if let Ok((rest, last)) = parse_entries(
                data,
                next,
                end,
                manifest_offset,
                (count - 1) as nat,
            ) {
                let es = seq![e] + rest;
                assert(entry_acceptable(e, manifest_offset));
                assert forall|i: int| 0 <= i < es.len() implies entry_acceptable(
                    #[trigger] es[i],
                    manifest_offset,
                ) by {
                    if i > 0 {
                        assert(es[i] == rest[i - 1]);
                    }
                }
            }
        }
    }
}

/// What the reader accepts is well formed: the manifest ends exactly where the footer
/// begins, holds no more entries than fit in it, and every entry has a UTF-8 name of at
/// most 4096 bytes and a payload that ends before the manifest begins.
pub proof fn lemma_accepted_archive_is_well_formed(data: Seq<u8>)
    requires
        parse_archive(data) is Ok,
    ensures
        ({
            let footer = data.len() - FOOTER_SIZE;
            let manifest_offset = u64_at(data, footer + 8);
            let manifest_size = u64_at(data, footer + 16);
            let (es, native_hash) = parse_archive(data).unwrap();
            &&& manifest_offset + manifest_size == footer
            &&& native_hash.len() == 8
            &&& 20 * es.len() <= manifest_size - 4
            &&& forall|i: int|
                0 <= i < es.len() ==> entry_acceptable(#[trigger] es[i], manifest_offset)
        }),
{
    let footer = data.len() - FOOTER_SIZE;
    let manifest_offset = u64_at(data, footer + 8);
    let manifest_size = u64_at(data, footer + 16);
    let count = u32_at(data, manifest_offset as int);
    lemma_parsed_entries_acceptable(data, manifest_offset + 4, footer, manifest_offset, count as nat);
    assert(count * 20 <= manifest_size - 4) by (nonlinear_arith)
        requires
            count <= (manifest_size - 4) / 20,
            manifest_size >= 4,
    ;
}

/// A payload that the reader returns is at most 1 GiB long.
pub proof fn lemma_read_back_size_limit(data: Seq<u8>, level: X86Level, current: Option<u64>)
    requires
        read_back_spec(data, level, current) is Ok,
    ensures
        read_back_spec(data, level, current).unwrap().len() <= MAX_DECOMPRESSED_PAYLOAD_SIZE,
{
}

/// Payload matching accepts hyphenated or underscored target names after a `-` or `_`,
/// and ignores a final `.exe` extension in any letter case: such a name identifies the
/// level, or `native`.
pub proof fn lemma_payload_name_spellings(
    prefix: Seq<u8>,
    sep: u8,
    spelling: u8,
    level: X86Level,
    exe: Seq<u8>,
)
    requires
        is_separator(sep),
        is_separator(spelling),
        exe.len() == 0 || (exe.len() == 4 && exe[0] == 46u8 && ascii_lower(exe[1]) == 101u8
            && ascii_lower(exe[2]) == 120u8 && ascii_lower(exe[3]) == 101u8),
    ensures
        names_level(prefix + seq![sep] + level_target(level, spelling) + exe, level),
        names_native(prefix + seq![sep] + native_target() + exe),
{
    let stem = prefix + seq![sep] + level_target(level, spelling);
    let native_stem = prefix + seq![sep] + native_target();
    let name = stem + exe;
    let native_name = native_stem + exe;
    if exe.len() == 0 {
        assert(name =~= stem);
        assert(native_name =~= native_stem);
        assert(stem[stem.len() - 4] != 46u8);
        assert(native_stem[native_stem.len() - 4] != 46u8);
    } else {
        assert(name.take(name.len() - 4) =~= stem);
        assert(native_name.take(native_name.len() - 4) =~= native_stem);
    }
    assert(stem.skip(stem.len() - level_target(level, spelling).len()) =~= level_target(
        level,
        spelling,
    ));
    assert(native_stem.skip(native_stem.len() - native_target().len()) =~= native_target());
    if spelling == 45u8 {
        assert(label_matches_spec(label_of(name), level_target(level, 45u8)));
    } else {
        assert(label_matches_spec(label_of(name), level_target(level, 95u8)));
    }
}

} // verus!
