use vstd::prelude::*;

use crate::archive::format::ArchiveError;
use vstd::utf8::encode_utf8;

verus! {

/// Something that carries a payload name, by which selection picks it.
pub trait PayloadName {
    /// The UTF-8 bytes of the payload name.
    spec fn name_bytes(&self) -> Seq<u8>;

    /// The payload name.
    fn payload_name(&self) -> (r: &str)
        ensures
            encode_utf8(r@) == self.name_bytes(),
    ;
}

/// The standardized x86-64 micro-architecture levels, from least to most capable.
#[derive(Debug, Clone, Copy, PartialEq, Eq, Structural)]
pub enum X86Level {
    X86_64,
    V2,
    V3,
    V4,
}

impl X86Level {
    /// The position of the level in the order `X86_64 < V2 < V3 < V4`.
    pub open spec fn rank(self) -> int {
        match self {
            X86Level::X86_64 => 0,
            X86Level::V2 => 1,
            X86Level::V3 => 2,
            X86Level::V4 => 3,
        }
    }

    /// Executable form of [`X86Level::rank`].
    pub fn level_rank(&self) -> (r: u8)
        ensures
            r == self.rank(),
    {
        match self {
            X86Level::X86_64 => 0,
            X86Level::V2 => 1,
            X86Level::V3 => 2,
            X86Level::V4 => 3,
        }
    }
}

pub open spec fn is_separator(b: u8) -> bool {
    b == 45u8 || b == 95u8
}

pub open spec fn ascii_lower(b: u8) -> u8 {
    if 65 <= b <= 90 {
        (b + 32) as u8
    } else {
        b
    }
}

/// A name ends in a final `.exe` extension, compared ASCII-case-insensitively.
pub open spec fn has_exe_extension(name: Seq<u8>) -> bool {
    let n = name.len();
    &&& n >= 4
    &&& name[n - 4] == 46u8
    &&& ascii_lower(name[n - 3]) == 101u8
    &&& ascii_lower(name[n - 2]) == 120u8
    &&& ascii_lower(name[n - 1]) == 101u8
}

/// The label of a payload name: the name without a final `.exe` extension.
pub open spec fn label_of(name: Seq<u8>) -> Seq<u8> {
    if has_exe_extension(name) {
        name.take(name.len() - 4)
    } else {
        name
    }
}

/// A label names a target when it is the target itself, or ends with the target
/// right after a `-` or `_` separator.
pub open spec fn label_matches_spec(label: Seq<u8>, target: Seq<u8>) -> bool {
    ||| label == target
    ||| {
        &&& label.len() > target.len()
        &&& label.skip(label.len() - target.len()) == target
        &&& is_separator(label[label.len() - target.len() - 1])
    }
}

/// The target name `native`.
pub open spec fn native_target() -> Seq<u8> {
    seq![110u8, 97u8, 116u8, 105u8, 118u8, 101u8]
}

/// The target name of an x86-64 level, spelled with the separator `sep`
/// (`x86-64`, `x86-64-v2`, ... for `-`; `x86_64`, `x86_64_v2`, ... for `_`).
pub open spec fn level_target(level: X86Level, sep: u8) -> Seq<u8> {
    let base = seq![120u8, 56u8, 54u8, sep, 54u8, 52u8];
    match level {
        X86Level::X86_64 => base,
        X86Level::V2 => base + seq![sep, 118u8, 50u8],
        X86Level::V3 => base + seq![sep, 118u8, 51u8],
        X86Level::V4 => base + seq![sep, 118u8, 52u8],
    }
}

/// A payload name identifies the `native` build.
pub open spec fn names_native(name: Seq<u8>) -> bool {
    label_matches_spec(label_of(name), native_target())
}

/// A payload name identifies the build for `level`, in either spelling.
pub open spec fn names_level(name: Seq<u8>, level: X86Level) -> bool {
    ||| label_matches_spec(label_of(name), level_target(level, 45u8))
    ||| label_matches_spec(label_of(name), level_target(level, 95u8))
}

/// The index of the first name that satisfies `pred`.
pub open spec fn first_match(names: Seq<Seq<u8>>, pred: spec_fn(Seq<u8>) -> bool) -> Option<int>
    decreases names.len(),
{
    if names.len() == 0 {
        None
    } else if pred(names[0]) {
        Some(0)
    } else {
        match first_match(names.drop_first(), pred) {
            Some(i) => Some(i + 1),
            None => None,
        }
    }
}

/// The candidate levels in the order in which they are tried: `V4`, `V3`, `V2`, `X86_64`.
pub open spec fn candidate(k: int) -> X86Level {
    if k <= 0 {
        X86Level::V4
    } else if k == 1 {
        X86Level::V3
    } else if k == 2 {
        X86Level::V2
    } else {
        X86Level::X86_64
    }
}

pub open spec fn level_pred(level: X86Level) -> spec_fn(Seq<u8>) -> bool {
    |name: Seq<u8>| names_level(name, level)
}

pub open spec fn native_pred() -> spec_fn(Seq<u8>) -> bool {
    |name: Seq<u8>| names_native(name)
}

/// Fallback selection, trying the candidates from the `k`-th on: a candidate above the
/// host level is skipped; otherwise the first entry naming it is taken.
pub open spec fn fallback_from(names: Seq<Seq<u8>>, level: X86Level, k: int) -> Option<int>
    decreases 4 - k,
{
    if k >= 4 {
        None
    } else if candidate(k).rank() > level.rank() {
        fallback_from(names, level, k + 1)
    } else {
        match first_match(names, level_pred(candidate(k))) {
            Some(i) => Some(i),
            None => fallback_from(names, level, k + 1),
        }
    }
}

/// The stored native identity equals the identity of the current host.
pub open spec fn native_identity_matches(stored: Seq<u8>, current: Option<u64>) -> bool {
    match current {
        Some(hash) => vstd::bytes::spec_u64_to_le_bytes(hash) == stored,
        None => false,
    }
}

/// The index of the payload that a host of `level` with native identity `current`
/// runs, among payloads named `names` packed with native identity `stored`.
pub open spec fn select_index(
    names: Seq<Seq<u8>>,
    stored: Seq<u8>,
    level: X86Level,
    current: Option<u64>,
) -> Option<int> {
    let native = first_match(names, native_pred());
    if native_identity_matches(stored, current) && native is Some {
        native
    } else {
        fallback_from(names, level, 0)
    }
}

/// The payload names of a list of entries.
pub open spec fn entry_names<E: PayloadName>(entries: Seq<E>) -> Seq<Seq<u8>> {
    entries.map_values(|e: E| e.name_bytes())
}

/// A scan that found no match in the first `i` names finds the first match at `i`
/// if there is one, and none at all if `i` is the end.
pub proof fn lemma_first_match_scan(names: Seq<Seq<u8>>, pred: spec_fn(Seq<u8>) -> bool, i: int)
    requires
        0 <= i <= names.len(),
        forall|j: int| 0 <= j < i ==> !pred(#[trigger] names[j]),
    ensures
        i < names.len() && pred(names[i]) ==> first_match(names, pred) == Some(i),
        i == names.len() ==> first_match(names, pred) is None,
    decreases i,
{
    if names.len() > 0 && i > 0 {
        let rest = names.drop_first();
        assert forall|j: int| 0 <= j < i - 1 implies !pred(#[trigger] rest[j]) by {
            assert(rest[j] == names[j + 1]);
        }
        lemma_first_match_scan(rest, pred, i - 1);
        if i < names.len() {
            assert(rest[i - 1] == names[i]);
        }
    }
}

/// A found match satisfies the predicate and nothing before it does.
pub proof fn lemma_first_match_sound(names: Seq<Seq<u8>>, pred: spec_fn(Seq<u8>) -> bool)
    ensures
        first_match(names, pred) matches Some(i) ==> {
            &&& 0 <= i < names.len()
            &&& pred(names[i])
            &&& forall|j: int| 0 <= j < i ==> !pred(#[trigger] names[j])
        },
        first_match(names, pred) is None ==> forall|j: int|
            0 <= j < names.len() ==> !pred(#[trigger] names[j]),
    decreases names.len(),
{
    if names.len() > 0 {
        let rest = names.drop_first();
        lemma_first_match_sound(rest, pred);
        if !pred(names[0]) {
            assert forall|j: int| 0 < j < names.len() implies names[j] == rest[j - 1] by {}
            if let Some(i) = first_match(names, pred) {
                assert forall|j: int| 0 <= j < i implies !pred(#[trigger] names[j]) by {
                    if j > 0 {
                        assert(names[j] == rest[j - 1]);
                    }
                }
            } else {
                assert forall|j: int| 0 <= j < names.len() implies !pred(#[trigger] names[j]) by {
                    if j > 0 {
                        assert(names[j] == rest[j - 1]);
                    }
                }
            }
        }
    }
}

/// A selected index is an index of the names.
pub proof fn lemma_select_index_in_range(
    names: Seq<Seq<u8>>,
    stored: Seq<u8>,
    level: X86Level,
    current: Option<u64>,
)
    ensures
        select_index(names, stored, level, current) matches Some(i) ==> 0 <= i < names.len(),
{
    lemma_first_match_sound(names, native_pred());
    lemma_fallback_in_range(names, level, 0);
}

proof fn lemma_fallback_in_range(names: Seq<Seq<u8>>, level: X86Level, k: int)
    ensures
        fallback_from(names, level, k) matches Some(i) ==> 0 <= i < names.len(),
    decreases 4 - k,
{
    if k < 4 {
        lemma_first_match_sound(names, level_pred(candidate(k)));
        lemma_fallback_in_range(names, level, k + 1);
    }
}

/// Byte-wise equality of two slices.
pub fn bytes_equal(a: &[u8], b: &[u8]) -> (r: bool)
    ensures
        r == (a@ == b@),
{
    if a.len() != b.len() {
        return false;
    }
    let mut i: usize = 0;
    while i < a.len()
        invariant
            a@.len() == b@.len(),
            i <= a@.len(),
            a@.take(i as int) == b@.take(i as int),
        decreases a@.len() - i,
    {
        if a[i] != b[i] {
            assert(a@[i as int] != b@[i as int]);
            return false;
        }
        assert(a@.take(i + 1) == a@.take(i as int).push(a@[i as int]));
        assert(b@.take(i + 1) == b@.take(i as int).push(b@[i as int]));
        i = i + 1;
    }
    assert(a@ == a@.take(i as int));
    assert(b@ == b@.take(i as int));
    true
}

fn to_ascii_lower(b: u8) -> (r: u8)
    ensures
        r == ascii_lower(b),
{
    if 65 <= b && b <= 90 {
        b + 32
    } else {
        b
    }
}

/// Removes a final `.exe` extension, compared ASCII-case-insensitively, from a payload name.
pub fn payload_label(name: &[u8]) -> (label: &[u8])
    ensures
        label@ == label_of(name@),
{
    let n = name.len();
    if n >= 4 && name[n - 4] == 46u8 && to_ascii_lower(name[n - 3]) == 101u8
        && to_ascii_lower(name[n - 2]) == 120u8 && to_ascii_lower(name[n - 1]) == 101u8 {
        &name[0..n - 4]
    } else {
        name
    }
}

/// Matches a target as the complete label or as a suffix separated by `-` or `_`.
pub fn label_matches(label: &[u8], target: &[u8]) -> (r: bool)
    ensures
        r == label_matches_spec(label@, target@),
{
    if bytes_equal(label, target) {
        return true;
    }
    let n = label.len();
    let t = target.len();
    if n <= t {
        return false;
    }
    let suffix = &label[n - t..n];
    assert(suffix@ == label@.skip(n - t));
    bytes_equal(suffix, target) && (label[n - t - 1] == 45u8 || label[n - t - 1] == 95u8)
}

fn native_target_bytes() -> (v: Vec<u8>)
    ensures
        v@ == native_target(),
{
    let v: Vec<u8> = vec![110u8, 97u8, 116u8, 105u8, 118u8, 101u8];
    assert(v@ == native_target());
    v
}

/// The target name of `level` spelled with the separator `sep`.
pub fn level_target_bytes(level: X86Level, sep: u8) -> (v: Vec<u8>)
    ensures
        v@ == level_target(level, sep),
{
    let mut v: Vec<u8> = vec![120u8, 56u8, 54u8, sep, 54u8, 52u8];
    match level {
        X86Level::X86_64 => {},
        X86Level::V2 => {
            v.push(sep);
            v.push(118u8);
            v.push(50u8);
        },
        X86Level::V3 => {
            v.push(sep);
            v.push(118u8);
            v.push(51u8);
        },
        X86Level::V4 => {
            v.push(sep);
            v.push(118u8);
            v.push(52u8);
        },
    }
    assert(v@ == level_target(level, sep));
    v
}

fn candidate_at(k: usize) -> (c: X86Level)
    ensures
        c == candidate(k as int),
{
    if k == 0 {
        X86Level::V4
    } else if k == 1 {
        X86Level::V3
    } else if k == 2 {
        X86Level::V2
    } else {
        X86Level::X86_64
    }
}

/// Does the stored native identity equal the little-endian bytes of the current one?
fn identity_matches(stored: &[u8], current: Option<u64>) -> (r: bool)
    ensures
        r == native_identity_matches(stored@, current),
{
    match current {
        Some(hash) => {
            let bytes = vstd::bytes::u64_to_le_bytes(hash);
            bytes_equal(bytes.as_slice(), stored)
        },
        None => false,
    }
}

/// Selects the payload to run: a `native` payload when the stored native identity
/// matches the current host, otherwise the first payload naming the highest
/// x86-64 level that the host supports, falling back through v4, v3, v2 and baseline.
pub fn select_optimal<'a, E: PayloadName>(
    entries: &'a [E],
    native_hash: &[u8],
    level: X86Level,
    current_native_hash: Option<u64>,
) -> (r: Result<&'a E, ArchiveError>)
    ensures
        match select_index(entry_names(entries@), native_hash@, level, current_native_hash) {
            Some(i) => r matches Ok(e) && *e == entries@[i],
            None => r == Err::<&E, ArchiveError>(ArchiveError::NoCompatibleBinary),
        },
{
    let ghost names = entry_names(entries@);
    if identity_matches(native_hash, current_native_hash) {
        let native = native_target_bytes();
        let mut i: usize = 0;
        while i < entries.len()
            invariant
                i <= entries@.len(),
                names == entry_names(entries@),
                native@ == native_target(),
                native_identity_matches(native_hash@, current_native_hash),
                forall|j: int| 0 <= j < i ==> !native_pred()(#[trigger] names[j]),
            decreases entries@.len() - i,
        {
            let label = payload_label(entries[i].payload_name().as_bytes());
            assert(names[i as int] == entries@[i as int].name_bytes());
            if label_matches(label, native.as_slice()) {
                proof {
                    assert(native_pred()(names[i as int]));
                    lemma_first_match_scan(names, native_pred(), i as int);
                }
                return Ok(&entries[i]);
            }
            i = i + 1;
        }
        proof {
            lemma_first_match_scan(names, native_pred(), i as int);
        }
    }
    let ghost result = fallback_from(names, level, 0);
    let mut k: usize = 0;
    while k < 4
        invariant
            k <= 4,
            names == entry_names(entries@),
            result == select_index(names, native_hash@, level, current_native_hash),
            result == fallback_from(names, level, k as int),
        decreases 4 - k,
    {
        let cand = candidate_at(k);
        if cand.level_rank() <= level.level_rank() {
            let hyphen = level_target_bytes(cand, 45u8);
            let underscore = level_target_bytes(cand, 95u8);
            let mut i: usize = 0;
            while i < entries.len()
                invariant
                    i <= entries@.len(),
                    names == entry_names(entries@),
                    hyphen@ == level_target(cand, 45u8),
                    underscore@ == level_target(cand, 95u8),
                    cand == candidate(k as int),
                    cand.rank() <= level.rank(),
                    k < 4,
                    result == select_index(names, native_hash@, level, current_native_hash),
                    result == fallback_from(names, level, k as int),
                    forall|j: int| 0 <= j < i ==> !level_pred(cand)(#[trigger] names[j]),
                decreases entries@.len() - i,
            {
                let label = payload_label(entries[i].payload_name().as_bytes());
                assert(names[i as int] == entries@[i as int].name_bytes());
                if label_matches(label, hyphen.as_slice()) || label_matches(
                    label,
                    underscore.as_slice(),
                ) {
                    proof {
                        assert(level_pred(cand)(names[i as int]));
                        lemma_first_match_scan(names, level_pred(cand), i as int);
                    }
                    return Ok(&entries[i]);
                }
                i = i + 1;
            }
            proof {
                lemma_first_match_scan(names, level_pred(cand), i as int);
            }
        }
        k = k + 1;
    }
    Err(ArchiveError::NoCompatibleBinary)
}

} // verus!
