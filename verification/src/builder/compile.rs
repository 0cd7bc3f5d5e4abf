use vstd::prelude::*;

use vstd::utf8::encode_utf8;

use crate::archive::select::{
    bytes_equal, candidate, fallback_from, first_match, is_separator, label_matches_spec, label_of,
    lemma_first_match_scan, level_pred, level_target, names_level, names_native,
    native_identity_matches, native_pred, native_target, select_index, X86Level,
};
use crate::text::ascii_string;

verus! {

/// The languages whose projects can be built.
#[derive(Debug, Clone, Copy, PartialEq, Eq, Structural)]
pub enum Language {
    C,
    Cpp,
    Rust,
    Zig,
}

/// The five CPU variants that every project is built for, in build order.
#[derive(Debug, Clone, Copy, PartialEq, Eq, Structural)]
pub enum Variant {
    Native,
    X86_64,
    V2,
    V3,
    V4,
}

/// Why a project cannot be built.
#[derive(Debug, Clone, Copy, PartialEq, Eq, Structural)]
pub enum BuildError {
    /// No recognized source file was found.
    NoLanguage,
    /// Several languages share the largest number of source files, which is given.
    AmbiguousLanguage(usize),
    /// `Cargo.toml` is not a valid TOML document.
    InvalidCargoManifest,
    /// `Cargo.toml` defines more than one `[[bin]]` target.
    MultipleBinaries,
    /// `Cargo.toml` names neither a binary nor a package.
    NoBinaryName,
    /// A CMake build produced no executable.
    NoExecutable,
    /// A CMake build produced more than one executable.
    MultipleExecutables,
}

/// One build of a project for one CPU variant.
pub struct BuildVariant {
    pub variant: Variant,
    /// The variant as this language's tools spell it (`x86-64-v2` or `x86_64_v2`).
    pub name: String,
    /// The variant as a GCC-style CPU name (`native`, `x86-64`, ..., `x86-64-v4`).
    pub cpu: String,
    /// The file name of the built payload, before the platform's executable suffix.
    pub output_stem: String,
}

/// The language of a project and its five builds.
pub struct BuildPlan {
    pub language: Language,
    pub variants: Vec<BuildVariant>,
}

pub open spec fn ext_c() -> Seq<u8> {
    seq![99u8]
}

pub open spec fn ext_cpp() -> Seq<u8> {
    seq![99u8, 112u8, 112u8]
}

pub open spec fn ext_cc() -> Seq<u8> {
    seq![99u8, 99u8]
}

pub open spec fn ext_cxx() -> Seq<u8> {
    seq![99u8, 120u8, 120u8]
}

pub open spec fn ext_hpp() -> Seq<u8> {
    seq![104u8, 112u8, 112u8]
}

pub open spec fn ext_hxx() -> Seq<u8> {
    seq![104u8, 120u8, 120u8]
}

pub open spec fn ext_rs() -> Seq<u8> {
    seq![114u8, 115u8]
}

pub open spec fn ext_zig() -> Seq<u8> {
    seq![122u8, 105u8, 103u8]
}

/// The language that a file extension marks: `c`; `cpp`, `cc`, `cxx`, `hpp`, `hxx`;
/// `rs`; `zig`. Other extensions, C headers among them, mark none.
pub open spec fn extension_language(ext: Seq<u8>) -> Option<Language> {
    if ext == ext_c() {
        Some(Language::C)
    } else if ext == ext_cpp() || ext == ext_cc() || ext == ext_cxx() || ext == ext_hpp() || ext
        == ext_hxx() {
        Some(Language::Cpp)
    } else if ext == ext_rs() {
        Some(Language::Rust)
    } else if ext == ext_zig() {
        Some(Language::Zig)
    } else {
        None
    }
}

/// The directories that source discovery skips: `target`, `build` and `.git`.
pub open spec fn ignored_dir(name: Seq<u8>) -> bool {
    ||| name == seq![116u8, 97u8, 114u8, 103u8, 101u8, 116u8]
    ||| name == seq![98u8, 117u8, 105u8, 108u8, 100u8]
    ||| name == seq![46u8, 103u8, 105u8, 116u8]
}

/// The number of extensions that mark `language`.
pub open spec fn language_count(exts: Seq<Seq<u8>>, language: Language) -> nat
    decreases exts.len(),
{
    if exts.len() == 0 {
        0
    } else {
        language_count(exts.drop_last(), language) + if extension_language(exts.last()) == Some(
            language,
        ) {
            1nat
        } else {
            0nat
        }
    }
}

pub open spec fn max_nat(a: nat, b: nat) -> nat {
    if a >= b {
        a
    } else {
        b
    }
}

/// The largest number of source files of one language.
pub open spec fn max_language_count(exts: Seq<Seq<u8>>) -> nat {
    max_nat(
        max_nat(language_count(exts, Language::C), language_count(exts, Language::Cpp)),
        max_nat(language_count(exts, Language::Rust), language_count(exts, Language::Zig)),
    )
}

/// The language of a project whose files have the extensions `exts`: the one language
/// with the most source files; an error when there is no source file or a tie.
pub open spec fn detect_language_spec(exts: Seq<Seq<u8>>) -> Result<Language, BuildError> {
    let m = max_language_count(exts);
    let winners = seq![Language::C, Language::Cpp, Language::Rust, Language::Zig].filter(
        |l: Language| language_count(exts, l) == m,
    );
    if m == 0 {
        Err(BuildError::NoLanguage)
    } else if winners.len() != 1 {
        Err(BuildError::AmbiguousLanguage(m as usize))
    } else {
        Ok(winners[0])
    }
}

/// File extensions mark languages as follows: `c` marks C; `cpp`, `cc`, `cxx`, `hpp` and
/// `hxx` mark C++; `rs` marks Rust; `zig` marks Zig; no other extension marks any.
pub proof fn lemma_extension_languages(ext: Seq<u8>)
    ensures
        extension_language(ext) == Some(Language::C) <==> ext == seq![99u8],
        extension_language(ext) == Some(Language::Cpp) <==> {
            ||| ext == seq![99u8, 112u8, 112u8]
            ||| ext == seq![99u8, 99u8]
            ||| ext == seq![99u8, 120u8, 120u8]
            ||| ext == seq![104u8, 112u8, 112u8]
            ||| ext == seq![104u8, 120u8, 120u8]
        },
        extension_language(ext) == Some(Language::Rust) <==> ext == seq![114u8, 115u8],
        extension_language(ext) == Some(Language::Zig) <==> ext == seq![122u8, 105u8, 103u8],
{
    assert(ext_c().len() == 1);
    assert(ext_cc().len() == 2 && ext_rs().len() == 2);
    assert(ext_cc()[0] != ext_rs()[0]);
    assert(ext_zig()[0] != ext_cpp()[0] && ext_zig()[0] != ext_cxx()[0]);
    assert(ext_zig()[0] != ext_hpp()[0] && ext_zig()[0] != ext_hxx()[0]);
}

proof fn lemma_count_of_one_language(exts: Seq<Seq<u8>>, language: Language, other: Language)
    requires
        forall|i: int| 0 <= i < exts.len() ==> extension_language(#[trigger] exts[i]) == Some(language),
    ensures
        language_count(exts, language) == exts.len(),
        other != language ==> language_count(exts, other) == 0,
    decreases exts.len(),
{
    if exts.len() > 0 {
        let init = exts.drop_last();
        assert forall|i: int| 0 <= i < init.len() implies extension_language(#[trigger] init[i])
            == Some(language) by {
            assert(init[i] == exts[i]);
        }
        assert(extension_language(exts.last()) == Some(language));
        lemma_count_of_one_language(init, language, other);
    }
}

/// The language with strictly more source files than every other language is the
/// language detected.
pub proof fn lemma_most_files_decide(exts: Seq<Seq<u8>>, language: Language)
    requires
        forall|other: Language|
            other != language ==> #[trigger] language_count(exts, other) < language_count(
                exts,
                language,
            ),
    ensures
        detect_language_spec(exts) == Ok::<Language, BuildError>(language),
{
    let m = max_language_count(exts);
    assert(language_count(exts, Language::C) <= language_count(exts, language));
    assert(language_count(exts, Language::Cpp) <= language_count(exts, language));
    assert(language_count(exts, Language::Rust) <= language_count(exts, language));
    assert(language_count(exts, Language::Zig) <= language_count(exts, language));
    assert(m == language_count(exts, language));
    let all = seq![Language::C, Language::Cpp, Language::Rust, Language::Zig];
    let f = |l: Language| language_count(exts, l) == m;
    reveal_with_fuel(Seq::filter, 5);
    assert(all.drop_last().drop_last().drop_last().drop_last() =~= Seq::<Language>::empty());
    assert(all.filter(f) =~= seq![language]);
}

/// A project whose source files all mark one language is detected as that language.
pub proof fn lemma_one_language_detected(exts: Seq<Seq<u8>>, language: Language)
    requires
        exts.len() > 0,
        forall|i: int| 0 <= i < exts.len() ==> extension_language(#[trigger] exts[i]) == Some(language),
    ensures
        detect_language_spec(exts) == Ok::<Language, BuildError>(language),
{
    assert forall|other: Language| other != language implies #[trigger] language_count(exts, other)
        < language_count(exts, language) by {
        lemma_count_of_one_language(exts, language, other);
    }
    lemma_most_files_decide(exts, language);
}

/// The UTF-8 bytes of a list of strings.
pub open spec fn string_bytes(strings: Seq<String>) -> Seq<Seq<u8>> {
    strings.map_values(|s: String| encode_utf8(s@))
}

/// The language that a file extension marks.
pub fn language_of_extension(ext: &str) -> (r: Option<Language>)
    ensures
        r == extension_language(encode_utf8(ext@)),
{
    let e = ext.as_bytes();
    let c: Vec<u8> = vec![99u8];
    let cpp: Vec<u8> = vec![99u8, 112u8, 112u8];
    let cc: Vec<u8> = vec![99u8, 99u8];
    let cxx: Vec<u8> = vec![99u8, 120u8, 120u8];
    let hpp: Vec<u8> = vec![104u8, 112u8, 112u8];
    let hxx: Vec<u8> = vec![104u8, 120u8, 120u8];
    let rs: Vec<u8> = vec![114u8, 115u8];
    let zig: Vec<u8> = vec![122u8, 105u8, 103u8];
    assert(c@ == ext_c() && cpp@ == ext_cpp() && cc@ == ext_cc() && cxx@ == ext_cxx());
    assert(hpp@ == ext_hpp() && hxx@ == ext_hxx() && rs@ == ext_rs() && zig@ == ext_zig());
    if bytes_equal(e, c.as_slice()) {
        Some(Language::C)
    } else if bytes_equal(e, cpp.as_slice()) || bytes_equal(e, cc.as_slice()) || bytes_equal(
        e,
        cxx.as_slice(),
    ) || bytes_equal(e, hpp.as_slice()) || bytes_equal(e, hxx.as_slice()) {
        Some(Language::Cpp)
    } else if bytes_equal(e, rs.as_slice()) {
        Some(Language::Rust)
    } else if bytes_equal(e, zig.as_slice()) {
        Some(Language::Zig)
    } else {
        None
    }
}

/// Is a directory of this name skipped when looking for sources?
pub fn is_ignored_dir(name: &str) -> (r: bool)
    ensures
        r == ignored_dir(encode_utf8(name@)),
{
    let n = name.as_bytes();
    let target: Vec<u8> = vec![116u8, 97u8, 114u8, 103u8, 101u8, 116u8];
    let build: Vec<u8> = vec![98u8, 117u8, 105u8, 108u8, 100u8];
    let git: Vec<u8> = vec![46u8, 103u8, 105u8, 116u8];
    assert(target@ == seq![116u8, 97u8, 114u8, 103u8, 101u8, 116u8]);
    assert(build@ == seq![98u8, 117u8, 105u8, 108u8, 100u8]);
    assert(git@ == seq![46u8, 103u8, 105u8, 116u8]);
    bytes_equal(n, target.as_slice()) || bytes_equal(n, build.as_slice()) || bytes_equal(
        n,
        git.as_slice(),
    )
}

fn max_usize(a: usize, b: usize) -> (r: usize)
    ensures
        r == max_nat(a as nat, b as nat),
{
    if a >= b {
        a
    } else {
        b
    }
}

/// Detects the project language from the extensions of its files: the one language with
/// the most source files. Projects without sources, and ties, are rejected.
pub fn detect_language(extensions: &[String]) -> (r: Result<Language, BuildError>)
    ensures
        r == detect_language_spec(string_bytes(extensions@)),
{
    let ghost exts = string_bytes(extensions@);
    let mut c: usize = 0;
    let mut cpp: usize = 0;
    let mut rust: usize = 0;
    let mut zig: usize = 0;
    let mut i: usize = 0;
    while i < extensions.len()
        invariant
            i <= extensions@.len(),
            exts == string_bytes(extensions@),
            c == language_count(exts.take(i as int), Language::C),
            cpp == language_count(exts.take(i as int), Language::Cpp),
            rust == language_count(exts.take(i as int), Language::Rust),
            zig == language_count(exts.take(i as int), Language::Zig),
            c <= i && cpp <= i && rust <= i && zig <= i,
        decreases extensions@.len() - i,
    {
        let language = language_of_extension(extensions[i].as_str());
        proof {
            let taken = exts.take(i + 1);
            assert(taken.drop_last() =~= exts.take(i as int));
            assert(taken.last() == exts[i as int]);
        }
        match language {
            Some(Language::C) => c = c + 1,
            Some(Language::Cpp) => cpp = cpp + 1,
            Some(Language::Rust) => rust = rust + 1,
            Some(Language::Zig) => zig = zig + 1,
            None => {},
        }
        i = i + 1;
    }
    proof {
        assert(exts.take(i as int) =~= exts);
    }
    let max_count = max_usize(max_usize(c, cpp), max_usize(rust, zig));
    if max_count == 0 {
        return Err(BuildError::NoLanguage);
    }
    let mut winners: Vec<Language> = Vec::new();
    if c == max_count {
        winners.push(Language::C);
    }
    if cpp == max_count {
        winners.push(Language::Cpp);
    }
    if rust == max_count {
        winners.push(Language::Rust);
    }
    if zig == max_count {
        winners.push(Language::Zig);
    }
    proof {
        let all = seq![Language::C, Language::Cpp, Language::Rust, Language::Zig];
        let f = |l: Language| language_count(exts, l) == max_count;
        reveal_with_fuel(Seq::filter, 5);
        assert(all.drop_last().drop_last().drop_last().drop_last() =~= Seq::<Language>::empty());
        assert(winners@ =~= all.filter(f));
    }
    if winners.len() != 1 {
        return Err(BuildError::AmbiguousLanguage(max_count));
    }
    Ok(winners[0])
}

/// The x86-64 level of a variant; `None` for the native build.
pub open spec fn variant_level(v: Variant) -> Option<X86Level> {
    match v {
        Variant::Native => None,
        Variant::X86_64 => Some(X86Level::X86_64),
        Variant::V2 => Some(X86Level::V2),
        Variant::V3 => Some(X86Level::V3),
        Variant::V4 => Some(X86Level::V4),
    }
}

/// The variants in build order: native, x86-64, v2, v3, v4.
pub open spec fn variant_at(k: int) -> Variant {
    if k <= 0 {
        Variant::Native
    } else if k == 1 {
        Variant::X86_64
    } else if k == 2 {
        Variant::V2
    } else if k == 3 {
        Variant::V3
    } else {
        Variant::V4
    }
}

/// The separator in the variant names of a language's tools: `-` for GCC-style C and C++
/// compilers, `_` for Rust and Zig.
pub open spec fn language_separator(language: Language) -> u8 {
    match language {
        Language::C | Language::Cpp => 45u8,
        Language::Rust | Language::Zig => 95u8,
    }
}

/// A variant spelled with the separator `sep`.
pub open spec fn spelled_variant(v: Variant, sep: u8) -> Seq<u8> {
    match variant_level(v) {
        None => native_target(),
        Some(level) => level_target(level, sep),
    }
}

/// The prefix of a language's payload names: `c`, `cpp`, `rust`, `zig`.
pub open spec fn language_prefix(language: Language) -> Seq<u8> {
    match language {
        Language::C => seq![99u8],
        Language::Cpp => seq![99u8, 112u8, 112u8],
        Language::Rust => seq![114u8, 117u8, 115u8, 116u8],
        Language::Zig => seq![122u8, 105u8, 103u8],
    }
}

/// The payload file name of a build, before the executable suffix:
/// `<language>-<variant>`, such as `c-x86-64-v3` or `rust-x86_64_v3`.
pub open spec fn output_stem(language: Language, v: Variant) -> Seq<u8> {
    language_prefix(language) + seq![45u8] + spelled_variant(v, language_separator(language))
}

/// The builds of a language are its five variants in build order, spelled for its tools.
pub open spec fn plans_language(variants: Seq<BuildVariant>, language: Language) -> bool {
    &&& variants.len() == 5
    &&& forall|k: int|
        0 <= k < 5 ==> {
            let b = #[trigger] variants[k];
            &&& b.variant == variant_at(k)
            &&& encode_utf8(b.name@) == spelled_variant(variant_at(k), language_separator(language))
            &&& encode_utf8(b.cpu@) == spelled_variant(variant_at(k), 45u8)
            &&& encode_utf8(b.output_stem@) == output_stem(language, variant_at(k))
        }
}

pub open spec fn all_ascii(s: Seq<u8>) -> bool {
    forall|i: int| 0 <= i < s.len() ==> #[trigger] s[i] < 128
}

fn variant_at_exec(k: usize) -> (v: Variant)
    ensures
        v == variant_at(k as int),
{
    if k == 0 {
        Variant::Native
    } else if k == 1 {
        Variant::X86_64
    } else if k == 2 {
        Variant::V2
    } else if k == 3 {
        Variant::V3
    } else {
        Variant::V4
    }
}

pub(crate) fn spelled_variant_bytes(v: Variant, sep: u8) -> (r: Vec<u8>)
    requires
        sep == 45u8 || sep == 95u8,
    ensures
        r@ == spelled_variant(v, sep),
        all_ascii(r@),
{
    let r = match v {
        Variant::Native => {
            let n: Vec<u8> = vec![110u8, 97u8, 116u8, 105u8, 118u8, 101u8];
            assert(n@ == native_target());
            n
        },
        Variant::X86_64 => crate::archive::select::level_target_bytes(X86Level::X86_64, sep),
        Variant::V2 => crate::archive::select::level_target_bytes(X86Level::V2, sep),
        Variant::V3 => crate::archive::select::level_target_bytes(X86Level::V3, sep),
        Variant::V4 => crate::archive::select::level_target_bytes(X86Level::V4, sep),
    };
    assert(all_ascii(r@));
    r
}

fn language_prefix_bytes(language: Language) -> (r: Vec<u8>)
    ensures
        r@ == language_prefix(language),
        all_ascii(r@),
{
    let r: Vec<u8> = match language {
        Language::C => vec![99u8],
        Language::Cpp => vec![99u8, 112u8, 112u8],
        Language::Rust => vec![114u8, 117u8, 115u8, 116u8],
        Language::Zig => vec![122u8, 105u8, 103u8],
    };
    assert(r@ == language_prefix(language));
    r
}

fn language_separator_exec(language: Language) -> (r: u8)
    ensures
        r == language_separator(language),
{
    match language {
        Language::C | Language::Cpp => 45u8,
        Language::Rust | Language::Zig => 95u8,
    }
}

/// One build of `language` for the variant `v`.
fn build_variant(language: Language, v: Variant) -> (b: BuildVariant)
    ensures
        b.variant == v,
        encode_utf8(b.name@) == spelled_variant(v, language_separator(language)),
        encode_utf8(b.cpu@) == spelled_variant(v, 45u8),
        encode_utf8(b.output_stem@) == output_stem(language, v),
{
    let sep = language_separator_exec(language);
    let name_bytes = spelled_variant_bytes(v, sep);
    let cpu_bytes = spelled_variant_bytes(v, 45u8);
    let mut stem_bytes = language_prefix_bytes(language);
    stem_bytes.push(45u8);
    let ghost prefix = stem_bytes@;
    crate::archive::format::append_bytes(&mut stem_bytes, name_bytes.as_slice());
    assert(stem_bytes@ =~= output_stem(language, v));
    assert(all_ascii(stem_bytes@)) by {
        assert forall|i: int| 0 <= i < stem_bytes@.len() implies #[trigger] stem_bytes@[i] < 128 by {
            if i >= prefix.len() {
                assert(stem_bytes@[i] == name_bytes@[i - prefix.len()]);
            } else {
                assert(stem_bytes@[i] == prefix[i]);
            }
        }
    }
    BuildVariant {
        variant: v,
        name: ascii_string(name_bytes.as_slice()),
        cpu: ascii_string(cpu_bytes.as_slice()),
        output_stem: ascii_string(stem_bytes.as_slice()),
    }
}

/// The five builds of a project in `language`: native, x86-64, v2, v3 and v4.
pub fn build_variants(language: Language) -> (r: Vec<BuildVariant>)
    ensures
        plans_language(r@, language),
{
    let mut r: Vec<BuildVariant> = Vec::new();
    let mut k: usize = 0;
    while k < 5
        invariant
            k <= 5,
            r@.len() == k,
            forall|j: int|
                0 <= j < k ==> {
                    let b = #[trigger] r@[j];
                    &&& b.variant == variant_at(j)
                    &&& encode_utf8(b.name@) == spelled_variant(
                        variant_at(j),
                        language_separator(language),
                    )
                    &&& encode_utf8(b.cpu@) == spelled_variant(variant_at(j), 45u8)
                    &&& encode_utf8(b.output_stem@) == output_stem(language, variant_at(j))
                },
        decreases 5 - k,
    {
        let v = variant_at_exec(k);
        r.push(build_variant(language, v));
        k = k + 1;
    }
    r
}

/// Detects the language of a project from the extensions of its files and plans its
/// five builds.
pub fn compile_lang(extensions: &[String]) -> (r: Result<BuildPlan, BuildError>)
    ensures
        match detect_language_spec(string_bytes(extensions@)) {
            Ok(language) => r matches Ok(plan) && plan.language == language && plans_language(
                plan.variants@,
                language,
            ),
            Err(e) => r matches Err(err) && err == e,
        },
{
    match detect_language(extensions) {
        Ok(language) => Ok(BuildPlan { language, variants: build_variants(language) }),
        Err(e) => Err(e),
    }
}

/// The executable suffix `.exe`.
pub open spec fn exe_suffix() -> Seq<u8> {
    seq![46u8, 101u8, 120u8, 101u8]
}

/// The payload names of a language's five builds, with or without the `.exe` suffix.
pub open spec fn plan_payload_names(language: Language, exe: bool) -> Seq<Seq<u8>> {
    Seq::new(
        5,
        |k: int|
            output_stem(language, variant_at(k)) + if exe {
                exe_suffix()
            } else {
                Seq::<u8>::empty()
            },
    )
}

/// The build slot of a level: x86-64 is built second, then v2, v3 and v4.
pub open spec fn level_slot(level: X86Level) -> int {
    level.rank() + 1
}

/// A label ending in a separator and the target matches the target.
pub proof fn lemma_separated_target_matches(prefix: Seq<u8>, sep: u8, target: Seq<u8>)
    requires
        is_separator(sep),
    ensures
        label_matches_spec(prefix + seq![sep] + target, target),
{
    let label = prefix + seq![sep] + target;
    assert(label.skip(label.len() - target.len()) =~= target);
    assert(label[label.len() - target.len() - 1] == sep);
}

/// A matching label ends with the target's last two bytes.
proof fn lemma_match_last_two(label: Seq<u8>, target: Seq<u8>)
    requires
        label_matches_spec(label, target),
        target.len() >= 2,
    ensures
        label.len() >= 2,
        label[label.len() - 1] == target[target.len() - 1],
        label[label.len() - 2] == target[target.len() - 2],
{
    if label != target {
        let tail = label.skip(label.len() - target.len());
        assert(tail[target.len() - 1] == label[label.len() - 1]);
        assert(tail[target.len() - 2] == label[label.len() - 2]);
    }
}

proof fn lemma_stem_label(language: Language, k: int, exe: bool)
    requires
        0 <= k < 5,
    ensures
        label_of(plan_payload_names(language, exe)[k]) == output_stem(language, variant_at(k)),
{
    let stem = output_stem(language, variant_at(k));
    let name = plan_payload_names(language, exe)[k];
    if exe {
        assert(name.take(name.len() - 4) =~= stem);
    } else {
        assert(name =~= stem);
    }
}

/// The last two bytes of a name.
pub open spec fn tail_code(s: Seq<u8>) -> (u8, u8) {
    (s[s.len() - 1], s[s.len() - 2])
}

/// The last two bytes of a variant's names, whatever the separator.
pub open spec fn variant_tail(v: Variant) -> (u8, u8) {
    match v {
        Variant::Native => (101u8, 118u8),
        Variant::X86_64 => (52u8, 54u8),
        Variant::V2 => (50u8, 118u8),
        Variant::V3 => (51u8, 118u8),
        Variant::V4 => (52u8, 118u8),
    }
}

proof fn lemma_spelled_tail(v: Variant, sep: u8)
    ensures
        spelled_variant(v, sep).len() >= 6,
        tail_code(spelled_variant(v, sep)) == variant_tail(v),
{
}

proof fn lemma_stem_tail(language: Language, v: Variant)
    ensures
        output_stem(language, v).len() >= 6,
        tail_code(output_stem(language, v)) == variant_tail(v),
{
    let sep = language_separator(language);
    let spelled = spelled_variant(v, sep);
    let stem = output_stem(language, v);
    lemma_spelled_tail(v, sep);
    assert(stem[stem.len() - 1] == spelled[spelled.len() - 1]);
    assert(stem[stem.len() - 2] == spelled[spelled.len() - 2]);
}

/// A build's payload name matches the `native` target exactly for the native build.
proof fn lemma_stem_matches_native(language: Language, k: int)
    requires
        0 <= k < 5,
    ensures
        label_matches_spec(output_stem(language, variant_at(k)), native_target()) <==> k == 0,
{
    let v = variant_at(k);
    let stem = output_stem(language, v);
    lemma_stem_tail(language, v);
    if k == 0 {
        assert(stem =~= language_prefix(language) + seq![45u8] + native_target());
        lemma_separated_target_matches(language_prefix(language), 45u8, native_target());
    } else if label_matches_spec(stem, native_target()) {
        lemma_match_last_two(stem, native_target());
    }
}

/// A build's payload name matches a level's target, in either spelling, exactly for the
/// build of that level.
proof fn lemma_stem_matches_level(language: Language, k: int, c: X86Level, sep: u8)
    requires
        0 <= k < 5,
        sep == 45u8 || sep == 95u8,
    ensures
        label_matches_spec(output_stem(language, variant_at(k)), level_target(c, sep)) ==> k
            == level_slot(c),
        k == level_slot(c) ==> label_matches_spec(
            output_stem(language, variant_at(k)),
            level_target(c, language_separator(language)),
        ),
{
    let v = variant_at(k);
    let stem = output_stem(language, v);
    lemma_stem_tail(language, v);
    if k == level_slot(c) {
        let own = language_separator(language);
        assert(spelled_variant(v, own) == level_target(c, own));
        assert(stem =~= language_prefix(language) + seq![45u8] + level_target(c, own));
        lemma_separated_target_matches(language_prefix(language), 45u8, level_target(c, own));
    }
    if label_matches_spec(stem, level_target(c, sep)) {
        lemma_match_last_two(stem, level_target(c, sep));
    }
}

/// A packed set of one language's five builds, named as building names them (with or
/// without `.exe`), is read back as the `native` build when the native identity matches
/// and otherwise as the build for exactly the host's x86-64 level.
pub proof fn lemma_plan_selection(
    language: Language,
    exe: bool,
    stored: Seq<u8>,
    level: X86Level,
    current: Option<u64>,
)
    ensures
        select_index(plan_payload_names(language, exe), stored, level, current) == Some(
            if native_identity_matches(stored, current) {
                0
            } else {
                level_slot(level)
            },
        ),
{
    let names = plan_payload_names(language, exe);
    assert forall|k: int| 0 <= k < 5 implies (#[trigger] names_native(names[k]) <==> k == 0) by {
        lemma_stem_label(language, k, exe);
        lemma_stem_matches_native(language, k);
    }
    assert forall|k: int, c: X86Level| 0 <= k < 5 implies (#[trigger] names_level(names[k], c)
        <==> k == level_slot(c)) by {
        lemma_stem_label(language, k, exe);
        lemma_stem_matches_level(language, k, c, 45u8);
        lemma_stem_matches_level(language, k, c, 95u8);
    }
    assert(native_pred()(names[0]));
    lemma_first_match_scan(names, native_pred(), 0);
    assert forall|c: X86Level| #[trigger] first_match(names, level_pred(c)) == Some(level_slot(c)) by {
        assert forall|j: int| 0 <= j < level_slot(c) implies !level_pred(c)(#[trigger] names[j]) by {
            assert(!names_level(names[j], c));
        }
        assert(level_pred(c)(names[level_slot(c)]));
        lemma_first_match_scan(names, level_pred(c), level_slot(c));
    }
    assert(first_match(names, level_pred(candidate(0))) == Some(level_slot(candidate(0))));
    assert(first_match(names, level_pred(candidate(1))) == Some(level_slot(candidate(1))));
    assert(first_match(names, level_pred(candidate(2))) == Some(level_slot(candidate(2))));
    assert(first_match(names, level_pred(candidate(3))) == Some(level_slot(candidate(3))));
    reveal_with_fuel(fallback_from, 5);
    assert(fallback_from(names, level, 0) == Some(level_slot(level)));
}

} // verus!
