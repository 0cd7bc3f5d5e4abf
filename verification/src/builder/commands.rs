use vstd::prelude::*;

use vstd::utf8::encode_utf8;

use crate::builder::compile::{
    all_ascii, spelled_variant, spelled_variant_bytes, string_bytes, Language, Variant,
};
use crate::text::ascii_string;

verus! {

// ---------------------------------------------------------------------------
// Fixed spellings
// ---------------------------------------------------------------------------

/// The optimization flag `-O3`.
pub open spec fn o3_flag() -> Seq<u8> {
    seq![45u8, 79u8, 51u8]
}

fn o3_flag_vec() -> (v: Vec<u8>)
    ensures
        v@ == o3_flag(),
        all_ascii(v@),
{
    let v: Vec<u8> = vec![45u8, 79u8, 51u8];
    assert(v@ == o3_flag());
    v
}

/// The prefix `-march=` of a GCC-style CPU flag.
pub open spec fn march_prefix() -> Seq<u8> {
    seq![45u8, 109u8, 97u8, 114u8, 99u8, 104u8, 61u8]
}

fn march_prefix_vec() -> (v: Vec<u8>)
    ensures
        v@ == march_prefix(),
        all_ascii(v@),
{
    let v: Vec<u8> = vec![45u8, 109u8, 97u8, 114u8, 99u8, 104u8, 61u8];
    assert(v@ == march_prefix());
    v
}

/// The prefix `-mcpu=` of Zig's CPU flag.
pub open spec fn mcpu_prefix() -> Seq<u8> {
    seq![45u8, 109u8, 99u8, 112u8, 117u8, 61u8]
}

fn mcpu_prefix_vec() -> (v: Vec<u8>)
    ensures
        v@ == mcpu_prefix(),
        all_ascii(v@),
{
    let v: Vec<u8> = vec![45u8, 109u8, 99u8, 112u8, 117u8, 61u8];
    assert(v@ == mcpu_prefix());
    v
}

/// The prefix `-C target-cpu=` of the Rust compiler's CPU flag.
pub open spec fn target_cpu_prefix() -> Seq<u8> {
    seq![45u8, 67u8, 32u8, 116u8, 97u8, 114u8, 103u8, 101u8, 116u8, 45u8, 99u8, 112u8, 117u8, 61u8]
}

fn target_cpu_prefix_vec() -> (v: Vec<u8>)
    ensures
        v@ == target_cpu_prefix(),
        all_ascii(v@),
{
    let v: Vec<u8> = vec![45u8, 67u8, 32u8, 116u8, 97u8, 114u8, 103u8, 101u8, 116u8, 45u8, 99u8, 112u8, 117u8, 61u8];
    assert(v@ == target_cpu_prefix());
    v
}

/// The include flag `-I.`.
pub open spec fn include_dot() -> Seq<u8> {
    seq![45u8, 73u8, 46u8]
}

fn include_dot_vec() -> (v: Vec<u8>)
    ensures
        v@ == include_dot(),
        all_ascii(v@),
{
    let v: Vec<u8> = vec![45u8, 73u8, 46u8];
    assert(v@ == include_dot());
    v
}

/// The include flag `-Iinclude`.
pub open spec fn include_include() -> Seq<u8> {
    seq![45u8, 73u8, 105u8, 110u8, 99u8, 108u8, 117u8, 100u8, 101u8]
}

fn include_include_vec() -> (v: Vec<u8>)
    ensures
        v@ == include_include(),
        all_ascii(v@),
{
    let v: Vec<u8> = vec![45u8, 73u8, 105u8, 110u8, 99u8, 108u8, 117u8, 100u8, 101u8];
    assert(v@ == include_include());
    v
}

/// The include flag `-Isrc`.
pub open spec fn include_src() -> Seq<u8> {
    seq![45u8, 73u8, 115u8, 114u8, 99u8]
}

fn include_src_vec() -> (v: Vec<u8>)
    ensures
        v@ == include_src(),
        all_ascii(v@),
{
    let v: Vec<u8> = vec![45u8, 73u8, 115u8, 114u8, 99u8];
    assert(v@ == include_src());
    v
}

/// The start `-DCMAKE_C_FLAGS_RELEASE=-O3 ` of CMake's C release flags.
pub open spec fn c_flags_define() -> Seq<u8> {
    seq![45u8, 68u8, 67u8, 77u8, 65u8, 75u8, 69u8, 95u8, 67u8, 95u8, 70u8, 76u8, 65u8, 71u8, 83u8, 95u8, 82u8, 69u8, 76u8, 69u8, 65u8, 83u8, 69u8, 61u8, 45u8, 79u8, 51u8, 32u8]
}

fn c_flags_define_vec() -> (v: Vec<u8>)
    ensures
        v@ == c_flags_define(),
        all_ascii(v@),
{
    let v: Vec<u8> = vec![45u8, 68u8, 67u8, 77u8, 65u8, 75u8, 69u8, 95u8, 67u8, 95u8, 70u8, 76u8, 65u8, 71u8, 83u8, 95u8, 82u8, 69u8, 76u8, 69u8, 65u8, 83u8, 69u8, 61u8, 45u8, 79u8, 51u8, 32u8];
    assert(v@ == c_flags_define());
    v
}

/// The start `-DCMAKE_CXX_FLAGS_RELEASE=-O3 ` of CMake's C++ release flags.
pub open spec fn cxx_flags_define() -> Seq<u8> {
    seq![45u8, 68u8, 67u8, 77u8, 65u8, 75u8, 69u8, 95u8, 67u8, 88u8, 88u8, 95u8, 70u8, 76u8, 65u8, 71u8, 83u8, 95u8, 82u8, 69u8, 76u8, 69u8, 65u8, 83u8, 69u8, 61u8, 45u8, 79u8, 51u8, 32u8]
}

fn cxx_flags_define_vec() -> (v: Vec<u8>)
    ensures
        v@ == cxx_flags_define(),
        all_ascii(v@),
{
    let v: Vec<u8> = vec![45u8, 68u8, 67u8, 77u8, 65u8, 75u8, 69u8, 95u8, 67u8, 88u8, 88u8, 95u8, 70u8, 76u8, 65u8, 71u8, 83u8, 95u8, 82u8, 69u8, 76u8, 69u8, 65u8, 83u8, 69u8, 61u8, 45u8, 79u8, 51u8, 32u8];
    assert(v@ == cxx_flags_define());
    v
}

/// Zig's optimization flag `-O`.
pub open spec fn zig_optimize_flag() -> Seq<u8> {
    seq![45u8, 79u8]
}

fn zig_optimize_flag_vec() -> (v: Vec<u8>)
    ensures
        v@ == zig_optimize_flag(),
        all_ascii(v@),
{
    let v: Vec<u8> = vec![45u8, 79u8];
    assert(v@ == zig_optimize_flag());
    v
}

/// Zig's optimization mode `ReleaseFast`.
pub open spec fn zig_release_fast() -> Seq<u8> {
    seq![82u8, 101u8, 108u8, 101u8, 97u8, 115u8, 101u8, 70u8, 97u8, 115u8, 116u8]
}

fn zig_release_fast_vec() -> (v: Vec<u8>)
    ensures
        v@ == zig_release_fast(),
        all_ascii(v@),
{
    let v: Vec<u8> = vec![82u8, 101u8, 108u8, 101u8, 97u8, 115u8, 101u8, 70u8, 97u8, 115u8, 116u8];
    assert(v@ == zig_release_fast());
    v
}

/// The prefix `cmake-` of a C project's CMake build directories.
pub open spec fn c_build_dir_prefix() -> Seq<u8> {
    seq![99u8, 109u8, 97u8, 107u8, 101u8, 45u8]
}

fn c_build_dir_prefix_vec() -> (v: Vec<u8>)
    ensures
        v@ == c_build_dir_prefix(),
        all_ascii(v@),
{
    let v: Vec<u8> = vec![99u8, 109u8, 97u8, 107u8, 101u8, 45u8];
    assert(v@ == c_build_dir_prefix());
    v
}

/// The prefix `cmake-c-out-` of a C project's CMake output directories.
pub open spec fn c_output_dir_prefix() -> Seq<u8> {
    seq![99u8, 109u8, 97u8, 107u8, 101u8, 45u8, 99u8, 45u8, 111u8, 117u8, 116u8, 45u8]
}

fn c_output_dir_prefix_vec() -> (v: Vec<u8>)
    ensures
        v@ == c_output_dir_prefix(),
        all_ascii(v@),
{
    let v: Vec<u8> = vec![99u8, 109u8, 97u8, 107u8, 101u8, 45u8, 99u8, 45u8, 111u8, 117u8, 116u8, 45u8];
    assert(v@ == c_output_dir_prefix());
    v
}

/// The prefix `cmake-cpp-` of a C++ project's CMake build directories.
pub open spec fn cpp_build_dir_prefix() -> Seq<u8> {
    seq![99u8, 109u8, 97u8, 107u8, 101u8, 45u8, 99u8, 112u8, 112u8, 45u8]
}

fn cpp_build_dir_prefix_vec() -> (v: Vec<u8>)
    ensures
        v@ == cpp_build_dir_prefix(),
        all_ascii(v@),
{
    let v: Vec<u8> = vec![99u8, 109u8, 97u8, 107u8, 101u8, 45u8, 99u8, 112u8, 112u8, 45u8];
    assert(v@ == cpp_build_dir_prefix());
    v
}

/// The prefix `cmake-cpp-out-` of a C++ project's CMake output directories.
pub open spec fn cpp_output_dir_prefix() -> Seq<u8> {
    seq![99u8, 109u8, 97u8, 107u8, 101u8, 45u8, 99u8, 112u8, 112u8, 45u8, 111u8, 117u8, 116u8, 45u8]
}

fn cpp_output_dir_prefix_vec() -> (v: Vec<u8>)
    ensures
        v@ == cpp_output_dir_prefix(),
        all_ascii(v@),
{
    let v: Vec<u8> = vec![99u8, 109u8, 97u8, 107u8, 101u8, 45u8, 99u8, 112u8, 112u8, 45u8, 111u8, 117u8, 116u8, 45u8];
    assert(v@ == cpp_output_dir_prefix());
    v
}

/// The prefix `rust-` of a Rust project's per-variant target directories.
pub open spec fn rust_target_dir_prefix() -> Seq<u8> {
    seq![114u8, 117u8, 115u8, 116u8, 45u8]
}

fn rust_target_dir_prefix_vec() -> (v: Vec<u8>)
    ensures
        v@ == rust_target_dir_prefix(),
        all_ascii(v@),
{
    let v: Vec<u8> = vec![114u8, 117u8, 115u8, 116u8, 45u8];
    assert(v@ == rust_target_dir_prefix());
    v
}

// ---------------------------------------------------------------------------
// Command lines
// ---------------------------------------------------------------------------

/// The languages whose projects GCC-style compilers or CMake build.
pub open spec fn gcc_family(language: Language) -> bool {
    language == Language::C || language == Language::Cpp
}

/// The GCC-style CPU flag of a variant: `-march=native`, `-march=x86-64-v3`, ...
pub open spec fn march_flag_bytes(v: Variant) -> Seq<u8> {
    march_prefix() + spelled_variant(v, 45u8)
}

/// The include flags of a direct build: `-Iinclude -Isrc` for C, and `-I.` before them
/// for C++.
pub open spec fn include_flags(language: Language) -> Seq<Seq<u8>> {
    if language == Language::Cpp {
        seq![include_dot(), include_include(), include_src()]
    } else {
        seq![include_include(), include_src()]
    }
}

/// The flags of a direct compiler run before the sources: `-O3`, the CPU flag and the
/// include flags.
pub open spec fn compiler_flags_bytes(language: Language, v: Variant) -> Seq<Seq<u8>> {
    seq![o3_flag(), march_flag_bytes(v)] + include_flags(language)
}

/// CMake's definition of the release flags: `-DCMAKE_C_FLAGS_RELEASE=-O3 -march=...` for
/// C, `-DCMAKE_CXX_FLAGS_RELEASE=-O3 -march=...` for C++.
pub open spec fn cmake_flags_bytes(language: Language, v: Variant) -> Seq<u8> {
    if language == Language::Cpp {
        cxx_flags_define() + march_flag_bytes(v)
    } else {
        c_flags_define() + march_flag_bytes(v)
    }
}

/// The CMake build directory of a variant, under the project's build directory.
pub open spec fn cmake_build_dir_bytes(language: Language, v: Variant) -> Seq<u8> {
    if language == Language::Cpp {
        cpp_build_dir_prefix() + spelled_variant(v, 45u8)
    } else {
        c_build_dir_prefix() + spelled_variant(v, 45u8)
    }
}

/// The CMake output directory of a variant, under the project's build directory.
pub open spec fn cmake_output_dir_bytes(language: Language, v: Variant) -> Seq<u8> {
    if language == Language::Cpp {
        cpp_output_dir_prefix() + spelled_variant(v, 45u8)
    } else {
        c_output_dir_prefix() + spelled_variant(v, 45u8)
    }
}

/// The flags of a Zig build after the source: `-O ReleaseFast -mcpu=...`, with the
/// variant spelled with underscores.
pub open spec fn zig_flags_bytes(v: Variant) -> Seq<Seq<u8>> {
    seq![zig_optimize_flag(), zig_release_fast(), mcpu_prefix() + spelled_variant(v, 95u8)]
}

/// The `RUSTFLAGS` of a Rust build: `-C target-cpu=...`, with the variant spelled with
/// hyphens.
pub open spec fn rust_flags_bytes(v: Variant) -> Seq<u8> {
    target_cpu_prefix() + spelled_variant(v, 45u8)
}

/// The Cargo target directory of a variant, under the project's `target` directory:
/// `rust-` and the variant spelled with underscores.
pub open spec fn rust_target_dir_bytes(v: Variant) -> Seq<u8> {
    rust_target_dir_prefix() + spelled_variant(v, 95u8)
}

proof fn lemma_concat_ascii(a: Seq<u8>, b: Seq<u8>)
    requires
        all_ascii(a),
        all_ascii(b),
    ensures
        all_ascii(a + b),
{
    assert forall|i: int| 0 <= i < (a + b).len() implies #[trigger] (a + b)[i] < 128 by {
        if i < a.len() {
            assert((a + b)[i] == a[i]);
        } else {
            assert((a + b)[i] == b[i - a.len()]);
        }
    }
}

/// The string of the ASCII bytes `prefix` followed by the ASCII bytes `tail`.
fn ascii_join(prefix: Vec<u8>, tail: &[u8]) -> (s: String)
    requires
        all_ascii(prefix@),
        all_ascii(tail@),
    ensures
        encode_utf8(s@) == prefix@ + tail@,
{
    let mut bytes = prefix;
    proof {
        lemma_concat_ascii(bytes@, tail@);
    }
    crate::archive::format::append_bytes(&mut bytes, tail);
    ascii_string(bytes.as_slice())
}

/// The string of ASCII bytes.
fn ascii_owned(bytes: Vec<u8>) -> (s: String)
    requires
        all_ascii(bytes@),
    ensures
        encode_utf8(s@) == bytes@,
{
    ascii_string(bytes.as_slice())
}

/// The GCC-style CPU flag of a variant.
pub fn march_flag(v: Variant) -> (s: String)
    ensures
        encode_utf8(s@) == march_flag_bytes(v),
{
    let cpu = spelled_variant_bytes(v, 45u8);
    ascii_join(march_prefix_vec(), cpu.as_slice())
}

/// The flags of a direct C or C++ compiler run, which come before the sources.
pub fn compiler_flags(language: Language, v: Variant) -> (r: Vec<String>)
    requires
        gcc_family(language),
    ensures
        string_bytes(r@) == compiler_flags_bytes(language, v),
{
    let mut r: Vec<String> = Vec::new();
    r.push(ascii_owned(o3_flag_vec()));
    r.push(march_flag(v));
    if language == Language::Cpp {
        r.push(ascii_owned(include_dot_vec()));
    }
    r.push(ascii_owned(include_include_vec()));
    r.push(ascii_owned(include_src_vec()));
    assert(string_bytes(r@) =~= compiler_flags_bytes(language, v));
    r
}

/// CMake's definition of the release flags of a C or C++ variant.
pub fn cmake_flags(language: Language, v: Variant) -> (s: String)
    requires
        gcc_family(language),
    ensures
        encode_utf8(s@) == cmake_flags_bytes(language, v),
{
    let mut flag = march_prefix_vec();
    let cpu = spelled_variant_bytes(v, 45u8);
    proof {
        lemma_concat_ascii(flag@, cpu@);
    }
    crate::archive::format::append_bytes(&mut flag, cpu.as_slice());
    let start = if language == Language::Cpp {
        cxx_flags_define_vec()
    } else {
        c_flags_define_vec()
    };
    ascii_join(start, flag.as_slice())
}

/// The CMake build directory of a C or C++ variant.
pub fn cmake_build_dir(language: Language, v: Variant) -> (s: String)
    requires
        gcc_family(language),
    ensures
        encode_utf8(s@) == cmake_build_dir_bytes(language, v),
{
    let cpu = spelled_variant_bytes(v, 45u8);
    let prefix = if language == Language::Cpp {
        cpp_build_dir_prefix_vec()
    } else {
        c_build_dir_prefix_vec()
    };
    ascii_join(prefix, cpu.as_slice())
}

/// The CMake output directory of a C or C++ variant.
pub fn cmake_output_dir(language: Language, v: Variant) -> (s: String)
    requires
        gcc_family(language),
    ensures
        encode_utf8(s@) == cmake_output_dir_bytes(language, v),
{
    let cpu = spelled_variant_bytes(v, 45u8);
    let prefix = if language == Language::Cpp {
        cpp_output_dir_prefix_vec()
    } else {
        c_output_dir_prefix_vec()
    };
    ascii_join(prefix, cpu.as_slice())
}

/// The flags of a Zig build of a variant, which come after the source.
pub fn zig_flags(v: Variant) -> (r: Vec<String>)
    ensures
        string_bytes(r@) == zig_flags_bytes(v),
{
    let name = spelled_variant_bytes(v, 95u8);
    let mut r: Vec<String> = Vec::new();
    r.push(ascii_owned(zig_optimize_flag_vec()));
    r.push(ascii_owned(zig_release_fast_vec()));
    r.push(ascii_join(mcpu_prefix_vec(), name.as_slice()));
    assert(string_bytes(r@) =~= zig_flags_bytes(v));
    r
}

/// The `RUSTFLAGS` of a Rust build of a variant.
pub fn rust_flags(v: Variant) -> (s: String)
    ensures
        encode_utf8(s@) == rust_flags_bytes(v),
{
    let cpu = spelled_variant_bytes(v, 45u8);
    ascii_join(target_cpu_prefix_vec(), cpu.as_slice())
}

/// The Cargo target directory of a Rust build of a variant.
pub fn rust_target_dir(v: Variant) -> (s: String)
    ensures
        encode_utf8(s@) == rust_target_dir_bytes(v),
{
    let name = spelled_variant_bytes(v, 95u8);
    ascii_join(rust_target_dir_prefix_vec(), name.as_slice())
}


// ---------------------------------------------------------------------------
// What the command lines say
// ---------------------------------------------------------------------------

/// The name of a variant's CPU for GCC, CMake and the Rust compiler: `native`, `x86-64`,
/// `x86-64-v2`, `x86-64-v3`, `x86-64-v4`.
pub open spec fn gcc_cpu_name(v: Variant) -> Seq<u8> {
    match v {
        Variant::Native => seq![110u8, 97u8, 116u8, 105u8, 118u8, 101u8],
        Variant::X86_64 => seq![120u8, 56u8, 54u8, 45u8, 54u8, 52u8],
        Variant::V2 => seq![120u8, 56u8, 54u8, 45u8, 54u8, 52u8, 45u8, 118u8, 50u8],
        Variant::V3 => seq![120u8, 56u8, 54u8, 45u8, 54u8, 52u8, 45u8, 118u8, 51u8],
        Variant::V4 => seq![120u8, 56u8, 54u8, 45u8, 54u8, 52u8, 45u8, 118u8, 52u8],
    }
}

/// The name of a variant's CPU for Zig, and in Rust target directories: `native`,
/// `x86_64`, `x86_64_v2`, `x86_64_v3`, `x86_64_v4`.
pub open spec fn zig_cpu_name(v: Variant) -> Seq<u8> {
    match v {
        Variant::Native => seq![110u8, 97u8, 116u8, 105u8, 118u8, 101u8],
        Variant::X86_64 => seq![120u8, 56u8, 54u8, 95u8, 54u8, 52u8],
        Variant::V2 => seq![120u8, 56u8, 54u8, 95u8, 54u8, 52u8, 95u8, 118u8, 50u8],
        Variant::V3 => seq![120u8, 56u8, 54u8, 95u8, 54u8, 52u8, 95u8, 118u8, 51u8],
        Variant::V4 => seq![120u8, 56u8, 54u8, 95u8, 54u8, 52u8, 95u8, 118u8, 52u8],
    }
}

/// Every build command names the CPU of its own variant. A direct C build runs with
/// `-O3 -march=<cpu> -Iinclude -Isrc`, a direct C++ build with
/// `-O3 -march=<cpu> -I. -Iinclude -Isrc`; CMake gets `-O3 -march=<cpu>` as the release
/// flags of the language, in the directories `cmake-<cpu>` and `cmake-c-out-<cpu>` for C,
/// `cmake-cpp-<cpu>` and `cmake-cpp-out-<cpu>` for C++; Rust gets
/// `RUSTFLAGS=-C target-cpu=<cpu>` in the target directory `rust-<zig cpu>`; Zig gets
/// `-O ReleaseFast -mcpu=<zig cpu>`.
pub proof fn lemma_commands_name_the_variant(language: Language, v: Variant)
    ensures
        language == Language::C ==> compiler_flags_bytes(language, v) == seq![
            seq![45u8, 79u8, 51u8],
            seq![45u8, 109u8, 97u8, 114u8, 99u8, 104u8, 61u8] + gcc_cpu_name(v),
            seq![45u8, 73u8, 105u8, 110u8, 99u8, 108u8, 117u8, 100u8, 101u8],
            seq![45u8, 73u8, 115u8, 114u8, 99u8],
        ],
        language == Language::Cpp ==> compiler_flags_bytes(language, v) == seq![
            seq![45u8, 79u8, 51u8],
            seq![45u8, 109u8, 97u8, 114u8, 99u8, 104u8, 61u8] + gcc_cpu_name(v),
            seq![45u8, 73u8, 46u8],
            seq![45u8, 73u8, 105u8, 110u8, 99u8, 108u8, 117u8, 100u8, 101u8],
            seq![45u8, 73u8, 115u8, 114u8, 99u8],
        ],
        language == Language::C ==> cmake_flags_bytes(language, v) == seq![45u8, 68u8, 67u8, 77u8, 65u8, 75u8, 69u8, 95u8, 67u8, 95u8, 70u8, 76u8, 65u8, 71u8, 83u8, 95u8, 82u8, 69u8, 76u8, 69u8, 65u8, 83u8, 69u8, 61u8, 45u8, 79u8, 51u8, 32u8, 45u8, 109u8, 97u8, 114u8, 99u8, 104u8, 61u8]
            + gcc_cpu_name(v),
        language == Language::Cpp ==> cmake_flags_bytes(language, v) == seq![45u8, 68u8, 67u8, 77u8, 65u8, 75u8, 69u8, 95u8, 67u8, 88u8, 88u8, 95u8, 70u8, 76u8, 65u8, 71u8, 83u8, 95u8, 82u8, 69u8, 76u8, 69u8, 65u8, 83u8, 69u8, 61u8, 45u8, 79u8, 51u8, 32u8, 45u8, 109u8, 97u8, 114u8, 99u8, 104u8, 61u8]
            + gcc_cpu_name(v),
        language == Language::C ==> cmake_build_dir_bytes(language, v) == seq![99u8, 109u8, 97u8, 107u8, 101u8, 45u8] + gcc_cpu_name(v),
        language == Language::C ==> cmake_output_dir_bytes(language, v) == seq![99u8, 109u8, 97u8, 107u8, 101u8, 45u8, 99u8, 45u8, 111u8, 117u8, 116u8, 45u8]
            + gcc_cpu_name(v),
        language == Language::Cpp ==> cmake_build_dir_bytes(language, v) == seq![99u8, 109u8, 97u8, 107u8, 101u8, 45u8, 99u8, 112u8, 112u8, 45u8]
            + gcc_cpu_name(v),
        language == Language::Cpp ==> cmake_output_dir_bytes(language, v) == seq![99u8, 109u8, 97u8, 107u8, 101u8, 45u8, 99u8, 112u8, 112u8, 45u8, 111u8, 117u8, 116u8, 45u8]
            + gcc_cpu_name(v),
        rust_flags_bytes(v) == seq![45u8, 67u8, 32u8, 116u8, 97u8, 114u8, 103u8, 101u8, 116u8, 45u8, 99u8, 112u8, 117u8, 61u8] + gcc_cpu_name(v),
        rust_target_dir_bytes(v) == seq![114u8, 117u8, 115u8, 116u8, 45u8] + zig_cpu_name(v),
        zig_flags_bytes(v) == seq![seq![45u8, 79u8], seq![82u8, 101u8, 108u8, 101u8, 97u8, 115u8, 101u8, 70u8, 97u8, 115u8, 116u8], seq![45u8, 109u8, 99u8, 112u8, 117u8, 61u8] + zig_cpu_name(v)],
{
    assert(spelled_variant(v, 45u8) == gcc_cpu_name(v));
    assert(spelled_variant(v, 95u8) == zig_cpu_name(v));
    if language == Language::C {
        assert(compiler_flags_bytes(language, v) =~= seq![
            seq![45u8, 79u8, 51u8],
            seq![45u8, 109u8, 97u8, 114u8, 99u8, 104u8, 61u8] + gcc_cpu_name(v),
            seq![45u8, 73u8, 105u8, 110u8, 99u8, 108u8, 117u8, 100u8, 101u8],
            seq![45u8, 73u8, 115u8, 114u8, 99u8],
        ]);
    }
    if language == Language::Cpp {
        assert(compiler_flags_bytes(language, v) =~= seq![
            seq![45u8, 79u8, 51u8],
            seq![45u8, 109u8, 97u8, 114u8, 99u8, 104u8, 61u8] + gcc_cpu_name(v),
            seq![45u8, 73u8, 46u8],
            seq![45u8, 73u8, 105u8, 110u8, 99u8, 108u8, 117u8, 100u8, 101u8],
            seq![45u8, 73u8, 115u8, 114u8, 99u8],
        ]);
    }
}

} // verus!
