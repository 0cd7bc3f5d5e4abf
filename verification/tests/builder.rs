use spec_elf::builder::commands::{
    cmake_build_dir, cmake_flags, cmake_output_dir, compiler_flags, march_flag, rust_flags,
    rust_target_dir, zig_flags,
};
use spec_elf::builder::cargo::{cargo_binary_name, select_binary_name, CargoTargets};
use spec_elf::builder::compile::{
    build_variants, compile_lang, detect_language, is_ignored_dir, language_of_extension,
    BuildError, Language, Variant,
};
use spec_elf::archive::format::{pack_files, read_back, PayloadInput};
use spec_elf::archive::select::X86Level;

fn exts(list: &[&str]) -> Vec<String> {
    list.iter().map(|s| s.to_string()).collect()
}

#[test]
fn language_detection_ignores_c_headers() {
    // main.cpp and shared.h
    assert_eq!(detect_language(&exts(&["cpp", "h"])).unwrap(), Language::Cpp);
}

#[test]
fn language_detection_rejects_ties() {
    // main.c and main.rs
    assert!(detect_language(&exts(&["c", "rs"])).is_err());
}

#[test]
fn reads_explicit_cargo_binary_name() {
    let text = "[package]\nname = \"package-name\"\nversion = \"0.1.0\"\n\n[[bin]]\nname = \"actual-binary\"\npath = \"src/main.rs\"\n";
    assert_eq!(cargo_binary_name(text).unwrap(), "actual-binary");
}

#[test]
fn cargo_binary_name_falls_back_to_the_package() {
    assert_eq!(cargo_binary_name("[package]\nname = \"pkg\"\n").unwrap(), "pkg");
    let unnamed_bin = "[package]\nname = \"pkg\"\n[[bin]]\npath = \"src/main.rs\"\n";
    assert_eq!(cargo_binary_name(unnamed_bin).unwrap(), "pkg");
}

#[test]
fn cargo_binary_name_rejects_bad_manifests() {
    let two = "[package]\nname = \"p\"\n[[bin]]\nname = \"a\"\n[[bin]]\nname = \"b\"\n";
    assert_eq!(cargo_binary_name(two).unwrap_err(), BuildError::MultipleBinaries);
    assert_eq!(cargo_binary_name("[workspace]\n").unwrap_err(), BuildError::NoBinaryName);
    assert_eq!(cargo_binary_name("not = = toml").unwrap_err(), BuildError::InvalidCargoManifest);
    let targets = CargoTargets {
        bins: Some(vec![Some("only".to_string())]),
        package_name: None,
    };
    assert_eq!(select_binary_name(&targets).unwrap(), "only");
}

#[test]
fn language_detection_counts_extensions() {
    assert_eq!(language_of_extension("c"), Some(Language::C));
    assert_eq!(language_of_extension("hxx"), Some(Language::Cpp));
    assert_eq!(language_of_extension("rs"), Some(Language::Rust));
    assert_eq!(language_of_extension("zig"), Some(Language::Zig));
    assert_eq!(language_of_extension("h"), None);
    assert_eq!(detect_language(&exts(&["h", "md"])), Err(BuildError::NoLanguage));
    assert_eq!(
        detect_language(&exts(&["c", "c", "rs", "rs", "zig"])),
        Err(BuildError::AmbiguousLanguage(2))
    );
    assert_eq!(detect_language(&exts(&["rs", "c", "rs"])), Ok(Language::Rust));
    assert_eq!(detect_language(&exts(&["zig", "hpp", "cc"])), Ok(Language::Cpp));
}

#[test]
fn generated_directories_are_ignored() {
    assert!(is_ignored_dir("target"));
    assert!(is_ignored_dir("build"));
    assert!(is_ignored_dir(".git"));
    assert!(!is_ignored_dir("src"));
}

#[test]
fn build_variants_are_named_for_each_tool() {
    let c = build_variants(Language::C);
    let stems: Vec<&str> = c.iter().map(|b| b.output_stem.as_str()).collect();
    assert_eq!(stems, ["c-native", "c-x86-64", "c-x86-64-v2", "c-x86-64-v3", "c-x86-64-v4"]);
    assert_eq!(c[3].variant, Variant::V3);
    let zig = build_variants(Language::Zig);
    let names: Vec<&str> = zig.iter().map(|b| b.name.as_str()).collect();
    assert_eq!(names, ["native", "x86_64", "x86_64_v2", "x86_64_v3", "x86_64_v4"]);
    let rust = build_variants(Language::Rust);
    assert_eq!(rust[4].output_stem, "rust-x86_64_v4");
    assert_eq!(rust[4].cpu, "x86-64-v4");
    assert_eq!(build_variants(Language::Cpp)[1].output_stem, "cpp-x86-64");
}

#[test]
fn compile_lang_plans_the_detected_language() {
    let plan = compile_lang(&exts(&["rs", "toml"])).unwrap();
    assert_eq!(plan.language, Language::Rust);
    assert_eq!(plan.variants.len(), 5);
    assert!(compile_lang(&exts(&["c", "rs"])).is_err());
}

#[test]
fn planned_builds_are_selected_for_their_level() {
    for language in [Language::C, Language::Cpp, Language::Rust, Language::Zig] {
        for suffix in ["", ".exe"] {
            let payloads: Vec<PayloadInput> = build_variants(language)
                .iter()
                .map(|b| PayloadInput {
                    name: Some(format!("{}{}", b.output_stem, suffix)),
                    data: b.output_stem.as_bytes().to_vec(),
                })
                .collect();
            let packed = pack_files(b"launcher", &payloads, Some(3)).unwrap();
            let variants = build_variants(language);
            assert_eq!(read_back(&packed, X86Level::V2, Some(3)).unwrap(), variants[0].output_stem.as_bytes());
            assert_eq!(read_back(&packed, X86Level::X86_64, None).unwrap(), variants[1].output_stem.as_bytes());
            assert_eq!(read_back(&packed, X86Level::V2, None).unwrap(), variants[2].output_stem.as_bytes());
            assert_eq!(read_back(&packed, X86Level::V3, Some(4)).unwrap(), variants[3].output_stem.as_bytes());
            assert_eq!(read_back(&packed, X86Level::V4, None).unwrap(), variants[4].output_stem.as_bytes());
        }
    }
}

#[test]
fn direct_compiler_flags_follow_the_variant() {
    assert_eq!(compiler_flags(Language::C, Variant::V3), vec!["-O3", "-march=x86-64-v3", "-Iinclude", "-Isrc"]);
    assert_eq!(
        compiler_flags(Language::Cpp, Variant::Native),
        vec!["-O3", "-march=native", "-I.", "-Iinclude", "-Isrc"]
    );
    assert_eq!(march_flag(Variant::X86_64), "-march=x86-64");
}

#[test]
fn cmake_settings_follow_the_variant() {
    assert_eq!(cmake_flags(Language::C, Variant::V2), "-DCMAKE_C_FLAGS_RELEASE=-O3 -march=x86-64-v2");
    assert_eq!(cmake_flags(Language::Cpp, Variant::V4), "-DCMAKE_CXX_FLAGS_RELEASE=-O3 -march=x86-64-v4");
    assert_eq!(cmake_build_dir(Language::C, Variant::V3), "cmake-x86-64-v3");
    assert_eq!(cmake_output_dir(Language::C, Variant::V3), "cmake-c-out-x86-64-v3");
    assert_eq!(cmake_build_dir(Language::Cpp, Variant::Native), "cmake-cpp-native");
    assert_eq!(cmake_output_dir(Language::Cpp, Variant::X86_64), "cmake-cpp-out-x86-64");
}

#[test]
fn zig_and_rust_settings_follow_the_variant() {
    assert_eq!(zig_flags(Variant::V2), vec!["-O", "ReleaseFast", "-mcpu=x86_64_v2"]);
    assert_eq!(zig_flags(Variant::Native), vec!["-O", "ReleaseFast", "-mcpu=native"]);
    assert_eq!(rust_flags(Variant::V4), "-C target-cpu=x86-64-v4");
    assert_eq!(rust_flags(Variant::Native), "-C target-cpu=native");
    assert_eq!(rust_target_dir(Variant::V3), "rust-x86_64_v3");
    assert_eq!(rust_target_dir(Variant::X86_64), "rust-x86_64");
}
