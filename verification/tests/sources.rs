use spec_elf::builder::compile::{BuildError, Language};
use spec_elf::builder::sources::{
    collect_sources, find_first_source, find_single_executable, source_extensions, SourceFile,
};

fn file(path: &str) -> SourceFile {
    let components: Vec<Vec<u8>> = path.split('/').map(|c| c.as_bytes().to_vec()).collect();
    let last = path.rsplit('/').next().unwrap();
    let extension = last.rsplit_once('.').map(|(_, ext)| ext.to_string());
    SourceFile { components, extension }
}

fn exts(list: &[&str]) -> Vec<String> {
    list.iter().map(|s| s.to_string()).collect()
}

#[test]
fn sources_are_sorted_by_path_components() {
    let files = vec![file("z.c"), file("a.c"), file("a/b.c"), file("main.h"), file("a-b.c")];
    let order = collect_sources(&files, &exts(&["c"]));
    assert_eq!(order, vec![2, 4, 1, 0]);
}

#[test]
fn sources_keep_only_the_given_extensions() {
    let files = vec![file("x.cpp"), file("y.cc"), file("w.hpp"), file("v.cxx")];
    let order = collect_sources(&files, &source_extensions(Language::Cpp));
    assert_eq!(order, vec![3, 0, 1]);
    assert!(collect_sources(&files, &source_extensions(Language::Rust)).is_empty());
}

#[test]
fn first_source_is_the_least_path() {
    let files = vec![file("src/main.zig"), file("build.zig"), file("README.md")];
    assert_eq!(find_first_source(&files, &exts(&["zig"])), Some(1));
    assert_eq!(find_first_source(&files, &exts(&["c"])), None);
}

#[test]
fn source_extensions_per_language() {
    assert_eq!(source_extensions(Language::C), vec!["c"]);
    assert_eq!(source_extensions(Language::Cpp), vec!["cpp", "cc", "cxx"]);
    assert_eq!(source_extensions(Language::Zig), vec!["zig"]);
    assert!(source_extensions(Language::Rust).is_empty());
}

#[test]
fn single_executable_is_required() {
    assert_eq!(find_single_executable(&[false, true, false]), Ok(1));
    assert_eq!(find_single_executable(&[false, false]), Err(BuildError::NoExecutable));
    assert_eq!(find_single_executable(&[]), Err(BuildError::NoExecutable));
    assert_eq!(
        find_single_executable(&[true, false, true]),
        Err(BuildError::MultipleExecutables)
    );
}
