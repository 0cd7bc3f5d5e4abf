use vstd::prelude::*;

use vstd::utf8::encode_utf8;

use crate::archive::select::bytes_equal;
use crate::builder::compile::{string_bytes, BuildError, Language};
use crate::text::ascii_string;

verus! {

/// A file found under a project directory: its path below the directory, component by
/// component, and its extension when it has a UTF-8 one.
pub struct SourceFile {
    pub components: Vec<Vec<u8>>,
    pub extension: Option<String>,
}

/// The path of a file, component by component.
pub open spec fn source_path(f: SourceFile) -> Seq<Seq<u8>> {
    f.components@.map_values(|c: Vec<u8>| c@)
}

/// Byte-wise lexicographic order.
pub open spec fn bytes_lt(a: Seq<u8>, b: Seq<u8>) -> bool
    decreases a.len(),
{
    if a.len() == 0 {
        b.len() > 0
    } else if b.len() == 0 {
        false
    } else if a[0] != b[0] {
        a[0] < b[0]
    } else {
        bytes_lt(a.drop_first(), b.drop_first())
    }
}

/// The order of paths: component by component, each compared byte-wise.
pub open spec fn path_lt(a: Seq<Seq<u8>>, b: Seq<Seq<u8>>) -> bool
    decreases a.len(),
{
    if a.len() == 0 {
        b.len() > 0
    } else if b.len() == 0 {
        false
    } else if a[0] != b[0] {
        bytes_lt(a[0], b[0])
    } else {
        path_lt(a.drop_first(), b.drop_first())
    }
}

pub proof fn lemma_bytes_lt_irreflexive(a: Seq<u8>)
    ensures
        !bytes_lt(a, a),
    decreases a.len(),
{
    if a.len() > 0 {
        lemma_bytes_lt_irreflexive(a.drop_first());
    }
}

pub proof fn lemma_bytes_lt_transitive(a: Seq<u8>, b: Seq<u8>, c: Seq<u8>)
    requires
        bytes_lt(a, b),
        bytes_lt(b, c),
    ensures
        bytes_lt(a, c),
    decreases a.len(),
{
    if a.len() > 0 && a[0] == b[0] && b[0] == c[0] {
        lemma_bytes_lt_transitive(a.drop_first(), b.drop_first(), c.drop_first());
    }
}

pub proof fn lemma_path_lt_irreflexive(a: Seq<Seq<u8>>)
    ensures
        !path_lt(a, a),
    decreases a.len(),
{
    if a.len() > 0 {
        lemma_path_lt_irreflexive(a.drop_first());
    }
}

/// The path order is transitive.
pub proof fn lemma_path_lt_transitive(a: Seq<Seq<u8>>, b: Seq<Seq<u8>>, c: Seq<Seq<u8>>)
    requires
        path_lt(a, b),
        path_lt(b, c),
    ensures
        path_lt(a, c),
    decreases a.len(),
{
    if a.len() > 0 && b.len() > 0 && c.len() > 0 {
        if a[0] == b[0] && b[0] == c[0] {
            lemma_path_lt_transitive(a.drop_first(), b.drop_first(), c.drop_first());
        } else if a[0] != b[0] && b[0] != c[0] {
            lemma_bytes_lt_transitive(a[0], b[0], c[0]);
            if a[0] == c[0] {
                lemma_bytes_lt_irreflexive(a[0]);
            }
        }
    }
}

/// Byte-wise lexicographic comparison.
pub fn bytes_less(a: &[u8], b: &[u8]) -> (r: bool)
    ensures
        r == bytes_lt(a@, b@),
{
    let mut i: usize = 0;
    assert(a@.skip(0) =~= a@ && b@.skip(0) =~= b@);
    while i < a.len() && i < b.len()
        invariant
            i <= a@.len(),
            i <= b@.len(),
            bytes_lt(a@, b@) == bytes_lt(a@.skip(i as int), b@.skip(i as int)),
        decreases a@.len() - i,
    {
        assert(a@.skip(i as int)[0] == a@[i as int] && b@.skip(i as int)[0] == b@[i as int]);
        if a[i] != b[i] {
            return a[i] < b[i];
        }
        assert(a@.skip(i as int).drop_first() =~= a@.skip(i + 1));
        assert(b@.skip(i as int).drop_first() =~= b@.skip(i + 1));
        i = i + 1;
    }
    i == a.len() && i < b.len()
}

/// The view of a path given as components.
pub open spec fn components_view(p: Seq<Vec<u8>>) -> Seq<Seq<u8>> {
    p.map_values(|c: Vec<u8>| c@)
}

/// Compares two paths component by component.
pub fn path_less(a: &Vec<Vec<u8>>, b: &Vec<Vec<u8>>) -> (r: bool)
    ensures
        r == path_lt(components_view(a@), components_view(b@)),
{
    let ghost av = components_view(a@);
    let ghost bv = components_view(b@);
    let mut i: usize = 0;
    assert(av.skip(0) =~= av && bv.skip(0) =~= bv);
    while i < a.len() && i < b.len()
        invariant
            av == components_view(a@),
            bv == components_view(b@),
            i <= a@.len(),
            i <= b@.len(),
            path_lt(av, bv) == path_lt(av.skip(i as int), bv.skip(i as int)),
        decreases a@.len() - i,
    {
        assert(av.skip(i as int)[0] == a@[i as int]@ && bv.skip(i as int)[0] == b@[i as int]@);
        if !bytes_equal(a[i].as_slice(), b[i].as_slice()) {
            return bytes_less(a[i].as_slice(), b[i].as_slice());
        }
        assert(av.skip(i as int).drop_first() =~= av.skip(i + 1));
        assert(bv.skip(i as int).drop_first() =~= bv.skip(i + 1));
        i = i + 1;
    }
    i == a.len() && i < b.len()
}

/// A file has one of the extensions.
pub open spec fn has_extension(f: SourceFile, extensions: Seq<Seq<u8>>) -> bool {
    match f.extension {
        Some(e) => extensions.contains(encode_utf8(e@)),
        None => false,
    }
}

/// `order` lists exactly the files with one of the extensions, each once, ordered by path.
pub open spec fn sorted_sources(files: Seq<SourceFile>, extensions: Seq<Seq<u8>>, order: Seq<usize>) -> bool {
    &&& forall|k: int|
        0 <= k < order.len() ==> #[trigger] order[k] < files.len() && has_extension(
            files[order[k] as int],
            extensions,
        )
    &&& forall|i: int|
        0 <= i < files.len() && has_extension(#[trigger] files[i], extensions) ==> order.contains(
            i as usize,
        )
    &&& forall|a: int, b: int| 0 <= a < b < order.len() ==> #[trigger] order[a] != #[trigger] order[b]
    &&& forall|a: int, b: int|
        0 <= a < b < order.len() ==> !path_lt(
            source_path(files[#[trigger] order[b] as int]),
            source_path(files[#[trigger] order[a] as int]),
        )
}

fn has_any_extension(file: &SourceFile, extensions: &[String]) -> (r: bool)
    ensures
        r == has_extension(*file, string_bytes(extensions@)),
{
    match &file.extension {
        None => false,
        Some(e) => {
            let ghost exts = string_bytes(extensions@);
            let mut k: usize = 0;
            while k < extensions.len()
                invariant
                    k <= extensions@.len(),
                    exts == string_bytes(extensions@),
                    file.extension == Some(*e),
                    forall|j: int| 0 <= j < k ==> exts[j] != encode_utf8(e@),
                decreases extensions@.len() - k,
            {
                if bytes_equal(extensions[k].as_str().as_bytes(), e.as_str().as_bytes()) {
                    assert(exts[k as int] == encode_utf8(e@));
                    assert(k < exts.len());
                    assert(exts.contains(encode_utf8(e@)));
                    assert(has_extension(*file, exts));
                    return true;
                }
                k = k + 1;
            }
            false
        },
    }
}

/// The state of sorting after the first `i` files: `order` lists exactly the matching
/// files among them, each once, ordered by path.
pub open spec fn insertion_state(files: Seq<SourceFile>, exts: Seq<Seq<u8>>, order: Seq<usize>, i: int) -> bool {
    &&& forall|k: int|
        0 <= k < order.len() ==> #[trigger] order[k] < i && has_extension(files[order[k] as int], exts)
    &&& forall|j: int|
        0 <= j < i && has_extension(#[trigger] files[j], exts) ==> order.contains(j as usize)
    &&& forall|a: int, b: int| 0 <= a < b < order.len() ==> #[trigger] order[a] != #[trigger] order[b]
    &&& forall|a: int, b: int|
        0 <= a < b < order.len() ==> !path_lt(
            source_path(files[#[trigger] order[b] as int]),
            source_path(files[#[trigger] order[a] as int]),
        )
}

/// Inserting a matching file before the first listed file whose path is greater keeps the
/// list sorted.
proof fn lemma_insert_sorted(files: Seq<SourceFile>, exts: Seq<Seq<u8>>, old_order: Seq<usize>, p: int, i: int)
    requires
        0 <= i < files.len(),
        i < usize::MAX,
        insertion_state(files, exts, old_order, i),
        has_extension(files[i], exts),
        0 <= p <= old_order.len(),
        forall|t: int| 0 <= t < p ==> !path_lt(source_path(files[i]), source_path(files[#[trigger] old_order[t] as int])),
        p < old_order.len() ==> path_lt(source_path(files[i]), source_path(files[old_order[p] as int])),
    ensures
        insertion_state(files, exts, old_order.insert(p, i as usize), i + 1),
{
    let order = old_order.insert(p, i as usize);
    let key = source_path(files[i]);
    assert(order[p] == i as usize);
    assert forall|k: int| 0 <= k < order.len() implies #[trigger] order[k] < i + 1 && has_extension(
        files[order[k] as int],
        exts,
    ) by {
        if k < p {
            assert(order[k] == old_order[k]);
        } else if k > p {
            assert(order[k] == old_order[k - 1]);
        }
    }
    assert forall|a: int, b: int| 0 <= a < b < order.len() implies !path_lt(
        source_path(files[#[trigger] order[b] as int]),
        source_path(files[#[trigger] order[a] as int]),
    ) by {
        if a < p && b == p {
            assert(order[a] == old_order[a]);
        } else if a == p && b > p {
            let x = source_path(files[order[b] as int]);
            let first = source_path(files[old_order[p] as int]);
            assert(order[b] == old_order[b - 1]);
            if path_lt(x, key) {
                lemma_path_lt_transitive(x, key, first);
                if b - 1 == p {
                    lemma_path_lt_irreflexive(x);
                }
            }
        } else if a < p && b > p {
            assert(order[a] == old_order[a]);
            assert(order[b] == old_order[b - 1]);
        } else if a > p {
            assert(order[a] == old_order[a - 1]);
            assert(order[b] == old_order[b - 1]);
        } else {
            assert(order[a] == old_order[a]);
            assert(order[b] == old_order[b]);
        }
    }
    assert forall|j: int| 0 <= j < i + 1 && has_extension(#[trigger] files[j], exts) implies order.contains(
        j as usize,
    ) by {
        if j == i {
            assert(order[p] == i as usize);
        } else {
            assert(old_order.contains(j as usize));
            let k = choose|k: int| 0 <= k < old_order.len() && old_order[k] == j as usize;
            if k < p {
                assert(order[k] == j as usize);
            } else {
                assert(order[k + 1] == j as usize);
            }
        }
    }
    assert forall|a: int, b: int| 0 <= a < b < order.len() implies #[trigger] order[a]
        != #[trigger] order[b] by {
        if a == p {
            assert(order[b] == old_order[b - 1]);
        } else if b == p {
            assert(order[a] == old_order[a]);
        } else {
            let oa = if a < p { a } else { a - 1 };
            let ob = if b < p { b } else { b - 1 };
            assert(order[a] == old_order[oa]);
            assert(order[b] == old_order[ob]);
        }
    }
}

/// Lists the files with one of the extensions, ordered by path.
pub fn collect_sources(files: &[SourceFile], extensions: &[String]) -> (order: Vec<usize>)
    ensures
        sorted_sources(files@, string_bytes(extensions@), order@),
{
    let ghost exts = string_bytes(extensions@);
    let mut order: Vec<usize> = Vec::new();
    let mut i: usize = 0;
    while i < files.len()
        invariant
            i <= files@.len(),
            exts == string_bytes(extensions@),
            insertion_state(files@, exts, order@, i as int),
        decreases files@.len() - i,
    {
        if has_any_extension(&files[i], extensions) {
            let ghost key = source_path(files@[i as int]);
            assert(components_view(files@[i as int].components@) == key);
            let mut p: usize = 0;
            while p < order.len() && !path_less(&files[i].components, &files[order[p]].components)
                invariant
                    i < files@.len(),
                    p <= order@.len(),
                    key == source_path(files@[i as int]),
                    forall|k: int| 0 <= k < order@.len() ==> #[trigger] order@[k] < i,
                    forall|t: int|
                        0 <= t < p ==> !path_lt(key, source_path(files@[#[trigger] order@[t] as int])),
                decreases order@.len() - p,
            {
                assert(components_view(files@[order@[p as int] as int].components@) == source_path(
                    files@[order@[p as int] as int],
                ));
                p = p + 1;
            }
            proof {
                if p < order@.len() {
                    assert(components_view(files@[order@[p as int] as int].components@)
                        == source_path(files@[order@[p as int] as int]));
                }
            }
            let ghost old_order = order@;
            order.insert(p, i);
            proof {
                assert(order@ =~= old_order.insert(p as int, i));
                lemma_insert_sorted(files@, exts, old_order, p as int, i as int);
            }
        }
        i = i + 1;
    }
    order
}

/// The first of the files with one of the extensions, in path order.
pub fn find_first_source(files: &[SourceFile], extensions: &[String]) -> (r: Option<usize>)
    ensures
        match r {
            Some(i) => i < files@.len() && has_extension(files@[i as int], string_bytes(extensions@))
                && forall|j: int|
                0 <= j < files@.len() && has_extension(#[trigger] files@[j], string_bytes(extensions@))
                    ==> !path_lt(source_path(files@[j]), source_path(files@[i as int])),
            None => forall|j: int|
                0 <= j < files@.len() ==> !has_extension(#[trigger] files@[j], string_bytes(extensions@)),
        },
{
    let files_len = files.len();
    let order = collect_sources(files, extensions);
    if order.len() == 0 {
        proof {
            assert forall|j: int| 0 <= j < files@.len() implies !has_extension(
                #[trigger] files@[j],
                string_bytes(extensions@),
            ) by {
                if has_extension(files@[j], string_bytes(extensions@)) {
                    assert(order@.contains(j as usize));
                }
            }
        }
        None
    } else {
        let first = order[0];
        proof {
            assert forall|j: int|
                0 <= j < files@.len() && has_extension(#[trigger] files@[j], string_bytes(extensions@))
                implies !path_lt(source_path(files@[j]), source_path(files@[first as int])) by {
                assert(order@.contains(j as usize));
                let k = choose|k: int| 0 <= k < order@.len() && order@[k] == j as usize;
                assert(order@[k] == j as usize);
                if k == 0 {
                    lemma_path_lt_irreflexive(source_path(files@[j]));
                } else {
                    assert(order@[0] == first);
                    assert(!path_lt(
                        source_path(files@[order@[k] as int]),
                        source_path(files@[order@[0] as int]),
                    ));
                }
            }
        }
        Some(first)
    }
}

/// The extensions of the sources that a language's compiler builds: `c` for C; `cpp`,
/// `cc` and `cxx` for C++; `zig` for Zig. Cargo finds Rust's sources by itself.
pub open spec fn compiled_extensions(language: Language) -> Seq<Seq<u8>> {
    match language {
        Language::C => seq![seq![99u8]],
        Language::Cpp => seq![seq![99u8, 112u8, 112u8], seq![99u8, 99u8], seq![99u8, 120u8, 120u8]],
        Language::Rust => Seq::empty(),
        Language::Zig => seq![seq![122u8, 105u8, 103u8]],
    }
}

fn ascii_extension(bytes: Vec<u8>) -> (s: String)
    requires
        forall|i: int| 0 <= i < bytes@.len() ==> #[trigger] bytes@[i] < 128,
    ensures
        encode_utf8(s@) == bytes@,
{
    ascii_string(bytes.as_slice())
}

/// The extensions of the sources that a language's compiler builds.
pub fn source_extensions(language: Language) -> (r: Vec<String>)
    ensures
        string_bytes(r@) == compiled_extensions(language),
{
    let mut r: Vec<String> = Vec::new();
    match language {
        Language::C => {
            let c: Vec<u8> = vec![99u8];
            assert(c@ == seq![99u8]);
            r.push(ascii_extension(c));
        },
        Language::Cpp => {
            let cpp: Vec<u8> = vec![99u8, 112u8, 112u8];
            let cc: Vec<u8> = vec![99u8, 99u8];
            let cxx: Vec<u8> = vec![99u8, 120u8, 120u8];
            assert(cpp@ == seq![99u8, 112u8, 112u8]);
            assert(cc@ == seq![99u8, 99u8]);
            assert(cxx@ == seq![99u8, 120u8, 120u8]);
            r.push(ascii_extension(cpp));
            r.push(ascii_extension(cc));
            r.push(ascii_extension(cxx));
        },
        Language::Rust => {},
        Language::Zig => {
            let zig: Vec<u8> = vec![122u8, 105u8, 103u8];
            assert(zig@ == seq![122u8, 105u8, 103u8]);
            r.push(ascii_extension(zig));
        },
    }
    assert(string_bytes(r@) =~= compiled_extensions(language));
    r
}

/// The one executable among the candidates that CMake produced: the index of the single
/// `true`. None or several are rejected.
pub fn find_single_executable(is_executable: &[bool]) -> (r: Result<usize, BuildError>)
    ensures
        match r {
            Ok(i) => i < is_executable@.len() && is_executable@[i as int] && forall|j: int|
                0 <= j < is_executable@.len() && j != i ==> !#[trigger] is_executable@[j],
            Err(e) => (e == BuildError::NoExecutable && forall|j: int|
                0 <= j < is_executable@.len() ==> !#[trigger] is_executable@[j]) || (e
                == BuildError::MultipleExecutables && exists|a: int, b: int|
                0 <= a < b < is_executable@.len() && #[trigger] is_executable@[a]
                    && #[trigger] is_executable@[b]),
        },
{
    let mut found: Option<usize> = None;
    let mut i: usize = 0;
    while i < is_executable.len()
        invariant
            i <= is_executable@.len(),
            match found {
                Some(f) => f < i && is_executable@[f as int] && forall|j: int|
                    0 <= j < i && j != f ==> !#[trigger] is_executable@[j],
                None => forall|j: int| 0 <= j < i ==> !#[trigger] is_executable@[j],
            },
        decreases is_executable@.len() - i,
    {
        if is_executable[i] {
            if let Some(f) = found {
                assert(is_executable@[f as int] && is_executable@[i as int]);
                return Err(BuildError::MultipleExecutables);
            }
            found = Some(i);
        }
        i = i + 1;
    }
    match found {
        Some(f) => Ok(f),
        None => Err(BuildError::NoExecutable),
    }
}

} // verus!
