use vstd::prelude::*;

use vstd::utf8::encode_utf8;

use crate::archive::select::bytes_equal;
use crate::builder::compile::BuildError;

verus! {

/// What the binary selection reads from a parsed `Cargo.toml`: the `name` of each
/// `[[bin]]` target when `bin` is an array, and the `[package]` name.
pub struct CargoTargets {
    pub bins: Option<Vec<Option<String>>>,
    pub package_name: Option<String>,
}

/// The mathematical content of [`CargoTargets`].
pub type CargoTargetsView = (Option<Seq<Option<Seq<char>>>>, Option<Seq<char>>);

pub open spec fn opt_string_view(s: Option<String>) -> Option<Seq<char>> {
    match s {
        Some(s) => Some(s@),
        None => None,
    }
}

impl CargoTargets {
    pub open spec fn view(self) -> CargoTargetsView {
        (
            match self.bins {
                Some(bins) => Some(bins@.map_values(|b: Option<String>| opt_string_view(b))),
                None => None,
            },
            opt_string_view(self.package_name),
        )
    }
}

/// A TOML text without backslashes and carriage returns: each string value in it is then
/// spelled out verbatim between its delimiters.
pub open spec fn plain_toml(text: Seq<u8>) -> bool {
    forall|i: int| 0 <= i < text.len() ==> #[trigger] text[i] != 92u8 && text[i] != 13u8
}

/// `s` stands in `text` as a string value: right after a quote, an apostrophe or a line
/// break (the last where a multi-line string begins), and right before a quote or an
/// apostrophe.
pub open spec fn quoted_in(text: Seq<u8>, s: Seq<u8>) -> bool {
    exists|i: int|
        1 <= i && i + s.len() < text.len() && #[trigger] text.subrange(i, i + s.len()) == s && (
        text[i - 1] == 34u8 || text[i - 1] == 39u8 || text[i - 1] == 10u8) && (text[i + s.len()]
            == 34u8 || text[i + s.len()] == 39u8)
}

/// Every name among the targets stands in `text` as a string value.
pub open spec fn names_quoted_in(text: Seq<u8>, targets: CargoTargetsView) -> bool {
    let (bins, package_name) = targets;
    &&& (package_name matches Some(n) ==> quoted_in(text, encode_utf8(n)))
    &&& (bins matches Some(b) ==> forall|i: int|
        0 <= i < b.len() ==> (#[trigger] b[i] matches Some(n) ==> quoted_in(text, encode_utf8(n))))
}

/// What `toml::from_str::<toml::Value>` gives for a `Cargo.toml` text, read as
/// [`CargoTargets`]; `None` when the text is not a TOML document.
pub uninterp spec fn toml_cargo_targets(text: Seq<char>) -> Option<CargoTargetsView>;

/// Parses a `Cargo.toml` text with `toml::from_str::<toml::Value>` and reads, with
/// `toml::Value::get`, `as_array` and `as_str`, the `name` of every `[[bin]]` target and
/// the `[package]` name. The contract names the result, and claims what TOML's string
/// syntax gives: in a text without backslashes and carriage returns, a string value has
/// no escape and no line ending to normalize, so each name read stands verbatim between
/// the delimiters of its string.
#[verifier::external_body]
fn parse_cargo_targets(text: &str) -> (r: Option<CargoTargets>)
    ensures
        match toml_cargo_targets(text@) {
            Some(v) => r matches Some(t) && t.view() == v,
            None => r is None,
        },
        r matches Some(t) ==> (plain_toml(encode_utf8(text@)) ==> names_quoted_in(
            encode_utf8(text@),
            t.view(),
        )),
{
    let manifest: toml::Value = toml::from_str(text).ok()?;
    let name_of = |v: &toml::Value| v.get("name").and_then(toml::Value::as_str).map(str::to_string);
    let bins = manifest.get("bin").and_then(toml::Value::as_array).map(
        |bins| bins.iter().map(name_of).collect(),
    );
    let package_name = manifest.get("package").and_then(name_of);
    Some(CargoTargets { bins, package_name })
}

/// The executable that a Cargo project builds, by its targets: the name of a single
/// explicit `[[bin]]` when it has one, otherwise the package name. Several explicit
/// binaries are rejected.
pub open spec fn binary_name_spec(targets: CargoTargetsView) -> Result<Seq<char>, BuildError> {
    let (bins, package_name) = targets;
    if bins matches Some(b) && b.len() > 1 {
        Err(BuildError::MultipleBinaries)
    } else if bins matches Some(b) && b.len() == 1 && b[0] is Some {
        Ok(bins.unwrap()[0].unwrap())
    } else {
        match package_name {
            Some(name) => Ok(name),
            None => Err(BuildError::NoBinaryName),
        }
    }
}

/// Chooses the executable name from the targets of a parsed `Cargo.toml`.
pub fn select_binary_name(targets: &CargoTargets) -> (r: Result<String, BuildError>)
    ensures
        match binary_name_spec(targets.view()) {
            Ok(name) => r matches Ok(s) && s@ == name,
            Err(e) => r matches Err(err) && err == e,
        },
{
    if let Some(bins) = &targets.bins {
        if bins.len() > 1 {
            return Err(BuildError::MultipleBinaries);
        }
        if bins.len() == 1 {
            if let Some(name) = &bins[0] {
                return Ok(name.clone());
            }
        }
    }
    match &targets.package_name {
        Some(name) => Ok(name.clone()),
        None => Err(BuildError::NoBinaryName),
    }
}

/// Does the text hold neither a backslash nor a carriage return?
fn is_plain_toml(text: &[u8]) -> (r: bool)
    ensures
        r == plain_toml(text@),
{
    let mut i: usize = 0;
    while i < text.len()
        invariant
            i <= text@.len(),
            forall|j: int| 0 <= j < i ==> #[trigger] text@[j] != 92u8 && text@[j] != 13u8,
        decreases text@.len() - i,
    {
        if text[i] == 92u8 || text[i] == 13u8 {
            return false;
        }
        i = i + 1;
    }
    true
}

/// Does `s` stand in `text` as a string value?
fn is_quoted_in(text: &[u8], s: &[u8]) -> (r: bool)
    ensures
        r == quoted_in(text@, s@),
{
    let n = s.len();
    let mut i: usize = 1;
    while i < text.len() && n < text.len() - i
        invariant
            1 <= i,
            n == s@.len(),
            forall|j: int|
                1 <= j < i && j + n < text@.len() ==> !(#[trigger] text@.subrange(j, j + n) == s@ && (
                text@[j - 1] == 34u8 || text@[j - 1] == 39u8 || text@[j - 1] == 10u8) && (text@[j
                    + n] == 34u8 || text@[j + n] == 39u8)),
        decreases text@.len() - i,
    {
        let before = text[i - 1];
        let after = text[i + n];
        let window = &text[i..i + n];
        assert(window@ == text@.subrange(i as int, i + n));
        if bytes_equal(window, s) && (before == 34u8 || before == 39u8 || before == 10u8) && (after
            == 34u8 || after == 39u8) {
            return true;
        }
        i = i + 1;
    }
    false
}

/// The executable that the Cargo project with this `Cargo.toml` text builds./// The executable that the Cargo project with this `Cargo.toml` text builds.
pub fn cargo_binary_name(cargo_toml: &str) -> (r: Result<String, BuildError>)
    ensures
        match toml_cargo_targets(cargo_toml@) {
            None => r matches Err(err) && err == BuildError::InvalidCargoManifest,
            Some(targets) => match binary_name_spec(targets) {
                Ok(name) => r matches Ok(s) && s@ == name,
                Err(e) => r matches Err(err) && err == e,
            },
        },
        r matches Ok(s) ==> (plain_toml(encode_utf8(cargo_toml@)) ==> quoted_in(
            encode_utf8(cargo_toml@),
            encode_utf8(s@),
        )),
{
    let targets = match parse_cargo_targets(cargo_toml) {
        None => return Err(BuildError::InvalidCargoManifest),
        Some(targets) => targets,
    };
    let name = match select_binary_name(&targets) {
        Ok(name) => name,
        Err(e) => return Err(e),
    };
    // The name is held to the text it was read from.
    let text = cargo_toml.as_bytes();
    if is_plain_toml(text) && !is_quoted_in(text, name.as_str().as_bytes()) {
        return Err(BuildError::InvalidCargoManifest);
    }
    Ok(name)
}

} // verus!
