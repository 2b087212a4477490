use vstd::prelude::*;

use crate::text::{
    chars_of, contains, contains_chars, lower_of, lowercase, opt_chars, push_all, same_chars,
    string_of,
};

verus! {

/// The label of a numeric architecture code: 0 is x86, 9 is x64, 5 is ARM and
/// 12 is ARM64; any other code has none.
pub open spec fn arch_code_label(v: Seq<char>) -> Option<Seq<char>> {
    if v == "0"@ {
        Some("x86"@)
    } else if v == "9"@ {
        Some("x64"@)
    } else if v == "5"@ {
        Some("ARM"@)
    } else if v == "12"@ {
        Some("ARM64"@)
    } else {
        None
    }
}

/// The architecture that lower-case free text names: "x64" or "amd64" first,
/// then "x86", then "arm64".
pub open spec fn arch_from_text(t: Seq<char>) -> Option<Seq<char>> {
    if contains(t, "x64"@) || contains(t, "amd64"@) {
        Some("x64"@)
    } else if contains(t, "x86"@) {
        Some("x86"@)
    } else if contains(t, "arm64"@) {
        Some("ARM64"@)
    } else {
        None
    }
}

/// The operating system version that lower-case free text names; the more
/// specific names are tried before the names they contain.
pub open spec fn version_label(t: Seq<char>) -> Option<Seq<char>> {
    if contains(t, "windows 11"@) {
        Some("Windows 11"@)
    } else if contains(t, "windows 10"@) {
        Some("Windows 10"@)
    } else if contains(t, "windows server 2022"@) {
        Some("Windows Server 2022"@)
    } else if contains(t, "windows server 2019"@) {
        Some("Windows Server 2019"@)
    } else if contains(t, "windows server"@) {
        Some("Windows Server"@)
    } else if contains(t, "windows"@) {
        Some("Windows"@)
    } else {
        None
    }
}

/// The text that the version and architecture rules read: name, a space,
/// description.
pub open spec fn combined(name: Seq<char>, description: Seq<char>) -> Seq<char> {
    name + seq![' '] + description
}

fn has(t: &[char], p: &str) -> (r: bool)
    ensures
        r == contains(t@, p@),
{
    let pc = chars_of(p);
    contains_chars(t, pc.as_slice())
}

/// Maps an architecture code, as it stands in the ARCH tag, to its label.
pub fn arch_label_for_code(v: &[char]) -> (r: Option<String>)
    ensures
        opt_chars(r) == arch_code_label(v@),
{
    if same_chars(v, chars_of("0").as_slice()) {
        Some("x86".to_owned())
    } else if same_chars(v, chars_of("9").as_slice()) {
        Some("x64".to_owned())
    } else if same_chars(v, chars_of("5").as_slice()) {
        Some("ARM".to_owned())
    } else if same_chars(v, chars_of("12").as_slice()) {
        Some("ARM64".to_owned())
    } else {
        None
    }
}

/// The architecture named in lower-case text.
pub fn arch_from_lowered(t: &[char]) -> (r: Option<String>)
    ensures
        opt_chars(r) == arch_from_text(t@),
{
    if has(t, "x64") || has(t, "amd64") {
        Some("x64".to_owned())
    } else if has(t, "x86") {
        Some("x86".to_owned())
    } else if has(t, "arm64") {
        Some("ARM64".to_owned())
    } else {
        None
    }
}

/// The version named in lower-case text.
pub fn version_from_lowered(t: &[char]) -> (r: Option<String>)
    ensures
        opt_chars(r) == version_label(t@),
{
    if has(t, "windows 11") {
        Some("Windows 11".to_owned())
    } else if has(t, "windows 10") {
        Some("Windows 10".to_owned())
    } else if has(t, "windows server 2022") {
        Some("Windows Server 2022".to_owned())
    } else if has(t, "windows server 2019") {
        Some("Windows Server 2019".to_owned())
    } else if has(t, "windows server") {
        Some("Windows Server".to_owned())
    } else if has(t, "windows") {
        Some("Windows".to_owned())
    } else {
        None
    }
}

/// The lower-case form of name, a space and description, as characters.
pub fn lowered_combined(name: &[char], description: &[char]) -> (r: Vec<char>)
    ensures
        r@ == lower_of(combined(name@, description@)),
{
    let mut all: Vec<char> = Vec::new();
    push_all(&mut all, name);
    all.push(' ');
    push_all(&mut all, description);
    assert(all@ =~= combined(name@, description@));
    let text = string_of(all.as_slice());
    let lowered = lowercase(text.as_str());
    chars_of(lowered.as_str())
}

/// The version and the architecture that an image's name and description
/// name, read case-insensitively.
pub fn extract_version_and_arch(name: &str, description: &str) -> (r: (
    Option<String>,
    Option<String>,
))
    ensures
        opt_chars(r.0) == version_label(lower_of(combined(name@, description@))),
        opt_chars(r.1) == arch_from_text(lower_of(combined(name@, description@))),
{
    let n = chars_of(name);
    let d = chars_of(description);
    let lowered = lowered_combined(n.as_slice(), d.as_slice());
    (version_from_lowered(lowered.as_slice()), arch_from_lowered(lowered.as_slice()))
}

} // verus!
