//! Removal of viewer-interface artifacts.
//!
//! The source text comes out of one specific interactive digital edition
//! whose toolbar labels, attribution lines and page-number bleed-through
//! contaminate the extracted prose.  An ordered table of patterns is
//! applied in sequence, each match replaced by a single space so that an
//! artifact embedded mid-sentence does not fuse the words around it.
//! Later patterns run on the output of earlier ones, so the order is part
//! of the contract.

use vstd::prelude::*;

verus! {

/// What replacing every match of `pattern` in `text` by one space yields.
/// The result is a function of the two arguments alone; it is given a name
/// rather than spelled out because stating which substrings a compiled
/// pattern matches would amount to restating the matcher itself.
pub uninterp spec fn space_sub(pattern: Seq<char>, text: Seq<char>) -> Seq<char>;

/// Relies on `regex::Regex::new` and `regex::Regex::replace_all`: compiling
/// `pattern` and replacing every non-overlapping match in `text` with one
/// space is deterministic in `pattern` and `text` alone; a pattern that does
/// not compile is skipped, leaving the text unchanged.
#[verifier::external_body]
fn replace_with_space(pattern: &str, text: &str) -> (r: String)
    ensures
        r@ == space_sub(pattern@, text@),
{
    match regex::Regex::new(pattern) {
        Ok(re) => re.replace_all(text, " ").into_owned(),
        Err(_) => text.to_string(),
    }
}

/// The artifact table applied in its fixed order: toolbar labels (tolerant
/// of truncation), dangling fragments left by earlier partial matches, the
/// attribution and patent lines, the copyright line, the product name, the
/// website address, and three page-number bleed-through patterns.
pub open spec fn scrubbed(s: Seq<char>) -> Seq<char> {
    space_sub(r"B \d+"@,
    space_sub(r"RABBIT-HOLE\. \d+"@,
    space_sub(r"DOWN THE\s*\d+"@,
    space_sub(r"www\.bookvirtual\.com"@,
    space_sub(r"BookVirtual™"@,
    space_sub(r"© 2000 All Rights Reserved\."@,
    space_sub(r"U\.S\. Patent Pending.*"@,
    space_sub(r"Digital Interface by.*"@,
    space_sub(r"n O"@,
    space_sub(r"en O"@,
    space_sub(r"[ol]+ Internet"@,
    space_sub(r"[n/]*Off Close Book"@,
    space_sub(r"Navigate Contr"@,
    space_sub(r"Fit Page Full Scre[e]?"@,
    s))))))))))))))
}

/// Applies the artifact table to `raw`, each pattern replaced by a space,
/// in the fixed order that `scrubbed` states.
pub fn scrub(raw: &str) -> (r: String)
    ensures
        r@ == scrubbed(raw@),
{
    let s = replace_with_space(r"Fit Page Full Scre[e]?", raw);
    let s = replace_with_space(r"Navigate Contr", s.as_str());
    let s = replace_with_space(r"[n/]*Off Close Book", s.as_str());
    let s = replace_with_space(r"[ol]+ Internet", s.as_str());
    let s = replace_with_space(r"en O", s.as_str());
    let s = replace_with_space(r"n O", s.as_str());
    let s = replace_with_space(r"Digital Interface by.*", s.as_str());
    let s = replace_with_space(r"U\.S\. Patent Pending.*", s.as_str());
    let s = replace_with_space(r"© 2000 All Rights Reserved\.", s.as_str());
    let s = replace_with_space(r"BookVirtual™", s.as_str());
    let s = replace_with_space(r"www\.bookvirtual\.com", s.as_str());
    let s = replace_with_space(r"DOWN THE\s*\d+", s.as_str());
    let s = replace_with_space(r"RABBIT-HOLE\. \d+", s.as_str());
    let s = replace_with_space(r"B \d+", s.as_str());
    s
}

} // verus!
