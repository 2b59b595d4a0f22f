use vstd::prelude::*;

verus! {

/// Placed between the base document and each section, and between the
/// documents of a multi-document source.
pub const SEPARATOR: &'static str = "\n\n---\n\n";

/// Opening of the notice that stands in for an identifier with no category.
pub const NOTICE_PREFIX: &'static str = "Note: No specific guidance available for language: '";

/// Closing of the notice that stands in for an identifier with no category.
pub const NOTICE_SUFFIX: &'static str = "'.";

pub open spec fn separator() -> Seq<char> {
    SEPARATOR@
}

/// The notice for an identifier that resolves to no category; it quotes the
/// identifier exactly as it was supplied.
pub open spec fn notice(raw: Seq<char>) -> Seq<char> {
    NOTICE_PREFIX@ + raw + NOTICE_SUFFIX@
}

/// The views of a sequence of strings.
pub open spec fn views(v: Seq<String>) -> Seq<Seq<char>> {
    v.map_values(|s: String| s@)
}

/// What `str::to_lowercase` makes of a string: the Unicode lowercase mapping
/// of each character, with the final-sigma rule of that method.
pub uninterp spec fn lower_of(s: Seq<char>) -> Seq<char>;

/// Relies on `str::to_lowercase`: its result is determined by the characters
/// of its argument alone.
#[verifier::external_body]
pub(crate) fn lowercase(s: &str) -> (r: String)
    ensures
        r@ == lower_of(s@),
{
    s.to_lowercase()
}

/// The notice for an identifier that resolves to no category.
pub fn fallback_notice(raw: &str) -> (r: String)
    ensures
        r@ == notice(raw@),
{
    let mut out = String::from_str(NOTICE_PREFIX);
    out.append(raw);
    out.append(NOTICE_SUFFIX);
    out
}

} // verus!
