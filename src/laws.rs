use vstd::prelude::*;
use crate::compose::{composed, section};
use crate::registry::{first_match, lemma_first_match, names_category, unambiguous, CategoryView};
use crate::text::{lower_of, notice, separator};

verus! {

/// Every category is found by its canonical name in any casing: an
/// identifier whose lowercase form is the lowercased canonical name resolves
/// to that category, in a registry where no identifier names two categories.
pub proof fn canonical_name_resolves(reg: Seq<CategoryView>, i: int, raw: Seq<char>)
    requires
        unambiguous(reg),
        0 <= i < reg.len(),
        lower_of(raw) == lower_of(reg[i].name),
    ensures
        first_match(reg, lower_of(raw)) == Some(i),
{
    lemma_first_match(reg, lower_of(raw));
    assert(names_category(reg[i], lower_of(raw)));
}

/// Every alias finds its category whatever the casing of the identifier: an
/// identifier whose lowercase form is an alias of a category resolves to
/// that category, in a registry where no identifier names two categories.
pub proof fn alias_resolves(reg: Seq<CategoryView>, i: int, alias: Seq<char>, raw: Seq<char>)
    requires
        unambiguous(reg),
        0 <= i < reg.len(),
        reg[i].aliases.contains(alias),
        lower_of(raw) == alias,
    ensures
        first_match(reg, lower_of(raw)) == Some(i),
{
    lemma_first_match(reg, lower_of(raw));
    assert(names_category(reg[i], lower_of(raw)));
}

/// An identifier that names no category resolves to nothing, and a bundle
/// that requests it alone is the base document, the separator and the notice
/// that quotes the identifier.
pub proof fn unregistered_identifier(reg: Seq<CategoryView>, base: Seq<char>, raw: Seq<char>)
    requires
        forall|k: int| 0 <= k < reg.len() ==> !#[trigger] names_category(reg[k], lower_of(raw)),
    ensures
        first_match(reg, lower_of(raw)) is None,
        composed(reg, base, seq![raw]) == base + separator() + notice(raw),
{
    lemma_first_match(reg, lower_of(raw));
    single_request(reg, base, raw);
}

/// One request gives the base document, the separator and its section.
pub proof fn single_request(reg: Seq<CategoryView>, base: Seq<char>, raw: Seq<char>)
    ensures
        composed(reg, base, seq![raw]) == base + separator() + section(reg, raw),
{
    assert(seq![raw].drop_last() =~= Seq::<Seq<char>>::empty());
    assert(seq![raw].last() == raw);
    assert(composed(reg, base, Seq::<Seq<char>>::empty()) == base);
}

/// Two requests in either order give the same two sections, each after a
/// separator, in the order of the request.
pub proof fn two_requests_in_either_order(
    reg: Seq<CategoryView>,
    base: Seq<char>,
    a: Seq<char>,
    b: Seq<char>,
)
    ensures
        composed(reg, base, seq![a, b]) == base + separator() + section(reg, a) + separator()
            + section(reg, b),
        composed(reg, base, seq![b, a]) == base + separator() + section(reg, b) + separator()
            + section(reg, a),
{
    single_request(reg, base, a);
    single_request(reg, base, b);
    assert(seq![a, b].drop_last() =~= seq![a]);
    assert(seq![b, a].drop_last() =~= seq![b]);
}

/// A repeated request is not merged: an identifier requested twice brings
/// its category's guidance twice.
pub proof fn repeated_request(reg: Seq<CategoryView>, base: Seq<char>, raw: Seq<char>, i: int)
    requires
        first_match(reg, lower_of(raw)) == Some(i),
    ensures
        composed(reg, base, seq![raw, raw]) == base + separator() + reg[i].text + separator()
            + reg[i].text,
{
    lemma_first_match(reg, lower_of(raw));
    single_request(reg, base, raw);
    assert(seq![raw, raw].drop_last() =~= seq![raw]);
}

/// With no requests the bundle is the base document, unchanged.
pub proof fn empty_request(reg: Seq<CategoryView>, base: Seq<char>)
    ensures
        composed(reg, base, Seq::empty()) == base,
{
}

/// Requests made in two parts give the bundle of the second part built on
/// the bundle of the first.
pub proof fn requests_in_two_parts(
    reg: Seq<CategoryView>,
    base: Seq<char>,
    first: Seq<Seq<char>>,
    second: Seq<Seq<char>>,
)
    ensures
        composed(reg, base, first + second) == composed(reg, composed(reg, base, first), second),
    decreases second.len(),
{
    if second.len() == 0 {
        assert(first + second =~= first);
    } else {
        assert((first + second).drop_last() =~= first + second.drop_last());
        requests_in_two_parts(reg, base, first, second.drop_last());
    }
}

} // verus!
