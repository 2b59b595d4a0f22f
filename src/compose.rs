use vstd::prelude::*;
use crate::registry::{first_match, lemma_first_match, CategoryView, Registry};
use crate::text::{fallback_notice, lower_of, notice, separator, views, SEPARATOR};

verus! {

/// The section for one requested identifier: the guidance text of the first
/// category that it names, or else the notice that quotes it as supplied.
pub open spec fn section(reg: Seq<CategoryView>, raw: Seq<char>) -> Seq<char> {
    match first_match(reg, lower_of(raw)) {
        Some(i) => reg[i].text,
        None => notice(raw),
    }
}

/// The bundle: the base document, then for each requested identifier, in
/// order and with repeats kept, the separator and that identifier's section.
pub open spec fn composed(reg: Seq<CategoryView>, base: Seq<char>, requested: Seq<Seq<char>>) -> Seq<char>
    decreases requested.len(),
{
    if requested.len() == 0 {
        base
    } else {
        composed(reg, base, requested.drop_last()) + separator() + section(reg, requested.last())
    }
}

impl Registry {
    /// The section for one identifier; see [`section`].
    pub fn section_for(&self, raw: &str) -> (r: String)
        ensures
            r@ == section(self@, raw@),
    {
        let found = self.resolve(raw);
        proof {
            lemma_first_match(self@, lower_of(raw@));
        }
        match found {
            Some(id) => String::from_str(self.guidance(id)),
            None => fallback_notice(raw),
        }
    }

    /// The bundle for `requested` over the base document `base`; see
    /// [`composed`]. It never fails: an identifier with no category adds a
    /// notice and composition goes on.
    pub fn compose(&self, base: &str, requested: &Vec<String>) -> (r: String)
        ensures
            r@ == composed(self@, base@, views(requested@)),
    {
        let mut out = String::from_str(base);
        let n = requested.len();
        for i in 0..n
            invariant
                n == requested@.len(),
                out@ == composed(self@, base@, views(requested@).take(i as int)),
        {
            let ghost done = views(requested@).take(i + 1);
            assert(done.drop_last() =~= views(requested@).take(i as int));
            let part = self.section_for(requested[i].as_str());
            out.append(SEPARATOR);
            out.append(part.as_str());
        }
        assert(views(requested@).take(n as int) =~= views(requested@));
        out
    }
}

} // verus!
