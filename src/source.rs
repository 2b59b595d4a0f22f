use vstd::prelude::*;
use crate::text::{separator, views, SEPARATOR};

verus! {

/// Where a category's guidance text comes from.
///
/// File sources name paths; their documents are read once, by the caller,
/// before any request is served, and handed to [`ContentSource::materialize`]
/// in the order of [`ContentSource::paths`].
pub enum ContentSource {
    /// A literal text, used verbatim.
    Inline(String),
    /// The contents of one document.
    SingleFile(String),
    /// The contents of several documents, in the given order.
    MultiFile(Vec<String>),
}

/// The documents of `docs` in order, with the separator before each one that
/// follows some non-empty text. No documents give the empty text.
pub open spec fn joined(docs: Seq<Seq<char>>) -> Seq<char>
    decreases docs.len(),
{
    if docs.len() == 0 {
        Seq::empty()
    } else {
        let before = joined(docs.drop_last());
        if before.len() == 0 {
            docs.last()
        } else {
            before + separator() + docs.last()
        }
    }
}

impl ContentSource {
    /// The paths of the documents that the source needs, in order.
    pub open spec fn spec_paths(&self) -> Seq<Seq<char>> {
        match self {
            ContentSource::Inline(_) => Seq::empty(),
            ContentSource::SingleFile(p) => seq![p@],
            ContentSource::MultiFile(ps) => views(ps@),
        }
    }

    /// The text of the source, given the loaded documents of its paths.
    pub open spec fn text_of(&self, loaded: Seq<Seq<char>>) -> Seq<char> {
        match self {
            ContentSource::Inline(t) => t@,
            ContentSource::SingleFile(_) => loaded[0],
            ContentSource::MultiFile(_) => joined(loaded),
        }
    }

    /// The paths whose documents this source needs, in the order in which
    /// [`ContentSource::materialize`] takes them.
    pub fn paths(&self) -> (r: Vec<String>)
        ensures
            views(r@) == self.spec_paths(),
    {
        match self {
            ContentSource::Inline(_) => {
                let r: Vec<String> = Vec::new();
                assert(views(r@) =~= Seq::<Seq<char>>::empty());
                r
            },
            ContentSource::SingleFile(p) => {
                let mut r: Vec<String> = Vec::new();
                r.push(p.clone());
                assert(views(r@) =~= seq![p@]);
                r
            },
            ContentSource::MultiFile(ps) => {
                let mut r: Vec<String> = Vec::new();
                let n = ps.len();
                for i in 0..n
                    invariant
                        n == ps@.len(),
                        views(r@) =~= views(ps@).take(i as int),
                {
                    r.push(ps[i].clone());
                    assert(views(ps@).take(i + 1) =~= views(ps@).take(i as int).push(ps@[i as int]@));
                }
                assert(views(ps@).take(n as int) =~= views(ps@));
                r
            },
        }
    }

    /// The guidance text of this source. `loaded` holds the documents of
    /// [`ContentSource::paths`], in that order. The result depends on the
    /// source and the documents alone.
    pub fn materialize(&self, loaded: &Vec<String>) -> (r: String)
        requires
            loaded@.len() == self.spec_paths().len(),
        ensures
            r@ == self.text_of(views(loaded@)),
    {
        match self {
            ContentSource::Inline(t) => t.clone(),
            ContentSource::SingleFile(_) => loaded[0].clone(),
            ContentSource::MultiFile(_) => join_documents(loaded),
        }
    }
}

/// The documents joined in order, with the separator before each one that
/// follows some non-empty text.
pub fn join_documents(docs: &Vec<String>) -> (r: String)
    ensures
        r@ == joined(views(docs@)),
{
    let mut out = String::new();
    let n = docs.len();
    for i in 0..n
        invariant
            n == docs@.len(),
            out@ == joined(views(docs@).take(i as int)),
    {
        let ghost prefix = views(docs@).take(i + 1);
        assert(prefix.drop_last() =~= views(docs@).take(i as int));
        if out.as_str().is_empty() {
            out.append(docs[i].as_str());
        } else {
            out.append(SEPARATOR);
            out.append(docs[i].as_str());
        }
    }
    assert(views(docs@).take(n as int) =~= views(docs@));
    out
}

} // verus!
