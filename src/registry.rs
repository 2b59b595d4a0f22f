use vstd::prelude::*;
use crate::text::{lower_of, lowercase, views};

verus! {

/// One category as the contracts see it.
pub struct CategoryView {
    /// The canonical name, as declared.
    pub name: Seq<char>,
    /// The aliases, compared literally against a lowercased identifier.
    pub aliases: Seq<Seq<char>>,
    /// The category's guidance text, loaded once.
    pub text: Seq<char>,
}

/// Whether a lowercased identifier names category `c`: it equals the
/// lowercased canonical name or one of the aliases.
pub open spec fn names_category(c: CategoryView, lowered: Seq<char>) -> bool {
    lower_of(c.name) == lowered || c.aliases.contains(lowered)
}

/// The first category at index `start` or later that `lowered` names.
pub open spec fn find_from(reg: Seq<CategoryView>, lowered: Seq<char>, start: int) -> Option<int>
    decreases reg.len() - start,
{
    if start < 0 || start >= reg.len() {
        None
    } else if names_category(reg[start], lowered) {
        Some(start)
    } else {
        find_from(reg, lowered, start + 1)
    }
}

/// The first category, in declaration order, that `lowered` names.
pub open spec fn first_match(reg: Seq<CategoryView>, lowered: Seq<char>) -> Option<int> {
    find_from(reg, lowered, 0)
}

/// An index as an optional integer, for comparison with [`first_match`].
pub open spec fn index_of(r: Option<usize>) -> Option<int> {
    match r {
        Some(i) => Some(i as int),
        None => None,
    }
}

/// No lowercased identifier names two categories.
pub open spec fn unambiguous(reg: Seq<CategoryView>) -> bool {
    forall|i: int, j: int, l: Seq<char>|
        0 <= i < j < reg.len() && #[trigger] names_category(reg[i], l) ==> !#[trigger] names_category(reg[j], l)
}

/// `find_from` gives the least index from `start` on that matches.
pub proof fn lemma_find_from(reg: Seq<CategoryView>, lowered: Seq<char>, start: int)
    requires
        0 <= start,
    ensures
        match find_from(reg, lowered, start) {
            Some(i) => start <= i < reg.len() && names_category(reg[i], lowered) && forall|k: int|
                start <= k < i ==> !#[trigger] names_category(reg[k], lowered),
            None => forall|k: int| start <= k < reg.len() ==> !#[trigger] names_category(reg[k], lowered),
        },
    decreases reg.len() - start,
{
    if start < reg.len() && !names_category(reg[start], lowered) {
        lemma_find_from(reg, lowered, start + 1);
    }
}

/// `first_match` gives the least index that names_category, or none when no
/// category matches.
pub proof fn lemma_first_match(reg: Seq<CategoryView>, lowered: Seq<char>)
    ensures
        match first_match(reg, lowered) {
            Some(i) => 0 <= i < reg.len() && names_category(reg[i], lowered) && forall|k: int|
                0 <= k < i ==> !#[trigger] names_category(reg[k], lowered),
            None => forall|k: int| 0 <= k < reg.len() ==> !#[trigger] names_category(reg[k], lowered),
        },
{
    lemma_find_from(reg, lowered, 0);
}

/// A registered category.
pub struct Category {
    name: String,
    key: String,
    aliases: Vec<String>,
    text: String,
}

impl View for Category {
    type V = CategoryView;

    closed spec fn view(&self) -> CategoryView {
        CategoryView { name: self.name@, aliases: views(self.aliases@), text: self.text@ }
    }
}

impl Category {
    /// The key is the lowercased canonical name.
    #[verifier::type_invariant]
    closed spec fn keyed(&self) -> bool {
        self.key@ == lower_of(self.name@)
    }
}

/// The table of categories, in declaration order. It is filled at startup
/// and only read afterwards.
pub struct Registry {
    categories: Vec<Category>,
}

impl View for Registry {
    type V = Seq<CategoryView>;

    closed spec fn view(&self) -> Seq<CategoryView> {
        self.categories@.map_values(|c: Category| c@)
    }
}

impl Registry {
    /// An empty registry.
    pub fn new() -> (r: Registry)
        ensures
            r@ == Seq::<CategoryView>::empty(),
    {
        let r = Registry { categories: Vec::new() };
        assert(r@ =~= Seq::<CategoryView>::empty());
        r
    }

    /// Adds a category after those already registered. Its aliases are kept
    /// as given and compared literally against lowercased identifiers.
    pub fn register(&mut self, name: String, aliases: Vec<String>, text: String)
        ensures
            final(self)@ == old(self)@.push(
                CategoryView { name: name@, aliases: views(aliases@), text: text@ },
            ),
    {
        let key = lowercase(name.as_str());
        let c = Category { name, key, aliases, text };
        self.categories.push(c);
        assert(self@ =~= old(self)@.push(c@));
    }

    /// The number of registered categories.
    pub fn len(&self) -> (r: usize)
        ensures
            r == self@.len(),
    {
        self.categories.len()
    }

    /// The canonical name of the category at `id`.
    pub fn name(&self, id: usize) -> (r: &str)
        requires
            id < self@.len(),
        ensures
            r@ == self@[id as int].name,
    {
        self.categories[id].name.as_str()
    }

    /// The guidance text of the category at `id`. Asking for a category that
    /// is not registered is a caller's error, ruled out here.
    pub fn guidance(&self, id: usize) -> (r: &str)
        requires
            id < self@.len(),
        ensures
            r@ == self@[id as int].text,
    {
        self.categories[id].text.as_str()
    }

    /// The first category, in declaration order, that an already lowercased
    /// identifier names.
    pub fn resolve_lowered(&self, lowered: &str) -> (r: Option<usize>)
        ensures
            index_of(r) == first_match(self@, lowered@),
    {
        let wanted = lowered.to_owned();
        let n = self.categories.len();
        let mut i: usize = 0;
        while i < n
            invariant
                n == self@.len(),
                wanted@ == lowered@,
                i <= n,
                first_match(self@, lowered@) == find_from(self@, lowered@, i as int),
            decreases n - i,
        {
            let c = &self.categories[i];
            proof {
                use_type_invariant(c);
            }
            if c.key == wanted {
                return Some(i);
            }
            let mut found = false;
            let m = c.aliases.len();
            let mut j: usize = 0;
            while j < m
                invariant
                    m == c.aliases@.len(),
                    j <= m,
                    found <==> views(c.aliases@).take(j as int).contains(wanted@),
                decreases m - j,
            {
                let ghost before = views(c.aliases@).take(j as int);
                let ghost after = views(c.aliases@).take(j + 1);
                assert(after =~= before.push(c.aliases@[j as int]@));
                assert(after.contains(wanted@) <==> (before.contains(wanted@)
                    || c.aliases@[j as int]@ == wanted@)) by {
                    if after.contains(wanted@) {
                        let k = choose|k: int| 0 <= k < after.len() && after[k] == wanted@;
                        if k < j {
                            assert(before[k] == wanted@);
                        }
                    }
                    if before.contains(wanted@) {
                        let k = choose|k: int| 0 <= k < before.len() && before[k] == wanted@;
                        assert(after[k] == wanted@);
                    }
                    if c.aliases@[j as int]@ == wanted@ {
                        assert(after[j as int] == wanted@);
                    }
                }
                if c.aliases[j] == wanted {
                    found = true;
                }
                j = j + 1;
            }
            assert(views(c.aliases@).take(m as int) =~= views(c.aliases@));
            if found {
                return Some(i);
            }
            i = i + 1;
        }
        None
    }

    /// Whether no lowercased identifier names two categories, so that the
    /// first-match rule of the resolver never has to choose.
    pub fn is_unambiguous(&self) -> (r: bool)
        ensures
            r == unambiguous(self@),
    {
        let n = self.categories.len();
        let mut j: usize = 0;
        while j < n
            invariant
                n == self@.len(),
                j <= n,
                forall|jj: int, l: Seq<char>|
                    0 <= jj < j && #[trigger] names_category(self@[jj], l) ==> first_match(self@, l)
                        == Some(jj),
            decreases n - j,
        {
            let c = &self.categories[j];
            proof {
                use_type_invariant(c);
            }
            assert(self@[j as int] == c@);
            let by_name = self.resolve_lowered(c.key.as_str());
            proof {
                lemma_first_match(self@, c.key@);
            }
            match by_name {
                Some(k) => {
                    if k != j {
                        assert(names_category(self@[k as int], c.key@) && names_category(self@[j as int], c.key@));
                        return false;
                    }
                },
                None => {
                    assert(names_category(self@[j as int], c.key@));
                    return false;
                },
            }
            let m = c.aliases.len();
            let mut t: usize = 0;
            while t < m
                invariant
                    m == c.aliases@.len(),
                    t <= m,
                    n == self@.len(),
                    j < n,
                    self@[j as int] == c@,
                    forall|tt: int| 0 <= tt < t ==> first_match(self@, #[trigger] c.aliases@[tt]@)
                        == Some(j as int),
                decreases m - t,
            {
                let a = &c.aliases[t];
                let by_alias = self.resolve_lowered(a.as_str());
                proof {
                    lemma_first_match(self@, a@);
                    assert(views(c.aliases@)[t as int] == a@);
                    assert(names_category(self@[j as int], a@));
                }
                match by_alias {
                    Some(k) => {
                        if k != j {
                            assert(names_category(self@[k as int], a@));
                            return false;
                        }
                    },
                    None => {
                        return false;
                    },
                }
                t = t + 1;
            }
            assert forall|l: Seq<char>| #[trigger] names_category(self@[j as int], l) implies first_match(
                self@,
                l,
            ) == Some(j as int) by {
                if lower_of(c@.name) != l {
                    let tt = choose|tt: int| 0 <= tt < m && views(c.aliases@)[tt] == l;
                    assert(c.aliases@[tt]@ == l);
                }
            }
            j = j + 1;
        }
        assert forall|i: int, jj: int, l: Seq<char>|
            0 <= i < jj < self@.len() && #[trigger] names_category(self@[i], l) implies !#[trigger] names_category(
            self@[jj],
            l,
        ) by {
            if names_category(self@[jj], l) {
                lemma_first_match(self@, l);
            }
        }
        true
    }

    /// The first category, in declaration order, that an identifier names,
    /// ignoring case: the identifier is lowercased, and nothing else is done
    /// to it (surrounding whitespace is kept). No match is a normal outcome.
    pub fn resolve(&self, raw: &str) -> (r: Option<usize>)
        ensures
            index_of(r) == first_match(self@, lower_of(raw@)),
    {
        let lowered = lowercase(raw);
        self.resolve_lowered(lowered.as_str())
    }
}

} // verus!
