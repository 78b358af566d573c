//! The node library: every node definition the app knows, keyed by name, with
//! lookup, keyword search and the category/subcategory menus the UI shows.
use vstd::prelude::*;
use vstd::string::{StrSliceExecFns, StringExecFns};
use crate::schema::NodeDefinition;
use crate::sorted::{insert_sorted_unique, strictly_sorted, views};
use crate::text::{text_contains, text_contains_exec, text_eq, text_less, text_lt};

verus! {

/// No two definitions share a name.
pub open spec fn names_unique(defs: Seq<NodeDefinition>) -> bool {
    forall|i: int, j: int|
        0 <= i < defs.len() && 0 <= j < defs.len() && i != j ==> #[trigger] defs[i].node.name@
            != #[trigger] defs[j].node.name@
}

/// Some definition in `defs` is named `name`.
pub open spec fn has_name(defs: Seq<NodeDefinition>, name: Seq<char>) -> bool {
    exists|i: int| 0 <= i < defs.len() && #[trigger] defs[i].node.name@ == name
}

/// The definition named `name`, if any (names are unique in a library).
pub open spec fn find_def(defs: Seq<NodeDefinition>, name: Seq<char>) -> Option<NodeDefinition> {
    if has_name(defs, name) {
        Some(defs[choose|i: int| 0 <= i < defs.len() && #[trigger] defs[i].node.name@ == name])
    } else {
        None
    }
}

/// The names of a list of definitions.
pub open spec fn def_names(defs: Seq<NodeDefinition>) -> Seq<Seq<char>> {
    defs.map_values(|d: NodeDefinition| d.node.name@)
}

/// A list of references holds exactly the definitions `defs`, in order.
pub open spec fn refs_are(r: Seq<&NodeDefinition>, defs: Seq<NodeDefinition>) -> bool {
    r.len() == defs.len() && forall|i: int| 0 <= i < r.len() ==> *r[i] == #[trigger] defs[i]
}

/// Definitions in category `c`.
pub open spec fn in_category(c: Seq<char>) -> spec_fn(NodeDefinition) -> bool {
    |d: NodeDefinition| d.node.category@ == c
}

/// Definitions in category `c` that belong to no subcategory.
pub open spec fn direct_in_category(c: Seq<char>) -> spec_fn(NodeDefinition) -> bool {
    |d: NodeDefinition| d.node.category@ == c && d.node.subcategories@.len() == 0
}

/// Definitions in category `c` that list subcategory `s`.
pub open spec fn in_subcategory(c: Seq<char>, s: Seq<char>) -> spec_fn(NodeDefinition) -> bool {
    |d: NodeDefinition| d.node.category@ == c && views(d.node.subcategories@).contains(s)
}

/// The Unicode lowercase mapping of a string, as `str::to_lowercase` computes it.
pub uninterp spec fn lowercase(s: Seq<char>) -> Seq<char>;

/// Calls `str::to_lowercase`, whose result is the Unicode lowercase mapping of
/// `s` (a function of `s` alone, named [lowercase]); nothing else about the
/// mapping is claimed.
#[verifier::external_body]
fn to_lowercase(s: &str) -> (r: String)
    ensures
        r@ == lowercase(s@),
        r@.len() == 0 <==> s@.len() == 0,
{
    s.to_lowercase()
}

/// Some keyword, lowercased, contains `q`.
pub open spec fn keyword_matches(keywords: Seq<String>, q: Seq<char>) -> bool {
    exists|k: int| 0 <= k < keywords.len() && text_contains(lowercase(#[trigger] keywords[k]@), q)
}

/// A definition matches a lowercased query when its lowercased name, one of
/// its lowercased keywords or its lowercased short description contains it.
pub open spec fn matches_query(q: Seq<char>) -> spec_fn(NodeDefinition) -> bool {
    |d: NodeDefinition|
        text_contains(lowercase(d.node.name@), q) || keyword_matches(d.node.search_keywords@, q)
            || text_contains(lowercase(d.node.short_description@), q)
}

/// One step of a filter over a prefix.
pub proof fn lemma_filter_take_step<A>(s: Seq<A>, p: spec_fn(A) -> bool, i: int)
    requires
        0 <= i < s.len(),
    ensures
        s.take(i + 1).filter(p) == (if p(s[i]) {
            s.take(i).filter(p).push(s[i])
        } else {
            s.take(i).filter(p)
        }),
{
    reveal(Seq::filter);
    assert(s.take(i + 1).drop_last() =~= s.take(i));
}

/// The filter of the whole sequence is the filter of its full prefix.
pub proof fn lemma_filter_take_all<A>(s: Seq<A>, p: spec_fn(A) -> bool)
    ensures
        s.take(s.len() as int).filter(p) == s.filter(p),
{
    assert(s.take(s.len() as int) =~= s);
}

/// Where loading a library went wrong.
#[derive(Debug)]
pub enum LibraryError {
    IoError { path: String, message: String },
    ParseError { path: String, message: String },
    ShaderNotFound { path: String },
    NodesFolderNotFound { path: String },
}

/// A subcategory within a category.
#[derive(Debug)]
pub struct SubcategoryInfo {
    pub name: String,
    pub nodes: Vec<String>,
}

/// A category with its subcategories and the nodes directly in it, for
/// building folder-style menus.
#[derive(Debug)]
pub struct CategoryInfo {
    pub name: String,
    /// Subcategories used by nodes of this category (sorted, no duplicates).
    pub subcategories: Vec<SubcategoryInfo>,
    /// Nodes of this category that are in no subcategory.
    pub direct_nodes: Vec<String>,
}

/// Holds every available node definition; no two share a name.
#[derive(Debug)]
pub struct NodeLibrary {
    definitions: Vec<NodeDefinition>,
}

impl View for NodeLibrary {
    type V = Seq<NodeDefinition>;

    closed spec fn view(&self) -> Seq<NodeDefinition> {
        self.definitions@
    }
}

impl Default for NodeLibrary {
    fn default() -> (r: Self)
        ensures
            r@ == Seq::<NodeDefinition>::empty(),
    {
        NodeLibrary::new()
    }
}

impl NodeLibrary {
    #[verifier::type_invariant]
    spec fn inv(self) -> bool {
        names_unique(self.definitions@)
    }

    /// An empty library.
    pub fn new() -> (r: Self)
        ensures
            r@ == Seq::<NodeDefinition>::empty(),
    {
        NodeLibrary { definitions: Vec::new() }
    }

    /// Position of the definition named `name`, if any.
    fn position(&self, name: &str) -> (r: Option<usize>)
        ensures
            match r {
                Some(i) => i < self@.len() && self@[i as int].node.name@ == name@,
                None => !has_name(self@, name@),
            },
    {
        let mut i: usize = 0;
        while i < self.definitions.len()
            invariant
                i <= self.definitions@.len(),
                forall|j: int| 0 <= j < i ==> self.definitions@[j].node.name@ != name@,
            decreases self.definitions.len() - i,
        {
            if text_eq(self.definitions[i].node.name.as_str(), name) {
                return Some(i);
            }
            i = i + 1;
        }
        None
    }

    /// Adds a definition found while scanning a folder. A definition whose
    /// name is already taken is skipped and `false` returned.
    pub fn insert_definition(&mut self, def: NodeDefinition) -> (r: bool)
        ensures
            r == !has_name(old(self)@, def.node.name@),
            r ==> final(self)@ == old(self)@.push(def),
            !r ==> final(self)@ == old(self)@,
            names_unique(final(self)@),
    {
        proof {
            use_type_invariant(&*self);
        }
        if self.position(def.node.name.as_str()).is_some() {
            return false;
        }
        let ghost before = self.definitions@;
        let mut defs: Vec<NodeDefinition> = Vec::new();
        std::mem::swap(&mut defs, &mut self.definitions);
        defs.push(def);
        assert(names_unique(defs@)) by {
            assert forall|i: int, j: int|
                0 <= i < defs@.len() && 0 <= j < defs@.len() && i
                    != j implies #[trigger] defs@[i].node.name@
                != #[trigger] defs@[j].node.name@ by {
                if i == before.len() {
                    assert(defs@[j] == before[j]);
                } else if j == before.len() {
                    assert(defs@[i] == before[i]);
                } else {
                    assert(defs@[i] == before[i]);
                    assert(defs@[j] == before[j]);
                }
            }
        }
        self.definitions = defs;
        true
    }

    /// Get a node definition by name.
    pub fn get_definition(&self, name: &str) -> (r: Option<&NodeDefinition>)
        ensures
            r is None <==> !has_name(self@, name@),
            r matches Some(d) ==> d.node.name@ == name@ && self@.contains(*d),
            r matches Some(d) ==> find_def(self@, name@) == Some(*d),
            r is None ==> find_def(self@, name@) is None,
    {
        proof {
            use_type_invariant(self);
        }
        match self.position(name) {
            Some(i) => {
                assert(self@.contains(self@[i as int]));
                let ghost j = choose|j: int| 0 <= j < self@.len() && #[trigger] self@[j].node.name@ == name@;
                assert(self@[j].node.name@ == self@[i as int].node.name@);
                Some(&self.definitions[i])
            },
            None => None,
        }
    }

    /// All definitions (no two share a name).
    pub fn definitions(&self) -> (r: &Vec<NodeDefinition>)
        ensures
            r@ == self@,
            names_unique(r@),
    {
        proof {
            use_type_invariant(self);
        }
        &self.definitions
    }

    /// Every definition once, in name order (the order of the graph
    /// menu and of the frontend's node list).
    pub fn definitions_by_name(&self) -> (r: Vec<&NodeDefinition>)
        ensures
            r@.len() == self@.len(),
            forall|i: int, j: int| 0 <= i < j < r@.len() ==> text_lt((#[trigger] r@[i]).node.name@, (#[trigger] r@[j]).node.name@),
            forall|d: NodeDefinition| self@.contains(d) <==> exists|i: int| 0 <= i < r@.len() && *(#[trigger] r@[i]) == d,
    {
        proof {
            use_type_invariant(self);
        }
        let ghost defs = self.definitions@;
        let mut r: Vec<&NodeDefinition> = Vec::new();
        let mut k: usize = 0;
        while k < self.definitions.len()
            invariant
                defs == self.definitions@,
                names_unique(defs),
                k <= defs.len(),
                r@.len() == k,
                forall|i: int, j: int| 0 <= i < j < r@.len() ==> text_lt((#[trigger] r@[i]).node.name@, (#[trigger] r@[j]).node.name@),
                forall|d: NodeDefinition| defs.take(k as int).contains(d) <==> exists|i: int| 0 <= i < r@.len() && *(#[trigger] r@[i]) == d,
            decreases self.definitions.len() - k,
        {
            let d = &self.definitions[k];
            let mut pos: usize = 0;
            while pos < r.len() && text_less(r[pos].node.name.as_str(), d.node.name.as_str())
                invariant
                    pos <= r@.len(),
                    forall|i: int| 0 <= i < pos ==> text_lt((#[trigger] r@[i]).node.name@, d.node.name@),
                decreases r.len() - pos,
            {
                pos = pos + 1;
            }
            proof {
                // `d`'s name differs from every name placed so far.
                assert forall|i: int| 0 <= i < r@.len() implies (#[trigger] r@[i]).node.name@ != d.node.name@ by {
                    assert(defs.take(k as int).contains(*r@[i]));
                    let j = choose|j: int| 0 <= j < defs.take(k as int).len() && defs.take(k as int)[j] == *r@[i];
                    assert(defs[j] == *r@[i]);
                    assert(defs[k as int] == *d);
                }
                if pos < r@.len() {
                    assert(!text_lt(r@[pos as int].node.name@, d.node.name@));
                    crate::text::lemma_text_lt_total(r@[pos as int].node.name@, d.node.name@);
                }
            }
            let ghost before = r@;
            r.insert(pos, d);
            proof {
                assert(r@ =~= before.take(pos as int).push(d) + before.skip(pos as int));
                assert forall|i: int, j: int| 0 <= i < j < r@.len() implies text_lt((#[trigger] r@[i]).node.name@, (#[trigger] r@[j]).node.name@) by {
                    if j < pos {
                        assert(r@[i] == before[i] && r@[j] == before[j]);
                    } else if j == pos {
                        assert(r@[i] == before[i]);
                    } else if i == pos {
                        assert(r@[j] == before[j - 1]);
                        if j - 1 > pos {
                            assert(text_lt(before[pos as int].node.name@, before[j - 1].node.name@));
                            crate::text::lemma_text_lt_transitive(d.node.name@, before[pos as int].node.name@, before[j - 1].node.name@);
                        }
                    } else if i < pos {
                        assert(r@[i] == before[i] && r@[j] == before[j - 1]);
                    } else {
                        assert(r@[i] == before[i - 1] && r@[j] == before[j - 1]);
                    }
                }
                let t0 = defs.take(k as int);
                let t1 = defs.take(k + 1);
                assert(t1 =~= t0.push(*d));
                assert forall|x: NodeDefinition| t1.contains(x) <==> exists|i: int| 0 <= i < r@.len() && *(#[trigger] r@[i]) == x by {
                    if t1.contains(x) {
                        if x == *d {
                            assert(*r@[pos as int] == x);
                        } else {
                            let j = choose|j: int| 0 <= j < t1.len() && t1[j] == x;
                            assert(t0[j] == x);
                            assert(t0.contains(x));
                            let i = choose|i: int| 0 <= i < before.len() && *(#[trigger] before[i]) == x;
                            if i < pos {
                                assert(r@[i] == before[i]);
                            } else {
                                assert(r@[i + 1] == before[i]);
                            }
                        }
                    }
                    if exists|i: int| 0 <= i < r@.len() && *(#[trigger] r@[i]) == x {
                        let i = choose|i: int| 0 <= i < r@.len() && *(#[trigger] r@[i]) == x;
                        if i == pos {
                            assert(t1[k as int] == x);
                        } else {
                            let b = if i < pos { i } else { i - 1 };
                            assert(r@[i] == before[b]);
                            assert(t0.contains(x));
                            let j = choose|j: int| 0 <= j < t0.len() && t0[j] == x;
                            assert(t1[j] == x);
                        }
                    }
                }
            }
            k = k + 1;
        }
        assert(defs.take(k as int) =~= defs);
        r
    }

    /// The names of all definitions.
    pub fn node_names(&self) -> (r: Vec<String>)
        ensures
            views(r@) == def_names(self@),
    {
        let mut r: Vec<String> = Vec::new();
        let mut i: usize = 0;
        while i < self.definitions.len()
            invariant
                i <= self.definitions@.len(),
                views(r@) == def_names(self@.take(i as int)),
            decreases self.definitions.len() - i,
        {
            let ghost prev = r@;
            let name = self.definitions[i].node.name.clone();
            r.push(name);
            assert(r@ == prev.push(name));
            assert(views(r@) =~= views(prev).push(self@[i as int].node.name@));
            assert(self@.take(i + 1) =~= self@.take(i as int).push(self@[i as int]));
            assert(def_names(self@.take(i + 1)) =~= def_names(self@.take(i as int)).push(
                self@[i as int].node.name@,
            ));
            i = i + 1;
        }
        assert(self@.take(i as int) =~= self@);
        r
    }

    /// The definitions that satisfy `keep`, in library order.
    fn select(&self, Ghost(keep): Ghost<spec_fn(NodeDefinition) -> bool>, flags: &Vec<bool>) -> (r: Vec<&NodeDefinition>)
        requires
            flags@.len() == self@.len(),
            forall|i: int| 0 <= i < flags@.len() ==> flags@[i] == keep(#[trigger] self@[i]),
        ensures
            refs_are(r@, self@.filter(keep)),
    {
        let mut r: Vec<&NodeDefinition> = Vec::new();
        let mut i: usize = 0;
        while i < self.definitions.len()
            invariant
                i <= self.definitions@.len(),
                flags@.len() == self@.len(),
                forall|i: int| 0 <= i < flags@.len() ==> flags@[i] == keep(#[trigger] self@[i]),
                refs_are(r@, self@.take(i as int).filter(keep)),
            decreases self.definitions.len() - i,
        {
            proof {
                lemma_filter_take_step(self@, keep, i as int);
            }
            if flags[i] {
                r.push(&self.definitions[i]);
            }
            i = i + 1;
        }
        proof {
            lemma_filter_take_all(self@, keep);
        }
        r
    }

    /// Search nodes by keyword: the definitions whose name, a keyword or the
    /// short description contains `query`, ignoring case.
    pub fn search(&self, query: &str) -> (r: Vec<&NodeDefinition>)
        ensures
            refs_are(r@, self@.filter(matches_query(lowercase(query@)))),
            query@.len() == 0 ==> refs_are(r@, self@),
    {
        let query_lower = to_lowercase(query);
        let ghost q = lowercase(query@);
        let mut flags: Vec<bool> = Vec::new();
        let mut i: usize = 0;
        while i < self.definitions.len()
            invariant
                i <= self.definitions@.len(),
                query_lower@ == q,
                flags@.len() == i,
                forall|j: int| 0 <= j < i ==> flags@[j] == matches_query(q)(#[trigger] self@[j]),
            decreases self.definitions.len() - i,
        {
            let def = &self.definitions[i];
            let name_lower = to_lowercase(def.node.name.as_str());
            let desc_lower = to_lowercase(def.node.short_description.as_str());
            let mut keywords_lower: Vec<String> = Vec::new();
            let mut k: usize = 0;
            while k < def.node.search_keywords.len()
                invariant
                    k <= def.node.search_keywords@.len(),
                    keywords_lower@.len() == k,
                    forall|t: int|
                        0 <= t < k ==> (#[trigger] keywords_lower@[t])@ == lowercase(
                            def.node.search_keywords@[t]@,
                        ),
                decreases def.node.search_keywords.len() - k,
            {
                keywords_lower.push(to_lowercase(def.node.search_keywords[k].as_str()));
                k = k + 1;
            }
            let m = query_matches(name_lower.as_str(), &keywords_lower, desc_lower.as_str(), query_lower.as_str());
            proof {
                let kws = def.node.search_keywords@;
                if keyword_matches(kws, q) {
                    let t = choose|t: int| 0 <= t < kws.len() && text_contains(lowercase(#[trigger] kws[t]@), q);
                    assert(keywords_lower@[t]@ == lowercase(kws[t]@));
                }
                if exists|t: int| 0 <= t < keywords_lower@.len() && text_contains(#[trigger] keywords_lower@[t]@, q) {
                    let t = choose|t: int| 0 <= t < keywords_lower@.len() && text_contains(#[trigger] keywords_lower@[t]@, q);
                    assert(text_contains(lowercase(kws[t]@), q));
                }
            }
            flags.push(m);
            i = i + 1;
        }
        let r = self.select(Ghost(matches_query(q)), &flags);
        proof {
            if query@.len() == 0 {
                assert forall|j: int| 0 <= j < self@.len() implies #[trigger] matches_query(q)(self@[j]) by {
                    let hay = lowercase(self@[j].node.name@);
                    assert(q.len() == 0);
                    assert(hay.subrange(0, 0 + q.len() as int) =~= q);
                    assert(text_contains(hay, q));
                }
                lemma_filter_keeps_all(self@, matches_query(q));
            }
        }
        r
    }
}

/// A filter that every element passes keeps the whole sequence.
proof fn lemma_filter_keeps_all<A>(s: Seq<A>, p: spec_fn(A) -> bool)
    requires
        forall|j: int| 0 <= j < s.len() ==> #[trigger] p(s[j]),
    ensures
        s.filter(p) == s,
    decreases s.len(),
{
    reveal_with_fuel(Seq::filter, 1);
    if s.len() > 0 {
        assert forall|j: int| 0 <= j < s.drop_last().len() implies #[trigger] p(s.drop_last()[j]) by {
            assert(s.drop_last()[j] == s[j]);
        }
        lemma_filter_keeps_all(s.drop_last(), p);
        assert(p(s[s.len() - 1]));
        assert(s.drop_last().push(s.last()) =~= s);
    } else {
        assert(s.filter(p) =~= s);
    }
}

/// Definitions whose name no definition of `base` has.
pub open spec fn name_not_in(base: Seq<NodeDefinition>) -> spec_fn(NodeDefinition) -> bool {
    |d: NodeDefinition| !has_name(base, d.node.name@)
}

/// `x` is the (non-empty) category of some definition.
pub open spec fn is_category(defs: Seq<NodeDefinition>, x: Seq<char>) -> bool {
    x.len() > 0 && exists|i: int| 0 <= i < defs.len() && #[trigger] defs[i].node.category@ == x
}

/// `x` is a subcategory of some definition in category `c`.
pub open spec fn is_subcategory(defs: Seq<NodeDefinition>, c: Seq<char>, x: Seq<char>) -> bool {
    exists|i: int|
        0 <= i < defs.len() && #[trigger] defs[i].node.category@ == c && views(
            defs[i].node.subcategories@,
        ).contains(x)
}

/// The names of the subcategories listed in a [CategoryInfo].
pub open spec fn subcategory_names(s: Seq<SubcategoryInfo>) -> Seq<Seq<char>> {
    s.map_values(|x: SubcategoryInfo| x.name@)
}

/// The names of the categories listed.
pub open spec fn category_names(s: Seq<CategoryInfo>) -> Seq<Seq<char>> {
    s.map_values(|x: CategoryInfo| x.name@)
}

/// The names of the definitions a list of references points to.
fn names_of(refs: &Vec<&NodeDefinition>, Ghost(defs): Ghost<Seq<NodeDefinition>>) -> (r: Vec<String>)
    requires
        refs_are(refs@, defs),
    ensures
        views(r@) == def_names(defs),
{
    let mut r: Vec<String> = Vec::new();
    let mut i: usize = 0;
    while i < refs.len()
        invariant
            refs_are(refs@, defs),
            i <= refs@.len(),
            views(r@) == def_names(defs.take(i as int)),
        decreases refs.len() - i,
    {
        let ghost prev = r@;
        let name = refs[i].node.name.clone();
        r.push(name);
        assert(defs[i as int] == *refs@[i as int]);
        assert(views(r@) =~= views(prev).push(defs[i as int].node.name@));
        assert(defs.take(i + 1) =~= defs.take(i as int).push(defs[i as int]));
        assert(def_names(defs.take(i + 1)) =~= def_names(defs.take(i as int)).push(
            defs[i as int].node.name@,
        ));
        i = i + 1;
    }
    assert(defs.take(i as int) =~= defs);
    r
}

/// Whether `items` holds a string equal to `x`.
fn contains_text(items: &Vec<String>, x: &str) -> (r: bool)
    ensures
        r == views(items@).contains(x@),
{
    let mut i: usize = 0;
    while i < items.len()
        invariant
            i <= items@.len(),
            forall|j: int| 0 <= j < i ==> items@[j]@ != x@,
        decreases items.len() - i,
    {
        if text_eq(items[i].as_str(), x) {
            assert(views(items@)[i as int] == x@);
            return true;
        }
        i = i + 1;
    }
    proof {
        if views(items@).contains(x@) {
            let j = choose|j: int| 0 <= j < views(items@).len() && views(items@)[j] == x@;
            assert(items@[j]@ == x@);
        }
    }
    false
}

impl NodeLibrary {
    /// All non-empty categories, sorted, without duplicates.
    pub fn get_all_categories(&self) -> (r: Vec<String>)
        ensures
            strictly_sorted(views(r@)),
            forall|x: Seq<char>| #[trigger] views(r@).contains(x) <==> is_category(self@, x),
    {
        let mut r: Vec<String> = Vec::new();
        let mut i: usize = 0;
        while i < self.definitions.len()
            invariant
                i <= self.definitions@.len(),
                strictly_sorted(views(r@)),
                forall|x: Seq<char>| #[trigger] views(r@).contains(x) <==> is_category(self@.take(i as int), x),
            decreases self.definitions.len() - i,
        {
            let ghost before = views(r@);
            let category = &self.definitions[i].node.category;
            if !category.as_str().is_empty() {
                insert_sorted_unique(&mut r, category.clone());
            }
            proof {
                let t0 = self@.take(i as int);
                let t1 = self@.take(i + 1);
                assert forall|x: Seq<char>| #[trigger] views(r@).contains(x) <==> is_category(t1, x) by {
                    if is_category(t0, x) {
                        let k = choose|k: int| 0 <= k < t0.len() && #[trigger] t0[k].node.category@ == x;
                        assert(t1[k] == t0[k]);
                    }
                    if is_category(t1, x) {
                        let k = choose|k: int| 0 <= k < t1.len() && #[trigger] t1[k].node.category@ == x;
                        if k < i {
                            assert(t0[k] == t1[k]);
                        }
                    }
                    if x == self@[i as int].node.category@ && x.len() > 0 {
                        assert(t1[i as int] == self@[i as int]);
                    }
                }
            }
            i = i + 1;
        }
        assert(self@.take(i as int) =~= self@);
        r
    }

    /// The subcategories used by definitions in `category`, sorted, without duplicates.
    pub fn get_category_subcategories(&self, category: &str) -> (r: Vec<String>)
        ensures
            strictly_sorted(views(r@)),
            forall|x: Seq<char>| #[trigger] views(r@).contains(x) <==> is_subcategory(self@, category@, x),
    {
        let mut r: Vec<String> = Vec::new();
        let mut i: usize = 0;
        while i < self.definitions.len()
            invariant
                i <= self.definitions@.len(),
                strictly_sorted(views(r@)),
                forall|x: Seq<char>| #[trigger] views(r@).contains(x) <==> is_subcategory(self@.take(i as int), category@, x),
            decreases self.definitions.len() - i,
        {
            let def = &self.definitions[i];
            let ghost t0 = self@.take(i as int);
            let ghost t1 = self@.take(i + 1);
            let ghost d = self@[i as int];
            if text_eq(def.node.category.as_str(), category) {
                let subs = &def.node.subcategories;
                let mut k: usize = 0;
                while k < subs.len()
                    invariant
                        k <= subs@.len(),
                        *subs == d.node.subcategories,
                        d.node.category@ == category@,
                        strictly_sorted(views(r@)),
                        forall|x: Seq<char>| #[trigger] views(r@).contains(x) <==> is_subcategory(t0, category@, x)
                            || views(subs@.take(k as int)).contains(x),
                    decreases subs.len() - k,
                {
                    let ghost before = views(r@);
                    insert_sorted_unique(&mut r, subs[k].clone());
                    proof {
                        let v0 = views(subs@.take(k as int));
                        let v1 = views(subs@.take(k + 1));
                        assert(v1 =~= v0.push(subs@[k as int]@));
                        assert forall|x: Seq<char>| #[trigger] views(r@).contains(x) <==> is_subcategory(t0, category@, x)
                            || views(subs@.take(k + 1)).contains(x) by {
                            if v0.contains(x) {
                                let j = choose|j: int| 0 <= j < v0.len() && #[trigger] v0[j] == x;
                                assert(v1[j] == x);
                            }
                            if v1.contains(x) && x != subs@[k as int]@ {
                                let j = choose|j: int| 0 <= j < v1.len() && #[trigger] v1[j] == x;
                                assert(v0[j] == x);
                            }
                            if x == subs@[k as int]@ {
                                assert(v1[k as int] == x);
                            }
                        }
                    }
                    k = k + 1;
                }
                assert(subs@.take(k as int) =~= subs@);
            }
            proof {
                assert(t1[i as int] == d);
                assert forall|x: Seq<char>| #[trigger] is_subcategory(t1, category@, x) <==> is_subcategory(t0, category@, x)
                    || (d.node.category@ == category@ && views(d.node.subcategories@).contains(x)) by {
                    if is_subcategory(t0, category@, x) {
                        let j = choose|j: int| 0 <= j < t0.len() && #[trigger] t0[j].node.category@ == category@ && views(t0[j].node.subcategories@).contains(x);
                        assert(t1[j] == t0[j]);
                    }
                    if is_subcategory(t1, category@, x) {
                        let j = choose|j: int| 0 <= j < t1.len() && #[trigger] t1[j].node.category@ == category@ && views(t1[j].node.subcategories@).contains(x);
                        if j < i {
                            assert(t0[j] == t1[j]);
                        }
                    }
                }
            }
            i = i + 1;
        }
        assert(self@.take(i as int) =~= self@);
        r
    }

    /// The definitions in `category` that list `subcategory`, in library order.
    pub fn get_subcategory_nodes(&self, category: &str, subcategory: &str) -> (r: Vec<&NodeDefinition>)
        ensures
            refs_are(r@, self@.filter(in_subcategory(category@, subcategory@))),
    {
        let ghost keep = in_subcategory(category@, subcategory@);
        let mut flags: Vec<bool> = Vec::new();
        let mut i: usize = 0;
        while i < self.definitions.len()
            invariant
                i <= self.definitions@.len(),
                keep == in_subcategory(category@, subcategory@),
                flags@.len() == i,
                forall|j: int| 0 <= j < i ==> flags@[j] == keep(#[trigger] self@[j]),
            decreases self.definitions.len() - i,
        {
            let def = &self.definitions[i];
            let f = text_eq(def.node.category.as_str(), category) && contains_text(
                &def.node.subcategories,
                subcategory,
            );
            flags.push(f);
            i = i + 1;
        }
        self.select(Ghost(keep), &flags)
    }

    /// The definitions in `category` that are in no subcategory, in library order.
    fn get_direct_nodes(&self, category: &str) -> (r: Vec<&NodeDefinition>)
        ensures
            refs_are(r@, self@.filter(direct_in_category(category@))),
    {
        let ghost keep = direct_in_category(category@);
        let mut flags: Vec<bool> = Vec::new();
        let mut i: usize = 0;
        while i < self.definitions.len()
            invariant
                i <= self.definitions@.len(),
                keep == direct_in_category(category@),
                flags@.len() == i,
                forall|j: int| 0 <= j < i ==> flags@[j] == keep(#[trigger] self@[j]),
            decreases self.definitions.len() - i,
        {
            let def = &self.definitions[i];
            let f = text_eq(def.node.category.as_str(), category) && def.node.subcategories.len() == 0;
            flags.push(f);
            i = i + 1;
        }
        self.select(Ghost(keep), &flags)
    }

    /// Every category with its subcategories and direct nodes, as used to
    /// build the node menus: categories and subcategories sorted without
    /// duplicates, node lists in library order.
    pub fn get_all_category_info(&self) -> (r: Vec<CategoryInfo>)
        ensures
            strictly_sorted(category_names(r@)),
            forall|x: Seq<char>| #[trigger] category_names(r@).contains(x) <==> is_category(self@, x),
            forall|k: int| 0 <= k < r@.len() ==> {
                let info = #[trigger] r@[k];
                let c = info.name@;
                &&& strictly_sorted(subcategory_names(info.subcategories@))
                &&& forall|x: Seq<char>| #[trigger] subcategory_names(info.subcategories@).contains(x)
                    <==> is_subcategory(self@, c, x)
                &&& forall|j: int| 0 <= j < info.subcategories@.len() ==> views(
                    (#[trigger] info.subcategories@[j]).nodes@,
                ) == def_names(self@.filter(in_subcategory(c, info.subcategories@[j].name@)))
                &&& views(info.direct_nodes@) == def_names(self@.filter(direct_in_category(c)))
            },
    {
        let categories = self.get_all_categories();
        let mut r: Vec<CategoryInfo> = Vec::new();
        let mut i: usize = 0;
        while i < categories.len()
            invariant
                i <= categories@.len(),
                strictly_sorted(views(categories@)),
                forall|x: Seq<char>| #[trigger] views(categories@).contains(x) <==> is_category(self@, x),
                category_names(r@) == views(categories@).take(i as int),
                forall|k: int| 0 <= k < r@.len() ==> {
                    let info = #[trigger] r@[k];
                    let c = info.name@;
                    &&& strictly_sorted(subcategory_names(info.subcategories@))
                    &&& forall|x: Seq<char>| #[trigger] subcategory_names(info.subcategories@).contains(x)
                        <==> is_subcategory(self@, c, x)
                    &&& forall|j: int| 0 <= j < info.subcategories@.len() ==> views(
                        (#[trigger] info.subcategories@[j]).nodes@,
                    ) == def_names(self@.filter(in_subcategory(c, info.subcategories@[j].name@)))
                    &&& views(info.direct_nodes@) == def_names(self@.filter(direct_in_category(c)))
                },
            decreases categories.len() - i,
        {
            let category = &categories[i];
            let sub_names = self.get_category_subcategories(category.as_str());
            let mut subcategories: Vec<SubcategoryInfo> = Vec::new();
            let mut j: usize = 0;
            while j < sub_names.len()
                invariant
                    j <= sub_names@.len(),
                    subcategory_names(subcategories@) == views(sub_names@).take(j as int),
                    forall|t: int| 0 <= t < subcategories@.len() ==> views(
                        (#[trigger] subcategories@[t]).nodes@,
                    ) == def_names(self@.filter(in_subcategory(category@, subcategories@[t].name@))),
                decreases sub_names.len() - j,
            {
                let sub_name = sub_names[j].clone();
                let members = self.get_subcategory_nodes(category.as_str(), sub_name.as_str());
                let nodes = names_of(&members, Ghost(self@.filter(in_subcategory(category@, sub_name@))));
                let ghost prev = subcategories@;
                let info = SubcategoryInfo { name: sub_name, nodes };
                subcategories.push(info);
                proof {
                    assert(subcategories@ == prev.push(info));
                    assert(subcategory_names(subcategories@) =~= subcategory_names(prev).push(info.name@));
                    assert(views(sub_names@).take(j + 1) =~= views(sub_names@).take(j as int).push(sub_names@[j as int]@));
                    assert forall|t: int| 0 <= t < subcategories@.len() implies views(
                        (#[trigger] subcategories@[t]).nodes@,
                    ) == def_names(self@.filter(in_subcategory(category@, subcategories@[t].name@))) by {
                        if t < prev.len() {
                            assert(subcategories@[t] == prev[t]);
                        }
                    }
                }
                j = j + 1;
            }
            assert(views(sub_names@).take(j as int) =~= views(sub_names@));
            let direct = self.get_direct_nodes(category.as_str());
            let direct_nodes = names_of(&direct, Ghost(self@.filter(direct_in_category(category@))));
            let ghost prev = r@;
            let info = CategoryInfo { name: category.clone(), subcategories, direct_nodes };
            r.push(info);
            proof {
                assert(r@ == prev.push(info));
                assert(category_names(r@) =~= category_names(prev).push(info.name@));
                assert(views(categories@).take(i + 1) =~= views(categories@).take(i as int).push(categories@[i as int]@));
                assert forall|k: int| 0 <= k < r@.len() implies {
                    let info = #[trigger] r@[k];
                    let c = info.name@;
                    &&& strictly_sorted(subcategory_names(info.subcategories@))
                    &&& forall|x: Seq<char>| #[trigger] subcategory_names(info.subcategories@).contains(x)
                        <==> is_subcategory(self@, c, x)
                    &&& forall|j: int| 0 <= j < info.subcategories@.len() ==> views(
                        (#[trigger] info.subcategories@[j]).nodes@,
                    ) == def_names(self@.filter(in_subcategory(c, info.subcategories@[j].name@)))
                    &&& views(info.direct_nodes@) == def_names(self@.filter(direct_in_category(c)))
                } by {
                    if k < prev.len() {
                        assert(r@[k] == prev[k]);
                    }
                }
            }
            i = i + 1;
        }
        assert(views(categories@).take(i as int) =~= views(categories@));
        r
    }

    /// Merges the prebuilt library with the user's: a user node whose name is
    /// already taken by a prebuilt node is skipped. A load error of either
    /// library is returned, the prebuilt library's first.
    pub fn load_all(
        prebuilt: Result<NodeLibrary, LibraryError>,
        user: Result<NodeLibrary, LibraryError>,
    ) -> (r: Result<NodeLibrary, LibraryError>)
        ensures
            prebuilt is Err ==> r == prebuilt,
            prebuilt is Ok && user is Err ==> r == user,
            (prebuilt is Ok && user is Ok) ==> (r matches Ok(lib) && lib@ == prebuilt->Ok_0@
                + user->Ok_0@.filter(name_not_in(prebuilt->Ok_0@))),
    {
        let mut library = match prebuilt {
            Ok(lib) => lib,
            Err(e) => return Err(e),
        };
        let user_library = match user {
            Ok(lib) => lib,
            Err(e) => return Err(e),
        };
        let ghost base = library@;
        let ghost keep = name_not_in(base);
        let ghost us = user_library@;
        proof {
            use_type_invariant(&user_library);
        }
        let NodeLibrary { definitions: user_defs } = user_library;
        let mut i: usize = 0;
        let user_len = user_defs.len();
        let mut rest = user_defs;
        assert(us.take(0).filter(keep) =~= Seq::<NodeDefinition>::empty());
        assert(base + us.take(0).filter(keep) =~= base);
        while rest.len() > 0
            invariant
                i + rest@.len() == us.len(),
                us.len() == user_len,
                rest@ == us.skip(i as int),
                library@ == base + us.take(i as int).filter(keep),
                keep == name_not_in(base),
                names_unique(us),
            decreases rest.len(),
        {
            let ghost before = library@;
            let def = rest.remove(0);
            assert(def == us[i as int]);
            assert(rest@ =~= us.skip(i + 1));
            proof {
                lemma_filter_take_step(us, keep, i as int);
                assert forall|n: Seq<char>| has_name(before, n) <==> has_name(base, n) || has_name(us.take(i as int), n) by {
                    let f = us.take(i as int).filter(keep);
                    assert(before == base + f);
                    if has_name(before, n) {
                        let k = choose|k: int| 0 <= k < before.len() && #[trigger] before[k].node.name@ == n;
                        if k >= base.len() {
                            let ui = us.take(i as int);
                            assert(f[k - base.len()] == before[k]);
                            assert(f.contains(before[k]));
                            ui.lemma_filter_contains_rev(keep, before[k]);
                            let m = choose|m: int| 0 <= m < ui.len() && #[trigger] ui[m] == before[k];
                            assert(ui[m].node.name@ == n);
                        } else {
                            assert(base[k] == before[k]);
                        }
                    }
                    if has_name(base, n) {
                        let k = choose|k: int| 0 <= k < base.len() && #[trigger] base[k].node.name@ == n;
                        assert(before[k] == base[k]);
                    }
                    if has_name(us.take(i as int), n) && !has_name(base, n) {
                        let ui = us.take(i as int);
                        let k = choose|k: int| 0 <= k < ui.len() && #[trigger] ui[k].node.name@ == n;
                        assert(keep(ui[k]));
                        ui.lemma_filter_contains(keep, k);
                        assert(f.contains(ui[k]));
                        let m = choose|m: int| 0 <= m < f.len() && f[m] == ui[k];
                        assert(before[base.len() + m] == f[m]);
                    }
                }
                assert(!has_name(us.take(i as int), def.node.name@)) by {
                    if has_name(us.take(i as int), def.node.name@) {
                        let k = choose|k: int| 0 <= k < us.take(i as int).len() && #[trigger] us.take(i as int)[k].node.name@ == def.node.name@;
                        assert(us[k] == us.take(i as int)[k]);
                    }
                }
            }
            let inserted = library.insert_definition(def);
            proof {
                assert(inserted == keep(def));
                assert(us.take(i + 1).filter(keep) == if keep(us[i as int]) {
                    us.take(i as int).filter(keep).push(us[i as int])
                } else {
                    us.take(i as int).filter(keep)
                });
                if inserted {
                    assert(library@ =~= base + us.take(i + 1).filter(keep));
                }
            }
            i = i + 1;
        }
        assert(us.take(i as int) =~= us);
        Ok(library)
    }
}

/// The matching rule of [NodeLibrary::search] on already lowercased text:
/// the name, one of the keywords or the description contains the query.
pub fn query_matches(name_lower: &str, keywords_lower: &Vec<String>, desc_lower: &str, query_lower: &str) -> (r: bool)
    ensures
        r == (text_contains(name_lower@, query_lower@) || (exists|t: int|
            0 <= t < keywords_lower@.len() && text_contains(#[trigger] keywords_lower@[t]@, query_lower@))
            || text_contains(desc_lower@, query_lower@)),
{
    if text_contains_exec(name_lower, query_lower) {
        return true;
    }
    let mut k: usize = 0;
    while k < keywords_lower.len()
        invariant
            k <= keywords_lower@.len(),
            forall|t: int| 0 <= t < k ==> !text_contains(#[trigger] keywords_lower@[t]@, query_lower@),
        decreases keywords_lower.len() - k,
    {
        if text_contains_exec(keywords_lower[k].as_str(), query_lower) {
            return true;
        }
        k = k + 1;
    }
    text_contains_exec(desc_lower, query_lower)
}

/// The category the frontend files a node under: its own, or "Other"
/// when it has none.
pub fn category_label(category: &str) -> (r: String)
    ensures
        r@ == (if category@.len() == 0 {
            "Other"@
        } else {
            category@
        }),
{
    if category.unicode_len() == 0 {
        String::from_str("Other")
    } else {
        String::from_str(category)
    }
}

} // verus!
