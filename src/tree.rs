use path_tree::PathTree;
use vstd::prelude::*;

verus! {

#[verifier::external_type_specification]
#[verifier::external_body]
#[verifier::reject_recursive_types(T)]
pub struct ExPathTree<T>(PathTree<T>);

/// A path tree together with the routes it has been given.
///
/// The fields are private to this module, and `history` changes only beside
/// an insertion into `tree`: it lists, in order, every pattern inserted into
/// `tree` and the slot number stored with it. A copy carries the history of
/// the tree it was copied from.
pub struct RouteTree {
    tree: PathTree<usize>,
    history: Ghost<Seq<(Seq<char>, usize)>>,
}

/// The patterns of a route list, in order.
pub open spec fn patterns_of(routes: Seq<(Seq<char>, usize)>) -> Seq<Seq<char>> {
    routes.map_values(|e: (Seq<char>, usize)| e.0)
}

/// What the matching engine answers for a concrete path, given the patterns
/// inserted so far in order: the position of the insertion whose data is
/// returned, and the captured parameters as (name, value) pairs in the
/// engine's order. The shape of the tree, and so the answer, depends on the
/// patterns alone, not on the data stored with them.
pub uninterp spec fn tree_match(patterns: Seq<Seq<char>>, path: Seq<char>) -> Option<
    (int, Seq<(Seq<char>, Seq<char>)>),
>;

/// Relies on `PathTree::new`: a fresh tree with no route.
#[verifier::external_body]
fn new_path_tree() -> PathTree<usize> {
    PathTree::new()
}

/// Relies on `PathTree::insert` adding the pattern and its data. The engine
/// slices patterns by character positions, which stays on character
/// boundaries only for ASCII text.
#[verifier::external_body]
fn path_tree_insert(t: &mut PathTree<usize>, pattern: &str, data: usize)
    requires
        crate::path::is_ascii_path(pattern@),
{
    t.insert(pattern, data);
}

/// Relies on the derived `Clone` of `PathTree`: the copy has the same nodes.
#[verifier::external_body]
fn path_tree_clone(t: &PathTree<usize>) -> PathTree<usize> {
    t.clone()
}

/// Relies on `PathTree::find`: the engine's match of `path` against the
/// patterns inserted into the tree so far; the data returned is the data of
/// the matched insertion.
#[verifier::external_body]
pub(crate) fn tree_find<'a>(t: &'a RouteTree, path: &'a str) -> (r: Option<
    (usize, Vec<(&'a str, &'a str)>),
>)
    ensures
        match tree_match(patterns_of(t.routes()), path@) {
            None => r is None,
            Some((k, ps)) => 0 <= k < t.routes().len() && (r matches Some((d, qs)) && d
                == t.routes()[k].1 && qs.deep_view() == ps),
        },
{
    t.tree.find(path).map(|(d, ps)| (*d, ps))
}

impl Clone for RouteTree {
    fn clone(&self) -> Self {
        self.copy()
    }
}

impl RouteTree {
    /// The routes inserted so far, in order: each a pattern and a slot number.
    pub closed spec fn routes(&self) -> Seq<(Seq<char>, usize)> {
        self.history@
    }

    /// A tree with no route.
    pub fn new() -> (t: Self)
        ensures
            t.routes() == Seq::<(Seq<char>, usize)>::empty(),
    {
        RouteTree { tree: new_path_tree(), history: Ghost(Seq::empty()) }
    }

    /// Inserts `pattern` with slot number `data`.
    pub fn insert(&mut self, pattern: &str, data: usize)
        requires
            crate::path::is_ascii_path(pattern@),
        ensures
            final(self).routes() == old(self).routes().push((pattern@, data)),
    {
        path_tree_insert(&mut self.tree, pattern, data);
        self.history = Ghost(self.history@.push((pattern@, data)));
    }

    /// A copy with the same routes.
    pub fn copy(&self) -> (r: Self)
        ensures
            r.routes() == self.routes(),
    {
        RouteTree { tree: path_tree_clone(&self.tree), history: Ghost(self.history@) }
    }
}

} // verus!
