use crate::method::{Method, METHOD_COUNT};
use crate::path::{is_ascii_path, join, join_paths, lemma_join_shape};
use crate::tree::{patterns_of, tree_find, tree_match, RouteTree};
use vstd::prelude::*;

verus! {

/// A routing table: per HTTP method, a path tree that maps full route
/// patterns to handlers; the path prefix of the current scope; and the
/// middleware collected from this scope and the scopes around it.
///
/// Handlers are stored once in `handlers`; the trees hold their slot numbers,
/// so one handler registered under several methods is shared, not copied.
/// Middleware is collected only: it is not attached to any route.
#[derive(Clone)]
pub struct Router<H> {
    path: String,
    trees: Vec<Option<RouteTree>>,
    handlers: Vec<H>,
    middleware: Vec<H>,
}

/// The routes of a tree slot; empty when the slot holds no tree.
pub open spec fn slot_routes(slot: Option<RouteTree>) -> Seq<(Seq<char>, usize)> {
    match slot {
        Some(t) => t.routes(),
        None => Seq::empty(),
    }
}

/// `b` holds the routes of `a`, in order, with the same patterns and with
/// each handler a clone of the one in `a`.
pub open spec fn cloned_routes<H: Clone>(a: Seq<(Seq<char>, H)>, b: Seq<(Seq<char>, H)>) -> bool {
    &&& a.len() == b.len()
    &&& forall|i: int|
        0 <= i < a.len() ==> a[i].0 == b[i].0 && cloned(a[i].1, #[trigger] b[i].1)
}

impl<H> Router<H> {
    /// The path prefix of this table's scope.
    pub closed spec fn prefix(&self) -> Seq<char> {
        self.path@
    }

    /// The collected middleware, in order of registration.
    pub closed spec fn middleware_list(&self) -> Seq<H> {
        self.middleware@
    }

    /// The handler stored in slot `i`.
    pub closed spec fn handler(&self, i: usize) -> H {
        self.handlers@[i as int]
    }

    /// Whether a tree exists for `m`.
    pub closed spec fn has_tree(&self, m: Method) -> bool {
        self.trees@[m.index() as int] is Some
    }

    /// The routes given to the tree of `m`, in order, as full patterns and
    /// handler slots; empty when `m` has no tree.
    pub closed spec fn route_list(&self, m: Method) -> Seq<(Seq<char>, usize)> {
        slot_routes(self.trees@[m.index() as int])
    }

    /// The routes registered under `m`, in order, as full patterns and
    /// handlers.
    pub open spec fn routes(&self, m: Method) -> Seq<(Seq<char>, H)> {
        self.route_list(m).map_values(|e: (Seq<char>, usize)| (e.0, self.handler(e.1)))
    }

    /// What a lookup of `path` under `m` gives: nothing when `m` has no
    /// routes, else the handler of the route that the engine matches among
    /// the patterns of `m`, and the captured parameters.
    pub open spec fn lookup(&self, m: Method, path: Seq<char>) -> Option<
        (H, Seq<(Seq<char>, Seq<char>)>),
    > {
        if self.route_list(m).len() == 0 {
            None
        } else {
            match tree_match(self.routes(m).map_values(|e: (Seq<char>, H)| e.0), path) {
                Some((k, ps)) => if 0 <= k < self.routes(m).len() {
                    Some((self.routes(m)[k].1, ps))
                } else {
                    None
                },
                None => None,
            }
        }
    }

    /// `after` is `self` with one route added: `handler` under `method` at
    /// `path` joined onto the prefix; nothing else changes.
    pub open spec fn registered(&self, after: Self, method: Method, path: Seq<char>, handler: H) -> bool {
        &&& after.wf()
        &&& after.prefix() == self.prefix()
        &&& after.middleware_list() == self.middleware_list()
        &&& after.routes(method) == self.routes(method).push((join(self.prefix(), path), handler))
        &&& forall|m: Method| m != method ==> #[trigger] after.routes(m) == self.routes(m)
        &&& forall|m: Method, q: Seq<char>|
            m != method ==> #[trigger] after.lookup(m, q) == self.lookup(m, q)
    }

    /// `after` is `self` with `handler` added under every method at `path`
    /// joined onto the prefix; nothing else changes.
    pub open spec fn registered_everywhere(&self, after: Self, path: Seq<char>, handler: H) -> bool {
        &&& after.wf()
        &&& after.prefix() == self.prefix()
        &&& after.middleware_list() == self.middleware_list()
        &&& forall|m: Method|
            #[trigger] after.routes(m) == self.routes(m).push((join(self.prefix(), path), handler))
    }

    /// The table is well formed: the prefix is an ASCII path that starts with
    /// a single `/`; there is one tree slot per method; a tree exists exactly
    /// for the methods with a route; every route names a stored handler.
    pub closed spec fn wf(&self) -> bool {
        &&& self.path@.len() > 0
        &&& self.path@[0] == '/'
        &&& self.path@.len() > 1 ==> self.path@[1] != '/'
        &&& is_ascii_path(self.path@)
        &&& self.trees@.len() == METHOD_COUNT
        &&& forall|k: int|
            0 <= k < METHOD_COUNT ==> (#[trigger] self.trees@[k] matches Some(t) ==> t.routes().len() > 0)
        &&& forall|m: Method, j: int|
            0 <= j < self.route_list(m).len() ==> (#[trigger] self.route_list(m)[j]).1
                < self.handlers@.len()
    }

    /// An empty table: prefix `/`, no routes, no middleware.
    pub fn new() -> (r: Self)
        ensures
            r.wf(),
            r.prefix() == seq!['/'],
            r.middleware_list() == Seq::<H>::empty(),
            forall|m: Method| #[trigger] r.routes(m) == Seq::<(Seq<char>, H)>::empty(),
            forall|m: Method| !(#[trigger] r.has_tree(m)),
    {
        let mut trees: Vec<Option<RouteTree>> = Vec::new();
        let mut k: usize = 0;
        while k < METHOD_COUNT
            invariant
                k <= METHOD_COUNT,
                trees@.len() == k,
                forall|j: int| 0 <= j < k ==> trees@[j] is None,
            decreases METHOD_COUNT - k,
        {
            trees.push(None);
            k = k + 1;
        }
        let path = String::from_str("/");
        proof {
            reveal_strlit("/");
        }
        let r = Router { path, trees, handlers: Vec::new(), middleware: Vec::new() };
        assert forall|m: Method| #[trigger] r.routes(m) == Seq::<(Seq<char>, H)>::empty() by {
            assert(r.routes(m) =~= Seq::<(Seq<char>, H)>::empty());
        }
        r
    }

    /// Appends `handler` to the middleware list. It is collected only and
    /// does not change how any route is dispatched.
    pub fn middleware(&mut self, handler: H) -> (r: &mut Self)
        requires
            old(self).wf(),
        ensures
            r.wf(),
            r.middleware_list() == old(self).middleware_list().push(handler),
            r.prefix() == old(self).prefix(),
            forall|m: Method| #[trigger] r.routes(m) == old(self).routes(m),
            forall|m: Method, q: Seq<char>| #[trigger] r.lookup(m, q) == old(self).lookup(m, q),
            *final(self) == *final(r),
    {
        self.middleware.push(handler);
        assert(forall|m: Method| #[trigger] self.route_list(m) == old(self).route_list(m));
        assert(forall|m: Method| #[trigger] self.routes(m) == old(self).routes(m));
        self
    }

    /// Adds `pattern` with handler slot `slot` to the tree of `method`,
    /// creating that tree on first use.
    fn insert_route(&mut self, method: Method, pattern: &str, slot: usize)
        requires
            old(self).trees@.len() == METHOD_COUNT,
            is_ascii_path(pattern@),
        ensures
            final(self).path == old(self).path,
            final(self).handlers == old(self).handlers,
            final(self).middleware == old(self).middleware,
            final(self).trees@.len() == METHOD_COUNT,
            final(self).has_tree(method),
            final(self).route_list(method) == old(self).route_list(method).push((pattern@, slot)),
            forall|m: Method|
                m != method ==> #[trigger] final(self).trees@[m.index() as int] == old(
                    self,
                ).trees@[m.index() as int],
    {
        let k = method.slot();
        let mut cur: Option<RouteTree> = None;
        std::mem::swap(&mut cur, &mut self.trees[k]);
        let mut tree = match cur {
            Some(t) => t,
            None => RouteTree::new(),
        };
        tree.insert(pattern, slot);
        self.trees.set(k, Some(tree));
        proof {
            assert forall|m: Method| m != method implies #[trigger] self.trees@[m.index() as int]
                == old(self).trees@[m.index() as int] by {
                crate::method::lemma_index_injective(m, method);
            }
        }
    }

    /// Registers `handler` under `method` at `path` joined onto this table's
    /// prefix.
    ///
    /// Paths must be ASCII, as URL paths are: the path tree slices patterns by
    /// character positions and fails on some other text.
    pub fn handle(&mut self, method: Method, path: &str, handler: H) -> (r: &mut Self)
        requires
            old(self).wf(),
            is_ascii_path(path@),
        ensures
            old(self).registered(*r, method, path@, handler),
            *final(self) == *final(r),
    {
        let full = join_paths(self.path.as_str(), path);
        proof {
            lemma_join_shape(self.path@, path@);
        }
        let slot = self.handlers.len();
        self.handlers.push(handler);
        self.insert_route(method, full.as_str(), slot);
        proof {
            self.lemma_routes_after_insert(*old(self), method, full@, slot);
        }
        self
    }

    /// After a handler was pushed into a new slot and one route naming it was
    /// added to the tree of `method`, the table is well formed and its routes
    /// grew by that one route.
    proof fn lemma_routes_after_insert(&self, before: Self, method: Method, pattern: Seq<char>, slot: usize)
        requires
            before.wf(),
            slot == before.handlers@.len(),
            self.handlers@.len() == slot + 1,
            self.handlers@ == before.handlers@.push(self.handlers@[slot as int]),
            self.path == before.path,
            self.trees@.len() == METHOD_COUNT,
            self.has_tree(method),
            self.route_list(method) == before.route_list(method).push((pattern, slot)),
            forall|m: Method|
                m != method ==> #[trigger] self.trees@[m.index() as int] == before.trees@[m.index() as int],
        ensures
            self.wf(),
            self.routes(method) == before.routes(method).push((pattern, self.handler(slot))),
            forall|m: Method| m != method ==> #[trigger] self.routes(m) == before.routes(m),
    {
        assert forall|m: Method, j: int| 0 <= j < self.route_list(m).len() implies (
        #[trigger] self.route_list(m)[j]).1 < self.handlers@.len() by {
            if m != method {
                assert(self.route_list(m) == before.route_list(m));
            } else if j < before.route_list(m).len() {
                assert(self.route_list(m)[j] == before.route_list(m)[j]);
            }
        }
        assert forall|k: int| 0 <= k < METHOD_COUNT implies (#[trigger] self.trees@[k] matches Some(t)
            ==> t.routes().len() > 0) by {
            let m = Method::spec_at(k);
            crate::method::lemma_spec_at_index(k);
            if m != method {
                assert(self.trees@[k] == before.trees@[k]);
            }
        }
        assert(self.routes(method) =~= before.routes(method).push((pattern, self.handler(slot))));
        assert forall|m: Method| m != method implies #[trigger] self.routes(m) == before.routes(m) by {
            assert(self.route_list(m) == before.route_list(m));
            assert(self.routes(m) =~= before.routes(m));
        }
    }

    /// Registers `handler` under GET at `path` joined onto the prefix.
    /// `path` must be ASCII, as for `handle`.
    pub fn get(&mut self, path: &str, handler: H) -> (r: &mut Self)
        requires
            old(self).wf(),
            is_ascii_path(path@),
        ensures
            old(self).registered(*r, Method::Get, path@, handler),
            *final(self) == *final(r),
    {
        self.handle(Method::Get, path, handler)
    }

    /// Registers `handler` under POST at `path` joined onto the prefix.
    /// `path` must be ASCII, as for `handle`.
    pub fn post(&mut self, path: &str, handler: H) -> (r: &mut Self)
        requires
            old(self).wf(),
            is_ascii_path(path@),
        ensures
            old(self).registered(*r, Method::Post, path@, handler),
            *final(self) == *final(r),
    {
        self.handle(Method::Post, path, handler)
    }

    /// Registers `handler` under DELETE at `path` joined onto the prefix.
    /// `path` must be ASCII, as for `handle`.
    pub fn delete(&mut self, path: &str, handler: H) -> (r: &mut Self)
        requires
            old(self).wf(),
            is_ascii_path(path@),
        ensures
            old(self).registered(*r, Method::Delete, path@, handler),
            *final(self) == *final(r),
    {
        self.handle(Method::Delete, path, handler)
    }

    /// Registers `handler` under PATCH at `path` joined onto the prefix.
    /// `path` must be ASCII, as for `handle`.
    pub fn patch(&mut self, path: &str, handler: H) -> (r: &mut Self)
        requires
            old(self).wf(),
            is_ascii_path(path@),
        ensures
            old(self).registered(*r, Method::Patch, path@, handler),
            *final(self) == *final(r),
    {
        self.handle(Method::Patch, path, handler)
    }

    /// Registers `handler` under PUT at `path` joined onto the prefix.
    /// `path` must be ASCII, as for `handle`.
    pub fn put(&mut self, path: &str, handler: H) -> (r: &mut Self)
        requires
            old(self).wf(),
            is_ascii_path(path@),
        ensures
            old(self).registered(*r, Method::Put, path@, handler),
            *final(self) == *final(r),
    {
        self.handle(Method::Put, path, handler)
    }

    /// Registers `handler` under OPTIONS at `path` joined onto the prefix.
    /// `path` must be ASCII, as for `handle`.
    pub fn options(&mut self, path: &str, handler: H) -> (r: &mut Self)
        requires
            old(self).wf(),
            is_ascii_path(path@),
        ensures
            old(self).registered(*r, Method::Options, path@, handler),
            *final(self) == *final(r),
    {
        self.handle(Method::Options, path, handler)
    }

    /// Registers `handler` under HEAD at `path` joined onto the prefix.
    /// `path` must be ASCII, as for `handle`.
    pub fn head(&mut self, path: &str, handler: H) -> (r: &mut Self)
        requires
            old(self).wf(),
            is_ascii_path(path@),
        ensures
            old(self).registered(*r, Method::Head, path@, handler),
            *final(self) == *final(r),
    {
        self.handle(Method::Head, path, handler)
    }

    /// Registers `handler` under CONNECT at `path` joined onto the prefix.
    /// `path` must be ASCII, as for `handle`.
    pub fn connect(&mut self, path: &str, handler: H) -> (r: &mut Self)
        requires
            old(self).wf(),
            is_ascii_path(path@),
        ensures
            old(self).registered(*r, Method::Connect, path@, handler),
            *final(self) == *final(r),
    {
        self.handle(Method::Connect, path, handler)
    }

    /// Registers `handler` under TRACE at `path` joined onto the prefix.
    /// `path` must be ASCII, as for `handle`.
    pub fn trace(&mut self, path: &str, handler: H) -> (r: &mut Self)
        requires
            old(self).wf(),
            is_ascii_path(path@),
        ensures
            old(self).registered(*r, Method::Trace, path@, handler),
            *final(self) == *final(r),
    {
        self.handle(Method::Trace, path, handler)
    }

    /// Registers `handler` at `path` joined onto the prefix under every
    /// method. The handler is stored once and shared by the nine routes.
    /// `path` must be ASCII, as for `handle`.
    pub fn any(&mut self, path: &str, handler: H) -> (r: &mut Self)
        requires
            old(self).wf(),
            is_ascii_path(path@),
        ensures
            old(self).registered_everywhere(*r, path@, handler),
            *final(self) == *final(r),
    {
        let full = join_paths(self.path.as_str(), path);
        proof {
            lemma_join_shape(self.path@, path@);
        }
        let slot = self.handlers.len();
        self.handlers.push(handler);
        let mut k: usize = 0;
        while k < METHOD_COUNT
            invariant
                k <= METHOD_COUNT,
                old(self).wf(),
                is_ascii_path(full@),
                slot == old(self).handlers@.len(),
                self.handlers@ == old(self).handlers@.push(handler),
                self.path == old(self).path,
                self.middleware == old(self).middleware,
                self.trees@.len() == METHOD_COUNT,
                forall|m: Method| m.index() < k ==> #[trigger] self.has_tree(m),
                forall|m: Method|
                    m.index() < k ==> #[trigger] self.route_list(m) == old(self).route_list(m).push(
                        (full@, slot),
                    ),
                forall|m: Method|
                    m.index() >= k ==> #[trigger] self.trees@[m.index() as int] == old(
                        self,
                    ).trees@[m.index() as int],
            decreases METHOD_COUNT - k,
        {
            let method = Method::from_slot(k);
            let ghost prev = *self;
            self.insert_route(method, full.as_str(), slot);
            k = k + 1;
            proof {
                assert forall|m: Method| m.index() < k implies #[trigger] self.has_tree(m) by {
                    crate::method::lemma_index_injective(m, method);
                    if m != method {
                        assert(self.trees@[m.index() as int] == prev.trees@[m.index() as int]);
                        assert(prev.has_tree(m));
                    }
                }
                assert forall|m: Method| m.index() < k implies #[trigger] self.route_list(m) == old(
                    self,
                ).route_list(m).push((full@, slot)) by {
                    crate::method::lemma_index_injective(m, method);
                    if m != method {
                        assert(self.trees@[m.index() as int] == prev.trees@[m.index() as int]);
                        assert(self.route_list(m) == prev.route_list(m));
                    } else {
                        assert(prev.trees@[m.index() as int] == old(self).trees@[m.index() as int]);
                        assert(prev.route_list(m) == old(self).route_list(m));
                    }
                }
            }
        }
        proof {
            self.lemma_routes_after_insert_all(*old(self), full@, slot);
        }
        self
    }

    /// After a handler was pushed into a new slot and one route naming it was
    /// added to the tree of every method, the table is well formed and each
    /// method's routes grew by that one route.
    proof fn lemma_routes_after_insert_all(&self, before: Self, pattern: Seq<char>, slot: usize)
        requires
            before.wf(),
            slot == before.handlers@.len(),
            self.handlers@.len() == slot + 1,
            self.handlers@ == before.handlers@.push(self.handlers@[slot as int]),
            self.path == before.path,
            self.trees@.len() == METHOD_COUNT,
            forall|m: Method|
                #[trigger] self.has_tree(m) && self.route_list(m) == before.route_list(m).push(
                    (pattern, slot),
                ),
        ensures
            self.wf(),
            forall|m: Method| #[trigger] self.routes(m) == before.routes(m).push((pattern, self.handler(slot))),
    {
        assert forall|m: Method, j: int| 0 <= j < self.route_list(m).len() implies (
        #[trigger] self.route_list(m)[j]).1 < self.handlers@.len() by {
            assert(self.has_tree(m));
            if j < before.route_list(m).len() {
                assert(self.route_list(m)[j] == before.route_list(m)[j]);
            }
        }
        assert forall|k: int| 0 <= k < METHOD_COUNT implies (#[trigger] self.trees@[k] matches Some(t)
            ==> t.routes().len() > 0) by {
            let m = Method::spec_at(k);
            crate::method::lemma_spec_at_index(k);
            assert(self.has_tree(m));
        }
        assert forall|m: Method| #[trigger] self.routes(m) == before.routes(m).push((pattern, self.handler(slot))) by {
            assert(self.has_tree(m));
            assert(self.routes(m) =~= before.routes(m).push((pattern, self.handler(slot))));
        }
    }

    /// Resource routes are not provided: the table is returned unchanged.
    pub fn resources(&mut self, path: &str) -> (r: &mut Self)
        ensures
            *r == *old(self),
            *final(self) == *final(r),
    {
        self
    }

    /// Looks up `path` as given under `method`: no match when the method has
    /// no routes, otherwise the handler and parameters of the engine's match.
    pub fn find<'a>(&'a self, method: &'a Method, path: &'a str) -> (r: Option<
        (&'a H, Vec<(&'a str, &'a str)>),
    >)
        requires
            self.wf(),
        ensures
            match self.lookup(*method, path@) {
                None => r is None,
                Some((h, ps)) => r matches Some((g, qs)) && *g == h && qs.deep_view() == ps,
            },
            self.routes(*method).len() == 0 ==> r is None,
            r matches Some((g, _)) ==> exists|j: int|
                0 <= j < self.routes(*method).len() && (#[trigger] self.routes(*method)[j]).1 == *g,
    {
        let k = method.slot();
        match &self.trees[k] {
            None => None,
            Some(t) => {
                proof {
                    assert(patterns_of(t.routes()) =~= self.routes(*method).map_values(
                        |e: (Seq<char>, H)| e.0,
                    ));
                }
                match tree_find(t, path) {
                    None => None,
                    Some((i, ps)) => {
                        proof {
                            match tree_match(patterns_of(t.routes()), path@) {
                                Some((j, _)) => {
                                    assert(self.route_list(*method)[j].1 == i);
                                    assert(self.routes(*method)[j].1 == self.handlers@[i as int]);
                                },
                                None => {},
                            }
                        }
                        Some((&self.handlers[i], ps))
                    },
                }
            },
        }
    }

    /// Runs `builder` once on a child table whose prefix is `path` joined onto
    /// this table's prefix, and which starts with a copy of this table's
    /// routes (each handler cloned) and of its middleware; afterwards this
    /// table takes over the child's routes. `path` must be ASCII, as for
    /// `handle`.
    /// The prefix and middleware of this table stay as they were.
    ///
    /// The builder is handed a well-formed table and must leave it well
    /// formed, as every method of this type does.
    ///
    /// This table is left as it is until the builder has returned.
    pub fn scope(&mut self, path: &str, builder: impl FnOnce(&mut Router<H>)) -> (r: &mut Self)
        where
            H: Clone,
        requires
            old(self).wf(),
            is_ascii_path(path@),
            forall|g: &mut Router<H>| g.wf() ==> #[trigger] builder.requires((g,)),
            forall|g: &mut Router<H>| #[trigger] builder.ensures((g,), ()) ==> final(g).wf(),
        ensures
            r.wf(),
            r.prefix() == old(self).prefix(),
            r.middleware_list() == old(self).middleware_list(),
            exists|g: &mut Router<H>|
                #![trigger builder.ensures((g,), ())]
                {
                    &&& g.wf()
                    &&& g.prefix() == join(old(self).prefix(), path@)
                    &&& forall|m: Method| cloned_routes(old(self).routes(m), #[trigger] g.routes(m))
                    &&& g.middleware_list().len() == old(self).middleware_list().len()
                    &&& forall|i: int|
                        0 <= i < g.middleware_list().len() ==> cloned(
                            old(self).middleware_list()[i],
                            #[trigger] g.middleware_list()[i],
                        )
                    &&& builder.ensures((g,), ())
                    &&& forall|m: Method| #[trigger] r.routes(m) == final(g).routes(m)
                    &&& forall|m: Method, q: Seq<char>| #[trigger] r.lookup(m, q) == final(g).lookup(m, q)
                },
            *final(self) == *final(r),
    {
        let prefix = join_paths(self.path.as_str(), path);
        proof {
            lemma_join_shape(self.path@, path@);
        }
        let mut trees: Vec<Option<RouteTree>> = Vec::new();
        let mut k: usize = 0;
        while k < METHOD_COUNT
            invariant
                k <= METHOD_COUNT,
                self.trees@.len() == METHOD_COUNT,
                trees@.len() == k,
                forall|j: int|
                    0 <= j < k ==> (#[trigger] trees@[j] is Some) == (self.trees@[j] is Some)
                        && slot_routes(trees@[j]) == slot_routes(self.trees@[j]),
            decreases METHOD_COUNT - k,
        {
            let next = match &self.trees[k] {
                Some(t) => Some(t.copy()),
                None => None,
            };
            trees.push(next);
            k = k + 1;
        }
        let handlers = self.handlers.clone();
        let group_start = Router {
            path: prefix,
            trees,
            handlers,
            middleware: self.middleware.clone(),
        };
        let mut group = group_start;
        proof {
            let start = group_start;
            assert forall|m: Method| #[trigger] start.route_list(m) == old(self).route_list(m) by {
                assert(trees@[m.index() as int] is Some == self.trees@[m.index() as int] is Some);
            }
            assert forall|k: int| 0 <= k < METHOD_COUNT implies (#[trigger] start.trees@[k] matches Some(t)
                ==> t.routes().len() > 0) by {
                assert(trees@[k] is Some == self.trees@[k] is Some);
            }
            assert forall|m: Method| cloned_routes(old(self).routes(m), #[trigger] start.routes(m)) by {
                assert(start.route_list(m) == old(self).route_list(m));
                assert forall|i: int| 0 <= i < start.routes(m).len() implies cloned(
                    old(self).routes(m)[i].1,
                    start.routes(m)[i].1,
                ) by {
                    assert(old(self).route_list(m)[i].1 < self.handlers@.len());
                }
            }
        }
        builder(&mut group);
        self.trees = group.trees;
        self.handlers = group.handlers;
        assert(forall|m: Method| #[trigger] self.route_list(m) == group.route_list(m));
        assert forall|m: Method| #[trigger] self.routes(m) == group.routes(m) by {
            assert(self.routes(m) =~= group.routes(m));
        }
        self
    }
}

} // verus!
