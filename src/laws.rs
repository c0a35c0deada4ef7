use crate::method::{lemma_index_injective, lemma_spec_at_index, Method, METHOD_COUNT};
use crate::path::join;
use crate::router::Router;
use vstd::prelude::*;

verus! {

/// Joining an empty suffix onto a base gives the base.
pub proof fn lemma_join_empty(base: Seq<char>)
    ensures
        join(base, Seq::<char>::empty()) == base,
{
}

/// A registered route becomes the latest route of its method, under its path
/// joined onto the table's prefix and with the handler given; the routes
/// before it, the other methods and the prefix are kept.
pub proof fn lemma_handle_adds_latest_route<H>(
    before: Router<H>,
    after: Router<H>,
    method: Method,
    path: Seq<char>,
    handler: H,
)
    requires
        before.wf(),
        before.registered(after, method, path, handler),
    ensures
        after.routes(method).len() == before.routes(method).len() + 1,
        after.routes(method).last() == (join(before.prefix(), path), handler),
        after.routes(method).drop_last() == before.routes(method),
        after.prefix() == before.prefix(),
{
    assert(after.routes(method).drop_last() =~= before.routes(method));
}

/// A route that a scope's builder registers on the child table is, once the
/// scope has returned, the latest route of its method in the parent, under the
/// parent's prefix joined with the scope's path and then with the route's
/// path; the parent's own prefix is unchanged, so routes registered on the
/// parent afterwards are joined onto the old prefix.
pub proof fn lemma_scoped_route_reaches_parent<H>(
    parent: Router<H>,
    child: Router<H>,
    child_after: Router<H>,
    after: Router<H>,
    scope_path: Seq<char>,
    method: Method,
    route: Seq<char>,
    handler: H,
)
    requires
        parent.wf(),
        child.prefix() == join(parent.prefix(), scope_path),
        child.registered(child_after, method, route, handler),
        after.prefix() == parent.prefix(),
        forall|m: Method| #[trigger] after.routes(m) == child_after.routes(m),
    ensures
        after.routes(method).last() == (join(join(parent.prefix(), scope_path), route), handler),
        after.prefix() == parent.prefix(),
{
    assert(after.routes(method) == child_after.routes(method));
}

/// Registering a handler under every method at once gives the same routes,
/// prefix, middleware and lookups as registering it at the same path under
/// each of the nine methods in turn.
pub proof fn lemma_any_is_nine_registrations<H>(
    start: Router<H>,
    all: Router<H>,
    steps: Seq<Router<H>>,
    path: Seq<char>,
    handler: H,
)
    requires
        start.wf(),
        start.registered_everywhere(all, path, handler),
        steps.len() == METHOD_COUNT + 1,
        steps[0] == start,
        forall|i: int|
            0 <= i < METHOD_COUNT ==> #[trigger] steps[i].registered(
                steps[i + 1],
                Method::spec_at(i),
                path,
                handler,
            ),
    ensures
        steps.last().prefix() == all.prefix(),
        steps.last().middleware_list() == all.middleware_list(),
        forall|m: Method| #[trigger] steps.last().routes(m) == all.routes(m),
        forall|m: Method, q: Seq<char>| #[trigger] steps.last().lookup(m, q) == all.lookup(m, q),
{
    lemma_registrations_prefix(start, steps, path, handler, METHOD_COUNT as int);
    assert forall|m: Method| #[trigger] steps.last().routes(m) == all.routes(m) by {
        assert(m.index() < METHOD_COUNT);
    }
}

/// After the first `n` of the nine single registrations, the methods before
/// position `n` have the new route and the others are as they were.
proof fn lemma_registrations_prefix<H>(
    start: Router<H>,
    steps: Seq<Router<H>>,
    path: Seq<char>,
    handler: H,
    n: int,
)
    requires
        0 <= n <= METHOD_COUNT,
        steps.len() == METHOD_COUNT + 1,
        steps[0] == start,
        forall|i: int|
            0 <= i < METHOD_COUNT ==> #[trigger] steps[i].registered(
                steps[i + 1],
                Method::spec_at(i),
                path,
                handler,
            ),
    ensures
        steps[n].prefix() == start.prefix(),
        steps[n].middleware_list() == start.middleware_list(),
        forall|m: Method|
            #[trigger] steps[n].routes(m) == if m.index() < n {
                start.routes(m).push((join(start.prefix(), path), handler))
            } else {
                start.routes(m)
            },
    decreases n,
{
    if n > 0 {
        lemma_registrations_prefix(start, steps, path, handler, n - 1);
        let j = n - 1;
        assert(steps[j].registered(steps[j + 1], Method::spec_at(j), path, handler));
        lemma_spec_at_index(n - 1);
        assert forall|m: Method|
            #[trigger] steps[n].routes(m) == if m.index() < n {
                start.routes(m).push((join(start.prefix(), path), handler))
            } else {
                start.routes(m)
            } by {
            lemma_index_injective(m, Method::spec_at(n - 1));
            assert(steps[n - 1].routes(m) == if m.index() < n - 1 {
                start.routes(m).push((join(start.prefix(), path), handler))
            } else {
                start.routes(m)
            });
        }
    }
}

/// A route registered on the parent after a scope has returned is joined onto
/// the parent's own prefix, which the scope left unchanged.
pub proof fn lemma_route_after_scope_uses_parent_prefix<H>(
    parent: Router<H>,
    after_scope: Router<H>,
    after: Router<H>,
    method: Method,
    route: Seq<char>,
    handler: H,
)
    requires
        parent.wf(),
        after_scope.wf(),
        after_scope.prefix() == parent.prefix(),
        after_scope.registered(after, method, route, handler),
    ensures
        after.routes(method).last() == (join(parent.prefix(), route), handler),
        after.prefix() == parent.prefix(),
{
}

} // verus!
