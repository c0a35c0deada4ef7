use router::{join_paths, Method, Router};

const ALL_METHODS: [Method; 9] = [
    Method::Get,
    Method::Post,
    Method::Delete,
    Method::Patch,
    Method::Put,
    Method::Options,
    Method::Head,
    Method::Connect,
    Method::Trace,
];

#[test]
fn new_router() {
    type F = fn() -> usize;
    let mut router = Router::<F>::new();

    router
        // scope v1
        .scope("/v1", |v1| {
            v1.get("/login", || 0)
                .post("/submit", || 1)
                .delete("/read", || 2);
        })
        // scope v2
        .scope("/v2", |v2| {
            v2.get("/login", || 0)
                .post("/submit", || 1)
                .delete("/read", || 2);
        })
        .get("/foo", || 3)
        .post("/bar", || 4)
        .delete("/baz", || 5);

    assert_eq!(router.find(&Method::Get, "/v1/login").map(|(h, _)| h()), Some(0));
    assert_eq!(router.find(&Method::Post, "/v2/submit").map(|(h, _)| h()), Some(1));
    assert_eq!(router.find(&Method::Delete, "/v2/read").map(|(h, _)| h()), Some(2));
    assert_eq!(router.find(&Method::Get, "/foo").map(|(h, _)| h()), Some(3));
    assert_eq!(router.find(&Method::Post, "/bar").map(|(h, _)| h()), Some(4));
    assert_eq!(router.find(&Method::Delete, "/baz").map(|(h, _)| h()), Some(5));
}

#[test]
fn registering_a_path_again_replaces_its_handler() {
    let mut router = Router::<u32>::new();
    router.get("/x", 1).post("/y", 2).get("/x", 3);
    assert_eq!(router.find(&Method::Get, "/x"), Some((&3, vec![])));
    assert_eq!(router.find(&Method::Post, "/y"), Some((&2, vec![])));
}

#[test]
fn scope_leaves_earlier_sibling_routes() {
    let mut router = Router::<u32>::new();
    router.scope("/v1", |t| {
        t.get("/a", 1);
    });
    router.scope("/v2", |t| {
        t.get("/a", 2).middleware(9);
    });
    router.get("/a", 3);
    assert_eq!(router.find(&Method::Get, "/v1/a"), Some((&1, vec![])));
    assert_eq!(router.find(&Method::Get, "/v2/a"), Some((&2, vec![])));
    assert_eq!(router.find(&Method::Get, "/a"), Some((&3, vec![])));
}

#[test]
fn join_with_empty_suffix_keeps_base() {
    assert_eq!(join_paths("/", ""), "/");
    assert_eq!(join_paths("/a/", ""), "/a/");
    assert_eq!(join_paths("", ""), "");
    assert_eq!(join_paths("//x//", ""), "//x//");
}

#[test]
fn join_normalizes_one_slash() {
    assert_eq!(join_paths("/a/", "/b"), "/a/b");
    assert_eq!(join_paths("/a", "b"), "/a/b");
    assert_eq!(join_paths("/a/", "//b"), "/a/b");
    assert_eq!(join_paths("/a///", "b/"), "/a/b/");
    assert_eq!(join_paths("/", "/x"), "/x");
    assert_eq!(join_paths("/", "/"), "/");
}

#[test]
fn get_then_find_same_method_only() {
    let mut router = Router::<u32>::new();
    router.get("/x", 1);
    let found = router.find(&Method::Get, "/x");
    assert_eq!(found, Some((&1, vec![])));
    assert_eq!(router.find(&Method::Post, "/x"), None);
}

#[test]
fn handle_joins_relative_path() {
    let mut router = Router::<u32>::new();
    router.handle(Method::Put, "items", 7);
    assert_eq!(router.find(&Method::Put, "/items"), Some((&7, vec![])));
    assert_eq!(router.find(&Method::Put, "items"), None);
}

#[test]
fn find_without_routes_is_no_match() {
    let router = Router::<u32>::new();
    for m in ALL_METHODS.iter() {
        assert_eq!(router.find(m, "/"), None);
        assert_eq!(router.find(m, "/anything"), None);
    }
}

#[test]
fn find_with_no_matching_pattern() {
    let mut router = Router::<u32>::new();
    router.get("/a", 1);
    assert_eq!(router.find(&Method::Get, "/b"), None);
}

#[test]
fn any_registers_under_every_method() {
    let mut router = Router::<u32>::new();
    router.any("/all", 9);
    for m in ALL_METHODS.iter() {
        assert_eq!(router.find(m, "/all"), Some((&9, vec![])));
    }
}

#[test]
fn each_method_helper_registers_its_method() {
    let mut router = Router::<u32>::new();
    router
        .get("/r", 0)
        .post("/r", 1)
        .delete("/r", 2)
        .patch("/r", 3)
        .put("/r", 4)
        .options("/r", 5)
        .head("/r", 6)
        .connect("/r", 7)
        .trace("/r", 8);
    for (i, m) in ALL_METHODS.iter().enumerate() {
        assert_eq!(router.find(m, "/r"), Some((&(i as u32), vec![])));
    }
}

#[test]
fn scope_prefixes_routes() {
    let mut router = Router::<&str>::new();
    router.scope("/v1", |t| {
        t.get("/login", "a");
    });
    assert_eq!(router.find(&Method::Get, "/v1/login"), Some((&"a", vec![])));
    assert_eq!(router.find(&Method::Get, "/login"), None);
}

#[test]
fn sibling_scopes_do_not_shadow() {
    let mut router = Router::<u32>::new();
    router
        .scope("/v1", |t| {
            t.get("/login", 1);
        })
        .scope("/v2", |t| {
            t.get("/login", 2);
        });
    assert_eq!(router.find(&Method::Get, "/v1/login"), Some((&1, vec![])));
    assert_eq!(router.find(&Method::Get, "/v2/login"), Some((&2, vec![])));
}

#[test]
fn parent_prefix_unchanged_after_scope() {
    let mut router = Router::<u32>::new();
    router
        .scope("/v1", |t| {
            t.get("/login", 1);
        })
        .get("/foo", 3);
    assert_eq!(router.find(&Method::Get, "/foo"), Some((&3, vec![])));
    assert_eq!(router.find(&Method::Get, "/v1/foo"), None);
    assert_eq!(router.find(&Method::Get, "/v1/login"), Some((&1, vec![])));
}

#[test]
fn nested_scopes_join_prefixes() {
    let mut router = Router::<u32>::new();
    router.scope("/a/", |t| {
        t.scope("b", |u| {
            u.post("/c", 5);
        });
    });
    assert_eq!(router.find(&Method::Post, "/a/b/c"), Some((&5, vec![])));
}

#[test]
fn scope_sees_existing_routes() {
    let mut router = Router::<u32>::new();
    router.get("/old", 1);
    router.scope("/s", |t| {
        assert_eq!(t.find(&Method::Get, "/old"), Some((&1, vec![])));
        t.get("/new", 2);
    });
    assert_eq!(router.find(&Method::Get, "/old"), Some((&1, vec![])));
    assert_eq!(router.find(&Method::Get, "/s/new"), Some((&2, vec![])));
}

#[test]
fn empty_scope_path_keeps_prefix() {
    let mut router = Router::<u32>::new();
    router.scope("", |t| {
        t.get("/x", 1);
    });
    assert_eq!(router.find(&Method::Get, "/x"), Some((&1, vec![])));
}

#[test]
fn find_returns_named_parameters() {
    let mut router = Router::<u32>::new();
    router.scope("/users", |t| {
        t.get("/:id/repos/:repo", 4);
    });
    assert_eq!(
        router.find(&Method::Get, "/users/42/repos/verus"),
        Some((&4, vec![("id", "42"), ("repo", "verus")]))
    );
}

#[test]
fn middleware_does_not_change_dispatch() {
    let mut router = Router::<u32>::new();
    router.middleware(100).get("/m", 1).middleware(200);
    assert_eq!(router.find(&Method::Get, "/m"), Some((&1, vec![])));
}

#[test]
fn resources_is_a_no_op() {
    let mut router = Router::<u32>::new();
    router.get("/r", 1).resources("/things");
    assert_eq!(router.find(&Method::Get, "/things"), None);
    assert_eq!(router.find(&Method::Get, "/r"), Some((&1, vec![])));
}
