//! The router builder: registration of participants, scope mounting and build.
use vstd::prelude::*;
use crate::error::{Error, ErrorKind};
use crate::method::{Method, all_possible_http_methods, universal_methods};
use crate::route::{PostMiddleware, PreMiddleware, Route, ScopedDataMap, path_compiles};
use crate::router::{ErrHandler, Middleware, Router, maps_wf, posts_wf, pres_wf, routes_wf};

verus! {

broadcast use vstd::string::group_string_axioms;

/// A registration path: a `/` is appended unless the path ends in `/` or `*`.
pub open spec fn registration_path(p: Seq<char>) -> Seq<char> {
    if p.len() > 0 && (p.last() == '/' || p.last() == '*') {
        p
    } else {
        p.push('/')
    }
}

/// Appends `/` to a path that ends in neither `/` nor `*`.
pub fn normalize_registration_path(path: String) -> (r: String)
    ensures
        r@ == registration_path(path@),
{
    let n = path.as_str().unicode_len();
    if n > 0 && (path.as_str().get_char(n - 1) == '/' || path.as_str().get_char(n - 1) == '*') {
        path
    } else {
        let mut p = path;
        p.append("/");
        proof {
            reveal_strlit("/");
        }
        p
    }
}

/// The views of a table of data maps keyed by path.
pub open spec fn table_view<D>(t: Seq<(String, Vec<D>)>) -> Seq<(Seq<char>, Seq<D>)> {
    t.map_values(|e: (String, Vec<D>)| (e.0@, e.1@))
}

/// The paths of a table have no duplicates.
pub open spec fn table_keys_distinct<D>(t: Seq<(Seq<char>, Seq<D>)>) -> bool {
    forall|i: int, j: int|
        0 <= i < t.len() && 0 <= j < t.len() && i != j ==> #[trigger] t[i].0 != #[trigger] t[j].0
}

/// The table after adding a data map under a path: appended to the maps of
/// that path, or as a new last entry.
pub open spec fn table_add<D>(t: Seq<(Seq<char>, Seq<D>)>, path: Seq<char>, d: D) -> Seq<
    (Seq<char>, Seq<D>),
> {
    if exists|i: int| 0 <= i < t.len() && t[i].0 == path {
        let i = choose|i: int| 0 <= i < t.len() && t[i].0 == path;
        t.update(i, (path, t[i].1.push(d)))
    } else {
        t.push((path, seq![d]))
    }
}

/// A mount prefix without its trailing `/`.
pub open spec fn strip_trailing_slash(p: Seq<char>) -> Seq<char> {
    if p.len() > 0 && p.last() == '/' {
        p.drop_last()
    } else {
        p
    }
}

/// The depth of a participant once its router is mounted in another.
pub open spec fn next_depth(d: u32) -> u32 {
    if d < u32::MAX {
        (d + 1) as u32
    } else {
        d
    }
}

/// `after` is `before` followed by each of `sub` re-hosted under `prefix`:
/// same handler, path prefixed, depth one more.
pub open spec fn pres_mounted<H>(
    before: Seq<PreMiddleware<H>>,
    after: Seq<PreMiddleware<H>>,
    sub: Seq<PreMiddleware<H>>,
    prefix: Seq<char>,
) -> bool {
    &&& after.len() == before.len() + sub.len()
    &&& after.subrange(0, before.len() as int) == before
    &&& forall|i: int|
        0 <= i < sub.len() ==> {
            let m = #[trigger] after[before.len() + i];
            &&& m.matcher.path@ == prefix + sub[i].matcher.path@
            &&& m.scope_depth == next_depth(sub[i].scope_depth)
            &&& m.handler == sub[i].handler
        }
}

/// As `pres_mounted`, for routes, which keep their methods too.
pub open spec fn routes_mounted<H>(
    before: Seq<Route<H>>,
    after: Seq<Route<H>>,
    sub: Seq<Route<H>>,
    prefix: Seq<char>,
) -> bool {
    &&& after.len() == before.len() + sub.len()
    &&& after.subrange(0, before.len() as int) == before
    &&& forall|i: int|
        0 <= i < sub.len() ==> {
            let m = #[trigger] after[before.len() + i];
            &&& m.matcher.path@ == prefix + sub[i].matcher.path@
            &&& m.scope_depth == next_depth(sub[i].scope_depth)
            &&& m.handler == sub[i].handler
            &&& m.methods@ == sub[i].methods@
        }
}

/// As `pres_mounted`, for post-middlewares, which keep their kind too.
pub open spec fn posts_mounted<H>(
    before: Seq<PostMiddleware<H>>,
    after: Seq<PostMiddleware<H>>,
    sub: Seq<PostMiddleware<H>>,
    prefix: Seq<char>,
) -> bool {
    &&& after.len() == before.len() + sub.len()
    &&& after.subrange(0, before.len() as int) == before
    &&& forall|i: int|
        0 <= i < sub.len() ==> {
            let m = #[trigger] after[before.len() + i];
            &&& m.matcher.path@ == prefix + sub[i].matcher.path@
            &&& m.scope_depth == next_depth(sub[i].scope_depth)
            &&& m.handler == sub[i].handler
            &&& m.with_info == sub[i].with_info
        }
}

/// The table after adding each data map of `sub` under its path with `prefix`.
pub open spec fn tables_added<D>(
    t: Seq<(Seq<char>, Seq<D>)>,
    sub: Seq<ScopedDataMap<D>>,
    prefix: Seq<char>,
) -> Seq<(Seq<char>, Seq<D>)>
    decreases sub.len(),
{
    if sub.len() == 0 {
        t
    } else {
        table_add(
            tables_added(t, sub.drop_last(), prefix),
            prefix + sub.last().matcher.path@,
            sub.last().data_map->Some_0,
        )
    }
}

/// The first failure in mounting pre-middlewares under `prefix`, in order: one
/// whose handler was already moved out, or one whose prefixed path does not compile.
pub open spec fn pres_mount_error<H>(sub: Seq<PreMiddleware<H>>, prefix: Seq<char>) -> Option<ErrorKind>
    decreases sub.len(),
{
    if sub.len() == 0 {
        None
    } else if sub[0].handler is None {
        Some(ErrorKind::ReusedSubRouter)
    } else if !path_compiles(prefix + sub[0].matcher.path@) {
        Some(ErrorKind::BadRoutePattern)
    } else {
        pres_mount_error(sub.drop_first(), prefix)
    }
}

/// As `pres_mount_error`, for routes.
pub open spec fn routes_mount_error<H>(sub: Seq<Route<H>>, prefix: Seq<char>) -> Option<ErrorKind>
    decreases sub.len(),
{
    if sub.len() == 0 {
        None
    } else if sub[0].handler is None {
        Some(ErrorKind::ReusedSubRouter)
    } else if !path_compiles(prefix + sub[0].matcher.path@) {
        Some(ErrorKind::BadRoutePattern)
    } else {
        routes_mount_error(sub.drop_first(), prefix)
    }
}

/// As `pres_mount_error`, for post-middlewares.
pub open spec fn posts_mount_error<H>(sub: Seq<PostMiddleware<H>>, prefix: Seq<char>) -> Option<ErrorKind>
    decreases sub.len(),
{
    if sub.len() == 0 {
        None
    } else if sub[0].handler is None {
        Some(ErrorKind::ReusedSubRouter)
    } else if !path_compiles(prefix + sub[0].matcher.path@) {
        Some(ErrorKind::BadRoutePattern)
    } else {
        posts_mount_error(sub.drop_first(), prefix)
    }
}

/// The first data map already moved out, if any.
pub open spec fn maps_mount_error<D>(sub: Seq<ScopedDataMap<D>>) -> Option<ErrorKind>
    decreases sub.len(),
{
    if sub.len() == 0 {
        None
    } else if sub[0].data_map is None {
        Some(ErrorKind::ReusedSubRouter)
    } else {
        maps_mount_error(sub.drop_first())
    }
}

/// The first failure in mounting a router under `prefix`: its pre-middlewares,
/// routes, post-middlewares and data maps are mounted in that order.
pub open spec fn scope_error<H, D>(r: &Router<H, D>, prefix: Seq<char>) -> Option<ErrorKind> {
    match pres_mount_error(r.pre_middlewares@, prefix) {
        Some(k) => Some(k),
        None => match routes_mount_error(r.routes@, prefix) {
            Some(k) => Some(k),
            None => match posts_mount_error(r.post_middlewares@, prefix) {
                Some(k) => Some(k),
                None => maps_mount_error(r.scoped_data_maps@),
            },
        },
    }
}

fn reused_error() -> (r: Error)
    ensures
        r.kind == ErrorKind::ReusedSubRouter,
{
    Error::with_kind(
        ErrorKind::ReusedSubRouter,
        String::from_str("a sub-router can be mounted or built only once"),
    )
}

fn bump_depth(d: u32) -> (r: u32)
    ensures
        r == next_depth(d),
{
    if d < u32::MAX {
        d + 1
    } else {
        d
    }
}

fn prefixed(prefix: &String, path: &String) -> (r: String)
    ensures
        r@ == prefix@ + path@,
{
    let mut p = prefix.clone();
    p.append(path.as_str());
    p
}

fn mount_pres<H>(dst: &mut Vec<PreMiddleware<H>>, sub: &mut Vec<PreMiddleware<H>>, prefix: &String) -> (r:
    Result<(), Error>)
    requires
        pres_wf(old(dst)@),
        pres_wf(old(sub)@),
    ensures
        pres_wf(final(dst)@),
        r is Ok ==> pres_mounted(old(dst)@, final(dst)@, old(sub)@, prefix@),
        r is Ok <==> pres_mount_error(old(sub)@, prefix@) is None,
        r matches Err(e) ==> pres_mount_error(old(sub)@, prefix@) == Some(e.kind),
{
    let ghost d0 = dst@;
    let ghost s0 = sub@;
    let n = sub.len();
    let mut k: usize = 0;
    while k < n
        invariant
            k <= n,
            n == s0.len(),
            s0 == old(sub)@,
            sub@ == s0.subrange(k as int, n as int),
            pres_mount_error(s0, prefix@) == pres_mount_error(s0.subrange(k as int, n as int), prefix@),
            pres_wf(s0),
            pres_wf(dst@),
            dst@.len() == d0.len() + k,
            dst@.subrange(0, d0.len() as int) == d0,
            forall|i: int| 0 <= i < k ==> (#[trigger] s0[i]).handler is Some,
            forall|i: int|
                0 <= i < k ==> {
                    let m = #[trigger] dst@[d0.len() + i];
                    &&& m.matcher.path@ == prefix@ + s0[i].matcher.path@
                    &&& m.scope_depth == next_depth(s0[i].scope_depth)
                    &&& m.handler == s0[i].handler
                },
        decreases n - k,
    {
        let m = sub.remove(0);
        proof {
            assert(m == s0[k as int]);
            assert(sub@ =~= s0.subrange(k + 1, n as int));
            assert(s0.subrange(k as int, n as int)[0] == m);
            assert(s0.subrange(k as int, n as int).drop_first() =~= s0.subrange(k + 1, n as int));
        }
        match m.handler {
            None => {
                proof {
                    assert(s0[k as int].handler is None);
                }
                return Err(reused_error());
            },
            Some(h) => {
                let p = prefixed(prefix, &m.matcher.path);
                match PreMiddleware::new(p, h, bump_depth(m.scope_depth)) {
                    Ok(nm) => {
                        let ghost before = dst@;
                        dst.push(nm);
                        proof {
                            assert(dst@.subrange(0, d0.len() as int) =~= before.subrange(0, d0.len() as int));
                            assert forall|i: int| 0 <= i < k + 1 implies {
                                let m = #[trigger] dst@[d0.len() + i];
                                &&& m.matcher.path@ == prefix@ + s0[i].matcher.path@
                                &&& m.scope_depth == next_depth(s0[i].scope_depth)
                                &&& m.handler == s0[i].handler
                            } by {
                                if i < k {
                                    assert(dst@[d0.len() + i] == before[d0.len() + i]);
                                }
                            }
                        }
                    },
                    Err(e) => {
                        return Err(e);
                    },
                }
            },
        }
        k = k + 1;
    }
    proof {
        assert(s0.subrange(n as int, n as int) =~= Seq::<PreMiddleware<H>>::empty());
    }
    Ok(())
}

fn mount_routes<H>(dst: &mut Vec<Route<H>>, sub: &mut Vec<Route<H>>, prefix: &String) -> (r:
    Result<(), Error>)
    requires
        routes_wf(old(dst)@),
        routes_wf(old(sub)@),
    ensures
        routes_wf(final(dst)@),
        r is Ok ==> routes_mounted(old(dst)@, final(dst)@, old(sub)@, prefix@),
        r is Ok <==> routes_mount_error(old(sub)@, prefix@) is None,
        r matches Err(e) ==> routes_mount_error(old(sub)@, prefix@) == Some(e.kind),
{
    let ghost d0 = dst@;
    let ghost s0 = sub@;
    let n = sub.len();
    let mut k: usize = 0;
    while k < n
        invariant
            k <= n,
            n == s0.len(),
            s0 == old(sub)@,
            sub@ == s0.subrange(k as int, n as int),
            routes_mount_error(s0, prefix@) == routes_mount_error(s0.subrange(k as int, n as int), prefix@),
            routes_wf(s0),
            routes_wf(dst@),
            dst@.len() == d0.len() + k,
            dst@.subrange(0, d0.len() as int) == d0,
            forall|i: int| 0 <= i < k ==> (#[trigger] s0[i]).handler is Some,
            forall|i: int|
                0 <= i < k ==> {
                    let m = #[trigger] dst@[d0.len() + i];
                    &&& m.matcher.path@ == prefix@ + s0[i].matcher.path@
                    &&& m.scope_depth == next_depth(s0[i].scope_depth)
                    &&& m.handler == s0[i].handler
                    &&& m.methods@ == s0[i].methods@
                },
        decreases n - k,
    {
        let m = sub.remove(0);
        proof {
            assert(m == s0[k as int]);
            assert(s0[k as int].wf());
            assert(sub@ =~= s0.subrange(k + 1, n as int));
            assert(s0.subrange(k as int, n as int)[0] == m);
            assert(s0.subrange(k as int, n as int).drop_first() =~= s0.subrange(k + 1, n as int));
        }
        match m.handler {
            None => {
                proof {
                    assert(s0[k as int].handler is None);
                }
                return Err(reused_error());
            },
            Some(h) => {
                let p = prefixed(prefix, &m.matcher.path);
                match Route::new(p, m.methods, h, bump_depth(m.scope_depth)) {
                    Ok(nm) => {
                        let ghost before = dst@;
                        dst.push(nm);
                        proof {
                            assert(dst@.subrange(0, d0.len() as int) =~= before.subrange(0, d0.len() as int));
                            assert forall|i: int| 0 <= i < k + 1 implies {
                                let m = #[trigger] dst@[d0.len() + i];
                                &&& m.matcher.path@ == prefix@ + s0[i].matcher.path@
                                &&& m.scope_depth == next_depth(s0[i].scope_depth)
                                &&& m.handler == s0[i].handler
                                &&& m.methods@ == s0[i].methods@
                            } by {
                                if i < k {
                                    assert(dst@[d0.len() + i] == before[d0.len() + i]);
                                }
                            }
                        }
                    },
                    Err(e) => {
                        return Err(e);
                    },
                }
            },
        }
        k = k + 1;
    }
    proof {
        assert(s0.subrange(n as int, n as int) =~= Seq::<Route<H>>::empty());
    }
    Ok(())
}

fn mount_posts<H>(dst: &mut Vec<PostMiddleware<H>>, sub: &mut Vec<PostMiddleware<H>>, prefix: &String) -> (r:
    Result<(), Error>)
    requires
        posts_wf(old(dst)@),
        posts_wf(old(sub)@),
    ensures
        posts_wf(final(dst)@),
        r is Ok ==> posts_mounted(old(dst)@, final(dst)@, old(sub)@, prefix@),
        r is Ok <==> posts_mount_error(old(sub)@, prefix@) is None,
        r matches Err(e) ==> posts_mount_error(old(sub)@, prefix@) == Some(e.kind),
{
    let ghost d0 = dst@;
    let ghost s0 = sub@;
    let n = sub.len();
    let mut k: usize = 0;
    while k < n
        invariant
            k <= n,
            n == s0.len(),
            s0 == old(sub)@,
            sub@ == s0.subrange(k as int, n as int),
            posts_mount_error(s0, prefix@) == posts_mount_error(s0.subrange(k as int, n as int), prefix@),
            posts_wf(s0),
            posts_wf(dst@),
            dst@.len() == d0.len() + k,
            dst@.subrange(0, d0.len() as int) == d0,
            forall|i: int| 0 <= i < k ==> (#[trigger] s0[i]).handler is Some,
            forall|i: int|
                0 <= i < k ==> {
                    let m = #[trigger] dst@[d0.len() + i];
                    &&& m.matcher.path@ == prefix@ + s0[i].matcher.path@
                    &&& m.scope_depth == next_depth(s0[i].scope_depth)
                    &&& m.handler == s0[i].handler
                    &&& m.with_info == s0[i].with_info
                },
        decreases n - k,
    {
        let m = sub.remove(0);
        proof {
            assert(m == s0[k as int]);
            assert(sub@ =~= s0.subrange(k + 1, n as int));
            assert(s0.subrange(k as int, n as int)[0] == m);
            assert(s0.subrange(k as int, n as int).drop_first() =~= s0.subrange(k + 1, n as int));
        }
        match m.handler {
            None => {
                proof {
                    assert(s0[k as int].handler is None);
                }
                return Err(reused_error());
            },
            Some(h) => {
                let p = prefixed(prefix, &m.matcher.path);
                match PostMiddleware::new(p, h, m.with_info, bump_depth(m.scope_depth)) {
                    Ok(nm) => {
                        let ghost before = dst@;
                        dst.push(nm);
                        proof {
                            assert(dst@.subrange(0, d0.len() as int) =~= before.subrange(0, d0.len() as int));
                            assert forall|i: int| 0 <= i < k + 1 implies {
                                let m = #[trigger] dst@[d0.len() + i];
                                &&& m.matcher.path@ == prefix@ + s0[i].matcher.path@
                                &&& m.scope_depth == next_depth(s0[i].scope_depth)
                                &&& m.handler == s0[i].handler
                                &&& m.with_info == s0[i].with_info
                            } by {
                                if i < k {
                                    assert(dst@[d0.len() + i] == before[d0.len() + i]);
                                }
                            }
                        }
                    },
                    Err(e) => {
                        return Err(e);
                    },
                }
            },
        }
        k = k + 1;
    }
    proof {
        assert(s0.subrange(n as int, n as int) =~= Seq::<PostMiddleware<H>>::empty());
    }
    Ok(())
}

fn table_insert<D>(table: &mut Vec<(String, Vec<D>)>, path: String, d: D)
    requires
        table_keys_distinct(table_view(old(table)@)),
    ensures
        table_keys_distinct(table_view(final(table)@)),
        table_view(final(table)@) == table_add(table_view(old(table)@), path@, d),
{
    let ghost t0 = table_view(table@);
    let mut i: usize = 0;
    while i < table.len()
        invariant
            i <= table@.len(),
            t0 == table_view(table@),
            t0 == table_view(old(table)@),
            table_keys_distinct(t0),
            forall|j: int| 0 <= j < i ==> (#[trigger] t0[j]).0 != path@,
        decreases table@.len() - i,
    {
        if table[i].0 == path {
            let ghost before = table@;
            let (k, mut v) = table.remove(i);
            v.push(d);
            table.insert(i, (k, v));
            proof {
                assert(t0[i as int].0 == path@);
                let j = choose|j: int| 0 <= j < t0.len() && t0[j].0 == path@;
                assert(j == i);
                assert(table_view(table@) =~= t0.update(i as int, (path@, t0[i as int].1.push(d))));
                assert(table_keys_distinct(table_view(table@))) by {
                    assert forall|a: int, b: int|
                        0 <= a < table_view(table@).len() && 0 <= b < table_view(table@).len() && a != b
                        implies #[trigger] table_view(table@)[a].0 != #[trigger] table_view(table@)[b].0 by {
                        assert(table_view(table@)[a].0 == t0[a].0);
                        assert(table_view(table@)[b].0 == t0[b].0);
                    }
                }
            }
            return;
        }
        i = i + 1;
    }
    let mut one: Vec<D> = Vec::new();
    one.push(d);
    table.push((path, one));
    proof {
        assert(one@ =~= seq![d]);
        assert(!(exists|j: int| 0 <= j < t0.len() && t0[j].0 == path@)) by {
            assert forall|j: int| 0 <= j < t0.len() implies t0[j].0 != path@ by {
                assert(t0[j].0 != path@);
            }
        }
        assert(table_view(table@) =~= t0.push((path@, seq![d])));
        assert(table_keys_distinct(table_view(table@))) by {
            assert forall|a: int, b: int|
                0 <= a < table_view(table@).len() && 0 <= b < table_view(table@).len() && a != b
                implies #[trigger] table_view(table@)[a].0 != #[trigger] table_view(table@)[b].0 by {
                if a < t0.len() && b < t0.len() {
                    assert(table_view(table@)[a].0 == t0[a].0);
                    assert(table_view(table@)[b].0 == t0[b].0);
                } else if a < t0.len() {
                    assert(table_view(table@)[a].0 == t0[a].0);
                } else {
                    assert(table_view(table@)[b].0 == t0[b].0);
                }
            }
        }
    }
}

fn mount_maps<D>(table: &mut Vec<(String, Vec<D>)>, sub: &mut Vec<ScopedDataMap<D>>, prefix: &String) -> (r:
    Result<(), Error>)
    requires
        table_keys_distinct(table_view(old(table)@)),
    ensures
        table_keys_distinct(table_view(final(table)@)),
        r is Ok ==> table_view(final(table)@) == tables_added(table_view(old(table)@), old(sub)@, prefix@),
        r is Ok <==> maps_mount_error(old(sub)@) is None,
        r matches Err(e) ==> maps_mount_error(old(sub)@) == Some(e.kind),
{
    let ghost t0 = table_view(table@);
    let ghost s0 = sub@;
    let n = sub.len();
    let mut k: usize = 0;
    proof {
        assert(s0.subrange(0, n as int) =~= s0);
    }
    while k < n
        invariant
            k <= n,
            n == s0.len(),
            s0 == old(sub)@,
            t0 == table_view(old(table)@),
            sub@ == s0.subrange(k as int, n as int),
            maps_mount_error(s0) == maps_mount_error(s0.subrange(k as int, n as int)),
            table_keys_distinct(table_view(table@)),
            table_view(table@) == tables_added(t0, s0.subrange(0, k as int), prefix@),
            forall|i: int| 0 <= i < k ==> (#[trigger] s0[i]).data_map is Some,
        decreases n - k,
    {
        let m = sub.remove(0);
        proof {
            assert(m == s0[k as int]);
            assert(sub@ =~= s0.subrange(k + 1, n as int));
            assert(s0.subrange(0, k + 1).drop_last() =~= s0.subrange(0, k as int));
            assert(s0.subrange(0, k + 1).last() == m);
        }
        match m.data_map {
            None => {
                return Err(reused_error());
            },
            Some(d) => {
                let p = prefixed(prefix, &m.matcher.path);
                table_insert(table, p, d);
            },
        }
        k = k + 1;
    }
    proof {
        assert(s0.subrange(0, n as int) =~= s0);
        assert(s0.subrange(n as int, n as int) =~= Seq::<ScopedDataMap<D>>::empty());
    }
    Ok(())
}

/// The data maps of a table, one `(path, map)` pair each, in table order.
pub open spec fn flatten_table<D>(t: Seq<(Seq<char>, Seq<D>)>) -> Seq<(Seq<char>, D)>
    decreases t.len(),
{
    if t.len() == 0 {
        Seq::empty()
    } else {
        flatten_table(t.drop_last()) + t.last().1.map_values(|d: D| (t.last().0, d))
    }
}

/// Each scoped data map stands for the pair at its position.
pub open spec fn maps_match<D>(ms: Seq<ScopedDataMap<D>>, f: Seq<(Seq<char>, D)>) -> bool {
    &&& ms.len() == f.len()
    &&& forall|k: int|
        0 <= k < ms.len() ==> (#[trigger] ms[k]).matcher.path@ == f[k].0 && ms[k].data_map == Some(
            f[k].1,
        )
}

fn strip_slash(path: String) -> (r: String)
    ensures
        r@ == strip_trailing_slash(path@),
{
    let n = path.as_str().unicode_len();
    if n > 0 && path.as_str().get_char(n - 1) == '/' {
        let r = String::from_str(path.as_str().substring_char(0, n - 1));
        proof {
            assert(r@ =~= path@.drop_last());
        }
        r
    } else {
        path
    }
}

/// Every path of the table that holds a data map compiles.
pub open spec fn table_compiles<D>(t: Seq<(Seq<char>, Seq<D>)>) -> bool {
    forall|i: int| 0 <= i < t.len() && (#[trigger] t[i]).1.len() > 0 ==> path_compiles(t[i].0)
}

fn build_maps<D>(table: Vec<(String, Vec<D>)>) -> (r: Result<Vec<ScopedDataMap<D>>, Error>)
    ensures
        r is Ok <==> table_compiles(table_view(table@)),
        r matches Ok(ms) ==> maps_wf(ms@) && maps_match(ms@, flatten_table(table_view(table@))),
        r matches Err(e) ==> e.kind == ErrorKind::BadRoutePattern,
{
    let ghost t0 = table_view(table@);
    let mut rest = table;
    let n = rest.len();
    let mut out: Vec<ScopedDataMap<D>> = Vec::new();
    let mut i: usize = 0;
    while i < n
        invariant
            i <= n,
            n == t0.len(),
            table_view(rest@) == t0.subrange(i as int, n as int),
            rest@.len() == n - i,
            t0 == table_view(table@),
            forall|q: int| 0 <= q < i && (#[trigger] t0[q]).1.len() > 0 ==> path_compiles(t0[q].0),
            maps_wf(out@),
            maps_match(out@, flatten_table(t0.subrange(0, i as int))),
        decreases n - i,
    {
        let ghost old_rest = rest@;
        let (path, maps) = rest.remove(0);
        proof {
            assert(table_view(old_rest)[0] == (old_rest[0].0@, old_rest[0].1@));
            assert(t0.subrange(i as int, n as int)[0] == t0[i as int]);
            assert(table_view(rest@) =~= t0.subrange(i + 1, n as int)) by {
                assert forall|k: int| 0 <= k < rest@.len() implies table_view(rest@)[k]
                    == t0.subrange(i + 1, n as int)[k] by {
                    assert(rest@[k] == old_rest[k + 1]);
                    assert(table_view(old_rest)[k + 1] == t0.subrange(i as int, n as int)[k + 1]);
                }
            }
            assert(t0[i as int] == (path@, maps@));
        }
        let ghost base = flatten_table(t0.subrange(0, i as int));
        let ghost ds = maps@;
        let m = maps.len();
        let mut maps = maps;
        let mut j: usize = 0;
        while j < m
            invariant
                j <= m,
                m == ds.len(),
                maps@ == ds.subrange(j as int, m as int),
                j > 0 ==> path_compiles(path@),
                i < n,
                n == t0.len(),
                t0 == table_view(table@),
                t0[i as int] == (path@, ds),
                maps_wf(out@),
                maps_match(
                    out@,
                    base + ds.subrange(0, j as int).map_values(|d: D| (path@, d)),
                ),
            decreases m - j,
        {
            let d = maps.remove(0);
            proof {
                assert(d == ds[j as int]);
                assert(maps@ =~= ds.subrange(j + 1, m as int));
            }
            match ScopedDataMap::new(path.clone(), d) {
                Ok(sm) => {
                    let ghost before = out@;
                    out.push(sm);
                    proof {
                        let f = base + ds.subrange(0, j + 1).map_values(|d: D| (path@, d));
                        let f0 = base + ds.subrange(0, j as int).map_values(|d: D| (path@, d));
                        assert(f =~= f0.push((path@, ds[j as int])));
                        assert forall|k: int| 0 <= k < out@.len() implies
                            (#[trigger] out@[k]).matcher.path@ == f[k].0 && out@[k].data_map == Some(f[k].1) by {
                            if k < before.len() {
                                assert(out@[k] == before[k]);
                            }
                        }
                        assert forall|k: int| 0 <= k < out@.len() implies (#[trigger] out@[k]).wf() by {
                            if k < before.len() {
                                assert(out@[k] == before[k]);
                            }
                        }
                    }
                },
                Err(e) => {
                    proof {
                        assert(t0[i as int].1.len() > 0);
                        assert(!table_compiles(t0));
                    }
                    return Err(e);
                },
            }
            j = j + 1;
        }
        proof {
            let q = t0.subrange(0, i + 1);
            assert(q.drop_last() =~= t0.subrange(0, i as int));
            assert(q.last() == (path@, ds));
            assert(ds.subrange(0, m as int) =~= ds);
            assert(forall|q: int| 0 <= q < i + 1 && (#[trigger] t0[q]).1.len() > 0 ==> path_compiles(t0[q].0));
        }
        i = i + 1;
    }
    proof {
        assert(t0.subrange(0, n as int) =~= t0);
        assert(table_compiles(t0));
    }
    Ok(out)
}

/// The table after putting a data map first among those at `path`.
pub open spec fn table_put_first<D>(t: Seq<(Seq<char>, Seq<D>)>, path: Seq<char>, d: D) -> Seq<
    (Seq<char>, Seq<D>),
> {
    if exists|i: int| 0 <= i < t.len() && t[i].0 == path {
        let i = choose|i: int| 0 <= i < t.len() && t[i].0 == path;
        t.update(i, (path, seq![d] + t[i].1))
    } else {
        t.push((path, seq![d]))
    }
}

fn find_path<D>(table: &Vec<(String, Vec<D>)>, path: &String) -> (r: Option<usize>)
    requires
        table_keys_distinct(table_view(table@)),
    ensures
        r is None <==> !(exists|i: int| 0 <= i < table@.len() && table_view(table@)[i].0 == path@),
        r matches Some(i) ==> i < table@.len() && table_view(table@)[i as int].0 == path@ && i == (
        choose|j: int| 0 <= j < table@.len() && table_view(table@)[j].0 == path@),
{
    let ghost tv = table_view(table@);
    let mut i: usize = 0;
    while i < table.len()
        invariant
            i <= table@.len(),
            tv == table_view(table@),
            table_keys_distinct(tv),
            forall|j: int| 0 <= j < i ==> (#[trigger] tv[j]).0 != path@,
        decreases table@.len() - i,
    {
        if table[i].0 == *path {
            proof {
                assert(tv[i as int].0 == path@);
                let j = choose|j: int| 0 <= j < table@.len() && tv[j].0 == path@;
                assert(j == i);
            }
            return Some(i);
        }
        i = i + 1;
    }
    proof {
        assert forall|j: int| 0 <= j < table@.len() implies tv[j].0 != path@ by {
            assert(tv[j].0 != path@);
        }
    }
    None
}

/// The builder's lists, before they become a router.
pub struct BuilderInner<H, D> {
    pub pre_middlewares: Vec<PreMiddleware<H>>,
    pub routes: Vec<Route<H>>,
    pub post_middlewares: Vec<PostMiddleware<H>>,
    pub data_maps: Vec<(String, Vec<D>)>,
    pub err_handler: Option<ErrHandler<H>>,
}

impl<H, D> BuilderInner<H, D> {
    pub open spec fn wf(&self) -> bool {
        &&& pres_wf(self.pre_middlewares@)
        &&& routes_wf(self.routes@)
        &&& posts_wf(self.post_middlewares@)
        &&& table_keys_distinct(table_view(self.data_maps@))
    }

    pub open spec fn is_empty(&self) -> bool {
        &&& self.pre_middlewares@.len() == 0
        &&& self.routes@.len() == 0
        &&& self.post_middlewares@.len() == 0
        &&& self.data_maps@.len() == 0
        &&& self.err_handler is None
    }

    /// Only the routes may differ between `self` and `other`.
    pub open spec fn same_but_routes(&self, other: &Self) -> bool {
        &&& self.pre_middlewares@ == other.pre_middlewares@
        &&& self.post_middlewares@ == other.post_middlewares@
        &&& self.data_maps@ == other.data_maps@
        &&& self.err_handler == other.err_handler
    }
}

/// A builder of routers. A failed step leaves it holding the error, which
/// `build` returns.
pub struct RouterBuilder<H, D> {
    pub inner: Result<BuilderInner<H, D>, Error>,
}

impl<H, D> RouterBuilder<H, D> {
    pub open spec fn wf(&self) -> bool {
        self.inner matches Ok(b) ==> b.wf()
    }

    /// An empty builder.
    pub fn new() -> (r: RouterBuilder<H, D>)
        ensures
            r.wf(),
            r.inner matches Ok(b) && b.is_empty(),
    {
        let r = RouterBuilder {
            inner: Ok(
                BuilderInner {
                    pre_middlewares: Vec::new(),
                    routes: Vec::new(),
                    post_middlewares: Vec::new(),
                    data_maps: Vec::new(),
                    err_handler: None,
                },
            ),
        };
        proof {
            assert(table_view(Seq::<(String, Vec<D>)>::empty()) =~= Seq::empty());
        }
        r
    }

    /// Adds a route for the given methods; the path gets a trailing `/` unless
    /// it ends in `/` or `*`. The route has depth 1.
    pub fn add(self, path: String, methods: Vec<Method>, handler: H) -> (r: RouterBuilder<H, D>)
        requires
            self.wf(),
        ensures
            r.wf(),
            route_added(self.inner, r.inner, registration_path(path@), methods@, handler),
    {
        match self.inner {
            Err(e) => RouterBuilder { inner: Err(e) },
            Ok(b) => {
                let path = normalize_registration_path(path);
                match Route::new(path, methods, handler, 1) {
                    Ok(route) => {
                        let mut b = b;
                        let ghost old_routes = b.routes@;
                        b.routes.push(route);
                        proof {
                            assert(b.routes@.drop_last() =~= old_routes);
                        }
                        RouterBuilder { inner: Ok(b) }
                    },
                    Err(e) => RouterBuilder { inner: Err(e) },
                }
            },
        }
    }

    fn add_one(self, path: String, method: Method, handler: H) -> (r: RouterBuilder<H, D>)
        requires
            self.wf(),
        ensures
            r.wf(),
            route_added(self.inner, r.inner, registration_path(path@), seq![method], handler),
    {
        let m = vec![method];
        proof {
            assert(m@ =~= seq![method]);
        }
        self.add(path, m, handler)
    }

    /// Adds a `GET` route.
    pub fn get(self, path: String, handler: H) -> (r: RouterBuilder<H, D>)
        requires
            self.wf(),
        ensures
            r.wf(),
            route_added(self.inner, r.inner, registration_path(path@), seq![Method::Get], handler),
    {
        self.add_one(path, Method::Get, handler)
    }

    /// Adds a route for `GET` and `HEAD`.
    pub fn get_or_head(self, path: String, handler: H) -> (r: RouterBuilder<H, D>)
        requires
            self.wf(),
        ensures
            r.wf(),
            route_added(
                self.inner,
                r.inner,
                registration_path(path@),
                seq![Method::Get, Method::Head],
                handler,
            ),
    {
        let m = vec![Method::Get, Method::Head];
        proof {
            assert(m@ =~= seq![Method::Get, Method::Head]);
        }
        self.add(path, m, handler)
    }

    /// Adds a `POST` route.
    pub fn post(self, path: String, handler: H) -> (r: RouterBuilder<H, D>)
        requires
            self.wf(),
        ensures
            r.wf(),
            route_added(self.inner, r.inner, registration_path(path@), seq![Method::Post], handler),
    {
        self.add_one(path, Method::Post, handler)
    }

    /// Adds a `PUT` route.
    pub fn put(self, path: String, handler: H) -> (r: RouterBuilder<H, D>)
        requires
            self.wf(),
        ensures
            r.wf(),
            route_added(self.inner, r.inner, registration_path(path@), seq![Method::Put], handler),
    {
        self.add_one(path, Method::Put, handler)
    }

    /// Adds a `DELETE` route.
    pub fn delete(self, path: String, handler: H) -> (r: RouterBuilder<H, D>)
        requires
            self.wf(),
        ensures
            r.wf(),
            route_added(self.inner, r.inner, registration_path(path@), seq![Method::Delete], handler),
    {
        self.add_one(path, Method::Delete, handler)
    }

    /// Adds a `HEAD` route.
    pub fn head(self, path: String, handler: H) -> (r: RouterBuilder<H, D>)
        requires
            self.wf(),
        ensures
            r.wf(),
            route_added(self.inner, r.inner, registration_path(path@), seq![Method::Head], handler),
    {
        self.add_one(path, Method::Head, handler)
    }

    /// Adds a `TRACE` route.
    pub fn trace(self, path: String, handler: H) -> (r: RouterBuilder<H, D>)
        requires
            self.wf(),
        ensures
            r.wf(),
            route_added(self.inner, r.inner, registration_path(path@), seq![Method::Trace], handler),
    {
        self.add_one(path, Method::Trace, handler)
    }

    /// Adds a `CONNECT` route.
    pub fn connect(self, path: String, handler: H) -> (r: RouterBuilder<H, D>)
        requires
            self.wf(),
        ensures
            r.wf(),
            route_added(self.inner, r.inner, registration_path(path@), seq![Method::Connect], handler),
    {
        self.add_one(path, Method::Connect, handler)
    }

    /// Adds a `PATCH` route.
    pub fn patch(self, path: String, handler: H) -> (r: RouterBuilder<H, D>)
        requires
            self.wf(),
        ensures
            r.wf(),
            route_added(self.inner, r.inner, registration_path(path@), seq![Method::Patch], handler),
    {
        self.add_one(path, Method::Patch, handler)
    }

    /// Adds an `OPTIONS` route.
    pub fn options(self, path: String, handler: H) -> (r: RouterBuilder<H, D>)
        requires
            self.wf(),
        ensures
            r.wf(),
            route_added(self.inner, r.inner, registration_path(path@), seq![Method::Options], handler),
    {
        self.add_one(path, Method::Options, handler)
    }

    /// Adds the catch-all route: path `/*`, every method of the universal set.
    pub fn any(self, handler: H) -> (r: RouterBuilder<H, D>)
        requires
            self.wf(),
        ensures
            r.wf(),
            route_added(self.inner, r.inner, "/*"@, universal_methods(), handler),
    {
        let p = String::from_str("/*");
        proof {
            reveal_strlit("/*");
        }
        self.add(p, all_possible_http_methods(), handler)
    }

    /// Adds a route for every method of the universal set at a path.
    pub fn any_method(self, path: String, handler: H) -> (r: RouterBuilder<H, D>)
        requires
            self.wf(),
        ensures
            r.wf(),
            route_added(self.inner, r.inner, registration_path(path@), universal_methods(), handler),
    {
        self.add(path, all_possible_http_methods(), handler)
    }

    /// Adds a middleware to the pre or post list.
    pub fn middleware(self, m: Middleware<H>) -> (r: RouterBuilder<H, D>)
        requires
            self.wf(),
            m matches Middleware::Pre(p) ==> p.wf(),
            m matches Middleware::Post(p) ==> p.wf(),
        ensures
            r.wf(),
            self.inner is Err ==> r.inner == self.inner,
            self.inner matches Ok(b) ==> r.inner matches Ok(b2) && b2.routes@ == b.routes@
                && b2.data_maps@ == b.data_maps@ && b2.err_handler == b.err_handler && match m {
                Middleware::Pre(p) => b2.pre_middlewares@ == b.pre_middlewares@.push(p)
                    && b2.post_middlewares@ == b.post_middlewares@,
                Middleware::Post(p) => b2.post_middlewares@ == b.post_middlewares@.push(p)
                    && b2.pre_middlewares@ == b.pre_middlewares@,
            },
    {
        match self.inner {
            Err(e) => RouterBuilder { inner: Err(e) },
            Ok(b) => {
                let mut b = b;
                match m {
                    Middleware::Pre(p) => b.pre_middlewares.push(p),
                    Middleware::Post(p) => b.post_middlewares.push(p),
                }
                RouterBuilder { inner: Ok(b) }
            },
        }
    }

    /// Installs an error handler that takes the error alone.
    pub fn err_handler(self, handler: H) -> (r: RouterBuilder<H, D>)
        requires
            self.wf(),
        ensures
            r.wf(),
            self.inner is Err ==> r.inner == self.inner,
            self.inner matches Ok(b) ==> r.inner matches Ok(b2) && b2.err_handler == Some(
                ErrHandler { handler, with_info: false },
            ) && b2.routes@ == b.routes@ && b2.pre_middlewares@ == b.pre_middlewares@
                && b2.post_middlewares@ == b.post_middlewares@ && b2.data_maps@ == b.data_maps@,
    {
        match self.inner {
            Err(e) => RouterBuilder { inner: Err(e) },
            Ok(b) => {
                let mut b = b;
                b.err_handler = Some(ErrHandler { handler, with_info: false });
                RouterBuilder { inner: Ok(b) }
            },
        }
    }

    /// Installs an error handler that also takes the request info.
    pub fn err_handler_with_info(self, handler: H) -> (r: RouterBuilder<H, D>)
        requires
            self.wf(),
        ensures
            r.wf(),
            self.inner is Err ==> r.inner == self.inner,
            self.inner matches Ok(b) ==> r.inner matches Ok(b2) && b2.err_handler == Some(
                ErrHandler { handler, with_info: true },
            ) && b2.routes@ == b.routes@ && b2.pre_middlewares@ == b.pre_middlewares@
                && b2.post_middlewares@ == b.post_middlewares@ && b2.data_maps@ == b.data_maps@,
    {
        match self.inner {
            Err(e) => RouterBuilder { inner: Err(e) },
            Ok(b) => {
                let mut b = b;
                b.err_handler = Some(ErrHandler { handler, with_info: true });
                RouterBuilder { inner: Ok(b) }
            },
        }
    }
}

impl<H, D> RouterBuilder<H, D> {
    /// Mounts a built router under a path prefix (its trailing `/` removed).
    /// Each of its pre-middlewares, routes and post-middlewares is re-hosted
    /// here with the prefix before its path and its depth one more, after those
    /// already registered; each of its data maps is added under its prefixed
    /// path. Its error handler is not used.
    pub fn scope(self, path: String, router: Router<H, D>) -> (r: RouterBuilder<H, D>)
        requires
            self.wf(),
            router.wf(),
        ensures
            r.wf(),
            self.inner is Err ==> r.inner == self.inner,
            self.inner matches Ok(b) ==> match r.inner {
                Ok(b2) => {
                    let prefix = strip_trailing_slash(path@);
                    &&& pres_mounted(
                        b.pre_middlewares@,
                        b2.pre_middlewares@,
                        router.pre_middlewares@,
                        prefix,
                    )
                    &&& routes_mounted(b.routes@, b2.routes@, router.routes@, prefix)
                    &&& posts_mounted(
                        b.post_middlewares@,
                        b2.post_middlewares@,
                        router.post_middlewares@,
                        prefix,
                    )
                    &&& table_view(b2.data_maps@) == tables_added(
                        table_view(b.data_maps@),
                        router.scoped_data_maps@,
                        prefix,
                    )
                    &&& b2.err_handler == b.err_handler
                },
                Err(e) => scope_error(&router, strip_trailing_slash(path@)) == Some(e.kind),
            },
            self.inner is Ok ==> (r.inner is Ok <==> scope_error(
                &router,
                strip_trailing_slash(path@),
            ) is None),
    {
        match self.inner {
            Err(e) => RouterBuilder { inner: Err(e) },
            Ok(b) => {
                let prefix = strip_slash(path);
                let mut b = b;
                let mut router = router;
                match mount_pres(&mut b.pre_middlewares, &mut router.pre_middlewares, &prefix) {
                    Ok(()) => {},
                    Err(e) => {
                        return RouterBuilder { inner: Err(e) };
                    },
                }
                match mount_routes(&mut b.routes, &mut router.routes, &prefix) {
                    Ok(()) => {},
                    Err(e) => {
                        return RouterBuilder { inner: Err(e) };
                    },
                }
                match mount_posts(&mut b.post_middlewares, &mut router.post_middlewares, &prefix) {
                    Ok(()) => {},
                    Err(e) => {
                        return RouterBuilder { inner: Err(e) };
                    },
                }
                match mount_maps(&mut b.data_maps, &mut router.scoped_data_maps, &prefix) {
                    Ok(()) => {},
                    Err(e) => {
                        return RouterBuilder { inner: Err(e) };
                    },
                }
                RouterBuilder { inner: Ok(b) }
            },
        }
    }

    /// Removes and returns the first data map registered at `/*`, if there is one.
    pub fn take_root_data_map(&mut self) -> (r: Option<D>)
        requires
            old(self).wf(),
        ensures
            final(self).wf(),
            old(self).inner is Err ==> r is None && final(self).inner == old(self).inner,
            old(self).inner matches Ok(b) ==> final(self).inner matches Ok(b2) && {
                let t = table_view(b.data_maps@);
                let t2 = table_view(b2.data_maps@);
                &&& b2.pre_middlewares@ == b.pre_middlewares@
                &&& b2.routes@ == b.routes@
                &&& b2.post_middlewares@ == b.post_middlewares@
                &&& b2.err_handler == b.err_handler
                &&& if exists|i: int| 0 <= i < t.len() && t[i].0 == "/*"@ && t[i].1.len() > 0 {
                    let i = choose|i: int| 0 <= i < t.len() && t[i].0 == "/*"@ && t[i].1.len() > 0;
                    r == Some(t[i].1[0]) && t2 == t.update(i, ("/*"@, t[i].1.drop_first()))
                } else {
                    r is None && t2 == t
                }
            },
    {
        let mut inner: Result<BuilderInner<H, D>, Error> = Err(reused_error());
        std::mem::swap(&mut self.inner, &mut inner);
        match inner {
            Err(e) => {
                self.inner = Err(e);
                None
            },
            Ok(b) => {
                let mut b = b;
                let root = String::from_str("/*");
                let ghost t = table_view(b.data_maps@);
                let r = match find_path(&b.data_maps, &root) {
                    Some(i) => {
                        if b.data_maps[i].1.len() > 0 {
                            let (k, mut maps) = b.data_maps.remove(i);
                            let d = maps.remove(0);
                            b.data_maps.insert(i, (k, maps));
                            proof {
                                assert(t[i as int].0 == "/*"@);
                                let j = choose|j: int| 0 <= j < t.len() && t[j].0 == "/*"@ && t[j].1.len() > 0;
                                assert(j == i);
                                assert(table_view(b.data_maps@) =~= t.update(i as int, ("/*"@, t[i as int].1.drop_first())));
                                assert(table_keys_distinct(table_view(b.data_maps@))) by {
                                    assert forall|a: int, c: int|
                                        0 <= a < t.len() && 0 <= c < t.len() && a != c
                                        implies #[trigger] table_view(b.data_maps@)[a].0 != #[trigger] table_view(b.data_maps@)[c].0 by {
                                        assert(table_view(b.data_maps@)[a].0 == t[a].0);
                                        assert(table_view(b.data_maps@)[c].0 == t[c].0);
                                    }
                                }
                            }
                            Some(d)
                        } else {
                            proof {
                                assert forall|j: int| 0 <= j < t.len() && t[j].0 == "/*"@ implies t[j].1.len() == 0 by {
                                    assert(j == i);
                                }
                            }
                            None
                        }
                    },
                    None => None,
                };
                self.inner = Ok(b);
                r
            },
        }
    }

    /// Puts a data map first among those registered at `/*`, creating the entry if needed.
    pub fn with_root_data_map(self, d: D) -> (r: RouterBuilder<H, D>)
        requires
            self.wf(),
        ensures
            r.wf(),
            self.inner is Err ==> r.inner == self.inner,
            self.inner matches Ok(b) ==> r.inner matches Ok(b2) && b2.pre_middlewares@
                == b.pre_middlewares@ && b2.routes@ == b.routes@ && b2.post_middlewares@
                == b.post_middlewares@ && b2.err_handler == b.err_handler && table_view(
                b2.data_maps@,
            ) == table_put_first(table_view(b.data_maps@), "/*"@, d),
    {
        match self.inner {
            Err(e) => RouterBuilder { inner: Err(e) },
            Ok(b) => {
                let mut b = b;
                let root = String::from_str("/*");
                let ghost t = table_view(b.data_maps@);
                match find_path(&b.data_maps, &root) {
                    Some(i) => {
                        let (k, mut maps) = b.data_maps.remove(i);
                        let ghost m0 = maps@;
                        maps.insert(0, d);
                        b.data_maps.insert(i, (k, maps));
                        proof {
                            assert(maps@ =~= seq![d] + m0);
                            assert(table_view(b.data_maps@) =~= t.update(i as int, ("/*"@, seq![d] + t[i as int].1)));
                            assert(table_keys_distinct(table_view(b.data_maps@))) by {
                                assert forall|a: int, c: int|
                                    0 <= a < t.len() && 0 <= c < t.len() && a != c
                                    implies #[trigger] table_view(b.data_maps@)[a].0 != #[trigger] table_view(b.data_maps@)[c].0 by {
                                    assert(table_view(b.data_maps@)[a].0 == t[a].0);
                                    assert(table_view(b.data_maps@)[c].0 == t[c].0);
                                }
                            }
                        }
                    },
                    None => {
                        let mut one: Vec<D> = Vec::new();
                        one.push(d);
                        b.data_maps.push((root, one));
                        proof {
                            assert(one@ =~= seq![d]);
                            assert(table_view(b.data_maps@) =~= t.push(("/*"@, seq![d])));
                            assert(table_keys_distinct(table_view(b.data_maps@))) by {
                                let t2 = table_view(b.data_maps@);
                                assert forall|a: int, c: int|
                                    0 <= a < t2.len() && 0 <= c < t2.len() && a != c
                                    implies #[trigger] t2[a].0 != #[trigger] t2[c].0 by {
                                    if a < t.len() {
                                        assert(t2[a].0 == t[a].0);
                                    }
                                    if c < t.len() {
                                        assert(t2[c].0 == t[c].0);
                                    }
                                }
                            }
                        }
                    },
                }
                RouterBuilder { inner: Ok(b) }
            },
        }
    }

    /// Creates the router: the participants as registered, and one scoped data
    /// map per map of the table, in table order. Its pattern set is not compiled yet.
    pub fn build(self) -> (r: Result<Router<H, D>, Error>)
        requires
            self.wf(),
        ensures
            self.inner matches Err(e) ==> r == Err::<Router<H, D>, Error>(e),
            self.inner matches Ok(b) ==> (r is Ok <==> table_compiles(table_view(b.data_maps@))),
            self.inner matches Ok(b) ==> match r {
                Ok(router) => {
                    &&& router.wf()
                    &&& router.pre_middlewares@ == b.pre_middlewares@
                    &&& router.routes@ == b.routes@
                    &&& router.post_middlewares@ == b.post_middlewares@
                    &&& maps_match(router.scoped_data_maps@, flatten_table(table_view(b.data_maps@)))
                    &&& router.err_handler == b.err_handler
                    &&& router.regex_set is None
                    &&& router.should_gen_req_info is None
                },
                Err(e) => e.kind == ErrorKind::BadRoutePattern,
            },
    {
        match self.inner {
            Err(e) => Err(e),
            Ok(b) => {
                match build_maps(b.data_maps) {
                    Ok(maps) => Ok(
                        Router {
                            pre_middlewares: b.pre_middlewares,
                            routes: b.routes,
                            post_middlewares: b.post_middlewares,
                            scoped_data_maps: maps,
                            err_handler: b.err_handler,
                            regex_set: None,
                            should_gen_req_info: None,
                        },
                    ),
                    Err(e) => Err(e),
                }
            },
        }
    }
}

/// `after` is `before` with one more route, at `path`, for `methods`, with
/// `handler` and depth 1; or the error that stopped it.
pub open spec fn route_added<H, D>(
    before: Result<BuilderInner<H, D>, Error>,
    after: Result<BuilderInner<H, D>, Error>,
    path: Seq<char>,
    methods: Seq<Method>,
    handler: H,
) -> bool {
    &&& before is Err ==> after == before
    &&& before matches Ok(b) ==> match after {
        Ok(b2) => {
            &&& b2.routes@.len() == b.routes@.len() + 1
            &&& b2.routes@.drop_last() == b.routes@
            &&& b2.routes@.last().matcher.path@ == path
            &&& b2.routes@.last().methods@ == methods
            &&& b2.routes@.last().handler == Some(handler)
            &&& b2.routes@.last().scope_depth == 1
            &&& b2.same_but_routes(&b)
        },
        Err(e) => e.kind == ErrorKind::BadRoutePattern,
    }
    &&& before is Ok ==> (after is Ok <==> methods.len() > 0 && path_compiles(path))
}

} // verus!
