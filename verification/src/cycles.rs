//! Depth-first search for dependency cycles.
//!
//! Services are numbered by their place in name order; `deps[i]` lists the
//! numbers of the services that service `i` depends on.  The search visits
//! the services in order and reports the first service that it reaches
//! again while that service is still on the current path.
use vstd::prelude::*;

verus! {

/// Number of `false` marks.
pub open spec fn count_unmarked(s: Seq<bool>) -> nat
    decreases s.len(),
{
    if s.len() == 0 {
        0
    } else {
        count_unmarked(s.drop_last()) + (if s.last() {
            0nat
        } else {
            1nat
        })
    }
}

/// Marking an unmarked place leaves one fewer unmarked.
pub proof fn lemma_mark(s: Seq<bool>, i: int)
    requires
        0 <= i < s.len(),
        !s[i],
    ensures
        count_unmarked(s.update(i, true)) + 1 == count_unmarked(s),
    decreases s.len(),
{
    if i == s.len() - 1 {
        assert(s.update(i, true).drop_last() =~= s.drop_last());
    } else {
        assert(s.update(i, true).drop_last() =~= s.drop_last().update(i, true));
        lemma_mark(s.drop_last(), i);
    }
}

/// Visits service `i`: nothing to do when it is finished (or is no
/// service), a cycle when it is on the current path, otherwise its
/// dependencies in order with `i` on the path, after which `i` is finished.
pub open spec fn visit(deps: Seq<Seq<int>>, i: int, active: Seq<bool>, done: Seq<bool>) -> Result<
    Seq<bool>,
    int,
>
    decreases count_unmarked(active), 0int, 0int,
{
    if !(0 <= i < deps.len() && active.len() == deps.len()) {
        Ok(done)
    } else if 0 <= i < done.len() && done[i] {
        Ok(done)
    } else if active[i] {
        Err(i)
    } else {
        proof {
            lemma_mark(active, i);
        }
        match visit_list(deps, deps[i], active.update(i, true), done) {
            Err(e) => Err(e),
            Ok(d) => Ok(d.update(i, true)),
        }
    }
}

/// Visits the services of `list` in order.
pub open spec fn visit_list(
    deps: Seq<Seq<int>>,
    list: Seq<int>,
    active: Seq<bool>,
    done: Seq<bool>,
) -> Result<Seq<bool>, int>
    decreases count_unmarked(active), 1int, list.len(),
{
    if list.len() == 0 {
        Ok(done)
    } else {
        match visit_list(deps, list.drop_last(), active, done) {
            Err(e) => Err(e),
            Ok(d) => visit(deps, list.last(), active, d),
        }
    }
}

/// No service marked.
pub open spec fn unmarked(n: nat) -> Seq<bool> {
    Seq::new(n, |j: int| false)
}

/// Visits services `0..k` in order, each from an empty path.
pub open spec fn visit_first(deps: Seq<Seq<int>>, k: int) -> Result<Seq<bool>, int>
    decreases k,
{
    if k <= 0 {
        Ok(unmarked(deps.len()))
    } else {
        match visit_first(deps, k - 1) {
            Err(e) => Err(e),
            Ok(d) => visit(deps, k - 1, unmarked(deps.len()), d),
        }
    }
}

/// The service at which the search finds a cycle, if it finds one.
pub open spec fn find_cycle(deps: Seq<Seq<int>>) -> Option<int> {
    match visit_first(deps, deps.len() as int) {
        Err(e) => Some(e),
        Ok(_) => None,
    }
}

/// The dependency numbers as integers.
pub open spec fn graph_of(deps: Seq<Vec<usize>>) -> Seq<Seq<int>> {
    deps.map_values(|v: Vec<usize>| v@.map_values(|x: usize| x as int))
}

/// Once a dependency reports a cycle, the rest of the list reports it too.
pub proof fn lemma_list_error_sticks(
    deps: Seq<Seq<int>>,
    list: Seq<int>,
    k: int,
    active: Seq<bool>,
    done: Seq<bool>,
    e: int,
)
    requires
        0 <= k <= list.len(),
        visit_list(deps, list.take(k), active, done) == Err::<Seq<bool>, int>(e),
    ensures
        visit_list(deps, list, active, done) == Err::<Seq<bool>, int>(e),
    decreases list.len() - k,
{
    if k < list.len() {
        assert(list.take(k + 1).drop_last() =~= list.take(k));
        lemma_list_error_sticks(deps, list, k + 1, active, done, e);
    } else {
        assert(list.take(k) =~= list);
    }
}

fn visit_exec(
    deps: &Vec<Vec<usize>>,
    i: usize,
    active: &mut Vec<bool>,
    done: &mut Vec<bool>,
) -> (r: Result<(), usize>)
    requires
        old(active)@.len() == deps@.len(),
        old(done)@.len() == deps@.len(),
    ensures
        match r {
            Ok(_) => {
                &&& visit(graph_of(deps@), i as int, old(active)@, old(done)@) == Ok::<
                    Seq<bool>,
                    int,
                >(final(done)@)
                &&& final(active)@ == old(active)@
                &&& final(done)@.len() == deps@.len()
            },
            Err(e) => {
                &&& visit(graph_of(deps@), i as int, old(active)@, old(done)@) == Err::<
                    Seq<bool>,
                    int,
                >(e as int)
                &&& e < deps@.len()
            },
        },
    decreases count_unmarked(old(active)@), 0int, 0int,
{
    let ghost g = graph_of(deps@);
    if i >= deps.len() {
        return Ok(());
    }
    if done[i] {
        return Ok(());
    }
    if active[i] {
        return Err(i);
    }
    proof {
        lemma_mark(active@, i as int);
    }
    active.set(i, true);
    let ghost act1 = active@;
    let ghost done0 = done@;
    assert(act1 =~= old(active)@.update(i as int, true));
    assert(done0 == old(done)@);
    let list = &deps[i];
    let ghost lv = g[i as int];
    assert(lv == list@.map_values(|x: usize| x as int));
    let mut k: usize = 0;
    assert(lv.take(0) =~= Seq::<int>::empty());
    while k < list.len()
        invariant
            k <= list.len(),
            g == graph_of(deps@),
            lv == list@.map_values(|x: usize| x as int),
            active@ == act1,
            act1.len() == deps@.len(),
            done@.len() == deps@.len(),
            count_unmarked(act1) < count_unmarked(old(active)@),
            act1 == old(active)@.update(i as int, true),
            lv == g[i as int],
            old(active)@.len() == deps@.len(),
            old(done)@.len() == deps@.len(),
            done0 == old(done)@,
            i < deps@.len(),
            !old(active)@[i as int],
            !old(done)@[i as int],
            visit_list(g, lv.take(k as int), act1, done0) == Ok::<Seq<bool>, int>(done@),
        decreases list.len() - k,
    {
        assert(lv.take(k + 1).drop_last() =~= lv.take(k as int));
        assert(lv.take(k + 1).last() == list@[k as int] as int);
        match visit_exec(deps, list[k], active, done) {
            Err(e) => {
                proof {
                    lemma_list_error_sticks(g, lv, k + 1, act1, done0, e as int);
                }
                return Err(e);
            },
            Ok(_) => {},
        }
        k = k + 1;
    }
    assert(lv.take(list.len() as int) =~= lv);
    active.set(i, false);
    assert(active@ =~= old(active)@);
    done.set(i, true);
    Ok(())
}

/// Searches the whole graph; the number of the service at which a cycle
/// shows, if there is one.
pub fn detect_cycle(deps: &Vec<Vec<usize>>) -> (r: Option<usize>)
    ensures
        match r {
            Some(e) => find_cycle(graph_of(deps@)) == Some(e as int) && e < deps@.len(),
            None => find_cycle(graph_of(deps@)) is None,
        },
{
    let ghost g = graph_of(deps@);
    let n = deps.len();
    let mut active: Vec<bool> = Vec::new();
    let mut done: Vec<bool> = Vec::new();
    let mut j: usize = 0;
    while j < n
        invariant
            j <= n,
            n == deps@.len(),
            active@ == Seq::new(j as nat, |x: int| false),
            done@ == Seq::new(j as nat, |x: int| false),
        decreases n - j,
    {
        active.push(false);
        done.push(false);
        assert(active@ =~= Seq::new((j + 1) as nat, |x: int| false));
        assert(done@ =~= Seq::new((j + 1) as nat, |x: int| false));
        j = j + 1;
    }
    assert(active@ =~= unmarked(g.len()));
    let mut k: usize = 0;
    while k < n
        invariant
            k <= n,
            n == deps@.len(),
            g == graph_of(deps@),
            active@ == unmarked(g.len()),
            done@.len() == n,
            visit_first(g, k as int) == Ok::<Seq<bool>, int>(done@),
        decreases n - k,
    {
        match visit_exec(deps, k, &mut active, &mut done) {
            Err(e) => {
                proof {
                    lemma_first_error_sticks(g, k as int + 1, e as int);
                }
                return Some(e);
            },
            Ok(_) => {},
        }
        k = k + 1;
    }
    None
}

/// Once a service reports a cycle, the search reports it too.
pub proof fn lemma_first_error_sticks(deps: Seq<Seq<int>>, k: int, e: int)
    requires
        0 <= k <= deps.len(),
        visit_first(deps, k) == Err::<Seq<bool>, int>(e),
    ensures
        visit_first(deps, deps.len() as int) == Err::<Seq<bool>, int>(e),
    decreases deps.len() - k,
{
    if k < deps.len() {
        lemma_first_error_sticks(deps, k + 1, e);
    }
}

/// `g` has an edge from `a` to `b`: both are services and `a` depends on
/// `b`.
pub open spec fn edge(g: Seq<Seq<int>>, a: int, b: int) -> bool {
    0 <= a < g.len() && 0 <= b < g.len() && g[a].contains(b)
}

/// `p` is a walk along the edges of `g`.
pub open spec fn is_walk(g: Seq<Seq<int>>, p: Seq<int>) -> bool {
    &&& p.len() >= 1
    &&& forall|k: int| 0 <= k < p.len() ==> 0 <= #[trigger] p[k] < g.len()
    &&& forall|k: int| 0 <= k < p.len() - 1 ==> edge(g, #[trigger] p[k], p[k + 1])
}

/// `p` is a walk of at least one edge that ends where it began.
pub open spec fn is_cycle(g: Seq<Seq<int>>, p: Seq<int>) -> bool {
    is_walk(g, p) && p.len() >= 2 && p[0] == p.last()
}

/// No service depends on itself, directly or through others.
pub open spec fn acyclic(g: Seq<Seq<int>>) -> bool {
    forall|p: Seq<int>| !is_cycle(g, p)
}

/// Every dependency of a finished service is finished.
pub open spec fn closed(g: Seq<Seq<int>>, done: Seq<bool>) -> bool {
    forall|a: int, b: int| #[trigger] edge(g, a, b) && done[a] ==> done[b]
}

/// No cycle runs through finished services only.
pub open spec fn done_acyclic(g: Seq<Seq<int>>, done: Seq<bool>) -> bool {
    forall|p: Seq<int>|
        #[trigger] is_cycle(g, p) ==> exists|k: int| 0 <= k < p.len() && !done[#[trigger] p[k]]
}

/// What stays true of the finished marks while the search runs.
pub open spec fn finished_ok(g: Seq<Seq<int>>, done: Seq<bool>) -> bool {
    done.len() == g.len() && closed(g, done) && done_acyclic(g, done)
}

/// `d` marks at least what `done` marks.
pub open spec fn grows(g: Seq<Seq<int>>, done: Seq<bool>, d: Seq<bool>) -> bool {
    forall|x: int| 0 <= x < g.len() && done[x] ==> #[trigger] d[x]
}

/// From a finished service, a walk only reaches finished services.
pub proof fn lemma_walk_finished(g: Seq<Seq<int>>, done: Seq<bool>, p: Seq<int>, k: int)
    requires
        closed(g, done),
        is_walk(g, p),
        done[p[0]],
        0 <= k < p.len(),
    ensures
        done[p[k]],
    decreases k,
{
    if k > 0 {
        lemma_walk_finished(g, done, p, k - 1);
        assert(edge(g, p[k - 1], p[k]));
    }
}

/// Finishing a service whose dependencies are all finished keeps the
/// finished marks closed and free of cycles.
pub proof fn lemma_finish(g: Seq<Seq<int>>, d: Seq<bool>, i: int)
    requires
        finished_ok(g, d),
        0 <= i < g.len(),
        forall|b: int| edge(g, i, b) ==> d[b],
    ensures
        finished_ok(g, d.update(i, true)),
{
    let d2 = d.update(i, true);
    assert forall|a: int, b: int| #[trigger] edge(g, a, b) && d2[a] implies d2[b] by {
        if a != i {
            assert(d[a]);
        }
    }
    if !d[i] {
        assert forall|p: Seq<int>| #[trigger] is_cycle(g, p) implies exists|k: int|
            0 <= k < p.len() && !d2[#[trigger] p[k]] by {
            if forall|k: int| 0 <= k < p.len() ==> d2[#[trigger] p[k]] {
                if exists|k: int| 0 <= k < p.len() && #[trigger] p[k] == i {
                    let k0 = choose|k: int| 0 <= k < p.len() && #[trigger] p[k] == i;
                    let k = if k0 == p.len() - 1 {
                        0
                    } else {
                        k0
                    };
                    assert(p[k] == i);
                    assert(edge(g, p[k], p[k + 1]));
                    assert(d[p[k + 1]]);
                    let tail = p.skip(k + 1);
                    assert(is_walk(g, tail)) by {
                        assert forall|m: int| 0 <= m < tail.len() - 1 implies edge(
                            g,
                            #[trigger] tail[m],
                            tail[m + 1],
                        ) by {
                            assert(tail[m] == p[m + k + 1]);
                            assert(tail[m + 1] == p[m + k + 2]);
                        }
                    }
                    lemma_walk_finished(g, d, tail, tail.len() - 1);
                    assert(tail[tail.len() - 1] == p[0]);
                    lemma_walk_finished(g, d, p, k);
                } else {
                    let k = choose|k: int| 0 <= k < p.len() && !d[#[trigger] p[k]];
                    assert(d2[p[k]]);
                }
            }
        }
    } else {
        assert(d2 =~= d);
    }
}

/// A successful visit only finishes more services, keeps the finished
/// marks closed and free of cycles, and finishes the visited service.
pub proof fn lemma_visit_ok(g: Seq<Seq<int>>, i: int, active: Seq<bool>, done: Seq<bool>)
    requires
        finished_ok(g, done),
        active.len() == g.len(),
    ensures
        visit(g, i, active, done) is Ok ==> {
            let d = visit(g, i, active, done)->Ok_0;
            &&& finished_ok(g, d)
            &&& grows(g, done, d)
            &&& (0 <= i < g.len() ==> d[i])
        },
    decreases count_unmarked(active), 0int, 0int,
{
    if !(0 <= i < g.len() && active.len() == g.len()) {
    } else if 0 <= i < done.len() && done[i] {
    } else if active[i] {
    } else {
        lemma_mark(active, i);
        let act = active.update(i, true);
        lemma_visit_list_ok(g, g[i], act, done);
        if visit_list(g, g[i], act, done) is Ok {
            let d = visit_list(g, g[i], act, done)->Ok_0;
            assert forall|b: int| edge(g, i, b) implies d[b] by {
                let j = choose|j: int| 0 <= j < g[i].len() && g[i][j] == b;
            }
            lemma_finish(g, d, i);
        }
    }
}

/// A successful visit of a list finishes every service of the list.
pub proof fn lemma_visit_list_ok(
    g: Seq<Seq<int>>,
    list: Seq<int>,
    active: Seq<bool>,
    done: Seq<bool>,
)
    requires
        finished_ok(g, done),
        active.len() == g.len(),
    ensures
        visit_list(g, list, active, done) is Ok ==> {
            let d = visit_list(g, list, active, done)->Ok_0;
            &&& finished_ok(g, d)
            &&& grows(g, done, d)
            &&& forall|j: int| 0 <= j < list.len() && 0 <= list[j] < g.len() ==> d[#[trigger] list[j]]
        },
    decreases count_unmarked(active), 1int, list.len(),
{
    if list.len() > 0 {
        lemma_visit_list_ok(g, list.drop_last(), active, done);
        if visit_list(g, list.drop_last(), active, done) is Ok {
            let d1 = visit_list(g, list.drop_last(), active, done)->Ok_0;
            lemma_visit_ok(g, list.last(), active, d1);
            if visit(g, list.last(), active, d1) is Ok {
                let d = visit(g, list.last(), active, d1)->Ok_0;
                assert forall|j: int| 0 <= j < list.len() && 0 <= list[j] < g.len() implies d[#[trigger] list[j]] by {
                    if j < list.len() - 1 {
                        assert(list[j] == list.drop_last()[j]);
                    }
                }
            }
        }
    }
}

/// A search of the first services that finds no cycle finishes them all.
pub proof fn lemma_visit_first_ok(g: Seq<Seq<int>>, k: int)
    requires
        0 <= k <= g.len(),
    ensures
        visit_first(g, k) is Ok ==> {
            let d = visit_first(g, k)->Ok_0;
            &&& finished_ok(g, d)
            &&& forall|x: int| 0 <= x < k ==> #[trigger] d[x]
        },
    decreases k,
{
    if k <= 0 {
        let d = unmarked(g.len());
        assert forall|p: Seq<int>| #[trigger] is_cycle(g, p) implies exists|m: int|
            0 <= m < p.len() && !d[#[trigger] p[m]] by {
            assert(!d[p[0]]);
        }
    } else {
        lemma_visit_first_ok(g, k - 1);
        if visit_first(g, k - 1) is Ok {
            let d1 = visit_first(g, k - 1)->Ok_0;
            lemma_visit_ok(g, k - 1, unmarked(g.len()), d1);
        }
    }
}

/// When the search finds no cycle, there is none: no service depends on
/// itself, directly or through others.
pub proof fn lemma_no_cycle_found_acyclic(g: Seq<Seq<int>>)
    requires
        find_cycle(g) is None,
    ensures
        acyclic(g),
{
    lemma_visit_first_ok(g, g.len() as int);
    let d = visit_first(g, g.len() as int)->Ok_0;
    assert forall|p: Seq<int>| !is_cycle(g, p) by {
        if is_cycle(g, p) {
            let k = choose|k: int| 0 <= k < p.len() && !d[#[trigger] p[k]];
            assert(0 <= p[k] < g.len());
        }
    }
}

/// The services marked as on the current path are those of `stack`, a
/// walk of `g`.
pub open spec fn path_marks(g: Seq<Seq<int>>, active: Seq<bool>, stack: Seq<int>) -> bool {
    &&& active.len() == g.len()
    &&& forall|x: int| 0 <= x < g.len() ==> (active[x] <==> stack.contains(x))
    &&& stack.len() > 0 ==> is_walk(g, stack)
}

/// A cycle through `e` exists.
pub open spec fn on_cycle(g: Seq<Seq<int>>, e: int) -> bool {
    exists|p: Seq<int>| #[trigger] is_cycle(g, p) && p[0] == e
}

/// A visit that reports a cycle reports a service that lies on one.
pub proof fn lemma_visit_err(
    g: Seq<Seq<int>>,
    i: int,
    active: Seq<bool>,
    done: Seq<bool>,
    stack: Seq<int>,
)
    requires
        path_marks(g, active, stack),
        0 <= i < g.len() && stack.len() > 0 ==> edge(g, stack.last(), i),
    ensures
        visit(g, i, active, done) matches Err(e) ==> on_cycle(g, e),
    decreases count_unmarked(active), 0int, 0int,
{
    if !(0 <= i < g.len() && active.len() == g.len()) {
    } else if 0 <= i < done.len() && done[i] {
    } else if active[i] {
        assert(stack.contains(i));
        let t = choose|t: int| 0 <= t < stack.len() && stack[t] == i;
        let p = stack.skip(t).push(i);
        assert forall|k: int| 0 <= k < p.len() implies 0 <= #[trigger] p[k] < g.len() by {
            if k < p.len() - 1 {
                assert(p[k] == stack[k + t]);
            }
        }
        assert forall|k: int| 0 <= k < p.len() - 1 implies edge(g, #[trigger] p[k], p[k + 1]) by {
            assert(p[k] == stack[k + t]);
            if k < p.len() - 2 {
                assert(p[k + 1] == stack[k + t + 1]);
            } else {
                assert(p[k + 1] == i);
                assert(stack[k + t] == stack.last());
            }
        }
        assert(is_cycle(g, p));
    } else {
        lemma_mark(active, i);
        let act = active.update(i, true);
        let st = stack.push(i);
        assert(path_marks(g, act, st)) by {
            assert forall|x: int| 0 <= x < g.len() implies (act[x] <==> st.contains(x)) by {
                if x == i {
                    assert(st[st.len() - 1] == i);
                } else {
                    if st.contains(x) {
                        let q = choose|q: int| 0 <= q < st.len() && st[q] == x;
                        assert(stack[q] == x);
                    }
                    if stack.contains(x) {
                        let q = choose|q: int| 0 <= q < stack.len() && stack[q] == x;
                        assert(st[q] == x);
                    }
                }
            }
            assert forall|k: int| 0 <= k < st.len() implies 0 <= #[trigger] st[k] < g.len() by {
                if k < stack.len() {
                    assert(st[k] == stack[k]);
                }
            }
            assert forall|k: int| 0 <= k < st.len() - 1 implies edge(g, #[trigger] st[k], st[k + 1]) by {
                assert(st[k] == stack[k]);
                if k < stack.len() - 1 {
                    assert(st[k + 1] == stack[k + 1]);
                }
            }
        }
        lemma_visit_list_err(g, g[i], act, done, st);
    }
}

/// A visit of a dependency list that reports a service reports one on a cycle.
pub proof fn lemma_visit_list_err(
    g: Seq<Seq<int>>,
    list: Seq<int>,
    active: Seq<bool>,
    done: Seq<bool>,
    stack: Seq<int>,
)
    requires
        path_marks(g, active, stack),
        stack.len() > 0,
        0 <= stack.last() < g.len(),
        list == g[stack.last()],
    ensures
        visit_list(g, list, active, done) matches Err(e) ==> on_cycle(g, e),
    decreases count_unmarked(active), 1int, list.len() + 1,
{
    lemma_visit_list_err_prefix(g, list, list.len() as int, active, done, stack);
    assert(list.take(list.len() as int) =~= list);
}

/// A visit of a prefix of a dependency list that reports a service reports
/// one on a cycle.
pub proof fn lemma_visit_list_err_prefix(
    g: Seq<Seq<int>>,
    list: Seq<int>,
    k: int,
    active: Seq<bool>,
    done: Seq<bool>,
    stack: Seq<int>,
)
    requires
        path_marks(g, active, stack),
        stack.len() > 0,
        0 <= stack.last() < g.len(),
        list == g[stack.last()],
        0 <= k <= list.len(),
    ensures
        visit_list(g, list.take(k), active, done) matches Err(e) ==> on_cycle(g, e),
    decreases count_unmarked(active), 1int, k,
{
    if k > 0 {
        assert(list.take(k).drop_last() =~= list.take(k - 1));
        lemma_visit_list_err_prefix(g, list, k - 1, active, done, stack);
        if visit_list(g, list.take(k - 1), active, done) is Ok {
            let d1 = visit_list(g, list.take(k - 1), active, done)->Ok_0;
            let j = list[k - 1];
            assert(list.take(k).last() == j);
            if 0 <= j < g.len() {
                assert(g[stack.last()].contains(j));
            }
            lemma_visit_err(g, j, active, d1, stack);
        }
    }
}

/// A search that reports a cycle reports a service that lies on one.
pub proof fn lemma_visit_first_err(g: Seq<Seq<int>>, k: int)
    ensures
        visit_first(g, k) matches Err(e) ==> on_cycle(g, e),
    decreases k,
{
    if k > 0 {
        lemma_visit_first_err(g, k - 1);
        if visit_first(g, k - 1) is Ok {
            let d1 = visit_first(g, k - 1)->Ok_0;
            let empty = Seq::<int>::empty();
            assert(path_marks(g, unmarked(g.len()), empty));
            lemma_visit_err(g, k - 1, unmarked(g.len()), d1, empty);
        }
    }
}

/// The search reports no cycle exactly when there is none, and a service
/// it reports lies on a cycle.
pub proof fn lemma_find_cycle_exact(g: Seq<Seq<int>>)
    ensures
        find_cycle(g) is None <==> acyclic(g),
        find_cycle(g) matches Some(e) ==> on_cycle(g, e),
{
    lemma_visit_first_err(g, g.len() as int);
    if find_cycle(g) is None {
        lemma_no_cycle_found_acyclic(g);
    } else {
        let e = find_cycle(g)->0;
        let p = choose|p: Seq<int>| #[trigger] is_cycle(g, p) && p[0] == e;
        assert(!acyclic(g));
    }
}

} // verus!
