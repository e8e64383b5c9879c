//! The graph of imports between files, kept free of cycles.

use std::collections::HashMap;
use std::hash::Hash;

use vstd::prelude::*;
use vstd::std_specs::cmp::PartialEqSpec;

verus! {

/// `Ident` can key a hash table, and its `==` means equality.
pub open spec fn lawful<Ident: Eq + Hash>() -> bool {
    &&& vstd::std_specs::hash::obeys_key_model::<Ident>()
    &&& Ident::obeys_eq_spec()
    &&& forall|x: Ident, y: Ident| #[trigger] x.eq_spec(&y) <==> x == y
}

/// What is recorded at `at`, oldest first.
pub open spec fn listed<Ident>(links: Map<Ident, Seq<Ident>>, at: Ident) -> Seq<Ident> {
    if links.contains_key(at) {
        links[at]
    } else {
        Seq::empty()
    }
}

/// `to` is recorded at `from`.
pub open spec fn linked<Ident>(links: Map<Ident, Seq<Ident>>, from: Ident, to: Ident) -> bool {
    listed(links, from).contains(to)
}

/// `links` after one more record at `from`.
pub open spec fn with_link<Ident>(
    links: Map<Ident, Seq<Ident>>,
    from: Ident,
    to: Ident,
) -> Map<Ident, Seq<Ident>> {
    links.insert(from, listed(links, from).push(to))
}

/// Each member of `path` but the first is recorded at the member before it.
pub open spec fn is_chain<Ident>(links: Map<Ident, Seq<Ident>>, path: Seq<Ident>) -> bool {
    &&& path.len() > 0
    &&& forall|i: int, j: int|
        0 <= i && j == i + 1 && j < path.len() ==> linked(
            links,
            #[trigger] path[i],
            #[trigger] path[j],
        )
}

/// `path` is a chain that starts at `from` and ends at `to`.
pub open spec fn chain_between<Ident>(
    links: Map<Ident, Seq<Ident>>,
    path: Seq<Ident>,
    from: Ident,
    to: Ident,
) -> bool {
    &&& is_chain(links, path)
    &&& path[0] == from
    &&& path.last() == to
}

/// Some chain leads from `from` to `to`.
pub open spec fn reaches<Ident>(links: Map<Ident, Seq<Ident>>, from: Ident, to: Ident) -> bool {
    exists|path: Seq<Ident>| chain_between(links, path, from, to)
}

/// No chain of two members or more comes back to where it started.
pub open spec fn acyclic<Ident>(links: Map<Ident, Seq<Ident>>) -> bool {
    forall|path: Seq<Ident>|
        #[trigger] is_chain(links, path) && path.len() >= 2 ==> path[0] != path.last()
}

/// `to` is the most recent record at `from` that leads to `goal`.
pub open spec fn latest_step<Ident>(
    links: Map<Ident, Seq<Ident>>,
    from: Ident,
    to: Ident,
    goal: Ident,
) -> bool {
    exists|k: int|
        #![trigger listed(links, from)[k]]
        0 <= k < listed(links, from).len() && listed(links, from)[k] == to && forall|m: int|
            k < m < listed(links, from).len() ==> !reaches(
                links,
                #[trigger] listed(links, from)[m],
                goal,
            )
}

/// Every step of `path` is the most recent one that leads to `goal`.
pub open spec fn follows_latest<Ident>(
    links: Map<Ident, Seq<Ident>>,
    path: Seq<Ident>,
    goal: Ident,
) -> bool {
    forall|i: int, j: int|
        0 <= i && j == i + 1 && j < path.len() ==> latest_step(
            links,
            #[trigger] path[i],
            #[trigger] path[j],
            goal,
        )
}

/// `rank` puts every file before those that are recorded at it.
pub open spec fn in_order<Ident>(
    links: Map<Ident, Seq<Ident>>,
    rank: spec_fn(Ident) -> int,
) -> bool {
    forall|a: Ident, i: int|
        #![trigger links[a][i]]
        links.contains_key(a) && 0 <= i < links[a].len() ==> rank(a) < rank(links[a][i])
}

/// `rank` grows along every link.
spec fn ranks<Ident>(links: Map<Ident, Seq<Ident>>, rank: spec_fn(Ident) -> int) -> bool {
    forall|a: Ident, b: Ident| #[trigger] linked(links, a, b) ==> rank(a) < rank(b)
}

/// Every link is recorded as often in one direction as in the other.
pub open spec fn mirrored<Ident>(
    forward: Map<Ident, Seq<Ident>>,
    backward: Map<Ident, Seq<Ident>>,
) -> bool {
    forall|a: Ident, b: Ident|
        #![trigger listed(forward, a).to_multiset().count(b)]
        #![trigger listed(backward, b).to_multiset().count(a)]
        listed(forward, a).to_multiset().count(b) == listed(backward, b).to_multiset().count(a)
}

/// Members of a chain rank in the order in which they stand.
proof fn lemma_rank_grows<Ident>(
    links: Map<Ident, Seq<Ident>>,
    rank: spec_fn(Ident) -> int,
    path: Seq<Ident>,
    i: int,
    j: int,
)
    requires
        ranks(links, rank),
        is_chain(links, path),
        0 <= i < j < path.len(),
    ensures
        rank(path[i]) < rank(path[j]),
    decreases j - i,
{
    assert(linked(links, path[j - 1], path[j]));
    if i < j - 1 {
        lemma_rank_grows(links, rank, path, i, j - 1);
    }
}

/// A chain visits nothing twice, and all but its last member have records.
proof fn lemma_chain_len<Ident>(
    links: Map<Ident, Seq<Ident>>,
    rank: spec_fn(Ident) -> int,
    path: Seq<Ident>,
)
    requires
        ranks(links, rank),
        is_chain(links, path),
        links.dom().finite(),
    ensures
        path.len() <= links.dom().len() + 1,
{
    let inner = path.drop_last();
    assert forall|i: int, j: int| 0 <= i < inner.len() && 0 <= j < inner.len() && i != j implies inner[i]
        != inner[j] by {
        if i < j {
            lemma_rank_grows(links, rank, path, i, j);
        } else {
            lemma_rank_grows(links, rank, path, j, i);
        }
    }
    inner.unique_seq_to_set();
    assert forall|x: Ident| inner.to_set().contains(x) implies links.dom().contains(x) by {
        let i = choose|i: int| 0 <= i < inner.len() && inner[i] == x;
        assert(linked(links, path[i], path[i + 1]));
    }
    vstd::set_lib::lemma_len_subset(inner.to_set(), links.dom());
}

/// A ranked graph is acyclic.
proof fn lemma_ranked_is_acyclic<Ident>(
    links: Map<Ident, Seq<Ident>>,
    rank: spec_fn(Ident) -> int,
)
    requires
        ranks(links, rank),
    ensures
        acyclic(links),
{
    assert forall|path: Seq<Ident>| #[trigger]
        is_chain(links, path) && path.len() >= 2 implies path[0] != path.last() by {
        lemma_rank_grows(links, rank, path, 0, path.len() - 1);
    }
}

/// A chain grows by a link at its end.
proof fn lemma_chain_push<Ident>(links: Map<Ident, Seq<Ident>>, path: Seq<Ident>, next: Ident)
    requires
        is_chain(links, path),
        linked(links, path.last(), next),
    ensures
        is_chain(links, path.push(next)),
{
}

/// A link that closes no cycle keeps the graph ranked: everything behind the new link moves up.
proof fn lemma_new_link_ranked<Ident>(
    links: Map<Ident, Seq<Ident>>,
    rank: spec_fn(Ident) -> int,
    from: Ident,
    to: Ident,
) -> (raised: spec_fn(Ident) -> int)
    requires
        ranks(links, rank),
        !reaches(links, to, from),
    ensures
        ranks(with_link(links, from, to), raised),
{
    let shift: int = if rank(from) >= rank(to) {
        rank(from) - rank(to) + 1
    } else {
        0
    };
    let raised = |x: Ident|
        if reaches(links, to, x) {
            rank(x) + shift
        } else {
            rank(x)
        };
    let more = with_link(links, from, to);
    assert forall|a: Ident, b: Ident| #[trigger] linked(more, a, b) implies raised(a) < raised(b) by {
        let k = choose|k: int| 0 <= k < listed(more, a).len() && listed(more, a)[k] == b;
        if a == from && k == listed(links, from).len() {
            assert(chain_between(links, seq![to], to, to));
        } else {
            assert(listed(links, a)[k] == b);
            assert(linked(links, a, b));
            if reaches(links, to, a) {
                let path = choose|path: Seq<Ident>| chain_between(links, path, to, a);
                lemma_chain_push(links, path, b);
                assert(chain_between(links, path.push(b), to, b));
            }
        }
    }
    raised
}

/// `route` picks, step by step, a position in what is recorded at the member reached so far.
spec fn is_route<Ident>(links: Map<Ident, Seq<Ident>>, start: Ident, route: Seq<int>) -> bool
    decreases route.len(),
{
    route.len() == 0 || {
        &&& is_route(links, start, route.drop_last())
        &&& 0 <= route.last() < listed(links, members(links, start, route.drop_last()).last()).len()
    }
}

/// The members that `route` visits, the start among them.
spec fn members<Ident>(links: Map<Ident, Seq<Ident>>, start: Ident, route: Seq<int>) -> Seq<Ident>
    decreases route.len(),
{
    if route.len() == 0 {
        seq![start]
    } else {
        let before = members(links, start, route.drop_last());
        before.push(listed(links, before.last())[route.last()])
    }
}

/// The route `a` comes before the route `b`: where they part, `a` picks a later record.
spec fn picks_later(a: Seq<int>, b: Seq<int>) -> bool {
    exists|d: int|
        #![trigger a[d]]
        #![trigger b[d]]
        0 <= d < a.len() && d < b.len() && a.take(d) == b.take(d) && a[d] > b[d]
}

/// A route visits a chain, one member longer than the route.
proof fn lemma_route_is_chain<Ident>(
    links: Map<Ident, Seq<Ident>>,
    start: Ident,
    route: Seq<int>,
)
    requires
        is_route(links, start, route),
    ensures
        is_chain(links, members(links, start, route)),
        members(links, start, route).len() == route.len() + 1,
        members(links, start, route)[0] == start,
    decreases route.len(),
{
    if route.len() > 0 {
        lemma_route_is_chain(links, start, route.drop_last());
        let before = members(links, start, route.drop_last());
        assert(linked(links, before.last(), listed(links, before.last())[route.last()]));
        lemma_chain_push(links, before, listed(links, before.last())[route.last()]);
    }
}

/// The first steps of a route are a route, and visit the first members.
proof fn lemma_route_take<Ident>(
    links: Map<Ident, Seq<Ident>>,
    start: Ident,
    route: Seq<int>,
    n: int,
)
    requires
        is_route(links, start, route),
        0 <= n <= route.len(),
    ensures
        is_route(links, start, route.take(n)),
        members(links, start, route.take(n)) == members(links, start, route).take(n + 1),
    decreases route.len(),
{
    lemma_route_is_chain(links, start, route);
    if n == route.len() {
        assert(route.take(n) == route);
        assert(members(links, start, route).take(n + 1) == members(links, start, route));
    } else {
        lemma_route_is_chain(links, start, route.drop_last());
        lemma_route_take(links, start, route.drop_last(), n);
        assert(route.drop_last().take(n) == route.take(n));
        assert(members(links, start, route.drop_last()).take(n + 1) == members(
            links,
            start,
            route,
        ).take(n + 1));
    }
}

/// A route can be followed on along any chain that starts where it ends.
proof fn lemma_route_along<Ident>(
    links: Map<Ident, Seq<Ident>>,
    start: Ident,
    route: Seq<int>,
    chain: Seq<Ident>,
) -> (longer: Seq<int>)
    requires
        is_route(links, start, route),
        is_chain(links, chain),
        chain[0] == members(links, start, route).last(),
    ensures
        is_route(links, start, longer),
        longer.len() >= route.len(),
        longer.take(route.len() as int) == route,
        members(links, start, longer).last() == chain.last(),
    decreases chain.len(),
{
    if chain.len() == 1 {
        assert(route.take(route.len() as int) == route);
        route
    } else {
        let shorter = chain.drop_last();
        let before = lemma_route_along(links, start, route, shorter);
        let at = shorter.last();
        assert(linked(links, chain[chain.len() - 2], chain[chain.len() - 1]));
        let k = choose|k: int|
            0 <= k < listed(links, at).len() && listed(links, at)[k] == chain.last();
        let longer = before.push(k);
        assert(longer.drop_last() == before);
        assert(longer.take(route.len() as int) == before.take(route.len() as int));
        longer
    }
}

/// How many routes of at most `fuel` steps start at `at`.
spec fn route_count<Ident>(links: Map<Ident, Seq<Ident>>, at: Ident, fuel: nat) -> nat
    decreases fuel, 0nat,
{
    if fuel == 0 {
        1
    } else {
        1 + route_counts(links, listed(links, at), (fuel - 1) as nat)
    }
}

/// The sum of `route_count` over `starts`.
spec fn route_counts<Ident>(
    links: Map<Ident, Seq<Ident>>,
    starts: Seq<Ident>,
    fuel: nat,
) -> nat
    decreases fuel, starts.len(),
{
    if starts.len() == 0 {
        0
    } else {
        route_counts(links, starts.drop_last(), fuel) + route_count(links, starts.last(), fuel)
    }
}

/// The work that a stack of paths stands for, where no chain is longer than `bound`.
spec fn pending<Ident>(
    links: Map<Ident, Seq<Ident>>,
    stack: Seq<Vec<Ident>>,
    bound: nat,
) -> nat
    decreases stack.len(),
{
    if stack.len() == 0 {
        0
    } else {
        pending(links, stack.drop_last(), bound) + route_count(
            links,
            stack.last()@.last(),
            (bound - stack.last()@.len()) as nat,
        )
    }
}

/// `prefix` is how `route` begins.
spec fn begins_with(route: Seq<int>, prefix: Seq<int>) -> bool {
    prefix.len() <= route.len() && route.take(prefix.len() as int) == prefix
}

/// `routes` lead to the paths on `stack`, the later picks on top, and every route to `goal`
/// begins with one of them.
spec fn searching<Ident>(
    links: Map<Ident, Seq<Ident>>,
    root: Ident,
    goal: Ident,
    stack: Seq<Vec<Ident>>,
    routes: Seq<Seq<int>>,
) -> bool {
    &&& routes.len() == stack.len()
    &&& forall|j: int|
        #![trigger stack[j]]
        #![trigger routes[j]]
        0 <= j < stack.len() ==> is_route(links, root, routes[j]) && members(
            links,
            root,
            routes[j],
        ) == stack[j]@
    &&& forall|i: int, j: int|
        0 <= i < j < routes.len() ==> picks_later(#[trigger] routes[j], #[trigger] routes[i])
    &&& forall|route: Seq<int>|
        is_route(links, root, route) && #[trigger] members(links, root, route).last() == goal
            ==> exists|j: int|
            0 <= j < routes.len() && begins_with(route, #[trigger] routes[j])
}

/// The path on top of the stack, once it ends at the goal, takes the latest step throughout.
proof fn lemma_found<Ident>(
    links: Map<Ident, Seq<Ident>>,
    root: Ident,
    goal: Ident,
    stack: Seq<Vec<Ident>>,
    routes: Seq<Seq<int>>,
)
    requires
        searching(links, root, goal, stack, routes),
        stack.len() > 0,
        stack.last()@.last() == goal,
    ensures
        chain_between(links, stack.last()@, root, goal),
        follows_latest(links, stack.last()@, goal),
{
    let top = routes.len() - 1;
    let route = routes[top];
    let path = stack[top]@;
    lemma_route_is_chain(links, root, route);
    assert forall|i: int, j: int| 0 <= i && j == i + 1 && j < path.len() implies latest_step(
        links,
        #[trigger] path[i],
        #[trigger] path[j],
        goal,
    ) by {
        let records = listed(links, path[i]);
        let k = route[i];
        lemma_route_take(links, root, route, i);
        lemma_route_take(links, root, route, i + 1);
        let upto = route.take(i);
        assert(route.take(i + 1).drop_last() == upto);
        assert(members(links, root, upto).last() == path[i]);
        assert(0 <= k < records.len());
        assert(members(links, root, route.take(i + 1)).last() == path[i + 1]);
        assert(records[k] == path[j]);
        assert forall|m: int| k < m < records.len() implies !reaches(
            links,
            #[trigger] records[m],
            goal,
        ) by {
            if reaches(links, records[m], goal) {
                let chain = choose|chain: Seq<Ident>|
                    chain_between(links, chain, records[m], goal);
                let turn = upto.push(m);
                assert(turn.drop_last() == upto);
                let longer = lemma_route_along(links, root, turn, chain);
                assert(members(links, root, longer).last() == goal);
                let q = choose|q: int|
                    0 <= q < routes.len() && begins_with(longer, #[trigger] routes[q]);
                assert(longer[i] == longer.take(turn.len() as int)[i]);
                assert(longer[i] == m);
                assert forall|x: int| 0 <= x < i implies longer[x] == route[x] by {
                    assert(longer[x] == longer.take(turn.len() as int)[x]);
                }
                if q == top {
                    assert(longer.take(route.len() as int)[i] == route[i]);
                } else {
                    let other = routes[q];
                    assert(picks_later(route, other));
                    let d = choose|d: int|
                        #![trigger route[d]]
                        #![trigger other[d]]
                        0 <= d < route.len() && d < other.len() && route.take(d) == other.take(d)
                            && route[d] > other[d];
                    assert(longer.take(other.len() as int)[d] == longer[d]);
                    if d > i {
                        assert(route.take(d)[i] == route[i]);
                        assert(other.take(d)[i] == other[i]);
                        assert(longer.take(other.len() as int)[i] == longer[i]);
                    }
                }
            }
        }
    }
}

/// A path that does not end at the goal can give way to its continuations.
proof fn lemma_expanded<Ident>(
    links: Map<Ident, Seq<Ident>>,
    root: Ident,
    goal: Ident,
    before: Seq<Vec<Ident>>,
    routes: Seq<Seq<int>>,
    after: Seq<Vec<Ident>>,
) -> (expanded: Seq<Seq<int>>)
    requires
        searching(links, root, goal, before, routes),
        before.len() > 0,
        before.last()@.last() != goal,
        ({
            let records = listed(links, before.last()@.last());
            let kept = before.len() - 1;
            &&& after.len() == kept + records.len()
            &&& forall|j: int| 0 <= j < kept ==> #[trigger] after[j] == before[j]
            &&& forall|k: int|
                0 <= k < records.len() ==> (#[trigger] after[kept + k])@ == before.last()@.push(
                    records[k],
                )
        }),
    ensures
        searching(links, root, goal, after, expanded),
{
    let kept = before.len() - 1;
    let route = routes[kept];
    let records = listed(links, before.last()@.last());
    assert(before[kept] == before.last());
    let expanded = Seq::new(
        after.len(),
        |j: int|
            if j < kept {
                routes[j]
            } else {
                route.push(j - kept)
            },
    );
    assert forall|j: int|
        #![trigger after[j]]
        #![trigger expanded[j]]
        0 <= j < after.len() implies is_route(links, root, expanded[j]) && members(
        links,
        root,
        expanded[j],
    ) == after[j]@ by {
        if j < kept {
            assert(after[j] == before[j]);
        } else {
            assert(after[kept + (j - kept)]@ == before.last()@.push(records[j - kept]));
            assert(expanded[j].drop_last() == route);
        }
    }
    assert forall|i: int, j: int| 0 <= i < j < expanded.len() implies picks_later(
        #[trigger] expanded[j],
        #[trigger] expanded[i],
    ) by {
        if j < kept {
            assert(picks_later(routes[j], routes[i]));
        } else if i < kept {
            let other = routes[i];
            assert(picks_later(route, other));
            let d = choose|d: int|
                #![trigger route[d]]
                #![trigger other[d]]
                0 <= d < route.len() && d < other.len() && route.take(d) == other.take(d)
                    && route[d] > other[d];
            assert(expanded[j].take(d) == route.take(d));
            assert(expanded[j][d] > other[d]);
        } else {
            let d = route.len() as int;
            assert(expanded[j].take(d) == expanded[i].take(d));
            assert(expanded[j][d] > expanded[i][d]);
        }
    }
    assert forall|longer: Seq<int>|
        is_route(links, root, longer) && #[trigger] members(links, root, longer).last()
            == goal implies exists|j: int|
        0 <= j < expanded.len() && begins_with(longer, #[trigger] expanded[j]) by {
        let q = choose|q: int| 0 <= q < routes.len() && begins_with(longer, #[trigger] routes[q]);
        if q < kept {
            assert(expanded[q] == routes[q]);
        } else {
            let n = route.len() as int;
            if longer.len() == n {
                assert(longer == route);
            } else {
                lemma_route_take(links, root, longer, n + 1);
                let step = longer.take(n + 1);
                assert(step.drop_last() == route);
                let k = longer[n];
                assert(step.last() == k);
                assert(expanded[kept + k] == step);
                assert(begins_with(longer, expanded[kept + k]));
            }
        }
    }
    expanded
}

/// Who imports whom. An import that would close a cycle is never recorded.
#[verifier::reject_recursive_types(Ident)]
pub struct AcyclicTree<Ident> {
    children: HashMap<Ident, Vec<Ident>>,
    reverse_children: HashMap<Ident, Vec<Ident>>,
}

impl<Ident: Eq + Hash + Copy> AcyclicTree<Ident> {
    /// What each file imports, oldest import first.
    pub closed spec fn children(&self) -> Map<Ident, Seq<Ident>> {
        self.children@.map_values(|list: Vec<Ident>| list@)
    }

    /// By whom each file is imported, oldest import first.
    pub closed spec fn importers(&self) -> Map<Ident, Seq<Ident>> {
        self.reverse_children@.map_values(|list: Vec<Ident>| list@)
    }

    /// The two directions agree, and no file imports itself by way of others.
    pub closed spec fn wf(&self) -> bool {
        &&& lawful::<Ident>()
        &&& mirrored(self.children(), self.importers())
        &&& exists|rank: spec_fn(Ident) -> int| ranks(self.importers(), rank)
    }

    /// A graph without imports.
    pub fn new() -> (tree: Self)
        ensures
            lawful::<Ident>() ==> tree.wf(),
            tree.children() == Map::<Ident, Seq<Ident>>::empty(),
            tree.importers() == Map::<Ident, Seq<Ident>>::empty(),
    {
        let tree = AcyclicTree { children: HashMap::new(), reverse_children: HashMap::new() };
        proof {
            assert(tree.children() =~= Map::<Ident, Seq<Ident>>::empty());
            assert(tree.importers() =~= Map::<Ident, Seq<Ident>>::empty());
            assert(ranks(tree.importers(), |x: Ident| 0int));
            assert(mirrored(tree.children(), tree.importers())) by {
                broadcast use vstd::seq_lib::group_to_multiset_ensures;

            }
        }
        tree
    }

    /// `path` with one more member at its end.
    fn extended(path: &Vec<Ident>, next: Ident) -> (longer: Vec<Ident>)
        ensures
            longer@ == path@.push(next),
    {
        let mut longer: Vec<Ident> = Vec::new();
        let mut i: usize = 0;
        while i < path.len()
            invariant
                i <= path.len(),
                longer@ == path@.take(i as int),
            decreases path.len() - i,
        {
            longer.push(path[i]);
            i += 1;
        }
        longer.push(next);
        longer
    }

    /// The chain of importers from `root` to `goal` that takes the latest step throughout.
    fn importers_up_to(&self, root: Ident, goal: Ident) -> (found: Option<Vec<Ident>>)
        requires
            self.wf(),
        ensures
            match found {
                Some(path) => chain_between(self.importers(), path@, root, goal) && follows_latest(
                    self.importers(),
                    path@,
                    goal,
                ),
                None => !reaches(self.importers(), root, goal),
            },
    {
        let ghost links = self.importers();
        let ghost rank = choose|rank: spec_fn(Ident) -> int| ranks(self.importers(), rank);
        let ghost bound: nat = links.dom().len() + 1;
        proof {
            assert(links.dom() =~= self.reverse_children@.dom());
        }
        let mut first: Vec<Ident> = Vec::new();
        first.push(root);
        let mut stack: Vec<Vec<Ident>> = Vec::new();
        stack.push(first);
        let ghost mut routes: Seq<Seq<int>> = seq![Seq::<int>::empty()];
        proof {
            assert(stack@[0]@ =~= seq![root]);
            assert forall|route: Seq<int>|
                is_route(links, root, route) && #[trigger] members(links, root, route).last()
                    == goal implies exists|j: int|
                0 <= j < routes.len() && begins_with(route, #[trigger] routes[j]) by {
                assert(route.take(0) =~= routes[0]);
            }
        }
        while stack.len() > 0
            invariant
                self.wf(),
                links == self.importers(),
                links.dom().finite(),
                ranks(links, rank),
                bound == links.dom().len() + 1,
                searching(links, root, goal, stack@, routes),
            decreases pending(links, stack@, bound),
        {
            let ghost before = stack@;
            let path = stack.pop().unwrap();
            proof {
                assert(path@ == before.last()@);
                lemma_route_is_chain(links, root, routes[before.len() - 1]);
            }
            let last = path[path.len() - 1];
            if last == goal {
                proof {
                    lemma_found(links, root, goal, before, routes);
                }
                return Some(path);
            }
            let ghost records = listed(links, last);
            if let Some(used) = self.reverse_children.get(&last) {
                proof {
                    assert(used@ == records);
                }
                let mut i: usize = 0;
                while i < used.len()
                    invariant
                        i <= used.len(),
                        used@ == listed(links, path@.last()),
                        before.len() > 0,
                        before.last()@ == path@,
                        stack@.len() == before.len() - 1 + i,
                        forall|j: int| 0 <= j < before.len() - 1 ==> #[trigger] stack@[j] == before[j],
                        forall|k: int|
                            0 <= k < i ==> (#[trigger] stack@[before.len() - 1 + k])@ == path@.push(used@[k]),
                        pending(links, stack@, bound) == pending(links, before.drop_last(), bound)
                            + route_counts(links, used@.take(i as int), (bound - path@.len() - 1) as nat),
                    decreases used.len() - i,
                {
                    let ghost sofar = stack@;
                    let next = Self::extended(&path, used[i]);
                    stack.push(next);
                    proof {
                        assert(stack@.drop_last() =~= sofar);
                        assert(used@.take(i + 1).drop_last() =~= used@.take(i as int));
                    }
                    i += 1;
                }
                proof {
                    assert(used@.take(used@.len() as int) =~= used@);
                    if used@.len() > 0 {
                        assert(linked(links, last, used@[0]));
                        lemma_chain_push(links, path@, used@[0]);
                        lemma_chain_len(links, rank, path@.push(used@[0]));
                    }
                }
            }
            proof {
                routes = lemma_expanded(links, root, goal, before, routes, stack@);
            }
        }
        proof {
            if reaches(links, root, goal) {
                let chain = choose|chain: Seq<Ident>| chain_between(links, chain, root, goal);
                let route = lemma_route_along(links, root, Seq::empty(), chain);
                assert(members(links, root, route).last() == goal);
            }
        }
        None
    }

    /// Records that `root` imports `imports`, unless `imports` already imports `root`, itself or
    /// by way of others. The error is the chain of importers that leads from `root` to
    /// `imports`; where several do, each step goes to the importer recorded last.
    pub fn insert_cydet(&mut self, root: Ident, imports: Ident) -> (result: Result<(), Vec<Ident>>)
        requires
            old(self).wf(),
        ensures
            final(self).wf(),
            result is Err <==> reaches(old(self).importers(), root, imports),
            match result {
                Ok(()) => {
                    &&& final(self).children() == with_link(old(self).children(), root, imports)
                    &&& final(self).importers() == with_link(old(self).importers(), imports, root)
                },
                Err(path) => {
                    &&& *final(self) == *old(self)
                    &&& chain_between(old(self).importers(), path@, root, imports)
                    &&& follows_latest(old(self).importers(), path@, imports)
                },
            },
    {
        if let Some(cycle) = self.importers_up_to(root, imports) {
            return Err(cycle);
        }
        let ghost children = self.children();
        let ghost importers = self.importers();
        let list = self.children.entry(root).or_insert(Vec::new());
        list.push(imports);
        let list = self.reverse_children.entry(imports).or_insert(Vec::new());
        list.push(root);
        proof {
            assert(self.children() =~= with_link(children, root, imports));
            assert(self.importers() =~= with_link(importers, imports, root));
            let rank = choose|rank: spec_fn(Ident) -> int| ranks(importers, rank);
            let raised = lemma_new_link_ranked(importers, rank, imports, root);
            lemma_mirrored_push(children, importers, root, imports);
        }
        Ok(())
    }

    /// In every graph that `new` and `insert_cydet` can make, no chain of importers comes back to
    /// where it started.
    pub proof fn law_no_cycles(&self)
        requires
            self.wf(),
        ensures
            acyclic(self.importers()),
    {
        let rank = choose|rank: spec_fn(Ident) -> int| ranks(self.importers(), rank);
        lemma_ranked_is_acyclic(self.importers(), rank);
    }

    /// The files of every graph that `new` and `insert_cydet` can make can be put in an order in
    /// which each comes before its importers.
    pub proof fn law_files_are_in_order(&self) -> (rank: spec_fn(Ident) -> int)
        requires
            self.wf(),
        ensures
            in_order(self.importers(), rank),
    {
        let rank = choose|rank: spec_fn(Ident) -> int| ranks(self.importers(), rank);
        assert forall|a: Ident, i: int|
            #![trigger self.importers()[a][i]]
            self.importers().contains_key(a) && 0 <= i < self.importers()[a].len() implies rank(a)
            < rank(self.importers()[a][i]) by {
            assert(linked(self.importers(), a, self.importers()[a][i]));
        }
        rank
    }

    /// An import is recorded among the imports of one file as often as among the importers of the
    /// other.
    pub proof fn law_directions_agree(&self, file: Ident, imported: Ident)
        requires
            self.wf(),
        ensures
            listed(self.children(), file).to_multiset().count(imported) == listed(
                self.importers(),
                imported,
            ).to_multiset().count(file),
    {
    }

    /// The condition under which `insert_cydet` refuses an import is exactly that recording it
    /// would close a cycle.
    pub proof fn law_refused_iff_cycle(&self, root: Ident, imports: Ident)
        requires
            self.wf(),
        ensures
            reaches(self.importers(), root, imports) <==> !acyclic(
                with_link(self.importers(), imports, root),
            ),
    {
        let links = self.importers();
        let more = with_link(links, imports, root);
        let rank = choose|rank: spec_fn(Ident) -> int| ranks(links, rank);
        if reaches(links, root, imports) {
            let path = choose|path: Seq<Ident>| chain_between(links, path, root, imports);
            assert forall|a: Ident, b: Ident| linked(links, a, b) implies #[trigger] linked(
                more,
                a,
                b,
            ) by {
                let k = choose|k: int| 0 <= k < listed(links, a).len() && listed(links, a)[k] == b;
                assert(listed(more, a)[k] == b);
            }
            assert(is_chain(more, path));
            assert(listed(more, imports)[listed(links, imports).len() as int] == root);
            lemma_chain_push(more, path, root);
            let cycle = path.push(root);
            assert(is_chain(more, cycle) && cycle.len() >= 2 && cycle[0] == cycle.last());
        } else {
            let raised = lemma_new_link_ranked(links, rank, imports, root);
            lemma_ranked_is_acyclic(more, raised);
        }
    }
}

/// What is recorded, step by step: `from` leads to itself; it leads wherever a file leads that is
/// recorded at it; and it leads nowhere else.
pub proof fn law_reaching<Ident>(links: Map<Ident, Seq<Ident>>, from: Ident, to: Ident)
    ensures
        reaches(links, from, from),
        from != to ==> (reaches(links, from, to) <==> links.contains_key(from) && exists|i: int|
            0 <= i < links[from].len() && reaches(links, #[trigger] links[from][i], to)),
{
    assert(chain_between(links, seq![from], from, from));
    if from != to && reaches(links, from, to) {
        let path = choose|path: Seq<Ident>| chain_between(links, path, from, to);
        let rest = path.drop_first();
        assert(linked(links, path[0], path[1]));
        let i = choose|i: int| 0 <= i < listed(links, from).len() && listed(links, from)[i] == path[1];
        assert forall|a: int, b: int| 0 <= a && b == a + 1 && b < rest.len() implies linked(
            links,
            #[trigger] rest[a],
            #[trigger] rest[b],
        ) by {
            assert(linked(links, path[a + 1], path[b + 1]));
        }
        assert(chain_between(links, rest, path[1], to));
        assert(reaches(links, links[from][i], to));
    }
    if links.contains_key(from) {
        assert forall|i: int|
            0 <= i < links[from].len() && reaches(
                links,
                #[trigger] links[from][i],
                to,
            ) implies reaches(links, from, to) by {
            let next = links[from][i];
            let rest = choose|rest: Seq<Ident>| chain_between(links, rest, next, to);
            let path = seq![from] + rest;
            assert(listed(links, from)[i] == next);
            assert forall|a: int, b: int| 0 <= a && b == a + 1 && b < path.len() implies linked(
                links,
                #[trigger] path[a],
                #[trigger] path[b],
            ) by {
                if a == 0 {
                    assert(path[b] == rest[0]);
                } else {
                    assert(path[a] == rest[a - 1]);
                    assert(path[b] == rest[b - 1]);
                }
            }
            assert(chain_between(links, path, from, to));
        }
    }
}

/// A chain holds what is recorded and nothing else: it starts and ends where it is said to, and each
/// member is recorded at the one before. A graph without cycles has no chain that leads from what is
/// recorded at a file back to the file.
pub proof fn law_chains<Ident>(
    links: Map<Ident, Seq<Ident>>,
    path: Seq<Ident>,
    from: Ident,
    to: Ident,
    i: int,
)
    ensures
        chain_between(links, path, from, to) ==> {
            &&& path.len() > 0
            &&& path[0] == from
            &&& path[path.len() - 1] == to
            &&& 0 <= i < path.len() - 1 ==> links.contains_key(path[i]) && links[path[i]].contains(
                path[i + 1],
            )
        },
        acyclic(links) && links.contains_key(from) && 0 <= i < links[from].len() ==> !reaches(
            links,
            links[from][i],
            from,
        ),
{
    if chain_between(links, path, from, to) && 0 <= i < path.len() - 1 {
        assert(linked(links, path[i], path[i + 1]));
    }
    if acyclic(links) && links.contains_key(from) && 0 <= i < links[from].len() && reaches(
        links,
        links[from][i],
        from,
    ) {
        let rest = choose|rest: Seq<Ident>| chain_between(links, rest, links[from][i], from);
        let cycle = seq![from] + rest;
        assert(listed(links, from)[i] == links[from][i]);
        assert forall|a: int, b: int| 0 <= a && b == a + 1 && b < cycle.len() implies linked(
            links,
            #[trigger] cycle[a],
            #[trigger] cycle[b],
        ) by {
            if a == 0 {
                assert(cycle[b] == rest[0]);
            } else {
                assert(cycle[a] == rest[a - 1]);
                assert(cycle[b] == rest[b - 1]);
            }
        }
        assert(is_chain(links, cycle));
    }
}

/// Of several importers that lead to the goal, a chain of latest steps goes to the one recorded
/// last: none that was recorded after it leads there.
pub proof fn law_latest_steps<Ident>(
    links: Map<Ident, Seq<Ident>>,
    path: Seq<Ident>,
    goal: Ident,
    i: int,
)
    requires
        follows_latest(links, path, goal),
        0 <= i < path.len() - 1,
        links.contains_key(path[i]),
    ensures
        exists|k: int|
            {
                &&& 0 <= k < links[path[i]].len()
                &&& #[trigger] links[path[i]][k] == path[i + 1]
                &&& forall|m: int|
                    k < m < links[path[i]].len() ==> !reaches(
                        links,
                        #[trigger] links[path[i]][m],
                        goal,
                    )
            },
{
    assert(latest_step(links, path[i], path[i + 1], goal));
    let records = listed(links, path[i]);
    let k = choose|k: int|
        #![trigger records[k]]
        0 <= k < records.len() && records[k] == path[i + 1] && forall|m: int|
            k < m < records.len() ==> !reaches(links, #[trigger] records[m], goal);
    assert(links[path[i]][k] == path[i + 1]);
}

/// An import is refused exactly where no order could be kept: where `imports` already leads back to
/// `root`, every order in which files come before their importers puts `imports` after `root`, or
/// they are one.
pub proof fn law_refused_imports_break_the_order<Ident>(
    links: Map<Ident, Seq<Ident>>,
    rank: spec_fn(Ident) -> int,
    root: Ident,
    imports: Ident,
)
    requires
        in_order(links, rank),
        reaches(links, root, imports),
    ensures
        root == imports || rank(root) < rank(imports),
{
    assert forall|a: Ident, b: Ident| #[trigger] linked(links, a, b) implies rank(a) < rank(b) by {
        let i = choose|i: int| 0 <= i < listed(links, a).len() && listed(links, a)[i] == b;
        assert(links[a][i] == b);
    }
    assert(ranks(links, rank));
    let path = choose|path: Seq<Ident>| chain_between(links, path, root, imports);
    if path.len() > 1 {
        lemma_rank_grows(links, rank, path, 0, path.len() - 1);
    }
}

impl<Ident: Eq + Hash + Copy> Default for AcyclicTree<Ident> {
    fn default() -> (tree: Self)
        ensures
            lawful::<Ident>() ==> tree.wf(),
            tree.children() == Map::<Ident, Seq<Ident>>::empty(),
            tree.importers() == Map::<Ident, Seq<Ident>>::empty(),
    {
        Self::new()
    }
}

/// Recording a link in both directions keeps them in agreement.
proof fn lemma_mirrored_push<Ident>(
    forward: Map<Ident, Seq<Ident>>,
    backward: Map<Ident, Seq<Ident>>,
    from: Ident,
    to: Ident,
)
    requires
        mirrored(forward, backward),
    ensures
        mirrored(with_link(forward, from, to), with_link(backward, to, from)),
{
    broadcast use vstd::seq_lib::group_to_multiset_ensures;

    let forward2 = with_link(forward, from, to);
    let backward2 = with_link(backward, to, from);
    assert forall|a: Ident, b: Ident|
        #![trigger listed(forward2, a).to_multiset().count(b)]
        #![trigger listed(backward2, b).to_multiset().count(a)]
        listed(forward2, a).to_multiset().count(b) == listed(backward2, b).to_multiset().count(
            a,
        ) by {
        assert(listed(forward, a).to_multiset().count(b) == listed(
            backward,
            b,
        ).to_multiset().count(a));
    }
}

} // verus!
