//! The rootedness classifier: computes the verdict of a type by a search of
//! the type graph and remembers what it has found.

use vstd::prelude::*;
use crate::graph::{GraphView, Kind, Shape, TypeGraph, TypeId, resolve_ref};
use crate::verdict::{
    Verdict,
    lemma_chain_suffix,
    lemma_must_root_reached,
    lemma_reaches_self,
    lemma_reaches_step,
};

verus! {

/// Whether one of the first `n` entries of `row` is the type `c`.
spec fn holds_among(row: Seq<Option<TypeId>>, n: int, c: TypeId) -> bool {
    exists|j: int| 0 <= j < n && #[trigger] row[j] == Some(c)
}

/// One more entry holds `c` exactly if the entries before it do or it is `c`.
proof fn lemma_holds_among_next(row: Seq<Option<TypeId>>, n: int, c: TypeId)
    requires
        0 <= n < row.len(),
    ensures
        holds_among(row, n + 1, c) <==> holds_among(row, n, c) || row[n] == Some(c),
{
    if holds_among(row, n, c) {
        let j = choose|j: int| 0 <= j < n && #[trigger] row[j] == Some(c);
        assert(0 <= j < n + 1 && row[j] == Some(c));
    }
    if row[n] == Some(c) {
        assert(0 <= n < n + 1 && row[n] == Some(c));
    }
}

/// To hold `c` among all entries is to contain it.
proof fn lemma_holds_among_all(row: Seq<Option<TypeId>>, c: TypeId)
    ensures
        holds_among(row, row.len() as int, c) <==> row.contains(Some(c)),
{
    if holds_among(row, row.len() as int, c) {
        let j = choose|j: int| 0 <= j < row.len() && #[trigger] row[j] == Some(c);
        assert(row.contains(Some(c)));
    }
    if row.contains(Some(c)) {
        let j = choose|j: int| 0 <= j < row.len() && row[j] == Some(c);
        assert(0 <= j < row.len() && row[j] == Some(c));
    }
}

/// A sequence with `c` added contains what it contained, and `c`.
proof fn lemma_contains_push(s: Seq<TypeId>, c: TypeId, x: TypeId)
    ensures
        s.push(c).contains(x) <==> s.contains(x) || x == c,
{
    let t = s.push(c);
    if s.contains(x) {
        let k = choose|k: int| 0 <= k < s.len() && s[k] == x;
        assert(t[k] == x);
    }
    if x == c {
        assert(t[s.len() as int] == x);
    }
    if t.contains(x) {
        let k = choose|k: int| 0 <= k < t.len() && t[k] == x;
        if k < s.len() {
            assert(s[k] == x);
        }
    }
}

/// Adds to `out` the types that `row` holds.
fn collect_types(row: &Vec<Option<TypeId>>, out: &mut Vec<TypeId>)
    ensures
        forall|c: TypeId|
            #![trigger final(out)@.contains(c)]
            final(out)@.contains(c) <==> old(out)@.contains(c) || row@.contains(Some(c)),
{
    let ghost out0 = out@;
    let mut i: usize = 0;
    while i < row.len()
        invariant
            i <= row@.len(),
            forall|c: TypeId|
                #![trigger out@.contains(c)]
                out@.contains(c) <==> out0.contains(c) || holds_among(row@, i as int, c),
        decreases row@.len() - i,
    {
        let ghost before = out@;
        match row[i] {
            Some(c) => {
                out.push(c);
            },
            None => {},
        }
        proof {
            assert forall|x: TypeId|
                #![trigger out@.contains(x)]
                out@.contains(x) <==> out0.contains(x) || holds_among(row@, i + 1, x) by {
                lemma_holds_among_next(row@, i as int, x);
                assert(before.contains(x) <==> out0.contains(x) || holds_among(
                    row@,
                    i as int,
                    x,
                ));
                if row@[i as int] is Some {
                    lemma_contains_push(before, row@[i as int]->0, x);
                }
            }
        }
        i = i + 1;
    }
    proof {
        assert forall|c: TypeId|
            #![trigger out@.contains(c)]
            out@.contains(c) <==> out0.contains(c) || row@.contains(Some(c)) by {
            lemma_holds_among_all(row@, c);
        }
    }
}

/// Whether one of the first `n` rows holds the type `c`.
spec fn rows_hold(rows: Seq<Seq<Option<TypeId>>>, n: int, c: TypeId) -> bool {
    exists|w: int| 0 <= w < n && (#[trigger] rows[w]).contains(Some(c))
}

/// One more row holds `c` exactly if the rows before it do or it contains `c`.
proof fn lemma_rows_hold_next(rows: Seq<Seq<Option<TypeId>>>, n: int, c: TypeId)
    requires
        0 <= n < rows.len(),
    ensures
        rows_hold(rows, n + 1, c) <==> rows_hold(rows, n, c) || rows[n].contains(Some(c)),
{
    if rows_hold(rows, n, c) {
        let w = choose|w: int| 0 <= w < n && (#[trigger] rows[w]).contains(Some(c));
        assert(0 <= w < n + 1 && rows[w].contains(Some(c)));
    }
    if rows[n].contains(Some(c)) {
        assert(0 <= n < n + 1 && rows[n].contains(Some(c)));
    }
}

impl TypeGraph {
    /// Whether `t` is the rooting guard or an instance of it.
    pub fn is_guard(&self, t: TypeId) -> (b: bool)
        ensures
            b == self@.is_guard(t),
    {
        match self.guard {
            Some(guard) => t < self.decls.len() && guard == self.declaration_of(t),
            None => false,
        }
    }

    /// The one type that makes up the whole of `t`, if there is one.
    pub fn sole_content(&self, t: TypeId) -> (r: Option<TypeId>)
        ensures
            r == self@.sole_content(t),
    {
        if t < self.decls.len() {
            match &self.decls[t].kind {
                Kind::Alias(target) => Some(*target),
                Kind::Struct(fields) => {
                    if fields.len() == 1 {
                        let none: Vec<TypeId> = Vec::new();
                        assert(none@ =~= Seq::<TypeId>::empty());
                        resolve_ref(fields[0].ty, &none)
                    } else {
                        None
                    }
                },
                Kind::Instance { base, args } => {
                    if *base < self.decls.len() {
                        match &self.decls[*base].kind {
                            Kind::Struct(fields) => {
                                if fields.len() == 1 {
                                    resolve_ref(fields[0].ty, args)
                                } else {
                                    None
                                }
                            },
                            _ => None,
                        }
                    } else {
                        None
                    }
                },
                _ => None,
            }
        } else {
            None
        }
    }

    /// Whether `t` is the rooting guard or has it as its entire
    /// representation.
    pub fn wraps_guard(&self, t: TypeId) -> (b: bool)
        ensures
            b == self@.wraps_guard(t),
    {
        let n = self.decls.len();
        let mut cur = t;
        let mut steps: usize = n;
        loop
            invariant
                n == self@.decls.len(),
                steps <= n,
                self@.wraps_guard(t) == self@.wraps_guard_within(cur, steps as nat),
            decreases steps,
        {
            if self.is_guard(cur) {
                return true;
            }
            if steps == 0 {
                return false;
            }
            match self.sole_content(cur) {
                Some(u) => {
                    cur = u;
                    steps = steps - 1;
                },
                None => {
                    return false;
                },
            }
        }
    }

    /// Whether `t` may be held anywhere.
    pub fn is_exempt(&self, t: TypeId) -> (b: bool)
        ensures
            b == self@.exempt(t),
    {
        t < self.decls.len() && (self.markers_of(t).allow_unrooted || self.wraps_guard(t))
    }

    /// The types that a value of type `t` holds directly, in no particular
    /// order and possibly more than once.
    pub fn successors(&self, t: TypeId) -> (r: Vec<TypeId>)
        ensures
            forall|c: TypeId| #![trigger r@.contains(c)] r@.contains(c) <==> self@.feeds(t, c),
    {
        let mut out: Vec<TypeId> = Vec::new();
        match self.shape_of(t) {
            Shape::Struct(fields) => {
                collect_types(&fields, &mut out);
            },
            Shape::Enum(variants) => {
                let ghost rows = Seq::new(variants@.len(), |i: int| variants@[i]@);
                let mut v: usize = 0;
                while v < variants.len()
                    invariant
                        v <= variants@.len(),
                        rows.len() == variants@.len(),
                        forall|i: int| 0 <= i < rows.len() ==> #[trigger] rows[i] == variants@[i]@,
                        forall|c: TypeId|
                            #![trigger out@.contains(c)]
                            out@.contains(c) <==> rows_hold(rows, v as int, c),
                    decreases variants@.len() - v,
                {
                    let ghost before = out@;
                    collect_types(&variants[v], &mut out);
                    proof {
                        assert forall|c: TypeId|
                            #![trigger out@.contains(c)]
                            out@.contains(c) <==> rows_hold(rows, v + 1, c) by {
                            lemma_rows_hold_next(rows, v as int, c);
                            assert(before.contains(c) <==> rows_hold(rows, v as int, c));
                        }
                    }
                    v = v + 1;
                }
                proof {
                    assert(self@.shape_of(t)->Enum_0 =~= rows);
                    assert forall|c: TypeId|
                        #![trigger out@.contains(c)]
                        out@.contains(c) <==> self@.feeds(t, c) by {
                        assert(self@.feeds(t, c) <==> rows_hold(rows, rows.len() as int, c));
                    }
                }
            },
            Shape::Alias(target) => {
                out.push(target);
                assert(out@[0] == target);
            },
            _ => {},
        }
        out
    }
}

/// Whether every verdict that `memo` holds is the verdict of its type.
spec fn memo_sound(g: GraphView, memo: Seq<Option<Verdict>>) -> bool {
    &&& memo.len() <= g.decls.len()
    &&& forall|i: int|
        0 <= i < memo.len() ==> ((#[trigger] memo[i]) matches Some(v) ==> v == g.verdict(
            i as usize,
        ))
}

/// The number of types that a search has not met.
spec fn unseen(seen: Seq<bool>) -> nat
    decreases seen.len(),
{
    if seen.len() == 0 {
        0
    } else {
        unseen(seen.drop_last()) + if seen.last() {
            0nat
        } else {
            1nat
        }
    }
}

/// To meet a type that was not met leaves one type less unmet.
proof fn lemma_unseen_update(seen: Seq<bool>, i: int)
    requires
        0 <= i < seen.len(),
        !seen[i],
    ensures
        unseen(seen.update(i, true)) + 1 == unseen(seen),
    decreases seen.len(),
{
    let next = seen.update(i, true);
    if i == seen.len() - 1 {
        assert(next.drop_last() =~= seen.drop_last());
    } else {
        lemma_unseen_update(seen.drop_last(), i);
        assert(next.drop_last() =~= seen.drop_last().update(i, true));
    }
}

/// Whether the search is done with `u`: it carries no marker that requires
/// rooting, and if it requires rooting, each type it holds directly that is
/// not exempt has been met.
spec fn closed_at(g: GraphView, seen: Seq<bool>, u: TypeId) -> bool {
    &&& !g.rooted(u)
    &&& g.must_root(u) ==> forall|w: TypeId|
        #[trigger] g.feeds(u, w) && g.passes_on(w) ==> seen[w as int]
}

/// Where the search is done with every type it has met, each type of a chain
/// that starts at one of them has been met.
proof fn lemma_closed_chain(g: GraphView, seen: Seq<bool>, p: Seq<TypeId>, k: int)
    requires
        seen.len() == g.decls.len(),
        forall|u: TypeId| u < seen.len() && seen[u as int] ==> closed_at(g, seen, u),
        g.is_chain(p),
        seen[p[0] as int],
        g.rooted(p.last()),
        0 <= k < p.len(),
    ensures
        seen[p[k] as int],
    decreases k,
{
    if k > 0 {
        lemma_closed_chain(g, seen, p, k - 1);
        let u = p[k - 1];
        assert(g.passes_on(u));
        assert(closed_at(g, seen, u));
        lemma_chain_suffix(g, p, k - 1);
        assert(g.must_root(u));
        assert(g.feeds(p[k - 1], p[k - 1 + 1]));
        assert(g.passes_on(p[k]));
    }
}

/// Where the search is done with every type it has met, none of them
/// requires rooting.
proof fn lemma_closed_is_safe(g: GraphView, seen: Seq<bool>, t: TypeId)
    requires
        seen.len() == g.decls.len(),
        forall|u: TypeId| u < seen.len() && seen[u as int] ==> closed_at(g, seen, u),
        t < seen.len(),
        seen[t as int],
    ensures
        !g.must_root(t),
{
    if g.must_root(t) {
        let m = choose|m: TypeId| #[trigger] g.reaches(t, m) && g.rooted(m);
        let p = choose|p: Seq<TypeId>| #[trigger] g.is_chain(p) && p[0] == t && p.last() == m;
        lemma_closed_chain(g, seen, p, p.len() - 1);
        assert(g.passes_on(p[p.len() - 1]));
        assert(closed_at(g, seen, m));
    }
}

/// A vector of `n` times `false`.
fn all_unseen(n: usize) -> (seen: Vec<bool>)
    ensures
        seen@.len() == n,
        forall|i: int| 0 <= i < n ==> !seen@[i],
{
    let mut seen: Vec<bool> = Vec::new();
    let mut i: usize = 0;
    while i < n
        invariant
            i <= n,
            seen@.len() == i,
            forall|j: int| 0 <= j < i ==> !seen@[j],
        decreases n - i,
    {
        seen.push(false);
        i = i + 1;
    }
    seen
}

/// Whether `front` is the beginning of `whole`.
spec fn begins_with(whole: Seq<TypeId>, front: Seq<TypeId>) -> bool {
    &&& front.len() <= whole.len()
    &&& forall|i: int| 0 <= i < front.len() ==> #[trigger] whole[i] == front[i]
}

/// Whether every type that the search from `t` has met is reached from `t`,
/// and every type that waits on the stack has been met.
spec fn search_ok(g: GraphView, t: TypeId, seen: Seq<bool>, stack: Seq<TypeId>) -> bool {
    &&& seen.len() == g.decls.len()
    &&& forall|x: TypeId| x < seen.len() && #[trigger] seen[x as int] ==> g.reaches(t, x)
    &&& forall|i: int|
        0 <= i < stack.len() ==> (#[trigger] stack[i]) < seen.len() && seen[stack[i] as int]
}

/// Meets the types that `u` holds directly: each of them that is a type of
/// the graph, is not exempt and has not been met is marked and put on the
/// stack.
fn meet_held(
    graph: &TypeGraph,
    memo: &Vec<Option<Verdict>>,
    t: TypeId,
    u: TypeId,
    seen: &mut Vec<bool>,
    stack: &mut Vec<TypeId>,
)
    requires
        memo@.len() == graph@.decls.len(),
        memo_sound(graph@, memo@),
        search_ok(graph@, t, old(seen)@, old(stack)@),
        graph@.reaches(t, u),
    ensures
        search_ok(graph@, t, final(seen)@, final(stack)@),
        begins_with(final(stack)@, old(stack)@),
        forall|x: TypeId|
            x < old(seen)@.len() && #[trigger] old(seen)@[x as int] ==> final(seen)@[x as int],
        forall|x: TypeId|
            x < final(seen)@.len() && #[trigger] final(seen)@[x as int] ==> old(seen)@[x as int]
                || final(stack)@.contains(x),
        forall|w: TypeId| #[trigger]
            graph@.feeds(u, w) && graph@.passes_on(w) ==> final(seen)@[w as int],
        unseen(final(seen)@) + (final(stack)@.len() - old(stack)@.len()) == unseen(old(seen)@),
{
    let n = graph.decls.len();
    let ghost seen0 = seen@;
    let ghost stack0 = stack@;
    let kids = graph.successors(u);
    let mut k: usize = 0;
    while k < kids.len()
        invariant
            n == graph@.decls.len(),
            memo@.len() == n,
            memo_sound(graph@, memo@),
            graph@.reaches(t, u),
            k <= kids@.len(),
            forall|c: TypeId| #![trigger kids@.contains(c)] kids@.contains(c) ==> graph@.feeds(u, c),
            search_ok(graph@, t, seen@, stack@),
            begins_with(stack@, stack0),
            seen0.len() == n,
            forall|x: TypeId| x < n && #[trigger] seen0[x as int] ==> seen@[x as int],
            forall|x: TypeId|
                x < n && #[trigger] seen@[x as int] ==> seen0[x as int] || stack@.contains(x),
            forall|j: int|
                0 <= j < k && graph@.passes_on(#[trigger] kids@[j]) ==> seen@[kids@[j] as int],
            unseen(seen@) + (stack@.len() - stack0.len()) == unseen(seen0),
        decreases kids@.len() - k,
    {
        let c = kids[k];
        if c < n && !seen[c] {
            let exempt = match memo[c] {
                Some(v) => v == Verdict::Exempt,
                None => graph.is_exempt(c),
            };
            if !exempt {
                let ghost seen_before = seen@;
                let ghost stack_before = stack@;
                seen.set(c, true);
                stack.push(c);
                proof {
                    lemma_unseen_update(seen_before, c as int);
                    assert(kids@.contains(c));
                    lemma_reaches_step(graph@, t, u, c);
                    assert(stack@[stack_before.len() as int] == c);
                    assert forall|x: TypeId| x < n && #[trigger] seen@[x as int] implies seen0[x as int]
                        || stack@.contains(x) by {
                        if x != c && !seen0[x as int] {
                            assert(seen_before[x as int]);
                            let i = choose|i: int|
                                0 <= i < stack_before.len() && stack_before[i] == x;
                            assert(stack@[i] == x);
                        }
                    }
                }
            }
        }
        k = k + 1;
    }
    proof {
        assert forall|w: TypeId| #[trigger]
            graph@.feeds(u, w) && graph@.passes_on(w) implies seen@[w as int] by {
            assert(kids@.contains(w));
            let j = choose|j: int| 0 <= j < kids@.len() && kids@[j] == w;
            assert(graph@.passes_on(kids@[j]));
        }
    }
}

/// Searches the graph from `t`, which is a type of the graph and not
/// exempt, and says whether a type that carries a marker which requires
/// rooting is reached. Where none is, `seen` marks every type that was met,
/// and none of them requires rooting.
fn search(graph: &TypeGraph, memo: &Vec<Option<Verdict>>, t: TypeId) -> (r: (bool, Vec<bool>))
    requires
        graph@.passes_on(t),
        memo@.len() == graph@.decls.len(),
        memo_sound(graph@, memo@),
    ensures
        r.0 == graph@.must_root(t),
        r.1@.len() == graph@.decls.len(),
        !r.0 ==> r.1@[t as int],
        !r.0 ==> forall|u: TypeId|
            u < r.1@.len() && #[trigger] r.1@[u as int] ==> graph@.verdict(u) == Verdict::Safe,
{
    let n = graph.decls.len();
    let mut seen = all_unseen(n);
    let mut stack: Vec<TypeId> = Vec::new();
    let mut found = false;
    let ghost mut settled: Set<TypeId> = Set::empty();
    seen.set(t, true);
    stack.push(t);
    proof {
        lemma_reaches_self(graph@, t);
        assert(stack@[0] == t);
    }
    while stack.len() > 0 && !found
        invariant
            n == graph@.decls.len(),
            memo@.len() == n,
            t < n,
            memo_sound(graph@, memo@),
            search_ok(graph@, t, seen@, stack@),
            seen@[t as int],
            !found ==> forall|u: TypeId|
                u < n && #[trigger] seen@[u as int] ==> settled.contains(u) || stack@.contains(u),
            forall|u: TypeId| #[trigger]
                settled.contains(u) ==> u < n && closed_at(graph@, seen@, u),
            found ==> graph@.must_root(t),
        decreases unseen(seen@), stack@.len(),
    {
        let ghost stack0 = stack@;
        let u = stack.pop().unwrap();
        assert(stack0[stack0.len() - 1] == u);
        let ghost stack1 = stack@;
        let ghost seen1 = seen@;
        proof {
            assert forall|x: TypeId|
                x < n && #[trigger] seen@[x as int] implies settled.contains(x) || stack1.contains(
                x,
            ) || x == u by {
                if stack0.contains(x) {
                    let k = choose|k: int| 0 <= k < stack0.len() && stack0[k] == x;
                    if k < stack1.len() {
                        assert(stack1[k] == x);
                    }
                }
            }
            assert(search_ok(graph@, t, seen@, stack1)) by {
                assert forall|i: int| 0 <= i < stack1.len() implies (#[trigger] stack1[i]) < seen@.len()
                    && seen@[stack1[i] as int] by {
                    assert(stack0[i] == stack1[i]);
                }
            }
            assert(graph@.reaches(t, u));
        }
        if graph.markers_of(u).is_rooting_required() {
            found = true;
        } else {
            match memo[u] {
                Some(Verdict::MustRoot) => {
                    found = true;
                    proof {
                        lemma_must_root_reached(graph@, t, u);
                    }
                },
                Some(_) => {
                    proof {
                        lemma_met_is_open(graph@, t, u);
                        assert(closed_at(graph@, seen@, u));
                        settled = settled.insert(u);
                    }
                },
                None => {
                    meet_held(graph, memo, t, u, &mut seen, &mut stack);
                    proof {
                        assert forall|x: TypeId| #[trigger] settled.contains(x) implies x < n
                            && closed_at(graph@, seen@, x) by {
                            assert(closed_at(graph@, seen1, x));
                        }
                        assert(closed_at(graph@, seen@, u));
                        assert forall|x: TypeId|
                            x < n && #[trigger] seen@[x as int] implies settled.insert(u).contains(x)
                            || stack@.contains(x) by {
                            if seen1[x as int] && stack1.contains(x) {
                                let i = choose|i: int| 0 <= i < stack1.len() && stack1[i] == x;
                                assert(stack@[i] == x);
                            }
                        }
                        settled = settled.insert(u);
                    }
                },
            }
        }
    }
    proof {
        if !found {
            assert forall|x: TypeId| x < seen@.len() && seen@[x as int] implies closed_at(
                graph@,
                seen@,
                x,
            ) by {
                assert(settled.contains(x) || stack@.contains(x));
            }
            lemma_closed_is_safe(graph@, seen@, t);
            assert forall|x: TypeId|
                x < seen@.len() && #[trigger] seen@[x as int] implies graph@.verdict(x)
                == Verdict::Safe by {
                lemma_met_is_open(graph@, t, x);
                if graph@.must_root(x) {
                    lemma_must_root_reached(graph@, t, x);
                }
            }
        }
    }
    (found, seen)
}

/// A type that a chain leads to is a type of the graph and is not exempt.
proof fn lemma_met_is_open(g: GraphView, t: TypeId, u: TypeId)
    requires
        g.reaches(t, u),
    ensures
        g.passes_on(u),
{
    let p = choose|p: Seq<TypeId>| #[trigger] g.is_chain(p) && p[0] == t && p.last() == u;
    assert(g.passes_on(p[p.len() - 1]));
}

/// The rootedness classifier of one compilation: a type graph, and the
/// verdicts found so far.
pub struct Classifier {
    graph: TypeGraph,
    memo: Vec<Option<Verdict>>,
}

impl View for Classifier {
    type V = GraphView;

    /// The model of the graph whose types are classified.
    closed spec fn view(&self) -> GraphView {
        self.graph@
    }
}

impl Classifier {
    /// Every verdict that is remembered is the verdict of its type.
    #[verifier::type_invariant]
    spec fn sound(self) -> bool {
        memo_sound(self.graph@, self.memo@)
    }

    /// The verdict that is remembered for `t`, if any.
    pub closed spec fn cached(&self, t: TypeId) -> Option<Verdict> {
        if t < self.memo@.len() {
            self.memo@[t as int]
        } else {
            None
        }
    }

    /// A classifier for `graph` that remembers nothing yet.
    pub fn new(graph: TypeGraph) -> (c: Classifier)
        ensures
            c@ == graph@,
            forall|t: TypeId| c.cached(t).is_none(),
    {
        Classifier { graph, memo: Vec::new() }
    }

    /// The graph whose types are classified.
    pub fn graph(&self) -> (g: &TypeGraph)
        ensures
            g@ == self@,
    {
        &self.graph
    }

    /// Forgets every verdict, as at the start of a compilation.
    pub fn clear(&mut self)
        ensures
            final(self)@ == old(self)@,
            forall|t: TypeId| final(self).cached(t).is_none(),
    {
        self.memo = Vec::new();
    }

    /// The verdict that is remembered for `t`, if any. The graph is not
    /// searched.
    pub fn peek(&self, t: TypeId) -> (v: Option<Verdict>)
        ensures
            v == self.cached(t),
            v matches Some(verdict) ==> verdict == self@.verdict(t),
    {
        proof {
            use_type_invariant(self);
        }
        if t < self.memo.len() {
            self.memo[t]
        } else {
            None
        }
    }

    /// Classifies `t`. The verdict is that of the graph's model, so that
    /// repeated calls agree. A verdict that is remembered is handed out as
    /// it is, and nothing new is remembered; else the graph is searched, and
    /// the verdict of `t` is remembered together with what the search has
    /// settled.
    pub fn classify(&mut self, t: TypeId) -> (v: Verdict)
        ensures
            v == old(self)@.verdict(t),
            final(self)@ == old(self)@,
            old(self).cached(t).is_some() ==> forall|u: TypeId|
                final(self).cached(u) == old(self).cached(u),
            forall|u: TypeId|
                old(self).cached(u).is_some() ==> final(self).cached(u) == old(self).cached(u),
            old(self)@.known(t) ==> final(self).cached(t) == Some(v),
            forall|u: TypeId| #[trigger]
                final(self).cached(u) matches Some(verdict) ==> verdict == old(self)@.verdict(u),
    {
        proof {
            use_type_invariant(&*self);
        }
        let n = self.graph.decls.len();
        if t >= n {
            return Verdict::Safe;
        }
        if t < self.memo.len() {
            match self.memo[t] {
                Some(v) => {
                    return v;
                },
                None => {},
            }
        }
        let mut memo: Vec<Option<Verdict>> = Vec::new();
        core::mem::swap(&mut memo, &mut self.memo);
        let v = settle(&self.graph, &mut memo, t);
        self.memo = memo;
        v
    }
}

/// Lengthens `memo` to `n` entries.
fn pad(memo: &mut Vec<Option<Verdict>>, n: usize)
    ensures
        final(memo)@.len() >= n,
        final(memo)@.len() >= old(memo)@.len(),
        final(memo)@.len() == n || final(memo)@.len() == old(memo)@.len(),
        forall|i: int| 0 <= i < old(memo)@.len() ==> final(memo)@[i] == old(memo)@[i],
        forall|i: int| old(memo)@.len() <= i < final(memo)@.len() ==> final(memo)@[i].is_none(),
{
    while memo.len() < n
        invariant
            memo@.len() >= old(memo)@.len(),
            memo@.len() <= n || memo@.len() == old(memo)@.len(),
            forall|i: int| 0 <= i < old(memo)@.len() ==> memo@[i] == old(memo)@[i],
            forall|i: int| old(memo)@.len() <= i < memo@.len() ==> memo@[i].is_none(),
        decreases n - memo@.len(),
    {
        memo.push(None);
    }
}

/// Finds the verdict of `t`, a type of the graph for which none is
/// remembered, and remembers it together with what the search has settled.
fn settle(graph: &TypeGraph, memo: &mut Vec<Option<Verdict>>, t: TypeId) -> (v: Verdict)
    requires
        t < graph@.decls.len(),
        memo_sound(graph@, old(memo)@),
    ensures
        memo_sound(graph@, final(memo)@),
        v == graph@.verdict(t),
        t < final(memo)@.len(),
        final(memo)@[t as int] == Some(v),
        final(memo)@.len() >= old(memo)@.len(),
        forall|i: int|
            0 <= i < old(memo)@.len() && old(memo)@[i].is_some() ==> final(memo)@[i] == old(
                memo,
            )@[i],
{
    let n = graph.decls.len();
    pad(memo, n);
    let ghost memo1 = memo@;
    if graph.is_exempt(t) {
        memo.set(t, Some(Verdict::Exempt));
        return Verdict::Exempt;
    }
    let (found, seen) = search(graph, memo, t);
    if found {
        memo.set(t, Some(Verdict::MustRoot));
        return Verdict::MustRoot;
    }
    let mut i: usize = 0;
    while i < n
        invariant
            n == graph@.decls.len(),
            i <= n,
            seen@.len() == n,
            memo@.len() == n,
            memo1.len() == n,
            memo_sound(graph@, memo@),
            forall|u: TypeId|
                u < n && #[trigger] seen@[u as int] ==> graph@.verdict(u) == Verdict::Safe,
            forall|j: int| 0 <= j < n && memo1[j].is_some() ==> memo@[j] == memo1[j],
            forall|j: int| 0 <= j < i && seen@[j] ==> memo@[j] == Some(Verdict::Safe),
        decreases n - i,
    {
        if seen[i] {
            assert(graph@.verdict(i) == Verdict::Safe);
            memo.set(i, Some(Verdict::Safe));
        }
        i = i + 1;
    }
    Verdict::Safe
}

} // verus!
