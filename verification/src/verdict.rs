//! What it means for a type to require rooting, stated over the model of
//! the type graph, and the laws that follow from it.

use vstd::prelude::*;
use crate::graph::{GraphView, ShapeView, TypeId, KindView};

verus! {

/// The classification of a type.
#[derive(Clone, Copy, Debug, PartialEq, Eq, Structural)]
pub enum Verdict {
    /// The type holds no managed reference that would need a root.
    Safe,
    /// The type holds a managed reference: a value of it must be rooted.
    MustRoot,
    /// The type may be held anywhere: it is the rooting guard, wraps it, or
    /// is allowed by its marker.
    Exempt,
}

impl GraphView {
    /// Whether `t` is the rooting guard or an instance of it.
    pub open spec fn is_guard(self, t: TypeId) -> bool {
        self.known(t) && self.guard == Some(self.declaration_of(t))
    }

    /// The one type that makes up the whole of `t`: the target of an alias,
    /// or the type of the only field of a struct.
    pub open spec fn sole_content(self, t: TypeId) -> Option<TypeId> {
        match self.shape_of(t) {
            ShapeView::Alias(target) => Some(target),
            ShapeView::Struct(fields) => if fields.len() == 1 {
                fields[0]
            } else {
                None
            },
            _ => None,
        }
    }

    /// Whether the rooting guard is met from `t` by going at most `steps`
    /// times from a type to its sole content.
    pub open spec fn wraps_guard_within(self, t: TypeId, steps: nat) -> bool
        decreases steps,
    {
        if self.is_guard(t) {
            true
        } else if steps == 0 {
            false
        } else {
            match self.sole_content(t) {
                Some(u) => self.wraps_guard_within(u, (steps - 1) as nat),
                None => false,
            }
        }
    }

    /// Whether `t` is the rooting guard or has it as its entire
    /// representation. No more steps are followed than the graph has types,
    /// which leaves nothing out: see [`law_wraps_guard_needs_no_bound`].
    pub open spec fn wraps_guard(self, t: TypeId) -> bool {
        self.wraps_guard_within(t, self.decls.len())
    }

    /// Whether `t` may be held anywhere.
    pub open spec fn exempt(self, t: TypeId) -> bool {
        self.known(t) && (self.markers_of(t).allow_unrooted || self.wraps_guard(t))
    }

    /// Whether `t` is a type of the graph through which the need for a root
    /// is passed on.
    pub open spec fn passes_on(self, t: TypeId) -> bool {
        self.known(t) && !self.exempt(t)
    }

    /// Whether `t` carries a marker that requires rooting.
    pub open spec fn rooted(self, t: TypeId) -> bool {
        self.markers_of(t).requires_rooting()
    }

    /// Whether each type of `p` holds the next one directly, and none of
    /// them is exempt.
    pub open spec fn is_chain(self, p: Seq<TypeId>) -> bool {
        &&& p.len() > 0
        &&& forall|i: int| 0 <= i < p.len() ==> self.passes_on(#[trigger] p[i])
        &&& forall|i: int| 0 <= i < p.len() - 1 ==> self.feeds(#[trigger] p[i], p[i + 1])
    }

    /// Whether a chain leads from `t` to `u`.
    pub open spec fn reaches(self, t: TypeId, u: TypeId) -> bool {
        exists|p: Seq<TypeId>| #[trigger] self.is_chain(p) && p[0] == t && p.last() == u
    }

    /// Whether `t` requires rooting: a chain leads from it to a type that
    /// carries a marker which requires rooting.
    pub open spec fn must_root(self, t: TypeId) -> bool {
        exists|u: TypeId| #[trigger] self.reaches(t, u) && self.rooted(u)
    }

    /// The classification of `t`. A type outside the graph is safe, and so
    /// is an opaque type without a marker, whatever it holds in truth: of
    /// such a type nothing is known, and nothing is reported.
    pub open spec fn verdict(self, t: TypeId) -> Verdict {
        if !self.known(t) {
            Verdict::Safe
        } else if self.exempt(t) {
            Verdict::Exempt
        } else if self.must_root(t) {
            Verdict::MustRoot
        } else {
            Verdict::Safe
        }
    }

    /// Whether `t` is a struct or an enum, or an instance of one.
    pub open spec fn is_composite(self, t: TypeId) -> bool {
        self.shape_of(t) is Struct || self.shape_of(t) is Enum
    }
}

/// A type that passes the need for a root on reaches itself.
pub proof fn lemma_reaches_self(g: GraphView, t: TypeId)
    requires
        g.passes_on(t),
    ensures
        g.reaches(t, t),
{
    let p = seq![t];
    assert(g.is_chain(p));
    assert(p[0] == t && p.last() == t);
}

/// A chain can be extended by a type that its last type holds.
pub proof fn lemma_reaches_step(g: GraphView, t: TypeId, u: TypeId, w: TypeId)
    requires
        g.reaches(t, u),
        g.feeds(u, w),
        g.passes_on(w),
    ensures
        g.reaches(t, w),
{
    let p = choose|p: Seq<TypeId>| #[trigger] g.is_chain(p) && p[0] == t && p.last() == u;
    let q = p.push(w);
    assert forall|i: int| 0 <= i < q.len() - 1 implies g.feeds(#[trigger] q[i], q[i + 1]) by {
        if i < p.len() - 1 {
            assert(g.feeds(p[i], p[i + 1]));
        }
    }
    assert forall|i: int| 0 <= i < q.len() implies g.passes_on(#[trigger] q[i]) by {
        if i < p.len() {
            assert(g.passes_on(p[i]));
        }
    }
    assert(g.is_chain(q));
    assert(q[0] == t && q.last() == w);
}

/// Chains compose.
pub proof fn lemma_reaches_trans(g: GraphView, t: TypeId, u: TypeId, w: TypeId)
    requires
        g.reaches(t, u),
        g.reaches(u, w),
    ensures
        g.reaches(t, w),
{
    let p = choose|p: Seq<TypeId>| #[trigger] g.is_chain(p) && p[0] == t && p.last() == u;
    let q = choose|q: Seq<TypeId>| #[trigger] g.is_chain(q) && q[0] == u && q.last() == w;
    let r = p + q.subrange(1, q.len() as int);
    assert forall|i: int| 0 <= i < r.len() implies g.passes_on(#[trigger] r[i]) by {
        if i < p.len() {
            assert(g.passes_on(p[i]));
        } else {
            assert(r[i] == q[i - p.len() + 1]);
            assert(g.passes_on(q[i - p.len() + 1]));
        }
    }
    assert forall|i: int| 0 <= i < r.len() - 1 implies g.feeds(#[trigger] r[i], r[i + 1]) by {
        if i < p.len() - 1 {
            assert(g.feeds(p[i], p[i + 1]));
        } else if i == p.len() - 1 {
            assert(r[i] == q[0]);
            assert(r[i + 1] == q[1]);
            assert(g.feeds(q[0], q[0int + 1]));
        } else {
            let j = i - p.len() + 1;
            assert(r[i] == q[j]);
            assert(r[i + 1] == q[j + 1]);
            assert(g.feeds(q[j], q[j + 1]));
        }
    }
    assert(g.is_chain(r));
    assert(r[0] == t);
    if q.len() == 1 {
        assert(r =~= p);
    } else {
        assert(r.last() == q.last());
    }
}

/// A type that requires rooting hands that on to each type that holds it
/// directly and is not exempt.
pub proof fn lemma_must_root_step(g: GraphView, t: TypeId, u: TypeId)
    requires
        g.passes_on(t),
        g.feeds(t, u),
        g.must_root(u),
    ensures
        g.must_root(t),
{
    let m = choose|m: TypeId| #[trigger] g.reaches(u, m) && g.rooted(m);
    let p = choose|p: Seq<TypeId>| #[trigger] g.is_chain(p) && p[0] == u && p.last() == m;
    assert(g.passes_on(p[0]));
    lemma_reaches_self(g, t);
    lemma_reaches_step(g, t, t, u);
    lemma_reaches_trans(g, t, u, m);
}

/// From each type of a chain the chain's last type is reached.
pub proof fn lemma_chain_suffix(g: GraphView, p: Seq<TypeId>, k: int)
    requires
        g.is_chain(p),
        0 <= k < p.len(),
    ensures
        g.reaches(p[k], p.last()),
{
    let q = p.subrange(k, p.len() as int);
    assert forall|i: int| 0 <= i < q.len() implies g.passes_on(#[trigger] q[i]) by {
        assert(q[i] == p[i + k]);
        assert(g.passes_on(p[i + k]));
    }
    assert forall|i: int| 0 <= i < q.len() - 1 implies g.feeds(#[trigger] q[i], q[i + 1]) by {
        assert(q[i] == p[i + k]);
        assert(q[i + 1] == p[i + k + 1]);
        assert(g.feeds(p[i + k], p[i + k + 1]));
    }
    assert(g.is_chain(q));
    assert(q[0] == p[k] && q.last() == p.last());
}

/// Where a chain from `t` ends in another type, the first step of some
/// chain leads to a type from which the end is reached too.
pub proof fn lemma_reaches_first_step(g: GraphView, t: TypeId, m: TypeId) -> (u: TypeId)
    requires
        g.reaches(t, m),
        !g.rooted(t),
        g.rooted(m),
    ensures
        g.feeds(t, u),
        g.reaches(u, m),
{
    let p = choose|p: Seq<TypeId>| #[trigger] g.is_chain(p) && p[0] == t && p.last() == m;
    assert(p.len() > 1);
    lemma_chain_suffix(g, p, 1);
    assert(g.feeds(p[0], p[0int + 1]));
    p[1]
}

/// A type from which a type that requires rooting is reached requires
/// rooting itself.
pub proof fn lemma_must_root_reached(g: GraphView, t: TypeId, u: TypeId)
    requires
        g.reaches(t, u),
        g.must_root(u),
    ensures
        g.must_root(t),
{
    let m = choose|m: TypeId| #[trigger] g.reaches(u, m) && g.rooted(m);
    lemma_reaches_trans(g, t, u, m);
}

/// The rules of classification, for a type that is not exempt: it requires
/// rooting exactly if it carries a marker that says so, or holds directly a
/// type that requires rooting.
pub proof fn lemma_must_root_unfold(g: GraphView, t: TypeId)
    requires
        g.passes_on(t),
    ensures
        g.must_root(t) <==> g.rooted(t) || exists|u: TypeId|
            #[trigger] g.feeds(t, u) && g.verdict(u) == Verdict::MustRoot,
{
    if g.rooted(t) {
        lemma_reaches_self(g, t);
    }
    if exists|u: TypeId| #[trigger] g.feeds(t, u) && g.verdict(u) == Verdict::MustRoot {
        let u = choose|u: TypeId| #[trigger] g.feeds(t, u) && g.verdict(u) == Verdict::MustRoot;
        lemma_must_root_step(g, t, u);
    }
    if g.must_root(t) && !g.rooted(t) {
        let m = choose|m: TypeId| #[trigger] g.reaches(t, m) && g.rooted(m);
        let u = lemma_reaches_first_step(g, t, m);
        lemma_must_root_known(g, u);
        assert(g.feeds(t, u) && g.verdict(u) == Verdict::MustRoot);
    }
}

/// A type that requires rooting is a type of the graph and is not exempt.
pub proof fn lemma_must_root_known(g: GraphView, t: TypeId)
    requires
        exists|m: TypeId| #[trigger] g.reaches(t, m),
    ensures
        g.passes_on(t),
{
    let m = choose|m: TypeId| #[trigger] g.reaches(t, m);
    let p = choose|p: Seq<TypeId>| #[trigger] g.is_chain(p) && p[0] == t && p.last() == m;
    assert(g.passes_on(p[0]));
}

/// The classification of a type depends on the graph and the type alone, and
/// is one of the three verdicts by the rules in their order: exempt first,
/// then required by a chain to a marker, else safe.
pub proof fn law_verdict_by_rules(g: GraphView, t: TypeId)
    ensures
        !g.known(t) ==> g.verdict(t) == Verdict::Safe,
        g.known(t) && g.exempt(t) ==> g.verdict(t) == Verdict::Exempt,
        g.passes_on(t) && g.rooted(t) ==> g.verdict(t) == Verdict::MustRoot,
        g.passes_on(t) && !g.rooted(t) ==> (g.verdict(t) == Verdict::MustRoot <==> exists|
            u: TypeId,
        | #[trigger] g.feeds(t, u) && g.verdict(u) == Verdict::MustRoot),
        g.passes_on(t) ==> g.verdict(t) != Verdict::Exempt,
{
    if g.passes_on(t) {
        lemma_must_root_unfold(g, t);
    }
}

/// A struct that is not exempt and has a field whose type requires rooting
/// requires rooting itself.
pub proof fn law_struct_with_must_root_field(g: GraphView, s: TypeId, i: int, u: TypeId)
    requires
        g.shape_of(s) matches ShapeView::Struct(fields) && 0 <= i < fields.len() && fields[i]
            == Some(u),
        g.verdict(u) == Verdict::MustRoot,
        !g.exempt(s),
    ensures
        g.verdict(s) == Verdict::MustRoot,
{
    assert(g.feeds(s, u));
    lemma_must_root_step(g, s, u);
}

/// An enum that is not exempt and has a variant with a field whose type
/// requires rooting requires rooting itself.
pub proof fn law_enum_with_must_root_field(g: GraphView, e: TypeId, v: int, i: int, u: TypeId)
    requires
        g.shape_of(e) matches ShapeView::Enum(variants) && 0 <= v < variants.len() && 0 <= i
            < variants[v].len() && variants[v][i] == Some(u),
        g.verdict(u) == Verdict::MustRoot,
        !g.exempt(e),
    ensures
        g.verdict(e) == Verdict::MustRoot,
{
    assert(g.feeds(e, u));
    lemma_must_root_step(g, e, u);
}

/// A struct or an enum that carries no marker which requires rooting, is not
/// exempt, and whose fields all have safe types is safe.
pub proof fn law_composite_of_safe_fields(g: GraphView, t: TypeId)
    requires
        g.is_composite(t),
        !g.rooted(t),
        !g.exempt(t),
        forall|u: TypeId| #[trigger] g.feeds(t, u) ==> g.verdict(u) == Verdict::Safe,
    ensures
        g.verdict(t) == Verdict::Safe,
{
    if g.known(t) {
        lemma_must_root_unfold(g, t);
    }
}

/// An instance of the rooting guard is exempt, whatever its type arguments
/// are, and so is the guard itself.
pub proof fn law_guard_is_exempt(g: GraphView, t: TypeId)
    requires
        g.known(t),
        g.is_guard(t),
    ensures
        g.verdict(t) == Verdict::Exempt,
{
}

/// An instance of the rooting guard is exempt whatever the verdict of its
/// payload is.
pub proof fn law_guarded_payload_is_exempt(g: GraphView, t: TypeId, guard: TypeId, args: Seq<TypeId>)
    requires
        g.known(t),
        g.known(guard),
        g.guard == Some(guard),
        g.decls[t as int].kind == (KindView::Instance { base: guard, args }),
    ensures
        g.verdict(t) == Verdict::Exempt,
{
    assert(g.declaration_of(t) == guard);
}

/// A declaration with the combined marker is private-only, has its traversal
/// derived, and requires rooting whatever its fields are, unless it is exempt.
pub proof fn law_combined_marker(g: GraphView, d: TypeId)
    requires
        g.known(d),
        g.decls[d as int].markers.combined,
    ensures
        g.markers_of(d).private_only(),
        g.markers_of(d).derives_trace(),
        g.markers_of(d).requires_rooting(),
        !g.exempt(d) ==> g.verdict(d) == Verdict::MustRoot,
{
    if !g.exempt(d) {
        lemma_reaches_self(g, d);
    }
}

/// An alias has the verdict of its target, unless it carries a marker of
/// its own that decides otherwise.
pub proof fn law_alias_follows_target(g: GraphView, a: TypeId, target: TypeId)
    requires
        g.shape_of(a) == ShapeView::Alias(target),
        !g.rooted(a),
        !g.exempt(a),
    ensures
        g.verdict(a) == Verdict::MustRoot <==> g.verdict(target) == Verdict::MustRoot,
        g.verdict(a) != Verdict::Exempt,
{
    assert(g.known(a));
    lemma_must_root_unfold(g, a);
    if g.verdict(target) == Verdict::MustRoot {
        assert(g.feeds(a, target));
    }
}

impl GraphView {
    /// The type that is met from `t` by going `k` times from a type to its
    /// sole content, if the way is that long.
    pub open spec fn content_after(self, t: TypeId, k: nat) -> Option<TypeId>
        decreases k,
    {
        if k == 0 {
            Some(t)
        } else {
            match self.sole_content(t) {
                Some(u) => self.content_after(u, (k - 1) as nat),
                None => None,
            }
        }
    }

    /// Whether the rooting guard is what is met from `t` after `k` steps.
    pub open spec fn meets_guard_after(self, t: TypeId, k: nat) -> bool {
        self.content_after(t, k) matches Some(u) && self.is_guard(u)
    }
}

/// A way of `a` and then `b` steps is a way of `a + b` steps.
proof fn lemma_content_after_sum(g: GraphView, t: TypeId, a: nat, b: nat)
    ensures
        g.content_after(t, a + b) == match g.content_after(t, a) {
            Some(u) => g.content_after(u, b),
            None => None,
        },
    decreases a,
{
    if a > 0 {
        match g.sole_content(t) {
            Some(u) => {
                lemma_content_after_sum(g, u, (a - 1) as nat, b);
                assert(((a + b) - 1) as nat == ((a - 1) as nat) + b);
            },
            None => {},
        }
    }
}

/// Where the guard is met within `steps` steps, it is met after some number
/// of steps that is no greater.
proof fn lemma_within_meets(g: GraphView, t: TypeId, steps: nat) -> (k: nat)
    requires
        g.wraps_guard_within(t, steps),
    ensures
        k <= steps,
        g.meets_guard_after(t, k),
    decreases steps,
{
    if g.is_guard(t) {
        0
    } else {
        let u = g.sole_content(t)->0;
        let k = lemma_within_meets(g, u, (steps - 1) as nat);
        k + 1
    }
}

/// Where the guard is met after `k` steps, it is met within any number of
/// steps that is no smaller.
proof fn lemma_meets_within(g: GraphView, t: TypeId, k: nat, steps: nat)
    requires
        k <= steps,
        g.meets_guard_after(t, k),
    ensures
        g.wraps_guard_within(t, steps),
    decreases steps,
{
    if !g.is_guard(t) {
        let u = g.sole_content(t)->0;
        lemma_meets_within(g, u, (k - 1) as nat, (steps - 1) as nat);
    }
}

/// Among more numbers than `n`, all of them below `n`, two are the same.
proof fn lemma_two_are_same(s: Seq<TypeId>, n: nat) -> (r: (int, int))
    requires
        s.len() == n + 1,
        forall|i: int| 0 <= i < s.len() ==> (#[trigger] s[i]) < n,
    ensures
        0 <= r.0 < r.1 < s.len(),
        s[r.0] == s[r.1],
    decreases n,
{
    if n == 0 {
        assert(s[0] < 0);
        (0, 0)
    } else {
        let top = (n - 1) as usize;
        if exists|p: int| 0 <= p < s.len() && s[p] == top {
            let p = choose|p: int| 0 <= p < s.len() && s[p] == top;
            if exists|q: int| 0 <= q < s.len() && q != p && s[q] == top {
                let q = choose|q: int| 0 <= q < s.len() && q != p && s[q] == top;
                if p < q {
                    (p, q)
                } else {
                    (q, p)
                }
            } else {
                let rest = Seq::new(
                    n,
                    |i: int|
                        if i < p {
                            s[i]
                        } else {
                            s[i + 1]
                        },
                );
                assert forall|i: int| 0 <= i < rest.len() implies (#[trigger] rest[i]) < n - 1 by {
                    if i < p {
                        assert(s[i] < n);
                    } else {
                        assert(s[i + 1] < n);
                    }
                }
                let (i, j) = lemma_two_are_same(rest, (n - 1) as nat);
                let a = if i < p {
                    i
                } else {
                    i + 1
                };
                let b = if j < p {
                    j
                } else {
                    j + 1
                };
                (a, b)
            }
        } else {
            let rest = s.drop_last();
            assert forall|i: int| 0 <= i < rest.len() implies (#[trigger] rest[i]) < n - 1 by {
                assert(s[i] < n);
            }
            lemma_two_are_same(rest, (n - 1) as nat)
        }
    }
}

/// Where the guard is met after `k` steps, it is met after no more steps
/// than the graph has types: a longer way meets a type twice, and what lies
/// between can be left out.
proof fn lemma_short_way(g: GraphView, t: TypeId, k: nat) -> (m: nat)
    requires
        g.meets_guard_after(t, k),
    ensures
        m <= g.decls.len(),
        g.meets_guard_after(t, m),
    decreases k,
{
    let n = g.decls.len();
    if k <= n {
        k
    } else {
        let met = Seq::new(n + 1, |i: int| g.content_after(t, i as nat)->0);
        assert forall|i: int| 0 <= i < met.len() implies (#[trigger] met[i]) < n by {
            lemma_content_after_sum(g, t, i as nat, 1);
            lemma_content_after_sum(g, t, (i + 1) as nat, (k - (i + 1)) as nat);
            assert((i + 1) as nat + (k - (i + 1)) as nat == k);
            let u = g.content_after(t, i as nat)->0;
            assert(g.content_after(u, 1) is Some);
            assert(g.sole_content(u) is Some);
        }
        let (i, j) = lemma_two_are_same(met, n);
        lemma_content_after_sum(g, t, j as nat, (k - j) as nat);
        lemma_content_after_sum(g, t, i as nat, (k - j) as nat);
        lemma_content_after_sum(g, t, i as nat, 1);
        lemma_content_after_sum(g, t, (i + 1) as nat, (k - (i + 1)) as nat);
        assert((i + 1) as nat + (k - (i + 1)) as nat == k);
        lemma_content_after_sum(g, t, j as nat, 1);
        lemma_content_after_sum(g, t, (j + 1) as nat, (k - (j + 1)) as nat);
        assert((j + 1) as nat + (k - (j + 1)) as nat == k);
        assert(j as nat + (k - j) as nat == k);
        assert(g.meets_guard_after(t, (i + (k - j)) as nat));
        lemma_short_way(g, t, (i + (k - j)) as nat)
    }
}

/// A type wraps the rooting guard exactly if the guard is met by going from
/// type to sole content some number of times: the bound on the steps leaves
/// nothing out.
pub proof fn law_wraps_guard_needs_no_bound(g: GraphView, t: TypeId)
    ensures
        g.wraps_guard(t) <==> exists|k: nat| g.meets_guard_after(t, k),
{
    if g.wraps_guard(t) {
        let k = lemma_within_meets(g, t, g.decls.len());
        assert(g.meets_guard_after(t, k));
    }
    if exists|k: nat| g.meets_guard_after(t, k) {
        let k = choose|k: nat| g.meets_guard_after(t, k);
        let m = lemma_short_way(g, t, k);
        lemma_meets_within(g, t, m, g.decls.len());
    }
}

} // verus!
