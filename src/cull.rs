//! The per-frame diff between the renderables bound to a drawable entity
//! and those now in view.

use vstd::prelude::*;

verus! {

/// What a sequence with one more item at its end contains.
proof fn lemma_push_contains<A>(s: Seq<A>, a: A)
    ensures
        forall|x: A| #[trigger] s.push(a).contains(x) <==> s.contains(x) || x == a,
{
    assert forall|x: A| #[trigger] s.push(a).contains(x) <==> s.contains(x) || x == a by {
        if s.contains(x) {
            let i = choose|i: int| 0 <= i < s.len() && s[i] == x;
            assert(s.push(a)[i] == x);
        }
        if x == a {
            assert(s.push(a)[s.len() as int] == a);
        }
        if s.push(a).contains(x) {
            let i = choose|i: int| 0 <= i < s.len() + 1 && s.push(a)[i] == x;
            if i < s.len() {
                assert(s[i] == x);
            }
        }
    }
}

/// What the renderer must do after a view update: create an entity for each
/// renderable in `spawn`, and despawn each `(renderable, entity)` in
/// `despawn`.
#[derive(Debug)]
pub struct CullPlan {
    pub spawn: Vec<usize>,
    pub despawn: Vec<(usize, u64)>,
}

/// Which renderables are in view, and which entity each of them is bound to.
#[derive(Debug)]
pub struct ViewportCuller {
    bound: Vec<Option<u64>>,
    shown: Vec<usize>,
    marks: Vec<bool>,
}

impl ViewportCuller {
    /// The entity that each renderable is bound to.
    pub closed spec fn bound(&self) -> Seq<Option<u64>> {
        self.bound@
    }

    /// The renderables found in view by the last update.
    pub closed spec fn shown(&self) -> Seq<usize> {
        self.shown@
    }

    pub closed spec fn wf(&self) -> bool {
        &&& self.marks@.len() == self.bound@.len()
        &&& forall|i: int| 0 <= i < self.marks@.len() ==> !(#[trigger] self.marks@[i])
        &&& forall|k: int| 0 <= k < self.shown@.len() ==> (#[trigger] self.shown@[k]) < self.bound@.len()
    }

    /// A culler for `n` renderables, none bound and none in view.
    pub fn new(n: usize) -> (r: ViewportCuller)
        ensures
            r.wf(),
            r.bound() == Seq::new(n as nat, |i: int| None::<u64>),
            r.shown() == Seq::<usize>::empty(),
    {
        let mut bound: Vec<Option<u64>> = Vec::new();
        let mut marks: Vec<bool> = Vec::new();
        let mut i: usize = 0;
        while i < n
            invariant
                i <= n,
                bound@ == Seq::new(i as nat, |i: int| None::<u64>),
                marks@.len() == i,
                forall|j: int| 0 <= j < i ==> !(#[trigger] marks@[j]),
            decreases n - i,
        {
            bound.push(None);
            marks.push(false);
            i = i + 1;
            assert(bound@ =~= Seq::new(i as nat, |i: int| None::<u64>));
        }
        ViewportCuller { bound, shown: Vec::new(), marks }
    }

    /// The number of renderables.
    pub fn len(&self) -> (r: usize)
        ensures
            r == self.bound().len(),
    {
        self.bound.len()
    }

    /// The entity that renderable `i` is bound to.
    pub fn entity(&self, i: usize) -> (r: Option<u64>)
        requires
            i < self.bound().len(),
        ensures
            r == self.bound()[i as int],
    {
        self.bound[i]
    }

    /// Records that renderable `i` is now drawn by `entity`.
    pub fn bind(&mut self, i: usize, entity: u64)
        requires
            old(self).wf(),
            i < old(self).bound().len(),
        ensures
            final(self).wf(),
            final(self).bound() == old(self).bound().update(i as int, Some(entity)),
            final(self).shown() == old(self).shown(),
    {
        self.bound.set(i, Some(entity));
    }

    /// Takes `current` as the renderables now in view. Those in view and not
    /// bound are to be spawned; those in view at the last update, no longer
    /// in view and bound are to be despawned and become unbound; the others,
    /// in particular those in view both times, get no event.
    pub fn update(&mut self, current: &Vec<usize>) -> (plan: CullPlan)
        requires
            old(self).wf(),
            forall|k: int| 0 <= k < current@.len() ==> (#[trigger] current@[k]) < old(self).bound().len(),
        ensures
            final(self).wf(),
            final(self).bound().len() == old(self).bound().len(),
            forall|i: usize|
                #[trigger] plan.spawn@.contains(i) <==> current@.contains(i) && old(self).bound()[i as int] is None,
            forall|t: (usize, u64)|
                #[trigger] plan.despawn@.contains(t) <==> old(self).shown().contains(t.0)
                    && !current@.contains(t.0) && old(self).bound()[t.0 as int] == Some(t.1),
            forall|i: int|
                0 <= i < old(self).bound().len() ==> #[trigger] final(self).bound()[i] == if old(
                    self,
                ).shown().contains(i as usize) && !current@.contains(i as usize) {
                    None
                } else {
                    old(self).bound()[i]
                },
            forall|i: usize| #[trigger] final(self).shown().contains(i) <==> current@.contains(i),
    {
        let n = self.bound.len();
        let ghost old_bound = self.bound@;
        let ghost old_shown = self.shown@;
        // Mark the renderables in view, once each.
        let mut now: Vec<usize> = Vec::new();
        let mut j: usize = 0;
        while j < current.len()
            invariant
                n == self.bound@.len(),
                self.marks@.len() == n,
                self.bound@ == old_bound,
                self.shown@ == old_shown,
                forall|k: int| 0 <= k < current@.len() ==> (#[trigger] current@[k]) < n,
                forall|k: int| 0 <= k < old_shown.len() ==> (#[trigger] old_shown[k]) < n,
                j <= current@.len(),
                forall|i: int| 0 <= i < n ==> (#[trigger] self.marks@[i] <==> current@.take(j as int).contains(i as usize)),
                forall|i: usize| #[trigger] now@.contains(i) <==> current@.take(j as int).contains(i),
                now@.no_duplicates(),
                forall|k: int| 0 <= k < now@.len() ==> (#[trigger] now@[k]) < n,
            decreases current.len() - j,
        {
            let c = current[j];
            assert(current@.take(j + 1) =~= current@.take(j as int).push(c));
            proof {
                lemma_push_contains(current@.take(j as int), c);
                lemma_push_contains(now@, c);
            }
            if !self.marks[c] {
                let ghost prev = now@;
                self.marks.set(c, true);
                now.push(c);
                assert(now@.no_duplicates()) by {
                    assert forall|a: int, b: int|
                        0 <= a < now@.len() && 0 <= b < now@.len() && a != b implies now@[a] != now@[b] by {
                        if a == prev.len() {
                            assert(!prev.contains(c));
                            if now@[a] == now@[b] {
                                assert(prev[b] == c);
                            }
                        } else if b == prev.len() {
                            assert(!prev.contains(c));
                            if now@[a] == now@[b] {
                                assert(prev[a] == c);
                            }
                        }
                    }
                }
            }
            j = j + 1;
        }
        assert(current@.take(j as int) =~= current@);
        // Despawn what left the view.
        let mut despawn: Vec<(usize, u64)> = Vec::new();
        let mut k: usize = 0;
        while k < self.shown.len()
            invariant
                n == self.bound@.len(),
                self.marks@.len() == n,
                self.shown@ == old_shown,
                forall|k2: int| 0 <= k2 < old_shown.len() ==> (#[trigger] old_shown[k2]) < n,
                k <= old_shown.len(),
                forall|i: int| 0 <= i < n ==> (#[trigger] self.marks@[i] <==> current@.contains(i as usize)),
                forall|i: int|
                    0 <= i < n ==> #[trigger] self.bound@[i] == if old_shown.take(k as int).contains(
                        i as usize,
                    ) && !current@.contains(i as usize) {
                        None
                    } else {
                        old_bound[i]
                    },
                forall|t: (usize, u64)|
                    #[trigger] despawn@.contains(t) <==> old_shown.take(k as int).contains(t.0)
                        && !current@.contains(t.0) && old_bound[t.0 as int] == Some(t.1),
            decreases old_shown.len() - k,
        {
            let p = self.shown[k];
            assert(old_shown.take(k + 1) =~= old_shown.take(k as int).push(p));
            proof {
                lemma_push_contains(old_shown.take(k as int), p);
                if let Some(e) = self.bound@[p as int] {
                    lemma_push_contains(despawn@, (p, e));
                }
            }
            if !self.marks[p] {
                if let Some(e) = self.bound[p] {
                    despawn.push((p, e));
                }
                self.bound.set(p, None);
            }
            k = k + 1;
        }
        assert(old_shown.take(k as int) =~= old_shown);
        // Spawn what entered the view, and clear the marks.
        let mut spawn: Vec<usize> = Vec::new();
        let mut m: usize = 0;
        while m < now.len()
            invariant
                n == self.bound@.len(),
                self.marks@.len() == n,
                forall|i: usize| #[trigger] now@.contains(i) <==> current@.contains(i),
                forall|k2: int| 0 <= k2 < current@.len() ==> (#[trigger] current@[k2]) < n,
                now@.no_duplicates(),
                forall|k2: int| 0 <= k2 < now@.len() ==> (#[trigger] now@[k2]) < n,
                m <= now@.len(),
                forall|i: int|
                    0 <= i < n ==> (#[trigger] self.marks@[i] <==> current@.contains(i as usize)
                        && !now@.take(m as int).contains(i as usize)),
                forall|i: int|
                    0 <= i < n ==> #[trigger] self.bound@[i] == if old_shown.contains(i as usize)
                        && !current@.contains(i as usize) {
                        None
                    } else {
                        old_bound[i]
                    },
                forall|i: usize|
                    #[trigger] spawn@.contains(i) <==> now@.take(m as int).contains(i)
                        && old_bound[i as int] is None,
            decreases now.len() - m,
        {
            let c = now[m];
            assert(now@.take(m + 1) =~= now@.take(m as int).push(c));
            assert(now@[m as int] == c);
            assert(now@.contains(c));
            assert(current@.contains(c));
            proof {
                lemma_push_contains(now@.take(m as int), c);
                lemma_push_contains(spawn@, c);
            }
            if self.bound[c].is_none() {
                spawn.push(c);
            }
            self.marks.set(c, false);
            m = m + 1;
        }
        assert(now@.take(m as int) =~= now@);
        self.shown = now;
        CullPlan { spawn, despawn }
    }
}

} // verus!
