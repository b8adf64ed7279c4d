//! Nested lexical scopes that bind keys to values.

use vstd::prelude::*;
use std::collections::{HashMap, hash_map};
use std::hash::Hash;
use vstd::std_specs::hash::obeys_key_model;
use vstd::std_specs::iter::IteratorSpec;

verus! {

/// What one scope of a chain holds: its bindings, its information, and
/// whether it hides the scopes around it from lookups.
#[verifier::reject_recursive_types(K)]
pub struct FrameView<K, I, T> {
    pub bindings: Map<K, T>,
    pub info: I,
    pub blocking: bool,
}

/// A scope, together with the scopes that enclose it.
#[verifier::reject_recursive_types(K)]
pub struct Scope<K, I, T> where K: Eq + Hash, I: Default {
    parent: Option<Box<Scope<K, I, T>>>,
    bindings: HashMap<K, T>,
    info: I,
    blocking: bool,
    depth: usize,
}

/// What a lookup of `key` finds in `frames` (innermost first): the value of
/// the first scope that binds it, searching outwards until a blocking scope
/// has been searched.
pub open spec fn lookup<K, I, T>(frames: Seq<FrameView<K, I, T>>, key: K) -> Option<T>
    decreases frames.len(),
{
    if frames.len() == 0 {
        None
    } else if frames[0].bindings.contains_key(key) {
        Some(frames[0].bindings[key])
    } else if !frames[0].blocking {
        lookup(frames.drop_first(), key)
    } else {
        None
    }
}

/// The scopes of `frames` (innermost first) that a lookup searches: all of
/// them up to and including the first blocking one.
pub open spec fn visible<K, I, T>(frames: Seq<FrameView<K, I, T>>) -> Seq<FrameView<K, I, T>>
    decreases frames.len(),
{
    if frames.len() == 0 {
        Seq::empty()
    } else if frames[0].blocking {
        seq![frames[0]]
    } else {
        seq![frames[0]] + visible(frames.drop_first())
    }
}

/// Whether `pred` was seen to reject every value of `values`.
pub open spec fn all_rejected<T, P: Fn(&T) -> bool>(pred: P, values: Set<T>) -> bool {
    forall|u: T| values.contains(u) ==> #[trigger] pred.ensures((&u,), false)
}

/// Whether `v` is what a search of `frames` (innermost first) with `pred` may
/// give: a value of the first scope holding one that `pred` accepts, searching
/// outwards until a blocking scope has been searched.
pub open spec fn found<K, I, T, P: Fn(&T) -> bool>(frames: Seq<FrameView<K, I, T>>, pred: P, v: T) -> bool
    decreases frames.len(),
{
    frames.len() > 0 && (
        (frames[0].bindings.values().contains(v) && pred.ensures((&v,), true))
        || (all_rejected(pred, frames[0].bindings.values()) && !frames[0].blocking
            && found(frames.drop_first(), pred, v)))
}

/// Whether a search of `frames` (innermost first) with `pred` may find
/// nothing: `pred` rejects every value of every scope it searches.
pub open spec fn none_found<K, I, T, P: Fn(&T) -> bool>(frames: Seq<FrameView<K, I, T>>, pred: P) -> bool
    decreases frames.len(),
{
    frames.len() == 0 || (all_rejected(pred, frames[0].bindings.values())
        && (frames[0].blocking || none_found(frames.drop_first(), pred)))
}

/// The information of each scope of `frames`, innermost first.
pub open spec fn infos<K, I, T>(frames: Seq<FrameView<K, I, T>>) -> Seq<I> {
    frames.map_values(|f: FrameView<K, I, T>| f.info)
}

/// After `key` is bound to `val` in the innermost scope, a lookup of `key`
/// gives `val`, and a lookup of any other key gives what it gave before.
pub proof fn lemma_lookup_after_insert<K, I, T>(frames: Seq<FrameView<K, I, T>>, key: K, val: T, other: K)
    requires
        frames.len() > 0,
    ensures
        ({
            let after = frames.update(0, FrameView { bindings: frames[0].bindings.insert(key, val), ..frames[0] });
            &&& lookup(after, key) == Some(val)
            &&& other != key ==> lookup(after, other) == lookup(frames, other)
        }),
{
    let after = frames.update(0, FrameView { bindings: frames[0].bindings.insert(key, val), ..frames[0] });
    assert(after.drop_first() =~= frames.drop_first());
}

/// A lookup through a freshly opened scope that does not block gives what
/// it gave before; through one that blocks, it finds nothing.
pub proof fn lemma_lookup_after_open<K, I, T>(frames: Seq<FrameView<K, I, T>>, info: I, blocking: bool, key: K)
    ensures
        ({
            let after = seq![FrameView { bindings: Map::<K, T>::empty(), info, blocking }] + frames;
            &&& !blocking ==> lookup(after, key) == lookup(frames, key)
            &&& blocking ==> lookup(after, key) is None
        }),
{
    let after = seq![FrameView { bindings: Map::<K, T>::empty(), info, blocking }] + frames;
    assert(after.drop_first() =~= frames);
}

/// Closing a scope that was just opened gives back the scopes as they were.
pub proof fn lemma_close_undoes_open<K, I, T>(frames: Seq<FrameView<K, I, T>>, opened: FrameView<K, I, T>)
    ensures
        (seq![opened] + frames).drop_first() == frames,
{
    assert((seq![opened] + frames).drop_first() =~= frames);
}

/// One change to a chain of scopes, as `open`, `close`, `insert` and
/// `infos_mut` make it: a new scope with the given blocking and information,
/// the innermost scope left, a binding in the innermost scope, or new
/// information for the innermost scope.
pub enum ScopeStep<K, I, T> {
    Open(bool, I),
    Close,
    Insert(K, T),
    SetInfo(I),
}

/// The scopes (innermost first) after `step`.
pub open spec fn step_frames<K, I, T>(frames: Seq<FrameView<K, I, T>>, step: ScopeStep<K, I, T>) -> Seq<FrameView<K, I, T>> {
    match step {
        ScopeStep::Open(blocking, info) => seq![FrameView { bindings: Map::<K, T>::empty(), info, blocking }] + frames,
        ScopeStep::Close => frames.drop_first(),
        ScopeStep::Insert(key, val) => frames.update(0, FrameView { bindings: frames[0].bindings.insert(key, val), ..frames[0] }),
        ScopeStep::SetInfo(info) => frames.update(0, FrameView { info, ..frames[0] }),
    }
}

/// The scopes after each of `steps` in order.
pub open spec fn run_steps<K, I, T>(frames: Seq<FrameView<K, I, T>>, steps: Seq<ScopeStep<K, I, T>>) -> Seq<FrameView<K, I, T>>
    decreases steps.len(),
{
    if steps.len() == 0 {
        frames
    } else {
        run_steps(step_frames(frames, steps[0]), steps.drop_first())
    }
}

/// Whether `steps`, made while `depth` scopes stand above some base scope,
/// never close the base scope or any below it, and leave `extra` more scopes
/// open than there were at the start.
pub open spec fn nested<K, I, T>(steps: Seq<ScopeStep<K, I, T>>, depth: nat, extra: int) -> bool
    decreases steps.len(),
{
    if steps.len() == 0 {
        extra == 0
    } else {
        match steps[0] {
            ScopeStep::Open(..) => nested(steps.drop_first(), depth + 1, extra - 1),
            ScopeStep::Close => depth > 0 && nested(steps.drop_first(), (depth - 1) as nat, extra + 1),
            _ => nested(steps.drop_first(), depth, extra),
        }
    }
}

/// Steps that stay within the scopes opened at most `depth` levels above
/// the innermost one of `top + frames` leave `frames` as they were below.
proof fn lemma_run_keeps_below<K, I, T>(
    top: Seq<FrameView<K, I, T>>,
    frames: Seq<FrameView<K, I, T>>,
    steps: Seq<ScopeStep<K, I, T>>,
    extra: int,
)
    requires
        top.len() >= 1,
        nested(steps, (top.len() - 1) as nat, extra),
    ensures
        run_steps(top + frames, steps).len() == top.len() + frames.len() + extra,
        run_steps(top + frames, steps).subrange(top.len() + extra, top.len() + frames.len() + extra) == frames,
    decreases steps.len(),
{
    if steps.len() == 0 {
        assert((top + frames).subrange(top.len() as int, (top.len() + frames.len()) as int) =~= frames);
    } else {
        let rest = steps.drop_first();
        let next_top = match steps[0] {
            ScopeStep::Open(blocking, info) => seq![FrameView { bindings: Map::<K, T>::empty(), info, blocking }] + top,
            ScopeStep::Close => top.drop_first(),
            ScopeStep::Insert(key, val) => top.update(0, FrameView { bindings: top[0].bindings.insert(key, val), ..top[0] }),
            ScopeStep::SetInfo(info) => top.update(0, FrameView { info, ..top[0] }),
        };
        assert(step_frames(top + frames, steps[0]) =~= next_top + frames);
        match steps[0] {
            ScopeStep::Open(..) => lemma_run_keeps_below(next_top, frames, rest, extra - 1),
            ScopeStep::Close => lemma_run_keeps_below(next_top, frames, rest, extra + 1),
            _ => lemma_run_keeps_below(next_top, frames, rest, extra),
        }
    }
}

/// Running `a` then `b` is running `a + b`.
proof fn lemma_run_append<K, I, T>(frames: Seq<FrameView<K, I, T>>, a: Seq<ScopeStep<K, I, T>>, b: Seq<ScopeStep<K, I, T>>)
    ensures
        run_steps(frames, a + b) == run_steps(run_steps(frames, a), b),
    decreases a.len(),
{
    if a.len() > 0 {
        assert((a + b).drop_first() =~= a.drop_first() + b);
        assert((a + b)[0] == a[0]);
        lemma_run_append(step_frames(frames, a[0]), a.drop_first(), b);
    } else {
        assert(a + b =~= b);
    }
}

/// Opening a scope, making any changes that close no more scopes than they
/// open and leave none of them open, then closing it gives back the scopes
/// as they were: every change made inside is discarded.
pub proof fn lemma_close_restores<K, I, T>(
    frames: Seq<FrameView<K, I, T>>,
    blocking: bool,
    info: I,
    steps: Seq<ScopeStep<K, I, T>>,
)
    requires
        nested(steps, 0, 0),
    ensures
        run_steps(frames, seq![ScopeStep::Open(blocking, info)] + steps + seq![ScopeStep::<K, I, T>::Close]) == frames,
{
    let opened = seq![FrameView { bindings: Map::<K, T>::empty(), info, blocking }];
    let open = seq![ScopeStep::<K, I, T>::Open(blocking, info)];
    let close = seq![ScopeStep::<K, I, T>::Close];
    lemma_run_append(frames, open + steps, close);
    lemma_run_append(frames, open, steps);
    assert(open.drop_first() =~= Seq::<ScopeStep<K, I, T>>::empty());
    assert(open[0] == ScopeStep::<K, I, T>::Open(blocking, info));
    assert(step_frames(frames, open[0]) =~= opened + frames);
    assert(run_steps(step_frames(frames, open[0]), open.drop_first()) == step_frames(frames, open[0]));
    assert(run_steps(frames, open) == opened + frames);
    lemma_run_keeps_below(opened, frames, steps, 0);
    let after = run_steps(opened + frames, steps);
    assert(after.drop_first() =~= after.subrange(1, (1 + frames.len()) as int));
    assert(close.drop_first() =~= Seq::<ScopeStep<K, I, T>>::empty());
    assert(close[0] == ScopeStep::<K, I, T>::Close);
    assert(run_steps(after.drop_first(), close.drop_first()) == after.drop_first());
    assert(run_steps(after, close) == after.drop_first());
}

/// A lookup that finds a value finds it in one of the scopes it searches.
pub proof fn lemma_lookup_in_visible<K, I, T>(frames: Seq<FrameView<K, I, T>>, key: K)
    ensures
        lookup(frames, key) matches Some(v) ==> exists|i: int| 0 <= i < visible(frames).len()
            && #[trigger] visible(frames)[i].bindings.contains_key(key) && visible(frames)[i].bindings[key] == v,
    decreases frames.len(),
{
    if frames.len() > 0 && !frames[0].bindings.contains_key(key) && !frames[0].blocking {
        lemma_lookup_in_visible(frames.drop_first(), key);
        if let Some(v) = lookup(frames, key) {
            let rest = frames.drop_first();
            let i = choose|i: int| 0 <= i < visible(rest).len()
                && #[trigger] visible(rest)[i].bindings.contains_key(key) && visible(rest)[i].bindings[key] == v;
            assert(visible(frames)[i + 1] == visible(rest)[i]);
        }
    } else if frames.len() > 0 && frames[0].bindings.contains_key(key) {
        assert(visible(frames)[0] == frames[0]);
    }
}

impl<K, I, T> Scope<K, I, T> where K: Eq + Hash, I: Default {
    /// The scopes of the chain, from this one outwards.
    pub closed spec fn frames(&self) -> Seq<FrameView<K, I, T>>
        decreases self,
    {
        let here = FrameView { bindings: self.bindings@, info: self.info, blocking: self.blocking };
        match self.parent {
            None => seq![here],
            Some(parent) => seq![here] + parent.frames(),
        }
    }

    /// The recorded depth agrees with the number of enclosing scopes.
    pub closed spec fn wf(&self) -> bool
        decreases self,
    {
        match self.parent {
            None => self.depth == 0,
            Some(parent) => self.depth == parent.depth + 1 && parent.wf(),
        }
    }

    proof fn lemma_frames_len(&self)
        requires
            self.wf(),
        ensures
            self.frames().len() == self.depth + 1,
            self.frames().len() >= 1,
        decreases self,
    {
        if let Some(parent) = &self.parent {
            parent.lemma_frames_len();
        }
    }

    fn new(blocking: bool, depth: usize) -> (s: Self)
        ensures
            s.wf() <==> depth == 0,
            s.frames() == seq![FrameView { bindings: Map::<K, T>::empty(), info: s.frames()[0].info, blocking }],
            s.depth == depth,
            call_ensures(I::default, (), s.frames()[0].info),
    {
        Self { parent: None, bindings: HashMap::new(), info: I::default(), blocking, depth }
    }

    /// A single scope, binding nothing and blocking nothing, whose
    /// information is what `I::default` gives.
    pub fn root() -> (s: Self)
        ensures
            s.wf(),
            s.frames().len() == 1,
            s.frames()[0].bindings == Map::<K, T>::empty(),
            !s.frames()[0].blocking,
            call_ensures(I::default, (), s.frames()[0].info),
    {
        Self { parent: None, bindings: HashMap::new(), info: I::default(), blocking: false, depth: 0 }
    }

    /// The number of scopes that enclose this one.
    pub fn depth(&self) -> (d: usize)
        requires
            self.wf(),
        ensures
            d == self.frames().len() - 1,
    {
        proof {
            self.lemma_frames_len();
        }
        self.depth
    }

    /// Enters a new innermost scope, binding nothing, whose information is
    /// what `I::default` gives; a blocking scope hides the scopes around it
    /// from lookups.
    pub fn open(&mut self, blocking: bool)
        requires
            old(self).wf(),
            old(self).frames().len() < usize::MAX,
        ensures
            final(self).wf(),
            final(self).frames().len() == old(self).frames().len() + 1,
            final(self).frames().drop_first() == old(self).frames(),
            final(self).frames()[0].bindings == Map::<K, T>::empty(),
            final(self).frames()[0].blocking == blocking,
            call_ensures(I::default, (), final(self).frames()[0].info),
    {
        proof {
            self.lemma_frames_len();
        }
        let mut scope = Self::new(blocking, self.depth + 1);
        std::mem::swap(self, &mut scope);
        self.parent = Some(Box::new(scope));
        proof {
            assert(final(self).frames().drop_first() =~= old(self).frames());
        }
    }

    /// Leaves the innermost scope; there must be an enclosing one.
    pub fn close(&mut self)
        requires
            old(self).wf(),
            old(self).frames().len() > 1,
        ensures
            final(self).wf(),
            final(self).frames() == old(self).frames().drop_first(),
    {
        let parent = self.parent.take();
        match parent {
            Some(parent) => {
                *self = *parent;
            },
            None => {},
        }
    }

    /// The value bound to `key` in the nearest scope that binds it, searching
    /// outwards from this scope until a blocking scope has been searched.
    pub fn search(&self, key: K) -> (res: Option<&T>)
        ensures
            obeys_key_model::<K>() ==> match res {
                Some(v) => lookup(self.frames(), key) == Some(*v),
                None => lookup(self.frames(), key) is None,
            },
        decreases self,
    {
        broadcast use vstd::std_specs::hash::group_hash_axioms;

        let ghost f = self.frames();
        proof {
            assert(f[0].bindings == self.bindings@);
            assert(f[0].blocking == self.blocking);
        }
        match self.bindings.get(&key) {
            Some(value) => {
                proof {
                    if obeys_key_model::<K>() {
                        assert(f[0].bindings.contains_key(key));
                        assert(lookup(f, key) == Some(*value));
                    }
                }
                Some(value)
            },
            None => {
                if !self.blocking {
                    if let Some(parent) = &self.parent {
                        let res = parent.search(key);
                        proof {
                            assert(f.drop_first() =~= parent.frames());
                            if obeys_key_model::<K>() {
                                assert(!f[0].bindings.contains_key(key));
                                assert(lookup(f, key) == lookup(parent.frames(), key));
                            }
                        }
                        return res;
                    }
                }
                proof {
                    if self.parent.is_none() {
                        assert(f.drop_first() =~= Seq::<FrameView<K, I, T>>::empty());
                    }
                    if obeys_key_model::<K>() {
                        assert(!f[0].bindings.contains_key(key));
                        if self.blocking {
                            assert(lookup(f, key) is None);
                        } else {
                            assert(lookup(f.drop_first(), key) is None);
                            assert(lookup(f, key) is None);
                        }
                    }
                }
                None
            },
        }
    }

    /// A value of the nearest scope holding one that `predicate` accepts,
    /// searching outwards from this scope until a blocking scope has been
    /// searched.
    #[verifier::loop_isolation(false)]
    pub fn find<P>(&self, predicate: P) -> (res: Option<&T>)
        where P: Fn(&T) -> bool,
        requires
            obeys_key_model::<K>(),
            forall|t: &T| predicate.requires((t,)),
        ensures
            match res {
                Some(v) => found(self.frames(), predicate, *v),
                None => none_found(self.frames(), predicate),
            },
        decreases self,
    {
        broadcast use vstd::std_specs::hash::group_hash_axioms;

        let ghost f = self.frames();
        let values = self.bindings.values();
        let ghost all = values.remaining();
        let ghost mut done: int = 0;
        for value in it: values
            invariant
                it.seq() == all,
                done == it.index(),
                forall|t: &T| predicate.requires((t,)),
                forall|k: int| 0 <= k < done ==> predicate.ensures((all[k],), false),
        {
            if predicate(value) {
                proof {
                    assert(f[0].bindings == self.bindings@);
                    assert(all.unref().to_set().contains(*value)) by {
                        assert(all.unref()[done] == *value);
                    }
                    assert(self.bindings@.values().contains(*value));
                    assert(predicate.ensures((value,), true));
                    assert(found(f, predicate, *value));
                }
                return Some(value);
            }
            proof {
                done = done + 1;
            }
        }
        proof {
            assert(f[0].bindings == self.bindings@);
            assert(done == all.len());
            assert forall|u: T| self.bindings@.values().contains(u) implies #[trigger] predicate.ensures((&u,), false) by {
                assert(all.unref().to_set().contains(u));
                let k = choose|k: int| 0 <= k < all.unref().len() && all.unref()[k] == u;
                assert(all[k] == &u);
            }
            assert(all_rejected(predicate, f[0].bindings.values()));
        }
        if !self.blocking {
            if let Some(parent) = &self.parent {
                let res = parent.find(predicate);
                proof {
                    assert(f.drop_first() =~= parent.frames());
                    assert(f[0].blocking == self.blocking);
                    if let Some(v) = res {
                        assert(found(f.drop_first(), predicate, *v));
                        assert(found(f, predicate, *v));
                    }
                }
                return res;
            }
        }
        proof {
            assert(f[0].blocking == self.blocking);
            if self.parent.is_none() {
                assert(f.drop_first() =~= Seq::<FrameView<K, I, T>>::empty());
                assert(none_found(f.drop_first(), predicate));
            }
        }
        None
    }

    /// Binds `key` to `val` in this scope, and gives the value it was bound
    /// to there before, if any.
    pub fn insert(&mut self, key: K, val: T) -> (res: Option<T>)
        requires
            old(self).wf(),
        ensures
            final(self).wf(),
            obeys_key_model::<K>() ==> {
                &&& final(self).frames() == old(self).frames().update(
                    0,
                    FrameView { bindings: old(self).frames()[0].bindings.insert(key, val), ..old(self).frames()[0] },
                )
                &&& res == old(self).frames()[0].bindings.get(key)
            },
    {
        broadcast use vstd::std_specs::hash::group_hash_axioms;

        let res = self.bindings.insert(key, val);
        proof {
            if obeys_key_model::<K>() {
                let f = old(self).frames();
                assert(final(self).frames() =~= f.update(
                    0,
                    FrameView { bindings: f[0].bindings.insert(key, val), ..f[0] },
                ));
            }
        }
        res
    }

    /// The bindings of this scope, and of none around it, in the order in
    /// which the map hands them out: each key it binds once, with its value.
    pub fn iter(&self) -> (it: hash_map::Iter<'_, K, T>)
        ensures
            obeys_key_model::<K>() ==> it == vstd::std_specs::hash::spec_hash_map_iter(self.bindings_map()),
            self.bindings_map()@ == self.frames()[0].bindings,
            obeys_key_model::<K>() ==> ({
                let v = it.remaining();
                let b = self.frames()[0].bindings;
                &&& v.len() == b.dom().len()
                &&& forall|i: int| 0 <= i < v.len() ==> b.contains_key(*(#[trigger] v[i]).0) && b[*v[i].0] == *v[i].1
                &&& forall|k: K| #[trigger] b.contains_key(k) ==> v.contains((&k, &b[k]))
            }),
    {
        broadcast use vstd::std_specs::hash::axiom_spec_hash_map_iter;
        self.bindings.iter()
    }

    /// The map of this scope's own bindings.
    pub closed spec fn bindings_map(&self) -> &HashMap<K, T> {
        &self.bindings
    }

    /// This scope's information, to read or change.
    pub fn infos_mut(&mut self) -> (info: &mut I)
        requires
            old(self).wf(),
        ensures
            *info == old(self).frames()[0].info,
            final(self).wf(),
            final(self).frames() == old(self).frames().update(
                0,
                FrameView { info: *final(info), ..old(self).frames()[0] },
            ),
    {
        &mut self.info
    }

    /// The information of each scope, from this one outwards.
    pub fn infos_iter(&self) -> (it: ScopeInfoIterator<'_, K, I, T>)
        ensures
            it.remaining() == infos(self.frames()),
    {
        ScopeInfoIterator { scope: Some(self) }
    }

} // impl

/// A walk over the bindings of a scope and then of each enclosing one: the
/// bindings still to hand out of the scope being walked, and the scope to
/// walk next.
#[verifier::reject_recursive_types(K)]
pub struct ScopeIterator<'a, K, I, T> where K: Eq + Hash, I: Default {
    iter: hash_map::Iter<'a, K, T>,
    next_scope: Option<&'a Scope<K, I, T>>,
}

/// Hands out the information of a scope and then of each enclosing one.
#[verifier::reject_recursive_types(K)]
pub struct ScopeInfoIterator<'a, K, I, T> where K: Eq + Hash, I: Default {
    scope: Option<&'a Scope<K, I, T>>,
}

impl<'a, K, I, T> ScopeInfoIterator<'a, K, I, T> where K: Eq + Hash, I: Default {
    /// The information still to be handed out, in order.
    pub closed spec fn remaining(&self) -> Seq<I> {
        match self.scope {
            None => Seq::empty(),
            Some(scope) => infos(scope.frames()),
        }
    }

    /// The next scope's information, if any is left.
    pub fn next(&mut self) -> (res: Option<&'a I>)
        ensures
            old(self).remaining().len() == 0 ==> res is None && final(self).remaining() == old(self).remaining(),
            old(self).remaining().len() > 0 ==> res == Some(&old(self).remaining()[0])
                && final(self).remaining() == old(self).remaining().drop_first(),
    {
        let scope = match self.scope {
            Some(scope) => scope,
            None => return None,
        };
        let i = Some(&scope.info);
        self.scope = match &scope.parent {
            Some(parent) => Some(&**parent),
            None => None,
        };
        proof {
            assert(final(self).remaining() =~= old(self).remaining().drop_first());
        }
        i
    }
}

} // verus!
