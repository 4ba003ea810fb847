//! The types that a search for a member can come across. There are finitely
//! many, so a search either ends or comes across a type again in the course of
//! the search for that very type.

use crate::cache::{InferOut, Step};
use crate::db::DbIndex;
use crate::laws::kept::{law_by_key_is_kept, law_by_operator_is_kept};
use crate::model::{by_key, by_key_comes_to, by_operator, by_operator_comes_to, Scope};
use crate::types::Ty;
use vstd::prelude::*;

verus! {

// ---------------------------------------------------------------------------
// Finitely many types
// ---------------------------------------------------------------------------

/// The types that are in the set of some key.
pub open spec fn gathered<K>(keys: Set<K>, of: spec_fn(K) -> Set<Ty>) -> Set<Ty> {
    Set::new(|x: Ty| exists|k: K| keys.contains(k) && #[trigger] of(k).contains(x))
}

/// Finitely many types for finitely many keys make finitely many types.
proof fn lemma_gathered_finite<K>(keys: Set<K>, of: spec_fn(K) -> Set<Ty>)
    requires
        keys.finite(),
        forall|k: K| keys.contains(k) ==> (#[trigger] of(k)).finite(),
    ensures
        gathered(keys, of).finite(),
    decreases keys.len(),
{
    if keys.len() == 0 {
        assert(gathered(keys, of) =~= Set::empty());
    } else {
        let k = keys.choose();
        lemma_gathered_finite(keys.remove(k), of);
        let all = gathered(keys, of);
        let rest = gathered(keys.remove(k), of);
        assert forall|x: Ty| all.contains(x) implies rest.union(of(k)).contains(x) by {
            let h = choose|h: K| keys.contains(h) && #[trigger] of(h).contains(x);
            if h != k {
                assert(keys.remove(k).contains(h));
            }
        }
        assert(rest.union(of(k)).finite());
        vstd::set_lib::lemma_len_subset(all, rest.union(of(k)));
    }
}

/// A type with all the types that it is made of and whose members it can have.
pub open spec fn parts(t: Ty) -> Set<Ty>
    decreases t,
{
    match t {
        Ty::Union(types) => joined(each_parts(types)).insert(t),
        Ty::Intersection(types) => joined(each_parts(types)).insert(t),
        Ty::Generic(base, _) => parts(*base).insert(t),
        Ty::Instance(base, _) => parts(*base).insert(t),
        _ => Set::empty().insert(t),
    }
}

/// The parts of each of several types.
pub open spec fn each_parts(types: Seq<Ty>) -> Seq<Set<Ty>>
    decreases types,
{
    Seq::new(
        types.len(),
        |i: int|
            if 0 <= i < types.len() {
                parts(types[i])
            } else {
                Set::empty()
            },
    )
}

/// The types that are in one of the sets.
pub open spec fn joined(sets: Seq<Set<Ty>>) -> Set<Ty> {
    Set::new(|x: Ty| exists|i: int| 0 <= i < sets.len() && #[trigger] sets[i].contains(x))
}

proof fn lemma_parts_finite(t: Ty)
    ensures
        parts(t).finite(),
        parts(t).contains(t),
    decreases t,
{
    match t {
        Ty::Union(types) => lemma_each_parts_finite(types),
        Ty::Intersection(types) => lemma_each_parts_finite(types),
        Ty::Generic(base, _) => lemma_parts_finite(*base),
        Ty::Instance(base, _) => lemma_parts_finite(*base),
        _ => {},
    }
}

proof fn lemma_each_parts_finite(types: Seq<Ty>)
    ensures
        joined(each_parts(types)).finite(),
        holds_all(joined(each_parts(types)), types),
    decreases types,
{
    let sets = each_parts(types);
    let keys = vstd::set_lib::set_int_range(0, types.len() as int);
    let of = |i: int| sets[i];
    vstd::set_lib::lemma_int_range(0, types.len() as int);
    assert forall|i: int| 0 <= i < types.len() implies (#[trigger] sets[i]).finite()
        && sets[i].contains(types[i]) by {
        lemma_parts_finite(types[i]);
    }
    lemma_gathered_finite(keys, of);
    assert forall|x: Ty| joined(sets).contains(x) implies gathered(keys, of).contains(x) by {
        let i = choose|i: int| 0 <= i < sets.len() && #[trigger] sets[i].contains(x);
        assert(keys.contains(i) && of(i).contains(x));
    }
    vstd::set_lib::lemma_len_subset(joined(sets), gathered(keys, of));
    assert forall|i: int| 0 <= i < types.len() implies joined(sets).contains(
        #[trigger] types[i],
    ) by {
        assert(sets[i].contains(types[i]));
    }
}

/// Whether the types that `t` is directly made of are in the set.
pub open spec fn holds_parts(types: Set<Ty>, t: Ty) -> bool {
    match t {
        Ty::Union(parts) => holds_all(types, parts),
        Ty::Intersection(parts) => holds_all(types, parts),
        Ty::Generic(base, _) => types.contains(*base),
        Ty::Instance(base, _) => types.contains(*base),
        _ => true,
    }
}

/// Whether all of several types are in the set.
pub open spec fn holds_all(types: Set<Ty>, several: Seq<Ty>) -> bool {
    forall|i: int| 0 <= i < several.len() ==> types.contains(#[trigger] several[i])
}

proof fn lemma_parts_closed(t: Ty, x: Ty)
    requires
        parts(t).contains(x),
    ensures
        holds_parts(parts(t), x),
    decreases t,
{
    match t {
        Ty::Union(types) | Ty::Intersection(types) => {
            lemma_each_parts_finite(types);
            if x != t {
                lemma_each_parts_closed(types, x);
            }
        },
        Ty::Generic(base, _) => {
            lemma_parts_finite(*base);
            if x != t {
                lemma_parts_closed(*base, x);
            }
        },
        Ty::Instance(base, _) => {
            lemma_parts_finite(*base);
            if x != t {
                lemma_parts_closed(*base, x);
            }
        },
        _ => {},
    }
}

/// What is part of one of several types has its own parts among theirs.
proof fn lemma_each_parts_closed(types: Seq<Ty>, x: Ty)
    requires
        joined(each_parts(types)).contains(x),
    ensures
        holds_parts(joined(each_parts(types)), x),
    decreases types,
{
    let sets = each_parts(types);
    let i = choose|i: int| 0 <= i < sets.len() && #[trigger] sets[i].contains(x);
    lemma_parts_closed(types[i], x);
    assert forall|y: Ty| sets[i].contains(y) implies joined(sets).contains(y) by {}
    lemma_holds_more(sets[i], joined(sets), x);
}

proof fn lemma_holds_more(few: Set<Ty>, many: Set<Ty>, x: Ty)
    requires
        few.subset_of(many),
        holds_parts(few, x),
    ensures
        holds_parts(many, x),
{
}

// ---------------------------------------------------------------------------
// The types within reach
// ---------------------------------------------------------------------------

/// How many instances are nested in one another.
pub open spec fn shells(t: Ty) -> nat
    decreases t,
{
    match t {
        Ty::Instance(base, _) => shells(*base) + 1,
        _ => 0,
    }
}

/// A set of types that a search does not leave, and a bound on how many
/// instances are nested in one another there.
pub struct Reach {
    pub types: Set<Ty>,
    pub height: nat,
}

impl Reach {
    /// Whether a search that starts in the set stays there.
    pub open spec fn spans(self, s: Scope) -> bool {
        &&& self.types.finite()
        &&& forall|t: Ty| #[trigger] self.types.contains(t) ==> shells(t) < self.height
        &&& forall|t: Ty| #[trigger] self.types.contains(t) ==> holds_parts(self.types, t)
        &&& self.types.contains(Ty::String)
        &&& forall|id: Seq<char>|
            #![trigger s.db.alias_origin(id)]
            s.db.decl_kind(id) is Some ==> match s.db.alias_origin(id) {
                Some(origin) => self.types.contains(origin),
                None => true,
            }
        &&& forall|id: Seq<char>|
            #![trigger s.db.supers(id)]
            match s.db.supers(id) {
                Some(supers) => holds_all(self.types, supers),
                None => true,
            }
        &&& forall|t: Ty, params: Seq<Ty>|
            #![trigger s.cache.instance(t, params)]
            match s.cache.instance(t, params) {
                Step::Done(Some(instance)) => self.types.contains(instance),
                _ => true,
            }
    }

    /// How deep a search can go without starting anew.
    pub open spec fn stretch(self, s: Scope) -> nat {
        self.height * s.db.type_decls.map().dom().len() + self.height
    }

    /// How deep a search can go by starting anew only from types that are not
    /// on the trail.
    pub open spec fn afresh(self, s: Scope, trail: Set<Ty>) -> nat {
        self.types.difference(trail).len() * self.stretch(s)
    }

    /// How deep a search can go once declarations have been visited.
    pub open spec fn onward(self, s: Scope, trail: Set<Ty>, visited: Set<Seq<char>>) -> nat {
        self.afresh(s, trail) + self.height * unvisited(s.db, visited).len()
    }

    /// A search that starts anew goes less deep.
    pub proof fn lemma_start(self, s: Scope, trail: Set<Ty>, t: Ty)
        requires
            self.spans(s),
            self.types.contains(t),
            !trail.contains(t),
        ensures
            self.onward(s, trail.insert(t), Set::empty()) + shells(t) < self.afresh(s, trail),
    {
        let left = self.types.difference(trail);
        let less = self.types.difference(trail.insert(t));
        assert(less =~= left.remove(t));
        assert(left.finite());
        assert(unvisited(s.db, Set::empty()) =~= s.db.type_decls.map().dom());
        let stretch = self.stretch(s);
        let a: int = left.len() as int;
        let b: int = less.len() as int;
        assert(a * stretch == b * stretch + stretch) by (nonlinear_arith)
            requires
                a == b + 1,
        ;
    }

    /// A visit to a declaration goes less deep.
    pub proof fn lemma_visit(
        self,
        s: Scope,
        trail: Set<Ty>,
        visited: Set<Seq<char>>,
        id: Seq<char>,
        seen: Set<Seq<char>>,
        t: Ty,
    )
        requires
            self.spans(s),
            self.types.contains(t),
            !visited.contains(id),
            s.db.decl_kind(id) is Some,
            visited.insert(id).subset_of(seen),
        ensures
            self.onward(s, trail, seen) + shells(t) < self.onward(s, trail, visited),
    {
        lemma_visit_shrinks(s.db, visited, id);
        lemma_unvisited_shrinks(s.db, visited.insert(id), seen);
        let h = self.height;
        let a: int = unvisited(s.db, visited).len() as int;
        let b: int = unvisited(s.db, seen).len() as int;
        assert(h * a >= h * b + h) by (nonlinear_arith)
            requires
                a >= b + 1,
                h >= 0,
        ;
    }
}

/// The declarations that are still to be visited.
pub open spec fn unvisited(db: DbIndex, visited: Set<Seq<char>>) -> Set<Seq<char>> {
    db.type_decls.map().dom().difference(visited)
}

/// What has been visited need not be visited again.
pub proof fn lemma_unvisited_shrinks(db: DbIndex, visited: Set<Seq<char>>, seen: Set<Seq<char>>)
    requires
        visited.subset_of(seen),
    ensures
        unvisited(db, visited).finite(),
        unvisited(db, seen).len() <= unvisited(db, visited).len(),
{
    db.type_decls.lemma_finite();
    vstd::set_lib::lemma_len_subset(unvisited(db, visited), db.type_decls.map().dom());
    vstd::set_lib::lemma_len_subset(unvisited(db, seen), unvisited(db, visited));
}

/// One declaration less is to be visited after a visit.
pub proof fn lemma_visit_shrinks(db: DbIndex, visited: Set<Seq<char>>, id: Seq<char>)
    requires
        !visited.contains(id),
        db.type_decls.map().contains_key(id),
    ensures
        unvisited(db, visited.insert(id)).len() + 1 == unvisited(db, visited).len(),
{
    lemma_unvisited_shrinks(db, visited, visited);
    assert(unvisited(db, visited.insert(id)) =~= unvisited(db, visited).remove(id));
}

/// The parts of what an alias stands for.
spec fn origin_parts(db: DbIndex) -> spec_fn(Seq<char>) -> Set<Ty> {
    |id: Seq<char>|
        match db.alias_origin(id) {
            Some(origin) => parts(origin),
            None => Set::empty(),
        }
}

/// The parts of the super types of a declared type.
spec fn super_parts(db: DbIndex) -> spec_fn(Seq<char>) -> Set<Ty> {
    |id: Seq<char>|
        match db.supers(id) {
            Some(supers) => joined(each_parts(supers)),
            None => Set::empty(),
        }
}

/// The parts of an instance of a type.
spec fn instance_parts(s: Scope) -> spec_fn((Ty, Seq<Ty>)) -> Set<Ty> {
    |q: (Ty, Seq<Ty>)| parts(s.cache.instances.map()[q]@)
}

/// All types that a search can come across.
spec fn within_reach(s: Scope, t: Ty) -> Set<Ty> {
    parts(t).insert(Ty::String).union(
        gathered(s.db.type_decls.map().dom(), origin_parts(s.db)),
    ).union(gathered(s.db.super_types.map().dom(), super_parts(s.db))).union(
        gathered(s.cache.instances.map().dom(), instance_parts(s)),
    )
}

proof fn lemma_within_reach_finite(s: Scope, t: Ty)
    ensures
        within_reach(s, t).finite(),
{
    lemma_parts_finite(t);
    s.db.type_decls.lemma_finite();
    s.db.super_types.lemma_finite();
    s.cache.instances.lemma_finite();
    assert forall|id: Seq<char>| (#[trigger] origin_parts(s.db)(id)).finite() by {
        if let Some(origin) = s.db.alias_origin(id) {
            lemma_parts_finite(origin);
        }
    }
    assert forall|id: Seq<char>| (#[trigger] super_parts(s.db)(id)).finite() by {
        if let Some(supers) = s.db.supers(id) {
            lemma_each_parts_finite(supers);
        }
    }
    assert forall|q: (Ty, Seq<Ty>)| (#[trigger] instance_parts(s)(q)).finite() by {
        lemma_parts_finite(s.cache.instances.map()[q]@);
    }
    lemma_gathered_finite(s.db.type_decls.map().dom(), origin_parts(s.db));
    lemma_gathered_finite(s.db.super_types.map().dom(), super_parts(s.db));
    lemma_gathered_finite(s.cache.instances.map().dom(), instance_parts(s));
}

proof fn lemma_within_reach_closed(s: Scope, t: Ty, x: Ty)
    requires
        within_reach(s, t).contains(x),
    ensures
        holds_parts(within_reach(s, t), x),
{
    let all = within_reach(s, t);
    let decls = s.db.type_decls.map().dom();
    let supers = s.db.super_types.map().dom();
    let instances = s.cache.instances.map().dom();
    if parts(t).contains(x) {
        lemma_parts_closed(t, x);
        lemma_holds_more(parts(t), all, x);
    } else if gathered(decls, origin_parts(s.db)).contains(x) {
        let id = choose|id: Seq<char>|
            decls.contains(id) && #[trigger] origin_parts(s.db)(id).contains(x);
        let few = origin_parts(s.db)(id);
        assert(few.subset_of(gathered(decls, origin_parts(s.db))));
        lemma_parts_closed(s.db.alias_origin(id).unwrap(), x);
        lemma_holds_more(few, all, x);
    } else if gathered(supers, super_parts(s.db)).contains(x) {
        let id = choose|id: Seq<char>|
            supers.contains(id) && #[trigger] super_parts(s.db)(id).contains(x);
        let few = super_parts(s.db)(id);
        assert(few.subset_of(gathered(supers, super_parts(s.db))));
        lemma_each_parts_closed(s.db.supers(id).unwrap(), x);
        lemma_holds_more(few, all, x);
    } else if gathered(instances, instance_parts(s)).contains(x) {
        let q = choose|q: (Ty, Seq<Ty>)|
            instances.contains(q) && #[trigger] instance_parts(s)(q).contains(x);
        let few = instance_parts(s)(q);
        assert(few.subset_of(gathered(instances, instance_parts(s))));
        lemma_parts_closed(s.cache.instances.map()[q]@, x);
        lemma_holds_more(few, all, x);
    }
}

/// Finitely many types have a bound on nested instances.
proof fn lemma_height(types: Set<Ty>) -> (height: nat)
    requires
        types.finite(),
    ensures
        forall|t: Ty| #[trigger] types.contains(t) ==> shells(t) < height,
    decreases types.len(),
{
    if types.len() == 0 {
        assert(types =~= Set::empty());
        0
    } else {
        let x = types.choose();
        let below = lemma_height(types.remove(x));
        let height = if shells(x) < below {
            below
        } else {
            shells(x) + 1
        };
        assert forall|t: Ty| #[trigger] types.contains(t) implies shells(t) < height by {
            if t != x {
                assert(types.remove(x).contains(t));
            }
        }
        height
    }
}

/// A search that starts from a type stays within finitely many types.
pub proof fn lemma_reach(s: Scope, t: Ty) -> (reach: Reach)
    ensures
        reach.spans(s),
        reach.types.contains(t),
{
    let types = within_reach(s, t);
    lemma_within_reach_finite(s, t);
    let height = lemma_height(types);
    lemma_parts_finite(t);
    assert forall|x: Ty| #[trigger] types.contains(x) implies holds_parts(types, x) by {
        lemma_within_reach_closed(s, t, x);
    }
    let decls = s.db.type_decls.map().dom();
    assert forall|id: Seq<char>|
        #![trigger s.db.alias_origin(id)]
        s.db.decl_kind(id) is Some implies match s.db.alias_origin(id) {
        Some(origin) => types.contains(origin),
        None => true,
    } by {
        if let Some(origin) = s.db.alias_origin(id) {
            lemma_parts_finite(origin);
            assert(decls.contains(id) && origin_parts(s.db)(id).contains(origin));
        }
    }
    let supers = s.db.super_types.map().dom();
    assert forall|id: Seq<char>|
        #![trigger s.db.supers(id)]
        match s.db.supers(id) {
            Some(supers) => holds_all(types, supers),
            None => true,
        } by {
        if let Some(several) = s.db.supers(id) {
            lemma_each_parts_finite(several);
            assert forall|i: int| 0 <= i < several.len() implies types.contains(
                #[trigger] several[i],
            ) by {
                assert(supers.contains(id) && super_parts(s.db)(id).contains(several[i]));
            }
        }
    }
    let instances = s.cache.instances.map().dom();
    assert forall|t: Ty, params: Seq<Ty>|
        #![trigger s.cache.instance(t, params)]
        match s.cache.instance(t, params) {
            Step::Done(Some(instance)) => types.contains(instance),
            _ => true,
        } by {
        let q = (t, params);
        if instances.contains(q) {
            let instance = s.cache.instances.map()[q]@;
            lemma_parts_finite(instance);
            assert(instance_parts(s)(q).contains(instance));
        }
    }
    Reach { types, height }
}

// ---------------------------------------------------------------------------
// Circles
// ---------------------------------------------------------------------------

/// Whether the search that starts from one of the types ends with `fuel`.
pub open spec fn some_by_key_ends(s: Scope, types: Set<Ty>, fuel: nat) -> bool {
    exists|t: Ty|
        types.contains(t) && !((#[trigger] by_key(s, t, Set::empty(), fuel)).0 is Endless)
}

/// Whether the search from `t` goes round in a circle: with whatever fuel it
/// ends, a search that starts from a type on the trail ends with less.
pub open spec fn by_key_circles(
    s: Scope,
    trail: Set<Ty>,
    t: Ty,
    visited: Set<Seq<char>>,
) -> bool {
    forall|fuel: nat|
        !((#[trigger] by_key(s, t, visited, fuel)).0 is Endless) ==> fuel > 0 && some_by_key_ends(
            s,
            trail,
            (fuel - 1) as nat,
        )
}

/// With whatever two amounts of fuel a search ends, it gives the same.
pub proof fn lemma_by_key_same(
    s: Scope,
    t: Ty,
    visited: Set<Seq<char>>,
    fuel1: nat,
    fuel2: nat,
)
    ensures
        ({
            let out1 = by_key(s, t, visited, fuel1);
            let out2 = by_key(s, t, visited, fuel2);
            out1.0 is Endless || out2.0 is Endless || out1 == out2
        }),
        fuel1 <= fuel2 && !(by_key(s, t, visited, fuel1).0 is Endless) ==> by_key(
            s,
            t,
            visited,
            fuel2,
        ) == by_key(s, t, visited, fuel1),
{
    if fuel1 <= fuel2 {
        law_by_key_is_kept(s, s, t, visited, fuel1, fuel2);
    } else {
        law_by_key_is_kept(s, s, t, visited, fuel2, fuel1);
    }
}

/// More fuel leaves a search that has ended as it is.
pub proof fn lemma_some_by_key_ends(s: Scope, types: Set<Ty>, fuel1: nat, fuel2: nat)
    requires
        some_by_key_ends(s, types, fuel1),
        fuel1 <= fuel2,
    ensures
        some_by_key_ends(s, types, fuel2),
{
    let t = choose|t: Ty|
        types.contains(t) && !((#[trigger] by_key(s, t, Set::empty(), fuel1)).0 is Endless);
    lemma_by_key_same(s, t, Set::empty(), fuel1, fuel2);
}

/// A search that goes round in a circle ends only where one from a type on
/// the trail ends.
pub proof fn lemma_by_key_circles(
    s: Scope,
    trail: Set<Ty>,
    t: Ty,
    visited: Set<Seq<char>>,
    fuel: nat,
)
    requires
        by_key_circles(s, trail, t, visited),
        !(by_key(s, t, visited, fuel).0 is Endless),
    ensures
        some_by_key_ends(s, trail, fuel),
{
    lemma_some_by_key_ends(s, trail, (fuel - 1) as nat, fuel);
}

/// A search that goes round in a circle and only comes back to where it
/// started never ends.
pub proof fn lemma_by_key_unwinds(s: Scope, trail: Set<Ty>, t: Ty, fuel: nat)
    requires
        by_key_circles(s, trail.insert(t), t, Set::empty()),
        !(by_key(s, t, Set::empty(), fuel).0 is Endless),
    ensures
        some_by_key_ends(s, trail, fuel),
    decreases fuel,
{
    let less = (fuel - 1) as nat;
    assert(fuel > 0 && some_by_key_ends(s, trail.insert(t), less));
    let back = choose|back: Ty|
        trail.insert(t).contains(back) && !((#[trigger] by_key(s, back, Set::empty(), less)).0
            is Endless);
    if back == t {
        lemma_by_key_unwinds(s, trail, t, less);
    } else {
        assert(some_by_key_ends(s, trail, less));
    }
    lemma_some_by_key_ends(s, trail, less, fuel);
}

/// What a search gives with enough fuel for all types in reach is what it
/// comes to.
pub proof fn lemma_by_key_comes_to(
    s: Scope,
    t: Ty,
    visited: Set<Seq<char>>,
    out: InferOut,
    seen: Set<Seq<char>>,
    fuel: nat,
)
    requires
        !(out is Endless) ==> by_key(s, t, visited, fuel) == (out, seen),
        out is Endless ==> by_key_circles(s, Set::empty(), t, visited),
    ensures
        by_key_comes_to(s, t, visited, out, seen),
{
    assert forall|g: nat| !((#[trigger] by_key(s, t, visited, g)).0 is Endless) implies by_key(
        s,
        t,
        visited,
        g,
    ) == (out, seen) by {
        lemma_by_key_same(s, t, visited, fuel, g);
    }
}

/// Whether the search that starts from one of the types ends with `fuel`.
pub open spec fn some_by_operator_ends(s: Scope, types: Set<Ty>, fuel: nat) -> bool {
    exists|t: Ty|
        types.contains(t) && !((#[trigger] by_operator(s, t, Set::empty(), fuel)).0 is Endless)
}

/// Whether the search from `t` goes round in a circle: with whatever fuel it
/// ends, a search that starts from a type on the trail ends with less.
pub open spec fn by_operator_circles(
    s: Scope,
    trail: Set<Ty>,
    t: Ty,
    visited: Set<Seq<char>>,
) -> bool {
    forall|fuel: nat|
        !((#[trigger] by_operator(s, t, visited, fuel)).0 is Endless) ==> fuel > 0
            && some_by_operator_ends(s, trail, (fuel - 1) as nat)
}

/// With whatever two amounts of fuel a search ends, it gives the same.
pub proof fn lemma_by_operator_same(
    s: Scope,
    t: Ty,
    visited: Set<Seq<char>>,
    fuel1: nat,
    fuel2: nat,
)
    ensures
        ({
            let out1 = by_operator(s, t, visited, fuel1);
            let out2 = by_operator(s, t, visited, fuel2);
            out1.0 is Endless || out2.0 is Endless || out1 == out2
        }),
        fuel1 <= fuel2 && !(by_operator(s, t, visited, fuel1).0 is Endless) ==> by_operator(
            s,
            t,
            visited,
            fuel2,
        ) == by_operator(s, t, visited, fuel1),
{
    if fuel1 <= fuel2 {
        law_by_operator_is_kept(s, s, t, visited, fuel1, fuel2);
    } else {
        law_by_operator_is_kept(s, s, t, visited, fuel2, fuel1);
    }
}

/// More fuel leaves a search that has ended as it is.
pub proof fn lemma_some_by_operator_ends(s: Scope, types: Set<Ty>, fuel1: nat, fuel2: nat)
    requires
        some_by_operator_ends(s, types, fuel1),
        fuel1 <= fuel2,
    ensures
        some_by_operator_ends(s, types, fuel2),
{
    let t = choose|t: Ty|
        types.contains(t) && !((#[trigger] by_operator(s, t, Set::empty(), fuel1)).0 is Endless);
    lemma_by_operator_same(s, t, Set::empty(), fuel1, fuel2);
}

/// A search that goes round in a circle ends only where one from a type on
/// the trail ends.
pub proof fn lemma_by_operator_circles(
    s: Scope,
    trail: Set<Ty>,
    t: Ty,
    visited: Set<Seq<char>>,
    fuel: nat,
)
    requires
        by_operator_circles(s, trail, t, visited),
        !(by_operator(s, t, visited, fuel).0 is Endless),
    ensures
        some_by_operator_ends(s, trail, fuel),
{
    lemma_some_by_operator_ends(s, trail, (fuel - 1) as nat, fuel);
}

/// A search that goes round in a circle and only comes back to where it
/// started never ends.
pub proof fn lemma_by_operator_unwinds(s: Scope, trail: Set<Ty>, t: Ty, fuel: nat)
    requires
        by_operator_circles(s, trail.insert(t), t, Set::empty()),
        !(by_operator(s, t, Set::empty(), fuel).0 is Endless),
    ensures
        some_by_operator_ends(s, trail, fuel),
    decreases fuel,
{
    let less = (fuel - 1) as nat;
    assert(fuel > 0 && some_by_operator_ends(s, trail.insert(t), less));
    let back = choose|back: Ty|
        trail.insert(t).contains(back) && !((#[trigger] by_operator(s, back, Set::empty(), less)).0
            is Endless);
    if back == t {
        lemma_by_operator_unwinds(s, trail, t, less);
    } else {
        assert(some_by_operator_ends(s, trail, less));
    }
    lemma_some_by_operator_ends(s, trail, less, fuel);
}

/// What a search gives with enough fuel for all types in reach is what it
/// comes to.
pub proof fn lemma_by_operator_comes_to(
    s: Scope,
    t: Ty,
    visited: Set<Seq<char>>,
    out: InferOut,
    seen: Set<Seq<char>>,
    fuel: nat,
)
    requires
        !(out is Endless) ==> by_operator(s, t, visited, fuel) == (out, seen),
        out is Endless ==> by_operator_circles(s, Set::empty(), t, visited),
    ensures
        by_operator_comes_to(s, t, visited, out, seen),
{
    assert forall|g: nat|
        !((#[trigger] by_operator(s, t, visited, g)).0 is Endless) implies by_operator(
        s,
        t,
        visited,
        g,
    ) == (out, seen) by {
        lemma_by_operator_same(s, t, visited, fuel, g);
    }
}

} // verus!
