//! How the members of a type relate to those of the types it is made of.

use crate::cache::{InferOut, LuaInferCache, Step};
use crate::db::{DbIndex, LuaDeclTypeKind};
use crate::model::{
    by_key, by_operator, decl_by_key, decl_by_operator, each_by_key, each_by_operator, first_open,
    flow_type, found, found_types, index_access, index_type, intersection_of, member_type, missing,
    own_operator, scope, supers_by_key, supers_by_operator, table_member, tightened, tuple_member,
    union_of, union_type, Scope,
};
use crate::syntax::{InFiled, IndexKey, LuaIndexExpr};
use crate::text::smol_chars;
use crate::types::{builtin_decl, MemberOwner, Ty};
use vstd::prelude::*;

verus! {

// ---------------------------------------------------------------------------
// Unions and intersections
// ---------------------------------------------------------------------------

proof fn lemma_all_done(outs: Seq<InferOut>)
    requires
        forall|i: int| 0 <= i < outs.len() ==> (#[trigger] outs[i]) is Done,
    ensures
        first_open(outs) is None,
    decreases outs.len(),
{
    if outs.len() > 0 {
        let tail = outs.drop_first();
        assert forall|i: int| 0 <= i < tail.len() implies (#[trigger] tail[i]) is Done by {
            assert(tail[i] == outs[i + 1]);
        }
        lemma_all_done(tail);
    }
}

/// The types among results are the types of those results that are one.
proof fn lemma_found_types(outs: Seq<InferOut>)
    ensures
        forall|i: int|
            0 <= i < outs.len() ==> match #[trigger] outs[i] {
                Step::Done(Some(t)) => found_types(outs).contains(t),
                _ => true,
            },
        forall|t: Ty| #[trigger]
            found_types(outs).contains(t) ==> exists|i: int|
                0 <= i < outs.len() && outs[i] == found(t),
    decreases outs.len(),
{
    if outs.len() > 0 {
        let front = outs.drop_last();
        lemma_found_types(front);
        let types = found_types(outs);
        assert forall|i: int| 0 <= i < outs.len() implies match #[trigger] outs[i] {
            Step::Done(Some(t)) => types.contains(t),
            _ => true,
        } by {
            if let Step::Done(Some(t)) = outs[i] {
                if i < front.len() {
                    assert(front[i] == outs[i]);
                    let j = choose|j: int|
                        0 <= j < found_types(front).len() && found_types(front)[j] == t;
                    assert(types[j] == t);
                } else {
                    assert(types.last() == t);
                }
            }
        }
        assert forall|t: Ty| #[trigger] types.contains(t) implies exists|i: int|
            0 <= i < outs.len() && outs[i] == found(t) by {
            let j = choose|j: int| 0 <= j < types.len() && types[j] == t;
            if j < found_types(front).len() {
                assert(found_types(front)[j] == t);
                assert(found_types(front).contains(t));
                let i = choose|i: int| 0 <= i < front.len() && front[i] == found(t);
                assert(outs[i] == found(t));
            } else {
                assert(outs[outs.len() - 1] == found(t));
            }
        }
    }
}

/// Once nothing is left to ask, a union has a member exactly where one of its
/// parts has it, and the type of the member is made of theirs alone: the one
/// type itself, or the union of several.
pub proof fn law_union_of(outs: Seq<InferOut>)
    requires
        forall|i: int| 0 <= i < outs.len() ==> (#[trigger] outs[i]) is Done,
    ensures
        union_of(outs) == missing() <==> forall|i: int|
            0 <= i < outs.len() ==> #[trigger] outs[i] == missing(),
        union_of(outs) == InferOut::Done(union_type(found_types(outs))),
        match union_of(outs) {
            Step::Done(Some(t)) => {
                ||| exists|i: int| 0 <= i < outs.len() && #[trigger] outs[i] == found(t)
                ||| t == Ty::Union(found_types(outs)) && found_types(outs).len() > 1
            },
            _ => true,
        },
        forall|t: Ty| #[trigger]
            found_types(outs).contains(t) <==> exists|i: int|
                0 <= i < outs.len() && outs[i] == found(t),
{
    lemma_all_done(outs);
    lemma_found_types(outs);
    let types = found_types(outs);
    if types.len() > 0 {
        assert(types.contains(types[0]));
    } else {
        assert forall|i: int| 0 <= i < outs.len() implies #[trigger] outs[i] == missing() by {
            if let Step::Done(Some(t)) = outs[i] {
                assert(types.contains(t));
            }
        }
    }
    assert forall|t: Ty| (exists|i: int| 0 <= i < outs.len() && outs[i] == found(t)) implies
        #[trigger] found_types(outs).contains(t) by {
        let i = choose|i: int| 0 <= i < outs.len() && outs[i] == found(t);
        assert(outs[i] == found(t));
    }
}

proof fn lemma_absent_part(a: Seq<InferOut>, b: Seq<InferOut>)
    ensures
        first_open(a.push(missing()) + b) == first_open(a + b),
    decreases a.len(),
{
    let with = a.push(missing()) + b;
    if a.len() == 0 {
        assert(with.drop_first() =~= b);
        assert(a + b =~= b);
    } else {
        let rest = a.drop_first();
        lemma_absent_part(rest, b);
        assert(with.drop_first() =~= rest.push(missing()) + b);
        assert((a + b).drop_first() =~= rest + b);
    }
}

proof fn lemma_absent_type(a: Seq<InferOut>, b: Seq<InferOut>)
    ensures
        found_types(a.push(missing()) + b) == found_types(a + b),
    decreases b.len(),
{
    let with = a.push(missing()) + b;
    if b.len() == 0 {
        assert(with.drop_last() =~= a);
        assert(a + b =~= a);
    } else {
        lemma_absent_type(a, b.drop_last());
        assert(with.drop_last() =~= a.push(missing()) + b.drop_last());
        assert((a + b).drop_last() =~= a + b.drop_last());
    }
}

/// Once nothing is left to ask, a union has no member where no part has it, the
/// member of the one part that has it, and the union of all members found, in
/// order, where several parts have it, however many.
pub proof fn law_union_keeps_all(outs: Seq<InferOut>)
    requires
        forall|i: int| 0 <= i < outs.len() ==> (#[trigger] outs[i]) is Done,
    ensures
        found_types(outs).len() == 0 ==> union_of(outs) == missing(),
        found_types(outs).len() == 1 ==> union_of(outs) == found(found_types(outs)[0]),
        found_types(outs).len() > 1 ==> union_of(outs) == found(Ty::Union(found_types(outs))),
{
    lemma_all_done(outs);
}

/// Where two parts have the member, a union has the union of at least theirs,
/// in the order of the parts.
pub proof fn law_union_of_two(
    a: Seq<InferOut>,
    t: Ty,
    b: Seq<InferOut>,
    u: Ty,
    c: Seq<InferOut>,
)
    requires
        forall|i: int| 0 <= i < a.len() ==> (#[trigger] a[i]) is Done,
        forall|i: int| 0 <= i < b.len() ==> (#[trigger] b[i]) is Done,
        forall|i: int| 0 <= i < c.len() ==> (#[trigger] c[i]) is Done,
    ensures
        union_of(a.push(found(t)) + b.push(found(u)) + c) == found(
            Ty::Union(
                found_types(a).push(t) + found_types(b).push(u) + found_types(c),
            ),
        ),
{
    let left = a.push(found(t));
    let right = b.push(found(u));
    let outs = left + right + c;
    assert(left.drop_last() =~= a);
    assert(right.drop_last() =~= b);
    law_union_in_order(left, right, t);
    law_union_in_order(left + right, c, t);
    assert forall|i: int| 0 <= i < outs.len() implies (#[trigger] outs[i]) is Done by {
        if i < a.len() {
            assert(outs[i] == a[i]);
        } else if a.len() < i < left.len() + b.len() {
            assert(outs[i] == b[i - left.len()]);
        } else if i >= left.len() + right.len() {
            assert(outs[i] == c[i - left.len() - right.len()]);
        }
    }
    law_union_keeps_all(outs);
}

/// A union waits for its first part that has no result yet.
pub proof fn law_union_waits(outs: Seq<InferOut>, k: int)
    requires
        0 <= k < outs.len(),
        forall|i: int| 0 <= i < k ==> (#[trigger] outs[i]) is Done,
        !(outs[k] is Done),
    ensures
        union_of(outs) == outs[k],
    decreases k,
{
    if k > 0 {
        let tail = outs.drop_first();
        assert(outs[0] is Done);
        assert forall|i: int| 0 <= i < k - 1 implies (#[trigger] tail[i]) is Done by {
            assert(tail[i] == outs[i + 1]);
        }
        law_union_waits(tail, k - 1);
    }
}

/// The types that a union is made of come in the order of its parts, one for
/// each part that has the member.
pub proof fn law_union_in_order(a: Seq<InferOut>, b: Seq<InferOut>, t: Ty)
    ensures
        found_types(a + b) == found_types(a) + found_types(b),
        found_types(seq![found(t)]) == seq![t],
        found_types(seq![missing()]) == Seq::<Ty>::empty(),
    decreases b.len(),
{
    let none = Seq::<InferOut>::empty();
    assert(seq![found(t)].drop_last() =~= none);
    assert(seq![missing()].drop_last() =~= none);
    assert(found_types(none) =~= Seq::<Ty>::empty());
    if b.len() == 0 {
        assert(a + b =~= a);
        assert(found_types(a) + found_types(b) =~= found_types(a));
    } else {
        law_union_in_order(a, b.drop_last(), t);
        assert((a + b).drop_last() =~= a + b.drop_last());
        assert(found_types(a + b) =~= found_types(a) + found_types(b));
    }
}

/// A part without the member leaves the member of a union as it is.
pub proof fn law_absent_part(a: Seq<InferOut>, b: Seq<InferOut>)
    ensures
        union_of(a.push(missing()) + b) == union_of(a + b),
{
    lemma_absent_part(a, b);
    lemma_absent_type(a, b);
}

/// Parts that follow a known type have to be of exactly that type.
proof fn lemma_intersection_of(outs: Seq<InferOut>, so_far: Ty, t: Ty)
    requires
        !(so_far is Unknown),
    ensures
        intersection_of(outs, so_far) == found(t) <==> t == so_far && forall|i: int|
            0 <= i < outs.len() ==> #[trigger] outs[i] == found(so_far),
    decreases outs.len(),
{
    if outs.len() > 0 {
        let tail = outs.drop_first();
        lemma_intersection_of(tail, so_far, t);
        if outs[0] == found(so_far) {
            if forall|i: int| 0 <= i < tail.len() ==> #[trigger] tail[i] == found(so_far) {
                assert forall|i: int| 0 <= i < outs.len() implies #[trigger] outs[i] == found(
                    so_far,
                ) by {
                    if i > 0 {
                        assert(tail[i - 1] == outs[i]);
                    }
                }
            }
            if forall|i: int| 0 <= i < outs.len() ==> #[trigger] outs[i] == found(so_far) {
                assert forall|i: int| 0 <= i < tail.len() implies #[trigger] tail[i] == found(
                    so_far,
                ) by {
                    assert(tail[i] == outs[i + 1]);
                }
            }
        }
    }
}

/// Once nothing is left to ask, an intersection has the member or has it not.
proof fn lemma_intersection_done(outs: Seq<InferOut>, so_far: Ty)
    requires
        forall|i: int| 0 <= i < outs.len() ==> (#[trigger] outs[i]) is Done,
    ensures
        intersection_of(outs, so_far) is Done,
    decreases outs.len(),
{
    if outs.len() > 0 {
        let tail = outs.drop_first();
        assert(outs[0] is Done);
        assert forall|i: int| 0 <= i < tail.len() implies (#[trigger] tail[i]) is Done by {
            assert(tail[i] == outs[i + 1]);
        }
        lemma_intersection_done(tail, so_far);
        if let Step::Done(Some(t)) = outs[0] {
            lemma_intersection_done(tail, t);
        }
    }
}

/// Whether the parts from `k` on have a member of the type `t`, and those
/// before have one of which nothing is known.
pub open spec fn agreed(outs: Seq<InferOut>, k: int, t: Ty) -> bool {
    &&& 0 <= k <= outs.len()
    &&& k == outs.len() <==> t is Unknown
    &&& forall|i: int| 0 <= i < k ==> #[trigger] outs[i] == found(Ty::Unknown)
    &&& forall|i: int| k <= i < outs.len() ==> #[trigger] outs[i] == found(t)
}

/// An intersection has a member exactly where each of its parts has it and
/// they agree on its type. Leading parts that know nothing of the type do not
/// count; where no part knows the type, it is unknown. Once nothing is left to
/// ask, there is no other outcome than that the member is there or missing.
pub proof fn law_intersection_of(outs: Seq<InferOut>, t: Ty)
    ensures
        intersection_of(outs, Ty::Unknown) == found(t) <==> exists|k: int| agreed(outs, k, t),
        (forall|i: int| 0 <= i < outs.len() ==> (#[trigger] outs[i]) is Done) ==> (
        intersection_of(outs, Ty::Unknown) is Done),
    decreases outs.len(),
{
    if forall|i: int| 0 <= i < outs.len() ==> (#[trigger] outs[i]) is Done {
        lemma_intersection_done(outs, Ty::Unknown);
    }
    if outs.len() == 0 {
        if t is Unknown {
            assert(agreed(outs, 0, t));
        }
    } else if outs[0] == found(Ty::Unknown) {
        let tail = outs.drop_first();
        law_intersection_of(tail, t);
        if exists|k: int| agreed(tail, k, t) {
            let k = choose|k: int| agreed(tail, k, t);
            assert forall|i: int| 0 <= i < outs.len() implies #[trigger] outs[i] == (if i <= k {
                found(Ty::Unknown)
            } else {
                found(t)
            }) by {
                if i > 0 {
                    assert(tail[i - 1] == outs[i]);
                }
            }
            assert(agreed(outs, k + 1, t));
        }
        if exists|k: int| agreed(outs, k, t) {
            let k = choose|k: int| agreed(outs, k, t);
            assert forall|i: int| 0 <= i < tail.len() implies #[trigger] tail[i] == (if i < k - 1 {
                found(Ty::Unknown)
            } else {
                found(t)
            }) by {
                assert(tail[i] == outs[i + 1]);
            }
            assert(agreed(tail, k - 1, t));
        }
    } else {
        if let Step::Done(Some(u)) = outs[0] {
            let tail = outs.drop_first();
            lemma_intersection_of(tail, u, t);
            if t == u && forall|i: int| 0 <= i < tail.len() ==> #[trigger] tail[i] == found(u) {
                assert forall|i: int| 0 <= i < outs.len() implies #[trigger] outs[i] == found(
                    t,
                ) by {
                    if i > 0 {
                        assert(tail[i - 1] == outs[i]);
                    }
                }
                assert(agreed(outs, 0, t));
            }
            if exists|k: int| agreed(outs, k, t) {
                let k = choose|k: int| agreed(outs, k, t);
                assert(k == 0);
                assert(outs[0] == found(t));
                assert forall|i: int| 0 <= i < tail.len() implies #[trigger] tail[i] == found(
                    u,
                ) by {
                    assert(tail[i] == outs[i + 1]);
                }
            }
        }
    }
}

proof fn lemma_intersection_waits(a: Seq<InferOut>, b: Seq<InferOut>, so_far: Ty)
    requires
        forall|i: int| 0 <= i < a.len() ==> (#[trigger] a[i]) is Done,
        b.len() > 0,
        !(b[0] is Done),
    ensures
        intersection_of(a + b, so_far) == (if intersection_of(a, so_far) == missing() {
            missing()
        } else {
            b[0]
        }),
    decreases a.len(),
{
    if a.len() == 0 {
        assert(a + b =~= b);
    } else {
        let tail = a.drop_first();
        assert(a[0] is Done);
        assert forall|i: int| 0 <= i < tail.len() implies (#[trigger] tail[i]) is Done by {
            assert(tail[i] == a[i + 1]);
        }
        assert((a + b).drop_first() =~= tail + b);
        assert((a + b)[0] == a[0]);
        lemma_intersection_waits(tail, b, so_far);
        if let Step::Done(Some(t)) = a[0] {
            lemma_intersection_waits(tail, b, t);
        }
    }
}

/// An intersection waits for its first part that has no result yet, unless the
/// parts before it already do not agree or do not have the member.
pub proof fn law_intersection_waits(a: Seq<InferOut>, b: Seq<InferOut>)
    requires
        forall|i: int| 0 <= i < a.len() ==> (#[trigger] a[i]) is Done,
        b.len() > 0,
        !(b[0] is Done),
    ensures
        intersection_of(a + b, Ty::Unknown) == (if intersection_of(a, Ty::Unknown) == missing() {
            missing()
        } else {
            b[0]
        }),
{
    lemma_intersection_waits(a, b, Ty::Unknown);
}

/// A union or intersection of one type has the members of that type.
pub proof fn law_of_one(s: Scope, t: Ty, visited: Set<Seq<char>>, fuel: nat)
    requires
        fuel > 0,
    ensures
        by_key(s, Ty::Union(seq![t]), visited, fuel).0 == by_key(
            s,
            t,
            Set::empty(),
            (fuel - 1) as nat,
        ).0,
        by_key(s, Ty::Intersection(seq![t]), visited, fuel).0 == by_key(
            s,
            t,
            Set::empty(),
            (fuel - 1) as nat,
        ).0,
        by_operator(s, Ty::Union(seq![t]), visited, fuel).0 == by_operator(
            s,
            t,
            Set::empty(),
            (fuel - 1) as nat,
        ).0,
        by_operator(s, Ty::Intersection(seq![t]), visited, fuel).0 == by_operator(
            s,
            t,
            Set::empty(),
            (fuel - 1) as nat,
        ).0,
{
    let rest = (fuel - 1) as nat;
    let keyed = by_key(s, t, Set::empty(), rest).0;
    let indexed = by_operator(s, t, Set::empty(), rest).0;
    assert(each_by_key(s, seq![t], rest) =~= seq![keyed]);
    assert(each_by_operator(s, seq![t], rest) =~= seq![indexed]);
    lemma_of_one(keyed);
    lemma_of_one(indexed);
}

proof fn lemma_of_one(out: InferOut)
    ensures
        union_of(seq![out]) == out,
        intersection_of(seq![out], Ty::Unknown) == out,
{
    let outs = seq![out];
    assert(outs.drop_first() =~= Seq::<InferOut>::empty());
    assert(outs.drop_last() =~= Seq::<InferOut>::empty());
    assert(found_types(outs.drop_last()) =~= Seq::<Ty>::empty());
    assert(first_open(outs.drop_first()) is None);
    if let Step::Done(Some(t)) = out {
        assert(intersection_of(outs.drop_first(), t) == found(t));
    }
}

// ---------------------------------------------------------------------------
// Declared types
// ---------------------------------------------------------------------------

/// An alias has the members of what it stands for.
pub proof fn law_alias_is_transparent(
    s: Scope,
    id: Seq<char>,
    origin: Ty,
    visited: Set<Seq<char>>,
    fuel: nat,
)
    requires
        fuel > 0,
        !visited.contains(id),
        s.db.decl_kind(id) == Some(LuaDeclTypeKind::Alias),
        s.db.alias_origin(id) == Some(origin),
    ensures
        by_key(s, Ty::Ref(id), visited, fuel) == by_key(
            s,
            origin,
            visited.insert(id),
            (fuel - 1) as nat,
        ),
        by_operator(s, Ty::Ref(id), visited, fuel) == by_operator(
            s,
            origin,
            visited.insert(id),
            (fuel - 1) as nat,
        ),
{
    let rest = (fuel - 1) as nat;
    assert(decl_by_key(s, id, visited, rest) == by_key(s, origin, visited.insert(id), rest));
    assert(decl_by_operator(s, id, visited, rest) == by_operator(
        s,
        origin,
        visited.insert(id),
        rest,
    ));
}

/// An alias that stands for nothing has the members of a string, and gives
/// nothing through operators.
pub proof fn law_alias_without_origin(
    s: Scope,
    id: Seq<char>,
    visited: Set<Seq<char>>,
    fuel: nat,
)
    requires
        fuel > 0,
        !visited.contains(id),
        s.db.decl_kind(id) == Some(LuaDeclTypeKind::Alias),
        s.db.alias_origin(id) is None,
    ensures
        by_key(s, Ty::Ref(id), visited, fuel) == by_key(
            s,
            Ty::String,
            visited.insert(id),
            (fuel - 1) as nat,
        ),
        by_operator(s, Ty::Ref(id), visited, fuel) == (missing(), visited.insert(id)),
{
    let rest = (fuel - 1) as nat;
    assert(decl_by_key(s, id, visited, rest) == by_key(s, Ty::String, visited.insert(id), rest));
    assert(decl_by_operator(s, id, visited, rest) == (missing(), visited.insert(id)));
}

/// An instance has the member of its base, and where its base has none, that
/// of its table literal.
pub proof fn law_instance_member(
    s: Scope,
    base: Ty,
    range: InFiled,
    visited: Set<Seq<char>>,
    fuel: nat,
)
    requires
        fuel > 0,
    ensures
        ({
            let (out, seen) = by_key(s, base, visited, (fuel - 1) as nat);
            by_key(s, Ty::Instance(Box::new(base), range), visited, fuel) == (
                if out == missing() {
                    table_member(s.db, s.key, range)
                } else {
                    out
                },
                seen,
            )
        }),
{
}

/// A member of its own hides the members that a declared type would derive.
pub proof fn law_own_member_hides(
    s: Scope,
    id: Seq<char>,
    key: IndexKey,
    t: Option<Ty>,
    visited: Set<Seq<char>>,
    fuel: nat,
)
    requires
        fuel > 0,
        !visited.contains(id),
        s.key == Some(key),
        s.db.decl_kind(id) is Some,
        s.db.decl_kind(id) != Some(LuaDeclTypeKind::Alias),
        s.db.member(MemberOwner::Type(id), key.member_key()) == Some(t),
    ensures
        by_key(s, Ty::Ref(id), visited, fuel).0 == InferOut::Done(t),
{
    let rest = (fuel - 1) as nat;
    assert(decl_by_key(s, id, visited, rest).0 == InferOut::Done(t));
}

/// Super types that have nothing are passed over.
proof fn lemma_first_super_by_key(
    s: Scope,
    supers: Seq<Ty>,
    marks: Seq<Set<Seq<char>>>,
    at: int,
    fuel: nat,
)
    requires
        0 <= at <= supers.len(),
        marks.len() > at,
        forall|i: int|
            0 <= i < at ==> #[trigger] by_key(s, supers[i], marks[i], fuel) == (
                missing(),
                marks[i + 1],
            ),
    ensures
        supers_by_key(s, supers, marks[0], fuel) == supers_by_key(
            s,
            supers.skip(at),
            marks[at],
            fuel,
        ),
    decreases at,
{
    if at == 0 {
        assert(supers.skip(0) =~= supers);
    } else {
        let tail = supers.drop_first();
        let later = marks.drop_first();
        assert(by_key(s, supers[0], marks[0], fuel) == (missing(), marks[1]));
        assert forall|i: int| 0 <= i < at - 1 implies #[trigger] by_key(
            s,
            tail[i],
            later[i],
            fuel,
        ) == (missing(), later[i + 1]) by {
            assert(by_key(s, supers[i + 1], marks[i + 1], fuel) == (missing(), marks[i + 2]));
        }
        lemma_first_super_by_key(s, tail, later, at - 1, fuel);
        assert(tail.skip(at - 1) =~= supers.skip(at));
    }
}

/// A class without a member of its own has the member of the first of its
/// super types that has it, and none if no super type has it. `at` is the
/// first such super type, or the number of super types if there is none;
/// `marks` are the declarations visited before each super type.
pub proof fn law_class_inherits_members(
    s: Scope,
    id: Seq<char>,
    key: IndexKey,
    supers: Seq<Ty>,
    visited: Set<Seq<char>>,
    marks: Seq<Set<Seq<char>>>,
    at: int,
    fuel: nat,
)
    requires
        fuel > 0,
        !visited.contains(id),
        s.key == Some(key),
        s.db.decl_kind(id) == Some(LuaDeclTypeKind::Class),
        s.db.supers(id) == Some(supers),
        s.db.member(MemberOwner::Type(id), key.member_key()) is None,
        0 <= at <= supers.len(),
        marks.len() > at,
        marks[0] == visited.insert(id),
        forall|i: int|
            0 <= i < at ==> #[trigger] by_key(s, supers[i], marks[i], (fuel - 1) as nat) == (
                missing(),
                marks[i + 1],
            ),
        at < supers.len() ==> by_key(s, supers[at], marks[at], (fuel - 1) as nat).0 != missing(),
    ensures
        by_key(s, Ty::Ref(id), visited, fuel) == (if at < supers.len() {
            by_key(s, supers[at], marks[at], (fuel - 1) as nat)
        } else {
            (missing(), marks[at])
        }),
{
    let rest = (fuel - 1) as nat;
    lemma_first_super_by_key(s, supers, marks, at, rest);
    assert(by_key(s, Ty::Ref(id), visited, fuel) == decl_by_key(s, id, visited, rest));
    assert(decl_by_key(s, id, visited, rest) == supers_by_key(s, supers, marks[0], rest));
}

/// Super types that have nothing are passed over.
proof fn lemma_first_super_by_operator(
    s: Scope,
    supers: Seq<Ty>,
    marks: Seq<Set<Seq<char>>>,
    at: int,
    fuel: nat,
)
    requires
        0 <= at <= supers.len(),
        marks.len() > at,
        forall|i: int|
            0 <= i < at ==> #[trigger] by_operator(s, supers[i], marks[i], fuel) == (
                missing(),
                marks[i + 1],
            ),
    ensures
        supers_by_operator(s, supers, marks[0], fuel) == supers_by_operator(
            s,
            supers.skip(at),
            marks[at],
            fuel,
        ),
    decreases at,
{
    if at == 0 {
        assert(supers.skip(0) =~= supers);
    } else {
        let tail = supers.drop_first();
        let later = marks.drop_first();
        assert(by_operator(s, supers[0], marks[0], fuel) == (missing(), marks[1]));
        assert forall|i: int| 0 <= i < at - 1 implies #[trigger] by_operator(
            s,
            tail[i],
            later[i],
            fuel,
        ) == (missing(), later[i + 1]) by {
            assert(by_operator(s, supers[i + 1], marks[i + 1], fuel) == (missing(), marks[i + 2]));
        }
        lemma_first_super_by_operator(s, tail, later, at - 1, fuel);
        assert(tail.skip(at - 1) =~= supers.skip(at));
    }
}

/// A class without an index operator of its own for the key gives what the
/// first of its super types gives that gives anything, and nothing if no super
/// type does. `at` is the first such super type, or the number of super types
/// if there is none; `marks` are the declarations visited before each super
/// type.
pub proof fn law_class_inherits_operators(
    s: Scope,
    id: Seq<char>,
    key: IndexKey,
    supers: Seq<Ty>,
    visited: Set<Seq<char>>,
    marks: Seq<Set<Seq<char>>>,
    at: int,
    fuel: nat,
)
    requires
        fuel > 0,
        !visited.contains(id),
        s.key == Some(key),
        s.db.decl_kind(id) == Some(LuaDeclTypeKind::Class),
        s.db.supers(id) == Some(supers),
        own_operator(s, id, key) is None,
        0 <= at <= supers.len(),
        marks.len() > at,
        marks[0] == visited.insert(id),
        forall|i: int|
            0 <= i < at ==> #[trigger] by_operator(s, supers[i], marks[i], (fuel - 1) as nat) == (
                missing(),
                marks[i + 1],
            ),
        at < supers.len() ==> by_operator(s, supers[at], marks[at], (fuel - 1) as nat).0
            != missing(),
    ensures
        by_operator(s, Ty::Ref(id), visited, fuel) == (if at < supers.len() {
            by_operator(s, supers[at], marks[at], (fuel - 1) as nat)
        } else {
            (missing(), marks[at])
        }),
{
    let rest = (fuel - 1) as nat;
    lemma_first_super_by_operator(s, supers, marks, at, rest);
    assert(by_operator(s, Ty::Ref(id), visited, fuel) == decl_by_operator(s, id, visited, rest));
    assert(decl_by_operator(s, id, visited, rest) == supers_by_operator(s, supers, marks[0], rest));
}

/// A reference to a declared type and its definition have the same members.
pub proof fn law_ref_like_def(s: Scope, id: Seq<char>, visited: Set<Seq<char>>, fuel: nat)
    ensures
        by_key(s, Ty::Ref(id), visited, fuel) == by_key(s, Ty::Def(id), visited, fuel),
        by_operator(s, Ty::Ref(id), visited, fuel) == by_operator(s, Ty::Def(id), visited, fuel),
{
}

// ---------------------------------------------------------------------------
// Names and string literals
// ---------------------------------------------------------------------------

/// The scope with another key.
pub open spec fn with_key(s: Scope, key: IndexKey) -> Scope {
    Scope { key: Some(key), ..s }
}

proof fn lemma_index_access_named(cache: LuaInferCache, name: Seq<char>, entries: Seq<(Ty, Ty)>)
    ensures
        index_access(cache, IndexKey::Name(name), entries) == index_access(
            cache,
            IndexKey::String(name),
            entries,
        ),
    decreases entries.len(),
{
    if entries.len() > 0 {
        lemma_index_access_named(cache, name, entries.drop_first());
    }
}

/// `t.name` and `t["name"]` are the same member, unless `name` is a global
/// variable: the table of globals is only indexed by names.
pub proof fn law_name_like_string(
    s: Scope,
    name: Seq<char>,
    t: Ty,
    visited: Set<Seq<char>>,
    fuel: nat,
)
    requires
        s.db.global(name) is None,
    ensures
        by_key(with_key(s, IndexKey::Name(name)), t, visited, fuel) == by_key(
            with_key(s, IndexKey::String(name)),
            t,
            visited,
            fuel,
        ),
    decreases fuel, 0nat, 0nat,
{
    if fuel > 0 {
        let rest = (fuel - 1) as nat;
        match t {
            Ty::String | Ty::Io | Ty::StringConst(_) | Ty::DocStringConst(_) => {
                lemma_decl_named(s, name, builtin_decl(t).unwrap(), visited, rest);
            },
            Ty::Ref(id) => lemma_decl_named(s, name, id, visited, rest),
            Ty::Def(id) => lemma_decl_named(s, name, id, visited, rest),
            Ty::Object(_, entries) => lemma_index_access_named(s.cache, name, entries),
            Ty::Union(types) => lemma_each_named(s, name, types, rest),
            Ty::Intersection(types) => lemma_each_named(s, name, types, rest),
            Ty::Generic(base, _) => law_name_like_string(s, name, *base, Set::empty(), rest),
            Ty::Instance(base, _) => law_name_like_string(s, name, *base, visited, rest),
            _ => {},
        }
    }
}

proof fn lemma_each_named(s: Scope, name: Seq<char>, types: Seq<Ty>, fuel: nat)
    requires
        s.db.global(name) is None,
    ensures
        each_by_key(with_key(s, IndexKey::Name(name)), types, fuel) == each_by_key(
            with_key(s, IndexKey::String(name)),
            types,
            fuel,
        ),
    decreases fuel, 1nat, 0nat,
{
    let named = each_by_key(with_key(s, IndexKey::Name(name)), types, fuel);
    let quoted = each_by_key(with_key(s, IndexKey::String(name)), types, fuel);
    assert forall|i: int| 0 <= i < types.len() implies named[i] == quoted[i] by {
        law_name_like_string(s, name, types[i], Set::empty(), fuel);
    }
    assert(named =~= quoted);
}

proof fn lemma_decl_named(
    s: Scope,
    name: Seq<char>,
    id: Seq<char>,
    visited: Set<Seq<char>>,
    fuel: nat,
)
    requires
        s.db.global(name) is None,
    ensures
        decl_by_key(with_key(s, IndexKey::Name(name)), id, visited, fuel) == decl_by_key(
            with_key(s, IndexKey::String(name)),
            id,
            visited,
            fuel,
        ),
    decreases fuel, 2nat, 0nat,
{
    let seen = visited.insert(id);
    law_name_like_string(s, name, Ty::String, seen, fuel);
    if let Some(origin) = s.db.alias_origin(id) {
        law_name_like_string(s, name, origin, seen, fuel);
    }
    if let Some(supers) = s.db.supers(id) {
        lemma_supers_named(s, name, supers, seen, fuel);
    }
}

proof fn lemma_supers_named(
    s: Scope,
    name: Seq<char>,
    supers: Seq<Ty>,
    visited: Set<Seq<char>>,
    fuel: nat,
)
    requires
        s.db.global(name) is None,
    ensures
        supers_by_key(with_key(s, IndexKey::Name(name)), supers, visited, fuel) == supers_by_key(
            with_key(s, IndexKey::String(name)),
            supers,
            visited,
            fuel,
        ),
    decreases fuel, 1nat, supers.len(),
{
    if supers.len() > 0 {
        law_name_like_string(s, name, supers[0], visited, fuel);
        let seen = by_key(with_key(s, IndexKey::Name(name)), supers[0], visited, fuel).1;
        lemma_supers_named(s, name, supers.drop_first(), seen, fuel);
    }
}

// ---------------------------------------------------------------------------
// Tuples
// ---------------------------------------------------------------------------

/// The integers from one to the length of a tuple give its types in order,
/// integers below give the first, and integers above give none.
pub proof fn law_tuple_member(types: Seq<Ty>, i: i64)
    requires
        types.len() > 0,
    ensures
        1 <= i <= types.len() ==> tuple_member(Some(IndexKey::Integer(i)), types) == found(
            types[i - 1],
        ),
        i < 1 ==> tuple_member(Some(IndexKey::Integer(i)), types) == found(types[0]),
        i > types.len() ==> tuple_member(Some(IndexKey::Integer(i)), types) == missing(),
{
}

// ---------------------------------------------------------------------------
// Arrays and tables
// ---------------------------------------------------------------------------

/// An array gives its element type under an integer and under an expression
/// that is a number, and nothing under any other key. It asks for the type of a
/// key expression alone.
pub proof fn law_array_element(s: Scope, base: Ty, visited: Set<Seq<char>>, fuel: nat)
    requires
        fuel > 0,
    ensures
        by_operator(s, Ty::Array(Box::new(base)), visited, fuel) == (
            match s.key {
                Some(IndexKey::Integer(_)) => found(base),
                Some(IndexKey::Expr(e)) => match s.cache.expr_type(e) {
                    Step::Done(Some(t)) => if t.is_number() {
                        found(base)
                    } else {
                        missing()
                    },
                    out => out,
                },
                _ => missing(),
            },
            visited,
        ),
{
}

/// Nothing but `V` is an element of `table<K, V>`.
pub proof fn law_table_generic_element(
    s: Scope,
    params: Seq<Ty>,
    visited: Set<Seq<char>>,
    fuel: nat,
)
    requires
        fuel > 0,
    ensures
        match by_operator(s, Ty::TableGeneric(params), visited, fuel).0 {
            Step::Done(Some(t)) => params.len() == 2 && t == params[1],
            out => !(out is Endless),
        },
{
}

// ---------------------------------------------------------------------------
// Index expressions
// ---------------------------------------------------------------------------

/// A member that is found by its key is not looked for through operators.
pub proof fn law_key_before_operator(s: Scope, t: Ty, fuel: nat)
    requires
        by_key(s, t, Set::empty(), fuel).0 != missing(),
    ensures
        member_type(s, t, fuel) == by_key(s, t, Set::empty(), fuel).0,
{
}

/// Once everything has been analysed, an index expression whose prefix has a
/// type has a type too.
pub proof fn law_forced(
    db: DbIndex,
    cache: LuaInferCache,
    expr: LuaIndexExpr,
    prefix: Ty,
    fuel: nat,
)
    requires
        cache.config.analysis_phase is Force,
        expr.prefix is Some,
        cache.expr_type(expr.prefix.unwrap().id()) == found(prefix),
    ensures
        index_type(db, cache, expr, fuel) != missing(),
{
    let s = scope(db, cache, expr.member);
    if let Step::Done(Some(member)) = member_type(s, prefix, fuel) {
        lemma_flow_type_found(cache, expr, member);
    }
}

proof fn lemma_flow_type_found(cache: LuaInferCache, expr: LuaIndexExpr, t: Ty)
    ensures
        flow_type(cache, expr, t) != missing(),
{
    if let Step::Done(Some(chain)) = cache.flow_chain(expr.id) {
        if let Some(path) = expr.access_path {
            let at = expr.id.range.start;
            if let Step::Done(assertions) = cache.asserts(
                chain,
                smol_chars(path),
                at,
            ) {
                lemma_tightened_found(cache, assertions, t);
            }
        }
    }
}

proof fn lemma_tightened_found(cache: LuaInferCache, assertions: Seq<u64>, t: Ty)
    ensures
        tightened(cache, assertions, t) != missing(),
    decreases assertions.len(),
{
    if assertions.len() > 0 {
        lemma_tightened_found(cache, assertions.drop_first(), Ty::Unknown);
        if let Step::Done(Some(left)) = cache.tightening(assertions[0], t) {
            lemma_tightened_found(cache, assertions.drop_first(), left);
        }
    }
}

/// Control flow does not narrow the elements of an array: whatever is known
/// of control flow, the type of the index expression is that of the element.
pub proof fn law_array_not_narrowed(
    db: DbIndex,
    cache: LuaInferCache,
    expr: LuaIndexExpr,
    base: Ty,
    fuel: nat,
)
    requires
        expr.prefix is Some,
        cache.expr_type(expr.prefix.unwrap().id()) == found(Ty::Array(Box::new(base))),
    ensures
        index_type(db, cache, expr, fuel) == member_type(
            scope(db, cache, expr.member),
            Ty::Array(Box::new(base)),
            fuel,
        ),
{
}

} // verus!
