//! A search ends where the types that it comes across can be ranked.

use crate::cache::{InferOut, LuaInferCache, Step};
use crate::db::{DbIndex, LuaDeclTypeKind};
use crate::laws::guard::{
    law_by_key_keeps_visited, law_by_operator_keeps_visited, lemma_first_operator_ends,
    lemma_flow_type_ends, lemma_index_access_ends,
};
use crate::model::{
    applied_by_operator, by_key, by_operator, decl_by_key, decl_by_operator, each_by_key,
    each_by_operator, first_applied_by_operator, found, generic_by_operator, index_type,
    intersection_of, member_type, scope, supers_by_key, supers_by_operator, union_of, Scope,
};
use crate::syntax::LuaIndexExpr;
use crate::types::{builtin_decl, Ty};
use vstd::prelude::*;

verus! {

/// The rank of a type, given what has been visited.
pub type Rank = spec_fn(Ty, Set<Seq<char>>) -> nat;

/// Whether a type belongs to a set and ranks below a bound.
pub open spec fn below(
    within: Set<Ty>,
    rank: Rank,
    t: Ty,
    visited: Set<Seq<char>>,
    bound: nat,
) -> bool {
    within.contains(t) && rank(t, visited) < bound
}

/// Whether several types rank below a bound, with nothing visited.
pub open spec fn parts_below(within: Set<Ty>, rank: Rank, parts: Seq<Ty>, bound: nat) -> bool {
    forall|i: int|
        0 <= i < parts.len() ==> below(within, rank, #[trigger] parts[i], Set::empty(), bound)
}

/// Whether several types rank below a bound, whatever else has been visited.
pub open spec fn all_below(
    within: Set<Ty>,
    rank: Rank,
    types: Seq<Ty>,
    visited: Set<Seq<char>>,
    bound: nat,
) -> bool {
    forall|i: int, seen: Set<Seq<char>>|
        0 <= i < types.len() && visited.subset_of(seen) ==> #[trigger] below(
            within,
            rank,
            types[i],
            seen,
            bound,
        )
}

proof fn lemma_union_ends(outs: Seq<InferOut>)
    requires
        forall|i: int| 0 <= i < outs.len() ==> !((#[trigger] outs[i]) is Endless),
    ensures
        !(union_of(outs) is Endless),
    decreases outs.len(),
{
    if outs.len() > 0 {
        let tail = outs.drop_first();
        assert(!(outs[0] is Endless));
        assert forall|i: int| 0 <= i < tail.len() implies !((#[trigger] tail[i]) is Endless) by {
            assert(tail[i] == outs[i + 1]);
        }
        lemma_union_ends(tail);
    }
}

proof fn lemma_intersection_ends(outs: Seq<InferOut>, so_far: Ty)
    requires
        forall|i: int| 0 <= i < outs.len() ==> !((#[trigger] outs[i]) is Endless),
    ensures
        !(intersection_of(outs, so_far) is Endless),
    decreases outs.len(),
{
    if outs.len() > 0 {
        let tail = outs.drop_first();
        assert(!(outs[0] is Endless));
        assert forall|i: int| 0 <= i < tail.len() implies !((#[trigger] tail[i]) is Endless) by {
            assert(tail[i] == outs[i + 1]);
        }
        lemma_intersection_ends(tail, so_far);
        if let Step::Done(Some(t)) = outs[0] {
            lemma_intersection_ends(tail, t);
        }
    }
}

// ---------------------------------------------------------------------------
// Members by key
// ---------------------------------------------------------------------------

/// Whether all that a declared type leads to ranks below a bound, in the search
/// for a member by key.
pub open spec fn decl_ranks_by_key(
    s: Scope,
    within: Set<Ty>,
    rank: Rank,
    id: Seq<char>,
    visited: Set<Seq<char>>,
    bound: nat,
) -> bool {
    let seen = visited.insert(id);
    !visited.contains(id) ==> match s.db.decl_kind(id) {
        Some(LuaDeclTypeKind::Alias) => match s.db.alias_origin(id) {
            Some(origin) => below(within, rank, origin, seen, bound),
            None => below(within, rank, Ty::String, seen, bound),
        },
        Some(LuaDeclTypeKind::Class) => match s.db.supers(id) {
            Some(supers) => all_below(within, rank, supers, seen, bound),
            None => true,
        },
        _ => true,
    }
}

/// Whether all that a type leads to ranks below a bound, in the search for
/// a member by key.
pub open spec fn ranks_by_key(
    s: Scope,
    within: Set<Ty>,
    rank: Rank,
    t: Ty,
    visited: Set<Seq<char>>,
    bound: nat,
) -> bool {
    match t {
        Ty::String | Ty::Io | Ty::StringConst(_) | Ty::DocStringConst(_) => decl_ranks_by_key(
            s,
            within,
            rank,
            builtin_decl(t).unwrap(),
            visited,
            bound,
        ),
        Ty::Ref(id) => decl_ranks_by_key(s, within, rank, id, visited, bound),
        Ty::Def(id) => decl_ranks_by_key(s, within, rank, id, visited, bound),
        Ty::Union(parts) => parts_below(within, rank, parts, bound),
        Ty::Intersection(parts) => parts_below(within, rank, parts, bound),
        Ty::Generic(base, _) => below(within, rank, *base, Set::empty(), bound),
        Ty::Instance(base, _) => below(within, rank, *base, visited, bound),
        _ => true,
    }
}

/// Whether each type of a set, whatever has been visited, only leads to types
/// of the set that rank below it: parts, bases, origins and super types.
pub open spec fn ranked_by_key(s: Scope, within: Set<Ty>, rank: Rank) -> bool {
    forall|t: Ty, visited: Set<Seq<char>>|
        #![trigger rank(t, visited)]
        within.contains(t) ==> ranks_by_key(s, within, rank, t, visited, rank(t, visited))
}

/// The search for a member by key ends where the types that it comes
/// across can be ranked so that each only leads to types that rank below it.
pub proof fn law_by_key_ends_ranked(
    s: Scope,
    within: Set<Ty>,
    rank: Rank,
    t: Ty,
    visited: Set<Seq<char>>,
    fuel: nat,
)
    requires
        ranked_by_key(s, within, rank),
        within.contains(t),
        fuel > rank(t, visited),
    ensures
        !(by_key(s, t, visited, fuel).0 is Endless),
    decreases fuel, 0nat, 0nat,
{
    let rest = (fuel - 1) as nat;
    let bound = rank(t, visited);
    assert(ranks_by_key(s, within, rank, t, visited, bound));
    match t {
        Ty::String | Ty::Io | Ty::StringConst(_) | Ty::DocStringConst(_) => {
            lemma_decl_by_key_ends(
                s,
                within,
                rank,
                builtin_decl(t).unwrap(),
                visited,
                bound,
                rest,
            );
        },
        Ty::Object(_, entries) => {
            if let Some(key) = s.key {
                lemma_index_access_ends(s.cache, key, entries);
            }
        },
        Ty::Ref(id) => lemma_decl_by_key_ends(s, within, rank, id, visited, bound, rest),
        Ty::Def(id) => lemma_decl_by_key_ends(s, within, rank, id, visited, bound, rest),
        Ty::Union(parts) => {
            lemma_each_by_key_ends(s, within, rank, parts, bound, rest);
            lemma_union_ends(each_by_key(s, parts, rest));
        },
        Ty::Intersection(parts) => {
            lemma_each_by_key_ends(s, within, rank, parts, bound, rest);
            lemma_intersection_ends(each_by_key(s, parts, rest), Ty::Unknown);
        },
        Ty::Generic(base, _) => {
            law_by_key_ends_ranked(s, within, rank, *base, Set::empty(), rest);
        },
        Ty::Instance(base, _) => law_by_key_ends_ranked(s, within, rank, *base, visited, rest),
        _ => {},
    }
}

proof fn lemma_each_by_key_ends(
    s: Scope,
    within: Set<Ty>,
    rank: Rank,
    types: Seq<Ty>,
    bound: nat,
    fuel: nat,
)
    requires
        bound <= fuel,
        ranked_by_key(s, within, rank),
        parts_below(within, rank, types, bound),
    ensures
        forall|i: int|
            0 <= i < types.len() ==> !((#[trigger] each_by_key(s, types, fuel)[i]) is Endless),
    decreases fuel, 1nat, 0nat,
{
    assert forall|i: int| 0 <= i < types.len() implies !((#[trigger] each_by_key(
        s,
        types,
        fuel,
    )[i]) is Endless) by {
        assert(below(within, rank, types[i], Set::empty(), bound));
        law_by_key_ends_ranked(s, within, rank, types[i], Set::empty(), fuel);
    }
}

proof fn lemma_decl_by_key_ends(
    s: Scope,
    within: Set<Ty>,
    rank: Rank,
    id: Seq<char>,
    visited: Set<Seq<char>>,
    bound: nat,
    fuel: nat,
)
    requires
        bound <= fuel,
        ranked_by_key(s, within, rank),
        decl_ranks_by_key(s, within, rank, id, visited, bound),
    ensures
        !(decl_by_key(s, id, visited, fuel).0 is Endless),
    decreases fuel, 2nat, 0nat,
{
    let seen = visited.insert(id);
    if !visited.contains(id) {
        if s.db.decl_kind(id) == Some(LuaDeclTypeKind::Alias) {
            match s.db.alias_origin(id) {
                Some(origin) => law_by_key_ends_ranked(s, within, rank, origin, seen, fuel),
                None => law_by_key_ends_ranked(s, within, rank, Ty::String, seen, fuel),
            }
        }
        if s.db.decl_kind(id) == Some(LuaDeclTypeKind::Class) {
            if let Some(supers) = s.db.supers(id) {
                lemma_supers_by_key_ends(s, within, rank, supers, seen, seen, bound, fuel);
            }
        }
    }
}

proof fn lemma_supers_by_key_ends(
    s: Scope,
    within: Set<Ty>,
    rank: Rank,
    supers: Seq<Ty>,
    start: Set<Seq<char>>,
    visited: Set<Seq<char>>,
    bound: nat,
    fuel: nat,
)
    requires
        bound <= fuel,
        ranked_by_key(s, within, rank),
        all_below(within, rank, supers, start, bound),
        start.subset_of(visited),
    ensures
        !(supers_by_key(s, supers, visited, fuel).0 is Endless),
    decreases fuel, 1nat, supers.len(),
{
    if supers.len() > 0 {
        assert(below(within, rank, supers[0], visited, bound));
        law_by_key_ends_ranked(s, within, rank, supers[0], visited, fuel);
        law_by_key_keeps_visited(s, supers[0], visited, fuel);
        let seen = by_key(s, supers[0], visited, fuel).1;
        let tail = supers.drop_first();
        assert forall|i: int, later: Set<Seq<char>>|
            0 <= i < tail.len() && start.subset_of(later) implies #[trigger] below(
            within,
            rank,
            tail[i],
            later,
            bound,
        ) by {
            assert(below(within, rank, supers[i + 1], later, bound));
        }
        lemma_supers_by_key_ends(s, within, rank, tail, start, seen, bound, fuel);
    }
}

// ---------------------------------------------------------------------------
// Members through operators
// ---------------------------------------------------------------------------

/// Whether all that a declared type leads to ranks below a bound, in the search
/// for a member through operators.
pub open spec fn decl_ranks_by_operator(
    s: Scope,
    within: Set<Ty>,
    rank: Rank,
    id: Seq<char>,
    visited: Set<Seq<char>>,
    bound: nat,
) -> bool {
    let seen = visited.insert(id);
    !visited.contains(id) ==> match s.db.decl_kind(id) {
        Some(LuaDeclTypeKind::Alias) => match s.db.alias_origin(id) {
            Some(origin) => below(within, rank, origin, seen, bound),
            None => true,
        },
        Some(LuaDeclTypeKind::Class) => match s.db.supers(id) {
            Some(supers) => all_below(within, rank, supers, seen, bound),
            None => true,
        },
        _ => true,
    }
}

/// Whether all that a generic type leads to ranks below a bound.
pub open spec fn generic_ranks(
    s: Scope,
    within: Set<Ty>,
    rank: Rank,
    id: Seq<char>,
    params: Seq<Ty>,
    bound: nat,
) -> bool {
    match s.db.decl_kind(id) {
        Some(LuaDeclTypeKind::Alias) => match s.cache.alias_origin(id, params) {
            Step::Done(Some(origin)) => instance_below(s, within, rank, origin, params, bound),
            _ => true,
        },
        Some(_) => match s.db.supers(id) {
            Some(supers) => forall|i: int|
                0 <= i < supers.len() ==> instance_below(
                    s,
                    within,
                    rank,
                    #[trigger] supers[i],
                    params,
                    bound,
                ),
            None => true,
        },
        None => true,
    }
}

/// Whether a type ranks below a bound once the arguments are filled in.
pub open spec fn instance_below(
    s: Scope,
    within: Set<Ty>,
    rank: Rank,
    t: Ty,
    params: Seq<Ty>,
    bound: nat,
) -> bool {
    match s.cache.instance(t, params) {
        Step::Done(Some(instance)) => below(within, rank, instance, Set::empty(), bound),
        _ => true,
    }
}

/// Whether all that a type leads to ranks below a bound, in the search for
/// a member through operators.
pub open spec fn ranks_by_operator(
    s: Scope,
    within: Set<Ty>,
    rank: Rank,
    t: Ty,
    visited: Set<Seq<char>>,
    bound: nat,
) -> bool {
    match t {
        Ty::Ref(id) => decl_ranks_by_operator(s, within, rank, id, visited, bound),
        Ty::Def(id) => decl_ranks_by_operator(s, within, rank, id, visited, bound),
        Ty::Union(parts) => parts_below(within, rank, parts, bound),
        Ty::Intersection(parts) => parts_below(within, rank, parts, bound),
        Ty::Generic(base, params) => match *base {
            Ty::Ref(id) => generic_ranks(s, within, rank, id, params, bound),
            _ => true,
        },
        _ => true,
    }
}

/// Whether each type of a set, whatever has been visited, only leads to types
/// of the set that rank below it: parts, bases, origins and super types,
/// with the arguments filled in.
pub open spec fn ranked_by_operator(s: Scope, within: Set<Ty>, rank: Rank) -> bool {
    forall|t: Ty, visited: Set<Seq<char>>|
        #![trigger rank(t, visited)]
        within.contains(t) ==> ranks_by_operator(s, within, rank, t, visited, rank(t, visited))
}

/// The search for a member through operators ends where the types that it comes
/// across can be ranked so that each only leads to types that rank below it.
pub proof fn law_by_operator_ends_ranked(
    s: Scope,
    within: Set<Ty>,
    rank: Rank,
    t: Ty,
    visited: Set<Seq<char>>,
    fuel: nat,
)
    requires
        ranked_by_operator(s, within, rank),
        within.contains(t),
        fuel > rank(t, visited),
    ensures
        !(by_operator(s, t, visited, fuel).0 is Endless),
    decreases fuel, 0nat, 0nat,
{
    let rest = (fuel - 1) as nat;
    let bound = rank(t, visited);
    assert(ranks_by_operator(s, within, rank, t, visited, bound));
    match t {
        Ty::Ref(id) => lemma_decl_by_operator_ends(s, within, rank, id, visited, bound, rest),
        Ty::Def(id) => lemma_decl_by_operator_ends(s, within, rank, id, visited, bound, rest),
        Ty::Union(parts) => {
            lemma_each_by_operator_ends(s, within, rank, parts, bound, rest);
            lemma_union_ends(each_by_operator(s, parts, rest));
        },
        Ty::Intersection(parts) => {
            lemma_each_by_operator_ends(s, within, rank, parts, bound, rest);
            lemma_intersection_ends(each_by_operator(s, parts, rest), Ty::Unknown);
        },
        Ty::Generic(base, params) => {
            if let Ty::Ref(id) = *base {
                lemma_generic_by_operator_ends(s, within, rank, id, params, bound, rest);
            }
        },
        _ => {},
    }
}

proof fn lemma_each_by_operator_ends(
    s: Scope,
    within: Set<Ty>,
    rank: Rank,
    types: Seq<Ty>,
    bound: nat,
    fuel: nat,
)
    requires
        bound <= fuel,
        ranked_by_operator(s, within, rank),
        parts_below(within, rank, types, bound),
    ensures
        forall|i: int|
            0 <= i < types.len() ==> !((#[trigger] each_by_operator(s, types, fuel)[i]) is Endless),
    decreases fuel, 1nat, 0nat,
{
    assert forall|i: int| 0 <= i < types.len() implies !((#[trigger] each_by_operator(
        s,
        types,
        fuel,
    )[i]) is Endless) by {
        assert(below(within, rank, types[i], Set::empty(), bound));
        law_by_operator_ends_ranked(s, within, rank, types[i], Set::empty(), fuel);
    }
}

proof fn lemma_decl_by_operator_ends(
    s: Scope,
    within: Set<Ty>,
    rank: Rank,
    id: Seq<char>,
    visited: Set<Seq<char>>,
    bound: nat,
    fuel: nat,
)
    requires
        bound <= fuel,
        ranked_by_operator(s, within, rank),
        decl_ranks_by_operator(s, within, rank, id, visited, bound),
    ensures
        !(decl_by_operator(s, id, visited, fuel).0 is Endless),
    decreases fuel, 2nat, 0nat,
{
    let seen = visited.insert(id);
    if !visited.contains(id) {
        if s.db.decl_kind(id) == Some(LuaDeclTypeKind::Alias) {
            match s.db.alias_origin(id) {
                Some(origin) => law_by_operator_ends_ranked(s, within, rank, origin, seen, fuel),
                None => {},
            }
        }
        if s.db.decl_kind(id) == Some(LuaDeclTypeKind::Class) {
            if let Some(supers) = s.db.supers(id) {
                lemma_supers_by_operator_ends(s, within, rank, supers, seen, seen, bound, fuel);
            }
        }
        if let (Some(key), Some(Some(ids))) = (s.key, s.db.index_operators(id)) {
            lemma_first_operator_ends(s.db, s.cache, key, ids, None);
        }
    }
}

proof fn lemma_supers_by_operator_ends(
    s: Scope,
    within: Set<Ty>,
    rank: Rank,
    supers: Seq<Ty>,
    start: Set<Seq<char>>,
    visited: Set<Seq<char>>,
    bound: nat,
    fuel: nat,
)
    requires
        bound <= fuel,
        ranked_by_operator(s, within, rank),
        all_below(within, rank, supers, start, bound),
        start.subset_of(visited),
    ensures
        !(supers_by_operator(s, supers, visited, fuel).0 is Endless),
    decreases fuel, 1nat, supers.len(),
{
    if supers.len() > 0 {
        assert(below(within, rank, supers[0], visited, bound));
        law_by_operator_ends_ranked(s, within, rank, supers[0], visited, fuel);
        law_by_operator_keeps_visited(s, supers[0], visited, fuel);
        let seen = by_operator(s, supers[0], visited, fuel).1;
        let tail = supers.drop_first();
        assert forall|i: int, later: Set<Seq<char>>|
            0 <= i < tail.len() && start.subset_of(later) implies #[trigger] below(
            within,
            rank,
            tail[i],
            later,
            bound,
        ) by {
            assert(below(within, rank, supers[i + 1], later, bound));
        }
        lemma_supers_by_operator_ends(s, within, rank, tail, start, seen, bound, fuel);
    }
}

proof fn lemma_applied_by_operator_ends(
    s: Scope,
    within: Set<Ty>,
    rank: Rank,
    t: Ty,
    params: Seq<Ty>,
    bound: nat,
    fuel: nat,
)
    requires
        bound <= fuel,
        ranked_by_operator(s, within, rank),
        instance_below(s, within, rank, t, params, bound),
    ensures
        !(applied_by_operator(s, t, params, fuel) is Endless),
    decreases fuel, 1nat, 0nat,
{
    if let Step::Done(Some(instance)) = s.cache.instance(t, params) {
        law_by_operator_ends_ranked(s, within, rank, instance, Set::empty(), fuel);
    }
}

proof fn lemma_first_applied_ends(
    s: Scope,
    within: Set<Ty>,
    rank: Rank,
    types: Seq<Ty>,
    params: Seq<Ty>,
    bound: nat,
    fuel: nat,
)
    requires
        bound <= fuel,
        ranked_by_operator(s, within, rank),
        forall|i: int|
            0 <= i < types.len() ==> instance_below(
                s,
                within,
                rank,
                #[trigger] types[i],
                params,
                bound,
            ),
    ensures
        !(first_applied_by_operator(s, types, params, fuel) is Endless),
    decreases fuel, 2nat, types.len(),
{
    if types.len() > 0 {
        lemma_applied_by_operator_ends(s, within, rank, types[0], params, bound, fuel);
        let tail = types.drop_first();
        assert forall|i: int| 0 <= i < tail.len() implies instance_below(
            s,
            within,
            rank,
            #[trigger] tail[i],
            params,
            bound,
        ) by {
            assert(tail[i] == types[i + 1]);
        }
        lemma_first_applied_ends(s, within, rank, tail, params, bound, fuel);
    }
}

proof fn lemma_generic_by_operator_ends(
    s: Scope,
    within: Set<Ty>,
    rank: Rank,
    id: Seq<char>,
    params: Seq<Ty>,
    bound: nat,
    fuel: nat,
)
    requires
        bound <= fuel,
        ranked_by_operator(s, within, rank),
        generic_ranks(s, within, rank, id, params, bound),
    ensures
        !(generic_by_operator(s, Ty::Ref(id), params, fuel) is Endless),
    decreases fuel, 3nat, 0nat,
{
    match s.db.decl_kind(id) {
        Some(LuaDeclTypeKind::Alias) => {
            if let Step::Done(Some(origin)) = s.cache.alias_origin(id, params) {
                lemma_applied_by_operator_ends(s, within, rank, origin, params, bound, fuel);
            }
        },
        Some(_) => {
            if let (Some(key), Some(Some(ids))) = (s.key, s.db.index_operators(id)) {
                lemma_first_operator_ends(s.db, s.cache, key, ids, Some(params));
            }
            if let Some(supers) = s.db.supers(id) {
                lemma_first_applied_ends(s, within, rank, supers, params, bound, fuel);
            }
        },
        None => {},
    }
}

// ---------------------------------------------------------------------------
// Index expressions
// ---------------------------------------------------------------------------

/// The inference of an index expression ends where the types that it comes
/// across can be ranked so that each only leads to types that rank below it.
pub proof fn law_index_type_ends_ranked(
    db: DbIndex,
    cache: LuaInferCache,
    expr: LuaIndexExpr,
    within: Set<Ty>,
    rank: Rank,
    prefix: Ty,
    fuel: nat,
)
    requires
        expr.prefix is Some,
        cache.expr_type(expr.prefix.unwrap().id()) == found(prefix),
        ranked_by_key(scope(db, cache, expr.member), within, rank),
        ranked_by_operator(scope(db, cache, expr.member), within, rank),
        within.contains(prefix),
        fuel > rank(prefix, Set::empty()),
    ensures
        !(index_type(db, cache, expr, fuel) is Endless),
{
    let s = scope(db, cache, expr.member);
    law_by_key_ends_ranked(s, within, rank, prefix, Set::empty(), fuel);
    law_by_operator_ends_ranked(s, within, rank, prefix, Set::empty(), fuel);
    if let Step::Done(Some(member)) = member_type(s, prefix, fuel) {
        lemma_flow_type_ends(cache, expr, member);
    }
}

} // verus!
