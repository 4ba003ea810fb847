//! More answers and more fuel do not change a result.

use crate::cache::{InferOut, LuaInferCache, Step};
use crate::db::{DbIndex, LuaOperatorId};
use crate::model::{
    applied, applied_by_operator, by_key, by_key_comes_to, by_operator, by_operator_comes_to,
    decl_by_key, decl_by_operator, each_by_key, each_by_operator, first_applied_by_operator,
    first_open, first_operator, generic_by_operator, index_access, index_type, index_type_comes_to,
    intersection_of, key_match, member_type, scope, supers_by_key, supers_by_operator, tightened,
    union_of, KeyMatch, Scope,
};
use crate::syntax::{IndexKey, LuaIndexExpr};
use crate::text::smol_chars;
use crate::types::{builtin_decl, Ty};
use vstd::prelude::*;

verus! {

/// Two scopes that differ in their answers only, the second with all answers
/// of the first.
pub open spec fn follows(s1: Scope, s2: Scope) -> bool {
    &&& s2.db == s1.db
    &&& s2.root == s1.root
    &&& s2.key == s1.key
    &&& s2.cache.keeps(s1.cache)
}

/// A result that more answers, or more fuel alone, leave as it is.
pub open spec fn settled(c1: LuaInferCache, c2: LuaInferCache, out: InferOut) -> bool {
    out is Done || (c1 == c2 && out is Ask)
}

proof fn lemma_key_match_kept(
    c1: LuaInferCache,
    c2: LuaInferCache,
    key_type: Ty,
    exact: Ty,
    key: IndexKey,
)
    requires
        c2.keeps(c1),
    ensures
        match key_match(c1, key_type, exact, key) {
            KeyMatch::Stop(out) => settled(c1, c2, out) ==> key_match(c2, key_type, exact, key)
                == KeyMatch::Stop(out),
            m => key_match(c2, key_type, exact, key) == m,
        },
{
}

proof fn lemma_index_access_kept(
    c1: LuaInferCache,
    c2: LuaInferCache,
    key: IndexKey,
    entries: Seq<(Ty, Ty)>,
)
    requires
        c2.keeps(c1),
    ensures
        settled(c1, c2, index_access(c1, key, entries)) ==> index_access(c2, key, entries)
            == index_access(c1, key, entries),
    decreases entries.len(),
{
    if entries.len() > 0 {
        let (key_type, _) = entries[0];
        lemma_key_match_kept(c1, c2, key_type, key_type, key);
        lemma_index_access_kept(c1, c2, key, entries.drop_first());
    }
}

proof fn lemma_first_operator_kept(
    db: DbIndex,
    c1: LuaInferCache,
    c2: LuaInferCache,
    key: IndexKey,
    ids: Seq<LuaOperatorId>,
    params: Option<Seq<Ty>>,
)
    requires
        c2.keeps(c1),
    ensures
        match first_operator(db, c1, key, ids, params) {
            Some(out) => settled(c1, c2, out) ==> first_operator(db, c2, key, ids, params) == Some(
                out,
            ),
            None => first_operator(db, c2, key, ids, params) is None,
        },
    decreases ids.len(),
{
    if ids.len() > 0 {
        if let Some((operand, result)) = db.operator(ids[0]) {
            if let Step::Done(Some(key_type)) = applied(c1, operand, params) {
                lemma_key_match_kept(c1, c2, key_type, operand, key);
                lemma_first_operator_kept(db, c1, c2, key, ids.drop_first(), params);
            }
        }
    }
}

proof fn lemma_union_kept(
    c1: LuaInferCache,
    c2: LuaInferCache,
    outs1: Seq<InferOut>,
    outs2: Seq<InferOut>,
)
    requires
        outs1.len() == outs2.len(),
        forall|i: int|
            0 <= i < outs1.len() && settled(c1, c2, #[trigger] outs1[i]) ==> outs2[i] == outs1[i],
    ensures
        settled(c1, c2, union_of(outs1)) ==> union_of(outs2) == union_of(outs1),
{
    lemma_first_open_kept(c1, c2, outs1, outs2);
    if first_open(outs1) is None {
        assert(outs2 =~= outs1);
    }
}

proof fn lemma_first_open_kept(
    c1: LuaInferCache,
    c2: LuaInferCache,
    outs1: Seq<InferOut>,
    outs2: Seq<InferOut>,
)
    requires
        outs1.len() == outs2.len(),
        forall|i: int|
            0 <= i < outs1.len() && settled(c1, c2, #[trigger] outs1[i]) ==> outs2[i] == outs1[i],
    ensures
        match first_open(outs1) {
            Some(out) => settled(c1, c2, out) ==> first_open(outs2) == Some(out),
            None => forall|i: int| 0 <= i < outs1.len() ==> (#[trigger] outs1[i]) is Done,
        },
    decreases outs1.len(),
{
    if outs1.len() > 0 && outs1[0] is Done {
        let tail1 = outs1.drop_first();
        let tail2 = outs2.drop_first();
        assert forall|i: int|
            0 <= i < tail1.len() && settled(c1, c2, #[trigger] tail1[i]) implies tail2[i]
            == tail1[i] by {
            assert(tail1[i] == outs1[i + 1]);
        }
        lemma_first_open_kept(c1, c2, tail1, tail2);
        if first_open(outs1) is None {
            assert forall|i: int| 0 <= i < outs1.len() implies (#[trigger] outs1[i]) is Done by {
                if i > 0 {
                    assert(tail1[i - 1] == outs1[i]);
                }
            }
        }
    }
}

proof fn lemma_intersection_kept(
    c1: LuaInferCache,
    c2: LuaInferCache,
    outs1: Seq<InferOut>,
    outs2: Seq<InferOut>,
    so_far: Ty,
)
    requires
        outs1.len() == outs2.len(),
        forall|i: int|
            0 <= i < outs1.len() && settled(c1, c2, #[trigger] outs1[i]) ==> outs2[i] == outs1[i],
    ensures
        settled(c1, c2, intersection_of(outs1, so_far)) ==> intersection_of(outs2, so_far)
            == intersection_of(outs1, so_far),
    decreases outs1.len(),
{
    if outs1.len() > 0 {
        let tail1 = outs1.drop_first();
        let tail2 = outs2.drop_first();
        assert forall|i: int|
            0 <= i < tail1.len() && settled(c1, c2, #[trigger] tail1[i]) implies tail2[i]
            == tail1[i] by {
            assert(tail1[i] == outs1[i + 1]);
        }
        lemma_intersection_kept(c1, c2, tail1, tail2, so_far);
        if let Step::Done(Some(t)) = outs1[0] {
            lemma_intersection_kept(c1, c2, tail1, tail2, t);
        }
    }
}

/// A member that a type has under its key stays the same when more answers
/// are given and the search may go deeper. A question stays the same when
/// the search may go deeper.
pub proof fn law_by_key_is_kept(
    s1: Scope,
    s2: Scope,
    t: Ty,
    visited: Set<Seq<char>>,
    fuel1: nat,
    fuel2: nat,
)
    requires
        follows(s1, s2),
        fuel1 <= fuel2,
    ensures
        settled(s1.cache, s2.cache, by_key(s1, t, visited, fuel1).0) ==> by_key(
            s2,
            t,
            visited,
            fuel2,
        ) == by_key(s1, t, visited, fuel1),
    decreases fuel1, 0nat, 0nat,
{
    if fuel1 > 0 {
        let rest1 = (fuel1 - 1) as nat;
        let rest2 = (fuel2 - 1) as nat;
        match t {
            Ty::String | Ty::Io | Ty::StringConst(_) | Ty::DocStringConst(_) => {
                lemma_decl_by_key_kept(s1, s2, builtin_decl(t).unwrap(), visited, rest1, rest2);
            },
            Ty::Ref(id) => lemma_decl_by_key_kept(s1, s2, id, visited, rest1, rest2),
            Ty::Def(id) => lemma_decl_by_key_kept(s1, s2, id, visited, rest1, rest2),
            Ty::Object(_, entries) => {
                if let Some(key) = s1.key {
                    lemma_index_access_kept(s1.cache, s2.cache, key, entries);
                }
            },
            Ty::Union(types) => {
                lemma_each_by_key_kept(s1, s2, types, rest1, rest2);
                lemma_union_kept(
                    s1.cache,
                    s2.cache,
                    each_by_key(s1, types, rest1),
                    each_by_key(s2, types, rest2),
                );
            },
            Ty::Intersection(types) => {
                lemma_each_by_key_kept(s1, s2, types, rest1, rest2);
                lemma_intersection_kept(
                    s1.cache,
                    s2.cache,
                    each_by_key(s1, types, rest1),
                    each_by_key(s2, types, rest2),
                    Ty::Unknown,
                );
            },
            Ty::Generic(base, _) => {
                law_by_key_is_kept(s1, s2, *base, Set::empty(), rest1, rest2);
            },
            Ty::Instance(base, _) => law_by_key_is_kept(s1, s2, *base, visited, rest1, rest2),
            _ => {},
        }
    }
}

proof fn lemma_each_by_key_kept(s1: Scope, s2: Scope, types: Seq<Ty>, fuel1: nat, fuel2: nat)
    requires
        follows(s1, s2),
        fuel1 <= fuel2,
    ensures
        forall|i: int|
            0 <= i < types.len() && settled(
                s1.cache,
                s2.cache,
                #[trigger] each_by_key(s1, types, fuel1)[i],
            ) ==> each_by_key(s2, types, fuel2)[i] == each_by_key(s1, types, fuel1)[i],
    decreases fuel1, 1nat, 0nat,
{
    assert forall|i: int|
        0 <= i < types.len() && settled(
            s1.cache,
            s2.cache,
            #[trigger] each_by_key(s1, types, fuel1)[i],
        ) implies each_by_key(s2, types, fuel2)[i] == each_by_key(s1, types, fuel1)[i] by {
        law_by_key_is_kept(s1, s2, types[i], Set::empty(), fuel1, fuel2);
    }
}

proof fn lemma_decl_by_key_kept(
    s1: Scope,
    s2: Scope,
    id: Seq<char>,
    visited: Set<Seq<char>>,
    fuel1: nat,
    fuel2: nat,
)
    requires
        follows(s1, s2),
        fuel1 <= fuel2,
    ensures
        settled(s1.cache, s2.cache, decl_by_key(s1, id, visited, fuel1).0) ==> decl_by_key(
            s2,
            id,
            visited,
            fuel2,
        ) == decl_by_key(s1, id, visited, fuel1),
    decreases fuel1, 2nat, 0nat,
{
    let seen = visited.insert(id);
    law_by_key_is_kept(s1, s2, Ty::String, seen, fuel1, fuel2);
    if let Some(origin) = s1.db.alias_origin(id) {
        law_by_key_is_kept(s1, s2, origin, seen, fuel1, fuel2);
    }
    if let Some(supers) = s1.db.supers(id) {
        lemma_supers_by_key_kept(s1, s2, supers, seen, fuel1, fuel2);
    }
}

proof fn lemma_supers_by_key_kept(
    s1: Scope,
    s2: Scope,
    supers: Seq<Ty>,
    visited: Set<Seq<char>>,
    fuel1: nat,
    fuel2: nat,
)
    requires
        follows(s1, s2),
        fuel1 <= fuel2,
    ensures
        settled(s1.cache, s2.cache, supers_by_key(s1, supers, visited, fuel1).0) ==> supers_by_key(
            s2,
            supers,
            visited,
            fuel2,
        ) == supers_by_key(s1, supers, visited, fuel1),
    decreases fuel1, 1nat, supers.len(),
{
    if supers.len() > 0 {
        law_by_key_is_kept(s1, s2, supers[0], visited, fuel1, fuel2);
        let seen = by_key(s1, supers[0], visited, fuel1).1;
        lemma_supers_by_key_kept(s1, s2, supers.drop_first(), seen, fuel1, fuel2);
    }
}

/// A member that a type gives through an index operator stays the same when
/// more answers are given and the search may go deeper. A question stays the
/// same when the search may go deeper.
pub proof fn law_by_operator_is_kept(
    s1: Scope,
    s2: Scope,
    t: Ty,
    visited: Set<Seq<char>>,
    fuel1: nat,
    fuel2: nat,
)
    requires
        follows(s1, s2),
        fuel1 <= fuel2,
    ensures
        settled(s1.cache, s2.cache, by_operator(s1, t, visited, fuel1).0) ==> by_operator(
            s2,
            t,
            visited,
            fuel2,
        ) == by_operator(s1, t, visited, fuel1),
    decreases fuel1, 0nat, 0nat,
{
    if fuel1 > 0 {
        let rest1 = (fuel1 - 1) as nat;
        let rest2 = (fuel2 - 1) as nat;
        match t {
            Ty::Ref(id) => lemma_decl_by_operator_kept(s1, s2, id, visited, rest1, rest2),
            Ty::Def(id) => lemma_decl_by_operator_kept(s1, s2, id, visited, rest1, rest2),
            Ty::Array(_) => {
                if let Some(key) = s1.key {
                    lemma_key_match_kept(s1.cache, s2.cache, Ty::Number, Ty::Number, key);
                }
            },
            Ty::TableGeneric(params) => {
                if let Some(key) = s1.key {
                    lemma_key_match_kept(s1.cache, s2.cache, params[0], params[0], key);
                }
            },
            Ty::Union(types) => {
                lemma_each_by_operator_kept(s1, s2, types, rest1, rest2);
                lemma_union_kept(
                    s1.cache,
                    s2.cache,
                    each_by_operator(s1, types, rest1),
                    each_by_operator(s2, types, rest2),
                );
            },
            Ty::Intersection(types) => {
                lemma_each_by_operator_kept(s1, s2, types, rest1, rest2);
                lemma_intersection_kept(
                    s1.cache,
                    s2.cache,
                    each_by_operator(s1, types, rest1),
                    each_by_operator(s2, types, rest2),
                    Ty::Unknown,
                );
            },
            Ty::Generic(base, params) => {
                lemma_generic_by_operator_kept(s1, s2, *base, params, rest1, rest2);
            },
            _ => {},
        }
    }
}

proof fn lemma_each_by_operator_kept(s1: Scope, s2: Scope, types: Seq<Ty>, fuel1: nat, fuel2: nat)
    requires
        follows(s1, s2),
        fuel1 <= fuel2,
    ensures
        forall|i: int|
            0 <= i < types.len() && settled(
                s1.cache,
                s2.cache,
                #[trigger] each_by_operator(s1, types, fuel1)[i],
            ) ==> each_by_operator(s2, types, fuel2)[i] == each_by_operator(s1, types, fuel1)[i],
    decreases fuel1, 1nat, 0nat,
{
    assert forall|i: int|
        0 <= i < types.len() && settled(
            s1.cache,
            s2.cache,
            #[trigger] each_by_operator(s1, types, fuel1)[i],
        ) implies each_by_operator(s2, types, fuel2)[i] == each_by_operator(
        s1,
        types,
        fuel1,
    )[i] by {
        law_by_operator_is_kept(s1, s2, types[i], Set::empty(), fuel1, fuel2);
    }
}

proof fn lemma_decl_by_operator_kept(
    s1: Scope,
    s2: Scope,
    id: Seq<char>,
    visited: Set<Seq<char>>,
    fuel1: nat,
    fuel2: nat,
)
    requires
        follows(s1, s2),
        fuel1 <= fuel2,
    ensures
        settled(s1.cache, s2.cache, decl_by_operator(s1, id, visited, fuel1).0)
            ==> decl_by_operator(s2, id, visited, fuel2) == decl_by_operator(
            s1,
            id,
            visited,
            fuel1,
        ),
    decreases fuel1, 2nat, 0nat,
{
    let seen = visited.insert(id);
    if let Some(origin) = s1.db.alias_origin(id) {
        law_by_operator_is_kept(s1, s2, origin, seen, fuel1, fuel2);
    }
    if let (Some(key), Some(Some(ids))) = (s1.key, s1.db.index_operators(id)) {
        lemma_first_operator_kept(s1.db, s1.cache, s2.cache, key, ids, None);
    }
    if let Some(supers) = s1.db.supers(id) {
        lemma_supers_by_operator_kept(s1, s2, supers, seen, fuel1, fuel2);
    }
}

proof fn lemma_supers_by_operator_kept(
    s1: Scope,
    s2: Scope,
    supers: Seq<Ty>,
    visited: Set<Seq<char>>,
    fuel1: nat,
    fuel2: nat,
)
    requires
        follows(s1, s2),
        fuel1 <= fuel2,
    ensures
        settled(s1.cache, s2.cache, supers_by_operator(s1, supers, visited, fuel1).0)
            ==> supers_by_operator(s2, supers, visited, fuel2) == supers_by_operator(
            s1,
            supers,
            visited,
            fuel1,
        ),
    decreases fuel1, 1nat, supers.len(),
{
    if supers.len() > 0 {
        law_by_operator_is_kept(s1, s2, supers[0], visited, fuel1, fuel2);
        let seen = by_operator(s1, supers[0], visited, fuel1).1;
        lemma_supers_by_operator_kept(s1, s2, supers.drop_first(), seen, fuel1, fuel2);
    }
}

proof fn lemma_applied_by_operator_kept(
    s1: Scope,
    s2: Scope,
    t: Ty,
    params: Seq<Ty>,
    fuel1: nat,
    fuel2: nat,
)
    requires
        follows(s1, s2),
        fuel1 <= fuel2,
    ensures
        settled(s1.cache, s2.cache, applied_by_operator(s1, t, params, fuel1))
            ==> applied_by_operator(s2, t, params, fuel2) == applied_by_operator(
            s1,
            t,
            params,
            fuel1,
        ),
    decreases fuel1, 1nat, 0nat,
{
    if let Step::Done(Some(inner)) = s1.cache.instance(t, params) {
        law_by_operator_is_kept(s1, s2, inner, Set::empty(), fuel1, fuel2);
    }
}

proof fn lemma_generic_by_operator_kept(
    s1: Scope,
    s2: Scope,
    base: Ty,
    params: Seq<Ty>,
    fuel1: nat,
    fuel2: nat,
)
    requires
        follows(s1, s2),
        fuel1 <= fuel2,
    ensures
        settled(s1.cache, s2.cache, generic_by_operator(s1, base, params, fuel1))
            ==> generic_by_operator(s2, base, params, fuel2) == generic_by_operator(
            s1,
            base,
            params,
            fuel1,
        ),
    decreases fuel1, 3nat, 0nat,
{
    if let Ty::Ref(id) = base {
        if let Step::Done(Some(origin)) = s1.cache.alias_origin(id, params) {
            lemma_applied_by_operator_kept(s1, s2, origin, params, fuel1, fuel2);
        }
        if let (Some(key), Some(Some(ids))) = (s1.key, s1.db.index_operators(id)) {
            lemma_first_operator_kept(s1.db, s1.cache, s2.cache, key, ids, Some(params));
        }
        if let Some(supers) = s1.db.supers(id) {
            lemma_first_applied_kept(s1, s2, supers, params, fuel1, fuel2);
        }
    }
}

proof fn lemma_first_applied_kept(
    s1: Scope,
    s2: Scope,
    types: Seq<Ty>,
    params: Seq<Ty>,
    fuel1: nat,
    fuel2: nat,
)
    requires
        follows(s1, s2),
        fuel1 <= fuel2,
    ensures
        settled(s1.cache, s2.cache, first_applied_by_operator(s1, types, params, fuel1))
            ==> first_applied_by_operator(s2, types, params, fuel2) == first_applied_by_operator(
            s1,
            types,
            params,
            fuel1,
        ),
    decreases fuel1, 2nat, types.len(),
{
    if types.len() > 0 {
        lemma_applied_by_operator_kept(s1, s2, types[0], params, fuel1, fuel2);
        lemma_first_applied_kept(s1, s2, types.drop_first(), params, fuel1, fuel2);
    }
}

proof fn lemma_tightened_kept(c1: LuaInferCache, c2: LuaInferCache, assertions: Seq<u64>, t: Ty)
    requires
        c2.keeps(c1),
    ensures
        settled(c1, c2, tightened(c1, assertions, t)) ==> tightened(c2, assertions, t)
            == tightened(c1, assertions, t),
    decreases assertions.len(),
{
    if assertions.len() > 0 {
        lemma_tightened_kept(c1, c2, assertions.drop_first(), Ty::Unknown);
        if let Step::Done(Some(left)) = c1.tightening(assertions[0], t) {
            lemma_tightened_kept(c1, c2, assertions.drop_first(), left);
        }
    }
}

/// The type of an index expression, once inferred, stays the same when more
/// answers are given. A question stays the same with more fuel.
pub proof fn law_index_type_is_kept(
    db: DbIndex,
    c1: LuaInferCache,
    c2: LuaInferCache,
    expr: LuaIndexExpr,
    fuel1: nat,
    fuel2: nat,
)
    requires
        c2.extends(c1),
        fuel1 <= fuel2,
    ensures
        settled(c1, c2, index_type(db, c1, expr, fuel1)) ==> index_type(db, c2, expr, fuel2)
            == index_type(db, c1, expr, fuel1),
{
    if let Some(prefix) = expr.prefix {
        if let Step::Done(Some(t)) = c1.expr_type(prefix.id()) {
            let s1 = scope(db, c1, expr.member);
            let s2 = scope(db, c2, expr.member);
            law_by_key_is_kept(s1, s2, t, Set::empty(), fuel1, fuel2);
            law_by_operator_is_kept(s1, s2, t, Set::empty(), fuel1, fuel2);
            if let Step::Done(Some(member)) = member_type(s1, t, fuel1) {
                if let Step::Done(Some(chain)) = c1.flow_chain(expr.id) {
                    if let Some(path) = expr.access_path {
                        let at = expr.id.range.start;
                        if let Step::Done(assertions) = c1.asserts(
                            chain,
                            smol_chars(path),
                            at,
                        ) {
                            lemma_tightened_kept(c1, c2, assertions, member);
                        }
                    }
                }
            }
        }
    }
}

/// What the search for a member by key gives with fuel that suffices is what it
/// comes to, and it comes to nothing else. It is endless where no fuel
/// suffices.
pub proof fn law_by_key_comes_to(
    s: Scope,
    t: Ty,
    visited: Set<Seq<char>>,
    end: (InferOut, Set<Seq<char>>),
    fuel: nat,
)
    ensures
        !(by_key(s, t, visited, fuel).0 is Endless) ==> (by_key_comes_to(
            s,
            t,
            visited,
            end.0,
            end.1,
        ) <==> end == by_key(s, t, visited, fuel)),
        (forall|f: nat| (#[trigger] by_key(s, t, visited, f)).0 is Endless) ==> (
        by_key_comes_to(s, t, visited, end.0, end.1) <==> end.0 is Endless),
{
    if !(by_key(s, t, visited, fuel).0 is Endless) {
        assert forall|f: nat|
            !((#[trigger] by_key(s, t, visited, f)).0 is Endless) implies by_key(
            s,
            t,
            visited,
            f,
        ) == by_key(s, t, visited, fuel) by {
            if f <= fuel {
                law_by_key_is_kept(s, s, t, visited, f, fuel);
            } else {
                law_by_key_is_kept(s, s, t, visited, fuel, f);
            }
        }
    }
}

/// What the search for a member through operators gives with fuel that suffices is what it
/// comes to, and it comes to nothing else. It is endless where no fuel
/// suffices.
pub proof fn law_by_operator_comes_to(
    s: Scope,
    t: Ty,
    visited: Set<Seq<char>>,
    end: (InferOut, Set<Seq<char>>),
    fuel: nat,
)
    ensures
        !(by_operator(s, t, visited, fuel).0 is Endless) ==> (by_operator_comes_to(
            s,
            t,
            visited,
            end.0,
            end.1,
        ) <==> end == by_operator(s, t, visited, fuel)),
        (forall|f: nat| (#[trigger] by_operator(s, t, visited, f)).0 is Endless) ==> (
        by_operator_comes_to(s, t, visited, end.0, end.1) <==> end.0 is Endless),
{
    if !(by_operator(s, t, visited, fuel).0 is Endless) {
        assert forall|f: nat|
            !((#[trigger] by_operator(s, t, visited, f)).0 is Endless) implies by_operator(
            s,
            t,
            visited,
            f,
        ) == by_operator(s, t, visited, fuel) by {
            if f <= fuel {
                law_by_operator_is_kept(s, s, t, visited, f, fuel);
            } else {
                law_by_operator_is_kept(s, s, t, visited, fuel, f);
            }
        }
    }
}

/// What the inference of an index expression gives with fuel that suffices is
/// what it comes to, and it comes to nothing else. It is endless where no fuel
/// suffices.
pub proof fn law_index_type_comes_to(
    db: DbIndex,
    cache: LuaInferCache,
    expr: LuaIndexExpr,
    end: InferOut,
    fuel: nat,
)
    ensures
        !(index_type(db, cache, expr, fuel) is Endless) ==> (index_type_comes_to(
            db,
            cache,
            expr,
            end,
        ) <==> end == index_type(db, cache, expr, fuel)),
        (forall|f: nat| (#[trigger] index_type(db, cache, expr, f)) is Endless) ==> (
        index_type_comes_to(db, cache, expr, end) <==> end is Endless),
{
    if !(index_type(db, cache, expr, fuel) is Endless) {
        assert forall|f: nat|
            !((#[trigger] index_type(db, cache, expr, f)) is Endless) implies index_type(
            db,
            cache,
            expr,
            f,
        ) == index_type(db, cache, expr, fuel) by {
            if f <= fuel {
                law_index_type_is_kept(db, cache, cache, expr, f, fuel);
            } else {
                law_index_type_is_kept(db, cache, cache, expr, fuel, f);
            }
        }
    }
}

/// What the search for a member by key comes to stays the same when more
/// answers are given. It comes to one thing only.
pub proof fn law_by_key_outcome_is_kept(
    s1: Scope,
    s2: Scope,
    t: Ty,
    visited: Set<Seq<char>>,
    end1: (InferOut, Set<Seq<char>>),
    end2: (InferOut, Set<Seq<char>>),
)
    requires
        follows(s1, s2),
        by_key_comes_to(s1, t, visited, end1.0, end1.1),
        by_key_comes_to(s2, t, visited, end2.0, end2.1),
        settled(s1.cache, s2.cache, end1.0),
    ensures
        end2 == end1,
{
    let fuel = choose|fuel: nat| !((#[trigger] by_key(s1, t, visited, fuel)).0 is Endless);
    law_by_key_is_kept(s1, s2, t, visited, fuel, fuel);
}

/// What the search for a member through operators comes to stays the same when more
/// answers are given. It comes to one thing only.
pub proof fn law_by_operator_outcome_is_kept(
    s1: Scope,
    s2: Scope,
    t: Ty,
    visited: Set<Seq<char>>,
    end1: (InferOut, Set<Seq<char>>),
    end2: (InferOut, Set<Seq<char>>),
)
    requires
        follows(s1, s2),
        by_operator_comes_to(s1, t, visited, end1.0, end1.1),
        by_operator_comes_to(s2, t, visited, end2.0, end2.1),
        settled(s1.cache, s2.cache, end1.0),
    ensures
        end2 == end1,
{
    let fuel = choose|fuel: nat| !((#[trigger] by_operator(s1, t, visited, fuel)).0 is Endless);
    law_by_operator_is_kept(s1, s2, t, visited, fuel, fuel);
}

/// What the inference of an index expression comes to stays the same when more
/// answers are given. It comes to one thing only.
pub proof fn law_index_type_outcome_is_kept(
    db: DbIndex,
    c1: LuaInferCache,
    c2: LuaInferCache,
    expr: LuaIndexExpr,
    end1: InferOut,
    end2: InferOut,
)
    requires
        c2.extends(c1),
        index_type_comes_to(db, c1, expr, end1),
        index_type_comes_to(db, c2, expr, end2),
        settled(c1, c2, end1),
    ensures
        end2 == end1,
{
    let fuel = choose|fuel: nat| !((#[trigger] index_type(db, c1, expr, fuel)) is Endless);
    law_index_type_is_kept(db, c1, c2, expr, fuel, fuel);
}

} // verus!
