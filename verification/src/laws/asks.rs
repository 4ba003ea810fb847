//! Only questions without an answer are asked.
//!
//! A host that records the answer to each question is therefore never asked
//! the same question twice.

use crate::cache::{CallOut, InferOut, LuaInferCache, MemberInfo, Question, Step};
use crate::db::{DbIndex, LuaOperatorId};
use crate::infer_setmetatable::{
    any_index_covers, constructed_metatable, metatable_type, setmetatable_type,
};
use crate::model::{
    applied_by_operator, by_key, by_operator, decl_by_key, decl_by_operator, each_by_key,
    each_by_operator, first_applied_by_operator, first_operator, generic_by_operator, index_access,
    index_type, intersection_of, member_type, scope, supers_by_key, supers_by_operator, tightened,
    union_of, Scope,
};
use crate::syntax::{IndexKey, LuaCallExpr, LuaExpr, LuaIndexExpr, LuaSyntaxId, LuaTableField};
use crate::text::smol_chars;
use crate::types::{builtin_decl, Ty};
use vstd::prelude::*;

verus! {

/// If the step is a question, it has no answer yet.
pub open spec fn open_in<R>(cache: LuaInferCache, out: Step<R, Question>) -> bool {
    match out {
        Step::Ask(q) => !cache.answered(q),
        _ => true,
    }
}

proof fn lemma_index_access_open(cache: LuaInferCache, key: IndexKey, entries: Seq<(Ty, Ty)>)
    ensures
        open_in(cache, index_access(cache, key, entries)),
    decreases entries.len(),
{
    if entries.len() > 0 {
        lemma_index_access_open(cache, key, entries.drop_first());
    }
}

proof fn lemma_first_operator_open(
    db: DbIndex,
    cache: LuaInferCache,
    key: IndexKey,
    ids: Seq<LuaOperatorId>,
    params: Option<Seq<Ty>>,
)
    ensures
        match first_operator(db, cache, key, ids, params) {
            Some(out) => open_in(cache, out),
            None => true,
        },
    decreases ids.len(),
{
    if ids.len() > 0 {
        lemma_first_operator_open(db, cache, key, ids.drop_first(), params);
    }
}

proof fn lemma_union_open(cache: LuaInferCache, outs: Seq<InferOut>)
    requires
        forall|i: int| 0 <= i < outs.len() ==> open_in(cache, #[trigger] outs[i]),
    ensures
        open_in(cache, union_of(outs)),
    decreases outs.len(),
{
    if outs.len() > 0 && outs[0] is Done {
        let tail = outs.drop_first();
        assert forall|i: int| 0 <= i < tail.len() implies open_in(cache, #[trigger] tail[i]) by {
            assert(tail[i] == outs[i + 1]);
        }
        lemma_union_open(cache, tail);
    }
}

proof fn lemma_intersection_open(cache: LuaInferCache, outs: Seq<InferOut>, so_far: Ty)
    requires
        forall|i: int| 0 <= i < outs.len() ==> open_in(cache, #[trigger] outs[i]),
    ensures
        open_in(cache, intersection_of(outs, so_far)),
    decreases outs.len(),
{
    if outs.len() > 0 {
        let tail = outs.drop_first();
        assert forall|i: int| 0 <= i < tail.len() implies open_in(cache, #[trigger] tail[i]) by {
            assert(tail[i] == outs[i + 1]);
        }
        lemma_intersection_open(cache, tail, so_far);
        if let Step::Done(Some(t)) = outs[0] {
            lemma_intersection_open(cache, tail, t);
        }
    }
}

/// What is asked in the search for a member by key has no answer yet.
pub proof fn law_by_key_asks_open(s: Scope, t: Ty, visited: Set<Seq<char>>, fuel: nat)
    ensures
        open_in(s.cache, by_key(s, t, visited, fuel).0),
    decreases fuel, 0nat, 0nat,
{
    if fuel > 0 {
        let rest = (fuel - 1) as nat;
        match t {
            Ty::String | Ty::Io | Ty::StringConst(_) | Ty::DocStringConst(_) => {
                lemma_decl_by_key_open(s, builtin_decl(t).unwrap(), visited, rest);
            },
            Ty::Ref(id) => lemma_decl_by_key_open(s, id, visited, rest),
            Ty::Def(id) => lemma_decl_by_key_open(s, id, visited, rest),
            Ty::Object(_, entries) => {
                if let Some(key) = s.key {
                    lemma_index_access_open(s.cache, key, entries);
                }
            },
            Ty::Union(types) => {
                lemma_each_by_key_open(s, types, rest);
                lemma_union_open(s.cache, each_by_key(s, types, rest));
            },
            Ty::Intersection(types) => {
                lemma_each_by_key_open(s, types, rest);
                lemma_intersection_open(s.cache, each_by_key(s, types, rest), Ty::Unknown);
            },
            Ty::Generic(base, _) => law_by_key_asks_open(s, *base, Set::empty(), rest),
            Ty::Instance(base, _) => law_by_key_asks_open(s, *base, visited, rest),
            _ => {},
        }
    }
}

proof fn lemma_each_by_key_open(s: Scope, types: Seq<Ty>, fuel: nat)
    ensures
        forall|i: int|
            0 <= i < types.len() ==> open_in(s.cache, #[trigger] each_by_key(s, types, fuel)[i]),
    decreases fuel, 1nat, 0nat,
{
    assert forall|i: int| 0 <= i < types.len() implies open_in(
        s.cache,
        #[trigger] each_by_key(s, types, fuel)[i],
    ) by {
        law_by_key_asks_open(s, types[i], Set::empty(), fuel);
    }
}

proof fn lemma_decl_by_key_open(s: Scope, id: Seq<char>, visited: Set<Seq<char>>, fuel: nat)
    ensures
        open_in(s.cache, decl_by_key(s, id, visited, fuel).0),
    decreases fuel, 2nat, 0nat,
{
    let seen = visited.insert(id);
    law_by_key_asks_open(s, Ty::String, seen, fuel);
    if let Some(origin) = s.db.alias_origin(id) {
        law_by_key_asks_open(s, origin, seen, fuel);
    }
    if let Some(supers) = s.db.supers(id) {
        lemma_supers_by_key_open(s, supers, seen, fuel);
    }
}

proof fn lemma_supers_by_key_open(s: Scope, supers: Seq<Ty>, visited: Set<Seq<char>>, fuel: nat)
    ensures
        open_in(s.cache, supers_by_key(s, supers, visited, fuel).0),
    decreases fuel, 1nat, supers.len(),
{
    if supers.len() > 0 {
        law_by_key_asks_open(s, supers[0], visited, fuel);
        let seen = by_key(s, supers[0], visited, fuel).1;
        lemma_supers_by_key_open(s, supers.drop_first(), seen, fuel);
    }
}

/// What is asked in the search for a member through operators has no answer
/// yet.
pub proof fn law_by_operator_asks_open(s: Scope, t: Ty, visited: Set<Seq<char>>, fuel: nat)
    ensures
        open_in(s.cache, by_operator(s, t, visited, fuel).0),
    decreases fuel, 0nat, 0nat,
{
    if fuel > 0 {
        let rest = (fuel - 1) as nat;
        match t {
            Ty::Ref(id) => lemma_decl_by_operator_open(s, id, visited, rest),
            Ty::Def(id) => lemma_decl_by_operator_open(s, id, visited, rest),
            Ty::Union(types) => {
                lemma_each_by_operator_open(s, types, rest);
                lemma_union_open(s.cache, each_by_operator(s, types, rest));
            },
            Ty::Intersection(types) => {
                lemma_each_by_operator_open(s, types, rest);
                lemma_intersection_open(s.cache, each_by_operator(s, types, rest), Ty::Unknown);
            },
            Ty::Generic(base, params) => lemma_generic_by_operator_open(s, *base, params, rest),
            _ => {},
        }
    }
}

proof fn lemma_each_by_operator_open(s: Scope, types: Seq<Ty>, fuel: nat)
    ensures
        forall|i: int|
            0 <= i < types.len() ==> open_in(
                s.cache,
                #[trigger] each_by_operator(s, types, fuel)[i],
            ),
    decreases fuel, 1nat, 0nat,
{
    assert forall|i: int| 0 <= i < types.len() implies open_in(
        s.cache,
        #[trigger] each_by_operator(s, types, fuel)[i],
    ) by {
        law_by_operator_asks_open(s, types[i], Set::empty(), fuel);
    }
}

proof fn lemma_decl_by_operator_open(s: Scope, id: Seq<char>, visited: Set<Seq<char>>, fuel: nat)
    ensures
        open_in(s.cache, decl_by_operator(s, id, visited, fuel).0),
    decreases fuel, 2nat, 0nat,
{
    let seen = visited.insert(id);
    if let Some(origin) = s.db.alias_origin(id) {
        law_by_operator_asks_open(s, origin, seen, fuel);
    }
    if let (Some(key), Some(Some(ids))) = (s.key, s.db.index_operators(id)) {
        lemma_first_operator_open(s.db, s.cache, key, ids, None);
    }
    if let Some(supers) = s.db.supers(id) {
        lemma_supers_by_operator_open(s, supers, seen, fuel);
    }
}

proof fn lemma_supers_by_operator_open(
    s: Scope,
    supers: Seq<Ty>,
    visited: Set<Seq<char>>,
    fuel: nat,
)
    ensures
        open_in(s.cache, supers_by_operator(s, supers, visited, fuel).0),
    decreases fuel, 1nat, supers.len(),
{
    if supers.len() > 0 {
        law_by_operator_asks_open(s, supers[0], visited, fuel);
        let seen = by_operator(s, supers[0], visited, fuel).1;
        lemma_supers_by_operator_open(s, supers.drop_first(), seen, fuel);
    }
}

proof fn lemma_applied_by_operator_open(s: Scope, t: Ty, params: Seq<Ty>, fuel: nat)
    ensures
        open_in(s.cache, applied_by_operator(s, t, params, fuel)),
    decreases fuel, 1nat, 0nat,
{
    if let Step::Done(Some(inner)) = s.cache.instance(t, params) {
        law_by_operator_asks_open(s, inner, Set::empty(), fuel);
    }
}

proof fn lemma_generic_by_operator_open(s: Scope, base: Ty, params: Seq<Ty>, fuel: nat)
    ensures
        open_in(s.cache, generic_by_operator(s, base, params, fuel)),
    decreases fuel, 3nat, 0nat,
{
    if let Ty::Ref(id) = base {
        if let Step::Done(Some(origin)) = s.cache.alias_origin(id, params) {
            lemma_applied_by_operator_open(s, origin, params, fuel);
        }
        if let (Some(key), Some(Some(ids))) = (s.key, s.db.index_operators(id)) {
            lemma_first_operator_open(s.db, s.cache, key, ids, Some(params));
        }
        if let Some(supers) = s.db.supers(id) {
            lemma_first_applied_open(s, supers, params, fuel);
        }
    }
}

proof fn lemma_first_applied_open(s: Scope, types: Seq<Ty>, params: Seq<Ty>, fuel: nat)
    ensures
        open_in(s.cache, first_applied_by_operator(s, types, params, fuel)),
    decreases fuel, 2nat, types.len(),
{
    if types.len() > 0 {
        lemma_applied_by_operator_open(s, types[0], params, fuel);
        lemma_first_applied_open(s, types.drop_first(), params, fuel);
    }
}

proof fn lemma_tightened_open(cache: LuaInferCache, assertions: Seq<u64>, t: Ty)
    ensures
        open_in(cache, tightened(cache, assertions, t)),
    decreases assertions.len(),
{
    if assertions.len() > 0 {
        lemma_tightened_open(cache, assertions.drop_first(), Ty::Unknown);
        if let Step::Done(Some(left)) = cache.tightening(assertions[0], t) {
            lemma_tightened_open(cache, assertions.drop_first(), left);
        }
    }
}

/// What the inference of an index expression asks has no answer yet.
pub proof fn law_index_type_asks_open(
    db: DbIndex,
    cache: LuaInferCache,
    expr: LuaIndexExpr,
    fuel: nat,
)
    ensures
        open_in(cache, index_type(db, cache, expr, fuel)),
{
    if let Some(prefix) = expr.prefix {
        if let Step::Done(Some(t)) = cache.expr_type(prefix.id()) {
            let s = scope(db, cache, expr.member);
            law_by_key_asks_open(s, t, Set::empty(), fuel);
            law_by_operator_asks_open(s, t, Set::empty(), fuel);
            if let Step::Done(Some(member)) = member_type(s, t, fuel) {
                if let Step::Done(Some(chain)) = cache.flow_chain(expr.id) {
                    if let Some(path) = expr.access_path {
                        let at = expr.id.range.start;
                        if let Step::Done(assertions) = cache.asserts(
                            chain,
                            smol_chars(path),
                            at,
                        ) {
                            lemma_tightened_open(cache, assertions, member);
                        }
                    }
                }
            }
        }
    }
}

proof fn lemma_constructed_metatable_open(
    cache: LuaInferCache,
    fields: Seq<LuaTableField>,
    table: LuaSyntaxId,
)
    ensures
        open_in(cache, constructed_metatable(cache, fields, table)),
        !(constructed_metatable(cache, fields, table) is Endless),
    decreases fields.len(),
{
    if fields.len() > 0 {
        lemma_constructed_metatable_open(cache, fields.drop_first(), table);
    }
}

proof fn lemma_any_index_covers_open(
    cache: LuaInferCache,
    members: Seq<MemberInfo>,
    table: LuaSyntaxId,
)
    ensures
        open_in(cache, any_index_covers(cache, members, table)),
        !(any_index_covers(cache, members, table) is Endless),
    decreases members.len(),
{
    if members.len() > 0 {
        lemma_any_index_covers_open(cache, members.drop_first(), table);
    }
}

/// What the inference of a call of `setmetatable` asks has no answer yet, and
/// it ends.
pub proof fn law_setmetatable_asks_open(cache: LuaInferCache, call: LuaCallExpr)
    ensures
        open_in(cache, setmetatable_type(cache, call)),
        !(setmetatable_type(cache, call) is Endless),
{
    if let Some(args) = call.args {
        if args@.len() == 2 {
            if let LuaExpr::TableExpr(table) = args@[1] {
                lemma_constructed_metatable_open(cache, table.fields@, table.id);
            }
            if let Step::Done(Ok((meta, _))) = metatable_type(cache, args@[1]) {
                if let Step::Done(Some(members)) = cache.members_of(meta) {
                    lemma_any_index_covers_open(cache, members, args@[0].id());
                }
            }
        }
    }
}

/// Once the host has answered, the search for a member by key moves on: it
/// does not ask the same again.
pub proof fn law_by_key_moves_on(
    s: Scope,
    t: Ty,
    visited: Set<Seq<char>>,
    q: Question,
    fuel: nat,
)
    requires
        s.cache.answered(q),
    ensures
        by_key(s, t, visited, fuel).0 != InferOut::Ask(q),
{
    law_by_key_asks_open(s, t, visited, fuel);
}

/// Once the host has answered, the search for a member through operators moves
/// on: it does not ask the same again.
pub proof fn law_by_operator_moves_on(
    s: Scope,
    t: Ty,
    visited: Set<Seq<char>>,
    q: Question,
    fuel: nat,
)
    requires
        s.cache.answered(q),
    ensures
        by_operator(s, t, visited, fuel).0 != InferOut::Ask(q),
{
    law_by_operator_asks_open(s, t, visited, fuel);
}

/// Once the host has answered, the inference of an index expression moves on:
/// it does not ask the same again.
pub proof fn law_index_type_moves_on(
    db: DbIndex,
    cache: LuaInferCache,
    expr: LuaIndexExpr,
    q: Question,
    fuel: nat,
)
    requires
        cache.answered(q),
    ensures
        index_type(db, cache, expr, fuel) != InferOut::Ask(q),
{
    law_index_type_asks_open(db, cache, expr, fuel);
}

/// Once the host has answered, the inference of a call of `setmetatable` moves
/// on: it does not ask the same again.
pub proof fn law_setmetatable_moves_on(cache: LuaInferCache, call: LuaCallExpr, q: Question)
    requires
        cache.answered(q),
    ensures
        setmetatable_type(cache, call) != CallOut::Ask(q),
{
    law_setmetatable_asks_open(cache, call);
}

} // verus!
