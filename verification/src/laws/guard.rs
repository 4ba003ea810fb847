//! A type declaration is visited once, so that declarations that refer to one
//! another come to an end.

use crate::cache::{LuaInferCache, Step};
use crate::db::{DbIndex, LuaOperatorId};
use crate::model::{
    by_key, by_operator, decl_by_key, decl_by_operator, first_operator, flow_type, index_access,
    index_type,
    member_type, missing, scope, supers_by_key, supers_by_operator, tightened, Scope,
};
use crate::reach::{lemma_unvisited_shrinks, lemma_visit_shrinks, unvisited};
use crate::syntax::{IndexKey, LuaIndexExpr};
use crate::text::smol_chars;
use crate::types::{builtin_decl, Ty};
use vstd::prelude::*;

verus! {

/// A declaration that has been visited has no more members, whether by key
/// or through an operator.
pub proof fn law_visited_once(s: Scope, id: Seq<char>, visited: Set<Seq<char>>, fuel: nat)
    requires
        visited.contains(id),
        fuel > 0,
    ensures
        by_key(s, Ty::Ref(id), visited, fuel) == (missing(), visited),
        by_key(s, Ty::Def(id), visited, fuel) == (missing(), visited),
        by_operator(s, Ty::Ref(id), visited, fuel) == (missing(), visited),
        by_operator(s, Ty::Def(id), visited, fuel) == (missing(), visited),
{
    let rest = (fuel - 1) as nat;
    assert(visited.insert(id) =~= visited);
    assert(decl_by_key(s, id, visited, rest) == (missing(), visited));
    assert(decl_by_operator(s, id, visited, rest) == (missing(), visited));
}

/// What has been visited stays visited.
pub proof fn law_by_key_keeps_visited(s: Scope, t: Ty, visited: Set<Seq<char>>, fuel: nat)
    ensures
        visited.subset_of(by_key(s, t, visited, fuel).1),
    decreases fuel, 0nat, 0nat,
{
    if fuel > 0 {
        let rest = (fuel - 1) as nat;
        match t {
            Ty::String | Ty::Io | Ty::StringConst(_) | Ty::DocStringConst(_) => {
                lemma_decl_by_key_visited(s, builtin_decl(t).unwrap(), visited, rest);
            },
            Ty::Ref(id) => lemma_decl_by_key_visited(s, id, visited, rest),
            Ty::Def(id) => lemma_decl_by_key_visited(s, id, visited, rest),
            Ty::Instance(base, _) => law_by_key_keeps_visited(s, *base, visited, rest),
            _ => {},
        }
    }
}

proof fn lemma_decl_by_key_visited(s: Scope, id: Seq<char>, visited: Set<Seq<char>>, fuel: nat)
    ensures
        visited.insert(id).subset_of(decl_by_key(s, id, visited, fuel).1),
    decreases fuel, 2nat, 0nat,
{
    let seen = visited.insert(id);
    law_by_key_keeps_visited(s, Ty::String, seen, fuel);
    if let Some(origin) = s.db.alias_origin(id) {
        law_by_key_keeps_visited(s, origin, seen, fuel);
    }
    if let Some(supers) = s.db.supers(id) {
        lemma_supers_by_key_visited(s, supers, seen, fuel);
    }
}

proof fn lemma_supers_by_key_visited(s: Scope, supers: Seq<Ty>, visited: Set<Seq<char>>, fuel: nat)
    ensures
        visited.subset_of(supers_by_key(s, supers, visited, fuel).1),
    decreases fuel, 1nat, supers.len(),
{
    if supers.len() > 0 {
        law_by_key_keeps_visited(s, supers[0], visited, fuel);
        let seen = by_key(s, supers[0], visited, fuel).1;
        lemma_supers_by_key_visited(s, supers.drop_first(), seen, fuel);
    }
}

/// What has been visited stays visited.
pub proof fn law_by_operator_keeps_visited(s: Scope, t: Ty, visited: Set<Seq<char>>, fuel: nat)
    ensures
        visited.subset_of(by_operator(s, t, visited, fuel).1),
    decreases fuel, 0nat, 0nat,
{
    if fuel > 0 {
        let rest = (fuel - 1) as nat;
        match t {
            Ty::Ref(id) => lemma_decl_by_operator_visited(s, id, visited, rest),
            Ty::Def(id) => lemma_decl_by_operator_visited(s, id, visited, rest),
            _ => {},
        }
    }
}

proof fn lemma_decl_by_operator_visited(
    s: Scope,
    id: Seq<char>,
    visited: Set<Seq<char>>,
    fuel: nat,
)
    ensures
        visited.insert(id).subset_of(decl_by_operator(s, id, visited, fuel).1),
    decreases fuel, 2nat, 0nat,
{
    let seen = visited.insert(id);
    if let Some(origin) = s.db.alias_origin(id) {
        law_by_operator_keeps_visited(s, origin, seen, fuel);
    }
    if let Some(supers) = s.db.supers(id) {
        lemma_supers_by_operator_visited(s, supers, seen, fuel);
    }
}

proof fn lemma_supers_by_operator_visited(
    s: Scope,
    supers: Seq<Ty>,
    visited: Set<Seq<char>>,
    fuel: nat,
)
    ensures
        visited.subset_of(supers_by_operator(s, supers, visited, fuel).1),
    decreases fuel, 1nat, supers.len(),
{
    if supers.len() > 0 {
        law_by_operator_keeps_visited(s, supers[0], visited, fuel);
        let seen = by_operator(s, supers[0], visited, fuel).1;
        lemma_supers_by_operator_visited(s, supers.drop_first(), seen, fuel);
    }
}

/// A type whose members are not those of types nested in it.
pub open spec fn plain(t: Ty) -> bool {
    !(t is Union || t is Intersection || t is Generic || t is Instance)
}

/// Aliases stand for plain types, and types derive from plain types.
pub open spec fn plain_decls(db: DbIndex) -> bool {
    &&& forall|id: Seq<char>|
        #![trigger db.alias_origin(id)]
        db.decl_kind(id) is Some ==> match db.alias_origin(id) {
            Some(origin) => plain(origin),
            None => true,
        }
    &&& forall|id: Seq<char>|
        #![trigger db.supers(id)]
        match db.supers(id) {
            Some(supers) => plain_all(supers),
            None => true,
        }
}

/// All of the types are plain.
pub open spec fn plain_all(types: Seq<Ty>) -> bool {
    forall|i: int| 0 <= i < types.len() ==> plain(#[trigger] types[i])
}

/// Aliases and classes may refer to one another in circles: as long as the
/// types they name are plain, the search for a member by key ends, nested no
/// deeper than there are declarations to visit.
pub proof fn law_by_key_ends(s: Scope, t: Ty, visited: Set<Seq<char>>, fuel: nat)
    requires
        plain(t),
        plain_decls(s.db),
        fuel > unvisited(s.db, visited).len(),
    ensures
        !(by_key(s, t, visited, fuel).0 is Endless),
    decreases fuel, 0nat, 0nat,
{
    let rest = (fuel - 1) as nat;
    match t {
        Ty::String | Ty::Io | Ty::StringConst(_) | Ty::DocStringConst(_) => {
            lemma_decl_by_key_ends(s, builtin_decl(t).unwrap(), visited, rest);
        },
        Ty::Ref(id) => lemma_decl_by_key_ends(s, id, visited, rest),
        Ty::Def(id) => lemma_decl_by_key_ends(s, id, visited, rest),
        Ty::Object(_, entries) => {
            if let Some(key) = s.key {
                lemma_index_access_ends(s.cache, key, entries);
            }
        },
        _ => {},
    }
}

/// An object type is looked through to its end.
pub proof fn lemma_index_access_ends(cache: LuaInferCache, key: IndexKey, entries: Seq<(Ty, Ty)>)
    ensures
        !(index_access(cache, key, entries) is Endless),
    decreases entries.len(),
{
    if entries.len() > 0 {
        lemma_index_access_ends(cache, key, entries.drop_first());
    }
}

proof fn lemma_decl_by_key_ends(s: Scope, id: Seq<char>, visited: Set<Seq<char>>, fuel: nat)
    requires
        plain_decls(s.db),
        fuel >= unvisited(s.db, visited).len(),
    ensures
        !(decl_by_key(s, id, visited, fuel).0 is Endless),
    decreases fuel, 2nat, 0nat,
{
    if !visited.contains(id) && s.db.decl_kind(id) is Some {
        let seen = visited.insert(id);
        lemma_visit_shrinks(s.db, visited, id);
        law_by_key_ends(s, Ty::String, seen, fuel);
        if let Some(origin) = s.db.alias_origin(id) {
            law_by_key_ends(s, origin, seen, fuel);
        }
        if let Some(supers) = s.db.supers(id) {
            lemma_supers_by_key_ends(s, supers, seen, fuel);
        }
    }
}

proof fn lemma_supers_by_key_ends(s: Scope, supers: Seq<Ty>, visited: Set<Seq<char>>, fuel: nat)
    requires
        plain_all(supers),
        plain_decls(s.db),
        fuel > unvisited(s.db, visited).len(),
    ensures
        !(supers_by_key(s, supers, visited, fuel).0 is Endless),
    decreases fuel, 1nat, supers.len(),
{
    if supers.len() > 0 {
        law_by_key_ends(s, supers[0], visited, fuel);
        law_by_key_keeps_visited(s, supers[0], visited, fuel);
        let seen = by_key(s, supers[0], visited, fuel).1;
        lemma_unvisited_shrinks(s.db, visited, seen);
        let tail = supers.drop_first();
        assert forall|i: int| 0 <= i < tail.len() implies plain(#[trigger] tail[i]) by {
            assert(tail[i] == supers[i + 1]);
        }
        lemma_supers_by_key_ends(s, tail, seen, fuel);
    }
}

/// As long as the types that aliases and classes name are plain, the search
/// for a member through operators ends, nested no deeper than there are
/// declarations to visit.
pub proof fn law_by_operator_ends(s: Scope, t: Ty, visited: Set<Seq<char>>, fuel: nat)
    requires
        plain(t),
        plain_decls(s.db),
        fuel > unvisited(s.db, visited).len(),
    ensures
        !(by_operator(s, t, visited, fuel).0 is Endless),
    decreases fuel, 0nat, 0nat,
{
    let rest = (fuel - 1) as nat;
    match t {
        Ty::Ref(id) => lemma_decl_by_operator_ends(s, id, visited, rest),
        Ty::Def(id) => lemma_decl_by_operator_ends(s, id, visited, rest),
        _ => {},
    }
}

/// Operators are looked through to their end.
pub proof fn lemma_first_operator_ends(
    db: DbIndex,
    cache: LuaInferCache,
    key: IndexKey,
    ids: Seq<LuaOperatorId>,
    params: Option<Seq<Ty>>,
)
    ensures
        match first_operator(db, cache, key, ids, params) {
            Some(out) => !(out is Endless),
            None => true,
        },
    decreases ids.len(),
{
    if ids.len() > 0 {
        lemma_first_operator_ends(db, cache, key, ids.drop_first(), params);
    }
}

proof fn lemma_decl_by_operator_ends(s: Scope, id: Seq<char>, visited: Set<Seq<char>>, fuel: nat)
    requires
        plain_decls(s.db),
        fuel >= unvisited(s.db, visited).len(),
    ensures
        !(decl_by_operator(s, id, visited, fuel).0 is Endless),
    decreases fuel, 2nat, 0nat,
{
    if !visited.contains(id) && s.db.decl_kind(id) is Some {
        let seen = visited.insert(id);
        lemma_visit_shrinks(s.db, visited, id);
        if let Some(origin) = s.db.alias_origin(id) {
            law_by_operator_ends(s, origin, seen, fuel);
        }
        if let (Some(key), Some(Some(ids))) = (s.key, s.db.index_operators(id)) {
            lemma_first_operator_ends(s.db, s.cache, key, ids, None);
        }
        if let Some(supers) = s.db.supers(id) {
            lemma_supers_by_operator_ends(s, supers, seen, fuel);
        }
    }
}

proof fn lemma_supers_by_operator_ends(
    s: Scope,
    supers: Seq<Ty>,
    visited: Set<Seq<char>>,
    fuel: nat,
)
    requires
        plain_all(supers),
        plain_decls(s.db),
        fuel > unvisited(s.db, visited).len(),
    ensures
        !(supers_by_operator(s, supers, visited, fuel).0 is Endless),
    decreases fuel, 1nat, supers.len(),
{
    if supers.len() > 0 {
        law_by_operator_ends(s, supers[0], visited, fuel);
        law_by_operator_keeps_visited(s, supers[0], visited, fuel);
        let seen = by_operator(s, supers[0], visited, fuel).1;
        lemma_unvisited_shrinks(s.db, visited, seen);
        let tail = supers.drop_first();
        assert forall|i: int| 0 <= i < tail.len() implies plain(#[trigger] tail[i]) by {
            assert(tail[i] == supers[i + 1]);
        }
        lemma_supers_by_operator_ends(s, tail, seen, fuel);
    }
}

/// As long as the types involved are plain, the inference of an index
/// expression ends, nested no deeper than there are declarations.
pub proof fn law_index_type_ends(
    db: DbIndex,
    cache: LuaInferCache,
    expr: LuaIndexExpr,
    fuel: nat,
)
    requires
        plain_decls(db),
        match expr.prefix {
            Some(prefix) => match cache.expr_type(prefix.id()) {
                Step::Done(Some(t)) => plain(t),
                _ => true,
            },
            None => true,
        },
        fuel > db.type_decls.map().dom().len(),
    ensures
        !(index_type(db, cache, expr, fuel) is Endless),
{
    if let Some(prefix) = expr.prefix {
        if let Step::Done(Some(t)) = cache.expr_type(prefix.id()) {
            let s = scope(db, cache, expr.member);
            assert(unvisited(db, Set::empty()) =~= db.type_decls.map().dom());
            law_by_key_ends(s, t, Set::empty(), fuel);
            law_by_operator_ends(s, t, Set::empty(), fuel);
            if let Step::Done(Some(member)) = member_type(s, t, fuel) {
                lemma_flow_type_ends(cache, expr, member);
            }
        }
    }
}

/// Narrowing by control flow ends.
pub proof fn lemma_flow_type_ends(cache: LuaInferCache, expr: LuaIndexExpr, t: Ty)
    ensures
        !(flow_type(cache, expr, t) is Endless),
{
    if let Step::Done(Some(chain)) = cache.flow_chain(expr.id) {
        if let Some(path) = expr.access_path {
            let at = expr.id.range.start;
            if let Step::Done(assertions) = cache.asserts(chain, smol_chars(path), at) {
                lemma_tightened_ends(cache, assertions, t);
            }
        }
    }
}

proof fn lemma_tightened_ends(cache: LuaInferCache, assertions: Seq<u64>, t: Ty)
    ensures
        !(tightened(cache, assertions, t) is Endless),
    decreases assertions.len(),
{
    if assertions.len() > 0 {
        lemma_tightened_ends(cache, assertions.drop_first(), Ty::Unknown);
        if let Step::Done(Some(left)) = cache.tightening(assertions[0], t) {
            lemma_tightened_ends(cache, assertions.drop_first(), left);
        }
    }
}

} // verus!
