//! What member inference means.
//!
//! A type gives a member either by its key or through an index operator. Both
//! relations walk through aliases, super types, unions, intersections and
//! generic types. They are given by how far they get with a certain `fuel`,
//! which is how deep they may go: what takes more is cut off as endless. What a
//! search comes to is what it gives with any fuel that suffices. A search for
//! which no fuel suffices never ends.

use crate::cache::{InferOut, LuaInferCache, Step};
use crate::db::{DbIndex, LuaDeclTypeKind, LuaOperatorId};
use crate::syntax::{
    InFiled, IndexKey, LuaChunk, LuaIndexExpr, LuaIndexMemberExpr, LuaSyntaxId, LuaSyntaxKind,
};
use crate::text::smol_chars;
use crate::types::{builtin_decl, MemberKey, MemberOwner, Ty};
use vstd::prelude::*;

verus! {

/// All that member inference reads: the declarations, the answers given so
/// far, the file, and the key of the member.
pub struct Scope {
    pub db: DbIndex,
    pub cache: LuaInferCache,
    pub root: LuaChunk,
    pub key: Option<IndexKey>,
}

/// The scope of an index expression.
pub open spec fn scope(db: DbIndex, cache: LuaInferCache, expr: LuaIndexMemberExpr) -> Scope {
    Scope { db, cache, root: *expr.root, key: expr.index_key() }
}

/// The member has the type `t`.
pub open spec fn found(t: Ty) -> InferOut {
    Step::Done(Some(t))
}

/// There is no such member.
pub open spec fn missing() -> InferOut {
    Step::Done(None)
}

// ---------------------------------------------------------------------------
// Several results at once
// ---------------------------------------------------------------------------

/// The types among the results, in order.
pub open spec fn found_types(outs: Seq<InferOut>) -> Seq<Ty>
    decreases outs.len(),
{
    if outs.len() == 0 {
        Seq::empty()
    } else {
        match outs.last() {
            Step::Done(Some(t)) => found_types(outs.drop_last()).push(t),
            _ => found_types(outs.drop_last()),
        }
    }
}

/// The first result that is none yet.
pub open spec fn first_open(outs: Seq<InferOut>) -> Option<InferOut>
    decreases outs.len(),
{
    if outs.len() == 0 {
        None
    } else if !(outs[0] is Done) {
        Some(outs[0])
    } else {
        first_open(outs.drop_first())
    }
}

/// The union of types: nothing of none, the type itself of one.
pub open spec fn union_type(types: Seq<Ty>) -> Option<Ty> {
    if types.len() == 0 {
        None
    } else if types.len() == 1 {
        Some(types[0])
    } else {
        Some(Ty::Union(types))
    }
}

/// The member of a union: the union of what its parts have.
pub open spec fn union_of(outs: Seq<InferOut>) -> InferOut {
    match first_open(outs) {
        Some(out) => out,
        None => Step::Done(union_type(found_types(outs))),
    }
}

/// The member of an intersection: what its parts agree on, where each has the
/// member. `so_far` is what the parts before agreed on.
pub open spec fn intersection_of(outs: Seq<InferOut>, so_far: Ty) -> InferOut
    decreases outs.len(),
{
    if outs.len() == 0 {
        found(so_far)
    } else {
        match outs[0] {
            Step::Done(Some(t)) => if so_far is Unknown {
                intersection_of(outs.drop_first(), t)
            } else if so_far != t {
                missing()
            } else {
                intersection_of(outs.drop_first(), so_far)
            },
            out => out,
        }
    }
}

// ---------------------------------------------------------------------------
// Keys against key types
// ---------------------------------------------------------------------------

/// Whether a key is of a key type.
pub enum KeyMatch {
    Hit,
    Pass,
    /// Inference ends here, whether or not the key matches.
    Stop(InferOut),
}

/// Whether the type of a key expression is admitted.
pub open spec fn expr_match(out: InferOut, admits: spec_fn(Ty) -> bool) -> KeyMatch {
    match out {
        Step::Done(Some(t)) => if admits(t) {
            KeyMatch::Hit
        } else {
            KeyMatch::Pass
        },
        out => KeyMatch::Stop(out),
    }
}

/// Whether `key` is of the type `key_type`: names and string literals are
/// strings, integer literals are numbers, and an expression is of its own
/// type. A key type that is neither string nor number only admits expressions
/// of exactly the type `exact`.
pub open spec fn key_match(
    cache: LuaInferCache,
    key_type: Ty,
    exact: Ty,
    key: IndexKey,
) -> KeyMatch {
    if key_type.is_string() {
        match key {
            IndexKey::Name(_) => KeyMatch::Hit,
            IndexKey::String(_) => KeyMatch::Hit,
            IndexKey::Integer(_) => KeyMatch::Pass,
            IndexKey::Expr(e) => expr_match(cache.expr_type(e), |t: Ty| t.is_string()),
        }
    } else if key_type.is_number() {
        match key {
            IndexKey::Integer(_) => KeyMatch::Hit,
            IndexKey::Expr(e) => expr_match(cache.expr_type(e), |t: Ty| t.is_number()),
            _ => KeyMatch::Pass,
        }
    } else {
        match key {
            IndexKey::Expr(e) => expr_match(cache.expr_type(e), |t: Ty| t == exact),
            _ => KeyMatch::Pass,
        }
    }
}

/// The member, if its key matches, has the type `t`.
pub open spec fn matched(m: KeyMatch, t: Ty) -> InferOut {
    match m {
        KeyMatch::Hit => found(t),
        KeyMatch::Pass => missing(),
        KeyMatch::Stop(out) => out,
    }
}

/// The value type of the first entry whose key type the key is of.
pub open spec fn index_access(
    cache: LuaInferCache,
    key: IndexKey,
    entries: Seq<(Ty, Ty)>,
) -> InferOut
    decreases entries.len(),
{
    if entries.len() == 0 {
        missing()
    } else {
        let (key_type, value) = entries[0];
        match key_match(cache, key_type, key_type, key) {
            KeyMatch::Hit => found(value),
            KeyMatch::Pass => index_access(cache, key, entries.drop_first()),
            KeyMatch::Stop(out) => out,
        }
    }
}

/// The type of the first field with the given key.
pub open spec fn field_type(fields: Seq<(MemberKey, Ty)>, key: MemberKey) -> Option<Ty>
    decreases fields.len(),
{
    if fields.len() == 0 {
        None
    } else if fields[0].0 == key {
        Some(fields[0].1)
    } else {
        field_type(fields.drop_first(), key)
    }
}

/// The value type of the first entry with exactly the given key type.
pub open spec fn entry_type(entries: Seq<(Ty, Ty)>, key_type: Ty) -> Option<Ty>
    decreases entries.len(),
{
    if entries.len() == 0 {
        None
    } else if entries[0].0 == key_type {
        Some(entries[0].1)
    } else {
        entry_type(entries.drop_first(), key_type)
    }
}

// ---------------------------------------------------------------------------
// Members by key
// ---------------------------------------------------------------------------

/// The member of a table literal.
pub open spec fn table_member(db: DbIndex, key: Option<IndexKey>, range: InFiled) -> InferOut {
    match key {
        Some(key) => match db.member(MemberOwner::Element(range), key.member_key()) {
            Some(t) => Step::Done(t),
            None => missing(),
        },
        None => missing(),
    }
}

/// The member of a tuple: integers count from one, and those below count as
/// one.
pub open spec fn tuple_member(key: Option<IndexKey>, types: Seq<Ty>) -> InferOut {
    match key {
        Some(IndexKey::Integer(i)) => {
            let at = if i > 0 { i - 1 } else { 0 };
            if at < types.len() {
                found(types[at])
            } else {
                missing()
            }
        },
        _ => missing(),
    }
}

/// The member of an object type: a named field, else by the type of the key.
pub open spec fn object_member(
    cache: LuaInferCache,
    key: Option<IndexKey>,
    fields: Seq<(MemberKey, Ty)>,
    entries: Seq<(Ty, Ty)>,
) -> InferOut {
    match key {
        Some(key) => match field_type(fields, key.member_key()) {
            Some(t) => found(t),
            None => index_access(cache, key, entries),
        },
        None => missing(),
    }
}

/// The member of the table of globals.
pub open spec fn global_member(db: DbIndex, key: Option<IndexKey>) -> InferOut {
    match key {
        Some(IndexKey::Name(name)) => Step::Done(db.global(name)),
        _ => missing(),
    }
}

/// The full name of what a namespace holds under a name.
pub open spec fn qualified(namespace: Seq<char>, name: Seq<char>) -> Seq<char> {
    namespace + "."@ + name
}

/// The member of a namespace: a declared type, else a namespace again.
pub open spec fn namespace_member(
    db: DbIndex,
    key: Option<IndexKey>,
    namespace: Seq<char>,
) -> InferOut {
    match key {
        Some(key) => match key.member_key() {
            MemberKey::Name(name) => {
                let full = qualified(namespace, name);
                if db.decl_kind(full) is Some {
                    found(Ty::Def(full))
                } else {
                    found(Ty::Namespace(full))
                }
            },
            _ => missing(),
        },
        None => missing(),
    }
}

/// The member of a generic type: that of its base, with the arguments filled
/// in.
pub open spec fn instance_of(cache: LuaInferCache, out: InferOut, params: Seq<Ty>) -> InferOut {
    match out {
        Step::Done(Some(t)) => cache.instance(t, params),
        out => out,
    }
}

/// The member that a type has under the key, and the declarations visited
/// once it has been found.
pub open spec fn by_key(s: Scope, t: Ty, visited: Set<Seq<char>>, fuel: nat) -> (
    InferOut,
    Set<Seq<char>>,
)
    decreases fuel, 0nat, 0nat,
{
    if fuel == 0 {
        (Step::Endless, visited)
    } else {
        let rest = (fuel - 1) as nat;
        match t {
            Ty::Table | Ty::Any | Ty::Unknown => (found(Ty::Any), visited),
            Ty::TableConst(range) => (table_member(s.db, s.key, range), visited),
            Ty::String | Ty::Io | Ty::StringConst(_) | Ty::DocStringConst(_) => decl_by_key(
                s,
                builtin_decl(t).unwrap(),
                visited,
                rest,
            ),
            Ty::Ref(id) => decl_by_key(s, id, visited, rest),
            Ty::Def(id) => decl_by_key(s, id, visited, rest),
            Ty::Tuple(types) => (tuple_member(s.key, types), visited),
            Ty::Object(fields, entries) => (
                object_member(s.cache, s.key, fields, entries),
                visited,
            ),
            Ty::Union(types) => (union_of(each_by_key(s, types, rest)), visited),
            Ty::Intersection(types) => (
                intersection_of(each_by_key(s, types, rest), Ty::Unknown),
                visited,
            ),
            Ty::Generic(base, params) => (
                instance_of(s.cache, by_key(s, *base, Set::empty(), rest).0, params),
                visited,
            ),
            Ty::Global => (global_member(s.db, s.key), visited),
            Ty::Instance(base, range) => {
                let (out, seen) = by_key(s, *base, visited, rest);
                (
                    if out == missing() {
                        table_member(s.db, s.key, range)
                    } else {
                        out
                    },
                    seen,
                )
            },
            Ty::Namespace(namespace) => (namespace_member(s.db, s.key, namespace), visited),
            _ => (missing(), visited),
        }
    }
}

/// What each of several types has under the key.
pub open spec fn each_by_key(s: Scope, types: Seq<Ty>, fuel: nat) -> Seq<InferOut>
    decreases fuel, 1nat, 0nat,
{
    Seq::new(types.len(), |i: int| by_key(s, types[i], Set::empty(), fuel).0)
}

/// The member of a declared type: of what an alias stands for, else its own
/// member, else, of a class, that of the first super type that has it. An alias
/// without origin counts as a string.
pub open spec fn decl_by_key(s: Scope, id: Seq<char>, visited: Set<Seq<char>>, fuel: nat) -> (
    InferOut,
    Set<Seq<char>>,
)
    decreases fuel, 2nat, 0nat,
{
    let seen = visited.insert(id);
    if visited.contains(id) {
        (missing(), seen)
    } else {
        match s.db.decl_kind(id) {
            None => (missing(), seen),
            Some(LuaDeclTypeKind::Alias) => match s.db.alias_origin(id) {
                Some(origin) => by_key(s, origin, seen, fuel),
                None => by_key(s, Ty::String, seen, fuel),
            },
            Some(kind) => match s.key {
                None => (missing(), seen),
                Some(key) => match s.db.member(MemberOwner::Type(id), key.member_key()) {
                    Some(t) => (Step::Done(t), seen),
                    None => match (kind, s.db.supers(id)) {
                        (LuaDeclTypeKind::Class, Some(supers)) => supers_by_key(
                            s,
                            supers,
                            seen,
                            fuel,
                        ),
                        _ => (missing(), seen),
                    },
                },
            },
        }
    }
}

/// The member of the first of several super types that has it.
pub open spec fn supers_by_key(s: Scope, supers: Seq<Ty>, visited: Set<Seq<char>>, fuel: nat) -> (
    InferOut,
    Set<Seq<char>>,
)
    decreases fuel, 1nat, supers.len(),
{
    if supers.len() == 0 {
        (missing(), visited)
    } else {
        let (out, seen) = by_key(s, supers[0], visited, fuel);
        if out == missing() {
            supers_by_key(s, supers.drop_first(), seen, fuel)
        } else {
            (out, seen)
        }
    }
}

/// Whether the search for a member by key comes to `out`: to what it gives with
/// any fuel that suffices. It is endless where no fuel does. `seen` are the
/// declarations visited by then.
pub open spec fn by_key_comes_to(
    s: Scope,
    t: Ty,
    visited: Set<Seq<char>>,
    out: InferOut,
    seen: Set<Seq<char>>,
) -> bool {
    &&& forall|fuel: nat|
        !((#[trigger] by_key(s, t, visited, fuel)).0 is Endless) ==> by_key(
            s,
            t,
            visited,
            fuel,
        ) == (out, seen)
    &&& out is Endless <==> forall|fuel: nat|
        (#[trigger] by_key(s, t, visited, fuel)).0 is Endless
}

// ---------------------------------------------------------------------------
// Members through operators
// ---------------------------------------------------------------------------

/// A type with the arguments filled in, where there are any.
pub open spec fn applied(cache: LuaInferCache, t: Ty, params: Option<Seq<Ty>>) -> InferOut {
    match params {
        Some(params) => cache.instance(t, params),
        None => found(t),
    }
}

/// The result of the first operator whose operand type the key is of; `None`
/// where no operator applies. An operator that is not declared, or has no
/// operand, ends the search.
pub open spec fn first_operator(
    db: DbIndex,
    cache: LuaInferCache,
    key: IndexKey,
    ids: Seq<LuaOperatorId>,
    params: Option<Seq<Ty>>,
) -> Option<InferOut>
    decreases ids.len(),
{
    if ids.len() == 0 {
        None
    } else {
        match db.operator(ids[0]) {
            None => Some(missing()),
            Some((operand, result)) => match applied(cache, operand, params) {
                Step::Done(Some(key_type)) => match key_match(cache, key_type, operand, key) {
                    KeyMatch::Hit => Some(applied(cache, result, params)),
                    KeyMatch::Pass => first_operator(db, cache, key, ids.drop_first(), params),
                    KeyMatch::Stop(out) => Some(out),
                },
                out => Some(out),
            },
        }
    }
}

/// The value of the first field of the table constructor that makes an array
/// at the given range.
pub open spec fn first_element(root: LuaChunk, range: InFiled) -> Option<LuaSyntaxId> {
    let id = LuaSyntaxId { kind: LuaSyntaxKind::TableArrayExpr, range: range.value };
    if root.tables.map().contains_key(id) && root.tables.map()[id].fields@.len() > 0 {
        match root.tables.map()[id].fields@[0].value {
            Some(value) => Some(value.id()),
            None => None,
        }
    } else {
        None
    }
}

/// The element of an array literal: that of its first field.
pub open spec fn table_element(s: Scope, range: InFiled) -> InferOut {
    match (s.key, first_element(s.root, range)) {
        (Some(IndexKey::Integer(_)), Some(value)) => s.cache.expr_type(value),
        (Some(IndexKey::Expr(_)), Some(value)) => s.cache.expr_type(value),
        _ => missing(),
    }
}

/// The element of an array: its keys are numbers.
pub open spec fn array_element(cache: LuaInferCache, key: Option<IndexKey>, base: Ty) -> InferOut {
    match key {
        Some(key) => matched(key_match(cache, Ty::Number, Ty::Number, key), base),
        None => missing(),
    }
}

/// The element of an object type under a key expression of exactly the type
/// of an entry.
pub open spec fn object_element(
    cache: LuaInferCache,
    key: Option<IndexKey>,
    entries: Seq<(Ty, Ty)>,
) -> InferOut {
    match key {
        Some(IndexKey::Expr(e)) => match cache.expr_type(e) {
            Step::Done(Some(t)) => Step::Done(entry_type(entries, t)),
            out => out,
        },
        _ => missing(),
    }
}

/// The type of a key; a name has none.
pub open spec fn key_type(cache: LuaInferCache, key: IndexKey) -> InferOut {
    match key {
        IndexKey::Expr(e) => cache.expr_type(e),
        IndexKey::Integer(i) => found(Ty::IntegerConst(i)),
        IndexKey::String(text) => found(Ty::StringConst(text)),
        IndexKey::Name(_) => missing(),
    }
}

/// The element of `table<K, V>`: `V`, where the key is of the type `K` or
/// assignable to it.
pub open spec fn table_generic_element(
    cache: LuaInferCache,
    key: Option<IndexKey>,
    params: Seq<Ty>,
) -> InferOut {
    match key {
        Some(key) => if params.len() != 2 {
            missing()
        } else if params[0].is_string() || params[0].is_number() {
            matched(key_match(cache, params[0], params[0], key), params[1])
        } else {
            match key_type(cache, key) {
                Step::Done(Some(given)) => match cache.compact(params[0], given) {
                    Step::Done(true) => found(params[1]),
                    Step::Done(false) => missing(),
                    Step::Ask(q) => Step::Ask(q),
                    Step::Endless => Step::Endless,
                },
                out => out,
            }
        },
        None => missing(),
    }
}

/// The member that a type gives through an index operator, and the
/// declarations visited once it has been found.
pub open spec fn by_operator(s: Scope, t: Ty, visited: Set<Seq<char>>, fuel: nat) -> (
    InferOut,
    Set<Seq<char>>,
)
    decreases fuel, 0nat, 0nat,
{
    if t.without_index_operator() {
        (missing(), visited)
    } else if fuel == 0 {
        (Step::Endless, visited)
    } else {
        let rest = (fuel - 1) as nat;
        match t {
            Ty::TableConst(range) => (table_element(s, range), visited),
            Ty::Ref(id) => decl_by_operator(s, id, visited, rest),
            Ty::Def(id) => decl_by_operator(s, id, visited, rest),
            Ty::Array(base) => (array_element(s.cache, s.key, *base), visited),
            Ty::Object(_, entries) => (object_element(s.cache, s.key, entries), visited),
            Ty::Union(types) => (union_of(each_by_operator(s, types, rest)), visited),
            Ty::Intersection(types) => (
                intersection_of(each_by_operator(s, types, rest), Ty::Unknown),
                visited,
            ),
            Ty::Generic(base, params) => (generic_by_operator(s, *base, params, rest), visited),
            Ty::TableGeneric(params) => (table_generic_element(s.cache, s.key, params), visited),
            _ => (missing(), visited),
        }
    }
}

/// What each of several types gives through an index operator.
pub open spec fn each_by_operator(s: Scope, types: Seq<Ty>, fuel: nat) -> Seq<InferOut>
    decreases fuel, 1nat, 0nat,
{
    Seq::new(types.len(), |i: int| by_operator(s, types[i], Set::empty(), fuel).0)
}

/// The result of an index operator that the type itself declares; `None`
/// where none applies.
pub open spec fn own_operator(s: Scope, id: Seq<char>, key: IndexKey) -> Option<InferOut> {
    match s.db.index_operators(id) {
        Some(Some(ids)) => first_operator(s.db, s.cache, key, ids, None),
        _ => None,
    }
}

/// What a declared type gives through an index operator: what an alias
/// stands for gives, else an operator of its own, else, of a class, what the
/// first super type gives that gives anything.
pub open spec fn decl_by_operator(s: Scope, id: Seq<char>, visited: Set<Seq<char>>, fuel: nat) -> (
    InferOut,
    Set<Seq<char>>,
)
    decreases fuel, 2nat, 0nat,
{
    let seen = visited.insert(id);
    if visited.contains(id) {
        (missing(), seen)
    } else {
        match s.db.decl_kind(id) {
            None => (missing(), seen),
            Some(LuaDeclTypeKind::Alias) => match s.db.alias_origin(id) {
                Some(origin) => by_operator(s, origin, seen, fuel),
                None => (missing(), seen),
            },
            Some(kind) => match s.key {
                None => (missing(), seen),
                Some(key) => match own_operator(s, id, key) {
                    Some(out) => (out, seen),
                    None => match (kind, s.db.supers(id)) {
                        (LuaDeclTypeKind::Class, Some(supers)) => supers_by_operator(
                            s,
                            supers,
                            seen,
                            fuel,
                        ),
                        _ => (missing(), seen),
                    },
                },
            },
        }
    }
}

/// What the first of several super types gives that gives anything.
pub open spec fn supers_by_operator(
    s: Scope,
    supers: Seq<Ty>,
    visited: Set<Seq<char>>,
    fuel: nat,
) -> (InferOut, Set<Seq<char>>)
    decreases fuel, 1nat, supers.len(),
{
    if supers.len() == 0 {
        (missing(), visited)
    } else {
        let (out, seen) = by_operator(s, supers[0], visited, fuel);
        if out == missing() {
            supers_by_operator(s, supers.drop_first(), seen, fuel)
        } else {
            (out, seen)
        }
    }
}

/// What a type gives through an index operator once the arguments are filled
/// in.
pub open spec fn applied_by_operator(s: Scope, t: Ty, params: Seq<Ty>, fuel: nat) -> InferOut
    decreases fuel, 1nat, 0nat,
{
    match s.cache.instance(t, params) {
        Step::Done(Some(t)) => by_operator(s, t, Set::empty(), fuel).0,
        out => out,
    }
}

/// What a generic type gives through an index operator: what a generic alias
/// stands for gives, else an operator of the base, else what the first super
/// type gives that gives anything. A base that declares operators but no index
/// operator gives nothing.
pub open spec fn generic_by_operator(s: Scope, base: Ty, params: Seq<Ty>, fuel: nat) -> InferOut
    decreases fuel, 3nat, 0nat,
{
    match base {
        Ty::Ref(id) => match s.db.decl_kind(id) {
            None => missing(),
            Some(LuaDeclTypeKind::Alias) => match s.cache.alias_origin(id, params) {
                Step::Done(Some(origin)) => applied_by_operator(s, origin, params, fuel),
                out => out,
            },
            Some(_) => match s.key {
                None => missing(),
                Some(key) => match s.db.index_operators(id) {
                    Some(None) => missing(),
                    Some(Some(ids)) => match first_operator(
                        s.db,
                        s.cache,
                        key,
                        ids,
                        Some(params),
                    ) {
                        Some(out) => out,
                        None => generic_supers_by_operator(s, id, params, fuel),
                    },
                    None => generic_supers_by_operator(s, id, params, fuel),
                },
            },
        },
        _ => missing(),
    }
}

/// What the super types of a generic type give.
pub open spec fn generic_supers_by_operator(
    s: Scope,
    id: Seq<char>,
    params: Seq<Ty>,
    fuel: nat,
) -> InferOut
    decreases fuel, 2nat, 0nat,
{
    match s.db.supers(id) {
        Some(supers) => first_applied_by_operator(s, supers, params, fuel),
        None => missing(),
    }
}

/// What the first of several types gives that gives anything once the
/// arguments are filled in.
pub open spec fn first_applied_by_operator(
    s: Scope,
    types: Seq<Ty>,
    params: Seq<Ty>,
    fuel: nat,
) -> InferOut
    decreases fuel, 1nat, types.len(),
{
    if types.len() == 0 {
        missing()
    } else {
        let out = applied_by_operator(s, types[0], params, fuel);
        if out == missing() {
            first_applied_by_operator(s, types.drop_first(), params, fuel)
        } else {
            out
        }
    }
}

/// Whether the search for a member through operators comes to `out`: to what it gives with
/// any fuel that suffices. It is endless where no fuel does. `seen` are the
/// declarations visited by then.
pub open spec fn by_operator_comes_to(
    s: Scope,
    t: Ty,
    visited: Set<Seq<char>>,
    out: InferOut,
    seen: Set<Seq<char>>,
) -> bool {
    &&& forall|fuel: nat|
        !((#[trigger] by_operator(s, t, visited, fuel)).0 is Endless) ==> by_operator(
            s,
            t,
            visited,
            fuel,
        ) == (out, seen)
    &&& out is Endless <==> forall|fuel: nat|
        (#[trigger] by_operator(s, t, visited, fuel)).0 is Endless
}

// ---------------------------------------------------------------------------
// Index expressions
// ---------------------------------------------------------------------------

/// The member of a type: by key, else through an operator. Where everything
/// has been analysed, a member that was not found is of unknown type.
pub open spec fn member_type(s: Scope, t: Ty, fuel: nat) -> InferOut {
    let keyed = by_key(s, t, Set::empty(), fuel).0;
    if keyed != missing() {
        keyed
    } else {
        let indexed = by_operator(s, t, Set::empty(), fuel).0;
        if indexed != missing() {
            indexed
        } else if s.cache.config.analysis_phase is Force {
            found(Ty::Unknown)
        } else {
            missing()
        }
    }
}

/// Whether the search for a member of a type comes to `out`.
pub open spec fn member_type_comes_to(
    s: Scope,
    t: Ty,
    out: InferOut,
) -> bool {
    &&& forall|fuel: nat|
        !((#[trigger] member_type(s, t, fuel)) is Endless) ==> member_type(
            s,
            t,
            fuel,
        ) == out
    &&& out is Endless <==> forall|fuel: nat|
        (#[trigger] member_type(s, t, fuel)) is Endless
}

/// What a series of type assertions leaves of a type. An assertion that
/// leaves nothing makes the type unknown.
pub open spec fn tightened(cache: LuaInferCache, assertions: Seq<u64>, t: Ty) -> InferOut
    decreases assertions.len(),
{
    if assertions.len() == 0 {
        found(t)
    } else {
        match cache.tightening(assertions[0], t) {
            Step::Done(Some(t)) => tightened(cache, assertions.drop_first(), t),
            Step::Done(None) => tightened(cache, assertions.drop_first(), Ty::Unknown),
            out => out,
        }
    }
}

/// What control flow leaves of the type `t` of an index expression.
pub open spec fn flow_type(cache: LuaInferCache, expr: LuaIndexExpr, t: Ty) -> InferOut {
    match cache.flow_chain(expr.id) {
        Step::Done(Some(chain)) => match expr.access_path {
            Some(path) => match cache.asserts(chain, smol_chars(path), expr.id.range.start) {
                Step::Done(assertions) => tightened(cache, assertions, t),
                Step::Ask(q) => Step::Ask(q),
                Step::Endless => Step::Endless,
            },
            None => found(t),
        },
        Step::Done(None) => found(t),
        Step::Ask(q) => Step::Ask(q),
        Step::Endless => Step::Endless,
    }
}

/// The type of an index expression: the member of the type of its prefix,
/// narrowed by control flow unless the prefix is an array.
pub open spec fn index_type(
    db: DbIndex,
    cache: LuaInferCache,
    expr: LuaIndexExpr,
    fuel: nat,
) -> InferOut {
    match expr.prefix {
        None => missing(),
        Some(prefix) => match cache.expr_type(prefix.id()) {
            Step::Done(Some(t)) => match member_type(scope(db, cache, expr.member), t, fuel) {
                Step::Done(Some(member)) => if t is Array {
                    found(member)
                } else {
                    flow_type(cache, expr, member)
                },
                out => out,
            },
            out => out,
        },
    }
}

/// Whether the inference of the type of an index expression comes to `out`: to
/// what it gives with any fuel that suffices. It is endless where no fuel does.
pub open spec fn index_type_comes_to(
    db: DbIndex,
    cache: LuaInferCache,
    expr: LuaIndexExpr,
    out: InferOut,
) -> bool {
    &&& forall|fuel: nat|
        !((#[trigger] index_type(db, cache, expr, fuel)) is Endless) ==> index_type(
            db,
            cache,
            expr,
            fuel,
        ) == out
    &&& out is Endless <==> forall|fuel: nat|
        (#[trigger] index_type(db, cache, expr, fuel)) is Endless
}

} // verus!
