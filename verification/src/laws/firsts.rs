//! What is looked through in order is decided by the first that fits.

use crate::cache::{InferFailReason, InferOut, LuaInferCache, Step};
use crate::db::{DbIndex, LuaDeclTypeKind, LuaOperatorId};
use crate::infer_setmetatable::{
    constructed_metatable, marked, metatable_type, MetaOut,
};
use crate::model::{
    applied, applied_by_operator, by_operator, decl_by_operator, entry_type, field_type,
    first_applied_by_operator, first_operator, found, generic_by_operator, index_access, key_match,
    matched, missing, KeyMatch, Scope,
};
use crate::syntax::{IndexKey, LuaExpr, LuaIndexKey, LuaTableField};
use crate::text::smol_chars;
use crate::types::{MemberKey, Ty};
use vstd::prelude::*;

verus! {

// ---------------------------------------------------------------------------
// Object types
// ---------------------------------------------------------------------------

/// The first field with a key decides; where there is none, `at` is the number
/// of fields.
pub proof fn law_first_field(fields: Seq<(MemberKey, Ty)>, key: MemberKey, at: int)
    requires
        0 <= at <= fields.len(),
        forall|i: int| 0 <= i < at ==> (#[trigger] fields[i]).0 != key,
        at < fields.len() ==> fields[at].0 == key,
    ensures
        field_type(fields, key) == (if at < fields.len() {
            Some(fields[at].1)
        } else {
            None
        }),
    decreases at,
{
    if at > 0 {
        let tail = fields.drop_first();
        assert(fields[0].0 != key);
        assert forall|i: int| 0 <= i < at - 1 implies (#[trigger] tail[i]).0 != key by {
            assert(tail[i] == fields[i + 1]);
        }
        law_first_field(tail, key, at - 1);
    }
}

/// The first entry with exactly a key type decides; where there is none, `at`
/// is the number of entries.
pub proof fn law_first_entry(entries: Seq<(Ty, Ty)>, key_type: Ty, at: int)
    requires
        0 <= at <= entries.len(),
        forall|i: int| 0 <= i < at ==> (#[trigger] entries[i]).0 != key_type,
        at < entries.len() ==> entries[at].0 == key_type,
    ensures
        entry_type(entries, key_type) == (if at < entries.len() {
            Some(entries[at].1)
        } else {
            None
        }),
    decreases at,
{
    if at > 0 {
        let tail = entries.drop_first();
        assert(entries[0].0 != key_type);
        assert forall|i: int| 0 <= i < at - 1 implies (#[trigger] tail[i]).0 != key_type by {
            assert(tail[i] == entries[i + 1]);
        }
        law_first_entry(tail, key_type, at - 1);
    }
}

/// Whether the key is known not to be of the key type of an entry.
pub open spec fn passes_entry(cache: LuaInferCache, key: IndexKey, entry: (Ty, Ty)) -> bool {
    key_match(cache, entry.0, entry.0, key) is Pass
}

/// The first entry that is not passed decides: it gives its value type where
/// the key is of its key type. Where all are passed, `at` is the number of
/// entries.
pub proof fn law_first_index_access(
    cache: LuaInferCache,
    key: IndexKey,
    entries: Seq<(Ty, Ty)>,
    at: int,
)
    requires
        0 <= at <= entries.len(),
        forall|i: int| 0 <= i < at ==> passes_entry(cache, key, #[trigger] entries[i]),
        at < entries.len() ==> !passes_entry(cache, key, entries[at]),
    ensures
        index_access(cache, key, entries) == (if at < entries.len() {
            matched(key_match(cache, entries[at].0, entries[at].0, key), entries[at].1)
        } else {
            missing()
        }),
    decreases at,
{
    if at > 0 {
        let tail = entries.drop_first();
        assert(passes_entry(cache, key, entries[0]));
        assert forall|i: int| 0 <= i < at - 1 implies passes_entry(
            cache,
            key,
            #[trigger] tail[i],
        ) by {
            assert(tail[i] == entries[i + 1]);
        }
        law_first_index_access(cache, key, tail, at - 1);
    }
}

// ---------------------------------------------------------------------------
// Operators
// ---------------------------------------------------------------------------

/// What one operator gives; `None` where the key is known not to be of its
/// operand type.
pub open spec fn operator_gives(
    db: DbIndex,
    cache: LuaInferCache,
    key: IndexKey,
    id: LuaOperatorId,
    params: Option<Seq<Ty>>,
) -> Option<InferOut> {
    match db.operator(id) {
        None => Some(missing()),
        Some((operand, result)) => match applied(cache, operand, params) {
            Step::Done(Some(key_type)) => match key_match(cache, key_type, operand, key) {
                KeyMatch::Hit => Some(applied(cache, result, params)),
                KeyMatch::Pass => None,
                KeyMatch::Stop(out) => Some(out),
            },
            out => Some(out),
        },
    }
}

/// The first operator that gives anything decides; where there is none, `at`
/// is the number of operators.
pub proof fn law_first_operator(
    db: DbIndex,
    cache: LuaInferCache,
    key: IndexKey,
    ids: Seq<LuaOperatorId>,
    params: Option<Seq<Ty>>,
    at: int,
)
    requires
        0 <= at <= ids.len(),
        forall|i: int|
            0 <= i < at ==> operator_gives(db, cache, key, #[trigger] ids[i], params) is None,
        at < ids.len() ==> operator_gives(db, cache, key, ids[at], params) is Some,
    ensures
        first_operator(db, cache, key, ids, params) == (if at < ids.len() {
            operator_gives(db, cache, key, ids[at], params)
        } else {
            None
        }),
    decreases at,
{
    if at > 0 {
        let tail = ids.drop_first();
        assert(operator_gives(db, cache, key, ids[0], params) is None);
        assert forall|i: int| 0 <= i < at - 1 implies operator_gives(
            db,
            cache,
            key,
            #[trigger] tail[i],
            params,
        ) is None by {
            assert(tail[i] == ids[i + 1]);
        }
        law_first_operator(db, cache, key, tail, params, at - 1);
    }
}

/// Whether filling in the arguments leaves an operator as it is.
pub open spec fn left_alone(
    db: DbIndex,
    cache: LuaInferCache,
    params: Seq<Ty>,
    id: LuaOperatorId,
) -> bool {
    match db.operator(id) {
        Some((operand, result)) => {
            &&& cache.instance(operand, params) == found(operand)
            &&& cache.instance(result, params) == found(result)
        },
        None => true,
    }
}

proof fn lemma_left_alone(
    db: DbIndex,
    cache: LuaInferCache,
    key: IndexKey,
    ids: Seq<LuaOperatorId>,
    params: Seq<Ty>,
)
    requires
        forall|i: int| 0 <= i < ids.len() ==> left_alone(db, cache, params, #[trigger] ids[i]),
    ensures
        first_operator(db, cache, key, ids, Some(params)) == first_operator(
            db,
            cache,
            key,
            ids,
            None,
        ),
    decreases ids.len(),
{
    if ids.len() > 0 {
        let tail = ids.drop_first();
        assert(left_alone(db, cache, params, ids[0]));
        assert forall|i: int| 0 <= i < tail.len() implies left_alone(
            db,
            cache,
            params,
            #[trigger] tail[i],
        ) by {
            assert(tail[i] == ids[i + 1]);
        }
        lemma_left_alone(db, cache, key, tail, params);
    }
}

/// Where filling in the arguments leaves the index operators of a declared
/// type as they are, and one of them applies, the generic type gives what the
/// declared type gives.
pub proof fn law_generic_like_declared(
    s: Scope,
    id: Seq<char>,
    key: IndexKey,
    ids: Seq<LuaOperatorId>,
    params: Seq<Ty>,
    visited: Set<Seq<char>>,
    fuel1: nat,
    fuel2: nat,
)
    requires
        s.key == Some(key),
        s.db.decl_kind(id) is Some,
        s.db.decl_kind(id) != Some(LuaDeclTypeKind::Alias),
        s.db.index_operators(id) == Some(Some(ids)),
        forall|i: int| 0 <= i < ids.len() ==> left_alone(s.db, s.cache, params, #[trigger] ids[i]),
        first_operator(s.db, s.cache, key, ids, None) is Some,
    ensures
        generic_by_operator(s, Ty::Ref(id), params, fuel1) == decl_by_operator(
            s,
            id,
            Set::empty(),
            fuel2,
        ).0,
        fuel1 > 0 && fuel2 > 0 ==> by_operator(
            s,
            Ty::Generic(Box::new(Ty::Ref(id)), params),
            visited,
            fuel1,
        ).0 == by_operator(s, Ty::Ref(id), Set::empty(), fuel2).0,
{
    lemma_left_alone(s.db, s.cache, key, ids, params);
    if fuel1 > 0 && fuel2 > 0 {
        let rest1 = (fuel1 - 1) as nat;
        let rest2 = (fuel2 - 1) as nat;
        assert(generic_by_operator(s, Ty::Ref(id), params, rest1) == decl_by_operator(
            s,
            id,
            Set::empty(),
            rest2,
        ).0);
    }
}

/// A generic alias gives what the type that it stands for gives, once the
/// arguments are filled in, and nothing where it stands for none. Operators
/// that are declared for the alias itself do not count.
pub proof fn law_generic_alias(
    s: Scope,
    id: Seq<char>,
    params: Seq<Ty>,
    origin: Option<Ty>,
    visited: Set<Seq<char>>,
    fuel: nat,
)
    requires
        fuel > 0,
        s.db.decl_kind(id) == Some(LuaDeclTypeKind::Alias),
        s.cache.alias_origin(id, params) == InferOut::Done(origin),
    ensures
        by_operator(s, Ty::Generic(Box::new(Ty::Ref(id)), params), visited, fuel) == (
            match origin {
                Some(origin) => match s.cache.instance(origin, params) {
                    Step::Done(Some(t)) => by_operator(
                        s,
                        t,
                        Set::empty(),
                        (fuel - 1) as nat,
                    ).0,
                    out => out,
                },
                None => missing(),
            },
            visited,
        ),
{
    let rest = (fuel - 1) as nat;
    if let Some(origin) = origin {
        assert(generic_by_operator(s, Ty::Ref(id), params, rest) == applied_by_operator(
            s,
            origin,
            params,
            rest,
        ));
    }
}

/// The first of several types that gives anything once the arguments are filled
/// in decides; where there is none, `at` is the number of types.
pub proof fn law_first_applied(
    s: Scope,
    types: Seq<Ty>,
    params: Seq<Ty>,
    at: int,
    fuel: nat,
)
    requires
        0 <= at <= types.len(),
        forall|i: int|
            0 <= i < at ==> applied_by_operator(s, #[trigger] types[i], params, fuel) == missing(),
        at < types.len() ==> applied_by_operator(s, types[at], params, fuel) != missing(),
    ensures
        first_applied_by_operator(s, types, params, fuel) == (if at < types.len() {
            applied_by_operator(s, types[at], params, fuel)
        } else {
            missing()
        }),
    decreases at,
{
    if at > 0 {
        let tail = types.drop_first();
        assert(applied_by_operator(s, types[0], params, fuel) == missing());
        assert forall|i: int| 0 <= i < at - 1 implies applied_by_operator(
            s,
            #[trigger] tail[i],
            params,
            fuel,
        ) == missing() by {
            assert(tail[i] == types[i + 1]);
        }
        law_first_applied(s, tail, params, at - 1, fuel);
    }
}

// ---------------------------------------------------------------------------
// Metatables
// ---------------------------------------------------------------------------

/// Whether a field of a metatable decides the type that it gives: an `__index`
/// that can be a table, or that has no value.
pub open spec fn decides(field: LuaTableField) -> bool {
    &&& match field.key {
        Some(LuaIndexKey::Name(name)) => smol_chars(name) == "__index"@,
        Some(LuaIndexKey::String(name)) => smol_chars(name) == "__index"@,
        _ => false,
    }
    &&& match field.value {
        Some(LuaExpr::Other(_)) => false,
        _ => true,
    }
}

/// The first field of a metatable constructor that decides gives the type of
/// its value, marked as that of an `__index`, and fails without a value. Where
/// no field decides, `at` is the number of fields, and the metatable gives its
/// own type, not so marked.
pub proof fn law_constructed_metatable(cache: LuaInferCache, metatable: LuaExpr, at: int)
    requires
        metatable is TableExpr,
        0 <= at <= metatable->TableExpr_0.fields@.len(),
        forall|i: int|
            0 <= i < at ==> !decides(#[trigger] metatable->TableExpr_0.fields@[i]),
        at < metatable->TableExpr_0.fields@.len() ==> decides(
            metatable->TableExpr_0.fields@[at],
        ),
    ensures
        metatable_type(cache, metatable) == (if at < metatable->TableExpr_0.fields@.len() {
            match metatable->TableExpr_0.fields@[at].value {
                Some(value) => marked(cache.expr(value.id()), true),
                None => MetaOut::Done(Err(InferFailReason::NoReason)),
            }
        } else {
            marked(cache.expr(metatable.id()), false)
        }),
{
    let table = metatable->TableExpr_0;
    lemma_first_deciding(cache, table.fields@, metatable, at);
}

proof fn lemma_first_deciding(
    cache: LuaInferCache,
    fields: Seq<LuaTableField>,
    metatable: LuaExpr,
    at: int,
)
    requires
        0 <= at <= fields.len(),
        forall|i: int| 0 <= i < at ==> !decides(#[trigger] fields[i]),
        at < fields.len() ==> decides(fields[at]),
    ensures
        constructed_metatable(cache, fields, metatable.id()) == (if at < fields.len() {
            match fields[at].value {
                Some(value) => marked(cache.expr(value.id()), true),
                None => MetaOut::Done(Err(InferFailReason::NoReason)),
            }
        } else {
            marked(cache.expr(metatable.id()), false)
        }),
    decreases at,
{
    if at > 0 {
        let tail = fields.drop_first();
        assert(!decides(fields[0]));
        assert forall|i: int| 0 <= i < at - 1 implies !decides(#[trigger] tail[i]) by {
            assert(tail[i] == fields[i + 1]);
        }
        lemma_first_deciding(cache, tail, metatable, at - 1);
    }
}

/// The type of a metatable is marked, and a failure or a question is passed on.
pub proof fn law_marked(cache: LuaInferCache, expr: LuaExpr, is_index: bool)
    ensures
        match cache.expr(expr.id()) {
            Step::Done(Ok(t)) => marked(cache.expr(expr.id()), is_index) == MetaOut::Done(
                Ok((t, is_index)),
            ),
            Step::Done(Err(e)) => marked(cache.expr(expr.id()), is_index) == MetaOut::Done(
                Err(e),
            ),
            Step::Ask(q) => marked(cache.expr(expr.id()), is_index) == MetaOut::Ask(q),
            Step::Endless => false,
        },
{
}

/// What is not a constructor gives its own type as a metatable, not marked as
/// that of an `__index`.
pub proof fn law_other_metatable(cache: LuaInferCache, metatable: LuaExpr)
    requires
        !(metatable is TableExpr),
    ensures
        metatable_type(cache, metatable) == marked(cache.expr(metatable.id()), false),
{
}

} // verus!
