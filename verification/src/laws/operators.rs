//! What the types of each kind give through index operators.

use crate::cache::{InferOut, Question, Step};
use crate::db::{LuaDeclTypeKind, LuaOperatorId};
use crate::laws::firsts::law_first_entry;
use crate::laws::keys::{is_of, law_key_match, untyped};
use crate::model::{
    applied, applied_by_operator, by_operator, decl_by_operator, each_by_operator,
    first_applied_by_operator, first_operator, found, generic_by_operator,
    generic_supers_by_operator, intersection_of, missing, own_operator, supers_by_operator,
    union_of, Scope,
};
use crate::syntax::{InFiled, IndexKey, LuaSyntaxId, LuaSyntaxKind};
use crate::types::{MemberKey, Ty};
use vstd::prelude::*;

verus! {

// ---------------------------------------------------------------------------
// Literals, arrays and tables
// ---------------------------------------------------------------------------

/// Values, tuples, instances, globals and namespaces give nothing through
/// operators, however little fuel there is.
pub proof fn law_types_without_operators(s: Scope, t: Ty, visited: Set<Seq<char>>, fuel: nat)
    requires
        !(t is TableConst || t is Ref || t is Def || t is Array || t is Object || t is Union
            || t is Intersection || t is Generic || t is TableGeneric),
    ensures
        by_operator(s, t, visited, fuel) == (missing(), visited),
{
}

/// An array literal gives, under an integer or an expression, the type of the
/// value of its first field. It gives nothing under another key, and nothing
/// where the file has no array literal with a first value at its range.
pub proof fn law_array_literal(
    s: Scope,
    range: InFiled,
    id: LuaSyntaxId,
    visited: Set<Seq<char>>,
    fuel: nat,
)
    requires
        fuel > 0,
        id.kind == LuaSyntaxKind::TableArrayExpr,
        id.range == range.value,
    ensures
        by_operator(s, Ty::TableConst(range), visited, fuel).1 == visited,
        !(s.key matches Some(IndexKey::Integer(_))) && !(s.key matches Some(IndexKey::Expr(_)))
            ==> by_operator(s, Ty::TableConst(range), visited, fuel).0 == missing(),
        !s.root.tables.map().contains_key(id) || s.root.tables.map()[id].fields@.len() == 0
            || s.root.tables.map()[id].fields@[0].value is None ==> by_operator(
            s,
            Ty::TableConst(range),
            visited,
            fuel,
        ).0 == missing(),
        (s.key matches Some(IndexKey::Integer(_))) || (s.key matches Some(IndexKey::Expr(_)))
            ==> (s.root.tables.map().contains_key(id) && s.root.tables.map()[id].fields@.len() > 0
            ==> (s.root.tables.map()[id].fields@[0].value matches Some(value) ==> by_operator(
            s,
            Ty::TableConst(range),
            visited,
            fuel,
        ).0 == s.cache.expr_type(value.id()))),
{
}

/// `table<K, V>`, where `K` is a string or a number, gives `V` under each key
/// that is of the type `K`, literals and expressions alike, and nothing under
/// one that is not. A key expression without a known type gives what is known
/// of it.
pub proof fn law_table_generic_plain_key(
    s: Scope,
    params: Seq<Ty>,
    key: IndexKey,
    visited: Set<Seq<char>>,
    fuel: nat,
)
    requires
        fuel > 0,
        s.key == Some(key),
        params.len() == 2,
        params[0].is_string() || params[0].is_number(),
    ensures
        untyped(s.cache, key) ==> by_operator(s, Ty::TableGeneric(params), visited, fuel) == (
            s.cache.expr_type(key->Expr_0),
            visited,
        ),
        !untyped(s.cache, key) ==> by_operator(s, Ty::TableGeneric(params), visited, fuel) == (
            if is_of(s.cache, key, params[0], params[0]) {
                found(params[1])
            } else {
                missing()
            },
            visited,
        ),
{
    law_key_match(s.cache, params[0], params[0], key);
}

/// `table<number, V>` gives `V` under an expression that is a number and
/// nothing under one that is not; `table<string, V>` does so for strings.
pub proof fn law_table_generic_expression(
    s: Scope,
    params: Seq<Ty>,
    e: LuaSyntaxId,
    t: Ty,
    visited: Set<Seq<char>>,
    fuel: nat,
)
    requires
        fuel > 0,
        s.key == Some(IndexKey::Expr(e)),
        params.len() == 2,
        s.cache.expr_type(e) == found(t),
    ensures
        params[0].is_number() ==> by_operator(s, Ty::TableGeneric(params), visited, fuel).0 == (
        if t.is_number() {
            found(params[1])
        } else {
            missing()
        }),
        params[0].is_string() ==> by_operator(s, Ty::TableGeneric(params), visited, fuel).0 == (
        if t.is_string() {
            found(params[1])
        } else {
            missing()
        }),
{
}

/// An array gives what `table<number, V>` of its elements gives.
pub proof fn law_array_like_table(s: Scope, base: Ty, visited: Set<Seq<char>>, fuel: nat)
    ensures
        by_operator(s, Ty::Array(Box::new(base)), visited, fuel) == by_operator(
            s,
            Ty::TableGeneric(seq![Ty::Number, base]),
            visited,
            fuel,
        ),
{
}

/// `table<K, V>`, where `K` is neither string nor number, gives `V` under a key
/// whose type is assignable to `K`. An integer literal is of its own type, and
/// so is a string literal; a name is of none.
pub proof fn law_table_generic_other_key(
    s: Scope,
    params: Seq<Ty>,
    key: IndexKey,
    given: Ty,
    visited: Set<Seq<char>>,
    fuel: nat,
)
    requires
        fuel > 0,
        s.key == Some(key),
        params.len() == 2,
        !params[0].is_string(),
        !params[0].is_number(),
        match key {
            IndexKey::Expr(e) => s.cache.expr_type(e) == found(given),
            IndexKey::Integer(i) => given == Ty::IntegerConst(i),
            IndexKey::String(text) => given == Ty::StringConst(text),
            IndexKey::Name(_) => false,
        },
    ensures
        by_operator(s, Ty::TableGeneric(params), visited, fuel).1 == visited,
        s.cache.compact(params[0], given) == Step::<bool, Question>::Done(true) ==> by_operator(
            s,
            Ty::TableGeneric(params),
            visited,
            fuel,
        ).0 == found(params[1]),
        s.cache.compact(params[0], given) == Step::<bool, Question>::Done(false) ==> by_operator(
            s,
            Ty::TableGeneric(params),
            visited,
            fuel,
        ).0 == missing(),
        s.cache.compact(params[0], given) matches Step::Ask(q) ==> by_operator(
            s,
            Ty::TableGeneric(params),
            visited,
            fuel,
        ).0 == InferOut::Ask(q),
{
}

/// `table<K, V>` gives nothing without a key or with other than two arguments,
/// and, where `K` is neither string nor number, nothing under a name and what
/// is known of it under a key expression without a known type.
pub proof fn law_table_generic_nothing(
    s: Scope,
    params: Seq<Ty>,
    visited: Set<Seq<char>>,
    fuel: nat,
)
    requires
        fuel > 0,
    ensures
        params.len() != 2 || s.key is None ==> by_operator(
            s,
            Ty::TableGeneric(params),
            visited,
            fuel,
        ) == (missing(), visited),
        params.len() == 2 && !params[0].is_string() && !params[0].is_number() ==> {
            let out = by_operator(s, Ty::TableGeneric(params), visited, fuel);
            match s.key {
                Some(IndexKey::Name(_)) => out == (missing(), visited),
                Some(IndexKey::Expr(e)) => untyped(s.cache, IndexKey::Expr(e)) ==> out == (
                    s.cache.expr_type(e),
                    visited,
                ),
                _ => true,
            }
        },
{
}

/// An object type gives, under an expression of a known type, the value type of
/// the first entry of exactly that key type, and nothing if there is none. It
/// gives nothing under another key. `at` is that entry, or the number of
/// entries.
pub proof fn law_object_element(
    s: Scope,
    fields: Seq<(MemberKey, Ty)>,
    entries: Seq<(Ty, Ty)>,
    e: LuaSyntaxId,
    t: Ty,
    at: int,
    visited: Set<Seq<char>>,
    fuel: nat,
)
    requires
        fuel > 0,
        s.cache.expr_type(e) == found(t),
        0 <= at <= entries.len(),
        forall|i: int| 0 <= i < at ==> (#[trigger] entries[i]).0 != t,
        at < entries.len() ==> entries[at].0 == t,
    ensures
        by_operator(s, Ty::Object(fields, entries), visited, fuel).1 == visited,
        s.key == Some(IndexKey::Expr(e)) ==> by_operator(
            s,
            Ty::Object(fields, entries),
            visited,
            fuel,
        ).0 == (if at < entries.len() {
            found(entries[at].1)
        } else {
            missing()
        }),
{
    law_first_entry(entries, t, at);
}

/// An object type gives nothing but under an expression, and what is known of
/// an expression without a known type.
pub proof fn law_object_no_element(
    s: Scope,
    fields: Seq<(MemberKey, Ty)>,
    entries: Seq<(Ty, Ty)>,
    visited: Set<Seq<char>>,
    fuel: nat,
)
    requires
        fuel > 0,
    ensures
        !(s.key matches Some(IndexKey::Expr(_))) ==> by_operator(
            s,
            Ty::Object(fields, entries),
            visited,
            fuel,
        ) == (missing(), visited),
        s.key matches Some(IndexKey::Expr(e)) ==> (untyped(s.cache, IndexKey::Expr(e))
            ==> by_operator(s, Ty::Object(fields, entries), visited, fuel) == (
            s.cache.expr_type(e),
            visited,
        )),
{
}

// ---------------------------------------------------------------------------
// Types made of types
// ---------------------------------------------------------------------------

/// A union gives what the union of the results of its parts is, and an
/// intersection what their intersection is, where the search for each part
/// starts anew. What has been visited stays as it is.
pub proof fn law_parts_by_operator(
    s: Scope,
    types: Seq<Ty>,
    outs: Seq<InferOut>,
    visited: Set<Seq<char>>,
    fuel: nat,
)
    requires
        fuel > 0,
        outs.len() == types.len(),
        forall|i: int|
            0 <= i < types.len() ==> #[trigger] outs[i] == by_operator(
                s,
                types[i],
                Set::empty(),
                (fuel - 1) as nat,
            ).0,
    ensures
        by_operator(s, Ty::Union(types), visited, fuel) == (union_of(outs), visited),
        by_operator(s, Ty::Intersection(types), visited, fuel) == (
            intersection_of(outs, Ty::Unknown),
            visited,
        ),
{
    assert(each_by_operator(s, types, (fuel - 1) as nat) =~= outs);
}

// ---------------------------------------------------------------------------
// Declared types
// ---------------------------------------------------------------------------

/// A type that is not declared gives nothing, and neither does any but an alias
/// without a key. Either way it has been visited.
pub proof fn law_undeclared_by_operator(
    s: Scope,
    id: Seq<char>,
    visited: Set<Seq<char>>,
    fuel: nat,
)
    requires
        fuel > 0,
        s.db.decl_kind(id) is None || s.key is None && s.db.decl_kind(id) != Some(
            LuaDeclTypeKind::Alias,
        ),
    ensures
        by_operator(s, Ty::Ref(id), visited, fuel) == (missing(), visited.insert(id)),
{
    assert(decl_by_operator(s, id, visited, (fuel - 1) as nat) == (
        missing(),
        visited.insert(id),
    ));
}

/// The operators of a type apply as they are declared; those of a generic type
/// apply once the arguments are filled in.
pub proof fn law_applied(s: Scope, t: Ty, params: Seq<Ty>, fuel: nat)
    ensures
        applied(s.cache, t, None) == found(t),
        applied(s.cache, t, Some(params)) == s.cache.instance(t, params),
        match s.cache.instance(t, params) {
            Step::Done(Some(instance)) => applied_by_operator(s, t, params, fuel) == by_operator(
                s,
                instance,
                Set::empty(),
                fuel,
            ).0,
            out => applied_by_operator(s, t, params, fuel) == out,
        },
{
}

/// An index operator of its own that applies decides what a declared type
/// gives. Where none applies, or it declares none, a type that is no class, or
/// that derives from nothing, gives nothing.
pub proof fn law_own_operator(
    s: Scope,
    id: Seq<char>,
    key: IndexKey,
    visited: Set<Seq<char>>,
    fuel: nat,
)
    requires
        fuel > 0,
        !visited.contains(id),
        s.key == Some(key),
        s.db.decl_kind(id) == Some(LuaDeclTypeKind::Class) || s.db.decl_kind(id) == Some(
            LuaDeclTypeKind::Enum,
        ),
    ensures
        own_operator(s, id, key) is Some ==> {
            &&& match s.db.index_operators(id) {
                Some(Some(ids)) => own_operator(s, id, key) == first_operator(
                    s.db,
                    s.cache,
                    key,
                    ids,
                    None,
                ),
                _ => false,
            }
            &&& by_operator(s, Ty::Ref(id), visited, fuel) == (
                own_operator(s, id, key).unwrap(),
                visited.insert(id),
            )
        },
        own_operator(s, id, key) is None ==> {
            &&& match s.db.index_operators(id) {
                Some(Some(ids)) => first_operator(s.db, s.cache, key, ids, None) is None,
                _ => true,
            }
            &&& s.db.decl_kind(id) == Some(LuaDeclTypeKind::Enum) || s.db.supers(id) is None
                || s.db.supers(id)->0.len() == 0 ==> by_operator(
                s,
                Ty::Ref(id),
                visited,
                fuel,
            ) == (missing(), visited.insert(id))
        },
{
    let rest = (fuel - 1) as nat;
    assert(by_operator(s, Ty::Ref(id), visited, fuel) == decl_by_operator(s, id, visited, rest));
    if own_operator(s, id, key) is None {
        if let Some(supers) = s.db.supers(id) {
            if supers.len() == 0 {
                assert(supers_by_operator(s, supers, visited.insert(id), rest) == (
                    missing(),
                    visited.insert(id),
                ));
            }
        }
    }
}

// ---------------------------------------------------------------------------
// Generic types
// ---------------------------------------------------------------------------

/// A generic type gives nothing where its base is no reference to a declared
/// type, where that is no alias and there is no key, and where it declares
/// operators but none for the index. What has been visited stays as it is.
pub proof fn law_generic_nothing(
    s: Scope,
    base: Ty,
    params: Seq<Ty>,
    visited: Set<Seq<char>>,
    fuel: nat,
)
    requires
        fuel > 0,
    ensures
        by_operator(s, Ty::Generic(Box::new(base), params), visited, fuel).1 == visited,
        !(base is Ref) ==> by_operator(
            s,
            Ty::Generic(Box::new(base), params),
            visited,
            fuel,
        ).0 == missing(),
        base matches Ty::Ref(id) ==> {
            let out = by_operator(s, Ty::Generic(Box::new(base), params), visited, fuel).0;
            &&& s.db.decl_kind(id) is None ==> out == missing()
            &&& s.db.decl_kind(id) != Some(LuaDeclTypeKind::Alias) && s.key is None ==> out
                == missing()
            &&& s.db.decl_kind(id) != Some(LuaDeclTypeKind::Alias) && s.db.index_operators(id)
                == Some(None::<Seq<LuaOperatorId>>) ==> out == missing()
            &&& s.db.decl_kind(id) == Some(LuaDeclTypeKind::Alias) ==> match s.cache.alias_origin(
                id,
                params,
            ) {
                Step::Done(Some(_)) => true,
                other => out == other,
            }
        },
{
    let rest = (fuel - 1) as nat;
    assert(by_operator(s, Ty::Generic(Box::new(base), params), visited, fuel).0
        == generic_by_operator(s, base, params, rest));
}

/// A generic type, whether or not its base is a class, gives what the first of
/// the operators of its base gives that applies once the arguments are filled
/// in, and else what the first of its super types gives that gives anything
/// once they are filled in.
pub proof fn law_generic_operators(
    s: Scope,
    id: Seq<char>,
    key: IndexKey,
    params: Seq<Ty>,
    visited: Set<Seq<char>>,
    fuel: nat,
)
    requires
        fuel > 0,
        s.key == Some(key),
        s.db.decl_kind(id) == Some(LuaDeclTypeKind::Class) || s.db.decl_kind(id) == Some(
            LuaDeclTypeKind::Enum,
        ),
        s.db.index_operators(id) != Some(None::<Seq<LuaOperatorId>>),
    ensures
        ({
            let out = by_operator(
                s,
                Ty::Generic(Box::new(Ty::Ref(id)), params),
                visited,
                fuel,
            ).0;
            let own = match s.db.index_operators(id) {
                Some(Some(ids)) => first_operator(s.db, s.cache, key, ids, Some(params)),
                _ => None,
            };
            &&& own matches Some(given) ==> out == given
            &&& own is None && s.db.supers(id) is None ==> out == missing()
            &&& own is None ==> (s.db.supers(id) matches Some(supers) ==> out
                == first_applied_by_operator(s, supers, params, (fuel - 1) as nat))
        }),
{
    let rest = (fuel - 1) as nat;
    assert(by_operator(s, Ty::Generic(Box::new(Ty::Ref(id)), params), visited, fuel).0
        == generic_by_operator(s, Ty::Ref(id), params, rest));
    if let Some(supers) = s.db.supers(id) {
        assert(generic_supers_by_operator(s, id, params, rest) == first_applied_by_operator(
            s,
            supers,
            params,
            rest,
        ));
    } else {
        assert(generic_supers_by_operator(s, id, params, rest) == missing());
    }
}

} // verus!
