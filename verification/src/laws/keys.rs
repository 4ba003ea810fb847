//! What the types of each kind have under a key.

use crate::cache::{InferOut, LuaInferCache, Step};
use crate::db::LuaDeclTypeKind;
use crate::laws::firsts::{law_first_field, law_first_index_access, passes_entry};
use crate::model::{
    by_key, decl_by_key, each_by_key, found, intersection_of, key_match, missing, supers_by_key,
    union_of, KeyMatch, Scope,
};
use crate::syntax::{InFiled, IndexKey, LuaSyntaxId};
use crate::types::{MemberKey, MemberOwner, Ty};
use vstd::prelude::*;

verus! {

// ---------------------------------------------------------------------------
// Keys against key types
// ---------------------------------------------------------------------------

/// Whether a type is admitted where a key type is wanted: any string where
/// that is a string, any number where it is a number, and else only the very
/// type `exact`.
pub open spec fn admitted(wanted: Ty, exact: Ty, t: Ty) -> bool {
    ||| wanted.is_string() && t.is_string()
    ||| wanted.is_number() && t.is_number()
    ||| !wanted.is_string() && !wanted.is_number() && t == exact
}

/// Whether a key is known to be of a key type.
pub open spec fn is_of(cache: LuaInferCache, key: IndexKey, wanted: Ty, exact: Ty) -> bool {
    ||| (key is Name || key is String) && wanted.is_string()
    ||| key is Integer && wanted.is_number()
    ||| key matches IndexKey::Expr(e) && cache.expr_type(e) matches Step::Done(Some(t))
        && admitted(wanted, exact, t)
}

/// Whether the type of a key is not known.
pub open spec fn untyped(cache: LuaInferCache, key: IndexKey) -> bool {
    key matches IndexKey::Expr(e) && !(cache.expr_type(e) matches Step::Done(Some(_)))
}

/// A key expression whose type is not known stops the search with what is
/// known of it. Every other key matches a key type if it is of that type, and
/// is passed over if it is not.
pub proof fn law_key_match(cache: LuaInferCache, wanted: Ty, exact: Ty, key: IndexKey)
    ensures
        untyped(cache, key) ==> key_match(cache, wanted, exact, key) == KeyMatch::Stop(
            cache.expr_type(key->Expr_0),
        ),
        !untyped(cache, key) ==> (key_match(cache, wanted, exact, key) is Hit <==> is_of(
            cache,
            key,
            wanted,
            exact,
        )),
        !untyped(cache, key) ==> (key_match(cache, wanted, exact, key) is Pass <==> !is_of(
            cache,
            key,
            wanted,
            exact,
        )),
{
}

// ---------------------------------------------------------------------------
// Built-in types
// ---------------------------------------------------------------------------

/// Tables, and types of which nothing is known, have any member, and it can be
/// of any type.
pub proof fn law_tables_have_any_member(s: Scope, t: Ty, visited: Set<Seq<char>>, fuel: nat)
    requires
        fuel > 0,
        t is Table || t is Any || t is Unknown,
    ensures
        by_key(s, t, visited, fuel) == (found(Ty::Any), visited),
{
}

/// Plain values have no members, and neither have arrays by key.
pub proof fn law_values_have_no_members(s: Scope, t: Ty, visited: Set<Seq<char>>, fuel: nat)
    requires
        fuel > 0,
        t is Nil || t is Boolean || t is Integer || t is Number || t is Function || t is Thread
            || t is Userdata || t is IntegerConst || t is FloatConst || t is Array
            || t is TableGeneric || t is Opaque,
    ensures
        by_key(s, t, visited, fuel) == (missing(), visited),
{
}

/// Strings have the members of the declared type `string`, whatever their
/// value, and the type `io` those of the declared type `io`.
pub proof fn law_strings_have_declared_members(
    s: Scope,
    t: Ty,
    visited: Set<Seq<char>>,
    fuel: nat,
)
    ensures
        t is String || t is StringConst || t is DocStringConst ==> by_key(s, t, visited, fuel)
            == by_key(s, Ty::Ref("string"@), visited, fuel),
        t is Io ==> by_key(s, t, visited, fuel) == by_key(s, Ty::Ref("io"@), visited, fuel),
{
}

// ---------------------------------------------------------------------------
// Literals, tuples and objects
// ---------------------------------------------------------------------------

/// A table literal has the member that is recorded for its range under the
/// key, of the type that is recorded. It has no other.
pub proof fn law_table_literal_member(
    s: Scope,
    range: InFiled,
    visited: Set<Seq<char>>,
    fuel: nat,
)
    requires
        fuel > 0,
    ensures
        by_key(s, Ty::TableConst(range), visited, fuel).1 == visited,
        s.key is None ==> by_key(s, Ty::TableConst(range), visited, fuel).0 == missing(),
        s.key matches Some(key) ==> match s.db.member(
            MemberOwner::Element(range),
            key.member_key(),
        ) {
            Some(t) => by_key(s, Ty::TableConst(range), visited, fuel).0 == InferOut::Done(t),
            None => by_key(s, Ty::TableConst(range), visited, fuel).0 == missing(),
        },
{
}

/// A tuple has its types under the integers from one to its length. Integers
/// below one count as one; no other key leads to a member.
pub proof fn law_tuple_by_key(s: Scope, types: Seq<Ty>, visited: Set<Seq<char>>, fuel: nat)
    requires
        fuel > 0,
    ensures
        by_key(s, Ty::Tuple(types), visited, fuel).1 == visited,
        s.key matches Some(IndexKey::Integer(i)) ==> {
            let out = by_key(s, Ty::Tuple(types), visited, fuel).0;
            &&& 1 <= i <= types.len() ==> out == found(types[i - 1])
            &&& i < 1 && types.len() > 0 ==> out == found(types[0])
            &&& i > types.len() || types.len() == 0 ==> out == missing()
        },
        !(s.key matches Some(IndexKey::Integer(_))) ==> by_key(
            s,
            Ty::Tuple(types),
            visited,
            fuel,
        ).0 == missing(),
{
}

/// An object type has each of its named fields, of the type of the first field
/// with that key, whatever other keys it admits, and also where it admits none.
pub proof fn law_object_field(
    s: Scope,
    fields: Seq<(MemberKey, Ty)>,
    entries: Seq<(Ty, Ty)>,
    key: IndexKey,
    at: int,
    visited: Set<Seq<char>>,
    fuel: nat,
)
    requires
        fuel > 0,
        s.key == Some(key),
        0 <= at < fields.len(),
        fields[at].0 == key.member_key(),
        forall|i: int| 0 <= i < at ==> (#[trigger] fields[i]).0 != key.member_key(),
    ensures
        by_key(s, Ty::Object(fields, entries), visited, fuel) == (found(fields[at].1), visited),
{
    law_first_field(fields, key.member_key(), at);
}

/// Under a key that no field has, an object type has the value type of the
/// first entry whose key type the key is of, and no member if the key is of
/// none of them.
pub proof fn law_object_entry(
    s: Scope,
    fields: Seq<(MemberKey, Ty)>,
    entries: Seq<(Ty, Ty)>,
    key: IndexKey,
    at: int,
    visited: Set<Seq<char>>,
    fuel: nat,
)
    requires
        fuel > 0,
        s.key == Some(key),
        forall|i: int| 0 <= i < fields.len() ==> (#[trigger] fields[i]).0 != key.member_key(),
        !untyped(s.cache, key),
        0 <= at <= entries.len(),
        forall|i: int|
            0 <= i < at ==> !is_of(s.cache, key, (#[trigger] entries[i]).0, entries[i].0),
        at < entries.len() ==> is_of(s.cache, key, entries[at].0, entries[at].0),
    ensures
        by_key(s, Ty::Object(fields, entries), visited, fuel) == (
            if at < entries.len() {
                found(entries[at].1)
            } else {
                missing()
            },
            visited,
        ),
{
    law_first_field(fields, key.member_key(), fields.len() as int);
    assert forall|i: int| 0 <= i < at implies passes_entry(
        s.cache,
        key,
        #[trigger] entries[i],
    ) by {
        law_key_match(s.cache, entries[i].0, entries[i].0, key);
    }
    if at < entries.len() {
        law_key_match(s.cache, entries[at].0, entries[at].0, key);
    }
    law_first_index_access(s.cache, key, entries, at);
}

/// Under a key expression whose type is not known, an object type without a
/// field for such keys stops with what is known of the expression, unless it
/// admits no other keys.
pub proof fn law_object_untyped(
    s: Scope,
    fields: Seq<(MemberKey, Ty)>,
    entries: Seq<(Ty, Ty)>,
    e: LuaSyntaxId,
    visited: Set<Seq<char>>,
    fuel: nat,
)
    requires
        fuel > 0,
        s.key == Some(IndexKey::Expr(e)),
        untyped(s.cache, IndexKey::Expr(e)),
        forall|i: int| 0 <= i < fields.len() ==> !((#[trigger] fields[i]).0 is Unnamed),
    ensures
        by_key(s, Ty::Object(fields, entries), visited, fuel) == (
            if entries.len() > 0 {
                s.cache.expr_type(e)
            } else {
                missing()
            },
            visited,
        ),
{
    let key = IndexKey::Expr(e);
    law_first_field(fields, key.member_key(), fields.len() as int);
    if entries.len() > 0 {
        law_key_match(s.cache, entries[0].0, entries[0].0, key);
        law_first_index_access(s.cache, key, entries, 0);
    }
}

/// An object type has no member without a key.
pub proof fn law_object_without_key(
    s: Scope,
    fields: Seq<(MemberKey, Ty)>,
    entries: Seq<(Ty, Ty)>,
    visited: Set<Seq<char>>,
    fuel: nat,
)
    requires
        fuel > 0,
        s.key is None,
    ensures
        by_key(s, Ty::Object(fields, entries), visited, fuel) == (missing(), visited),
{
}

// ---------------------------------------------------------------------------
// Globals and namespaces
// ---------------------------------------------------------------------------

/// The table of globals has the global variable of a name, and nothing under
/// any other key.
pub proof fn law_globals(s: Scope, visited: Set<Seq<char>>, fuel: nat)
    requires
        fuel > 0,
    ensures
        by_key(s, Ty::Global, visited, fuel).1 == visited,
        s.key matches Some(IndexKey::Name(name)) ==> by_key(s, Ty::Global, visited, fuel).0
            == InferOut::Done(s.db.global(name)),
        !(s.key matches Some(IndexKey::Name(_))) ==> by_key(s, Ty::Global, visited, fuel).0
            == missing(),
{
}

/// A namespace holds, under a name or a string literal, the type of that full
/// name if it is declared, and else the namespace of that full name. It holds
/// nothing under any other key.
pub proof fn law_namespaces(
    s: Scope,
    namespace: Seq<char>,
    name: Seq<char>,
    visited: Set<Seq<char>>,
    fuel: nat,
)
    requires
        fuel > 0,
    ensures
        by_key(s, Ty::Namespace(namespace), visited, fuel).1 == visited,
        s.key == Some(IndexKey::Name(name)) || s.key == Some(IndexKey::String(name)) ==> by_key(
            s,
            Ty::Namespace(namespace),
            visited,
            fuel,
        ).0 == found(
            if s.db.type_decls.map().contains_key(namespace + "."@ + name) {
                Ty::Def(namespace + "."@ + name)
            } else {
                Ty::Namespace(namespace + "."@ + name)
            },
        ),
        !(s.key matches Some(IndexKey::Name(_))) && !(s.key matches Some(IndexKey::String(_)))
            ==> by_key(s, Ty::Namespace(namespace), visited, fuel).0 == missing(),
{
}

// ---------------------------------------------------------------------------
// Types made of types
// ---------------------------------------------------------------------------

/// A union has what the union of the results of its parts is, and an
/// intersection what their intersection is, where the search for each part
/// starts anew. What has been visited stays as it is.
pub proof fn law_parts_by_key(
    s: Scope,
    types: Seq<Ty>,
    outs: Seq<InferOut>,
    visited: Set<Seq<char>>,
    fuel: nat,
)
    requires
        fuel > 0,
        outs.len() == types.len(),
        forall|i: int|
            0 <= i < types.len() ==> #[trigger] outs[i] == by_key(
                s,
                types[i],
                Set::empty(),
                (fuel - 1) as nat,
            ).0,
    ensures
        by_key(s, Ty::Union(types), visited, fuel) == (union_of(outs), visited),
        by_key(s, Ty::Intersection(types), visited, fuel) == (
            intersection_of(outs, Ty::Unknown),
            visited,
        ),
{
    assert(each_by_key(s, types, (fuel - 1) as nat) =~= outs);
}

/// A generic type has the member of its base with the arguments filled in,
/// where the search for the base starts anew. Where the base has none, it has
/// none.
pub proof fn law_generic_by_key(
    s: Scope,
    base: Ty,
    params: Seq<Ty>,
    visited: Set<Seq<char>>,
    fuel: nat,
)
    requires
        fuel > 0,
    ensures
        by_key(s, Ty::Generic(Box::new(base), params), visited, fuel).1 == visited,
        match by_key(s, base, Set::empty(), (fuel - 1) as nat).0 {
            Step::Done(Some(t)) => by_key(
                s,
                Ty::Generic(Box::new(base), params),
                visited,
                fuel,
            ).0 == s.cache.instance(t, params),
            out => by_key(s, Ty::Generic(Box::new(base), params), visited, fuel).0 == out,
        },
{
}

// ---------------------------------------------------------------------------
// Declared types
// ---------------------------------------------------------------------------

/// A type that is not declared has no members, and neither has any but an alias
/// without a key. Either way it has been visited.
pub proof fn law_undeclared_by_key(s: Scope, id: Seq<char>, visited: Set<Seq<char>>, fuel: nat)
    requires
        fuel > 0,
        s.db.decl_kind(id) is None || s.key is None && s.db.decl_kind(id) != Some(
            LuaDeclTypeKind::Alias,
        ),
    ensures
        by_key(s, Ty::Ref(id), visited, fuel) == (missing(), visited.insert(id)),
{
    assert(decl_by_key(s, id, visited, (fuel - 1) as nat) == (missing(), visited.insert(id)));
}

/// A declared type that is no alias has a member of its own as recorded, though
/// it be recorded without a type, and whatever it derives from. Without one, a
/// type that is no class, or that derives from nothing, has no member.
pub proof fn law_own_member(
    s: Scope,
    id: Seq<char>,
    key: IndexKey,
    visited: Set<Seq<char>>,
    fuel: nat,
)
    requires
        fuel > 0,
        !visited.contains(id),
        s.key == Some(key),
        s.db.decl_kind(id) == Some(LuaDeclTypeKind::Class) || s.db.decl_kind(id) == Some(
            LuaDeclTypeKind::Enum,
        ),
    ensures
        match s.db.member(MemberOwner::Type(id), key.member_key()) {
            Some(t) => by_key(s, Ty::Ref(id), visited, fuel) == (
                InferOut::Done(t),
                visited.insert(id),
            ),
            None => s.db.decl_kind(id) == Some(LuaDeclTypeKind::Enum) || s.db.supers(id) is None
                || s.db.supers(id)->0.len() == 0 ==> by_key(s, Ty::Ref(id), visited, fuel) == (
                missing(),
                visited.insert(id),
            ),
        },
{
    let rest = (fuel - 1) as nat;
    assert(by_key(s, Ty::Ref(id), visited, fuel) == decl_by_key(s, id, visited, rest));
    if s.db.member(MemberOwner::Type(id), key.member_key()) is None {
        if let Some(supers) = s.db.supers(id) {
            if supers.len() == 0 {
                assert(supers_by_key(s, supers, visited.insert(id), rest) == (
                    missing(),
                    visited.insert(id),
                ));
            }
        }
    }
}

} // verus!
