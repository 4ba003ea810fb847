//! What is looked up is what was recorded, and what stands for a value tells
//! it from others.

use crate::cache::{
    CallOut, CallStep, InferOut, InferStep, LuaInferCache, MemberInfo, Query, Question, Step,
};
use crate::db::{opt_view, DbIndex, LuaMemberSlot, LuaOperatorId, LuaOperatorMetaMethod};
use crate::model::{found, missing, scope};
use crate::syntax::{IndexKey, LuaExpr, LuaIndexKey, LuaIndexMemberExpr, LuaSyntaxId};
use crate::text::smol_chars;
use crate::types::{
    builtin_decl, fields_view, pairs_view, types_view, LuaMemberKey, LuaMemberOwner, LuaType,
    MemberKey, MemberOwner, Ty,
};
use vstd::prelude::*;

verus! {

// ---------------------------------------------------------------------------
// Answers
// ---------------------------------------------------------------------------

/// The type of an expression is the one recorded for its node. A recorded
/// failure is a failure, of which member inference only sees that there is no
/// type. What is not recorded is asked for.
pub proof fn law_expr_lookup(cache: LuaInferCache, id: LuaSyntaxId)
    ensures
        !cache.exprs.map().contains_key(id) ==> {
            &&& cache.expr(id) == CallOut::Ask(Question::Expr(id))
            &&& cache.expr_type(id) == InferOut::Ask(Question::Expr(id))
        },
        cache.exprs.map().contains_key(id) ==> match cache.exprs.map()[id] {
            Ok(t) => cache.expr(id) == CallOut::Done(Ok(t@)) && cache.expr_type(id) == found(t@),
            Err(e) => cache.expr(id) == CallOut::Done(Err(e)) && cache.expr_type(id) == missing(),
        },
{
}

/// The instance of a type is the one recorded for the type and all of its
/// arguments. What is not recorded is asked for.
pub proof fn law_instance_lookup(cache: LuaInferCache, t: Ty, params: Seq<Ty>)
    ensures
        cache.instances.map().contains_key((t, params)) ==> cache.instance(t, params) == found(
            cache.instances.map()[(t, params)]@,
        ),
        !cache.instances.map().contains_key((t, params)) ==> cache.instance(t, params)
            == InferOut::Ask(Question::Instantiate(t, params)),
{
}

/// What a generic alias stands for is what was recorded for it and all of its
/// arguments. What is not recorded is asked for.
pub proof fn law_alias_origin_lookup(cache: LuaInferCache, id: Seq<char>, params: Seq<Ty>)
    ensures
        cache.alias_origins.map().contains_key((id, params)) ==> match cache.alias_origins.map()[(
            id,
            params,
        )] {
            Some(t) => cache.alias_origin(id, params) == found(t@),
            None => cache.alias_origin(id, params) == missing(),
        },
        !cache.alias_origins.map().contains_key((id, params)) ==> cache.alias_origin(id, params)
            == InferOut::Ask(Question::AliasOrigin(id, params)),
{
}

/// Whether a type is assignable to another is what was recorded for the two in
/// this order. What is not recorded is asked for.
pub proof fn law_compact_lookup(cache: LuaInferCache, wanted: Ty, given: Ty)
    ensures
        cache.compacts.map().contains_key((wanted, given)) ==> cache.compact(wanted, given)
            == Step::<bool, Question>::Done(cache.compacts.map()[(wanted, given)]),
        !cache.compacts.map().contains_key((wanted, given)) ==> cache.compact(wanted, given)
            == Step::<bool, Question>::Ask(Question::Compact(wanted, given)),
{
}

/// The flow chain of a node is the one recorded. What is not recorded is asked
/// for.
pub proof fn law_flow_chain_lookup(cache: LuaInferCache, id: LuaSyntaxId)
    ensures
        cache.flow_chains.map().contains_key(id) ==> cache.flow_chain(id) == Step::<
            Option<u64>,
            Question,
        >::Done(cache.flow_chains.map()[id]),
        !cache.flow_chains.map().contains_key(id) ==> cache.flow_chain(id) == Step::<
            Option<u64>,
            Question,
        >::Ask(Question::FlowChain(id)),
{
}

/// The type assertions at a point are those recorded, in order. What is not
/// recorded is asked for.
pub proof fn law_asserts_lookup(cache: LuaInferCache, chain: u64, path: Seq<char>, position: u32)
    ensures
        cache.type_asserts.map().contains_key((chain, path, position)) ==> cache.asserts(
            chain,
            path,
            position,
        ) == Step::<Seq<u64>, Question>::Done(cache.type_asserts.map()[(chain, path, position)]@),
        !cache.type_asserts.map().contains_key((chain, path, position)) ==> cache.asserts(
            chain,
            path,
            position,
        ) == Step::<Seq<u64>, Question>::Ask(Question::TypeAsserts(chain, path, position)),
{
}

/// What an assertion leaves of a type is what was recorded for the two. What
/// is not recorded is asked for.
pub proof fn law_tightening_lookup(cache: LuaInferCache, assertion: u64, t: Ty)
    ensures
        cache.tightenings.map().contains_key((assertion, t)) ==> match cache.tightenings.map()[(
            assertion,
            t,
        )] {
            Some(left) => cache.tightening(assertion, t) == found(left@),
            None => cache.tightening(assertion, t) == missing(),
        },
        !cache.tightenings.map().contains_key((assertion, t)) ==> cache.tightening(assertion, t)
            == InferOut::Ask(Question::Tighten(assertion, t)),
{
}

/// The members of a type are those recorded, all of them and in order. What is
/// not recorded is asked for.
pub proof fn law_members_lookup(cache: LuaInferCache, t: Ty)
    ensures
        cache.members.map().contains_key(t) ==> match (
            cache.members.map()[t],
            cache.members_of(t),
        ) {
            (Some(recorded), Step::Done(Some(members))) => {
                &&& members.len() == recorded@.len()
                &&& forall|i: int|
                    0 <= i < members.len() ==> {
                        &&& (#[trigger] members[i]).key == recorded@[i].key@
                        &&& members[i].path == smol_chars(recorded@[i].path)
                        &&& members[i].typ == recorded@[i].typ@
                    }
            },
            (None, Step::Done(None)) => true,
            _ => false,
        },
        !cache.members.map().contains_key(t) ==> cache.members_of(t) == Step::<
            Option<Seq<MemberInfo>>,
            Question,
        >::Ask(Question::Members(t)),
{
}

/// A question has an answer where its own table records one.
pub proof fn law_answered(cache: LuaInferCache, id: LuaSyntaxId, t: Ty, u: Ty, params: Seq<Ty>)
    ensures
        cache.answered(Question::Expr(id)) <==> cache.exprs.map().contains_key(id),
        cache.answered(Question::Instantiate(t, params)) <==> cache.instances.map().contains_key(
            (t, params),
        ),
        cache.answered(Question::Compact(t, u)) <==> cache.compacts.map().contains_key((t, u)),
        cache.answered(Question::FlowChain(id)) <==> cache.flow_chains.map().contains_key(id),
        cache.answered(Question::Members(t)) <==> cache.members.map().contains_key(t),
        forall|name: Seq<char>| #[trigger]
            cache.answered(Question::AliasOrigin(name, params))
                <==> cache.alias_origins.map().contains_key((name, params)),
        forall|chain: u64, path: Seq<char>, position: u32| #[trigger]
            cache.answered(Question::TypeAsserts(chain, path, position))
                <==> cache.type_asserts.map().contains_key((chain, path, position)),
        forall|assertion: u64| #[trigger]
            cache.answered(Question::Tighten(assertion, t))
                <==> cache.tightenings.map().contains_key((assertion, t)),
{
}

// ---------------------------------------------------------------------------
// Declarations
// ---------------------------------------------------------------------------

/// A member is the one that its owner holds under the key.
pub proof fn law_member_lookup(db: DbIndex, owner: MemberOwner, key: MemberKey)
    ensures
        db.member(owner, key) is Some <==> db.members.map().contains_key((owner, key)),
        db.members.map().contains_key((owner, key)) ==> match db.members.map()[(owner, key)] {
            Some(t) => db.member(owner, key) == Some(Some(t@)),
            None => db.member(owner, key) == Some(None::<Ty>),
        },
{
}

/// A type is declared as its declaration says: as what it says, standing for
/// what it says, deriving from what is recorded for it, in order.
pub proof fn law_decl_lookup(db: DbIndex, id: Seq<char>)
    ensures
        db.decl_kind(id) is Some <==> db.type_decls.map().contains_key(id),
        db.type_decls.map().contains_key(id) ==> {
            let decl = db.type_decls.map()[id];
            &&& db.decl_kind(id) == Some(decl.kind)
            &&& match decl.alias_origin {
                Some(t) => db.alias_origin(id) == Some(t@),
                None => db.alias_origin(id) is None,
            }
        },
        match db.supers(id) {
            Some(supers) => {
                &&& db.super_types.map().contains_key(id)
                &&& supers.len() == db.super_types.map()[id]@.len()
                &&& forall|i: int|
                    0 <= i < supers.len() ==> #[trigger] supers[i]
                        == db.super_types.map()[id]@[i]@
            },
            None => !db.super_types.map().contains_key(id),
        },
{
}

/// The index operators of a type are those recorded for the index metamethod,
/// in order; other metamethods do not count.
pub proof fn law_operators_lookup(db: DbIndex, id: Seq<char>)
    ensures
        match db.index_operators(id) {
            None => !db.type_operators.map().contains_key(id),
            Some(None) => {
                &&& db.type_operators.map().contains_key(id)
                &&& !db.type_operators.map()[id].map().contains_key(LuaOperatorMetaMethod::Index)
            },
            Some(Some(ids)) => {
                &&& db.type_operators.map().contains_key(id)
                &&& db.type_operators.map()[id].map().contains_key(LuaOperatorMetaMethod::Index)
                &&& ids == db.type_operators.map()[id].map()[LuaOperatorMetaMethod::Index]@
            },
        },
{
}

/// An operator has the type of its first operand and the type of its result.
/// One without an operand counts as not declared.
pub proof fn law_operator_lookup(db: DbIndex, id: LuaOperatorId)
    ensures
        match db.operator(id) {
            Some((operand, result)) => {
                &&& db.operators.map().contains_key(id)
                &&& db.operators.map()[id].operands@.len() > 0
                &&& operand == db.operators.map()[id].operands@[0]@
                &&& result == db.operators.map()[id].result@
            },
            None => db.operators.map().contains_key(id) ==> db.operators.map()[id].operands@.len()
                == 0,
        },
{
}

/// A global variable has the type that its declaration records.
pub proof fn law_global_lookup(db: DbIndex, name: Seq<char>)
    ensures
        match db.global(name) {
            Some(t) => {
                &&& db.global_decls.map().contains_key(MemberKey::Name(name))
                &&& db.decls.map().contains_key(db.global_decls.map()[MemberKey::Name(name)])
                &&& match db.decls.map()[db.global_decls.map()[MemberKey::Name(name)]].typ {
                    Some(typ) => typ@ == t,
                    None => false,
                }
            },
            None => {
                ||| !db.global_decls.map().contains_key(MemberKey::Name(name))
                ||| !db.decls.map().contains_key(db.global_decls.map()[MemberKey::Name(name)])
                ||| db.decls.map()[db.global_decls.map()[MemberKey::Name(name)]].typ is None
            },
        },
{
}

// ---------------------------------------------------------------------------
// What values stand for
// ---------------------------------------------------------------------------

/// What a type without parts stands for keeps all that it holds.
pub proof fn law_type_stands_for(t: LuaType)
    ensures
        t matches LuaType::StringConst(s) ==> t@ == Ty::StringConst(smol_chars(s)),
        t matches LuaType::DocStringConst(s) ==> t@ == Ty::DocStringConst(smol_chars(s)),
        t matches LuaType::IntegerConst(i) ==> t@ == Ty::IntegerConst(i),
        t matches LuaType::FloatConst(b) ==> t@ == Ty::FloatConst(b),
        t matches LuaType::TableConst(r) ==> t@ == Ty::TableConst(r),
        t matches LuaType::Ref(id) ==> t@ == Ty::Ref(smol_chars(id.name)),
        t matches LuaType::Def(id) ==> t@ == Ty::Def(smol_chars(id.name)),
        t matches LuaType::Namespace(s) ==> t@ == Ty::Namespace(smol_chars(s)),
        t matches LuaType::Opaque(n) ==> t@ == Ty::Opaque(n),
        t is Unknown <==> t@ is Unknown,
        t is Any <==> t@ is Any,
        t is Nil <==> t@ is Nil,
        t is Boolean <==> t@ is Boolean,
        t is Integer <==> t@ is Integer,
        t is Number <==> t@ is Number,
        t is String <==> t@ is String,
        t is Table <==> t@ is Table,
        t is Function <==> t@ is Function,
        t is Thread <==> t@ is Thread,
        t is Userdata <==> t@ is Userdata,
        t is Io <==> t@ is Io,
        t is Global <==> t@ is Global,
{
}

/// What a type made of types stands for is made of what those stand for, all
/// of them and in order.
pub proof fn law_type_made_of(t: LuaType)
    ensures
        t matches LuaType::Array(base) ==> t@ == Ty::Array(Box::new((*base)@)),
        match (t, t@) {
            (LuaType::Tuple(v), Ty::Tuple(types)) => stand_for(v@, types),
            (LuaType::Union(v), Ty::Union(types)) => stand_for(v@, types),
            (LuaType::Intersection(v), Ty::Intersection(types)) => stand_for(v@, types),
            (LuaType::TableGeneric(v), Ty::TableGeneric(types)) => stand_for(v@, types),
            (LuaType::Generic(g), Ty::Generic(base, params)) => {
                *base == (*g.base)@ && stand_for(g.params@, params)
            },
            (LuaType::Instance(i), Ty::Instance(base, range)) => {
                *base == (*i.base)@ && range == i.range
            },
            (LuaType::Object(o), Ty::Object(fields, entries)) => {
                &&& fields.len() == o.fields@.len()
                &&& forall|i: int|
                    0 <= i < fields.len() ==> #[trigger] fields[i] == (
                        o.fields@[i].0@,
                        o.fields@[i].1@,
                    )
                &&& entries.len() == o.index_access@.len()
                &&& forall|i: int|
                    0 <= i < entries.len() ==> #[trigger] entries[i] == (
                        o.index_access@[i].0@,
                        o.index_access@[i].1@,
                    )
            },
            (
                LuaType::Tuple(_)
                | LuaType::Union(_)
                | LuaType::Intersection(_)
                | LuaType::TableGeneric(_)
                | LuaType::Generic(_)
                | LuaType::Instance(_)
                | LuaType::Object(_),
                _,
            ) => false,
            _ => true,
        },
{
    match t {
        LuaType::Tuple(v) => assert(t@ == Ty::Tuple(types_view(v))),
        LuaType::Union(v) => assert(t@ == Ty::Union(types_view(v))),
        LuaType::Intersection(v) => assert(t@ == Ty::Intersection(types_view(v))),
        LuaType::TableGeneric(v) => assert(t@ == Ty::TableGeneric(types_view(v))),
        LuaType::Generic(g) => {
            assert(t@ == Ty::Generic(Box::new((*g.base)@), types_view(g.params)));
        },
        LuaType::Object(o) => {
            assert(t@ == Ty::Object(fields_view(o.fields), pairs_view(o.index_access)));
        },
        _ => {},
    }
}

/// Whether types stand for what others are, one by one.
pub open spec fn stand_for(v: Seq<LuaType>, types: Seq<Ty>) -> bool {
    &&& types.len() == v.len()
    &&& forall|i: int| 0 <= i < types.len() ==> #[trigger] types[i] == v[i]@
}

/// A list of types, and an optional type, stand for what their types stand
/// for.
pub proof fn law_lists_stand_for(v: Vec<LuaType>, t: Option<LuaType>)
    ensures
        stand_for(v@, types_view(v)),
        match t {
            Some(t) => opt_view(Some(t)) == Some(t@),
            None => opt_view(None) is None,
        },
{
}

/// Strings are strings and numbers are numbers, whatever their value, and
/// nothing is both.
pub proof fn law_strings_and_numbers(t: Ty)
    ensures
        t.is_string() <==> (t == Ty::String || t is StringConst || t is DocStringConst),
        t.is_number() <==> (t == Ty::Number || t == Ty::Integer || t is IntegerConst
            || t is FloatConst),
        !(t.is_string() && t.is_number()),
        t.is_string() ==> builtin_decl(t) == Some("string"@),
        t is Io ==> builtin_decl(t) == Some("io"@),
        !t.is_string() && !(t is Io) ==> builtin_decl(t) is None,
{
}

/// Keys stand for what they hold. Names and string literals lead to the same
/// member, integers to that of the integer, and expressions to none.
pub proof fn law_keys_stand_for(k: LuaMemberKey, i: LuaIndexKey, e: LuaExpr)
    ensures
        k is Unnamed <==> k@ is Unnamed,
        k matches LuaMemberKey::Integer(n) ==> k@ == MemberKey::Integer(n),
        k matches LuaMemberKey::Name(n) ==> k@ == MemberKey::Name(smol_chars(n)),
        i matches LuaIndexKey::Name(n) ==> i@ == IndexKey::Name(smol_chars(n)),
        i matches LuaIndexKey::String(n) ==> i@ == IndexKey::String(smol_chars(n)),
        i matches LuaIndexKey::Integer(n) ==> i@ == IndexKey::Integer(n),
        i matches LuaIndexKey::Expr(e) ==> i@ == IndexKey::Expr(e.id()),
        i matches LuaIndexKey::Name(n) ==> i@.member_key() == MemberKey::Name(smol_chars(n)),
        i matches LuaIndexKey::String(n) ==> i@.member_key() == MemberKey::Name(smol_chars(n)),
        i matches LuaIndexKey::Integer(n) ==> i@.member_key() == MemberKey::Integer(n),
        i is Expr ==> i@.member_key() is Unnamed,
        e matches LuaExpr::TableExpr(table) ==> e.id() == table.id,
        e matches LuaExpr::CallExpr(id) ==> e.id() == id,
        e matches LuaExpr::IndexExpr(id) ==> e.id() == id,
        e matches LuaExpr::NameExpr(id) ==> e.id() == id,
        e matches LuaExpr::Other(id) ==> e.id() == id,
{
}

/// What a search reads is the declarations, the answers, the file and the key
/// that it is given.
pub proof fn law_scope(db: DbIndex, cache: LuaInferCache, expr: LuaIndexMemberExpr)
    ensures
        scope(db, cache, expr).db == db,
        scope(db, cache, expr).cache == cache,
        scope(db, cache, expr).root == *expr.root,
        match expr.key {
            Some(key) => scope(db, cache, expr).key == Some(key@),
            None => scope(db, cache, expr).key is None,
        },
{
}

/// Results, owners, slots and questions stand for what they hold.
pub proof fn law_questions_stand_for(q: Query, r: InferStep, c: CallStep, slot: LuaMemberSlot)
    ensures
        q matches Query::Expr(id) ==> q@ == Question::Expr(id),
        q matches Query::Instantiate(a) ==> q@ == Question::Instantiate(
            a.ty@,
            types_view(a.params),
        ),
        q matches Query::AliasOrigin(a) ==> q@ == Question::AliasOrigin(
            smol_chars(a.id.name),
            types_view(a.params),
        ),
        q matches Query::Compact(p) ==> q@ == Question::Compact(p.wanted@, p.given@),
        q matches Query::FlowChain(id) ==> q@ == Question::FlowChain(id),
        q matches Query::TypeAsserts(p) ==> q@ == Question::TypeAsserts(
            p.chain,
            smol_chars(p.path),
            p.position,
        ),
        q matches Query::Tighten(x) ==> q@ == Question::Tighten(x.assertion, x.ty@),
        q matches Query::Members(t) ==> q@ == Question::Members(t@),
        match r {
            Step::Done(Some(t)) => r@ == found(t@),
            Step::Done(None) => r@ == missing(),
            Step::Ask(q) => r@ == InferOut::Ask(q@),
            Step::Endless => r@ is Endless,
        },
        match c {
            Step::Done(Ok(t)) => c@ == CallOut::Done(Ok(t@)),
            Step::Done(Err(e)) => c@ == CallOut::Done(Err(e)),
            Step::Ask(q) => c@ == CallOut::Ask(q@),
            Step::Endless => c@ is Endless,
        },
        slot@.1 == slot.key@,
        match slot.owner {
            LuaMemberOwner::Element(range) => slot@.0 == MemberOwner::Element(range),
            LuaMemberOwner::Type(id) => slot@.0 == MemberOwner::Type(smol_chars(id.name)),
        },
{
}

} // verus!
