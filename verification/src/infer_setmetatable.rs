//! Inference of the type of a call of `setmetatable`.

use crate::cache::{
    infos_view, CallOut, CallStep, InferFailReason, LuaInferCache, LuaMemberInfo, MemberInfo, Query,
    Question, Step,
};
use crate::syntax::{InFiled, LuaCallExpr, LuaExpr, LuaIndexKey, LuaSyntaxId, LuaTableField};
use crate::text::{smol_as_str, smol_chars, smol_same, str_same};
use crate::types::{LuaType, MemberKey, Ty};
use smol_str::SmolStr;
use vstd::prelude::*;

verus! {

// ---------------------------------------------------------------------------
// What the inference means
// ---------------------------------------------------------------------------

/// A metatable, as far as it is known: the type that it gives, and whether
/// that is the type of its `__index` field.
pub type MetaOut = Step<Result<(Ty, bool), InferFailReason>, Question>;

/// The name of a field that has one.
pub open spec fn field_name(field: LuaTableField) -> Option<Seq<char>> {
    match field.key {
        Some(LuaIndexKey::Name(name)) => Some(smol_chars(name)),
        Some(LuaIndexKey::String(name)) => Some(smol_chars(name)),
        _ => None,
    }
}

/// An expression that can be a table: a constructor, a call, an index or a
/// name.
pub open spec fn may_be_table(expr: LuaExpr) -> bool {
    !(expr is Other)
}

/// The type of an expression, marked.
pub open spec fn marked(out: CallOut, is_index: bool) -> MetaOut {
    match out {
        Step::Done(Ok(t)) => Step::Done(Ok((t, is_index))),
        Step::Done(Err(e)) => Step::Done(Err(e)),
        Step::Ask(q) => Step::Ask(q),
        Step::Endless => Step::Endless,
    }
}

/// The metatable whose constructor has the given fields: the type of its
/// first `__index` field that can be a table, else its own type.
pub open spec fn constructed_metatable(
    cache: LuaInferCache,
    fields: Seq<LuaTableField>,
    table: LuaSyntaxId,
) -> MetaOut
    decreases fields.len(),
{
    if fields.len() == 0 {
        marked(cache.expr(table), false)
    } else if field_name(fields[0]) == Some("__index"@) {
        match fields[0].value {
            None => Step::Done(Err(InferFailReason::NoReason)),
            Some(value) => if may_be_table(value) {
                marked(cache.expr(value.id()), true)
            } else {
                constructed_metatable(cache, fields.drop_first(), table)
            },
        }
    } else {
        constructed_metatable(cache, fields.drop_first(), table)
    }
}

/// What an expression gives as a metatable.
pub open spec fn metatable_type(cache: LuaInferCache, metatable: LuaExpr) -> MetaOut {
    match metatable {
        LuaExpr::TableExpr(table) => constructed_metatable(cache, table.fields@, table.id),
        other => marked(cache.expr(other.id()), false),
    }
}

/// Whether every member of `inner` is a member of `outer`, by path.
pub open spec fn includes(outer: Seq<MemberInfo>, inner: Seq<MemberInfo>) -> bool {
    forall|i: int| 0 <= i < inner.len() ==> has_path(outer, (#[trigger] inner[i]).path)
}

/// Whether one of the members has the given path.
pub open spec fn has_path(members: Seq<MemberInfo>, path: Seq<char>) -> bool {
    exists|i: int| 0 <= i < members.len() && (#[trigger] members[i]).path == path
}

/// Whether the type has all members of the table; `None` where the members
/// of either are not known.
pub open spec fn covers(cache: LuaInferCache, t: Ty, table: LuaSyntaxId) -> Step<
    Option<bool>,
    Question,
> {
    match cache.members_of(t) {
        Step::Done(Some(outer)) => match cache.expr(table) {
            Step::Done(Ok(table_type)) => match cache.members_of(table_type) {
                Step::Done(Some(inner)) => Step::Done(Some(includes(outer, inner))),
                Step::Done(None) => Step::Done(None),
                Step::Ask(q) => Step::Ask(q),
                Step::Endless => Step::Endless,
            },
            Step::Done(Err(_)) => Step::Done(None),
            Step::Ask(q) => Step::Ask(q),
            Step::Endless => Step::Endless,
        },
        Step::Done(None) => Step::Done(None),
        Step::Ask(q) => Step::Ask(q),
        Step::Endless => Step::Endless,
    }
}

/// Whether one of the members is an `__index` whose type has all members of
/// the table. The first whose members are not known ends the search.
pub open spec fn any_index_covers(
    cache: LuaInferCache,
    members: Seq<MemberInfo>,
    table: LuaSyntaxId,
) -> Step<bool, Question>
    decreases members.len(),
{
    if members.len() == 0 {
        Step::Done(false)
    } else if members[0].key == MemberKey::Name("__index"@) {
        match covers(cache, members[0].typ, table) {
            Step::Done(Some(true)) => Step::Done(true),
            Step::Done(Some(false)) => any_index_covers(cache, members.drop_first(), table),
            Step::Done(None) => Step::Done(false),
            Step::Ask(q) => Step::Ask(q),
            Step::Endless => Step::Endless,
        }
    } else {
        any_index_covers(cache, members.drop_first(), table)
    }
}

/// Whether a metatable describes the table: all members of the table are
/// members of an `__index` of the metatable.
pub open spec fn describes(cache: LuaInferCache, meta: Ty, table: LuaSyntaxId) -> Step<
    bool,
    Question,
> {
    match cache.members_of(meta) {
        Step::Done(Some(members)) => any_index_covers(cache, members, table),
        Step::Done(None) => Step::Done(false),
        Step::Ask(q) => Step::Ask(q),
        Step::Endless => Step::Endless,
    }
}

/// The type of `setmetatable(table, metatable)`, given what the metatable
/// gives.
pub open spec fn with_metatable(
    cache: LuaInferCache,
    table: LuaExpr,
    meta: Ty,
    is_index: bool,
) -> CallOut {
    match table {
        LuaExpr::TableExpr(table) => if table.fields@.len() == 0 && is_index {
            Step::Done(Ok(meta))
        } else {
            match describes(cache, meta, table.id) {
                Step::Done(true) => Step::Done(Ok(meta)),
                Step::Done(false) => Step::Done(
                    Ok(
                        Ty::TableConst(
                            InFiled { file_id: cache.file_id, value: table.id.range },
                        ),
                    ),
                ),
                Step::Ask(q) => Step::Ask(q),
                Step::Endless => Step::Endless,
            }
        },
        other => if meta is Unknown {
            cache.expr(other.id())
        } else {
            Step::Done(Ok(meta))
        },
    }
}

/// The type of a call of `setmetatable`.
pub open spec fn setmetatable_type(cache: LuaInferCache, call: LuaCallExpr) -> CallOut {
    match call.args {
        None => Step::Done(Err(InferFailReason::NoReason)),
        Some(args) => if args@.len() != 2 {
            Step::Done(Ok(Ty::Any))
        } else {
            match metatable_type(cache, args@[1]) {
                Step::Done(Ok((meta, is_index))) => with_metatable(
                    cache,
                    args@[0],
                    meta,
                    is_index,
                ),
                Step::Done(Err(e)) => Step::Done(Err(e)),
                Step::Ask(q) => Step::Ask(q),
                Step::Endless => Step::Endless,
            }
        },
    }
}

// ---------------------------------------------------------------------------
// The inference
// ---------------------------------------------------------------------------

/// A metatable, as far as it is known.
type MetaStep = Step<Result<(LuaType, bool), InferFailReason>, Query>;

/// What a [`MetaStep`] stands for.
spec fn meta_view(step: MetaStep) -> MetaOut {
    match step {
        Step::Done(Ok((t, is_index))) => Step::Done(Ok((t@, is_index))),
        Step::Done(Err(e)) => Step::Done(Err(e)),
        Step::Ask(q) => Step::Ask(q@),
        Step::Endless => Step::Endless,
    }
}

/// The type of an expression, marked.
fn infer_marked(cache: &LuaInferCache, expr: &LuaExpr, is_index: bool) -> (r: MetaStep)
    ensures
        meta_view(r) == marked(cache.expr(expr.id()), is_index),
{
    match cache.infer_expr(expr) {
        Step::Done(Ok(t)) => Step::Done(Ok((t, is_index))),
        Step::Done(Err(e)) => Step::Done(Err(e)),
        Step::Ask(q) => Step::Ask(q),
        Step::Endless => Step::Endless,
    }
}

/// Whether a field is named `__index`.
fn is_index_field(field: &LuaTableField) -> (r: bool)
    ensures
        r == (field_name(*field) == Some("__index"@)),
{
    let name = match &field.key {
        Some(LuaIndexKey::Name(name)) => name,
        Some(LuaIndexKey::String(name)) => name,
        _ => return false,
    };
    str_same(smol_as_str(name), "__index")
}

/// What an expression gives as a metatable.
fn infer_metatable_index_type(cache: &LuaInferCache, metatable: &LuaExpr) -> (r: MetaStep)
    ensures
        meta_view(r) == metatable_type(*cache, *metatable),
{
    if let LuaExpr::TableExpr(table) = metatable {
        let fields = &table.fields;
        let mut i: usize = 0;
        assert(fields@.skip(0) =~= fields@);
        while i < fields.len()
            invariant
                i <= fields@.len(),
                *metatable == LuaExpr::TableExpr(*table),
                fields@ == table.fields@,
                constructed_metatable(*cache, fields@, table.id) == constructed_metatable(
                    *cache,
                    fields@.skip(i as int),
                    table.id,
                ),
            decreases fields@.len() - i,
        {
            assert(fields@.skip(i as int)[0] == fields@[i as int]);
            assert(fields@.skip(i as int).drop_first() =~= fields@.skip(i + 1));
            if is_index_field(&fields[i]) {
                match &fields[i].value {
                    None => return Step::Done(Err(InferFailReason::NoReason)),
                    Some(LuaExpr::Other(_)) => {},
                    Some(value) => return infer_marked(cache, value, true),
                }
            }
            i += 1;
        }
    }
    infer_marked(cache, metatable, false)
}

/// Whether one of the members has the given path.
fn contains_path(members: &Vec<LuaMemberInfo>, path: &SmolStr) -> (r: bool)
    ensures
        r == has_path(infos_view(*members), smol_chars(*path)),
{
    let mut i: usize = 0;
    while i < members.len()
        invariant
            i <= members@.len(),
            forall|j: int|
                0 <= j < i ==> (#[trigger] infos_view(*members)[j]).path != smol_chars(*path),
        decreases members@.len() - i,
    {
        assert(infos_view(*members)[i as int].path == smol_chars(members@[i as int].path));
        if smol_same(&members[i].path, path) {
            return true;
        }
        i += 1;
    }
    false
}

/// Whether every member of `inner` is a member of `outer`, by path.
fn contains_all(outer: &Vec<LuaMemberInfo>, inner: &Vec<LuaMemberInfo>) -> (r: bool)
    ensures
        r == includes(infos_view(*outer), infos_view(*inner)),
{
    let mut i: usize = 0;
    while i < inner.len()
        invariant
            i <= inner@.len(),
            forall|j: int|
                0 <= j < i ==> has_path(
                    infos_view(*outer),
                    (#[trigger] infos_view(*inner)[j]).path,
                ),
        decreases inner@.len() - i,
    {
        assert(infos_view(*inner)[i as int].path == smol_chars(inner@[i as int].path));
        if !contains_path(outer, &inner[i].path) {
            return false;
        }
        i += 1;
    }
    true
}

/// Whether the type has all members of the table.
fn type_covers_table(cache: &LuaInferCache, t: &LuaType, table: &LuaExpr) -> (r: Step<
    Option<bool>,
    Query,
>)
    ensures
        match r {
            Step::Done(b) => covers(*cache, t@, table.id()) == Step::<
                Option<bool>,
                Question,
            >::Done(b),
            Step::Ask(q) => covers(*cache, t@, table.id()) == Step::<
                Option<bool>,
                Question,
            >::Ask(q@),
            Step::Endless => false,
        },
{
    let outer = match cache.infer_members(t) {
        Step::Done(Some(outer)) => outer,
        Step::Done(None) => return Step::Done(None),
        Step::Ask(q) => return Step::Ask(q),
        Step::Endless => return Step::Endless,
    };
    let table_type = match cache.infer_expr(table) {
        Step::Done(Ok(table_type)) => table_type,
        Step::Done(Err(_)) => return Step::Done(None),
        Step::Ask(q) => return Step::Ask(q),
        Step::Endless => return Step::Endless,
    };
    match cache.infer_members(&table_type) {
        Step::Done(Some(inner)) => Step::Done(Some(contains_all(outer, inner))),
        Step::Done(None) => Step::Done(None),
        Step::Ask(q) => Step::Ask(q),
        Step::Endless => Step::Endless,
    }
}

/// Whether a metatable describes the table.
fn meta_type_contain_table(cache: &LuaInferCache, meta: &LuaType, table: &LuaExpr) -> (r: Step<
    bool,
    Query,
>)
    ensures
        match r {
            Step::Done(b) => describes(*cache, meta@, table.id()) == Step::<
                bool,
                Question,
            >::Done(b),
            Step::Ask(q) => describes(*cache, meta@, table.id()) == Step::<
                bool,
                Question,
            >::Ask(q@),
            Step::Endless => false,
        },
{
    let members = match cache.infer_members(meta) {
        Step::Done(Some(members)) => members,
        Step::Done(None) => return Step::Done(false),
        Step::Ask(q) => return Step::Ask(q),
        Step::Endless => return Step::Endless,
    };
    let ghost infos = infos_view(*members);
    let mut i: usize = 0;
    assert(infos.skip(0) =~= infos);
    while i < members.len()
        invariant
            i <= members@.len(),
            infos == infos_view(*members),
            describes(*cache, meta@, table.id()) == any_index_covers(*cache, infos, table.id()),
            any_index_covers(*cache, infos, table.id()) == any_index_covers(
                *cache,
                infos.skip(i as int),
                table.id(),
            ),
        decreases members@.len() - i,
    {
        assert(infos.skip(i as int)[0] == infos[i as int]);
        assert(infos.skip(i as int).drop_first() =~= infos.skip(i + 1));
        let is_index = match members[i].key.get_name() {
            Some(name) => str_same(smol_as_str(name), "__index"),
            None => false,
        };
        if is_index {
            match type_covers_table(cache, &members[i].typ, table) {
                Step::Done(Some(true)) => return Step::Done(true),
                Step::Done(Some(false)) => {},
                Step::Done(None) => return Step::Done(false),
                Step::Ask(q) => return Step::Ask(q),
                Step::Endless => return Step::Endless,
            }
        }
        i += 1;
    }
    Step::Done(false)
}

/// The type of a call of `setmetatable`.
pub fn infer_setmetatable_call(cache: &LuaInferCache, call_expr: &LuaCallExpr) -> (r: CallStep)
    ensures
        r@ == setmetatable_type(*cache, *call_expr),
{
    let args = match &call_expr.args {
        Some(args) => args,
        None => return Step::Done(Err(InferFailReason::NoReason)),
    };
    if args.len() != 2 {
        return Step::Done(Ok(LuaType::Any));
    }
    let basic_table = &args[0];
    let (meta_type, is_index) = match infer_metatable_index_type(cache, &args[1]) {
        Step::Done(Ok(meta)) => meta,
        Step::Done(Err(e)) => return Step::Done(Err(e)),
        Step::Ask(q) => return Step::Ask(q),
        Step::Endless => return Step::Endless,
    };
    match basic_table {
        LuaExpr::TableExpr(table) => {
            if table.fields.len() == 0 && is_index {
                return Step::Done(Ok(meta_type));
            }
            match meta_type_contain_table(cache, &meta_type, basic_table) {
                Step::Done(true) => Step::Done(Ok(meta_type)),
                Step::Done(false) => Step::Done(
                    Ok(
                        LuaType::TableConst(
                            InFiled { file_id: cache.file_id, value: table.id.range },
                        ),
                    ),
                ),
                Step::Ask(q) => Step::Ask(q),
                Step::Endless => Step::Endless,
            }
        },
        _ => {
            if meta_type.is_unknown() {
                return cache.infer_expr(basic_table);
            }
            Step::Done(Ok(meta_type))
        },
    }
}

} // verus!
