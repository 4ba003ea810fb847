//! What holds of calls of `setmetatable`.

use crate::cache::{CallOut, InferFailReason, LuaInferCache, MemberInfo, Question, Step};
use crate::infer_setmetatable::{
    any_index_covers, constructed_metatable, covers, has_path, includes, metatable_type,
    setmetatable_type, MetaOut,
};
use crate::syntax::{InFiled, LuaCallExpr, LuaExpr, LuaSyntaxId, LuaTableField};
use crate::types::{MemberKey, Ty};
use vstd::prelude::*;

verus! {

/// A call with other than two arguments can be of any type.
pub proof fn law_other_arity(cache: LuaInferCache, call: LuaCallExpr)
    requires
        call.args is Some,
        call.args.unwrap()@.len() != 2,
    ensures
        setmetatable_type(cache, call) == CallOut::Done(Ok(Ty::Any)),
{
}

/// An empty table with a metatable that has an `__index` is of the type of
/// that `__index`.
pub proof fn law_empty_table(cache: LuaInferCache, call: LuaCallExpr, meta: Ty)
    requires
        call.args is Some,
        call.args.unwrap()@.len() == 2,
        match call.args.unwrap()@[0] {
            LuaExpr::TableExpr(table) => table.fields@.len() == 0,
            _ => false,
        },
        metatable_type(cache, call.args.unwrap()@[1]) == (MetaOut::Done(
            Ok((meta, true)),
        )),
    ensures
        setmetatable_type(cache, call) == CallOut::Done(Ok(meta)),
{
}

/// A call without arguments fails without a reason.
pub proof fn law_no_arguments(cache: LuaInferCache, call: LuaCallExpr)
    requires
        call.args is None,
    ensures
        setmetatable_type(cache, call) == CallOut::Done(Err(InferFailReason::NoReason)),
{
}

/// Where the metatable has no type, the call has none for the same reason, and
/// what is asked for the metatable is asked for the call.
pub proof fn law_metatable_first(cache: LuaInferCache, call: LuaCallExpr)
    requires
        call.args is Some,
        call.args.unwrap()@.len() == 2,
    ensures
        match metatable_type(cache, call.args.unwrap()@[1]) {
            Step::Done(Err(e)) => setmetatable_type(cache, call) == CallOut::Done(Err(e)),
            Step::Ask(q) => setmetatable_type(cache, call) == CallOut::Ask(q),
            _ => true,
        },
{
}

/// A type has all members of a table exactly where each member of the table, at
/// whatever position, has the path of one of the members of the type.
pub proof fn law_covers(
    cache: LuaInferCache,
    t: Ty,
    table: LuaSyntaxId,
    outer: Seq<MemberInfo>,
    table_type: Ty,
    inner: Seq<MemberInfo>,
)
    requires
        cache.members_of(t) == Step::<Option<Seq<MemberInfo>>, Question>::Done(Some(outer)),
        cache.expr(table) == CallOut::Done(Ok(table_type)),
        cache.members_of(table_type) == Step::<Option<Seq<MemberInfo>>, Question>::Done(
            Some(inner),
        ),
    ensures
        match covers(cache, t, table) {
            Step::Done(Some(b)) => b <==> forall|i: int|
                0 <= i < inner.len() ==> exists|j: int|
                    0 <= j < outer.len() && (#[trigger] outer[j]).path == (
                    #[trigger] inner[i]).path,
            _ => false,
        },
{
    if includes(outer, inner) {
        assert forall|i: int| 0 <= i < inner.len() implies exists|j: int|
            0 <= j < outer.len() && (#[trigger] outer[j]).path == (#[trigger] inner[i]).path by {
            assert(has_path(outer, inner[i].path));
        }
    }
}

/// One member of a table that a type does not have is enough: the type does not
/// have all members of the table then.
pub proof fn law_one_member_too_many(
    cache: LuaInferCache,
    t: Ty,
    table: LuaSyntaxId,
    outer: Seq<MemberInfo>,
    table_type: Ty,
    inner: Seq<MemberInfo>,
    at: int,
)
    requires
        cache.members_of(t) == Step::<Option<Seq<MemberInfo>>, Question>::Done(Some(outer)),
        cache.expr(table) == CallOut::Done(Ok(table_type)),
        cache.members_of(table_type) == Step::<Option<Seq<MemberInfo>>, Question>::Done(
            Some(inner),
        ),
        0 <= at < inner.len(),
        forall|j: int| 0 <= j < outer.len() ==> (#[trigger] outer[j]).path != inner[at].path,
    ensures
        covers(cache, t, table) == Step::<Option<bool>, Question>::Done(Some(false)),
{
    law_covers(cache, t, table, outer, table_type, inner);
    assert(inner[at].path == inner[at].path);
}

/// Whether a type has all members of a table is not known where the members of
/// either, or the type of the table, are not. They are asked for in this order:
/// the members of the type, the type of the table, its members.
pub proof fn law_covers_unknown(cache: LuaInferCache, t: Ty, table: LuaSyntaxId)
    ensures
        match cache.members_of(t) {
            Step::Ask(q) => covers(cache, t, table) == Step::<Option<bool>, Question>::Ask(q),
            Step::Done(None) => covers(cache, t, table) == Step::<Option<bool>, Question>::Done(
                None,
            ),
            Step::Done(Some(_)) => match cache.expr(table) {
                Step::Ask(q) => covers(cache, t, table) == Step::<Option<bool>, Question>::Ask(q),
                Step::Done(Err(_)) => covers(cache, t, table) == Step::<
                    Option<bool>,
                    Question,
                >::Done(None),
                Step::Done(Ok(table_type)) => match cache.members_of(table_type) {
                    Step::Ask(q) => covers(cache, t, table) == Step::<
                        Option<bool>,
                        Question,
                    >::Ask(q),
                    Step::Done(None) => covers(cache, t, table) == Step::<
                        Option<bool>,
                        Question,
                    >::Done(None),
                    _ => true,
                },
                _ => true,
            },
            _ => true,
        },
{
}

/// Whether a member is an `__index`.
pub open spec fn is_index(member: MemberInfo) -> bool {
    member.key == MemberKey::Name("__index"@)
}

/// What is known of whether the type of a member has all members of the
/// table.
pub open spec fn known(
    cache: LuaInferCache,
    member: MemberInfo,
    table: LuaSyntaxId,
    b: bool,
) -> bool {
    covers(cache, member.typ, table) == Step::<Option<bool>, Question>::Done(Some(b))
}

proof fn lemma_first_covers(
    cache: LuaInferCache,
    members: Seq<MemberInfo>,
    table: LuaSyntaxId,
    at: int,
)
    requires
        0 <= at <= members.len(),
        forall|i: int|
            0 <= i < at && is_index(#[trigger] members[i]) ==> known(
                cache,
                members[i],
                table,
                false,
            ),
        at < members.len() ==> is_index(members[at]) && known(cache, members[at], table, true),
    ensures
        any_index_covers(cache, members, table) == Step::<bool, Question>::Done(
            at < members.len(),
        ),
    decreases at,
{
    if at > 0 {
        let tail = members.drop_first();
        assert(is_index(members[0]) ==> known(cache, members[0], table, false));
        assert forall|i: int| 0 <= i < at - 1 && is_index(#[trigger] tail[i]) implies known(
            cache,
            tail[i],
            table,
            false,
        ) by {
            assert(tail[i] == members[i + 1]);
        }
        lemma_first_covers(cache, tail, table, at - 1);
    }
}

/// A table constructor is of the type of its metatable if the type of an
/// `__index` of the metatable has all of its members, and else of its own type.
/// `at` is the first such `__index`; it is the number of the members of the
/// metatable if there is none. Left out is an empty table whose metatable gives
/// the type of an `__index` field.
pub proof fn law_described_table(
    cache: LuaInferCache,
    call: LuaCallExpr,
    meta: Ty,
    from_index: bool,
    members: Seq<MemberInfo>,
    at: int,
)
    requires
        call.args is Some,
        call.args.unwrap()@.len() == 2,
        match call.args.unwrap()@[0] {
            LuaExpr::TableExpr(table) => !(table.fields@.len() == 0 && from_index),
            _ => false,
        },
        metatable_type(cache, call.args.unwrap()@[1]) == (MetaOut::Done(
            Ok((meta, from_index)),
        )),
        cache.members_of(meta) == Step::<
            Option<Seq<MemberInfo>>,
            Question,
        >::Done(Some(members)),
        0 <= at <= members.len(),
        forall|i: int|
            0 <= i < at && is_index(#[trigger] members[i]) ==> known(
                cache,
                members[i],
                call.args.unwrap()@[0].id(),
                false,
            ),
        at < members.len() ==> is_index(members[at]) && known(
            cache,
            members[at],
            call.args.unwrap()@[0].id(),
            true,
        ),
    ensures
        setmetatable_type(cache, call) == CallOut::Done(
            Ok(
                if at < members.len() {
                    meta
                } else {
                    Ty::TableConst(
                        InFiled {
                            file_id: cache.file_id,
                            value: call.args.unwrap()@[0].id().range,
                        },
                    )
                },
            ),
        ),
{
    lemma_first_covers(cache, members, call.args.unwrap()@[0].id(), at);
}

proof fn lemma_first_unknown(
    cache: LuaInferCache,
    members: Seq<MemberInfo>,
    table: LuaSyntaxId,
    at: int,
)
    requires
        0 <= at < members.len(),
        forall|i: int|
            0 <= i < at && is_index(#[trigger] members[i]) ==> known(
                cache,
                members[i],
                table,
                false,
            ),
        is_index(members[at]),
    ensures
        match covers(cache, members[at].typ, table) {
            Step::Done(None) => any_index_covers(cache, members, table) == Step::<
                bool,
                Question,
            >::Done(false),
            Step::Ask(q) => any_index_covers(cache, members, table) == Step::<
                bool,
                Question,
            >::Ask(q),
            _ => true,
        },
    decreases at,
{
    if at > 0 {
        let tail = members.drop_first();
        assert(is_index(members[0]) ==> known(cache, members[0], table, false));
        assert forall|i: int| 0 <= i < at - 1 && is_index(#[trigger] tail[i]) implies known(
            cache,
            tail[i],
            table,
            false,
        ) by {
            assert(tail[i] == members[i + 1]);
        }
        lemma_first_unknown(cache, tail, table, at - 1);
    }
}

/// The first `__index` of which it is not known whether its type has all members
/// of a table constructor ends the search: the table is of its own type, or, if
/// that can be asked for, it is asked for. `at` is that `__index`. Where the
/// members of the metatable are not known, the same holds.
pub proof fn law_undescribed_table(
    cache: LuaInferCache,
    call: LuaCallExpr,
    meta: Ty,
    from_index: bool,
    at: int,
)
    requires
        call.args is Some,
        call.args.unwrap()@.len() == 2,
        match call.args.unwrap()@[0] {
            LuaExpr::TableExpr(table) => !(table.fields@.len() == 0 && from_index),
            _ => false,
        },
        metatable_type(cache, call.args.unwrap()@[1]) == (MetaOut::Done(
            Ok((meta, from_index)),
        )),
        match cache.members_of(meta) {
            Step::Done(Some(members)) => {
                &&& 0 <= at < members.len()
                &&& is_index(members[at])
                &&& forall|i: int|
                    0 <= i < at && is_index(#[trigger] members[i]) ==> known(
                        cache,
                        members[i],
                        call.args.unwrap()@[0].id(),
                        false,
                    )
            },
            _ => true,
        },
    ensures
        ({
            let table = call.args.unwrap()@[0].id();
            let own = CallOut::Done(
                Ok(Ty::TableConst(InFiled { file_id: cache.file_id, value: table.range })),
            );
            match cache.members_of(meta) {
                Step::Done(None) => setmetatable_type(cache, call) == own,
                Step::Ask(q) => setmetatable_type(cache, call) == CallOut::Ask(q),
                Step::Done(Some(members)) => match covers(cache, members[at].typ, table) {
                    Step::Done(None) => setmetatable_type(cache, call) == own,
                    Step::Ask(q) => setmetatable_type(cache, call) == CallOut::Ask(q),
                    _ => true,
                },
                _ => true,
            }
        }),
{
    if let Step::Done(Some(members)) = cache.members_of(meta) {
        lemma_first_unknown(cache, members, call.args.unwrap()@[0].id(), at);
    }
}

/// A value that is not a table constructor takes the type of its metatable,
/// unless nothing is known of that.
pub proof fn law_other_value(cache: LuaInferCache, call: LuaCallExpr, meta: Ty, from_index: bool)
    requires
        call.args is Some,
        call.args.unwrap()@.len() == 2,
        !(call.args.unwrap()@[0] is TableExpr),
        metatable_type(cache, call.args.unwrap()@[1]) == (MetaOut::Done(
            Ok((meta, from_index)),
        )),
    ensures
        setmetatable_type(cache, call) == (if meta is Unknown {
            cache.expr(call.args.unwrap()@[0].id())
        } else {
            CallOut::Done(Ok(meta))
        }),
{
}

proof fn lemma_constructed_metatable_kept(
    c1: LuaInferCache,
    c2: LuaInferCache,
    fields: Seq<LuaTableField>,
    table: LuaSyntaxId,
)
    requires
        c2.keeps(c1),
    ensures
        constructed_metatable(c1, fields, table) is Done ==> constructed_metatable(
            c2,
            fields,
            table,
        ) == constructed_metatable(c1, fields, table),
    decreases fields.len(),
{
    if fields.len() > 0 {
        lemma_constructed_metatable_kept(c1, c2, fields.drop_first(), table);
    }
}

proof fn lemma_any_index_covers_kept(
    c1: LuaInferCache,
    c2: LuaInferCache,
    members: Seq<MemberInfo>,
    table: LuaSyntaxId,
)
    requires
        c2.keeps(c1),
    ensures
        any_index_covers(c1, members, table) is Done ==> any_index_covers(c2, members, table)
            == any_index_covers(c1, members, table),
    decreases members.len(),
{
    if members.len() > 0 {
        lemma_any_index_covers_kept(c1, c2, members.drop_first(), table);
    }
}

/// The type of a call of `setmetatable`, once inferred, stays the same when
/// more answers are given.
pub proof fn law_setmetatable_is_kept(c1: LuaInferCache, c2: LuaInferCache, call: LuaCallExpr)
    requires
        c2.keeps(c1),
        c2.file_id == c1.file_id,
        setmetatable_type(c1, call) is Done,
    ensures
        setmetatable_type(c2, call) == setmetatable_type(c1, call),
{
    if let Some(args) = call.args {
        if args@.len() == 2 {
            if let LuaExpr::TableExpr(table) = args@[1] {
                lemma_constructed_metatable_kept(c1, c2, table.fields@, table.id);
            }
            if let Step::Done(Ok((meta, _))) = metatable_type(c1, args@[1]) {
                if let Step::Done(Some(members)) = c1.members_of(meta) {
                    lemma_any_index_covers_kept(c1, c2, members, args@[0].id());
                }
            }
        }
    }
}

} // verus!
