//! Inference of the type of a member: of `t.name`, `t["text"]`, `t[1]` and
//! `t[expr]`.

use crate::cache::{InferGuard, InferOut, InferStep, LuaInferCache, Question, Step};
use crate::db::{clone_opt, opt_view, DbIndex, LuaDeclTypeKind, LuaOperatorId};
use crate::laws::guard::{
    law_by_key_keeps_visited, law_by_operator_keeps_visited, lemma_first_operator_ends,
    lemma_flow_type_ends, lemma_index_access_ends,
};
use crate::model::{
    applied, applied_by_operator, array_element, by_key, by_key_comes_to, by_operator,
    by_operator_comes_to, decl_by_key, decl_by_operator, each_by_key, each_by_operator, entry_type,
    field_type, first_applied_by_operator, first_open, first_operator, flow_type, found_types,
    generic_by_operator, generic_supers_by_operator, global_member, index_access, index_type,
    index_type_comes_to, instance_of, intersection_of, key_match, matched, member_type,
    member_type_comes_to, missing, namespace_member, object_element, object_member, qualified,
    scope, supers_by_key, supers_by_operator, table_element, table_generic_element, table_member,
    tightened, tuple_member, union_of, union_type, KeyMatch,
};
use crate::reach::{
    by_key_circles, by_operator_circles, holds_all, holds_parts, lemma_by_key_circles,
    lemma_by_key_comes_to, lemma_by_key_same, lemma_by_key_unwinds, lemma_by_operator_circles,
    lemma_by_operator_comes_to, lemma_by_operator_same, lemma_by_operator_unwinds, lemma_reach,
    shells, some_by_key_ends, some_by_operator_ends, Reach,
};
use crate::syntax::{
    InFiled, LuaIndexExpr, LuaIndexKey, LuaIndexMemberExpr, LuaSyntaxId, LuaSyntaxKind,
};
use crate::table::TableKey;
use crate::text::{smol_as_str, smol_chars, smol_new};
use crate::types::{
    builtin_decl, fields_view, get_buildin_type_map_type_id, pairs_view, types_view,
    LuaGenericType, LuaInstanceType, LuaMemberOwner, LuaObjectType, LuaType, LuaTypeDeclId, Ty,
};
use smol_str::SmolStr;
use vstd::prelude::*;

verus! {

// ---------------------------------------------------------------------------
// Several results at once
// ---------------------------------------------------------------------------

/// Where the results before `i` are results, the first that is none yet is
/// at `i` or later.
proof fn lemma_first_open(outs: Seq<InferOut>, i: int)
    requires
        0 <= i <= outs.len(),
        forall|j: int| 0 <= j < i ==> (#[trigger] outs[j]) is Done,
    ensures
        i == outs.len() ==> first_open(outs) is None,
        i < outs.len() && !(outs[i] is Done) ==> first_open(outs) == Some(outs[i]),
    decreases i,
{
    if i > 0 {
        let tail = outs.drop_first();
        assert(outs[0] is Done);
        assert forall|j: int| 0 <= j < i - 1 implies (#[trigger] tail[j]) is Done by {
            assert(tail[j] == outs[j + 1]);
        }
        lemma_first_open(tail, i - 1);
    }
}

/// One more result, one more type if it is one.
proof fn lemma_found_types(outs: Seq<InferOut>, i: int)
    requires
        0 <= i < outs.len(),
    ensures
        found_types(outs.take(i + 1)) == (match outs[i] {
            Step::Done(Some(t)) => found_types(outs.take(i)).push(t),
            _ => found_types(outs.take(i)),
        }),
{
    assert(outs.take(i + 1).drop_last() =~= outs.take(i));
}

/// The union of types: nothing of none, the type itself of one.
fn make_union(types: Vec<LuaType>) -> (r: Option<LuaType>)
    ensures
        opt_view(r) == union_type(types_view(types)),
{
    if types.len() == 0 {
        return None;
    }
    if types.len() == 1 {
        return Some(types[0].clone());
    }
    Some(LuaType::Union(types))
}

/// Adds a result to a union.
fn push_found(types: &mut Vec<LuaType>, t: Option<LuaType>)
    ensures
        types_view(*final(types)) == (match opt_view(t) {
            Some(t) => types_view(*old(types)).push(t),
            None => types_view(*old(types)),
        }),
{
    if let Some(t) = t {
        types.push(t);
        assert(types_view(*types) =~= types_view(*old(types)).push(t@));
    }
}

// ---------------------------------------------------------------------------
// Keys against key types
// ---------------------------------------------------------------------------

/// Whether a key is of a key type.
enum KeyStep {
    Hit,
    Pass,
    Stop(InferStep),
}

impl View for KeyStep {
    type V = KeyMatch;

    closed spec fn view(&self) -> KeyMatch {
        match self {
            KeyStep::Hit => KeyMatch::Hit,
            KeyStep::Pass => KeyMatch::Pass,
            KeyStep::Stop(out) => KeyMatch::Stop(out@),
        }
    }
}

/// Whether the key is of the given type.
fn match_key(
    cache: &LuaInferCache,
    key_type: &LuaType,
    exact: &LuaType,
    key: &LuaIndexKey,
) -> (r: KeyStep)
    ensures
        r@ == key_match(*cache, key_type@, exact@, key@),
{
    let string = key_type.is_string();
    let number = key_type.is_number();
    match key {
        LuaIndexKey::Name(_) | LuaIndexKey::String(_) => {
            if string {
                KeyStep::Hit
            } else {
                KeyStep::Pass
            }
        },
        LuaIndexKey::Integer(_) => {
            if !string && number {
                KeyStep::Hit
            } else {
                KeyStep::Pass
            }
        },
        LuaIndexKey::Expr(expr) => {
            match cache.infer_expr_type(expr) {
                Step::Done(Some(t)) => {
                    let hit = if string {
                        t.is_string()
                    } else if number {
                        t.is_number()
                    } else {
                        t.same(exact)
                    };
                    if hit {
                        KeyStep::Hit
                    } else {
                        KeyStep::Pass
                    }
                },
                Step::Done(None) => KeyStep::Stop(Step::Done(None)),
                Step::Ask(q) => KeyStep::Stop(Step::Ask(q)),
                Step::Endless => KeyStep::Stop(Step::Endless),
            }
        },
    }
}

/// The member, if its key matches, has the type `t`.
fn when_matched(m: KeyStep, t: &LuaType) -> (r: InferStep)
    ensures
        r@ == matched(m@, t@),
{
    match m {
        KeyStep::Hit => Step::Done(Some(t.clone())),
        KeyStep::Pass => Step::Done(None),
        KeyStep::Stop(out) => out,
    }
}

// ---------------------------------------------------------------------------
// Searches that wait for one another
// ---------------------------------------------------------------------------

/// The types whose searches have started and wait for the present one, the
/// last first.
struct Trail<'a> {
    ty: &'a LuaType,
    up: Option<&'a Trail<'a>>,
}

/// The types on a trail.
spec fn trail_types(trail: Option<&Trail>) -> Set<Ty>
    decreases trail,
{
    match trail {
        Some(here) => trail_types(here.up).insert(here.ty@),
        None => Set::empty(),
    }
}

/// Whether a type is on the trail.
fn on_trail(trail: Option<&Trail>, t: &LuaType) -> (r: bool)
    ensures
        r == trail_types(trail).contains(t@),
    decreases trail,
{
    match trail {
        Some(here) => here.ty.same(t) || on_trail(here.up, t),
        None => false,
    }
}

/// Whether a result is another or has been cut off.
spec fn cut(out: InferOut, whole: InferOut) -> bool {
    out is Endless || out == whole
}

/// A union waits for its first part that is cut off.
proof fn lemma_union_cut(outs: Seq<InferOut>, others: Seq<InferOut>, i: int)
    requires
        outs.len() == others.len(),
        0 <= i < outs.len(),
        forall|j: int| 0 <= j < i ==> (#[trigger] outs[j]) is Done,
        forall|j: int| 0 <= j < i ==> cut(#[trigger] others[j], outs[j]),
    ensures
        others[i] is Endless ==> union_of(others) is Endless,
    decreases i,
{
    if i > 0 {
        let tail = outs.drop_first();
        let rest = others.drop_first();
        assert(cut(others[0], outs[0]));
        assert forall|j: int| 0 <= j < i - 1 implies (#[trigger] tail[j]) is Done by {
            assert(tail[j] == outs[j + 1]);
        }
        assert forall|j: int| 0 <= j < i - 1 implies cut(#[trigger] rest[j], tail[j]) by {
            assert(rest[j] == others[j + 1]);
        }
        lemma_union_cut(tail, rest, i - 1);
    }
}

// ---------------------------------------------------------------------------
// Members by key
// ---------------------------------------------------------------------------

/// The member of a table literal.
fn infer_table_member(db: &DbIndex, range: InFiled, expr: &LuaIndexMemberExpr) -> (r: InferStep)
    ensures
        r@ == table_member(*db, expr.index_key(), range),
{
    match &expr.key {
        Some(key) => match db.get_member(LuaMemberOwner::Element(range), key.to_member_key()) {
            Some(t) => Step::Done(clone_opt(t)),
            None => Step::Done(None),
        },
        None => Step::Done(None),
    }
}

/// The member of a tuple.
fn infer_tuple_member(types: &Vec<LuaType>, expr: &LuaIndexMemberExpr) -> (r: InferStep)
    ensures
        r@ == tuple_member(expr.index_key(), types_view(*types)),
{
    if let Some(LuaIndexKey::Integer(i)) = &expr.key {
        let at: u64 = if *i > 0 {
            (*i - 1) as u64
        } else {
            0
        };
        if at < types.len() as u64 {
            return Step::Done(Some(types[at as usize].clone()));
        }
    }
    Step::Done(None)
}

/// The member of an object type.
fn infer_object_member(
    cache: &LuaInferCache,
    object: &LuaObjectType,
    expr: &LuaIndexMemberExpr,
) -> (r: InferStep)
    ensures
        r@ == object_member(
            *cache,
            expr.index_key(),
            fields_view(object.fields),
            pairs_view(object.index_access),
        ),
{
    let key = match &expr.key {
        Some(key) => key,
        None => return Step::Done(None),
    };
    let member_key = key.to_member_key();
    let ghost fields = fields_view(object.fields);
    let mut i: usize = 0;
    assert(fields.skip(0) =~= fields);
    while i < object.fields.len()
        invariant
            i <= object.fields@.len(),
            expr.key == Some(*key),
            member_key@ == key@.member_key(),
            fields == fields_view(object.fields),
            field_type(fields, member_key@) == field_type(fields.skip(i as int), member_key@),
        decreases object.fields@.len() - i,
    {
        assert(fields.skip(i as int)[0] == fields[i as int]);
        assert(fields.skip(i as int).drop_first() =~= fields.skip(i + 1));
        if object.fields[i].0.same(&member_key) {
            return Step::Done(Some(object.fields[i].1.clone()));
        }
        i += 1;
    }
    let ghost entries = pairs_view(object.index_access);
    let mut i: usize = 0;
    assert(entries.skip(0) =~= entries);
    while i < object.index_access.len()
        invariant
            i <= object.index_access@.len(),
            expr.key == Some(*key),
            member_key@ == key@.member_key(),
            field_type(fields_view(object.fields), member_key@) is None,
            entries == pairs_view(object.index_access),
            index_access(*cache, key@, entries) == index_access(
                *cache,
                key@,
                entries.skip(i as int),
            ),
        decreases object.index_access@.len() - i,
    {
        assert(entries.skip(i as int)[0] == entries[i as int]);
        assert(entries.skip(i as int).drop_first() =~= entries.skip(i + 1));
        let (key_type, value) = &object.index_access[i];
        match match_key(cache, key_type, key_type, key) {
            KeyStep::Hit => return Step::Done(Some(value.clone())),
            KeyStep::Pass => {},
            KeyStep::Stop(out) => return out,
        }
        i += 1;
    }
    Step::Done(None)
}

/// The member of the table of globals.
fn infer_global_field_member(db: &DbIndex, expr: &LuaIndexMemberExpr) -> (r: InferStep)
    ensures
        r@ == global_member(*db, expr.index_key()),
{
    match &expr.key {
        Some(LuaIndexKey::Name(name)) => Step::Done(db.get_global(name)),
        _ => Step::Done(None),
    }
}

/// The member of a namespace.
fn infer_namespace_member(
    db: &DbIndex,
    namespace: &SmolStr,
    expr: &LuaIndexMemberExpr,
) -> (r: InferStep)
    ensures
        r@ == namespace_member(*db, expr.index_key(), smol_chars(*namespace)),
{
    let name = match &expr.key {
        Some(LuaIndexKey::Name(name)) => name,
        Some(LuaIndexKey::String(name)) => name,
        _ => return Step::Done(None),
    };
    let full = smol_as_str(namespace).to_owned().concat(".").concat(smol_as_str(name));
    assert(full@ == qualified(smol_chars(*namespace), smol_chars(*name)));
    let id = LuaTypeDeclId::new(full.as_str());
    if db.type_decls.get(&id).is_some() {
        return Step::Done(Some(LuaType::Def(id)));
    }
    Step::Done(Some(LuaType::Namespace(smol_new(full.as_str()))))
}

/// The member of a union.
fn infer_union_member(
    db: &DbIndex,
    cache: &LuaInferCache,
    types: &Vec<LuaType>,
    expr: &LuaIndexMemberExpr,
    trail: Option<&Trail>,
    Ghost(reach): Ghost<Reach>,
    Ghost(fuel): Ghost<nat>,
) -> (r: InferStep)
    requires
        reach.spans(scope(*db, *cache, *expr)),
        holds_all(reach.types, types_view(*types)),
        fuel >= reach.afresh(scope(*db, *cache, *expr), trail_types(trail)),
    ensures
        !(r@ is Endless) ==> r@ == union_of(
            each_by_key(scope(*db, *cache, *expr), types_view(*types), fuel),
        ),
        r@ is Endless ==> forall|g: nat|
            !(union_of(#[trigger] each_by_key(scope(*db, *cache, *expr), types_view(*types), g))
                is Endless) ==> some_by_key_ends(
                scope(*db, *cache, *expr),
                trail_types(trail),
                g,
            ),
    decreases fuel, 2nat,
{
    let ghost s = scope(*db, *cache, *expr);
    let ghost parts = types_view(*types);
    let ghost outs = each_by_key(s, parts, fuel);
    let mut member_types: Vec<LuaType> = Vec::new();
    let mut i: usize = 0;
    assert(types_view(member_types) =~= found_types(outs.take(0)));
    while i < types.len()
        invariant
            i <= types@.len(),
            s == scope(*db, *cache, *expr),
            parts == types_view(*types),
            reach.spans(s),
            holds_all(reach.types, parts),
            fuel >= reach.afresh(s, trail_types(trail)),
            outs == each_by_key(s, parts, fuel),
            forall|j: int| 0 <= j < i ==> (#[trigger] outs[j]) is Done,
            types_view(member_types) == found_types(outs.take(i as int)),
        decreases types@.len() - i,
    {
        proof {
            lemma_found_types(outs, i as int);
            assert(reach.types.contains(parts[i as int]));
        }
        let out = start_by_key(db, cache, &types[i], expr, trail, Ghost(reach), Ghost(fuel));
        match out {
            Step::Done(t) => push_found(&mut member_types, t),
            out => {
                proof {
                    lemma_first_open(outs, i as int);
                    assert forall|g: nat|
                        !(union_of(#[trigger] each_by_key(s, parts, g))
                            is Endless) && out@ is Endless implies some_by_key_ends(
                        s,
                        trail_types(trail),
                        g,
                    ) by {
                        let others = each_by_key(s, parts, g);
                        assert forall|j: int| 0 <= j < i implies cut(others[j], outs[j]) by {
                            lemma_by_key_same(s, parts[j], Set::empty(), g, fuel);
                        }
                        lemma_union_cut(outs, others, i as int);
                        assert(others[i as int] == by_key(s, parts[i as int], Set::empty(), g).0);
                    }
                }
                return out;
            },
        }
        i += 1;
    }
    proof {
        lemma_first_open(outs, i as int);
        assert(outs.take(i as int) =~= outs);
    }
    Step::Done(make_union(member_types))
}

/// The member of an intersection.
fn infer_intersection_member(
    db: &DbIndex,
    cache: &LuaInferCache,
    types: &Vec<LuaType>,
    expr: &LuaIndexMemberExpr,
    trail: Option<&Trail>,
    Ghost(reach): Ghost<Reach>,
    Ghost(fuel): Ghost<nat>,
) -> (r: InferStep)
    requires
        reach.spans(scope(*db, *cache, *expr)),
        holds_all(reach.types, types_view(*types)),
        fuel >= reach.afresh(scope(*db, *cache, *expr), trail_types(trail)),
    ensures
        !(r@ is Endless) ==> r@ == intersection_of(
            each_by_key(scope(*db, *cache, *expr), types_view(*types), fuel),
            Ty::Unknown,
        ),
        r@ is Endless ==> forall|g: nat|
            !(intersection_of(
                #[trigger] each_by_key(scope(*db, *cache, *expr), types_view(*types), g),
                Ty::Unknown,
            ) is Endless) ==> some_by_key_ends(
                scope(*db, *cache, *expr),
                trail_types(trail),
                g,
            ),
    decreases fuel, 2nat,
{
    let ghost s = scope(*db, *cache, *expr);
    let ghost parts = types_view(*types);
    let ghost outs = each_by_key(s, parts, fuel);
    let mut member_type = LuaType::Unknown;
    let mut i: usize = 0;
    proof {
        assert(outs.skip(0) =~= outs);
        assert forall|g: nat| cut(
            intersection_of(#[trigger] each_by_key(s, parts, g), Ty::Unknown),
            intersection_of(each_by_key(s, parts, g).skip(0), Ty::Unknown),
        ) by {
            assert(each_by_key(s, parts, g).skip(0) =~= each_by_key(s, parts, g));
        }
    }
    while i < types.len()
        invariant
            i <= types@.len(),
            s == scope(*db, *cache, *expr),
            parts == types_view(*types),
            reach.spans(s),
            holds_all(reach.types, parts),
            fuel >= reach.afresh(s, trail_types(trail)),
            outs == each_by_key(s, parts, fuel),
            intersection_of(outs, Ty::Unknown) == intersection_of(
                outs.skip(i as int),
                member_type@,
            ),
            forall|g: nat|
                cut(
                    intersection_of(#[trigger] each_by_key(s, parts, g), Ty::Unknown),
                    intersection_of(each_by_key(s, parts, g).skip(i as int), member_type@),
                ),
        decreases types@.len() - i,
    {
        assert(outs.skip(i as int).drop_first() =~= outs.skip(i + 1));
        assert(reach.types.contains(parts[i as int]));
        let out = start_by_key(db, cache, &types[i], expr, trail, Ghost(reach), Ghost(fuel));
        proof {
            assert forall|g: nat| ({
                let others = #[trigger] each_by_key(s, parts, g);
                &&& cut(others[i as int], outs[i as int]) || out@ is Endless
                &&& others[i as int] == by_key(s, parts[i as int], Set::empty(), g).0
                &&& others.skip(i as int)[0] == others[i as int]
                &&& others.skip(i as int).drop_first() == others.skip(i + 1)
            }) by {
                lemma_by_key_same(s, parts[i as int], Set::empty(), g, fuel);
                let others = each_by_key(s, parts, g);
                assert(others.skip(i as int).drop_first() =~= others.skip(i + 1));
            }
        }
        match out {
            Step::Done(Some(t)) => {
                if member_type.is_unknown() {
                    member_type = t;
                } else if !member_type.same(&t) {
                    return Step::Done(None);
                }
            },
            out => return out,
        }
        i += 1;
    }
    Step::Done(Some(member_type))
}

/// The member of a generic type.
fn infer_generic_member(
    db: &DbIndex,
    cache: &LuaInferCache,
    generic: &LuaGenericType,
    expr: &LuaIndexMemberExpr,
    trail: Option<&Trail>,
    Ghost(reach): Ghost<Reach>,
    Ghost(fuel): Ghost<nat>,
) -> (r: InferStep)
    requires
        reach.spans(scope(*db, *cache, *expr)),
        reach.types.contains(generic.base.ty()),
        fuel >= reach.afresh(scope(*db, *cache, *expr), trail_types(trail)),
    ensures
        !(r@ is Endless) ==> r@ == instance_of(
            *cache,
            by_key(scope(*db, *cache, *expr), generic.base.ty(), Set::empty(), fuel).0,
            types_view(generic.params),
        ),
        r@ is Endless ==> forall|g: nat|
            !((#[trigger] by_key(
                scope(*db, *cache, *expr),
                generic.base.ty(),
                Set::empty(),
                g,
            )).0 is Endless) ==> some_by_key_ends(
                scope(*db, *cache, *expr),
                trail_types(trail),
                g,
            ),
    decreases fuel, 2nat,
{
    match start_by_key(db, cache, &generic.base, expr, trail, Ghost(reach), Ghost(fuel)) {
        Step::Done(Some(t)) => cache.instantiate(&t, &generic.params),
        out => out,
    }
}

/// The member of an instance: that of its base, else of its table literal.
fn infer_instance_member(
    db: &DbIndex,
    cache: &LuaInferCache,
    inst: &LuaInstanceType,
    expr: &LuaIndexMemberExpr,
    guard: &mut InferGuard,
    trail: Option<&Trail>,
    Ghost(reach): Ghost<Reach>,
    Ghost(fuel): Ghost<nat>,
) -> (r: InferStep)
    requires
        reach.spans(scope(*db, *cache, *expr)),
        reach.types.contains(inst.base.ty()),
        fuel > reach.onward(scope(*db, *cache, *expr), trail_types(trail), old(guard)@) + shells(
            inst.base.ty(),
        ),
    ensures
        !(r@ is Endless) ==> ({
            let s = scope(*db, *cache, *expr);
            let (out, seen) = by_key(s, inst.base.ty(), old(guard)@, fuel);
            &&& r@ == (if out == missing() {
                table_member(*db, expr.index_key(), inst.range)
            } else {
                out
            })
            &&& final(guard)@ == seen
        }),
        r@ is Endless ==> by_key_circles(
            scope(*db, *cache, *expr),
            trail_types(trail),
            inst.base.ty(),
            old(guard)@,
        ),
    decreases fuel, 2nat,
{
    match member_by_key(db, cache, &inst.base, expr, guard, trail, Ghost(reach), Ghost(fuel)) {
        Step::Done(None) => infer_table_member(db, inst.range, expr),
        out => out,
    }
}

/// The member of a declared type.
fn infer_custom_type_member(
    db: &DbIndex,
    cache: &LuaInferCache,
    id: &LuaTypeDeclId,
    expr: &LuaIndexMemberExpr,
    guard: &mut InferGuard,
    trail: Option<&Trail>,
    Ghost(reach): Ghost<Reach>,
    Ghost(fuel): Ghost<nat>,
) -> (r: InferStep)
    requires
        reach.spans(scope(*db, *cache, *expr)),
        fuel >= reach.onward(scope(*db, *cache, *expr), trail_types(trail), old(guard)@),
    ensures
        !(r@ is Endless) ==> (r@, final(guard)@) == decl_by_key(
            scope(*db, *cache, *expr),
            id@,
            old(guard)@,
            fuel,
        ),
        r@ is Endless ==> forall|g: nat|
            !((#[trigger] decl_by_key(scope(*db, *cache, *expr), id@, old(guard)@, g)).0
                is Endless) ==> some_by_key_ends(
                scope(*db, *cache, *expr),
                trail_types(trail),
                g,
            ),
    decreases fuel, 2nat,
{
    let ghost s = scope(*db, *cache, *expr);
    let ghost on = trail_types(trail);
    let ghost visited = guard@;
    if guard.check(id).is_none() {
        return Step::Done(None);
    }
    let decl = match db.type_decls.get(id) {
        Some(decl) => decl,
        None => return Step::Done(None),
    };
    let ghost start = guard@;
    if let LuaDeclTypeKind::Alias = decl.kind {
        let text = LuaType::String;
        let origin = match &decl.alias_origin {
            Some(origin) => origin,
            None => &text,
        };
        proof {
            assert(s.db.alias_origin(id@) == opt_view(decl.alias_origin));
            assert(reach.types.contains(origin@));
            reach.lemma_visit(s, on, visited, id@, start, origin@);
        }
        let out = member_by_key(db, cache, origin, expr, guard, trail, Ghost(reach), Ghost(fuel));
        proof {
            assert forall|g: nat|
                !((#[trigger] decl_by_key(s, id@, visited, g)).0 is Endless)
                    && out@ is Endless implies some_by_key_ends(s, on, g) by {
                lemma_by_key_circles(s, on, origin@, start, g);
            }
        }
        return out;
    }
    let key = match &expr.key {
        Some(key) => key,
        None => return Step::Done(None),
    };
    if let Some(t) = db.get_member(LuaMemberOwner::Type(id.clone()), key.to_member_key()) {
        return Step::Done(clone_opt(t));
    }
    if let LuaDeclTypeKind::Class = decl.kind {
        let super_types = match db.super_types.get(id) {
            Some(super_types) => super_types,
            None => return Step::Done(None),
        };
        let ghost supers = types_view(*super_types);
        let mut i: usize = 0;
        proof {
            assert(s.db.supers(id@) == Some(supers));
            assert(supers.skip(0) =~= supers);
            assert forall|g: nat| #[trigger] decl_by_key(s, id@, visited, g) == supers_by_key(
                s,
                supers.skip(0),
                start,
                g,
            ) by {}
        }
        while i < super_types.len()
            invariant
                i <= super_types@.len(),
                s == scope(*db, *cache, *expr),
                on == trail_types(trail),
                visited == old(guard)@,
                supers == types_view(*super_types),
                reach.spans(s),
                holds_all(reach.types, supers),
                fuel >= reach.onward(s, on, visited),
                !visited.contains(id@),
                s.db.decl_kind(id@) is Some,
                visited.insert(id@).subset_of(guard@),
                decl_by_key(s, id@, visited, fuel) == supers_by_key(
                    s,
                    supers.skip(i as int),
                    guard@,
                    fuel,
                ),
                forall|g: nat|
                    (#[trigger] decl_by_key(s, id@, visited, g)).0 is Endless || decl_by_key(
                        s,
                        id@,
                        visited,
                        g,
                    ) == supers_by_key(s, supers.skip(i as int), guard@, g),
            decreases super_types@.len() - i,
        {
            let ghost before = guard@;
            let ghost next = supers[i as int];
            proof {
                assert(supers.skip(i as int)[0] == next);
                assert(supers.skip(i as int).drop_first() =~= supers.skip(i + 1));
                assert(reach.types.contains(next));
                reach.lemma_visit(s, on, visited, id@, before, next);
            }
            let out = member_by_key(
                db,
                cache,
                &super_types[i],
                expr,
                guard,
                trail,
                Ghost(reach),
                Ghost(fuel),
            );
            proof {
                assert forall|g: nat|
                    !((#[trigger] decl_by_key(s, id@, visited, g)).0 is Endless) implies (
                if out@ is Endless {
                    some_by_key_ends(s, on, g)
                } else {
                    by_key(s, next, before, g) == (out@, guard@)
                }) by {
                    assert(!(by_key(s, next, before, g).0 is Endless));
                    if out@ is Endless {
                        lemma_by_key_circles(s, on, next, before, g);
                    } else {
                        lemma_by_key_same(s, next, before, g, fuel);
                    }
                }
            }
            match out {
                Step::Done(None) => {
                    proof {
                        law_by_key_keeps_visited(s, next, before, fuel);
                    }
                },
                out => return out,
            }
            i += 1;
        }
    }
    Step::Done(None)
}

/// The member of a type whose search starts anew, with no declaration visited
/// yet. A type that is on the trail needs its own member.
fn start_by_key(
    db: &DbIndex,
    cache: &LuaInferCache,
    t: &LuaType,
    expr: &LuaIndexMemberExpr,
    trail: Option<&Trail>,
    Ghost(reach): Ghost<Reach>,
    Ghost(fuel): Ghost<nat>,
) -> (r: InferStep)
    requires
        reach.spans(scope(*db, *cache, *expr)),
        reach.types.contains(t@),
        fuel >= reach.afresh(scope(*db, *cache, *expr), trail_types(trail)),
    ensures
        !(r@ is Endless) ==> r@ == by_key(scope(*db, *cache, *expr), t@, Set::empty(), fuel).0,
        r@ is Endless ==> forall|g: nat|
            !((#[trigger] by_key(scope(*db, *cache, *expr), t@, Set::empty(), g)).0
                is Endless) ==> some_by_key_ends(
                scope(*db, *cache, *expr),
                trail_types(trail),
                g,
            ),
    decreases fuel, 1nat,
{
    let ghost s = scope(*db, *cache, *expr);
    if on_trail(trail, t) {
        return Step::Endless;
    }
    proof {
        reach.lemma_start(s, trail_types(trail), t@);
    }
    let here = Trail { ty: t, up: trail };
    let mut guard = InferGuard::new();
    let out = member_by_key(
        db,
        cache,
        t,
        expr,
        &mut guard,
        Some(&here),
        Ghost(reach),
        Ghost(fuel),
    );
    proof {
        if out@ is Endless {
            assert forall|g: nat|
                !((#[trigger] by_key(s, t@, Set::empty(), g)).0 is Endless) implies
                some_by_key_ends(s, trail_types(trail), g) by {
                lemma_by_key_unwinds(s, trail_types(trail), t@, g);
            }
        }
    }
    out
}

/// The member that a type has under the key of `expr`. The searches for the
/// types on the trail wait for this one.
fn member_by_key(
    db: &DbIndex,
    cache: &LuaInferCache,
    t: &LuaType,
    expr: &LuaIndexMemberExpr,
    guard: &mut InferGuard,
    trail: Option<&Trail>,
    Ghost(reach): Ghost<Reach>,
    Ghost(fuel): Ghost<nat>,
) -> (r: InferStep)
    requires
        reach.spans(scope(*db, *cache, *expr)),
        reach.types.contains(t@),
        fuel > reach.onward(scope(*db, *cache, *expr), trail_types(trail), old(guard)@) + shells(
            t@,
        ),
    ensures
        !(r@ is Endless) ==> (r@, final(guard)@) == by_key(
            scope(*db, *cache, *expr),
            t@,
            old(guard)@,
            fuel,
        ),
        r@ is Endless ==> by_key_circles(
            scope(*db, *cache, *expr),
            trail_types(trail),
            t@,
            old(guard)@,
        ),
    decreases fuel, 0nat,
{
    let ghost s = scope(*db, *cache, *expr);
    let ghost on = trail_types(trail);
    let ghost visited = guard@;
    let ghost rest = (fuel - 1) as nat;
    assert(holds_parts(reach.types, t@));
    let out = match t {
        LuaType::Table | LuaType::Any | LuaType::Unknown => Step::Done(Some(LuaType::Any)),
        LuaType::TableConst(range) => infer_table_member(db, *range, expr),
        LuaType::String | LuaType::Io | LuaType::StringConst(_) | LuaType::DocStringConst(_) => {
            match get_buildin_type_map_type_id(t) {
                Some(id) => infer_custom_type_member(
                    db,
                    cache,
                    &id,
                    expr,
                    guard,
                    trail,
                    Ghost(reach),
                    Ghost(rest),
                ),
                None => Step::Done(None),
            }
        },
        LuaType::Ref(id) | LuaType::Def(id) => infer_custom_type_member(
            db,
            cache,
            id,
            expr,
            guard,
            trail,
            Ghost(reach),
            Ghost(rest),
        ),
        LuaType::Tuple(types) => infer_tuple_member(types, expr),
        LuaType::Object(object) => infer_object_member(cache, object, expr),
        LuaType::Union(types) => infer_union_member(
            db,
            cache,
            types,
            expr,
            trail,
            Ghost(reach),
            Ghost(rest),
        ),
        LuaType::Intersection(types) => infer_intersection_member(
            db,
            cache,
            types,
            expr,
            trail,
            Ghost(reach),
            Ghost(rest),
        ),
        LuaType::Generic(generic) => infer_generic_member(
            db,
            cache,
            generic,
            expr,
            trail,
            Ghost(reach),
            Ghost(rest),
        ),
        LuaType::Global => infer_global_field_member(db, expr),
        LuaType::Instance(inst) => infer_instance_member(
            db,
            cache,
            inst,
            expr,
            guard,
            trail,
            Ghost(reach),
            Ghost(rest),
        ),
        LuaType::Namespace(namespace) => infer_namespace_member(db, namespace, expr),
        _ => Step::Done(None),
    };
    proof {
        if out@ is Endless {
            assert forall|g: nat| !((#[trigger] by_key(s, t@, visited, g)).0 is Endless) implies g
                > 0 && some_by_key_ends(s, on, (g - 1) as nat) by {
                let less = (g - 1) as nat;
                match t@ {
                    Ty::Union(parts) => {
                        assert(!(union_of(each_by_key(s, parts, less)) is Endless));
                    },
                    Ty::Intersection(parts) => {
                        assert(!(intersection_of(each_by_key(s, parts, less), Ty::Unknown)
                            is Endless));
                    },
                    Ty::Instance(base, _) => {
                        lemma_by_key_circles(s, on, *base, visited, less);
                    },
                    Ty::Generic(base, _) => {
                        assert(!(by_key(s, *base, Set::empty(), less).0 is Endless));
                    },
                    Ty::Ref(id) | Ty::Def(id) => {
                        assert(!(decl_by_key(s, id, visited, less).0 is Endless));
                    },
                    Ty::String | Ty::Io | Ty::StringConst(_) | Ty::DocStringConst(_) => {
                        let id = builtin_decl(t@).unwrap();
                        assert(!(decl_by_key(s, id, visited, less).0 is Endless));
                    },
                    Ty::Object(_, entries) => {
                        if let Some(key) = s.key {
                            lemma_index_access_ends(s.cache, key, entries);
                        }
                    },
                    _ => {},
                }
            }
        }
    }
    out
}

/// The member that `prefix_type` has under the key of `index_expr`. Type
/// declarations that `infer_guard` has visited are not visited again. Once a
/// question has been answered, the search starts over with the guard as it was
/// before.
pub fn infer_member_by_member_key(
    db: &DbIndex,
    cache: &LuaInferCache,
    prefix_type: &LuaType,
    index_expr: &LuaIndexMemberExpr,
    infer_guard: &mut InferGuard,
) -> (r: InferStep)
    ensures
        by_key_comes_to(
            scope(*db, *cache, *index_expr),
            prefix_type@,
            old(infer_guard)@,
            r@,
            final(infer_guard)@,
        ),
{
    let ghost s = scope(*db, *cache, *index_expr);
    let ghost reach = lemma_reach(s, prefix_type@);
    let ghost fuel = reach.onward(s, Set::empty(), infer_guard@) + shells(prefix_type@) + 1;
    let out = member_by_key(
        db,
        cache,
        prefix_type,
        index_expr,
        infer_guard,
        None,
        Ghost(reach),
        Ghost(fuel),
    );
    proof {
        lemma_by_key_comes_to(s, prefix_type@, old(infer_guard)@, out@, infer_guard@, fuel);
    }
    out
}

// ---------------------------------------------------------------------------
// Members through operators
// ---------------------------------------------------------------------------

/// A type with the arguments filled in, where there are any.
fn apply(cache: &LuaInferCache, t: &LuaType, params: Option<&Vec<LuaType>>) -> (r: InferStep)
    ensures
        r@ == applied(
            *cache,
            t@,
            match params {
                Some(params) => Some(types_view(*params)),
                None => None,
            },
        ),
{
    match params {
        Some(params) => cache.instantiate(t, params),
        None => Step::Done(Some(t.clone())),
    }
}

/// The result of the first operator whose operand type the key is of.
fn find_operator(
    db: &DbIndex,
    cache: &LuaInferCache,
    key: &LuaIndexKey,
    ids: &Vec<LuaOperatorId>,
    params: Option<&Vec<LuaType>>,
) -> (r: Option<InferStep>)
    ensures
        ({
            let args = match params {
                Some(params) => Some(types_view(*params)),
                None => None,
            };
            match r {
                Some(out) => first_operator(*db, *cache, key@, ids@, args) == Some(out@),
                None => first_operator(*db, *cache, key@, ids@, args) is None,
            }
        }),
{
    let ghost args = match params {
        Some(params) => Some(types_view(*params)),
        None => None,
    };
    let mut i: usize = 0;
    assert(ids@.skip(0) =~= ids@);
    while i < ids.len()
        invariant
            i <= ids@.len(),
            args == (match params {
                Some(params) => Some(types_view(*params)),
                None => None,
            }),
            first_operator(*db, *cache, key@, ids@, args) == first_operator(
                *db,
                *cache,
                key@,
                ids@.skip(i as int),
                args,
            ),
        decreases ids@.len() - i,
    {
        assert(ids@.skip(i as int)[0] == ids@[i as int]);
        assert(ids@.skip(i as int).drop_first() =~= ids@.skip(i + 1));
        let (operand, result) = match db.get_operator(ids[i]) {
            Some(operator) => operator,
            None => return Some(Step::Done(None)),
        };
        let key_type = match apply(cache, operand, params) {
            Step::Done(Some(key_type)) => key_type,
            out => return Some(out),
        };
        match match_key(cache, &key_type, operand, key) {
            KeyStep::Hit => return Some(apply(cache, result, params)),
            KeyStep::Pass => {},
            KeyStep::Stop(out) => return Some(out),
        }
        i += 1;
    }
    None
}

/// The element of an array literal.
fn infer_member_by_index_table(
    db: &DbIndex,
    cache: &LuaInferCache,
    range: InFiled,
    expr: &LuaIndexMemberExpr,
) -> (r: InferStep)
    ensures
        r@ == table_element(scope(*db, *cache, *expr), range),
{
    let id = LuaSyntaxId { kind: LuaSyntaxKind::TableArrayExpr, range: range.value };
    let table = match expr.root.tables.get(&id) {
        Some(table) => table,
        None => return Step::Done(None),
    };
    match &expr.key {
        Some(LuaIndexKey::Integer(_)) | Some(LuaIndexKey::Expr(_)) => {
            if table.fields.len() == 0 {
                return Step::Done(None);
            }
            match &table.fields[0].value {
                Some(value) => cache.infer_expr_type(value),
                None => Step::Done(None),
            }
        },
        _ => Step::Done(None),
    }
}

/// The element of an array.
fn infer_member_by_index_array(
    cache: &LuaInferCache,
    base: &LuaType,
    expr: &LuaIndexMemberExpr,
) -> (r: InferStep)
    ensures
        r@ == array_element(*cache, expr.index_key(), base@),
{
    match &expr.key {
        Some(key) => when_matched(
            match_key(cache, &LuaType::Number, &LuaType::Number, key),
            base,
        ),
        None => Step::Done(None),
    }
}

/// The element of an object type.
fn infer_member_by_index_object(
    cache: &LuaInferCache,
    object: &LuaObjectType,
    expr: &LuaIndexMemberExpr,
) -> (r: InferStep)
    ensures
        r@ == object_element(*cache, expr.index_key(), pairs_view(object.index_access)),
{
    let key_expr = match &expr.key {
        Some(LuaIndexKey::Expr(key_expr)) => key_expr,
        _ => return Step::Done(None),
    };
    let expr_type = match cache.infer_expr_type(key_expr) {
        Step::Done(Some(t)) => t,
        out => return out,
    };
    let ghost entries = pairs_view(object.index_access);
    let mut i: usize = 0;
    assert(entries.skip(0) =~= entries);
    while i < object.index_access.len()
        invariant
            i <= object.index_access@.len(),
            entries == pairs_view(object.index_access),
            object_element(*cache, expr.index_key(), entries) == Step::<
                Option<Ty>,
                Question,
            >::Done(entry_type(entries, expr_type@)),
            entry_type(entries, expr_type@) == entry_type(entries.skip(i as int), expr_type@),
        decreases object.index_access@.len() - i,
    {
        assert(entries.skip(i as int)[0] == entries[i as int]);
        assert(entries.skip(i as int).drop_first() =~= entries.skip(i + 1));
        if object.index_access[i].0.same(&expr_type) {
            return Step::Done(Some(object.index_access[i].1.clone()));
        }
        i += 1;
    }
    Step::Done(None)
}

/// The element of `table<K, V>`.
fn infer_member_by_index_table_generic(
    cache: &LuaInferCache,
    params: &Vec<LuaType>,
    expr: &LuaIndexMemberExpr,
) -> (r: InferStep)
    ensures
        r@ == table_generic_element(*cache, expr.index_key(), types_view(*params)),
{
    if params.len() != 2 {
        return Step::Done(None);
    }
    let key = match &expr.key {
        Some(key) => key,
        None => return Step::Done(None),
    };
    let wanted = &params[0];
    let value = &params[1];
    if wanted.is_string() || wanted.is_number() {
        return when_matched(match_key(cache, wanted, wanted, key), value);
    }
    let given = match key {
        LuaIndexKey::Expr(key_expr) => match cache.infer_expr_type(key_expr) {
            Step::Done(Some(t)) => t,
            out => return out,
        },
        LuaIndexKey::Integer(i) => LuaType::IntegerConst(*i),
        LuaIndexKey::String(text) => LuaType::StringConst(smol_new(smol_as_str(text))),
        LuaIndexKey::Name(_) => return Step::Done(None),
    };
    match cache.check_type_compact(wanted, &given) {
        Step::Done(true) => Step::Done(Some(value.clone())),
        Step::Done(false) => Step::Done(None),
        Step::Ask(q) => Step::Ask(q),
        Step::Endless => Step::Endless,
    }
}

/// What a union gives through index operators.
fn infer_member_by_index_union(
    db: &DbIndex,
    cache: &LuaInferCache,
    types: &Vec<LuaType>,
    expr: &LuaIndexMemberExpr,
    trail: Option<&Trail>,
    Ghost(reach): Ghost<Reach>,
    Ghost(fuel): Ghost<nat>,
) -> (r: InferStep)
    requires
        reach.spans(scope(*db, *cache, *expr)),
        holds_all(reach.types, types_view(*types)),
        fuel >= reach.afresh(scope(*db, *cache, *expr), trail_types(trail)),
    ensures
        !(r@ is Endless) ==> r@ == union_of(
            each_by_operator(scope(*db, *cache, *expr), types_view(*types), fuel),
        ),
        r@ is Endless ==> forall|g: nat|
            !(union_of(
                #[trigger] each_by_operator(scope(*db, *cache, *expr), types_view(*types), g),
            ) is Endless) ==> some_by_operator_ends(
                scope(*db, *cache, *expr),
                trail_types(trail),
                g,
            ),
    decreases fuel, 2nat,
{
    let ghost s = scope(*db, *cache, *expr);
    let ghost parts = types_view(*types);
    let ghost outs = each_by_operator(s, parts, fuel);
    let mut member_types: Vec<LuaType> = Vec::new();
    let mut i: usize = 0;
    assert(types_view(member_types) =~= found_types(outs.take(0)));
    while i < types.len()
        invariant
            i <= types@.len(),
            s == scope(*db, *cache, *expr),
            parts == types_view(*types),
            reach.spans(s),
            holds_all(reach.types, parts),
            fuel >= reach.afresh(s, trail_types(trail)),
            outs == each_by_operator(s, parts, fuel),
            forall|j: int| 0 <= j < i ==> (#[trigger] outs[j]) is Done,
            types_view(member_types) == found_types(outs.take(i as int)),
        decreases types@.len() - i,
    {
        proof {
            lemma_found_types(outs, i as int);
            assert(reach.types.contains(parts[i as int]));
        }
        let out = start_by_operator(db, cache, &types[i], expr, trail, Ghost(reach), Ghost(fuel));
        match out {
            Step::Done(t) => push_found(&mut member_types, t),
            out => {
                proof {
                    lemma_first_open(outs, i as int);
                    assert forall|g: nat|
                        !(union_of(#[trigger] each_by_operator(s, parts, g))
                            is Endless) && out@ is Endless implies some_by_operator_ends(
                        s,
                        trail_types(trail),
                        g,
                    ) by {
                        let others = each_by_operator(s, parts, g);
                        assert forall|j: int| 0 <= j < i implies cut(others[j], outs[j]) by {
                            lemma_by_operator_same(s, parts[j], Set::empty(), g, fuel);
                        }
                        lemma_union_cut(outs, others, i as int);
                        assert(others[i as int] == by_operator(
                            s,
                            parts[i as int],
                            Set::empty(),
                            g,
                        ).0);
                    }
                }
                return out;
            },
        }
        i += 1;
    }
    proof {
        lemma_first_open(outs, i as int);
        assert(outs.take(i as int) =~= outs);
    }
    Step::Done(make_union(member_types))
}

/// What an intersection gives through index operators.
fn infer_member_by_index_intersection(
    db: &DbIndex,
    cache: &LuaInferCache,
    types: &Vec<LuaType>,
    expr: &LuaIndexMemberExpr,
    trail: Option<&Trail>,
    Ghost(reach): Ghost<Reach>,
    Ghost(fuel): Ghost<nat>,
) -> (r: InferStep)
    requires
        reach.spans(scope(*db, *cache, *expr)),
        holds_all(reach.types, types_view(*types)),
        fuel >= reach.afresh(scope(*db, *cache, *expr), trail_types(trail)),
    ensures
        !(r@ is Endless) ==> r@ == intersection_of(
            each_by_operator(scope(*db, *cache, *expr), types_view(*types), fuel),
            Ty::Unknown,
        ),
        r@ is Endless ==> forall|g: nat|
            !(intersection_of(
                #[trigger] each_by_operator(scope(*db, *cache, *expr), types_view(*types), g),
                Ty::Unknown,
            ) is Endless) ==> some_by_operator_ends(
                scope(*db, *cache, *expr),
                trail_types(trail),
                g,
            ),
    decreases fuel, 2nat,
{
    let ghost s = scope(*db, *cache, *expr);
    let ghost parts = types_view(*types);
    let ghost outs = each_by_operator(s, parts, fuel);
    let mut member_type = LuaType::Unknown;
    let mut i: usize = 0;
    proof {
        assert(outs.skip(0) =~= outs);
        assert forall|g: nat| cut(
            intersection_of(#[trigger] each_by_operator(s, parts, g), Ty::Unknown),
            intersection_of(each_by_operator(s, parts, g).skip(0), Ty::Unknown),
        ) by {
            assert(each_by_operator(s, parts, g).skip(0) =~= each_by_operator(s, parts, g));
        }
    }
    while i < types.len()
        invariant
            i <= types@.len(),
            s == scope(*db, *cache, *expr),
            parts == types_view(*types),
            reach.spans(s),
            holds_all(reach.types, parts),
            fuel >= reach.afresh(s, trail_types(trail)),
            outs == each_by_operator(s, parts, fuel),
            intersection_of(outs, Ty::Unknown) == intersection_of(
                outs.skip(i as int),
                member_type@,
            ),
            forall|g: nat|
                cut(
                    intersection_of(#[trigger] each_by_operator(s, parts, g), Ty::Unknown),
                    intersection_of(each_by_operator(s, parts, g).skip(i as int), member_type@),
                ),
        decreases types@.len() - i,
    {
        assert(outs.skip(i as int).drop_first() =~= outs.skip(i + 1));
        assert(reach.types.contains(parts[i as int]));
        let out = start_by_operator(db, cache, &types[i], expr, trail, Ghost(reach), Ghost(fuel));
        proof {
            assert forall|g: nat| ({
                let others = #[trigger] each_by_operator(s, parts, g);
                &&& cut(others[i as int], outs[i as int]) || out@ is Endless
                &&& others[i as int] == by_operator(s, parts[i as int], Set::empty(), g).0
                &&& others.skip(i as int)[0] == others[i as int]
                &&& others.skip(i as int).drop_first() == others.skip(i + 1)
            }) by {
                lemma_by_operator_same(s, parts[i as int], Set::empty(), g, fuel);
                let others = each_by_operator(s, parts, g);
                assert(others.skip(i as int).drop_first() =~= others.skip(i + 1));
            }
        }
        match out {
            Step::Done(Some(t)) => {
                if member_type.is_unknown() {
                    member_type = t;
                } else if !member_type.same(&t) {
                    return Step::Done(None);
                }
            },
            out => return out,
        }
        i += 1;
    }
    Step::Done(Some(member_type))
}

/// What a declared type gives through an index operator.
fn infer_member_by_index_custom_type(
    db: &DbIndex,
    cache: &LuaInferCache,
    id: &LuaTypeDeclId,
    expr: &LuaIndexMemberExpr,
    guard: &mut InferGuard,
    trail: Option<&Trail>,
    Ghost(reach): Ghost<Reach>,
    Ghost(fuel): Ghost<nat>,
) -> (r: InferStep)
    requires
        reach.spans(scope(*db, *cache, *expr)),
        fuel >= reach.onward(scope(*db, *cache, *expr), trail_types(trail), old(guard)@),
    ensures
        !(r@ is Endless) ==> (r@, final(guard)@) == decl_by_operator(
            scope(*db, *cache, *expr),
            id@,
            old(guard)@,
            fuel,
        ),
        r@ is Endless ==> forall|g: nat|
            !((#[trigger] decl_by_operator(scope(*db, *cache, *expr), id@, old(guard)@, g)).0
                is Endless) ==> some_by_operator_ends(
                scope(*db, *cache, *expr),
                trail_types(trail),
                g,
            ),
    decreases fuel, 2nat,
{
    let ghost s = scope(*db, *cache, *expr);
    let ghost on = trail_types(trail);
    let ghost visited = guard@;
    if guard.check(id).is_none() {
        return Step::Done(None);
    }
    let decl = match db.type_decls.get(id) {
        Some(decl) => decl,
        None => return Step::Done(None),
    };
    let ghost start = guard@;
    if let LuaDeclTypeKind::Alias = decl.kind {
        let origin = match &decl.alias_origin {
            Some(origin) => origin,
            None => return Step::Done(None),
        };
        proof {
            assert(s.db.alias_origin(id@) == opt_view(decl.alias_origin));
            assert(reach.types.contains(origin@));
            reach.lemma_visit(s, on, visited, id@, start, origin@);
        }
        let out = member_by_operator(
            db,
            cache,
            origin,
            expr,
            guard,
            trail,
            Ghost(reach),
            Ghost(fuel),
        );
        proof {
            assert forall|g: nat|
                !((#[trigger] decl_by_operator(s, id@, visited, g)).0 is Endless)
                    && out@ is Endless implies some_by_operator_ends(s, on, g) by {
                lemma_by_operator_circles(s, on, origin@, start, g);
            }
        }
        return out;
    }
    let key = match &expr.key {
        Some(key) => key,
        None => return Step::Done(None),
    };
    if let Some(Some(ids)) = db.get_index_operators(id) {
        if let Some(out) = find_operator(db, cache, key, ids, None) {
            proof {
                lemma_first_operator_ends(*db, *cache, key@, ids@, None);
            }
            return out;
        }
    }
    if let LuaDeclTypeKind::Class = decl.kind {
        let super_types = match db.super_types.get(id) {
            Some(super_types) => super_types,
            None => return Step::Done(None),
        };
        let ghost supers = types_view(*super_types);
        let mut i: usize = 0;
        proof {
            assert(s.db.supers(id@) == Some(supers));
            assert(supers.skip(0) =~= supers);
            assert forall|g: nat| #[trigger]
                decl_by_operator(s, id@, visited, g) == supers_by_operator(
                s,
                supers.skip(0),
                start,
                g,
            ) by {}
        }
        while i < super_types.len()
            invariant
                i <= super_types@.len(),
                s == scope(*db, *cache, *expr),
                on == trail_types(trail),
                visited == old(guard)@,
                supers == types_view(*super_types),
                reach.spans(s),
                holds_all(reach.types, supers),
                fuel >= reach.onward(s, on, visited),
                !visited.contains(id@),
                s.db.decl_kind(id@) is Some,
                visited.insert(id@).subset_of(guard@),
                decl_by_operator(s, id@, visited, fuel) == supers_by_operator(
                    s,
                    supers.skip(i as int),
                    guard@,
                    fuel,
                ),
                forall|g: nat|
                    (#[trigger] decl_by_operator(s, id@, visited, g)).0 is Endless
                        || decl_by_operator(s, id@, visited, g) == supers_by_operator(
                        s,
                        supers.skip(i as int),
                        guard@,
                        g,
                    ),
            decreases super_types@.len() - i,
        {
            let ghost before = guard@;
            let ghost next = supers[i as int];
            proof {
                assert(supers.skip(i as int)[0] == next);
                assert(supers.skip(i as int).drop_first() =~= supers.skip(i + 1));
                assert(reach.types.contains(next));
                reach.lemma_visit(s, on, visited, id@, before, next);
            }
            let out = member_by_operator(
                db,
                cache,
                &super_types[i],
                expr,
                guard,
                trail,
                Ghost(reach),
                Ghost(fuel),
            );
            proof {
                assert forall|g: nat|
                    !((#[trigger] decl_by_operator(s, id@, visited, g)).0 is Endless) implies (
                if out@ is Endless {
                    some_by_operator_ends(s, on, g)
                } else {
                    by_operator(s, next, before, g) == (out@, guard@)
                }) by {
                    assert(!(by_operator(s, next, before, g).0 is Endless));
                    if out@ is Endless {
                        lemma_by_operator_circles(s, on, next, before, g);
                    } else {
                        lemma_by_operator_same(s, next, before, g, fuel);
                    }
                }
            }
            match out {
                Step::Done(None) => {
                    proof {
                        law_by_operator_keeps_visited(s, next, before, fuel);
                    }
                },
                out => return out,
            }
            i += 1;
        }
    }
    Step::Done(None)
}

/// What a type gives through an index operator once the arguments are filled
/// in.
fn infer_member_by_applied_operator(
    db: &DbIndex,
    cache: &LuaInferCache,
    t: &LuaType,
    params: &Vec<LuaType>,
    expr: &LuaIndexMemberExpr,
    trail: Option<&Trail>,
    Ghost(reach): Ghost<Reach>,
    Ghost(fuel): Ghost<nat>,
) -> (r: InferStep)
    requires
        reach.spans(scope(*db, *cache, *expr)),
        fuel >= reach.afresh(scope(*db, *cache, *expr), trail_types(trail)),
    ensures
        !(r@ is Endless) ==> r@ == applied_by_operator(
            scope(*db, *cache, *expr),
            t@,
            types_view(*params),
            fuel,
        ),
        r@ is Endless ==> forall|g: nat|
            !((#[trigger] applied_by_operator(
                scope(*db, *cache, *expr),
                t@,
                types_view(*params),
                g,
            )) is Endless) ==> some_by_operator_ends(
                scope(*db, *cache, *expr),
                trail_types(trail),
                g,
            ),
    decreases fuel, 2nat,
{
    let ghost s = scope(*db, *cache, *expr);
    let instance = cache.instantiate(t, params);
    assert(instance@ == s.cache.instance(t@, types_view(*params)));
    match instance {
        Step::Done(Some(applied)) => {
            let out = start_by_operator(
                db,
                cache,
                &applied,
                expr,
                trail,
                Ghost(reach),
                Ghost(fuel),
            );
            assert(forall|g: nat| #[trigger]
                applied_by_operator(s, t@, types_view(*params), g) == by_operator(
                    s,
                    applied@,
                    Set::empty(),
                    g,
                ).0);
            out
        },
        out => out,
    }
}

/// What a generic type gives through an index operator.
fn infer_member_by_index_generic(
    db: &DbIndex,
    cache: &LuaInferCache,
    generic: &LuaGenericType,
    expr: &LuaIndexMemberExpr,
    trail: Option<&Trail>,
    Ghost(reach): Ghost<Reach>,
    Ghost(fuel): Ghost<nat>,
) -> (r: InferStep)
    requires
        reach.spans(scope(*db, *cache, *expr)),
        fuel >= reach.afresh(scope(*db, *cache, *expr), trail_types(trail)),
    ensures
        !(r@ is Endless) ==> r@ == generic_by_operator(
            scope(*db, *cache, *expr),
            generic.base.ty(),
            types_view(generic.params),
            fuel,
        ),
        r@ is Endless ==> forall|g: nat|
            !((#[trigger] generic_by_operator(
                scope(*db, *cache, *expr),
                generic.base.ty(),
                types_view(generic.params),
                g,
            )) is Endless) ==> some_by_operator_ends(
                scope(*db, *cache, *expr),
                trail_types(trail),
                g,
            ),
    decreases fuel, 3nat,
{
    let ghost s = scope(*db, *cache, *expr);
    let ghost on = trail_types(trail);
    let ghost base = generic.base.ty();
    let ghost args = types_view(generic.params);
    let params = &generic.params;
    let id = match &*generic.base {
        LuaType::Ref(id) => id,
        _ => return Step::Done(None),
    };
    let decl = match db.type_decls.get(id) {
        Some(decl) => decl,
        None => return Step::Done(None),
    };
    if let LuaDeclTypeKind::Alias = decl.kind {
        return match cache.get_alias_origin(id, params) {
            Step::Done(Some(origin)) => {
                let out = infer_member_by_applied_operator(
                    db,
                    cache,
                    &origin,
                    params,
                    expr,
                    trail,
                    Ghost(reach),
                    Ghost(fuel),
                );
                proof {
                    assert forall|g: nat|
                        !((#[trigger] generic_by_operator(s, base, args, g)) is Endless)
                            && out@ is Endless implies some_by_operator_ends(s, on, g) by {
                        assert(!(applied_by_operator(s, origin@, args, g) is Endless));
                    }
                }
                out
            },
            out => out,
        };
    }
    let key = match &expr.key {
        Some(key) => key,
        None => return Step::Done(None),
    };
    match db.get_index_operators(id) {
        Some(Some(ids)) => {
            if let Some(out) = find_operator(db, cache, key, ids, Some(params)) {
                proof {
                    lemma_first_operator_ends(*db, *cache, key@, ids@, Some(args));
                }
                return out;
            }
        },
        Some(None) => return Step::Done(None),
        None => {},
    }
    let super_types = match db.super_types.get(id) {
        Some(super_types) => super_types,
        None => return Step::Done(None),
    };
    let ghost supers = types_view(*super_types);
    let mut i: usize = 0;
    proof {
        assert(supers.skip(0) =~= supers);
        assert forall|g: nat| #[trigger]
            generic_by_operator(s, base, args, g) == first_applied_by_operator(
            s,
            supers.skip(0),
            args,
            g,
        ) by {
            assert(generic_supers_by_operator(s, id@, args, g) == first_applied_by_operator(
                s,
                supers,
                args,
                g,
            ));
        }
    }
    while i < super_types.len()
        invariant
            i <= super_types@.len(),
            s == scope(*db, *cache, *expr),
            on == trail_types(trail),
            base == generic.base.ty(),
            *params == generic.params,
            args == types_view(generic.params),
            supers == types_view(*super_types),
            reach.spans(s),
            fuel >= reach.afresh(s, on),
            generic_by_operator(s, base, args, fuel) == first_applied_by_operator(
                s,
                supers.skip(i as int),
                args,
                fuel,
            ),
            forall|g: nat|
                cut(
                    #[trigger] generic_by_operator(s, base, args, g),
                    first_applied_by_operator(s, supers.skip(i as int), args, g),
                ),
        decreases super_types@.len() - i,
    {
        let ghost next = supers[i as int];
        assert(supers.skip(i as int)[0] == next);
        assert(supers.skip(i as int).drop_first() =~= supers.skip(i + 1));
        let out = infer_member_by_applied_operator(
            db,
            cache,
            &super_types[i],
            params,
            expr,
            trail,
            Ghost(reach),
            Ghost(fuel),
        );
        proof {
            assert forall|g: nat|
                !((#[trigger] generic_by_operator(s, base, args, g)) is Endless) implies (
            if out@ is Endless {
                some_by_operator_ends(s, on, g)
            } else {
                applied_by_operator(s, next, args, g) == out@
            }) by {
                assert(!(applied_by_operator(s, next, args, g) is Endless));
                if let Step::Done(Some(instance)) = s.cache.instance(next, args) {
                    lemma_by_operator_same(s, instance, Set::empty(), g, fuel);
                }
            }
        }
        match out {
            Step::Done(None) => {},
            out => return out,
        }
        i += 1;
    }
    Step::Done(None)
}

/// What a type gives through an index operator when its search starts anew,
/// with no declaration visited yet. A type that is on the trail needs its own
/// member.
fn start_by_operator(
    db: &DbIndex,
    cache: &LuaInferCache,
    t: &LuaType,
    expr: &LuaIndexMemberExpr,
    trail: Option<&Trail>,
    Ghost(reach): Ghost<Reach>,
    Ghost(fuel): Ghost<nat>,
) -> (r: InferStep)
    requires
        reach.spans(scope(*db, *cache, *expr)),
        reach.types.contains(t@),
        fuel >= reach.afresh(scope(*db, *cache, *expr), trail_types(trail)),
    ensures
        !(r@ is Endless) ==> r@ == by_operator(scope(*db, *cache, *expr), t@, Set::empty(), fuel).0,
        r@ is Endless ==> forall|g: nat|
            !((#[trigger] by_operator(scope(*db, *cache, *expr), t@, Set::empty(), g)).0
                is Endless) ==> some_by_operator_ends(
                scope(*db, *cache, *expr),
                trail_types(trail),
                g,
            ),
    decreases fuel, 1nat,
{
    let ghost s = scope(*db, *cache, *expr);
    if on_trail(trail, t) {
        return Step::Endless;
    }
    proof {
        reach.lemma_start(s, trail_types(trail), t@);
    }
    let here = Trail { ty: t, up: trail };
    let mut guard = InferGuard::new();
    let out = member_by_operator(
        db,
        cache,
        t,
        expr,
        &mut guard,
        Some(&here),
        Ghost(reach),
        Ghost(fuel),
    );
    proof {
        if out@ is Endless {
            assert forall|g: nat|
                !((#[trigger] by_operator(s, t@, Set::empty(), g)).0 is Endless) implies
                some_by_operator_ends(s, trail_types(trail), g) by {
                lemma_by_operator_unwinds(s, trail_types(trail), t@, g);
            }
        }
    }
    out
}

/// The member that a type gives through an index operator. The searches for
/// the types on the trail wait for this one.
fn member_by_operator(
    db: &DbIndex,
    cache: &LuaInferCache,
    t: &LuaType,
    expr: &LuaIndexMemberExpr,
    guard: &mut InferGuard,
    trail: Option<&Trail>,
    Ghost(reach): Ghost<Reach>,
    Ghost(fuel): Ghost<nat>,
) -> (r: InferStep)
    requires
        reach.spans(scope(*db, *cache, *expr)),
        reach.types.contains(t@),
        fuel > reach.onward(scope(*db, *cache, *expr), trail_types(trail), old(guard)@) + shells(
            t@,
        ),
    ensures
        !(r@ is Endless) ==> (r@, final(guard)@) == by_operator(
            scope(*db, *cache, *expr),
            t@,
            old(guard)@,
            fuel,
        ),
        r@ is Endless ==> by_operator_circles(
            scope(*db, *cache, *expr),
            trail_types(trail),
            t@,
            old(guard)@,
        ),
    decreases fuel, 0nat,
{
    if t.without_index_operator() {
        return Step::Done(None);
    }
    let ghost s = scope(*db, *cache, *expr);
    let ghost on = trail_types(trail);
    let ghost visited = guard@;
    let ghost rest = (fuel - 1) as nat;
    assert(holds_parts(reach.types, t@));
    let out = match t {
        LuaType::TableConst(range) => infer_member_by_index_table(db, cache, *range, expr),
        LuaType::Ref(id) | LuaType::Def(id) => infer_member_by_index_custom_type(
            db,
            cache,
            id,
            expr,
            guard,
            trail,
            Ghost(reach),
            Ghost(rest),
        ),
        LuaType::Array(base) => infer_member_by_index_array(cache, base, expr),
        LuaType::Object(object) => infer_member_by_index_object(cache, object, expr),
        LuaType::Union(types) => infer_member_by_index_union(
            db,
            cache,
            types,
            expr,
            trail,
            Ghost(reach),
            Ghost(rest),
        ),
        LuaType::Intersection(types) => infer_member_by_index_intersection(
            db,
            cache,
            types,
            expr,
            trail,
            Ghost(reach),
            Ghost(rest),
        ),
        LuaType::Generic(generic) => infer_member_by_index_generic(
            db,
            cache,
            generic,
            expr,
            trail,
            Ghost(reach),
            Ghost(rest),
        ),
        LuaType::TableGeneric(params) => infer_member_by_index_table_generic(cache, params, expr),
        _ => Step::Done(None),
    };
    proof {
        if out@ is Endless {
            assert forall|g: nat|
                !((#[trigger] by_operator(s, t@, visited, g)).0 is Endless) implies g > 0
                && some_by_operator_ends(s, on, (g - 1) as nat) by {
                let less = (g - 1) as nat;
                match t@ {
                    Ty::Union(parts) => {
                        assert(!(union_of(each_by_operator(s, parts, less)) is Endless));
                    },
                    Ty::Intersection(parts) => {
                        assert(!(intersection_of(each_by_operator(s, parts, less), Ty::Unknown)
                            is Endless));
                    },
                    Ty::Generic(base, params) => {
                        assert(!(generic_by_operator(s, *base, params, less) is Endless));
                    },
                    Ty::Ref(id) | Ty::Def(id) => {
                        assert(!(decl_by_operator(s, id, visited, less).0 is Endless));
                    },
                    _ => {},
                }
            }
        }
    }
    out
}

/// The member that `prefix_type` gives through an index operator under the
/// key of `index_expr`. Type declarations that `infer_guard` has visited are
/// not visited again. Once a question has been answered, the search starts over
/// with the guard as it was before.
pub fn infer_member_by_operator(
    db: &DbIndex,
    cache: &LuaInferCache,
    prefix_type: &LuaType,
    index_expr: &LuaIndexMemberExpr,
    infer_guard: &mut InferGuard,
) -> (r: InferStep)
    ensures
        by_operator_comes_to(
            scope(*db, *cache, *index_expr),
            prefix_type@,
            old(infer_guard)@,
            r@,
            final(infer_guard)@,
        ),
{
    let ghost s = scope(*db, *cache, *index_expr);
    let ghost reach = lemma_reach(s, prefix_type@);
    let ghost fuel = reach.onward(s, Set::empty(), infer_guard@) + shells(prefix_type@) + 1;
    let out = member_by_operator(
        db,
        cache,
        prefix_type,
        index_expr,
        infer_guard,
        None,
        Ghost(reach),
        Ghost(fuel),
    );
    proof {
        lemma_by_operator_comes_to(s, prefix_type@, old(infer_guard)@, out@, infer_guard@, fuel);
    }
    out
}

// ---------------------------------------------------------------------------
// Index expressions
// ---------------------------------------------------------------------------

/// The member of a type: by key, else through an operator.
fn infer_member_type(
    db: &DbIndex,
    cache: &LuaInferCache,
    prefix_type: &LuaType,
    expr: &LuaIndexMemberExpr,
) -> (r: InferStep)
    ensures
        member_type_comes_to(scope(*db, *cache, *expr), prefix_type@, r@),
{
    let ghost s = scope(*db, *cache, *expr);
    let ghost t = prefix_type@;
    let mut guard = InferGuard::new();
    match infer_member_by_member_key(db, cache, prefix_type, expr, &mut guard) {
        Step::Done(None) => {},
        out => {
            assert(!(out@ is Endless) ==> exists|fuel: nat|
                !((#[trigger] member_type(s, t, fuel)) is Endless)) by {
                if !(out@ is Endless) {
                    let fuel = choose|fuel: nat|
                        !((#[trigger] by_key(s, t, Set::empty(), fuel)).0 is Endless);
                    assert(member_type(s, t, fuel) == out@);
                }
            }
            assert(forall|fuel: nat|
                member_type(s, t, fuel) == by_key(s, t, Set::empty(), fuel).0);
            return out;
        },
    }
    let ghost fuel1 = choose|fuel: nat|
        !((#[trigger] by_key(s, t, Set::empty(), fuel)).0 is Endless);
    let mut guard = InferGuard::new();
    let out = infer_member_by_operator(db, cache, prefix_type, expr, &mut guard);
    proof {
        if !(out@ is Endless) {
            let fuel2 = choose|fuel: nat|
                !((#[trigger] by_operator(s, t, Set::empty(), fuel)).0 is Endless);
            let fuel = fuel1 + fuel2;
            lemma_by_key_same(s, t, Set::empty(), fuel1, fuel);
            lemma_by_operator_same(s, t, Set::empty(), fuel2, fuel);
            assert(!(member_type(s, t, fuel) is Endless));
        }
    }
    match out {
        Step::Done(None) => {},
        out => return out,
    }
    if cache.config.analysis_phase.is_force() {
        Step::Done(Some(LuaType::Unknown))
    } else {
        Step::Done(None)
    }
}

/// What control flow leaves of the type of an index expression.
fn infer_flow_type(cache: &LuaInferCache, expr: &LuaIndexExpr, t: LuaType) -> (r: InferStep)
    ensures
        r@ == flow_type(*cache, *expr, t@),
{
    let chain = match cache.get_flow_chain(expr.id) {
        Step::Done(Some(chain)) => chain,
        Step::Done(None) => return Step::Done(Some(t)),
        Step::Ask(q) => return Step::Ask(q),
        Step::Endless => return Step::Endless,
    };
    let path = match &expr.access_path {
        Some(path) => path,
        None => return Step::Done(Some(t)),
    };
    let assertions = match cache.get_type_asserts(chain, path, expr.id.range.start) {
        Step::Done(assertions) => assertions,
        Step::Ask(q) => return Step::Ask(q),
        Step::Endless => return Step::Endless,
    };
    let ghost start = t@;
    let mut member_type = t;
    let mut i: usize = 0;
    assert(assertions@.skip(0) =~= assertions@);
    while i < assertions.len()
        invariant
            i <= assertions@.len(),
            start == t@,
            flow_type(*cache, *expr, start) == tightened(*cache, assertions@, start),
            tightened(*cache, assertions@, start) == tightened(
                *cache,
                assertions@.skip(i as int),
                member_type@,
            ),
        decreases assertions@.len() - i,
    {
        assert(assertions@.skip(i as int)[0] == assertions@[i as int]);
        assert(assertions@.skip(i as int).drop_first() =~= assertions@.skip(i + 1));
        match cache.tighten_type(assertions[i], &member_type) {
            Step::Done(Some(t)) => member_type = t,
            Step::Done(None) => member_type = LuaType::Unknown,
            out => return out,
        }
        i += 1;
    }
    Step::Done(Some(member_type))
}

/// The type of an index expression.
pub fn infer_index_expr(
    db: &DbIndex,
    cache: &LuaInferCache,
    index_expr: &LuaIndexExpr,
) -> (r: InferStep)
    ensures
        index_type_comes_to(*db, *cache, *index_expr, r@),
{
    let prefix = match &index_expr.prefix {
        Some(prefix) => prefix,
        None => return Step::Done(None),
    };
    let prefix_type = match cache.infer_expr_type(prefix) {
        Step::Done(Some(t)) => t,
        out => {
            assert(index_type(*db, *cache, *index_expr, 0) == out@);
            return out;
        },
    };
    let ghost s = scope(*db, *cache, index_expr.member);
    let ghost t = prefix_type@;
    let found = infer_member_type(db, cache, &prefix_type, &index_expr.member);
    let ghost enough = choose|fuel: nat| !((#[trigger] member_type(s, t, fuel)) is Endless);
    assert(index_type(*db, *cache, *index_expr, enough) is Endless ==> found@ is Endless) by {
        if let Step::Done(Some(member)) = found@ {
            lemma_flow_type_ends(*cache, *index_expr, member);
        }
    }
    let member = match found {
        Step::Done(Some(member)) => member,
        out => return out,
    };
    if let LuaType::Array(_) = prefix_type {
        return Step::Done(Some(member));
    }
    proof {
        lemma_flow_type_ends(*cache, *index_expr, member@);
    }
    infer_flow_type(cache, index_expr, member)
}

} // verus!
