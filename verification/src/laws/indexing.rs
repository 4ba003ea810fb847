//! What an index expression is made of: its prefix, the member, control flow.

use crate::cache::{InferOut, LuaInferCache, Step};
use crate::db::DbIndex;
use crate::model::{
    by_key, by_operator, flow_type, found, index_type, member_type, missing, scope, tightened,
    Scope,
};
use crate::syntax::{IndexKey, LuaIndexExpr};
use crate::text::smol_chars;
use crate::types::Ty;
use vstd::prelude::*;

verus! {

/// A member by key comes first, then one through operators, whatever the phase
/// of the analysis. Only where there is neither is the member missing, or, once
/// everything has been analysed, of unknown type.
pub proof fn law_member_of_a_type(s: Scope, t: Ty, fuel: nat)
    ensures
        ({
            let keyed = by_key(s, t, Set::empty(), fuel).0;
            let indexed = by_operator(s, t, Set::empty(), fuel).0;
            &&& keyed != missing() ==> member_type(s, t, fuel) == keyed
            &&& keyed == missing() && indexed != missing() ==> member_type(s, t, fuel) == indexed
            &&& keyed == missing() && indexed == missing() ==> member_type(s, t, fuel) == (
            if s.cache.config.analysis_phase is Force {
                found(Ty::Unknown)
            } else {
                missing()
            })
        }),
{
}

/// Under an integer, and under an expression that is a number, the member of an
/// array is its element type in every phase of the analysis.
pub proof fn law_element_in_every_phase(s: Scope, base: Ty, fuel: nat)
    requires
        fuel > 0,
        match s.key {
            Some(IndexKey::Integer(_)) => true,
            Some(IndexKey::Expr(e)) => match s.cache.expr_type(e) {
                Step::Done(Some(t)) => t.is_number(),
                _ => false,
            },
            _ => false,
        },
    ensures
        member_type(s, Ty::Array(Box::new(base)), fuel) == found(base),
{
}

/// An index expression without a prefix has no type, and neither has one whose
/// prefix has none. What is asked to infer its prefix is asked for it too.
pub proof fn law_prefix_first(
    db: DbIndex,
    cache: LuaInferCache,
    expr: LuaIndexExpr,
    fuel: nat,
)
    ensures
        expr.prefix is None ==> index_type(db, cache, expr, fuel) == missing(),
        expr.prefix matches Some(prefix) ==> match cache.expr_type(prefix.id()) {
            Step::Done(Some(_)) => true,
            out => index_type(db, cache, expr, fuel) == out,
        },
{
}

/// An index expression whose prefix has a type has the type of the member,
/// where that is an array, and else what control flow leaves of it. Where there
/// is no member, it has no type.
pub proof fn law_member_then_flow(
    db: DbIndex,
    cache: LuaInferCache,
    expr: LuaIndexExpr,
    prefix: Ty,
    fuel: nat,
)
    requires
        expr.prefix is Some,
        cache.expr_type(expr.prefix.unwrap().id()) == found(prefix),
    ensures
        match member_type(scope(db, cache, expr.member), prefix, fuel) {
            Step::Done(Some(member)) => index_type(db, cache, expr, fuel) == (
            if prefix is Array {
                found(member)
            } else {
                flow_type(cache, expr, member)
            }),
            out => index_type(db, cache, expr, fuel) == out,
        },
{
}

/// Control flow leaves a type as it is where the expression lies in no flow
/// chain or has no access path. Else it leaves what the type assertions leave
/// that hold of the path at the start of the expression.
pub proof fn law_flow(cache: LuaInferCache, expr: LuaIndexExpr, t: Ty)
    ensures
        match cache.flow_chain(expr.id) {
            Step::Done(None) => flow_type(cache, expr, t) == found(t),
            Step::Ask(q) => flow_type(cache, expr, t) == InferOut::Ask(q),
            Step::Endless => true,
            Step::Done(Some(chain)) => match expr.access_path {
                None => flow_type(cache, expr, t) == found(t),
                Some(path) => match cache.asserts(chain, smol_chars(path), expr.id.range.start) {
                    Step::Done(assertions) => flow_type(cache, expr, t) == tightened(
                        cache,
                        assertions,
                        t,
                    ),
                    Step::Ask(q) => flow_type(cache, expr, t) == InferOut::Ask(q),
                    Step::Endless => true,
                },
            },
        },
{
}

/// Type assertions apply one after the other, each to what the one before left.
/// One that leaves nothing leaves an unknown type to the next; none leaves a
/// type as it is.
pub proof fn law_assertions_in_order(
    cache: LuaInferCache,
    a: Seq<u64>,
    b: Seq<u64>,
    one: u64,
    t: Ty,
)
    ensures
        tightened(cache, Seq::empty(), t) == found(t),
        match cache.tightening(one, t) {
            Step::Done(Some(left)) => tightened(cache, seq![one], t) == found(left),
            Step::Done(None) => tightened(cache, seq![one], t) == found(Ty::Unknown),
            out => tightened(cache, seq![one], t) == out,
        },
        match tightened(cache, a, t) {
            Step::Done(Some(left)) => tightened(cache, a + b, t) == tightened(cache, b, left),
            out => tightened(cache, a + b, t) == out,
        },
    decreases a.len(),
{
    let none = Seq::<u64>::empty();
    assert(seq![one].drop_first() =~= none);
    assert(tightened(cache, none, t) == found(t));
    assert(tightened(cache, none, Ty::Unknown) == found(Ty::Unknown));
    if let Step::Done(Some(left)) = cache.tightening(one, t) {
        assert(tightened(cache, none, left) == found(left));
    }
    if a.len() == 0 {
        assert(a + b =~= b);
    } else {
        assert((a + b).drop_first() =~= a.drop_first() + b);
        assert((a + b)[0] == a[0]);
        law_assertions_in_order(cache, a.drop_first(), b, one, Ty::Unknown);
        if let Step::Done(Some(left)) = cache.tightening(a[0], t) {
            law_assertions_in_order(cache, a.drop_first(), b, one, left);
        }
    }
}

} // verus!
