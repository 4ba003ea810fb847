use lua_member_infer::cache::{
    AssertPoint, InferFailReason, InferStep, LuaAnalysisPhase, LuaInferCache, LuaInferConfig,
    Query, Step, Tightening,
};
use lua_member_infer::db::{
    DbIndex, LuaDeclTypeKind, LuaMemberSlot, LuaOperator, LuaOperatorId, LuaOperatorMetaMethod,
    LuaTypeDecl,
};
use lua_member_infer::infer_index::infer_index_expr;
use lua_member_infer::syntax::{
    FileId, LuaChunk, LuaExpr, LuaIndexExpr, LuaIndexKey, LuaIndexMemberExpr, LuaSyntaxId,
    LuaSyntaxKind, TextRange,
};
use lua_member_infer::table::Table;
use lua_member_infer::types::{LuaMemberKey, LuaMemberOwner, LuaType, LuaTypeDeclId};
use smol_str::SmolStr;

fn cache(analysis_phase: LuaAnalysisPhase) -> LuaInferCache {
    LuaInferCache::new(FileId { id: 1 }, LuaInferConfig { analysis_phase })
}

fn prefix() -> LuaSyntaxId {
    LuaSyntaxId {
        kind: LuaSyntaxKind::NameExpr,
        range: TextRange { start: 4, end: 5 },
    }
}

fn whole() -> LuaSyntaxId {
    LuaSyntaxId {
        kind: LuaSyntaxKind::IndexExpr,
        range: TextRange { start: 4, end: 7 },
    }
}

fn class_a() -> DbIndex {
    let mut db = DbIndex::new();
    let id = || LuaTypeDeclId::new("A");
    db.type_decls.insert(
        id(),
        LuaTypeDecl { kind: LuaDeclTypeKind::Class, alias_origin: None },
    );
    let slot = LuaMemberSlot {
        owner: LuaMemberOwner::Type(id()),
        key: LuaMemberKey::Name(SmolStr::new("x")),
    };
    db.members.insert(slot, Some(LuaType::Integer));
    db
}

fn a() -> LuaType {
    LuaType::Ref(LuaTypeDeclId::new("A"))
}

fn infer_with(
    db: &DbIndex,
    cache: &LuaInferCache,
    key: LuaIndexKey,
    path: Option<&str>,
) -> InferStep {
    let root = LuaChunk { tables: Table::new() };
    let expr = LuaIndexExpr {
        id: whole(),
        prefix: Some(LuaExpr::NameExpr(prefix())),
        member: LuaIndexMemberExpr { root: &root, key: Some(key) },
        access_path: path.map(SmolStr::new),
    };
    infer_index_expr(db, cache, &expr)
}

fn infer(db: &DbIndex, cache: &LuaInferCache, name: &str) -> InferStep {
    infer_with(db, cache, LuaIndexKey::Name(SmolStr::new(name)), Some("a.x"))
}

fn done(step: InferStep) -> Option<LuaType> {
    match step {
        Step::Done(t) => t,
        other => panic!("not done: {:?}", other),
    }
}

#[test]
fn expression_without_prefix_has_no_type() {
    let root = LuaChunk { tables: Table::new() };
    let expr = LuaIndexExpr {
        id: whole(),
        prefix: None,
        member: LuaIndexMemberExpr { root: &root, key: None },
        access_path: None,
    };
    let step = infer_index_expr(&class_a(), &cache(LuaAnalysisPhase::Force), &expr);
    assert_eq!(done(step), None);
}

#[test]
fn prefix_is_asked_for_first() {
    let mut cache = cache(LuaAnalysisPhase::Ordered);
    assert!(matches!(
        infer(&class_a(), &cache, "x"),
        Step::Ask(Query::Expr(id)) if id == prefix()
    ));
    cache.exprs.insert(prefix(), Err(InferFailReason::NoReason));
    assert_eq!(done(infer(&class_a(), &cache, "x")), None);
}

#[test]
fn missing_member_is_unknown_once_forced() {
    let mut ordered = cache(LuaAnalysisPhase::Ordered);
    ordered.exprs.insert(prefix(), Ok(a()));
    assert_eq!(done(infer(&class_a(), &ordered, "y")), None);
    let mut unordered = cache(LuaAnalysisPhase::Unordered);
    unordered.exprs.insert(prefix(), Ok(a()));
    assert_eq!(done(infer(&class_a(), &unordered, "y")), None);
    let mut forced = cache(LuaAnalysisPhase::Force);
    forced.exprs.insert(prefix(), Ok(a()));
    forced.flow_chains.insert(whole(), None);
    assert_eq!(done(infer(&class_a(), &forced, "y")), Some(LuaType::Unknown));
    assert_eq!(done(infer(&class_a(), &forced, "x")), Some(LuaType::Integer));
}

#[test]
fn questions_lead_to_the_narrowed_type() {
    let db = class_a();
    let mut cache = cache(LuaAnalysisPhase::Ordered);
    let mut asked = 0;
    let t = loop {
        match infer(&db, &cache, "x") {
            Step::Done(t) => break t,
            Step::Ask(Query::Expr(id)) => cache.exprs.insert(id, Ok(a())),
            Step::Ask(Query::FlowChain(id)) => {
                assert_eq!(id, whole());
                cache.flow_chains.insert(id, Some(7));
            }
            Step::Ask(Query::TypeAsserts(q)) => {
                assert_eq!(q.chain, 7);
                assert_eq!(q.path.as_str(), "a.x");
                assert_eq!(q.position, 4);
                cache.type_asserts.insert(q, vec![1, 2]);
            }
            Step::Ask(Query::Tighten(q)) => {
                let t = if q.assertion == 1 {
                    assert_eq!(q.ty, LuaType::Integer);
                    LuaType::Number
                } else {
                    assert_eq!(q.assertion, 2);
                    assert_eq!(q.ty, LuaType::Number);
                    LuaType::IntegerConst(5)
                };
                cache.tightenings.insert(q, Some(t));
            }
            other => panic!("{:?}", other),
        }
        asked += 1;
    };
    assert_eq!(t, Some(LuaType::IntegerConst(5)));
    assert_eq!(asked, 5);
}

#[test]
fn assertion_that_leaves_nothing_makes_the_type_unknown() {
    let mut cache = cache(LuaAnalysisPhase::Ordered);
    cache.exprs.insert(prefix(), Ok(a()));
    cache.flow_chains.insert(whole(), Some(7));
    let point = AssertPoint { chain: 7, path: SmolStr::new("a.x"), position: 4 };
    cache.type_asserts.insert(point, vec![1]);
    cache.tightenings.insert(Tightening { assertion: 1, ty: LuaType::Integer }, None);
    assert_eq!(done(infer(&class_a(), &cache, "x")), Some(LuaType::Unknown));
}

#[test]
fn expression_outside_of_flow_is_not_narrowed() {
    let mut cache = cache(LuaAnalysisPhase::Ordered);
    cache.exprs.insert(prefix(), Ok(a()));
    cache.flow_chains.insert(whole(), None);
    assert_eq!(done(infer(&class_a(), &cache, "x")), Some(LuaType::Integer));
    cache.flow_chains.insert(whole(), Some(7));
    let key = LuaIndexKey::Name(SmolStr::new("x"));
    let step = infer_with(&class_a(), &cache, key, None);
    assert_eq!(done(step), Some(LuaType::Integer));
}

#[test]
fn elements_of_arrays_are_not_narrowed() {
    let mut cache = cache(LuaAnalysisPhase::Ordered);
    cache.exprs.insert(prefix(), Ok(LuaType::Array(Box::new(LuaType::String))));
    let step = infer_with(&DbIndex::new(), &cache, LuaIndexKey::Integer(1), Some("a.x"));
    assert_eq!(done(step), Some(LuaType::String));
}

#[test]
fn more_answers_keep_the_result() {
    let mut cache = cache(LuaAnalysisPhase::Ordered);
    cache.exprs.insert(prefix(), Ok(a()));
    cache.flow_chains.insert(whole(), None);
    let before = done(infer(&class_a(), &cache, "x"));
    cache.exprs.insert(whole(), Ok(LuaType::Nil));
    cache.members.insert(a(), None);
    assert_eq!(done(infer(&class_a(), &cache, "x")), before);
}

#[test]
fn endless_types_are_reported() {
    let mut db = class_a();
    let origin = LuaType::Union(vec![a()]);
    db.type_decls.insert(
        LuaTypeDeclId::new("A"),
        LuaTypeDecl { kind: LuaDeclTypeKind::Alias, alias_origin: Some(origin) },
    );
    let mut cache = cache(LuaAnalysisPhase::Force);
    cache.exprs.insert(prefix(), Ok(a()));
    assert!(matches!(infer(&db, &cache, "x"), Step::Endless));
}

#[test]
fn members_by_key_come_before_operators() {
    let mut db = class_a();
    let id = LuaOperatorId { id: 1 };
    let operator = LuaOperator { operands: vec![LuaType::String], result: LuaType::Thread };
    db.operators.insert(id, operator);
    let mut methods = Table::new();
    methods.insert(LuaOperatorMetaMethod::Index, vec![id]);
    db.type_operators.insert(LuaTypeDeclId::new("A"), methods);
    let mut cache = cache(LuaAnalysisPhase::Ordered);
    cache.exprs.insert(prefix(), Ok(a()));
    cache.flow_chains.insert(whole(), None);
    assert_eq!(done(infer(&db, &cache, "x")), Some(LuaType::Integer));
    assert_eq!(done(infer(&db, &cache, "y")), Some(LuaType::Thread));
}
