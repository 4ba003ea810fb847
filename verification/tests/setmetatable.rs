use lua_member_infer::cache::{
    CallStep, InferFailReason, LuaAnalysisPhase, LuaInferCache, LuaInferConfig, LuaMemberInfo,
    Query, Step,
};
use lua_member_infer::infer_setmetatable::infer_setmetatable_call;
use lua_member_infer::syntax::{
    FileId, InFiled, LuaCallExpr, LuaExpr, LuaIndexKey, LuaSyntaxId, LuaSyntaxKind, LuaTableExpr,
    LuaTableField, TextRange,
};
use lua_member_infer::types::{LuaMemberKey, LuaType, LuaTypeDeclId};
use smol_str::SmolStr;

fn cache() -> LuaInferCache {
    LuaInferCache::new(
        FileId { id: 6 },
        LuaInferConfig { analysis_phase: LuaAnalysisPhase::Ordered },
    )
}

fn id(kind: LuaSyntaxKind, start: u32) -> LuaSyntaxId {
    LuaSyntaxId { kind, range: TextRange { start, end: start + 2 } }
}

fn name(start: u32) -> LuaExpr {
    LuaExpr::NameExpr(id(LuaSyntaxKind::NameExpr, start))
}

fn table(start: u32, fields: Vec<LuaTableField>) -> LuaExpr {
    LuaExpr::TableExpr(LuaTableExpr { id: id(LuaSyntaxKind::TableObjectExpr, start), fields })
}

fn field(key: &str, value: Option<LuaExpr>) -> LuaTableField {
    LuaTableField { key: Some(LuaIndexKey::Name(SmolStr::new(key))), value }
}

fn call(args: Vec<LuaExpr>) -> LuaCallExpr {
    LuaCallExpr { args: Some(args) }
}

fn class(name: &str) -> LuaType {
    LuaType::Ref(LuaTypeDeclId::new(name))
}

fn info(name: &str, typ: LuaType) -> LuaMemberInfo {
    LuaMemberInfo {
        key: LuaMemberKey::Name(SmolStr::new(name)),
        path: SmolStr::new(name),
        typ,
    }
}

fn done(step: CallStep) -> Result<LuaType, InferFailReason> {
    match step {
        Step::Done(t) => t,
        other => panic!("not done: {:?}", other),
    }
}

fn asked(step: CallStep) -> LuaSyntaxId {
    match step {
        Step::Ask(Query::Expr(id)) => id,
        other => panic!("{:?}", other),
    }
}

#[test]
fn call_without_arguments_fails() {
    let step = infer_setmetatable_call(&cache(), &LuaCallExpr { args: None });
    assert_eq!(done(step), Err(InferFailReason::NoReason));
}

#[test]
fn other_arity_is_of_any_type() {
    for args in [vec![], vec![name(1)], vec![name(1), name(5), name(9)]] {
        let step = infer_setmetatable_call(&cache(), &call(args));
        assert_eq!(done(step), Ok(LuaType::Any));
    }
}

#[test]
fn empty_table_takes_the_type_of_index() {
    let mut cache = cache();
    let c = call(vec![table(1, vec![]), table(10, vec![field("__index", Some(name(12)))])]);
    assert_eq!(
        asked(infer_setmetatable_call(&cache, &c)),
        id(LuaSyntaxKind::NameExpr, 12)
    );
    cache.exprs.insert(id(LuaSyntaxKind::NameExpr, 12), Ok(class("A")));
    assert_eq!(done(infer_setmetatable_call(&cache, &c)), Ok(class("A")));
    cache.exprs.insert(id(LuaSyntaxKind::NameExpr, 12), Err(InferFailReason::Other(3)));
    assert_eq!(
        done(infer_setmetatable_call(&cache, &c)),
        Err(InferFailReason::Other(3))
    );
}

#[test]
fn index_field_may_be_written_as_a_string() {
    let mut cache = cache();
    cache.exprs.insert(id(LuaSyntaxKind::NameExpr, 12), Ok(class("A")));
    let quoted = LuaTableField {
        key: Some(LuaIndexKey::String(SmolStr::new("__index"))),
        value: Some(name(12)),
    };
    let other = field("__call", Some(name(30)));
    let positional = LuaTableField { key: None, value: Some(name(40)) };
    let integer = LuaTableField { key: Some(LuaIndexKey::Integer(1)), value: Some(name(50)) };
    let fields = vec![other, positional, integer, quoted];
    let c = call(vec![table(1, vec![]), table(10, fields)]);
    assert_eq!(done(infer_setmetatable_call(&cache, &c)), Ok(class("A")));
}

#[test]
fn index_field_without_value_fails() {
    let c = call(vec![table(1, vec![]), table(10, vec![field("__index", None)])]);
    assert_eq!(
        done(infer_setmetatable_call(&cache(), &c)),
        Err(InferFailReason::NoReason)
    );
}

#[test]
fn index_field_that_is_no_table_is_passed_over() {
    let mut cache = cache();
    let function = LuaExpr::Other(id(LuaSyntaxKind::Other(9), 12));
    let c = call(vec![name(1), table(10, vec![field("__index", Some(function))])]);
    let metatable = id(LuaSyntaxKind::TableObjectExpr, 10);
    assert_eq!(asked(infer_setmetatable_call(&cache, &c)), metatable);
    cache.exprs.insert(metatable, Ok(class("Meta")));
    assert_eq!(done(infer_setmetatable_call(&cache, &c)), Ok(class("Meta")));
}

#[test]
fn value_of_unknown_metatable_keeps_its_type() {
    let mut cache = cache();
    let c = call(vec![name(1), name(5)]);
    assert_eq!(
        asked(infer_setmetatable_call(&cache, &c)),
        id(LuaSyntaxKind::NameExpr, 5)
    );
    cache.exprs.insert(id(LuaSyntaxKind::NameExpr, 5), Ok(LuaType::Unknown));
    assert_eq!(
        asked(infer_setmetatable_call(&cache, &c)),
        id(LuaSyntaxKind::NameExpr, 1)
    );
    cache.exprs.insert(id(LuaSyntaxKind::NameExpr, 1), Ok(class("A")));
    assert_eq!(done(infer_setmetatable_call(&cache, &c)), Ok(class("A")));
    cache.exprs.insert(id(LuaSyntaxKind::NameExpr, 1), Err(InferFailReason::Other(1)));
    assert_eq!(
        done(infer_setmetatable_call(&cache, &c)),
        Err(InferFailReason::Other(1))
    );
    cache.exprs.insert(id(LuaSyntaxKind::NameExpr, 5), Ok(class("B")));
    assert_eq!(done(infer_setmetatable_call(&cache, &c)), Ok(class("B")));
}

fn own_type() -> LuaType {
    LuaType::TableConst(InFiled {
        file_id: FileId { id: 6 },
        value: TextRange { start: 1, end: 3 },
    })
}

/// `setmetatable({ x = .. }, Meta)`, where the table has the given members.
fn described(meta: Vec<LuaMemberInfo>, members: Vec<LuaMemberInfo>) -> LuaInferCache {
    let mut cache = cache();
    cache.exprs.insert(id(LuaSyntaxKind::NameExpr, 20), Ok(class("Meta")));
    cache.exprs.insert(id(LuaSyntaxKind::TableObjectExpr, 1), Ok(own_type()));
    cache.members.insert(class("Meta"), Some(meta));
    cache.members.insert(
        class("Index"),
        Some(vec![info("x", LuaType::Nil), info("y", LuaType::Nil)]),
    );
    cache.members.insert(class("Small"), Some(vec![]));
    cache.members.insert(class("Odd"), None);
    cache.members.insert(own_type(), Some(members));
    cache
}

fn described_call() -> LuaCallExpr {
    call(vec![table(1, vec![field("x", Some(name(3)))]), name(20)])
}

fn described_type(meta: Vec<LuaMemberInfo>, members: Vec<LuaMemberInfo>) -> LuaType {
    let step = infer_setmetatable_call(&described(meta, members), &described_call());
    done(step).unwrap()
}

#[test]
fn table_whose_members_are_all_indexed_takes_the_metatable() {
    let x = || vec![info("x", LuaType::String)];
    let z = || vec![info("x", LuaType::String), info("z", LuaType::String)];
    let index = |name: &str| info("__index", class(name));
    assert_eq!(described_type(vec![index("Index")], x()), class("Meta"));
    assert_eq!(described_type(vec![index("Index")], vec![]), class("Meta"));
    assert_eq!(described_type(vec![index("Index")], z()), own_type());
    assert_eq!(described_type(vec![info("__call", class("Index"))], x()), own_type());
    assert_eq!(described_type(vec![], x()), own_type());
    assert_eq!(described_type(vec![index("Small"), index("Index")], x()), class("Meta"));
    assert_eq!(described_type(vec![index("Small")], x()), own_type());
    assert_eq!(described_type(vec![index("Odd"), index("Index")], x()), own_type());
}

#[test]
fn table_whose_members_are_not_known_keeps_its_type() {
    let mut cache = described(vec![info("__index", class("Index"))], vec![]);
    cache.members.insert(own_type(), None);
    let step = infer_setmetatable_call(&cache, &described_call());
    assert_eq!(done(step), Ok(own_type()));
    cache.exprs.insert(
        id(LuaSyntaxKind::TableObjectExpr, 1),
        Err(InferFailReason::NoReason),
    );
    let step = infer_setmetatable_call(&cache, &described_call());
    assert_eq!(done(step), Ok(own_type()));
    cache.members.insert(class("Meta"), None);
    let step = infer_setmetatable_call(&cache, &described_call());
    assert_eq!(done(step), Ok(own_type()));
}

#[test]
fn members_of_the_metatable_are_asked_for() {
    let mut cache = cache();
    cache.exprs.insert(id(LuaSyntaxKind::NameExpr, 20), Ok(class("Meta")));
    assert!(matches!(
        infer_setmetatable_call(&cache, &described_call()),
        Step::Ask(Query::Members(t)) if t == class("Meta")
    ));
}

#[test]
fn result_depends_on_the_answers_asked_for_only() {
    let x = || vec![info("x", LuaType::String)];
    let mut cache = described(vec![info("__index", class("Index"))], x());
    cache.exprs.insert(id(LuaSyntaxKind::NameExpr, 99), Ok(LuaType::Nil));
    cache.members.insert(LuaType::Nil, None);
    let step = infer_setmetatable_call(&cache, &described_call());
    assert_eq!(done(step), Ok(class("Meta")));
}

#[test]
fn empty_table_with_a_named_metatable_is_described_too() {
    let cache = described(vec![info("__index", class("Index"))], vec![]);
    let c = call(vec![table(1, vec![]), name(20)]);
    assert_eq!(done(infer_setmetatable_call(&cache, &c)), Ok(class("Meta")));
    let cache = described(vec![], vec![]);
    assert_eq!(done(infer_setmetatable_call(&cache, &c)), Ok(own_type()));
}
