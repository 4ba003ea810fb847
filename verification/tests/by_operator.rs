use lua_member_infer::cache::{
    AppliedDecl, AppliedType, InferFailReason, InferGuard, InferStep, LuaAnalysisPhase,
    LuaInferCache, LuaInferConfig, Query, Step, TypePair,
};
use lua_member_infer::db::{
    DbIndex, LuaDeclTypeKind, LuaOperator, LuaOperatorId, LuaOperatorMetaMethod, LuaTypeDecl,
};
use lua_member_infer::infer_index::infer_member_by_operator;
use lua_member_infer::syntax::{
    FileId, InFiled, LuaChunk, LuaExpr, LuaIndexKey, LuaIndexMemberExpr, LuaSyntaxId,
    LuaSyntaxKind, LuaTableExpr, LuaTableField, TextRange,
};
use lua_member_infer::table::Table;
use lua_member_infer::types::{LuaGenericType, LuaObjectType, LuaType, LuaTypeDeclId};
use smol_str::SmolStr;

fn cache() -> LuaInferCache {
    LuaInferCache::new(
        FileId { id: 1 },
        LuaInferConfig { analysis_phase: LuaAnalysisPhase::Ordered },
    )
}

fn refer(name: &str) -> LuaType {
    LuaType::Ref(LuaTypeDeclId::new(name))
}

fn node(start: u32, end: u32) -> LuaSyntaxId {
    LuaSyntaxId { kind: LuaSyntaxKind::NameExpr, range: TextRange { start, end } }
}

fn declare(db: &mut DbIndex, name: &str, kind: LuaDeclTypeKind, origin: Option<LuaType>) {
    db.type_decls.insert(LuaTypeDeclId::new(name), LuaTypeDecl { kind, alias_origin: origin });
}

fn class(db: &mut DbIndex, name: &str, supers: Vec<LuaType>) {
    declare(db, name, LuaDeclTypeKind::Class, None);
    db.super_types.insert(LuaTypeDeclId::new(name), supers);
}

/// Declares index operators, numbered from `first`.
fn operators(db: &mut DbIndex, name: &str, first: u64, ops: Vec<(LuaType, LuaType)>) {
    let mut ids = Vec::new();
    for (i, (operand, result)) in ops.into_iter().enumerate() {
        let id = LuaOperatorId { id: first + i as u64 };
        db.operators.insert(id, LuaOperator { operands: vec![operand], result });
        ids.push(id);
    }
    let mut methods = Table::new();
    methods.insert(LuaOperatorMetaMethod::Index, ids);
    db.type_operators.insert(LuaTypeDeclId::new(name), methods);
}

fn named(name: &str) -> Option<LuaIndexKey> {
    Some(LuaIndexKey::Name(SmolStr::new(name)))
}

fn quoted(name: &str) -> Option<LuaIndexKey> {
    Some(LuaIndexKey::String(SmolStr::new(name)))
}

fn integer(i: i64) -> Option<LuaIndexKey> {
    Some(LuaIndexKey::Integer(i))
}

fn expr(start: u32) -> Option<LuaIndexKey> {
    Some(LuaIndexKey::Expr(LuaExpr::NameExpr(node(start, start + 1))))
}

fn knowing(start: u32, t: LuaType) -> LuaInferCache {
    let mut cache = cache();
    cache.exprs.insert(node(start, start + 1), Ok(t));
    cache
}

fn step_in(
    root: &LuaChunk,
    db: &DbIndex,
    cache: &LuaInferCache,
    t: &LuaType,
    key: Option<LuaIndexKey>,
) -> InferStep {
    let expr = LuaIndexMemberExpr { root, key };
    infer_member_by_operator(db, cache, t, &expr, &mut InferGuard::new())
}

fn step(db: &DbIndex, cache: &LuaInferCache, t: &LuaType, key: Option<LuaIndexKey>) -> InferStep {
    step_in(&LuaChunk { tables: Table::new() }, db, cache, t, key)
}

fn done(step: InferStep) -> Option<LuaType> {
    match step {
        Step::Done(t) => t,
        other => panic!("not done: {:?}", other),
    }
}

#[test]
fn values_without_operators() {
    let db = DbIndex::new();
    let cache = cache();
    for t in [
        LuaType::Any,
        LuaType::Table,
        LuaType::String,
        LuaType::Nil,
        LuaType::Tuple(vec![LuaType::Nil]),
        LuaType::Namespace(SmolStr::new("n")),
    ] {
        assert!(t.without_index_operator());
        assert_eq!(done(step(&db, &cache, &t, named("x"))), None);
    }
    let t = LuaType::Array(Box::new(LuaType::Nil));
    assert!(!t.without_index_operator());
}

#[test]
fn arrays_are_indexed_by_numbers() {
    let db = DbIndex::new();
    let t = LuaType::Array(Box::new(LuaType::Boolean));
    assert_eq!(done(step(&db, &cache(), &t, integer(5))), Some(LuaType::Boolean));
    assert_eq!(done(step(&db, &cache(), &t, named("x"))), None);
    assert_eq!(done(step(&db, &cache(), &t, quoted("1"))), None);
    assert_eq!(done(step(&db, &cache(), &t, None)), None);
    assert!(matches!(
        step(&db, &cache(), &t, expr(3)),
        Step::Ask(Query::Expr(id)) if id == node(3, 4)
    ));
    let got = |k: LuaType| done(step(&db, &knowing(3, k), &t, expr(3)));
    assert_eq!(got(LuaType::Number), Some(LuaType::Boolean));
    assert_eq!(got(LuaType::Integer), Some(LuaType::Boolean));
    assert_eq!(got(LuaType::IntegerConst(4)), Some(LuaType::Boolean));
    assert_eq!(got(LuaType::FloatConst(4)), Some(LuaType::Boolean));
    assert_eq!(got(LuaType::String), None);
}

#[test]
fn key_expression_without_type_ends_the_search() {
    let db = DbIndex::new();
    let t = LuaType::Array(Box::new(LuaType::Boolean));
    let mut cache = cache();
    cache.exprs.insert(node(3, 4), Err(InferFailReason::Other(2)));
    assert_eq!(done(step(&db, &cache, &t, expr(3))), None);
}

#[test]
fn array_literals_take_the_type_of_their_first_field() {
    let db = DbIndex::new();
    let range = TextRange { start: 10, end: 20 };
    let id = LuaSyntaxId { kind: LuaSyntaxKind::TableArrayExpr, range };
    let t = LuaType::TableConst(InFiled { file_id: FileId { id: 1 }, value: range });
    let mut root = LuaChunk { tables: Table::new() };
    assert_eq!(done(step_in(&root, &db, &cache(), &t, integer(1))), None);
    let value = |start: u32| Some(LuaExpr::NameExpr(node(start, start + 1)));
    let fields = vec![
        LuaTableField { key: None, value: value(11) },
        LuaTableField { key: None, value: value(13) },
    ];
    root.tables.insert(id, LuaTableExpr { id, fields });
    assert!(matches!(
        step_in(&root, &db, &cache(), &t, integer(2)),
        Step::Ask(Query::Expr(id)) if id == node(11, 12)
    ));
    let cache = knowing(11, LuaType::Thread);
    assert_eq!(done(step_in(&root, &db, &cache, &t, integer(2))), Some(LuaType::Thread));
    assert_eq!(done(step_in(&root, &db, &cache, &t, expr(50))), Some(LuaType::Thread));
    assert_eq!(done(step_in(&root, &db, &cache, &t, named("x"))), None);
    assert_eq!(done(step_in(&root, &db, &cache, &t, quoted("x"))), None);
    root.tables.insert(id, LuaTableExpr { id, fields: vec![] });
    assert_eq!(done(step_in(&root, &db, &cache, &t, integer(1))), None);
    let fields = vec![LuaTableField { key: None, value: None }];
    root.tables.insert(id, LuaTableExpr { id, fields });
    assert_eq!(done(step_in(&root, &db, &cache, &t, integer(1))), None);
}

#[test]
fn objects_need_the_exact_key_type() {
    let db = DbIndex::new();
    let t = LuaType::Object(LuaObjectType {
        fields: vec![],
        index_access: vec![
            (LuaType::String, LuaType::Nil),
            (LuaType::Integer, LuaType::Boolean),
        ],
    });
    let got = |k: LuaType| done(step(&db, &knowing(3, k), &t, expr(3)));
    assert_eq!(got(LuaType::Integer), Some(LuaType::Boolean));
    assert_eq!(got(LuaType::String), Some(LuaType::Nil));
    assert_eq!(got(LuaType::Number), None);
    assert_eq!(got(LuaType::StringConst(SmolStr::new("k"))), None);
    assert_eq!(done(step(&db, &cache(), &t, integer(1))), None);
}

#[test]
fn operators_are_chosen_by_their_operand() {
    let mut db = DbIndex::new();
    class(&mut db, "A", vec![]);
    operators(
        &mut db,
        "A",
        1,
        vec![
            (refer("K"), LuaType::Userdata),
            (LuaType::String, LuaType::Boolean),
            (LuaType::Integer, LuaType::Thread),
        ],
    );
    let t = refer("A");
    assert_eq!(done(step(&db, &cache(), &t, named("x"))), Some(LuaType::Boolean));
    assert_eq!(done(step(&db, &cache(), &t, quoted("x"))), Some(LuaType::Boolean));
    assert_eq!(done(step(&db, &cache(), &t, integer(1))), Some(LuaType::Thread));
    assert_eq!(done(step(&db, &cache(), &t, None)), None);
    let got = |k: LuaType| done(step(&db, &knowing(3, k), &t, expr(3)));
    assert_eq!(got(refer("K")), Some(LuaType::Userdata));
    assert_eq!(got(LuaType::DocStringConst(SmolStr::new("k"))), Some(LuaType::Boolean));
    assert_eq!(got(LuaType::Number), Some(LuaType::Thread));
    assert_eq!(got(LuaType::Nil), None);
}

#[test]
fn operator_without_operand_ends_the_search() {
    let mut db = DbIndex::new();
    class(&mut db, "B", vec![]);
    operators(&mut db, "B", 1, vec![(LuaType::String, LuaType::Nil)]);
    class(&mut db, "A", vec![refer("B")]);
    operators(
        &mut db,
        "A",
        2,
        vec![(LuaType::String, LuaType::Boolean), (LuaType::String, LuaType::Thread)],
    );
    db.operators.insert(
        LuaOperatorId { id: 2 },
        LuaOperator { operands: vec![], result: LuaType::Boolean },
    );
    assert_eq!(done(step(&db, &cache(), &refer("A"), named("x"))), None);
}

#[test]
fn classes_inherit_operators() {
    let mut db = DbIndex::new();
    class(&mut db, "B", vec![refer("A")]);
    operators(&mut db, "B", 1, vec![(LuaType::String, LuaType::Nil)]);
    class(&mut db, "A", vec![refer("B")]);
    operators(&mut db, "A", 2, vec![(LuaType::Integer, LuaType::Boolean)]);
    assert_eq!(done(step(&db, &cache(), &refer("A"), integer(1))), Some(LuaType::Boolean));
    assert_eq!(done(step(&db, &cache(), &refer("A"), named("x"))), Some(LuaType::Nil));
    let mut methods = Table::new();
    methods.insert(LuaOperatorMetaMethod::Other(3), vec![LuaOperatorId { id: 1 }]);
    db.type_operators.insert(LuaTypeDeclId::new("A"), methods);
    assert_eq!(done(step(&db, &cache(), &refer("A"), named("x"))), Some(LuaType::Nil));
    assert_eq!(done(step(&db, &cache(), &refer("A"), integer(1))), None);
}

#[test]
fn aliases_pass_operators_on() {
    let mut db = DbIndex::new();
    declare(
        &mut db,
        "L",
        LuaDeclTypeKind::Alias,
        Some(LuaType::Array(Box::new(LuaType::Nil))),
    );
    declare(&mut db, "M", LuaDeclTypeKind::Alias, None);
    assert_eq!(done(step(&db, &cache(), &refer("L"), integer(1))), Some(LuaType::Nil));
    assert_eq!(done(step(&db, &cache(), &refer("M"), integer(1))), None);
    assert_eq!(done(step(&db, &cache(), &refer("nowhere"), integer(1))), None);
}

#[test]
fn unions_and_intersections_of_operators() {
    let db = DbIndex::new();
    let array = |t: LuaType| LuaType::Array(Box::new(t));
    let union = LuaType::Union(vec![array(LuaType::Nil), LuaType::Nil, array(LuaType::Thread)]);
    assert_eq!(
        done(step(&db, &cache(), &union, integer(1))),
        Some(LuaType::Union(vec![LuaType::Nil, LuaType::Thread]))
    );
    let one = LuaType::Union(vec![array(LuaType::Nil), LuaType::Nil]);
    assert_eq!(done(step(&db, &cache(), &one, integer(1))), Some(LuaType::Nil));
    let agreed = LuaType::Intersection(vec![array(LuaType::Nil), array(LuaType::Nil)]);
    assert_eq!(done(step(&db, &cache(), &agreed, integer(1))), Some(LuaType::Nil));
    let not = LuaType::Intersection(vec![array(LuaType::Nil), array(LuaType::Thread)]);
    assert_eq!(done(step(&db, &cache(), &not, integer(1))), None);
    let none = LuaType::Intersection(vec![array(LuaType::Nil), LuaType::Nil]);
    assert_eq!(done(step(&db, &cache(), &none, integer(1))), None);
}

fn list() -> LuaType {
    LuaType::Generic(LuaGenericType {
        base: Box::new(refer("List")),
        params: vec![LuaType::String],
    })
}

fn instance(cache: &mut LuaInferCache, from: LuaType, to: LuaType) {
    cache.instances.insert(AppliedType { ty: from, params: vec![LuaType::String] }, to);
}

#[test]
fn generic_operators_are_instantiated() {
    let mut db = DbIndex::new();
    class(&mut db, "List", vec![]);
    operators(&mut db, "List", 1, vec![(LuaType::Opaque(1), LuaType::Opaque(2))]);
    let mut cache = cache();
    assert!(matches!(
        step(&db, &cache, &list(), integer(1)),
        Step::Ask(Query::Instantiate(q)) if q.ty == LuaType::Opaque(1)
    ));
    instance(&mut cache, LuaType::Opaque(1), LuaType::Integer);
    assert!(matches!(
        step(&db, &cache, &list(), integer(1)),
        Step::Ask(Query::Instantiate(q)) if q.ty == LuaType::Opaque(2)
    ));
    instance(&mut cache, LuaType::Opaque(2), LuaType::String);
    assert_eq!(done(step(&db, &cache, &list(), integer(1))), Some(LuaType::String));
    assert_eq!(done(step(&db, &cache, &list(), named("x"))), None);
}

#[test]
fn generic_operators_compare_the_operand_as_declared() {
    let mut db = DbIndex::new();
    class(&mut db, "List", vec![]);
    operators(&mut db, "List", 1, vec![(LuaType::Opaque(1), LuaType::Opaque(2))]);
    let mut cache = cache();
    instance(&mut cache, LuaType::Opaque(1), refer("K"));
    instance(&mut cache, LuaType::Opaque(2), LuaType::Boolean);
    cache.exprs.insert(node(3, 4), Ok(refer("K")));
    assert_eq!(done(step(&db, &cache, &list(), expr(3))), None);
    cache.exprs.insert(node(3, 4), Ok(LuaType::Opaque(1)));
    assert_eq!(done(step(&db, &cache, &list(), expr(3))), Some(LuaType::Boolean));
}

#[test]
fn generic_super_types_are_instantiated() {
    let mut db = DbIndex::new();
    declare(&mut db, "List", LuaDeclTypeKind::Enum, None);
    db.super_types.insert(
        LuaTypeDeclId::new("List"),
        vec![LuaType::Opaque(1), LuaType::Opaque(2)],
    );
    let mut cache = cache();
    instance(&mut cache, LuaType::Opaque(1), LuaType::Nil);
    instance(&mut cache, LuaType::Opaque(2), LuaType::Array(Box::new(LuaType::String)));
    assert_eq!(done(step(&db, &cache, &list(), integer(1))), Some(LuaType::String));
    let mut methods = Table::new();
    methods.insert(LuaOperatorMetaMethod::Other(3), vec![]);
    db.type_operators.insert(LuaTypeDeclId::new("List"), methods);
    assert_eq!(done(step(&db, &cache, &list(), integer(1))), None);
}

#[test]
fn generic_aliases_are_instantiated_twice() {
    let mut db = DbIndex::new();
    declare(&mut db, "List", LuaDeclTypeKind::Alias, Some(LuaType::Nil));
    let mut cache = cache();
    match step(&db, &cache, &list(), integer(1)) {
        Step::Ask(Query::AliasOrigin(q)) => {
            assert_eq!(q.id, LuaTypeDeclId::new("List"));
            assert_eq!(q.params, vec![LuaType::String]);
        }
        other => panic!("{:?}", other),
    }
    let q = || AppliedDecl { id: LuaTypeDeclId::new("List"), params: vec![LuaType::String] };
    cache.alias_origins.insert(q(), Some(LuaType::Opaque(1)));
    instance(&mut cache, LuaType::Opaque(1), LuaType::Array(Box::new(LuaType::Boolean)));
    assert_eq!(done(step(&db, &cache, &list(), integer(1))), Some(LuaType::Boolean));
    cache.alias_origins.insert(q(), None);
    assert_eq!(done(step(&db, &cache, &list(), integer(1))), None);
}

#[test]
fn generic_base_has_to_be_a_reference() {
    let mut db = DbIndex::new();
    class(&mut db, "List", vec![]);
    operators(&mut db, "List", 1, vec![(LuaType::Integer, LuaType::Nil)]);
    let t = LuaType::Generic(LuaGenericType {
        base: Box::new(LuaType::Def(LuaTypeDeclId::new("List"))),
        params: vec![],
    });
    assert_eq!(done(step(&db, &cache(), &t, integer(1))), None);
}

#[test]
fn table_generics_take_their_key_type() {
    let db = DbIndex::new();
    let of = |k: LuaType| LuaType::TableGeneric(vec![k, LuaType::Boolean]);
    let hit = Some(LuaType::Boolean);
    assert_eq!(done(step(&db, &cache(), &of(LuaType::String), named("x"))), hit);
    assert_eq!(done(step(&db, &cache(), &of(LuaType::String), quoted("x"))), hit);
    assert_eq!(done(step(&db, &cache(), &of(LuaType::String), integer(1))), None);
    assert_eq!(done(step(&db, &cache(), &of(LuaType::Integer), integer(1))), hit);
    assert_eq!(done(step(&db, &cache(), &of(LuaType::Integer), named("x"))), None);
    let cache3 = knowing(3, LuaType::String);
    assert_eq!(done(step(&db, &cache3, &of(LuaType::String), expr(3))), hit);
    assert_eq!(done(step(&db, &cache3, &of(LuaType::Integer), expr(3))), None);
    let short = LuaType::TableGeneric(vec![LuaType::String]);
    assert_eq!(done(step(&db, &cache(), &short, named("x"))), None);
}

#[test]
fn table_generics_ask_whether_other_keys_fit() {
    let db = DbIndex::new();
    let t = LuaType::TableGeneric(vec![refer("K"), LuaType::Boolean]);
    let given = |key: Option<LuaIndexKey>, cache: &LuaInferCache| match step(&db, cache, &t, key) {
        Step::Ask(Query::Compact(TypePair { wanted, given })) => {
            assert_eq!(wanted, refer("K"));
            given
        }
        other => panic!("{:?}", other),
    };
    assert_eq!(given(integer(-3), &cache()), LuaType::IntegerConst(-3));
    assert_eq!(
        given(quoted("k"), &cache()),
        LuaType::StringConst(SmolStr::new("k"))
    );
    assert_eq!(given(expr(3), &knowing(3, LuaType::Thread)), LuaType::Thread);
    assert_eq!(done(step(&db, &cache(), &t, named("k"))), None);
    let mut cache = cache();
    let pair = || TypePair { wanted: refer("K"), given: LuaType::IntegerConst(1) };
    cache.compacts.insert(pair(), true);
    assert_eq!(done(step(&db, &cache, &t, integer(1))), Some(LuaType::Boolean));
    cache.compacts.insert(pair(), false);
    assert_eq!(done(step(&db, &cache, &t, integer(1))), None);
}

#[test]
fn undeclared_operator_ends_the_search() {
    let mut db = DbIndex::new();
    class(&mut db, "A", vec![]);
    operators(&mut db, "A", 1, vec![(LuaType::String, LuaType::Nil)]);
    let mut methods = Table::new();
    let ids = vec![LuaOperatorId { id: 9 }, LuaOperatorId { id: 1 }];
    methods.insert(LuaOperatorMetaMethod::Index, ids);
    db.type_operators.insert(LuaTypeDeclId::new("A"), methods);
    assert_eq!(done(step(&db, &cache(), &refer("A"), named("x"))), None);
}

#[test]
fn generic_with_nothing_to_fill_in_is_like_its_base() {
    let mut db = DbIndex::new();
    class(&mut db, "List", vec![]);
    operators(
        &mut db,
        "List",
        1,
        vec![(LuaType::String, LuaType::Nil), (LuaType::Integer, LuaType::Boolean)],
    );
    let mut cache = cache();
    for t in [LuaType::String, LuaType::Nil, LuaType::Integer, LuaType::Boolean] {
        instance(&mut cache, t.clone(), t);
    }
    for key in [named("x"), integer(1)] {
        let again = match &key {
            Some(LuaIndexKey::Integer(i)) => integer(*i),
            _ => named("x"),
        };
        assert_eq!(
            done(step(&db, &cache, &list(), key)),
            done(step(&db, &cache, &refer("List"), again))
        );
    }
}

#[test]
fn operators_of_an_alias_do_not_count() {
    let mut db = DbIndex::new();
    declare(&mut db, "List", LuaDeclTypeKind::Alias, None);
    operators(&mut db, "List", 1, vec![(LuaType::String, LuaType::Nil)]);
    let mut cache = cache();
    let q = AppliedDecl { id: LuaTypeDeclId::new("List"), params: vec![LuaType::String] };
    cache.alias_origins.insert(q, None);
    assert_eq!(done(step(&db, &cache, &list(), named("x"))), None);
    assert_eq!(done(step(&db, &cache, &refer("List"), named("x"))), None);
}

#[test]
fn types_that_need_their_own_operators_are_endless() {
    let mut db = DbIndex::new();
    let union = LuaType::Union(vec![refer("L")]);
    declare(&mut db, "L", LuaDeclTypeKind::Alias, Some(union));
    assert!(matches!(step(&db, &cache(), &refer("L"), integer(1)), Step::Endless));
    class(&mut db, "List", vec![LuaType::Opaque(1)]);
    let mut cache = cache();
    instance(&mut cache, LuaType::Opaque(1), list());
    assert!(matches!(step(&db, &cache, &list(), integer(1)), Step::Endless));
    instance(&mut cache, LuaType::Opaque(1), LuaType::Nil);
    assert_eq!(done(step(&db, &cache, &list(), integer(1))), None);
}
