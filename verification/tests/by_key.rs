use lua_member_infer::cache::{
    AppliedType, InferFailReason, InferGuard, InferStep, LuaAnalysisPhase, LuaInferCache,
    LuaInferConfig, Query, Step,
};
use lua_member_infer::db::{
    DbIndex, LuaDecl, LuaDeclId, LuaDeclTypeKind, LuaMemberSlot, LuaTypeDecl,
};
use lua_member_infer::infer_index::infer_member_by_member_key;
use lua_member_infer::syntax::{
    FileId, InFiled, LuaChunk, LuaExpr, LuaIndexKey, LuaIndexMemberExpr, LuaSyntaxId,
    LuaSyntaxKind, TextRange,
};
use lua_member_infer::table::Table;
use lua_member_infer::types::{
    LuaGenericType, LuaInstanceType, LuaMemberKey, LuaMemberOwner, LuaObjectType, LuaType,
    LuaTypeDeclId,
};
use smol_str::SmolStr;

fn cache() -> LuaInferCache {
    LuaInferCache::new(
        FileId { id: 1 },
        LuaInferConfig { analysis_phase: LuaAnalysisPhase::Ordered },
    )
}

fn chunk() -> LuaChunk {
    LuaChunk { tables: Table::new() }
}

fn key(name: &str) -> LuaMemberKey {
    LuaMemberKey::Name(SmolStr::new(name))
}

fn refer(name: &str) -> LuaType {
    LuaType::Ref(LuaTypeDeclId::new(name))
}

fn node(start: u32, end: u32) -> LuaSyntaxId {
    LuaSyntaxId { kind: LuaSyntaxKind::NameExpr, range: TextRange { start, end } }
}

fn range(start: u32, end: u32) -> InFiled {
    InFiled { file_id: FileId { id: 1 }, value: TextRange { start, end } }
}

fn declare(db: &mut DbIndex, name: &str, kind: LuaDeclTypeKind, origin: Option<LuaType>) {
    db.type_decls.insert(LuaTypeDeclId::new(name), LuaTypeDecl { kind, alias_origin: origin });
}

fn class(db: &mut DbIndex, name: &str, supers: Vec<LuaType>) {
    declare(db, name, LuaDeclTypeKind::Class, None);
    db.super_types.insert(LuaTypeDeclId::new(name), supers);
}

fn member(db: &mut DbIndex, class: &str, name: &str, t: LuaType) {
    let owner = LuaMemberOwner::Type(LuaTypeDeclId::new(class));
    db.members.insert(LuaMemberSlot { owner, key: key(name) }, Some(t));
}

fn step(db: &DbIndex, cache: &LuaInferCache, t: &LuaType, key: Option<LuaIndexKey>) -> InferStep {
    let root = chunk();
    let expr = LuaIndexMemberExpr { root: &root, key };
    infer_member_by_member_key(db, cache, t, &expr, &mut InferGuard::new())
}

fn named(name: &str) -> Option<LuaIndexKey> {
    Some(LuaIndexKey::Name(SmolStr::new(name)))
}

fn quoted(name: &str) -> Option<LuaIndexKey> {
    Some(LuaIndexKey::String(SmolStr::new(name)))
}

fn done(step: InferStep) -> Option<LuaType> {
    match step {
        Step::Done(t) => t,
        other => panic!("not done: {:?}", other),
    }
}

fn get(db: &DbIndex, t: &LuaType, key: Option<LuaIndexKey>) -> Option<LuaType> {
    done(step(db, &cache(), t, key))
}

#[test]
fn tables_have_members_of_any_type() {
    let db = DbIndex::new();
    for t in [LuaType::Table, LuaType::Any, LuaType::Unknown] {
        assert_eq!(get(&db, &t, named("x")), Some(LuaType::Any));
        assert_eq!(get(&db, &t, None), Some(LuaType::Any));
    }
}

#[test]
fn plain_values_have_no_members() {
    let db = DbIndex::new();
    for t in [
        LuaType::Nil,
        LuaType::Boolean,
        LuaType::Integer,
        LuaType::Number,
        LuaType::Function,
        LuaType::Thread,
        LuaType::Userdata,
        LuaType::IntegerConst(3),
        LuaType::FloatConst(7),
        LuaType::Opaque(9),
        LuaType::Array(Box::new(LuaType::String)),
        LuaType::TableGeneric(vec![LuaType::String, LuaType::Number]),
    ] {
        assert_eq!(get(&db, &t, named("x")), None);
    }
}

#[test]
fn table_literal_has_its_fields() {
    let mut db = DbIndex::new();
    let owner = LuaMemberOwner::Element(range(3, 9));
    db.members.insert(LuaMemberSlot { owner, key: key("x") }, Some(LuaType::Number));
    let owner = LuaMemberOwner::Element(range(3, 9));
    db.members.insert(LuaMemberSlot { owner, key: key("y") }, None);
    let t = LuaType::TableConst(range(3, 9));
    assert_eq!(get(&db, &t, named("x")), Some(LuaType::Number));
    assert_eq!(get(&db, &t, quoted("x")), Some(LuaType::Number));
    assert_eq!(get(&db, &t, named("y")), None);
    assert_eq!(get(&db, &t, named("z")), None);
    assert_eq!(get(&db, &t, None), None);
    assert_eq!(get(&db, &LuaType::TableConst(range(3, 8)), named("x")), None);
}

#[test]
fn integer_keys_of_a_table_literal() {
    let mut db = DbIndex::new();
    let slot = LuaMemberSlot {
        owner: LuaMemberOwner::Element(range(0, 4)),
        key: LuaMemberKey::Integer(2),
    };
    db.members.insert(slot, Some(LuaType::Boolean));
    let t = LuaType::TableConst(range(0, 4));
    assert_eq!(get(&db, &t, Some(LuaIndexKey::Integer(2))), Some(LuaType::Boolean));
    assert_eq!(get(&db, &t, Some(LuaIndexKey::Integer(1))), None);
}

#[test]
fn strings_have_the_members_of_the_string_library() {
    let mut db = DbIndex::new();
    class(&mut db, "string", vec![]);
    member(&mut db, "string", "len", LuaType::Function);
    class(&mut db, "io", vec![]);
    member(&mut db, "io", "open", LuaType::Opaque(4));
    for t in [
        LuaType::String,
        LuaType::StringConst(SmolStr::new("abc")),
        LuaType::DocStringConst(SmolStr::new("abc")),
    ] {
        assert_eq!(get(&db, &t, named("len")), Some(LuaType::Function));
        assert_eq!(get(&db, &t, named("open")), None);
    }
    assert_eq!(get(&db, &LuaType::Io, named("open")), Some(LuaType::Opaque(4)));
    assert_eq!(get(&db, &LuaType::Io, named("len")), None);
}

#[test]
fn classes_inherit_members() {
    let mut db = DbIndex::new();
    class(&mut db, "A", vec![]);
    class(&mut db, "B", vec![]);
    class(&mut db, "C", vec![refer("A"), refer("B")]);
    member(&mut db, "A", "x", LuaType::Integer);
    member(&mut db, "B", "x", LuaType::String);
    member(&mut db, "B", "y", LuaType::Boolean);
    member(&mut db, "C", "z", LuaType::Nil);
    assert_eq!(get(&db, &refer("C"), named("z")), Some(LuaType::Nil));
    assert_eq!(get(&db, &refer("C"), named("x")), Some(LuaType::Integer));
    assert_eq!(get(&db, &refer("C"), named("y")), Some(LuaType::Boolean));
    assert_eq!(get(&db, &refer("C"), named("w")), None);
    assert_eq!(
        get(&db, &LuaType::Def(LuaTypeDeclId::new("C")), named("x")),
        Some(LuaType::Integer)
    );
}

#[test]
fn own_members_hide_inherited_ones() {
    let mut db = DbIndex::new();
    class(&mut db, "A", vec![]);
    class(&mut db, "B", vec![refer("A")]);
    member(&mut db, "A", "x", LuaType::Integer);
    member(&mut db, "B", "x", LuaType::String);
    assert_eq!(get(&db, &refer("B"), named("x")), Some(LuaType::String));
    let owner = LuaMemberOwner::Type(LuaTypeDeclId::new("B"));
    db.members.insert(LuaMemberSlot { owner, key: key("x") }, None);
    assert_eq!(get(&db, &refer("B"), named("x")), None);
}

#[test]
fn only_classes_inherit() {
    let mut db = DbIndex::new();
    class(&mut db, "A", vec![]);
    member(&mut db, "A", "x", LuaType::Integer);
    declare(&mut db, "E", LuaDeclTypeKind::Enum, None);
    db.super_types.insert(LuaTypeDeclId::new("E"), vec![refer("A")]);
    assert_eq!(get(&db, &refer("E"), named("x")), None);
    declare(&mut db, "D", LuaDeclTypeKind::Class, None);
    assert_eq!(get(&db, &refer("D"), named("x")), None);
    assert_eq!(get(&db, &refer("nowhere"), named("x")), None);
}

#[test]
fn aliases_are_transparent() {
    let mut db = DbIndex::new();
    class(&mut db, "A", vec![]);
    member(&mut db, "A", "x", LuaType::Integer);
    declare(&mut db, "L", LuaDeclTypeKind::Alias, Some(refer("A")));
    assert_eq!(get(&db, &refer("L"), named("x")), Some(LuaType::Integer));
}

#[test]
fn alias_without_origin_counts_as_string() {
    let mut db = DbIndex::new();
    class(&mut db, "string", vec![]);
    member(&mut db, "string", "len", LuaType::Function);
    declare(&mut db, "L", LuaDeclTypeKind::Alias, None);
    assert_eq!(get(&db, &refer("L"), named("len")), Some(LuaType::Function));
}

#[test]
fn circular_declarations_come_to_an_end() {
    let mut db = DbIndex::new();
    class(&mut db, "A", vec![refer("B")]);
    class(&mut db, "B", vec![refer("A"), refer("C")]);
    class(&mut db, "C", vec![]);
    member(&mut db, "C", "x", LuaType::Integer);
    declare(&mut db, "L", LuaDeclTypeKind::Alias, Some(refer("M")));
    declare(&mut db, "M", LuaDeclTypeKind::Alias, Some(refer("L")));
    assert_eq!(get(&db, &refer("A"), named("x")), Some(LuaType::Integer));
    assert_eq!(get(&db, &refer("A"), named("y")), None);
    assert_eq!(get(&db, &refer("L"), named("x")), None);
}

#[test]
fn long_chains_of_declarations_end() {
    let mut db = DbIndex::new();
    for i in 0..60 {
        class(&mut db, &format!("C{}", i), vec![refer(&format!("C{}", i + 1))]);
    }
    class(&mut db, "C60", vec![]);
    member(&mut db, "C60", "x", LuaType::Integer);
    assert_eq!(get(&db, &refer("C0"), named("x")), Some(LuaType::Integer));
    assert_eq!(get(&db, &refer("C0"), named("y")), None);
}

#[test]
fn deeply_nested_types_end() {
    let db = DbIndex::new();
    let mut t = LuaType::Table;
    for i in 0..60 {
        t = match i % 3 {
            0 => LuaType::Union(vec![LuaType::Nil, t]),
            1 => LuaType::Intersection(vec![t]),
            _ => LuaType::Instance(LuaInstanceType { base: Box::new(t), range: range(0, 1) }),
        };
    }
    assert_eq!(get(&db, &t, named("x")), Some(LuaType::Any));
}

#[test]
fn types_that_need_their_own_members_are_endless() {
    let mut db = DbIndex::new();
    let union = |name: &str| LuaType::Union(vec![LuaType::Nil, refer(name)]);
    declare(&mut db, "L", LuaDeclTypeKind::Alias, Some(union("L")));
    assert!(matches!(step(&db, &cache(), &refer("L"), named("x")), Step::Endless));
    declare(&mut db, "M", LuaDeclTypeKind::Alias, Some(union("N")));
    declare(&mut db, "N", LuaDeclTypeKind::Alias, Some(LuaType::Intersection(vec![refer("M")])));
    assert!(matches!(step(&db, &cache(), &refer("M"), named("x")), Step::Endless));
    let generic = LuaGenericType { base: Box::new(refer("G")), params: vec![] };
    declare(&mut db, "G", LuaDeclTypeKind::Alias, Some(LuaType::Generic(generic)));
    assert!(matches!(step(&db, &cache(), &refer("G"), named("x")), Step::Endless));
    class(&mut db, "A", vec![union("A")]);
    assert!(matches!(step(&db, &cache(), &refer("A"), named("x")), Step::Endless));
}

#[test]
fn members_found_before_a_circle_end_the_search() {
    let mut db = DbIndex::new();
    class(&mut db, "B", vec![]);
    member(&mut db, "B", "x", LuaType::String);
    class(&mut db, "A", vec![refer("B"), LuaType::Union(vec![refer("A")])]);
    member(&mut db, "A", "y", LuaType::Integer);
    assert_eq!(get(&db, &refer("A"), named("x")), Some(LuaType::String));
    assert_eq!(get(&db, &refer("A"), named("y")), Some(LuaType::Integer));
    assert!(matches!(step(&db, &cache(), &refer("A"), named("z")), Step::Endless));
}

#[test]
fn guard_remembers_what_was_visited() {
    let mut db = DbIndex::new();
    class(&mut db, "A", vec![]);
    member(&mut db, "A", "x", LuaType::Integer);
    let root = chunk();
    let expr = LuaIndexMemberExpr { root: &root, key: named("x") };
    let mut guard = InferGuard::new();
    let first = infer_member_by_member_key(&db, &cache(), &refer("A"), &expr, &mut guard);
    assert_eq!(done(first), Some(LuaType::Integer));
    let second = infer_member_by_member_key(&db, &cache(), &refer("A"), &expr, &mut guard);
    assert_eq!(done(second), None);
    let mut copy = guard.clone();
    assert!(copy.check(&LuaTypeDeclId::new("A")).is_none());
    assert!(copy.check(&LuaTypeDeclId::new("B")).is_some());
    assert!(guard.check(&LuaTypeDeclId::new("A")).is_none());
    assert!(guard.check(&LuaTypeDeclId::new("B")).is_some());
    assert!(guard.check(&LuaTypeDeclId::new("B")).is_none());
}

#[test]
fn tuples_count_from_one() {
    let db = DbIndex::new();
    let t = LuaType::Tuple(vec![LuaType::Integer, LuaType::String]);
    assert_eq!(get(&db, &t, Some(LuaIndexKey::Integer(1))), Some(LuaType::Integer));
    assert_eq!(get(&db, &t, Some(LuaIndexKey::Integer(2))), Some(LuaType::String));
    assert_eq!(get(&db, &t, Some(LuaIndexKey::Integer(3))), None);
    assert_eq!(get(&db, &t, Some(LuaIndexKey::Integer(0))), Some(LuaType::Integer));
    assert_eq!(get(&db, &t, Some(LuaIndexKey::Integer(i64::MIN))), Some(LuaType::Integer));
    assert_eq!(get(&db, &t, Some(LuaIndexKey::Integer(i64::MAX))), None);
    assert_eq!(get(&db, &t, named("x")), None);
    assert_eq!(get(&db, &LuaType::Tuple(vec![]), Some(LuaIndexKey::Integer(1))), None);
}

fn object() -> LuaType {
    LuaType::Object(LuaObjectType {
        fields: vec![(key("x"), LuaType::Boolean), (LuaMemberKey::Integer(1), LuaType::Nil)],
        index_access: vec![
            (LuaType::String, LuaType::Function),
            (LuaType::Number, LuaType::Thread),
            (refer("K"), LuaType::Userdata),
        ],
    })
}

#[test]
fn objects_have_fields_before_index_access() {
    let db = DbIndex::new();
    assert_eq!(get(&db, &object(), named("x")), Some(LuaType::Boolean));
    assert_eq!(get(&db, &object(), quoted("x")), Some(LuaType::Boolean));
    assert_eq!(get(&db, &object(), Some(LuaIndexKey::Integer(1))), Some(LuaType::Nil));
    assert_eq!(get(&db, &object(), named("y")), Some(LuaType::Function));
    assert_eq!(get(&db, &object(), quoted("y")), Some(LuaType::Function));
    assert_eq!(get(&db, &object(), Some(LuaIndexKey::Integer(2))), Some(LuaType::Thread));
    assert_eq!(get(&db, &object(), None), None);
}

#[test]
fn objects_match_key_expressions_by_type() {
    let db = DbIndex::new();
    let e = || Some(LuaIndexKey::Expr(LuaExpr::NameExpr(node(5, 6))));
    let mut cache = cache();
    assert!(matches!(
        step(&db, &cache, &object(), e()),
        Step::Ask(Query::Expr(id)) if id == node(5, 6)
    ));
    cache.exprs.insert(node(5, 6), Ok(LuaType::StringConst(SmolStr::new("k"))));
    assert_eq!(done(step(&db, &cache, &object(), e())), Some(LuaType::Function));
    cache.exprs.insert(node(5, 6), Ok(LuaType::Integer));
    assert_eq!(done(step(&db, &cache, &object(), e())), Some(LuaType::Thread));
    cache.exprs.insert(node(5, 6), Ok(refer("K")));
    assert_eq!(done(step(&db, &cache, &object(), e())), Some(LuaType::Userdata));
    cache.exprs.insert(node(5, 6), Ok(refer("J")));
    assert_eq!(done(step(&db, &cache, &object(), e())), None);
    cache.exprs.insert(node(5, 6), Err(InferFailReason::NoReason));
    assert_eq!(done(step(&db, &cache, &object(), e())), None);
}

#[test]
fn unions_join_what_their_parts_have() {
    let mut db = DbIndex::new();
    class(&mut db, "A", vec![]);
    class(&mut db, "B", vec![]);
    member(&mut db, "A", "x", LuaType::Integer);
    member(&mut db, "A", "y", LuaType::Nil);
    member(&mut db, "B", "x", LuaType::String);
    let t = LuaType::Union(vec![refer("A"), LuaType::Nil, refer("B")]);
    assert_eq!(
        get(&db, &t, named("x")),
        Some(LuaType::Union(vec![LuaType::Integer, LuaType::String]))
    );
    assert_eq!(get(&db, &t, named("y")), Some(LuaType::Nil));
    assert_eq!(get(&db, &t, named("z")), None);
    assert_eq!(get(&db, &LuaType::Union(vec![]), named("x")), None);
    assert_eq!(
        get(&db, &LuaType::Union(vec![refer("B")]), named("x")),
        Some(LuaType::String)
    );
}

#[test]
fn each_part_of_a_union_starts_anew() {
    let mut db = DbIndex::new();
    class(&mut db, "A", vec![]);
    member(&mut db, "A", "x", LuaType::Integer);
    let t = LuaType::Union(vec![refer("A"), refer("A")]);
    assert_eq!(
        get(&db, &t, named("x")),
        Some(LuaType::Union(vec![LuaType::Integer, LuaType::Integer]))
    );
}

#[test]
fn intersections_keep_what_their_parts_agree_on() {
    let mut db = DbIndex::new();
    for name in ["A", "B", "C"] {
        class(&mut db, name, vec![]);
    }
    member(&mut db, "A", "x", LuaType::Integer);
    member(&mut db, "B", "x", LuaType::Integer);
    member(&mut db, "C", "x", LuaType::String);
    member(&mut db, "A", "u", LuaType::Unknown);
    member(&mut db, "B", "u", LuaType::String);
    let both = |a: &str, b: &str| LuaType::Intersection(vec![refer(a), refer(b)]);
    assert_eq!(get(&db, &both("A", "B"), named("x")), Some(LuaType::Integer));
    assert_eq!(get(&db, &both("A", "C"), named("x")), None);
    assert_eq!(get(&db, &both("A", "D"), named("x")), None);
    assert_eq!(get(&db, &both("A", "B"), named("u")), Some(LuaType::String));
    assert_eq!(get(&db, &both("B", "A"), named("u")), None);
    assert_eq!(
        get(&db, &LuaType::Intersection(vec![]), named("x")),
        Some(LuaType::Unknown)
    );
    assert_eq!(
        get(&db, &LuaType::Intersection(vec![refer("C")]), named("x")),
        Some(LuaType::String)
    );
}

#[test]
fn generics_instantiate_the_members_of_their_base() {
    let mut db = DbIndex::new();
    class(&mut db, "List", vec![]);
    member(&mut db, "List", "first", LuaType::Opaque(1));
    let t = LuaType::Generic(LuaGenericType {
        base: Box::new(refer("List")),
        params: vec![LuaType::String],
    });
    let mut cache = cache();
    match step(&db, &cache, &t, named("first")) {
        Step::Ask(Query::Instantiate(q)) => {
            assert_eq!(q.ty, LuaType::Opaque(1));
            assert_eq!(q.params, vec![LuaType::String]);
        }
        other => panic!("{:?}", other),
    }
    let q = AppliedType { ty: LuaType::Opaque(1), params: vec![LuaType::Number] };
    cache.instances.insert(q, LuaType::Number);
    assert!(matches!(step(&db, &cache, &t, named("first")), Step::Ask(Query::Instantiate(_))));
    let q = AppliedType { ty: LuaType::Opaque(1), params: vec![LuaType::String] };
    cache.instances.insert(q, LuaType::String);
    assert_eq!(done(step(&db, &cache, &t, named("first"))), Some(LuaType::String));
    assert_eq!(done(step(&db, &cache, &t, named("last"))), None);
}

#[test]
fn instances_fall_back_to_their_literal() {
    let mut db = DbIndex::new();
    class(&mut db, "A", vec![]);
    member(&mut db, "A", "x", LuaType::Integer);
    let owner = LuaMemberOwner::Element(range(1, 5));
    db.members.insert(LuaMemberSlot { owner, key: key("x") }, Some(LuaType::Nil));
    let owner = LuaMemberOwner::Element(range(1, 5));
    db.members.insert(LuaMemberSlot { owner, key: key("y") }, Some(LuaType::String));
    let t = LuaType::Instance(LuaInstanceType { base: Box::new(refer("A")), range: range(1, 5) });
    assert_eq!(get(&db, &t, named("x")), Some(LuaType::Integer));
    assert_eq!(get(&db, &t, named("y")), Some(LuaType::String));
    assert_eq!(get(&db, &t, named("z")), None);
}

#[test]
fn globals_are_found_by_name_only() {
    let mut db = DbIndex::new();
    let id = LuaDeclId { file_id: FileId { id: 2 }, position: 7 };
    db.global_decls.insert(key("print"), id);
    assert_eq!(get(&db, &LuaType::Global, named("print")), None);
    db.decls.insert(id, LuaDecl { typ: None });
    assert_eq!(get(&db, &LuaType::Global, named("print")), None);
    db.decls.insert(id, LuaDecl { typ: Some(LuaType::Function) });
    assert_eq!(get(&db, &LuaType::Global, named("print")), Some(LuaType::Function));
    assert_eq!(get(&db, &LuaType::Global, quoted("print")), None);
    assert_eq!(get(&db, &LuaType::Global, named("error")), None);
}

#[test]
fn namespaces_hold_types_and_namespaces() {
    let mut db = DbIndex::new();
    class(&mut db, "game.unit", vec![]);
    let t = LuaType::Namespace(SmolStr::new("game"));
    assert_eq!(
        get(&db, &t, named("unit")),
        Some(LuaType::Def(LuaTypeDeclId::new("game.unit")))
    );
    assert_eq!(
        get(&db, &t, quoted("a string that is longer than fits inline")),
        Some(LuaType::Namespace(SmolStr::new(
            "game.a string that is longer than fits inline"
        )))
    );
    assert_eq!(get(&db, &t, Some(LuaIndexKey::Integer(1))), None);
    assert_eq!(get(&db, &t, None), None);
}

#[test]
fn name_and_string_literal_are_the_same_key() {
    let mut db = DbIndex::new();
    class(&mut db, "A", vec![]);
    member(&mut db, "A", "x", LuaType::Integer);
    let t = LuaType::Union(vec![refer("A"), object(), LuaType::Namespace(SmolStr::new("n"))]);
    for name in ["x", "y"] {
        assert_eq!(get(&db, &t, named(name)), get(&db, &t, quoted(name)));
    }
}

#[test]
fn parts_without_the_member_change_nothing() {
    let mut db = DbIndex::new();
    class(&mut db, "A", vec![]);
    member(&mut db, "A", "x", LuaType::Integer);
    let few = LuaType::Union(vec![refer("A"), LuaType::Table]);
    let many = LuaType::Union(vec![refer("A"), LuaType::Nil, LuaType::Table]);
    assert_eq!(get(&db, &few, named("x")), get(&db, &many, named("x")));
}
