use lua_member_infer::code_lens::{
    on_code_lens_handler, on_resolve_code_lens_handler, CodeLensAction, CodeLensData,
    CodeLensEvent,
};
use lua_member_infer::db::{LuaDeclId, LuaMemberId};
use lua_member_infer::syntax::{
    FileId, InFiled, LuaExpr, LuaIndexKey, LuaSyntaxId, LuaSyntaxKind, TextRange,
};
use lua_member_infer::table::{Table, TableKey};
use lua_member_infer::text::smol_same;
use lua_member_infer::types::{
    get_buildin_type_map_type_id, LuaGenericType, LuaInstanceType, LuaMemberKey, LuaMemberOwner,
    LuaObjectType, LuaType, LuaTypeDeclId,
};
use smol_str::SmolStr;

fn node() -> LuaSyntaxId {
    LuaSyntaxId {
        kind: LuaSyntaxKind::Other(2),
        range: TextRange { start: 1, end: 2 },
    }
}

fn range(start: u32) -> InFiled {
    InFiled { file_id: FileId { id: 1 }, value: TextRange { start, end: 90 } }
}

#[test]
fn strings_are_equal_by_their_characters() {
    let short = SmolStr::new("abc");
    assert!(smol_same(&short, &SmolStr::new("abc")));
    assert!(!smol_same(&short, &SmolStr::new("abd")));
    assert!(!smol_same(&short, &SmolStr::new("abcd")));
    let long = "a name that does not fit into an inline string";
    assert!(smol_same(&SmolStr::new(long), &SmolStr::new(long)));
    assert!(smol_same(&SmolStr::new_static("abc"), &short));
}

#[test]
fn ids_hold_the_name_they_were_made_of() {
    let id = LuaTypeDeclId::new("game.unit");
    assert_eq!(id.name.as_str(), "game.unit");
    assert_eq!(id.clone().name.as_str(), "game.unit");
    assert!(id.same(&LuaTypeDeclId::new("game.unit")));
    assert!(!id.same(&LuaTypeDeclId::new("game.item")));
}

#[test]
fn tables_map_each_key_once() {
    let mut table: Table<LuaMemberKey, u8> = Table::new();
    let x = || LuaMemberKey::Name(SmolStr::new("x"));
    assert_eq!(table.get(&x()), None);
    table.insert(x(), 1);
    table.insert(LuaMemberKey::Integer(1), 2);
    table.insert(LuaMemberKey::Unnamed, 3);
    assert_eq!(table.get(&x()), Some(&1));
    table.insert(x(), 4);
    assert_eq!(table.get(&x()), Some(&4));
    assert_eq!(table.get(&LuaMemberKey::Integer(1)), Some(&2));
    assert_eq!(table.get(&LuaMemberKey::Integer(2)), None);
    assert_eq!(table.get(&LuaMemberKey::Unnamed), Some(&3));
}

fn samples() -> Vec<LuaType> {
    let text = |s: &str| SmolStr::new(s);
    let object = |field: &str, value: LuaType| {
        LuaType::Object(LuaObjectType {
            fields: vec![(LuaMemberKey::Name(SmolStr::new(field)), LuaType::Nil)],
            index_access: vec![(LuaType::String, value)],
        })
    };
    let generic = |params: Vec<LuaType>| {
        LuaType::Generic(LuaGenericType { base: Box::new(LuaType::Io), params })
    };
    let instance = |start: u32| {
        LuaType::Instance(LuaInstanceType { base: Box::new(LuaType::Table), range: range(start) })
    };
    vec![
        LuaType::Unknown,
        LuaType::Any,
        LuaType::Nil,
        LuaType::Boolean,
        LuaType::Integer,
        LuaType::Number,
        LuaType::String,
        LuaType::Table,
        LuaType::Function,
        LuaType::Thread,
        LuaType::Userdata,
        LuaType::Io,
        LuaType::Global,
        LuaType::StringConst(text("a")),
        LuaType::StringConst(text("b")),
        LuaType::DocStringConst(text("a")),
        LuaType::IntegerConst(1),
        LuaType::IntegerConst(2),
        LuaType::FloatConst(1),
        LuaType::TableConst(range(1)),
        LuaType::TableConst(range(2)),
        LuaType::Ref(LuaTypeDeclId::new("a")),
        LuaType::Def(LuaTypeDeclId::new("a")),
        LuaType::Array(Box::new(LuaType::Nil)),
        LuaType::Array(Box::new(LuaType::Any)),
        LuaType::Tuple(vec![LuaType::Nil, LuaType::Any]),
        LuaType::Tuple(vec![LuaType::Any, LuaType::Nil]),
        LuaType::Union(vec![LuaType::Nil, LuaType::Any]),
        LuaType::Intersection(vec![LuaType::Nil, LuaType::Any]),
        object("x", LuaType::Nil),
        object("y", LuaType::Nil),
        object("x", LuaType::Any),
        generic(vec![]),
        generic(vec![LuaType::Nil]),
        LuaType::TableGeneric(vec![LuaType::Nil]),
        instance(1),
        instance(2),
        LuaType::Namespace(text("a")),
        LuaType::Opaque(1),
        LuaType::Opaque(2),
    ]
}

#[test]
fn types_are_the_same_as_their_copies_only() {
    let types = samples();
    for (i, a) in types.iter().enumerate() {
        for (j, b) in types.iter().enumerate() {
            assert_eq!(a.same(&b.clone()), i == j, "{:?} {:?}", a, b);
        }
        assert_eq!(*a, a.clone());
    }
}

#[test]
fn strings_and_numbers_whatever_their_value() {
    for t in samples() {
        let string = matches!(
            t,
            LuaType::String | LuaType::StringConst(_) | LuaType::DocStringConst(_)
        );
        let number = matches!(
            t,
            LuaType::Number
                | LuaType::Integer
                | LuaType::IntegerConst(_)
                | LuaType::FloatConst(_)
        );
        assert_eq!(t.is_string(), string);
        assert_eq!(t.is_number(), number);
        assert_eq!(t.is_unknown(), t == LuaType::Unknown);
        let builtin = get_buildin_type_map_type_id(&t);
        if string {
            assert_eq!(builtin, Some(LuaTypeDeclId::new("string")));
        } else if t == LuaType::Io {
            assert_eq!(builtin, Some(LuaTypeDeclId::new("io")));
        } else {
            assert_eq!(builtin, None);
        }
    }
}

#[test]
fn index_keys_as_member_keys() {
    let name = || SmolStr::new("x");
    let stored = LuaMemberKey::Name(name());
    assert_eq!(LuaIndexKey::Name(name()).to_member_key(), stored);
    assert_eq!(LuaIndexKey::String(name()).to_member_key(), stored);
    assert_eq!(LuaIndexKey::Integer(-4).to_member_key(), LuaMemberKey::Integer(-4));
    let expr = LuaIndexKey::Expr(LuaExpr::CallExpr(node()));
    assert_eq!(expr.to_member_key(), LuaMemberKey::Unnamed);
    assert_eq!(stored.get_name().map(|n| n.as_str()), Some("x"));
    assert_eq!(LuaMemberKey::Integer(1).get_name(), None);
}

#[test]
fn owners_are_tables_or_types() {
    let element = |start: u32| LuaMemberOwner::Element(range(start));
    let class = |name: &str| LuaMemberOwner::Type(LuaTypeDeclId::new(name));
    assert!(element(1).same(&element(1)));
    assert!(!element(1).same(&element(2)));
    assert!(class("a").same(&class("a")));
    assert!(!class("a").same(&class("b")));
    assert!(!class("a").same(&element(1)));
}

/// Runs a request for code lenses, given what comes back.
fn run(file: Option<FileId>, modelled: bool, built: Option<Vec<u8>>) -> Option<Vec<u8>> {
    let mut event = CodeLensEvent::Requested;
    loop {
        event = match on_code_lens_handler(event) {
            CodeLensAction::FindFile => CodeLensEvent::File(file),
            CodeLensAction::FindModel(id) => {
                assert_eq!(Some(id), file);
                CodeLensEvent::Modelled(id, modelled)
            }
            CodeLensAction::Build(id) => {
                assert_eq!(Some(id), file);
                assert!(modelled);
                CodeLensEvent::Built(built.clone())
            }
            CodeLensAction::Reply(lenses) => return lenses,
        };
    }
}

#[test]
fn code_lenses_need_a_file_and_a_model() {
    let file = Some(FileId { id: 4 });
    assert_eq!(run(file, true, Some(vec![1, 2])), Some(vec![1, 2]));
    assert_eq!(run(file, true, None), None);
    assert_eq!(run(file, false, Some(vec![1])), None);
    assert_eq!(run(None, true, Some(vec![1])), None);
}

#[test]
fn code_lens_that_cannot_be_resolved_comes_back() {
    assert_eq!(on_resolve_code_lens_handler(1, Some(2)), 2);
    assert_eq!(on_resolve_code_lens_handler(1, None), 1);
}

#[test]
fn code_lens_data_tells_members_from_declarations() {
    let file_id = FileId { id: 1 };
    let member = CodeLensData::Member(LuaMemberId { file_id, id: node() });
    let decl = CodeLensData::DeclId(LuaDeclId { file_id, position: 1 });
    assert_ne!(member, decl);
    assert_eq!(member, member.clone());
}
