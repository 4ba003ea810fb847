//! What is known of the declarations of a workspace.

use crate::syntax::{FileId, LuaSyntaxId};
use crate::table::{Table, TableKey};
use crate::text::{smol_chars, smol_clone};
use crate::types::{
    types_view, LuaMemberKey, LuaMemberOwner, LuaType, LuaTypeDeclId, MemberKey, MemberOwner, Ty,
};
use smol_str::SmolStr;
use vstd::prelude::*;

verus! {

/// Where a member is stored: its owner, and its key there.
#[derive(Debug)]
pub struct LuaMemberSlot {
    pub owner: LuaMemberOwner,
    pub key: LuaMemberKey,
}

impl View for LuaMemberSlot {
    type V = (MemberOwner, MemberKey);

    open spec fn view(&self) -> (MemberOwner, MemberKey) {
        (self.owner@, self.key@)
    }
}

impl TableKey for LuaMemberSlot {
    fn same(&self, other: &Self) -> (r: bool) {
        self.owner.same(&other.owner) && self.key.same(&other.key)
    }
}

/// What a type declaration declares.
#[derive(Clone, Copy, Debug, PartialEq, Eq, Structural)]
pub enum LuaDeclTypeKind {
    Class,
    Enum,
    Alias,
}

/// A type declaration.
#[derive(Debug)]
pub struct LuaTypeDecl {
    pub kind: LuaDeclTypeKind,
    /// The type that an alias stands for.
    pub alias_origin: Option<LuaType>,
}

/// An operator declaration.
#[derive(Clone, Copy, Debug, PartialEq, Eq, Structural)]
pub struct LuaOperatorId {
    pub id: u64,
}

impl View for LuaOperatorId {
    type V = LuaOperatorId;

    open spec fn view(&self) -> LuaOperatorId {
        *self
    }
}

impl TableKey for LuaOperatorId {
    fn same(&self, other: &Self) -> (r: bool) {
        *self == *other
    }
}

/// The metamethod that an operator declaration stands for.
#[derive(Clone, Copy, Debug, PartialEq, Eq, Structural)]
pub enum LuaOperatorMetaMethod {
    Index,
    Other(u8),
}

impl View for LuaOperatorMetaMethod {
    type V = LuaOperatorMetaMethod;

    open spec fn view(&self) -> LuaOperatorMetaMethod {
        *self
    }
}

impl TableKey for LuaOperatorMetaMethod {
    fn same(&self, other: &Self) -> (r: bool) {
        *self == *other
    }
}

/// The operand types of an operator, and the type of its result.
#[derive(Debug)]
pub struct LuaOperator {
    pub operands: Vec<LuaType>,
    pub result: LuaType,
}

/// The declaration of a variable.
#[derive(Clone, Copy, Debug, PartialEq, Eq, Structural)]
pub struct LuaDeclId {
    pub file_id: FileId,
    pub position: u32,
}

impl View for LuaDeclId {
    type V = LuaDeclId;

    open spec fn view(&self) -> LuaDeclId {
        *self
    }
}

impl TableKey for LuaDeclId {
    fn same(&self, other: &Self) -> (r: bool) {
        *self == *other
    }
}

/// The place in the source that declares a member.
#[derive(Clone, Copy, Debug, PartialEq, Eq, Structural)]
pub struct LuaMemberId {
    pub file_id: FileId,
    pub id: LuaSyntaxId,
}

/// What is known of a declared variable.
#[derive(Debug)]
pub struct LuaDecl {
    pub typ: Option<LuaType>,
}

/// The declarations of a workspace.
#[derive(Debug)]
pub struct DbIndex {
    /// The members, each with its type where that is known.
    pub members: Table<LuaMemberSlot, Option<LuaType>>,
    pub type_decls: Table<LuaTypeDeclId, LuaTypeDecl>,
    pub super_types: Table<LuaTypeDeclId, Vec<LuaType>>,
    /// The operators that a type declares, by metamethod.
    pub type_operators: Table<LuaTypeDeclId, Table<LuaOperatorMetaMethod, Vec<LuaOperatorId>>>,
    pub operators: Table<LuaOperatorId, LuaOperator>,
    pub global_decls: Table<LuaMemberKey, LuaDeclId>,
    pub decls: Table<LuaDeclId, LuaDecl>,
}

/// What an optional type stands for.
pub open spec fn opt_view(t: Option<LuaType>) -> Option<Ty> {
    match t {
        Some(t) => Some(t@),
        None => None,
    }
}

/// A copy of an optional type.
pub fn clone_opt(t: &Option<LuaType>) -> (r: Option<LuaType>)
    ensures
        opt_view(r) == opt_view(*t),
{
    match t {
        Some(t) => Some(t.clone()),
        None => None,
    }
}

impl DbIndex {
    /// A workspace without declarations.
    pub fn new() -> (r: Self)
        ensures
            r.members.map() == Map::<(MemberOwner, MemberKey), Option<LuaType>>::empty(),
            r.type_decls.map() == Map::<Seq<char>, LuaTypeDecl>::empty(),
            r.super_types.map() == Map::<Seq<char>, Vec<LuaType>>::empty(),
            r.type_operators.map() == Map::<
                Seq<char>,
                Table<LuaOperatorMetaMethod, Vec<LuaOperatorId>>,
            >::empty(),
            r.operators.map() == Map::<LuaOperatorId, LuaOperator>::empty(),
            r.global_decls.map() == Map::<MemberKey, LuaDeclId>::empty(),
            r.decls.map() == Map::<LuaDeclId, LuaDecl>::empty(),
    {
        DbIndex {
            members: Table::new(),
            type_decls: Table::new(),
            super_types: Table::new(),
            type_operators: Table::new(),
            operators: Table::new(),
            global_decls: Table::new(),
            decls: Table::new(),
        }
    }

    /// The type of a member: `None` where there is no such member, `Some(None)`
    /// where its type is not known.
    pub open spec fn member(self, owner: MemberOwner, key: MemberKey) -> Option<Option<Ty>> {
        if self.members.map().contains_key((owner, key)) {
            Some(opt_view(self.members.map()[(owner, key)]))
        } else {
            None
        }
    }

    /// What a type declaration declares.
    pub open spec fn decl_kind(self, id: Seq<char>) -> Option<LuaDeclTypeKind> {
        if self.type_decls.map().contains_key(id) {
            Some(self.type_decls.map()[id].kind)
        } else {
            None
        }
    }

    /// The type that the alias `id` stands for.
    pub open spec fn alias_origin(self, id: Seq<char>) -> Option<Ty> {
        opt_view(self.type_decls.map()[id].alias_origin)
    }

    /// The types that a declared type derives from.
    pub open spec fn supers(self, id: Seq<char>) -> Option<Seq<Ty>> {
        if self.super_types.map().contains_key(id) {
            Some(types_view(self.super_types.map()[id]))
        } else {
            None
        }
    }

    /// The index operators that the type declares: `None` where the type
    /// declares no operators, `Some(None)` where it declares others only.
    pub open spec fn index_operators(self, id: Seq<char>) -> Option<Option<Seq<LuaOperatorId>>> {
        if self.type_operators.map().contains_key(id) {
            let methods = self.type_operators.map()[id].map();
            if methods.contains_key(LuaOperatorMetaMethod::Index) {
                Some(Some(methods[LuaOperatorMetaMethod::Index]@))
            } else {
                Some(None)
            }
        } else {
            None
        }
    }

    /// The type of the first operand of an operator and the type of its
    /// result, where the operator has an operand.
    pub open spec fn operator(self, id: LuaOperatorId) -> Option<(Ty, Ty)> {
        if self.operators.map().contains_key(id) && self.operators.map()[id].operands@.len() > 0 {
            let op = self.operators.map()[id];
            Some((op.operands@[0]@, op.result@))
        } else {
            None
        }
    }

    /// The type of the global variable `name`.
    pub open spec fn global(self, name: Seq<char>) -> Option<Ty> {
        if self.global_decls.map().contains_key(MemberKey::Name(name)) {
            let decl = self.global_decls.map()[MemberKey::Name(name)];
            if self.decls.map().contains_key(decl) {
                opt_view(self.decls.map()[decl].typ)
            } else {
                None
            }
        } else {
            None
        }
    }

    /// Looks up the type of a member.
    pub fn get_member(
        &self,
        owner: LuaMemberOwner,
        key: LuaMemberKey,
    ) -> (r: Option<&Option<LuaType>>)
        ensures
            r is Some <==> self.member(owner@, key@) is Some,
            r matches Some(t) ==> self.member(owner@, key@) == Some(opt_view(*t)),
    {
        self.members.get(&LuaMemberSlot { owner, key })
    }

    /// Looks up the index operators that a type declares.
    pub fn get_index_operators(
        &self,
        id: &LuaTypeDeclId,
    ) -> (r: Option<Option<&Vec<LuaOperatorId>>>)
        ensures
            r is None <==> self.index_operators(id@) is None,
            r matches Some(None) ==> self.index_operators(id@) == Some(None::<Seq<LuaOperatorId>>),
            r matches Some(Some(v)) ==> self.index_operators(id@) == Some(Some(v@)),
    {
        match self.type_operators.get(id) {
            Some(methods) => Some(methods.get(&LuaOperatorMetaMethod::Index)),
            None => None,
        }
    }

    /// Looks up the type of the first operand of an operator and the type of
    /// its result.
    pub fn get_operator(&self, id: LuaOperatorId) -> (r: Option<(&LuaType, &LuaType)>)
        ensures
            r is None <==> self.operator(id) is None,
            r matches Some((operand, result)) ==> self.operator(id) == Some((operand@, result@)),
    {
        match self.operators.get(&id) {
            Some(op) => {
                if op.operands.len() > 0 {
                    Some((&op.operands[0], &op.result))
                } else {
                    None
                }
            },
            None => None,
        }
    }

    /// Looks up the type of a global variable.
    pub fn get_global(&self, name: &SmolStr) -> (r: Option<LuaType>)
        ensures
            opt_view(r) == self.global(smol_chars(*name)),
    {
        match self.global_decls.get(&LuaMemberKey::Name(smol_clone(name))) {
            Some(id) => match self.decls.get(id) {
                Some(decl) => clone_opt(&decl.typ),
                None => None,
            },
            None => None,
        }
    }
}

} // verus!
