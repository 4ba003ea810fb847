//! Source positions and the parts of a Lua syntax tree that inference reads.

use crate::table::{Table, TableKey};
use crate::text::{smol_chars, smol_clone};
use crate::types::{LuaMemberKey, MemberKey};
use smol_str::SmolStr;
use vstd::prelude::*;

verus! {

/// A source file.
#[derive(Clone, Copy, Debug, PartialEq, Eq, Structural)]
pub struct FileId {
    pub id: u32,
}

/// A range of byte offsets in a source file.
#[derive(Clone, Copy, Debug, PartialEq, Eq, Structural)]
pub struct TextRange {
    pub start: u32,
    pub end: u32,
}

/// A range together with the file it lies in.
#[derive(Clone, Copy, Debug, PartialEq, Eq, Structural)]
pub struct InFiled {
    pub file_id: FileId,
    pub value: TextRange,
}

/// The kind of a syntax node.
#[derive(Clone, Copy, Debug, PartialEq, Eq, Structural)]
pub enum LuaSyntaxKind {
    /// A table constructor whose fields have no keys.
    TableArrayExpr,
    /// A table constructor whose fields have keys.
    TableObjectExpr,
    /// A table constructor without fields.
    TableEmptyExpr,
    CallExpr,
    IndexExpr,
    NameExpr,
    Other(u16),
}

/// What tells a syntax node from the other nodes of its file.
#[derive(Clone, Copy, Debug, PartialEq, Eq, Structural)]
pub struct LuaSyntaxId {
    pub kind: LuaSyntaxKind,
    pub range: TextRange,
}

impl View for LuaSyntaxId {
    type V = LuaSyntaxId;

    open spec fn view(&self) -> LuaSyntaxId {
        *self
    }
}

impl TableKey for LuaSyntaxId {
    fn same(&self, other: &Self) -> (r: bool) {
        *self == *other
    }
}

/// An expression.
#[derive(Debug)]
pub enum LuaExpr {
    TableExpr(LuaTableExpr),
    CallExpr(LuaSyntaxId),
    IndexExpr(LuaSyntaxId),
    NameExpr(LuaSyntaxId),
    Other(LuaSyntaxId),
}

/// A table constructor.
#[derive(Debug)]
pub struct LuaTableExpr {
    pub id: LuaSyntaxId,
    pub fields: Vec<LuaTableField>,
}

/// A field of a table constructor.
#[derive(Debug)]
pub struct LuaTableField {
    pub key: Option<LuaIndexKey>,
    pub value: Option<LuaExpr>,
}

/// The key of an index expression or of a table field.
#[derive(Debug)]
pub enum LuaIndexKey {
    /// `t.name`
    Name(SmolStr),
    /// `t["text"]`
    String(SmolStr),
    /// `t[1]`
    Integer(i64),
    /// `t[expr]`
    Expr(LuaExpr),
}

/// What a [`LuaIndexKey`] stands for.
pub enum IndexKey {
    Name(Seq<char>),
    String(Seq<char>),
    Integer(i64),
    Expr(LuaSyntaxId),
}

impl LuaExpr {
    /// The node of the expression.
    pub open spec fn id(self) -> LuaSyntaxId {
        match self {
            LuaExpr::TableExpr(table) => table.id,
            LuaExpr::CallExpr(id) => id,
            LuaExpr::IndexExpr(id) => id,
            LuaExpr::NameExpr(id) => id,
            LuaExpr::Other(id) => id,
        }
    }

    /// The node of the expression.
    pub fn get_id(&self) -> (r: LuaSyntaxId)
        ensures
            r == self.id(),
    {
        match self {
            LuaExpr::TableExpr(table) => table.id,
            LuaExpr::CallExpr(id) => *id,
            LuaExpr::IndexExpr(id) => *id,
            LuaExpr::NameExpr(id) => *id,
            LuaExpr::Other(id) => *id,
        }
    }
}

impl View for LuaIndexKey {
    type V = IndexKey;

    open spec fn view(&self) -> IndexKey {
        match self {
            LuaIndexKey::Name(n) => IndexKey::Name(smol_chars(*n)),
            LuaIndexKey::String(s) => IndexKey::String(smol_chars(*s)),
            LuaIndexKey::Integer(i) => IndexKey::Integer(*i),
            LuaIndexKey::Expr(e) => IndexKey::Expr(e.id()),
        }
    }
}

impl IndexKey {
    /// The key under which the member is stored: a name and a string literal
    /// are the same key.
    pub open spec fn member_key(self) -> MemberKey {
        match self {
            IndexKey::Name(n) => MemberKey::Name(n),
            IndexKey::String(s) => MemberKey::Name(s),
            IndexKey::Integer(i) => MemberKey::Integer(i),
            IndexKey::Expr(_) => MemberKey::Unnamed,
        }
    }
}

impl LuaIndexKey {
    /// The key under which the member is stored.
    pub fn to_member_key(&self) -> (r: LuaMemberKey)
        ensures
            r@ == self@.member_key(),
    {
        match self {
            LuaIndexKey::Name(n) => LuaMemberKey::Name(smol_clone(n)),
            LuaIndexKey::String(s) => LuaMemberKey::Name(smol_clone(s)),
            LuaIndexKey::Integer(i) => LuaMemberKey::Integer(*i),
            LuaIndexKey::Expr(_) => LuaMemberKey::Unnamed,
        }
    }
}

/// The table constructors of a file.
#[derive(Debug)]
pub struct LuaChunk {
    pub tables: Table<LuaSyntaxId, LuaTableExpr>,
}

/// What member inference reads of an index expression or of a table field.
#[derive(Debug)]
pub struct LuaIndexMemberExpr<'a> {
    /// The file that the expression stands in.
    pub root: &'a LuaChunk,
    pub key: Option<LuaIndexKey>,
}

impl<'a> LuaIndexMemberExpr<'a> {
    /// What the key stands for.
    pub open spec fn index_key(self) -> Option<IndexKey> {
        match self.key {
            Some(key) => Some(key@),
            None => None,
        }
    }
}

/// An index expression.
#[derive(Debug)]
pub struct LuaIndexExpr<'a> {
    pub id: LuaSyntaxId,
    /// The expression that is indexed.
    pub prefix: Option<LuaExpr>,
    pub member: LuaIndexMemberExpr<'a>,
    /// The names that lead to the member, such as `a.b.c`.
    pub access_path: Option<SmolStr>,
}

/// A call expression.
#[derive(Debug)]
pub struct LuaCallExpr {
    pub args: Option<Vec<LuaExpr>>,
}

} // verus!
