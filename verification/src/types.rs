//! Lua types, and the keys by which members are found.

use crate::syntax::InFiled;
use crate::table::TableKey;
use crate::text::{smol_chars, smol_clone, smol_new, smol_same};
use smol_str::SmolStr;
use vstd::prelude::*;

verus! {

/// The key under which a member is stored.
#[derive(Debug, PartialEq, Eq)]
pub enum LuaMemberKey {
    /// A key that is only known at run time.
    Unnamed,
    Integer(i64),
    Name(SmolStr),
}

/// What a [`LuaMemberKey`] stands for.
pub enum MemberKey {
    Unnamed,
    Integer(i64),
    Name(Seq<char>),
}

impl View for LuaMemberKey {
    type V = MemberKey;

    open spec fn view(&self) -> MemberKey {
        match self {
            LuaMemberKey::Unnamed => MemberKey::Unnamed,
            LuaMemberKey::Integer(i) => MemberKey::Integer(*i),
            LuaMemberKey::Name(n) => MemberKey::Name(smol_chars(*n)),
        }
    }
}

impl TableKey for LuaMemberKey {
    fn same(&self, other: &Self) -> (r: bool) {
        match (self, other) {
            (LuaMemberKey::Unnamed, LuaMemberKey::Unnamed) => true,
            (LuaMemberKey::Integer(a), LuaMemberKey::Integer(b)) => *a == *b,
            (LuaMemberKey::Name(a), LuaMemberKey::Name(b)) => smol_same(a, b),
            _ => false,
        }
    }
}

impl Clone for LuaMemberKey {
    fn clone(&self) -> (r: Self)
        ensures
            r@ == self@,
    {
        match self {
            LuaMemberKey::Unnamed => LuaMemberKey::Unnamed,
            LuaMemberKey::Integer(i) => LuaMemberKey::Integer(*i),
            LuaMemberKey::Name(n) => LuaMemberKey::Name(smol_clone(n)),
        }
    }
}

impl LuaMemberKey {
    /// The name of a named key.
    pub fn get_name(&self) -> (r: Option<&SmolStr>)
        ensures
            r is Some <==> self@ is Name,
            r matches Some(n) ==> self@ == MemberKey::Name(smol_chars(*n)),
    {
        match self {
            LuaMemberKey::Name(n) => Some(n),
            _ => None,
        }
    }
}

/// The full name of a declared type.
#[derive(Debug, PartialEq, Eq)]
pub struct LuaTypeDeclId {
    pub name: SmolStr,
}

impl View for LuaTypeDeclId {
    type V = Seq<char>;

    open spec fn view(&self) -> Seq<char> {
        smol_chars(self.name)
    }
}

impl TableKey for LuaTypeDeclId {
    fn same(&self, other: &Self) -> (r: bool) {
        smol_same(&self.name, &other.name)
    }
}

impl Clone for LuaTypeDeclId {
    fn clone(&self) -> (r: Self)
        ensures
            r@ == self@,
    {
        LuaTypeDeclId { name: smol_clone(&self.name) }
    }
}

impl LuaTypeDeclId {
    /// The declaration with the given full name.
    pub fn new(name: &str) -> (r: Self)
        ensures
            r@ == name@,
    {
        LuaTypeDeclId { name: smol_new(name) }
    }
}

/// What members belong to.
#[derive(Debug, PartialEq, Eq)]
pub enum LuaMemberOwner {
    /// A table literal.
    Element(InFiled),
    /// A declared type.
    Type(LuaTypeDeclId),
}

/// What a [`LuaMemberOwner`] stands for.
pub enum MemberOwner {
    Element(InFiled),
    Type(Seq<char>),
}

impl View for LuaMemberOwner {
    type V = MemberOwner;

    open spec fn view(&self) -> MemberOwner {
        match self {
            LuaMemberOwner::Element(range) => MemberOwner::Element(*range),
            LuaMemberOwner::Type(id) => MemberOwner::Type(id@),
        }
    }
}

impl TableKey for LuaMemberOwner {
    fn same(&self, other: &Self) -> (r: bool) {
        match (self, other) {
            (LuaMemberOwner::Element(a), LuaMemberOwner::Element(b)) => *a == *b,
            (LuaMemberOwner::Type(a), LuaMemberOwner::Type(b)) => a.same(b),
            _ => false,
        }
    }
}

/// A table type with known fields, such as `{ x: number, [string]: boolean }`.
#[derive(Debug, PartialEq, Eq)]
pub struct LuaObjectType {
    /// The named fields, in the order in which they were written.
    pub fields: Vec<(LuaMemberKey, LuaType)>,
    /// The types of the keys that are admitted besides, each with the type of
    /// its value.
    pub index_access: Vec<(LuaType, LuaType)>,
}

/// A generic type applied to arguments, such as `List<string>`.
#[derive(Debug, PartialEq, Eq)]
pub struct LuaGenericType {
    pub base: Box<LuaType>,
    pub params: Vec<LuaType>,
}

/// A type that a table literal makes concrete.
#[derive(Debug, PartialEq, Eq)]
pub struct LuaInstanceType {
    pub base: Box<LuaType>,
    pub range: InFiled,
}

/// A Lua type.
#[derive(Debug, PartialEq, Eq)]
pub enum LuaType {
    Unknown,
    Any,
    Nil,
    Boolean,
    Integer,
    Number,
    String,
    Table,
    Function,
    Thread,
    Userdata,
    Io,
    Global,
    StringConst(SmolStr),
    DocStringConst(SmolStr),
    IntegerConst(i64),
    /// A float literal, given by its bits.
    FloatConst(u64),
    TableConst(InFiled),
    Ref(LuaTypeDeclId),
    Def(LuaTypeDeclId),
    Array(Box<LuaType>),
    Tuple(Vec<LuaType>),
    Object(LuaObjectType),
    Union(Vec<LuaType>),
    Intersection(Vec<LuaType>),
    Generic(LuaGenericType),
    TableGeneric(Vec<LuaType>),
    Instance(LuaInstanceType),
    Namespace(SmolStr),
    /// A type that has no members, given by a number of its own.
    Opaque(u64),
}

/// What a [`LuaType`] stands for.
pub enum Ty {
    Unknown,
    Any,
    Nil,
    Boolean,
    Integer,
    Number,
    String,
    Table,
    Function,
    Thread,
    Userdata,
    Io,
    Global,
    StringConst(Seq<char>),
    DocStringConst(Seq<char>),
    IntegerConst(i64),
    FloatConst(u64),
    TableConst(InFiled),
    Ref(Seq<char>),
    Def(Seq<char>),
    Array(Box<Ty>),
    Tuple(Seq<Ty>),
    Object(Seq<(MemberKey, Ty)>, Seq<(Ty, Ty)>),
    Union(Seq<Ty>),
    Intersection(Seq<Ty>),
    Generic(Box<Ty>, Seq<Ty>),
    TableGeneric(Seq<Ty>),
    Instance(Box<Ty>, InFiled),
    Namespace(Seq<char>),
    Opaque(u64),
}

impl Ty {
    /// A string, whatever its value.
    pub open spec fn is_string(self) -> bool {
        self is String || self is StringConst || self is DocStringConst
    }

    /// A number, whatever its value.
    pub open spec fn is_number(self) -> bool {
        self is Number || self is Integer || self is IntegerConst || self is FloatConst
    }

    /// A type whose members are never reached through an index operator.
    pub open spec fn without_index_operator(self) -> bool {
        !(self is TableConst || self is Ref || self is Def || self is Array || self is Object
            || self is Union || self is Intersection || self is Generic || self is TableGeneric)
    }
}

/// What a list of types stands for.
pub open spec fn types_view(v: Vec<LuaType>) -> Seq<Ty>
    decreases v,
{
    Seq::new(v@.len(), |i: int| if 0 <= i < v@.len() { v@[i].ty() } else { Ty::Unknown })
}

/// What a list of fields stands for.
pub open spec fn fields_view(v: Vec<(LuaMemberKey, LuaType)>) -> Seq<(MemberKey, Ty)>
    decreases v,
{
    Seq::new(
        v@.len(),
        |i: int|
            if 0 <= i < v@.len() {
                (v@[i].0@, v@[i].1.ty())
            } else {
                (MemberKey::Unnamed, Ty::Unknown)
            },
    )
}

/// What a list of key and value types stands for.
pub open spec fn pairs_view(v: Vec<(LuaType, LuaType)>) -> Seq<(Ty, Ty)>
    decreases v,
{
    Seq::new(
        v@.len(),
        |i: int|
            if 0 <= i < v@.len() {
                (v@[i].0.ty(), v@[i].1.ty())
            } else {
                (Ty::Unknown, Ty::Unknown)
            },
    )
}

impl View for LuaType {
    type V = Ty;

    open spec fn view(&self) -> Ty {
        self.ty()
    }
}

impl LuaType {
    /// What the type stands for.
    pub open spec fn ty(self) -> Ty
        decreases self,
    {
        match self {
            LuaType::Unknown => Ty::Unknown,
            LuaType::Any => Ty::Any,
            LuaType::Nil => Ty::Nil,
            LuaType::Boolean => Ty::Boolean,
            LuaType::Integer => Ty::Integer,
            LuaType::Number => Ty::Number,
            LuaType::String => Ty::String,
            LuaType::Table => Ty::Table,
            LuaType::Function => Ty::Function,
            LuaType::Thread => Ty::Thread,
            LuaType::Userdata => Ty::Userdata,
            LuaType::Io => Ty::Io,
            LuaType::Global => Ty::Global,
            LuaType::StringConst(s) => Ty::StringConst(smol_chars(s)),
            LuaType::DocStringConst(s) => Ty::DocStringConst(smol_chars(s)),
            LuaType::IntegerConst(i) => Ty::IntegerConst(i),
            LuaType::FloatConst(b) => Ty::FloatConst(b),
            LuaType::TableConst(r) => Ty::TableConst(r),
            LuaType::Ref(id) => Ty::Ref(id@),
            LuaType::Def(id) => Ty::Def(id@),
            LuaType::Array(base) => Ty::Array(Box::new((*base).ty())),
            LuaType::Tuple(v) => Ty::Tuple(types_view(v)),
            LuaType::Object(o) => Ty::Object(fields_view(o.fields), pairs_view(o.index_access)),
            LuaType::Union(v) => Ty::Union(types_view(v)),
            LuaType::Intersection(v) => Ty::Intersection(types_view(v)),
            LuaType::Generic(g) => Ty::Generic(Box::new((*g.base).ty()), types_view(g.params)),
            LuaType::TableGeneric(v) => Ty::TableGeneric(types_view(v)),
            LuaType::Instance(inst) => Ty::Instance(Box::new((*inst.base).ty()), inst.range),
            LuaType::Namespace(s) => Ty::Namespace(smol_chars(s)),
            LuaType::Opaque(n) => Ty::Opaque(n),
        }
    }

    /// Whether the type is a string, whatever its value.
    pub fn is_string(&self) -> (r: bool)
        ensures
            r == self@.is_string(),
    {
        match self {
            LuaType::String | LuaType::StringConst(_) | LuaType::DocStringConst(_) => true,
            _ => false,
        }
    }

    /// Whether the type is a number, whatever its value.
    pub fn is_number(&self) -> (r: bool)
        ensures
            r == self@.is_number(),
    {
        match self {
            LuaType::Number
            | LuaType::Integer
            | LuaType::IntegerConst(_)
            | LuaType::FloatConst(_) => true,
            _ => false,
        }
    }

    /// Whether nothing is known of the type.
    pub fn is_unknown(&self) -> (r: bool)
        ensures
            r == (self@ is Unknown),
    {
        match self {
            LuaType::Unknown => true,
            _ => false,
        }
    }

    /// Whether members of the type are never reached through an index
    /// operator.
    pub fn without_index_operator(&self) -> (r: bool)
        ensures
            r == self@.without_index_operator(),
    {
        match self {
            LuaType::TableConst(_)
            | LuaType::Ref(_)
            | LuaType::Def(_)
            | LuaType::Array(_)
            | LuaType::Object(_)
            | LuaType::Union(_)
            | LuaType::Intersection(_)
            | LuaType::Generic(_)
            | LuaType::TableGeneric(_) => false,
            _ => true,
        }
    }
}

/// A copy of a list of types.
pub fn clone_types(v: &Vec<LuaType>) -> (r: Vec<LuaType>)
    ensures
        types_view(r) == types_view(*v),
    decreases *v,
{
    let mut r: Vec<LuaType> = Vec::new();
    let mut i: usize = 0;
    while i < v.len()
        invariant
            i <= v@.len(),
            r@.len() == i,
            forall|j: int| 0 <= j < i ==> (#[trigger] r@[j]).ty() == v@[j].ty(),
        decreases v@.len() - i,
    {
        r.push(clone_type(&v[i]));
        i += 1;
    }
    assert(types_view(r) =~= types_view(*v));
    r
}

fn clone_fields(v: &Vec<(LuaMemberKey, LuaType)>) -> (r: Vec<(LuaMemberKey, LuaType)>)
    ensures
        fields_view(r) == fields_view(*v),
    decreases *v,
{
    let mut r: Vec<(LuaMemberKey, LuaType)> = Vec::new();
    let mut i: usize = 0;
    while i < v.len()
        invariant
            i <= v@.len(),
            r@.len() == i,
            forall|j: int|
                0 <= j < i ==> (#[trigger] r@[j]).0@ == v@[j].0@ && r@[j].1.ty() == v@[j].1.ty(),
        decreases v@.len() - i,
    {
        r.push((v[i].0.clone(), clone_type(&v[i].1)));
        i += 1;
    }
    assert(fields_view(r) =~= fields_view(*v));
    r
}

fn clone_pairs(v: &Vec<(LuaType, LuaType)>) -> (r: Vec<(LuaType, LuaType)>)
    ensures
        pairs_view(r) == pairs_view(*v),
    decreases *v,
{
    let mut r: Vec<(LuaType, LuaType)> = Vec::new();
    let mut i: usize = 0;
    while i < v.len()
        invariant
            i <= v@.len(),
            r@.len() == i,
            forall|j: int|
                0 <= j < i ==> (#[trigger] r@[j]).0.ty() == v@[j].0.ty() && r@[j].1.ty()
                    == v@[j].1.ty(),
        decreases v@.len() - i,
    {
        r.push((clone_type(&v[i].0), clone_type(&v[i].1)));
        i += 1;
    }
    assert(pairs_view(r) =~= pairs_view(*v));
    r
}

fn clone_type(t: &LuaType) -> (r: LuaType)
    ensures
        r.ty() == t.ty(),
    decreases *t,
{
    match t {
        LuaType::Unknown => LuaType::Unknown,
        LuaType::Any => LuaType::Any,
        LuaType::Nil => LuaType::Nil,
        LuaType::Boolean => LuaType::Boolean,
        LuaType::Integer => LuaType::Integer,
        LuaType::Number => LuaType::Number,
        LuaType::String => LuaType::String,
        LuaType::Table => LuaType::Table,
        LuaType::Function => LuaType::Function,
        LuaType::Thread => LuaType::Thread,
        LuaType::Userdata => LuaType::Userdata,
        LuaType::Io => LuaType::Io,
        LuaType::Global => LuaType::Global,
        LuaType::StringConst(s) => LuaType::StringConst(smol_clone(s)),
        LuaType::DocStringConst(s) => LuaType::DocStringConst(smol_clone(s)),
        LuaType::IntegerConst(i) => LuaType::IntegerConst(*i),
        LuaType::FloatConst(b) => LuaType::FloatConst(*b),
        LuaType::TableConst(r) => LuaType::TableConst(*r),
        LuaType::Ref(id) => LuaType::Ref(id.clone()),
        LuaType::Def(id) => LuaType::Def(id.clone()),
        LuaType::Array(base) => LuaType::Array(Box::new(clone_type(&**base))),
        LuaType::Tuple(v) => LuaType::Tuple(clone_types(v)),
        LuaType::Object(o) => LuaType::Object(
            LuaObjectType {
                fields: clone_fields(&o.fields),
                index_access: clone_pairs(&o.index_access),
            },
        ),
        LuaType::Union(v) => LuaType::Union(clone_types(v)),
        LuaType::Intersection(v) => LuaType::Intersection(clone_types(v)),
        LuaType::Generic(g) => LuaType::Generic(
            LuaGenericType {
                base: Box::new(clone_type(&*g.base)),
                params: clone_types(&g.params),
            },
        ),
        LuaType::TableGeneric(v) => LuaType::TableGeneric(clone_types(v)),
        LuaType::Instance(inst) => LuaType::Instance(
            LuaInstanceType { base: Box::new(clone_type(&*inst.base)), range: inst.range },
        ),
        LuaType::Namespace(s) => LuaType::Namespace(smol_clone(s)),
        LuaType::Opaque(n) => LuaType::Opaque(*n),
    }
}

impl Clone for LuaType {
    fn clone(&self) -> (r: Self)
        ensures
            r@ == self@,
    {
        clone_type(self)
    }
}

/// Whether two lists hold the same types in the same order.
pub fn same_types(a: &Vec<LuaType>, b: &Vec<LuaType>) -> (r: bool)
    ensures
        r == (types_view(*a) == types_view(*b)),
    decreases *a,
{
    if a.len() != b.len() {
        assert(types_view(*a).len() != types_view(*b).len());
        return false;
    }
    let mut i: usize = 0;
    while i < a.len()
        invariant
            i <= a@.len() == b@.len(),
            forall|j: int| 0 <= j < i ==> (#[trigger] a@[j]).ty() == b@[j].ty(),
        decreases a@.len() - i,
    {
        if !same_type(&a[i], &b[i]) {
            assert(types_view(*a)[i as int] != types_view(*b)[i as int]);
            return false;
        }
        i += 1;
    }
    assert(types_view(*a) =~= types_view(*b));
    true
}

fn same_fields(a: &Vec<(LuaMemberKey, LuaType)>, b: &Vec<(LuaMemberKey, LuaType)>) -> (r: bool)
    ensures
        r == (fields_view(*a) == fields_view(*b)),
    decreases *a,
{
    if a.len() != b.len() {
        assert(fields_view(*a).len() != fields_view(*b).len());
        return false;
    }
    let mut i: usize = 0;
    while i < a.len()
        invariant
            i <= a@.len() == b@.len(),
            forall|j: int|
                0 <= j < i ==> (#[trigger] a@[j]).0@ == b@[j].0@ && a@[j].1.ty() == b@[j].1.ty(),
        decreases a@.len() - i,
    {
        if !a[i].0.same(&b[i].0) || !same_type(&a[i].1, &b[i].1) {
            assert(fields_view(*a)[i as int] != fields_view(*b)[i as int]);
            return false;
        }
        i += 1;
    }
    assert(fields_view(*a) =~= fields_view(*b));
    true
}

fn same_pairs(a: &Vec<(LuaType, LuaType)>, b: &Vec<(LuaType, LuaType)>) -> (r: bool)
    ensures
        r == (pairs_view(*a) == pairs_view(*b)),
    decreases *a,
{
    if a.len() != b.len() {
        assert(pairs_view(*a).len() != pairs_view(*b).len());
        return false;
    }
    let mut i: usize = 0;
    while i < a.len()
        invariant
            i <= a@.len() == b@.len(),
            forall|j: int|
                0 <= j < i ==> (#[trigger] a@[j]).0.ty() == b@[j].0.ty() && a@[j].1.ty()
                    == b@[j].1.ty(),
        decreases a@.len() - i,
    {
        if !same_type(&a[i].0, &b[i].0) || !same_type(&a[i].1, &b[i].1) {
            assert(pairs_view(*a)[i as int] != pairs_view(*b)[i as int]);
            return false;
        }
        i += 1;
    }
    assert(pairs_view(*a) =~= pairs_view(*b));
    true
}

fn same_type(a: &LuaType, b: &LuaType) -> (r: bool)
    ensures
        r == (a.ty() == b.ty()),
    decreases *a,
{
    match (a, b) {
        (LuaType::Unknown, LuaType::Unknown) => true,
        (LuaType::Any, LuaType::Any) => true,
        (LuaType::Nil, LuaType::Nil) => true,
        (LuaType::Boolean, LuaType::Boolean) => true,
        (LuaType::Integer, LuaType::Integer) => true,
        (LuaType::Number, LuaType::Number) => true,
        (LuaType::String, LuaType::String) => true,
        (LuaType::Table, LuaType::Table) => true,
        (LuaType::Function, LuaType::Function) => true,
        (LuaType::Thread, LuaType::Thread) => true,
        (LuaType::Userdata, LuaType::Userdata) => true,
        (LuaType::Io, LuaType::Io) => true,
        (LuaType::Global, LuaType::Global) => true,
        (LuaType::StringConst(x), LuaType::StringConst(y)) => smol_same(x, y),
        (LuaType::DocStringConst(x), LuaType::DocStringConst(y)) => smol_same(x, y),
        (LuaType::IntegerConst(x), LuaType::IntegerConst(y)) => *x == *y,
        (LuaType::FloatConst(x), LuaType::FloatConst(y)) => *x == *y,
        (LuaType::TableConst(x), LuaType::TableConst(y)) => *x == *y,
        (LuaType::Ref(x), LuaType::Ref(y)) => x.same(y),
        (LuaType::Def(x), LuaType::Def(y)) => x.same(y),
        (LuaType::Array(x), LuaType::Array(y)) => same_type(&**x, &**y),
        (LuaType::Tuple(x), LuaType::Tuple(y)) => same_types(x, y),
        (LuaType::Object(x), LuaType::Object(y)) => same_fields(&x.fields, &y.fields)
            && same_pairs(&x.index_access, &y.index_access),
        (LuaType::Union(x), LuaType::Union(y)) => same_types(x, y),
        (LuaType::Intersection(x), LuaType::Intersection(y)) => same_types(x, y),
        (LuaType::Generic(x), LuaType::Generic(y)) => same_type(&*x.base, &*y.base) && same_types(
            &x.params,
            &y.params,
        ),
        (LuaType::TableGeneric(x), LuaType::TableGeneric(y)) => same_types(x, y),
        (LuaType::Instance(x), LuaType::Instance(y)) => same_type(&*x.base, &*y.base) && x.range
            == y.range,
        (LuaType::Namespace(x), LuaType::Namespace(y)) => smol_same(x, y),
        (LuaType::Opaque(x), LuaType::Opaque(y)) => *x == *y,
        _ => false,
    }
}

impl TableKey for LuaType {
    fn same(&self, other: &Self) -> (r: bool) {
        same_type(self, other)
    }
}

/// The declaration whose members a built-in type has, by name.
pub open spec fn builtin_decl(t: Ty) -> Option<Seq<char>> {
    if t.is_string() {
        Some("string"@)
    } else if t is Io {
        Some("io"@)
    } else {
        None
    }
}

/// The declaration whose members a built-in type has.
pub fn get_buildin_type_map_type_id(t: &LuaType) -> (r: Option<LuaTypeDeclId>)
    ensures
        r is Some <==> builtin_decl(t@) is Some,
        r matches Some(id) ==> builtin_decl(t@) == Some(id@),
{
    match t {
        LuaType::String | LuaType::StringConst(_) | LuaType::DocStringConst(_) => {
            Some(LuaTypeDeclId::new("string"))
        },
        LuaType::Io => Some(LuaTypeDeclId::new("io")),
        _ => None,
    }
}

} // verus!
