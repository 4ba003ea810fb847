//! The progress of an inference: the questions it has asked of its host, the
//! answers it has been given, and the declarations it has visited.
//!
//! Some of what inference needs is computed elsewhere: the type of a nested
//! expression, a generic type with its arguments filled in, whether one type
//! is assignable to another. Inference asks for these one at a time. It stops
//! at the first question without an answer; the host records the answer and
//! starts the inference again.

use crate::db::{clone_opt, opt_view};
use crate::syntax::{FileId, LuaExpr, LuaSyntaxId};
use crate::table::{Table, TableKey};
use crate::text::{smol_chars, smol_clone, smol_same};
use crate::types::{
    clone_types, same_types, types_view, LuaMemberKey, LuaType, LuaTypeDeclId, MemberKey, Ty,
};
use smol_str::SmolStr;
use vstd::prelude::*;

verus! {

/// Why a type could not be inferred.
#[derive(Clone, Copy, Debug, PartialEq, Eq, Structural)]
pub enum InferFailReason {
    /// There is nothing to infer a type from.
    NoReason,
    /// A reason of the host.
    Other(u64),
}

/// How far an inference has come.
#[derive(Debug)]
pub enum Step<R, Q> {
    /// The inference has ended with a result.
    Done(R),
    /// The inference needs an answer.
    Ask(Q),
    /// The inference would never end: it needs its own result.
    Endless,
}

/// The result of member inference: the type of the member, where it has one.
pub type InferStep = Step<Option<LuaType>, Query>;

/// What an [`InferStep`] stands for.
pub type InferOut = Step<Option<Ty>, Question>;

/// The result of the inference of a call: its type, or why it has none.
pub type CallStep = Step<Result<LuaType, InferFailReason>, Query>;

/// What a [`CallStep`] stands for.
pub type CallOut = Step<Result<Ty, InferFailReason>, Question>;

/// A type and the arguments for its type parameters.
#[derive(Debug)]
pub struct AppliedType {
    pub ty: LuaType,
    pub params: Vec<LuaType>,
}

impl View for AppliedType {
    type V = (Ty, Seq<Ty>);

    open spec fn view(&self) -> (Ty, Seq<Ty>) {
        (self.ty@, types_view(self.params))
    }
}

impl TableKey for AppliedType {
    fn same(&self, other: &Self) -> (r: bool) {
        self.ty.same(&other.ty) && same_types(&self.params, &other.params)
    }
}

/// A declared type and the arguments for its type parameters.
#[derive(Debug)]
pub struct AppliedDecl {
    pub id: LuaTypeDeclId,
    pub params: Vec<LuaType>,
}

impl View for AppliedDecl {
    type V = (Seq<char>, Seq<Ty>);

    open spec fn view(&self) -> (Seq<char>, Seq<Ty>) {
        (self.id@, types_view(self.params))
    }
}

impl TableKey for AppliedDecl {
    fn same(&self, other: &Self) -> (r: bool) {
        self.id.same(&other.id) && same_types(&self.params, &other.params)
    }
}

/// A type that is wanted and a type that is given.
#[derive(Debug)]
pub struct TypePair {
    pub wanted: LuaType,
    pub given: LuaType,
}

impl View for TypePair {
    type V = (Ty, Ty);

    open spec fn view(&self) -> (Ty, Ty) {
        (self.wanted@, self.given@)
    }
}

impl TableKey for TypePair {
    fn same(&self, other: &Self) -> (r: bool) {
        self.wanted.same(&other.wanted) && self.given.same(&other.given)
    }
}

/// A place in a flow chain at which a path is read.
#[derive(Debug)]
pub struct AssertPoint {
    pub chain: u64,
    pub path: SmolStr,
    pub position: u32,
}

impl View for AssertPoint {
    type V = (u64, Seq<char>, u32);

    open spec fn view(&self) -> (u64, Seq<char>, u32) {
        (self.chain, smol_chars(self.path), self.position)
    }
}

impl TableKey for AssertPoint {
    fn same(&self, other: &Self) -> (r: bool) {
        self.chain == other.chain && smol_same(&self.path, &other.path) && self.position
            == other.position
    }
}

/// A type assertion and the type that it is applied to.
#[derive(Debug)]
pub struct Tightening {
    pub assertion: u64,
    pub ty: LuaType,
}

impl View for Tightening {
    type V = (u64, Ty);

    open spec fn view(&self) -> (u64, Ty) {
        (self.assertion, self.ty@)
    }
}

impl TableKey for Tightening {
    fn same(&self, other: &Self) -> (r: bool) {
        self.assertion == other.assertion && self.ty.same(&other.ty)
    }
}

/// What inference asks of its host.
#[derive(Debug)]
pub enum Query {
    /// The type of an expression.
    Expr(LuaSyntaxId),
    /// A type with its type parameters replaced by arguments.
    Instantiate(AppliedType),
    /// The type that a generic alias stands for, given its arguments.
    AliasOrigin(AppliedDecl),
    /// Whether the given type is assignable to the wanted one.
    Compact(TypePair),
    /// The flow chain that an index expression lies in.
    FlowChain(LuaSyntaxId),
    /// The type assertions that hold of a path.
    TypeAsserts(AssertPoint),
    /// What a type assertion leaves of a type.
    Tighten(Tightening),
    /// The members of a type.
    Members(LuaType),
}

/// What a [`Query`] stands for.
pub enum Question {
    Expr(LuaSyntaxId),
    Instantiate(Ty, Seq<Ty>),
    AliasOrigin(Seq<char>, Seq<Ty>),
    Compact(Ty, Ty),
    FlowChain(LuaSyntaxId),
    TypeAsserts(u64, Seq<char>, u32),
    Tighten(u64, Ty),
    Members(Ty),
}

impl View for Query {
    type V = Question;

    open spec fn view(&self) -> Question {
        match self {
            Query::Expr(id) => Question::Expr(*id),
            Query::Instantiate(q) => Question::Instantiate(q@.0, q@.1),
            Query::AliasOrigin(q) => Question::AliasOrigin(q@.0, q@.1),
            Query::Compact(q) => Question::Compact(q@.0, q@.1),
            Query::FlowChain(id) => Question::FlowChain(*id),
            Query::TypeAsserts(q) => Question::TypeAsserts(q@.0, q@.1, q@.2),
            Query::Tighten(q) => Question::Tighten(q@.0, q@.1),
            Query::Members(t) => Question::Members(t@),
        }
    }
}

impl View for Step<Option<LuaType>, Query> {
    type V = Step<Option<Ty>, Question>;

    open spec fn view(&self) -> Step<Option<Ty>, Question> {
        match self {
            Step::Done(t) => Step::Done(opt_view(*t)),
            Step::Ask(q) => Step::Ask(q@),
            Step::Endless => Step::Endless,
        }
    }
}

impl View for Step<Result<LuaType, InferFailReason>, Query> {
    type V = Step<Result<Ty, InferFailReason>, Question>;

    open spec fn view(&self) -> Step<Result<Ty, InferFailReason>, Question> {
        match self {
            Step::Done(t) => Step::Done(result_view(*t)),
            Step::Ask(q) => Step::Ask(q@),
            Step::Endless => Step::Endless,
        }
    }
}

/// What the answer to the type of an expression stands for.
pub open spec fn result_view(t: Result<LuaType, InferFailReason>) -> Result<Ty, InferFailReason> {
    match t {
        Ok(t) => Ok(t@),
        Err(e) => Err(e),
    }
}

/// A member of a type.
#[derive(Debug)]
pub struct LuaMemberInfo {
    pub key: LuaMemberKey,
    /// The key, written as in an access path.
    pub path: SmolStr,
    pub typ: LuaType,
}

/// What a [`LuaMemberInfo`] stands for.
pub struct MemberInfo {
    pub key: MemberKey,
    pub path: Seq<char>,
    pub typ: Ty,
}

impl View for LuaMemberInfo {
    type V = MemberInfo;

    open spec fn view(&self) -> MemberInfo {
        MemberInfo { key: self.key@, path: smol_chars(self.path), typ: self.typ@ }
    }
}

/// What a list of members stands for.
pub open spec fn infos_view(v: Vec<LuaMemberInfo>) -> Seq<MemberInfo> {
    v@.map_values(|m: LuaMemberInfo| m@)
}

/// How much of the workspace has been analysed.
#[derive(Clone, Copy, Debug, PartialEq, Eq, Structural)]
pub enum LuaAnalysisPhase {
    Ordered,
    Unordered,
    /// Everything has been analysed that ever will be.
    Force,
}

impl LuaAnalysisPhase {
    /// Whether inference has to come to a result with what is known.
    pub fn is_force(&self) -> (r: bool)
        ensures
            r == (*self is Force),
    {
        match self {
            LuaAnalysisPhase::Force => true,
            _ => false,
        }
    }
}

/// How to infer.
#[derive(Clone, Copy, Debug, PartialEq, Eq, Structural)]
pub struct LuaInferConfig {
    pub analysis_phase: LuaAnalysisPhase,
}

/// The answers that inference has been given for one file.
#[derive(Debug)]
pub struct LuaInferCache {
    pub file_id: FileId,
    pub config: LuaInferConfig,
    pub exprs: Table<LuaSyntaxId, Result<LuaType, InferFailReason>>,
    pub instances: Table<AppliedType, LuaType>,
    pub alias_origins: Table<AppliedDecl, Option<LuaType>>,
    pub compacts: Table<TypePair, bool>,
    pub flow_chains: Table<LuaSyntaxId, Option<u64>>,
    pub type_asserts: Table<AssertPoint, Vec<u64>>,
    pub tightenings: Table<Tightening, Option<LuaType>>,
    pub members: Table<LuaType, Option<Vec<LuaMemberInfo>>>,
}

impl LuaInferCache {
    /// Whether the question has an answer.
    pub open spec fn answered(self, q: Question) -> bool {
        match q {
            Question::Expr(id) => self.exprs.map().contains_key(id),
            Question::Instantiate(t, params) => self.instances.map().contains_key((t, params)),
            Question::AliasOrigin(id, params) => self.alias_origins.map().contains_key(
                (id, params),
            ),
            Question::Compact(a, b) => self.compacts.map().contains_key((a, b)),
            Question::FlowChain(id) => self.flow_chains.map().contains_key(id),
            Question::TypeAsserts(chain, path, position) => self.type_asserts.map().contains_key(
                (chain, path, position),
            ),
            Question::Tighten(a, t) => self.tightenings.map().contains_key((a, t)),
            Question::Members(t) => self.members.map().contains_key(t),
        }
    }

    /// Whether every answer of `other` is an answer here too.
    pub open spec fn keeps(self, other: LuaInferCache) -> bool {
        &&& other.exprs.map().submap_of(self.exprs.map())
        &&& other.instances.map().submap_of(self.instances.map())
        &&& other.alias_origins.map().submap_of(self.alias_origins.map())
        &&& other.compacts.map().submap_of(self.compacts.map())
        &&& other.flow_chains.map().submap_of(self.flow_chains.map())
        &&& other.type_asserts.map().submap_of(self.type_asserts.map())
        &&& other.tightenings.map().submap_of(self.tightenings.map())
        &&& other.members.map().submap_of(self.members.map())
    }

    /// Whether this is `other` with more answers.
    pub open spec fn extends(self, other: LuaInferCache) -> bool {
        &&& self.keeps(other)
        &&& self.file_id == other.file_id
        &&& self.config == other.config
    }

    /// The type of an expression, or why it has none.
    pub open spec fn expr(self, id: LuaSyntaxId) -> CallOut {
        if self.exprs.map().contains_key(id) {
            Step::Done(result_view(self.exprs.map()[id]))
        } else {
            Step::Ask(Question::Expr(id))
        }
    }

    /// The type of an expression, where it has one.
    pub open spec fn expr_type(self, id: LuaSyntaxId) -> InferOut {
        match self.expr(id) {
            Step::Done(Ok(t)) => Step::Done(Some(t)),
            Step::Done(Err(_)) => Step::Done(None),
            Step::Ask(q) => Step::Ask(q),
            Step::Endless => Step::Endless,
        }
    }

    /// A type with its type parameters replaced by arguments.
    pub open spec fn instance(self, t: Ty, params: Seq<Ty>) -> InferOut {
        if self.instances.map().contains_key((t, params)) {
            Step::Done(Some(self.instances.map()[(t, params)]@))
        } else {
            Step::Ask(Question::Instantiate(t, params))
        }
    }

    /// The type that a generic alias stands for.
    pub open spec fn alias_origin(self, id: Seq<char>, params: Seq<Ty>) -> InferOut {
        if self.alias_origins.map().contains_key((id, params)) {
            Step::Done(opt_view(self.alias_origins.map()[(id, params)]))
        } else {
            Step::Ask(Question::AliasOrigin(id, params))
        }
    }

    /// Whether the given type is assignable to the wanted one.
    pub open spec fn compact(self, wanted: Ty, given: Ty) -> Step<bool, Question> {
        if self.compacts.map().contains_key((wanted, given)) {
            Step::Done(self.compacts.map()[(wanted, given)])
        } else {
            Step::Ask(Question::Compact(wanted, given))
        }
    }

    /// The flow chain that an index expression lies in.
    pub open spec fn flow_chain(self, id: LuaSyntaxId) -> Step<Option<u64>, Question> {
        if self.flow_chains.map().contains_key(id) {
            Step::Done(self.flow_chains.map()[id])
        } else {
            Step::Ask(Question::FlowChain(id))
        }
    }

    /// The type assertions that hold of a path.
    pub open spec fn asserts(self, chain: u64, path: Seq<char>, position: u32) -> Step<
        Seq<u64>,
        Question,
    > {
        if self.type_asserts.map().contains_key((chain, path, position)) {
            Step::Done(self.type_asserts.map()[(chain, path, position)]@)
        } else {
            Step::Ask(Question::TypeAsserts(chain, path, position))
        }
    }

    /// What a type assertion leaves of a type.
    pub open spec fn tightening(self, assertion: u64, t: Ty) -> InferOut {
        if self.tightenings.map().contains_key((assertion, t)) {
            Step::Done(opt_view(self.tightenings.map()[(assertion, t)]))
        } else {
            Step::Ask(Question::Tighten(assertion, t))
        }
    }

    /// The members of a type, where it has a list of members.
    pub open spec fn members_of(self, t: Ty) -> Step<Option<Seq<MemberInfo>>, Question> {
        if self.members.map().contains_key(t) {
            Step::Done(
                match self.members.map()[t] {
                    Some(v) => Some(infos_view(v)),
                    None => None,
                },
            )
        } else {
            Step::Ask(Question::Members(t))
        }
    }

    /// No answers yet.
    pub fn new(file_id: FileId, config: LuaInferConfig) -> (r: Self)
        ensures
            r.file_id == file_id,
            r.config == config,
            forall|q: Question| !r.answered(q),
    {
        LuaInferCache {
            file_id,
            config,
            exprs: Table::new(),
            instances: Table::new(),
            alias_origins: Table::new(),
            compacts: Table::new(),
            flow_chains: Table::new(),
            type_asserts: Table::new(),
            tightenings: Table::new(),
            members: Table::new(),
        }
    }

    /// Looks up the type of an expression, or why it has none.
    pub fn infer_expr(&self, expr: &LuaExpr) -> (r: CallStep)
        ensures
            r@ == self.expr(expr.id()),
    {
        let id = expr.get_id();
        match self.exprs.get(&id) {
            Some(Ok(t)) => Step::Done(Ok(t.clone())),
            Some(Err(e)) => Step::Done(Err(*e)),
            None => Step::Ask(Query::Expr(id)),
        }
    }

    /// Looks up the type of an expression.
    pub fn infer_expr_type(&self, expr: &LuaExpr) -> (r: InferStep)
        ensures
            r@ == self.expr_type(expr.id()),
    {
        match self.infer_expr(expr) {
            Step::Done(Ok(t)) => Step::Done(Some(t)),
            Step::Done(Err(_)) => Step::Done(None),
            Step::Ask(q) => Step::Ask(q),
            Step::Endless => Step::Endless,
        }
    }

    /// Looks up a type with its type parameters replaced by arguments.
    pub fn instantiate(&self, ty: &LuaType, params: &Vec<LuaType>) -> (r: InferStep)
        ensures
            r@ == self.instance(ty@, types_view(*params)),
    {
        let q = AppliedType { ty: ty.clone(), params: clone_types(params) };
        match self.instances.get(&q) {
            Some(t) => Step::Done(Some(t.clone())),
            None => Step::Ask(Query::Instantiate(q)),
        }
    }

    /// Looks up the type that a generic alias stands for.
    pub fn get_alias_origin(&self, id: &LuaTypeDeclId, params: &Vec<LuaType>) -> (r: InferStep)
        ensures
            r@ == self.alias_origin(id@, types_view(*params)),
    {
        let q = AppliedDecl { id: id.clone(), params: clone_types(params) };
        match self.alias_origins.get(&q) {
            Some(t) => Step::Done(clone_opt(t)),
            None => Step::Ask(Query::AliasOrigin(q)),
        }
    }

    /// Looks up whether the given type is assignable to the wanted one.
    pub fn check_type_compact(&self, wanted: &LuaType, given: &LuaType) -> (r: Step<bool, Query>)
        ensures
            match r {
                Step::Done(b) => self.compact(wanted@, given@) == Step::<bool, Question>::Done(b),
                Step::Ask(q) => self.compact(wanted@, given@) == Step::<bool, Question>::Ask(q@),
                Step::Endless => false,
            },
    {
        let q = TypePair { wanted: wanted.clone(), given: given.clone() };
        match self.compacts.get(&q) {
            Some(b) => Step::Done(*b),
            None => Step::Ask(Query::Compact(q)),
        }
    }

    /// Looks up the flow chain that an index expression lies in.
    pub fn get_flow_chain(&self, id: LuaSyntaxId) -> (r: Step<Option<u64>, Query>)
        ensures
            match r {
                Step::Done(c) => self.flow_chain(id) == Step::<Option<u64>, Question>::Done(c),
                Step::Ask(q) => self.flow_chain(id) == Step::<Option<u64>, Question>::Ask(q@),
                Step::Endless => false,
            },
    {
        match self.flow_chains.get(&id) {
            Some(c) => Step::Done(*c),
            None => Step::Ask(Query::FlowChain(id)),
        }
    }

    /// Looks up the type assertions that hold of a path.
    pub fn get_type_asserts(&self, chain: u64, path: &SmolStr, position: u32) -> (r: Step<
        &Vec<u64>,
        Query,
    >)
        ensures
            match r {
                Step::Done(v) => self.asserts(chain, smol_chars(*path), position) == Step::<
                    Seq<u64>,
                    Question,
                >::Done(v@),
                Step::Ask(q) => self.asserts(chain, smol_chars(*path), position) == Step::<
                    Seq<u64>,
                    Question,
                >::Ask(q@),
                Step::Endless => false,
            },
    {
        let q = AssertPoint { chain, path: smol_clone(path), position };
        match self.type_asserts.get(&q) {
            Some(v) => Step::Done(v),
            None => Step::Ask(Query::TypeAsserts(q)),
        }
    }

    /// Looks up what a type assertion leaves of a type.
    pub fn tighten_type(&self, assertion: u64, ty: &LuaType) -> (r: InferStep)
        ensures
            r@ == self.tightening(assertion, ty@),
    {
        let q = Tightening { assertion, ty: ty.clone() };
        match self.tightenings.get(&q) {
            Some(t) => Step::Done(clone_opt(t)),
            None => Step::Ask(Query::Tighten(q)),
        }
    }

    /// Looks up the members of a type.
    pub fn infer_members(&self, ty: &LuaType) -> (r: Step<Option<&Vec<LuaMemberInfo>>, Query>)
        ensures
            match r {
                Step::Done(None) => self.members_of(ty@) == Step::<
                    Option<Seq<MemberInfo>>,
                    Question,
                >::Done(None),
                Step::Done(Some(v)) => self.members_of(ty@) == Step::<
                    Option<Seq<MemberInfo>>,
                    Question,
                >::Done(Some(infos_view(*v))),
                Step::Ask(q) => self.members_of(ty@) == Step::<
                    Option<Seq<MemberInfo>>,
                    Question,
                >::Ask(q@),
                Step::Endless => false,
            },
    {
        match self.members.get(ty) {
            Some(Some(v)) => Step::Done(Some(v)),
            Some(None) => Step::Done(None),
            None => Step::Ask(Query::Members(ty.clone())),
        }
    }
}

/// The type declarations that an inference has visited. Each is visited once,
/// so that declarations that refer to one another come to an end.
#[derive(Debug)]
pub struct InferGuard {
    visited: Vec<LuaTypeDeclId>,
}

impl View for InferGuard {
    type V = Set<Seq<char>>;

    closed spec fn view(&self) -> Set<Seq<char>> {
        Set::new(|id: Seq<char>| exists|i: int| self.holds(i, id))
    }
}

impl Clone for InferGuard {
    fn clone(&self) -> (r: Self)
        ensures
            r@ == self@,
    {
        let mut visited: Vec<LuaTypeDeclId> = Vec::new();
        let mut i: usize = 0;
        while i < self.visited.len()
            invariant
                i <= self.visited@.len(),
                visited@.len() == i,
                forall|j: int| 0 <= j < i ==> (#[trigger] visited@[j])@ == self.visited@[j]@,
            decreases self.visited@.len() - i,
        {
            visited.push(self.visited[i].clone());
            i += 1;
        }
        let r = InferGuard { visited };
        assert(forall|j: int, id: Seq<char>| r.holds(j, id) == self.holds(j, id));
        assert(r@ =~= self@);
        r
    }
}

impl InferGuard {
    spec fn holds(&self, i: int, id: Seq<char>) -> bool {
        0 <= i < self.visited@.len() && self.visited@[i]@ == id
    }

    /// Nothing visited yet.
    pub fn new() -> (r: Self)
        ensures
            r@ == Set::<Seq<char>>::empty(),
    {
        let r = InferGuard { visited: Vec::new() };
        assert(r@ =~= Set::<Seq<char>>::empty());
        r
    }

    /// Visits a declaration; `None` where it has been visited before.
    pub fn check(&mut self, id: &LuaTypeDeclId) -> (r: Option<()>)
        ensures
            r is Some <==> !old(self)@.contains(id@),
            final(self)@ == old(self)@.insert(id@),
    {
        let mut i: usize = 0;
        while i < self.visited.len()
            invariant
                i <= self.visited@.len(),
                *self == *old(self),
                forall|j: int| 0 <= j < i ==> (#[trigger] self.visited@[j])@ != id@,
            decreases self.visited@.len() - i,
        {
            if self.visited[i].same(id) {
                assert(self.holds(i as int, id@));
                assert(self@ =~= self@.insert(id@));
                return None;
            }
            i += 1;
        }
        assert(forall|j: int| !old(self).holds(j, id@));
        self.visited.push(id.clone());
        proof {
            assert(self.holds(i as int, id@));
            assert forall|k: Seq<char>| self@.contains(k) == old(self)@.insert(id@).contains(
                k,
            ) by {
                if k != id@ {
                    if self@.contains(k) {
                        let j = choose|j: int| self.holds(j, k);
                        assert(old(self).holds(j, k));
                    }
                    if old(self)@.contains(k) {
                        let j = choose|j: int| old(self).holds(j, k);
                        assert(self.holds(j, k));
                    }
                }
            }
            assert(self@ =~= old(self)@.insert(id@));
        }
        Some(())
    }
}

} // verus!
