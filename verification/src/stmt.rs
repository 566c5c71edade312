//! The statements of a script.
use vstd::prelude::*;

use crate::expr::{Expr, ExprV};
use crate::list::{Dup, List, dup_opt, opt_of};
use crate::query::{Field, FieldV, Program, ProgramV};
use crate::store::{Access, Lookup, Trigger, TriggerV};
use crate::value::{DataValue, Value};

verus! {

/// A named value that a script refers to.
pub struct Param {
    pub name: String,
    pub value: DataValue,
}

/// The mathematical counterpart of [`Param`].
#[verifier::ext_equal]
pub struct ParamV {
    pub name: Seq<char>,
    pub value: Value,
}

impl View for Param {
    type V = ParamV;

    open spec fn view(&self) -> ParamV {
        ParamV {
            name: self.name@,
            value: self.value@,
        }
    }
}

impl Dup for Param {
    fn dup(&self) -> (r: Self) {
        Param {
            name: self.name.clone(),
            value: self.value.dup(),
        }
    }
}

/// An operation on the store itself.
pub enum SysOp {
    /// Sets what may be done with relations.
    SetAccess(Access, List<String>),
    /// Makes an index of a relation over columns.
    IndexCreate(String, String, List<String>),
    IndexDrop(String, String),
    /// Lists the relations and indices.
    Relations,
    /// Lists the columns of a relation or index.
    Columns(String),
    SetTriggers(String, List<Trigger>),
    /// Removes relations.
    Remove(List<String>),
    /// Lists what was recorded of facts: a limit and an offset.
    History(String, Expr, Option<u64>, u64),
    /// Drops what was superseded before a transaction.
    HistoryGc(String, Expr),
    /// Drops everything recorded of facts; the flag tells whether the log
    /// names them.
    Evict(String, Expr, bool),
    /// Drops the records that cannot be read.
    Repair(String),
    /// Makes a search index with options.
    SearchCreate(String, String, Lookup, List<Field>),
    SearchDrop(String, String, Lookup),
    /// Lists the indices of a relation.
    Indices(String),
    /// Lists the steps in which a query is evaluated.
    Explain(Program),
}

/// The mathematical counterpart of [`SysOp`].
pub enum SysOpV {
    SetAccess(Access, Seq<Seq<char>>),
    IndexCreate(Seq<char>, Seq<char>, Seq<Seq<char>>),
    IndexDrop(Seq<char>, Seq<char>),
    Relations,
    Columns(Seq<char>),
    SetTriggers(Seq<char>, Seq<TriggerV>),
    Remove(Seq<Seq<char>>),
    History(Seq<char>, ExprV, Option<u64>, u64),
    HistoryGc(Seq<char>, ExprV),
    Evict(Seq<char>, ExprV, bool),
    Repair(Seq<char>),
    SearchCreate(Seq<char>, Seq<char>, Lookup, Seq<FieldV>),
    SearchDrop(Seq<char>, Seq<char>, Lookup),
    Indices(Seq<char>),
    Explain(ProgramV),
}

impl View for SysOp {
    type V = SysOpV;

    open spec fn view(&self) -> SysOpV {
        match *self {
            SysOp::SetAccess(a, b) => SysOpV::SetAccess(a, b@),
            SysOp::IndexCreate(a, b, c) => SysOpV::IndexCreate(a@, b@, c@),
            SysOp::IndexDrop(a, b) => SysOpV::IndexDrop(a@, b@),
            SysOp::Relations => SysOpV::Relations,
            SysOp::Columns(a) => SysOpV::Columns(a@),
            SysOp::SetTriggers(a, b) => SysOpV::SetTriggers(a@, b@),
            SysOp::Remove(a) => SysOpV::Remove(a@),
            SysOp::History(a, b, c, d) => SysOpV::History(a@, b@, c, d),
            SysOp::HistoryGc(a, b) => SysOpV::HistoryGc(a@, b@),
            SysOp::Evict(a, b, c) => SysOpV::Evict(a@, b@, c),
            SysOp::Repair(a) => SysOpV::Repair(a@),
            SysOp::SearchCreate(a, b, c, d) => SysOpV::SearchCreate(a@, b@, c, d@),
            SysOp::SearchDrop(a, b, c) => SysOpV::SearchDrop(a@, b@, c),
            SysOp::Indices(a) => SysOpV::Indices(a@),
            SysOp::Explain(a) => SysOpV::Explain(a@),
        }
    }
}

impl Dup for SysOp {
    fn dup(&self) -> (r: Self) {
        match self {
            SysOp::SetAccess(a, b) => SysOp::SetAccess(*a, b.dup()),
            SysOp::IndexCreate(a, b, c) => SysOp::IndexCreate(a.clone(), b.clone(), c.dup()),
            SysOp::IndexDrop(a, b) => SysOp::IndexDrop(a.clone(), b.clone()),
            SysOp::Relations => SysOp::Relations,
            SysOp::Columns(a) => SysOp::Columns(a.clone()),
            SysOp::SetTriggers(a, b) => SysOp::SetTriggers(a.clone(), b.dup()),
            SysOp::Remove(a) => SysOp::Remove(a.dup()),
            SysOp::History(a, b, c, d) => SysOp::History(a.clone(), b.dup(), *c, *d),
            SysOp::HistoryGc(a, b) => SysOp::HistoryGc(a.clone(), b.dup()),
            SysOp::Evict(a, b, c) => SysOp::Evict(a.clone(), b.dup(), *c),
            SysOp::Repair(a) => SysOp::Repair(a.clone()),
            SysOp::SearchCreate(a, b, c, d) => SysOp::SearchCreate(a.clone(), b.clone(), *c, d.dup()),
            SysOp::SearchDrop(a, b, c) => SysOp::SearchDrop(a.clone(), b.clone(), *c),
            SysOp::Indices(a) => SysOp::Indices(a.clone()),
            SysOp::Explain(a) => SysOp::Explain(a.dup()),
        }
    }
}

/// A statement. Loops and conditions are marked where they begin and end.
pub enum Stmt {
    /// A query: the relation that keeps its rows, and whether its failure is
    /// ignored.
    Query(Program, Option<String>, bool),
    Sys(SysOp, Option<String>, bool),
    /// Ends the script without rows.
    Return,
    /// Ends the script with the rows of a relation.
    ReturnRel(String),
    /// Ends the script with the rows of a query.
    ReturnQuery(Program),
    Loop,
    /// Goes on where a relation has rows that say so; the flag turns it round.
    IfRel(String, bool),
    /// Goes on where a query has rows that say so; the flag turns it round.
    IfQuery(Program, bool),
    Else,
    End,
    Break,
    Continue,
}

/// The mathematical counterpart of [`Stmt`].
pub enum StmtV {
    Query(ProgramV, Option<Seq<char>>, bool),
    Sys(SysOpV, Option<Seq<char>>, bool),
    Return,
    ReturnRel(Seq<char>),
    ReturnQuery(ProgramV),
    Loop,
    IfRel(Seq<char>, bool),
    IfQuery(ProgramV, bool),
    Else,
    End,
    Break,
    Continue,
}

impl View for Stmt {
    type V = StmtV;

    open spec fn view(&self) -> StmtV {
        match *self {
            Stmt::Query(a, b, c) => StmtV::Query(a@, opt_of(b), c),
            Stmt::Sys(a, b, c) => StmtV::Sys(a@, opt_of(b), c),
            Stmt::Return => StmtV::Return,
            Stmt::ReturnRel(a) => StmtV::ReturnRel(a@),
            Stmt::ReturnQuery(a) => StmtV::ReturnQuery(a@),
            Stmt::Loop => StmtV::Loop,
            Stmt::IfRel(a, b) => StmtV::IfRel(a@, b),
            Stmt::IfQuery(a, b) => StmtV::IfQuery(a@, b),
            Stmt::Else => StmtV::Else,
            Stmt::End => StmtV::End,
            Stmt::Break => StmtV::Break,
            Stmt::Continue => StmtV::Continue,
        }
    }
}

impl Dup for Stmt {
    fn dup(&self) -> (r: Self) {
        match self {
            Stmt::Query(a, b, c) => Stmt::Query(a.dup(), dup_opt(b), *c),
            Stmt::Sys(a, b, c) => Stmt::Sys(a.dup(), dup_opt(b), *c),
            Stmt::Return => Stmt::Return,
            Stmt::ReturnRel(a) => Stmt::ReturnRel(a.clone()),
            Stmt::ReturnQuery(a) => Stmt::ReturnQuery(a.dup()),
            Stmt::Loop => Stmt::Loop,
            Stmt::IfRel(a, b) => Stmt::IfRel(a.clone(), *b),
            Stmt::IfQuery(a, b) => Stmt::IfQuery(a.dup(), *b),
            Stmt::Else => Stmt::Else,
            Stmt::End => Stmt::End,
            Stmt::Break => Stmt::Break,
            Stmt::Continue => Stmt::Continue,
        }
    }
}

} // verus!
