//! The parts of a query: rules, their bodies, and what is done with the rows.
use vstd::prelude::*;

use crate::expr::{Expr, ExprV};
use crate::list::{Dup, List, dup_opt, opt_of};
use crate::schema::{Column, ColumnV};
use crate::value::{DataValue, Value};

verus! {

/// An aggregation in the head of a rule.
pub struct Aggr {
    pub name: String,
    pub args: List<DataValue>,
}

/// The mathematical counterpart of [`Aggr`].
#[verifier::ext_equal]
pub struct AggrV {
    pub name: Seq<char>,
    pub args: Seq<Value>,
}

impl View for Aggr {
    type V = AggrV;

    open spec fn view(&self) -> AggrV {
        AggrV {
            name: self.name@,
            args: self.args@,
        }
    }
}

impl Dup for Aggr {
    fn dup(&self) -> (r: Self) {
        Aggr {
            name: self.name.clone(),
            args: self.args.dup(),
        }
    }
}

/// A column of the head of a rule.
pub struct HeadItem {
    pub var: String,
    pub aggr: Option<Aggr>,
}

/// The mathematical counterpart of [`HeadItem`].
#[verifier::ext_equal]
pub struct HeadItemV {
    pub var: Seq<char>,
    pub aggr: Option<AggrV>,
}

impl View for HeadItem {
    type V = HeadItemV;

    open spec fn view(&self) -> HeadItemV {
        HeadItemV {
            var: self.var@,
            aggr: opt_of(self.aggr),
        }
    }
}

impl Dup for HeadItem {
    fn dup(&self) -> (r: Self) {
        HeadItem {
            var: self.var.clone(),
            aggr: dup_opt(&self.aggr),
        }
    }
}

/// A name and the term that stands for it.
pub struct Field {
    pub name: String,
    pub term: Expr,
}

/// The mathematical counterpart of [`Field`].
#[verifier::ext_equal]
pub struct FieldV {
    pub name: Seq<char>,
    pub term: ExprV,
}

impl View for Field {
    type V = FieldV;

    open spec fn view(&self) -> FieldV {
        FieldV {
            name: self.name@,
            term: self.term@,
        }
    }
}

impl Dup for Field {
    fn dup(&self) -> (r: Self) {
        Field {
            name: self.name.clone(),
            term: self.term.dup(),
        }
    }
}

/// The columns that an atom speaks of.
pub enum Fields {
    /// One term for each column, in their order.
    Places(List<Expr>),
    /// Terms for some of the columns, by name.
    Names(List<Field>),
}

/// The mathematical counterpart of [`Fields`].
pub enum FieldsV {
    Places(Seq<ExprV>),
    Names(Seq<FieldV>),
}

impl View for Fields {
    type V = FieldsV;

    open spec fn view(&self) -> FieldsV {
        match *self {
            Fields::Places(a) => FieldsV::Places(a@),
            Fields::Names(a) => FieldsV::Names(a@),
        }
    }
}

impl Dup for Fields {
    fn dup(&self) -> (r: Self) {
        match self {
            Fields::Places(a) => Fields::Places(a.dup()),
            Fields::Names(a) => Fields::Names(a.dup()),
        }
    }
}

/// The points in time at which a relation is read.
pub struct Selector {
    pub vt: Option<Expr>,
    pub tt: Option<Expr>,
}

/// The mathematical counterpart of [`Selector`].
#[verifier::ext_equal]
pub struct SelectorV {
    pub vt: Option<ExprV>,
    pub tt: Option<ExprV>,
}

impl View for Selector {
    type V = SelectorV;

    open spec fn view(&self) -> SelectorV {
        SelectorV {
            vt: opt_of(self.vt),
            tt: opt_of(self.tt),
        }
    }
}

impl Dup for Selector {
    fn dup(&self) -> (r: Self) {
        Selector {
            vt: dup_opt(&self.vt),
            tt: dup_opt(&self.tt),
        }
    }
}

/// A condition in the body of a rule.
pub enum Atom {
    /// Rows of a rule; negated where the flag is set.
    Rule(String, List<Expr>, bool),
    /// Rows of a stored relation; negated where the flag is set.
    Stored(String, Fields, Selector, bool),
    /// Rows found through a search index: the relation, the index, the
    /// columns, and the options.
    Search(String, String, List<Field>, List<Field>),
    /// The variable has the value of the expression.
    Unify(String, Expr),
    /// The variable has one of the values of a list.
    Member(String, Expr),
    /// The expression is true.
    Filter(Expr),
}

/// The mathematical counterpart of [`Atom`].
pub enum AtomV {
    Rule(Seq<char>, Seq<ExprV>, bool),
    Stored(Seq<char>, FieldsV, SelectorV, bool),
    Search(Seq<char>, Seq<char>, Seq<FieldV>, Seq<FieldV>),
    Unify(Seq<char>, ExprV),
    Member(Seq<char>, ExprV),
    Filter(ExprV),
}

impl View for Atom {
    type V = AtomV;

    open spec fn view(&self) -> AtomV {
        match *self {
            Atom::Rule(a, b, c) => AtomV::Rule(a@, b@, c),
            Atom::Stored(a, b, c, d) => AtomV::Stored(a@, b@, c@, d),
            Atom::Search(a, b, c, d) => AtomV::Search(a@, b@, c@, d@),
            Atom::Unify(a, b) => AtomV::Unify(a@, b@),
            Atom::Member(a, b) => AtomV::Member(a@, b@),
            Atom::Filter(a) => AtomV::Filter(a@),
        }
    }
}

impl Dup for Atom {
    fn dup(&self) -> (r: Self) {
        match self {
            Atom::Rule(a, b, c) => Atom::Rule(a.clone(), b.dup(), *c),
            Atom::Stored(a, b, c, d) => Atom::Stored(a.clone(), b.dup(), c.dup(), *d),
            Atom::Search(a, b, c, d) => Atom::Search(a.clone(), b.clone(), c.dup(), d.dup()),
            Atom::Unify(a, b) => Atom::Unify(a.clone(), b.dup()),
            Atom::Member(a, b) => Atom::Member(a.clone(), b.dup()),
            Atom::Filter(a) => Atom::Filter(a.dup()),
        }
    }
}

/// What the rows of a rule are.
pub enum Body {
    /// The rows that meet every condition of some clause.
    Clauses(List<List<Atom>>),
    /// The rows of a list.
    Rows(Expr),
    /// The rows that a fixed rule makes of its inputs and options.
    Fixed(String, List<Atom>, List<Field>),
}

/// The mathematical counterpart of [`Body`].
pub enum BodyV {
    Clauses(Seq<Seq<AtomV>>),
    Rows(ExprV),
    Fixed(Seq<char>, Seq<AtomV>, Seq<FieldV>),
}

impl View for Body {
    type V = BodyV;

    open spec fn view(&self) -> BodyV {
        match *self {
            Body::Clauses(a) => BodyV::Clauses(a@),
            Body::Rows(a) => BodyV::Rows(a@),
            Body::Fixed(a, b, c) => BodyV::Fixed(a@, b@, c@),
        }
    }
}

impl Dup for Body {
    fn dup(&self) -> (r: Self) {
        match self {
            Body::Clauses(a) => Body::Clauses(a.dup()),
            Body::Rows(a) => Body::Rows(a.dup()),
            Body::Fixed(a, b, c) => Body::Fixed(a.clone(), b.dup(), c.dup()),
        }
    }
}

/// A rule.
pub struct Rule {
    pub name: String,
    pub head: List<HeadItem>,
    pub body: Body,
}

/// The mathematical counterpart of [`Rule`].
#[verifier::ext_equal]
pub struct RuleV {
    pub name: Seq<char>,
    pub head: Seq<HeadItemV>,
    pub body: BodyV,
}

impl View for Rule {
    type V = RuleV;

    open spec fn view(&self) -> RuleV {
        RuleV {
            name: self.name@,
            head: self.head@,
            body: self.body@,
        }
    }
}

impl Dup for Rule {
    fn dup(&self) -> (r: Self) {
        Rule {
            name: self.name.clone(),
            head: self.head.dup(),
            body: self.body.dup(),
        }
    }
}

/// What a query does with its rows.
#[derive(Clone, Copy, Debug, PartialEq, Eq, Structural)]
pub enum WriteKind {
    Create,
    Replace,
    Put,
    Insert,
    Update,
    Rm,
    Delete,
    Ensure,
    EnsureNot,
    Reconcile,
}

/// A relation that a query writes to, with the columns it names.
pub struct Write {
    pub kind: WriteKind,
    pub rel: String,
    pub keys: List<Column>,
    pub vals: List<Column>,
}

/// The mathematical counterpart of [`Write`].
#[verifier::ext_equal]
pub struct WriteV {
    pub kind: WriteKind,
    pub rel: Seq<char>,
    pub keys: Seq<ColumnV>,
    pub vals: Seq<ColumnV>,
}

impl View for Write {
    type V = WriteV;

    open spec fn view(&self) -> WriteV {
        WriteV {
            kind: self.kind,
            rel: self.rel@,
            keys: self.keys@,
            vals: self.vals@,
        }
    }
}

impl Dup for Write {
    fn dup(&self) -> (r: Self) {
        Write {
            kind: self.kind,
            rel: self.rel.clone(),
            keys: self.keys.dup(),
            vals: self.vals.dup(),
        }
    }
}

/// A column by which rows are sorted.
pub struct SortKey {
    pub var: String,
    pub down: bool,
}

/// The mathematical counterpart of [`SortKey`].
#[verifier::ext_equal]
pub struct SortKeyV {
    pub var: Seq<char>,
    pub down: bool,
}

impl View for SortKey {
    type V = SortKeyV;

    open spec fn view(&self) -> SortKeyV {
        SortKeyV {
            var: self.var@,
            down: self.down,
        }
    }
}

impl Dup for SortKey {
    fn dup(&self) -> (r: Self) {
        SortKey {
            var: self.var.clone(),
            down: self.down,
        }
    }
}

/// A query.
pub struct Program {
    pub rules: List<Rule>,
    pub limit: Option<u64>,
    pub offset: u64,
    pub sort: List<SortKey>,
    pub as_of: Option<Expr>,
    pub returning: bool,
    pub write: Option<Write>,
}

/// The mathematical counterpart of [`Program`].
#[verifier::ext_equal]
pub struct ProgramV {
    pub rules: Seq<RuleV>,
    pub limit: Option<u64>,
    pub offset: u64,
    pub sort: Seq<SortKeyV>,
    pub as_of: Option<ExprV>,
    pub returning: bool,
    pub write: Option<WriteV>,
}

impl View for Program {
    type V = ProgramV;

    open spec fn view(&self) -> ProgramV {
        ProgramV {
            rules: self.rules@,
            limit: self.limit,
            offset: self.offset,
            sort: self.sort@,
            as_of: opt_of(self.as_of),
            returning: self.returning,
            write: opt_of(self.write),
        }
    }
}

impl Dup for Program {
    fn dup(&self) -> (r: Self) {
        Program {
            rules: self.rules.dup(),
            limit: self.limit,
            offset: self.offset,
            sort: self.sort.dup(),
            as_of: dup_opt(&self.as_of),
            returning: self.returning,
            write: dup_opt(&self.write),
        }
    }
}

} // verus!
