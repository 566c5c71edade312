//! The errors of the database.
use vstd::prelude::*;

use crate::list::{Dup, opt_of};

verus! {

/// What went wrong.
#[derive(Clone, Copy, Debug, PartialEq, Eq, Structural)]
pub enum ErrKind {
    Lex,
    Parse,
    DuplicateAxis,
    MissingParam,
    UnknownFunction,
    TypeMismatch,
    Overflow,
    DivisionByZero,
    UnboundVariable,
    NotBoolean,
    NotList,
    UnknownRule,
    ArityMismatch,
    Unstratifiable,
    NoEntry,
    Diverged,
    NonIdempotentMeet,
    UnknownAggregate,
    AggregateArgs,
    BoundedArgs,
    BoundedLimit,
    BoundedPlace,
    BoundedPack,
    AggregateType,
    AggregateMixed,
    AggregateReserved,
    AggregateRegistered,
    RelationNotFound,
    RelationExists,
    AccessLevel,
    ColumnNotFound,
    ColumnMissing,
    DuplicateColumn,
    Coercion,
    AxisValueColumn,
    AxisLast,
    AxisTwoTt,
    AxisTwoVt,
    AxisNullable,
    AxisGap,
    TempTxTime,
    EngineAssigned,
    AssertsAndRetracts,
    WrittenSameTx,
    ReplaceHistory,
    TtUnsupported,
    DoesNotExist,
    BelievedDeleted,
    PendingWrites,
    NoValidAxis,
    NoTtAxis,
    AsOfUnused,
    KeyExists,
    AlreadyWritten,
    EnsureMismatch,
    EnsureAmbiguous,
    EnsureCurrent,
    DuplicateKey,
    RecordedBeliefs,
    NoBelief,
    RequiresTt,
    HeaderCollides,
    BelowFloor,
    FutureCutoff,
    ReadOnly,
    ReservedName,
    ConflictingRows,
    ReconcileOnly,
    DeclareBeliefs,
    CorruptBlob,
    IndexNotFound,
    IndexExists,
    BadKey,
    UnknownFixedRule,
    FixedRuleArgs,
    FixedRuleExists,
    StepBudget,
    StrayJump,
    IdsExhausted,
    ClockExhausted,
    NotTemporary,
    Conflict,
    UnknownEngine,
    DeleteImport,
    ImportTt,
}

/// An error: its kind, and the name it is about (empty where there is none).
#[derive(Debug, PartialEq, Eq)]
pub struct DbError {
    pub kind: ErrKind,
    pub subject: String,
}

/// The mathematical counterpart of [`DbError`].
pub struct Fault {
    pub kind: ErrKind,
    pub subject: Seq<char>,
}

impl View for DbError {
    type V = Fault;

    open spec fn view(&self) -> Fault {
        Fault { kind: self.kind, subject: self.subject@ }
    }
}

impl Dup for DbError {
    fn dup(&self) -> (r: Self) {
        DbError { kind: self.kind, subject: self.subject.clone() }
    }
}

/// An error about nothing in particular.
pub open spec fn fault(kind: ErrKind) -> Fault {
    Fault { kind, subject: Seq::empty() }
}

/// An error about a name.
pub open spec fn fault_on(kind: ErrKind, subject: Seq<char>) -> Fault {
    Fault { kind, subject }
}

pub fn err(kind: ErrKind) -> (r: DbError)
    ensures
        r@ == fault(kind),
{
    DbError { kind, subject: String::new() }
}

pub fn err_on(kind: ErrKind, subject: &str) -> (r: DbError)
    ensures
        r@ == fault_on(kind, subject@),
{
    DbError { kind, subject: subject.to_owned() }
}

/// What a fallible function returns, in terms of views.
pub open spec fn outcome<T: View>(r: Result<T, DbError>) -> Result<T::V, Fault> {
    match r {
        Ok(x) => Ok(x@),
        Err(e) => Err(e@),
    }
}

/// What a fallible function returns of a possible value, in terms of views.
pub open spec fn outcome_opt<T: View>(r: Result<Option<T>, DbError>) -> Result<
    Option<T::V>,
    Fault,
> {
    match r {
        Ok(o) => Ok(opt_of(o)),
        Err(e) => Err(e@),
    }
}

/// The sentence that describes a kind of error.
pub open spec fn message_of(kind: ErrKind) -> Seq<char> {
    match kind {
        ErrKind::Lex => "the query parser has encountered a malformed token"@,
        ErrKind::Parse => "the query parser has encountered unexpected input"@,
        ErrKind::DuplicateAxis => "duplicate temporal axis label in a selector"@,
        ErrKind::MissingParam => "a required query parameter is missing"@,
        ErrKind::UnknownFunction => "no function has this name"@,
        ErrKind::TypeMismatch => "evaluation failed: wrong operand types"@,
        ErrKind::Overflow => "evaluation failed: a number is out of range"@,
        ErrKind::DivisionByZero => "evaluation failed: division by zero"@,
        ErrKind::UnboundVariable => "a variable is unbound"@,
        ErrKind::NotBoolean => "a condition did not evaluate to a boolean"@,
        ErrKind::NotList => "a list was expected"@,
        ErrKind::UnknownRule => "no rule has this name"@,
        ErrKind::ArityMismatch => "the number of columns does not match"@,
        ErrKind::Unstratifiable => "the query is unstratifiable: negation or aggregation occurs inside a recursion"@,
        ErrKind::NoEntry => "the query has no entry rule"@,
        ErrKind::Diverged => "a recursive rule did not converge"@,
        ErrKind::NonIdempotentMeet => "non-idempotent meet aggregate"@,
        ErrKind::UnknownAggregate => "aggregate not found"@,
        ErrKind::AggregateArgs => "this aggregate takes no arguments"@,
        ErrKind::BoundedArgs => "a bounded-meet aggregate takes exactly one argument"@,
        ErrKind::BoundedLimit => "the limit of a bounded-meet aggregate must be a positive integer"@,
        ErrKind::BoundedPlace => "a bounded-meet aggregate must stand alone in the last place of its head"@,
        ErrKind::BoundedPack => "cannot compute 'min_cost_k': a pack is a list of a payload and a numeric cost"@,
        ErrKind::AggregateType => "cannot compute an aggregate on a value of this type"@,
        ErrKind::AggregateMixed => "rules of one name must agree in their heads"@,
        ErrKind::AggregateReserved => "this aggregate name is reserved"@,
        ErrKind::AggregateRegistered => "this aggregate is already registered"@,
        ErrKind::RelationNotFound => "no relation has this name"@,
        ErrKind::RelationExists => "a relation of this name already exists"@,
        ErrKind::AccessLevel => "Insufficient access level"@,
        ErrKind::ColumnNotFound => "the relation has no such column"@,
        ErrKind::ColumnMissing => "a required column is not provided"@,
        ErrKind::DuplicateColumn => "a column name occurs twice"@,
        ErrKind::Coercion => "a value cannot be coerced to the column type"@,
        ErrKind::AxisValueColumn => "invalid temporal-axis declaration: TxTime must be a key column, not a value column; write :create r {k, tt: TxTime => v}"@,
        ErrKind::AxisLast => "invalid temporal-axis declaration: TxTime must be the last key column; write :create r {k, tt: TxTime => v}"@,
        ErrKind::AxisTwoTt => "invalid temporal-axis declaration: a relation has at most one TxTime column; write :create r {k, tt: TxTime => v}"@,
        ErrKind::AxisTwoVt => "invalid temporal-axis declaration: a relation has at most one Validity column; write :create r {k, v: Validity, tt: TxTime => x}"@,
        ErrKind::AxisNullable => "invalid temporal-axis declaration: a temporal column cannot be nullable; write :create r {k, v: Validity, tt: TxTime => x}"@,
        ErrKind::AxisGap => "invalid temporal-axis declaration: Validity must immediately precede TxTime; write :create r {k, v: Validity, tt: TxTime => x}"@,
        ErrKind::TempTxTime => "a transaction-temp relation cannot have a TxTime column"@,
        ErrKind::EngineAssigned => "the TxTime column is engine-assigned and cannot be supplied"@,
        ErrKind::AssertsAndRetracts => "one transaction asserts AND retracts the same fact"@,
        ErrKind::WrittenSameTx => "the key was written in the same transaction"@,
        ErrKind::ReplaceHistory => ":replace would erase the history of a TxTime relation"@,
        ErrKind::TtUnsupported => "not supported on a TxTime relation"@,
        ErrKind::DoesNotExist => "the row does not exist"@,
        ErrKind::BelievedDeleted => "the key is believed-deleted"@,
        ErrKind::PendingWrites => "the relation has pending transaction-time writes"@,
        ErrKind::NoValidAxis => "the relation has no valid-time axis"@,
        ErrKind::NoTtAxis => "the relation has no transaction-time axis"@,
        ErrKind::AsOfUnused => "the query reads no transaction-time-stamped relation"@,
        ErrKind::KeyExists => "the key exists"@,
        ErrKind::AlreadyWritten => "the key was already written in this transaction"@,
        ErrKind::EnsureMismatch => "the asserted row is a mismatch with the stored one"@,
        ErrKind::EnsureAmbiguous => "the assertion is ambiguous: the key was rewritten in this transaction"@,
        ErrKind::EnsureCurrent => "the assertion is about the CURRENT belief and takes no valid time"@,
        ErrKind::DuplicateKey => "duplicate key in one statement"@,
        ErrKind::RecordedBeliefs => "the key has recorded beliefs"@,
        ErrKind::NoBelief => "there is no belief at this valid time"@,
        ErrKind::RequiresTt => "this operation requires a TxTime relation"@,
        ErrKind::HeaderCollides => "a history header collides with a column of the relation"@,
        ErrKind::BelowFloor => "the read lies below the gc floor of the relation"@,
        ErrKind::FutureCutoff => "the cutoff lies in the future"@,
        ErrKind::ReadOnly => "a read-only transaction cannot write"@,
        ErrKind::ReservedName => "this relation name is reserved"@,
        ErrKind::ConflictingRows => "one :reconcile declares conflicting rows"@,
        ErrKind::ReconcileOnly => ":reconcile must be the only write to its relation in a transaction"@,
        ErrKind::DeclareBeliefs => "rows of a :reconcile declare beliefs and cannot retract"@,
        ErrKind::CorruptBlob => "eval::corrupt_value_blob"@,
        ErrKind::IndexNotFound => "no index has this name"@,
        ErrKind::IndexExists => "an index of this name already exists"@,
        ErrKind::BadKey => "a list of keys was expected"@,
        ErrKind::UnknownFixedRule => "no fixed rule has this name"@,
        ErrKind::FixedRuleArgs => "the arguments of a fixed rule are malformed"@,
        ErrKind::FixedRuleExists => "a fixed rule of this name already exists"@,
        ErrKind::StepBudget => "the script exceeded its step budget"@,
        ErrKind::StrayJump => "a jump stands outside any loop"@,
        ErrKind::IdsExhausted => "relation identifiers are exhausted"@,
        ErrKind::ClockExhausted => "the transaction clock is exhausted"@,
        ErrKind::NotTemporary => "rows can be kept only in a relation whose name begins with an underscore"@,
        ErrKind::Conflict => "the store has changed since the transaction began"@,
        ErrKind::UnknownEngine => "no storage engine has this name"@,
        ErrKind::DeleteImport => "rows of a TxTime relation cannot be deleted by an import: use :rm"@,
        ErrKind::ImportTt => "a TxTime relation cannot be imported from a backup: use restore_backup"@,
    }
}

/// The sentence that describes a kind of error.
pub fn message(kind: ErrKind) -> (r: &'static str)
    ensures
        r@ == message_of(kind),
{
    match kind {
        ErrKind::Lex => "the query parser has encountered a malformed token",
        ErrKind::Parse => "the query parser has encountered unexpected input",
        ErrKind::DuplicateAxis => "duplicate temporal axis label in a selector",
        ErrKind::MissingParam => "a required query parameter is missing",
        ErrKind::UnknownFunction => "no function has this name",
        ErrKind::TypeMismatch => "evaluation failed: wrong operand types",
        ErrKind::Overflow => "evaluation failed: a number is out of range",
        ErrKind::DivisionByZero => "evaluation failed: division by zero",
        ErrKind::UnboundVariable => "a variable is unbound",
        ErrKind::NotBoolean => "a condition did not evaluate to a boolean",
        ErrKind::NotList => "a list was expected",
        ErrKind::UnknownRule => "no rule has this name",
        ErrKind::ArityMismatch => "the number of columns does not match",
        ErrKind::Unstratifiable => "the query is unstratifiable: negation or aggregation occurs inside a recursion",
        ErrKind::NoEntry => "the query has no entry rule",
        ErrKind::Diverged => "a recursive rule did not converge",
        ErrKind::NonIdempotentMeet => "non-idempotent meet aggregate",
        ErrKind::UnknownAggregate => "aggregate not found",
        ErrKind::AggregateArgs => "this aggregate takes no arguments",
        ErrKind::BoundedArgs => "a bounded-meet aggregate takes exactly one argument",
        ErrKind::BoundedLimit => "the limit of a bounded-meet aggregate must be a positive integer",
        ErrKind::BoundedPlace => "a bounded-meet aggregate must stand alone in the last place of its head",
        ErrKind::BoundedPack => "cannot compute 'min_cost_k': a pack is a list of a payload and a numeric cost",
        ErrKind::AggregateType => "cannot compute an aggregate on a value of this type",
        ErrKind::AggregateMixed => "rules of one name must agree in their heads",
        ErrKind::AggregateReserved => "this aggregate name is reserved",
        ErrKind::AggregateRegistered => "this aggregate is already registered",
        ErrKind::RelationNotFound => "no relation has this name",
        ErrKind::RelationExists => "a relation of this name already exists",
        ErrKind::AccessLevel => "Insufficient access level",
        ErrKind::ColumnNotFound => "the relation has no such column",
        ErrKind::ColumnMissing => "a required column is not provided",
        ErrKind::DuplicateColumn => "a column name occurs twice",
        ErrKind::Coercion => "a value cannot be coerced to the column type",
        ErrKind::AxisValueColumn => "invalid temporal-axis declaration: TxTime must be a key column, not a value column; write :create r {k, tt: TxTime => v}",
        ErrKind::AxisLast => "invalid temporal-axis declaration: TxTime must be the last key column; write :create r {k, tt: TxTime => v}",
        ErrKind::AxisTwoTt => "invalid temporal-axis declaration: a relation has at most one TxTime column; write :create r {k, tt: TxTime => v}",
        ErrKind::AxisTwoVt => "invalid temporal-axis declaration: a relation has at most one Validity column; write :create r {k, v: Validity, tt: TxTime => x}",
        ErrKind::AxisNullable => "invalid temporal-axis declaration: a temporal column cannot be nullable; write :create r {k, v: Validity, tt: TxTime => x}",
        ErrKind::AxisGap => "invalid temporal-axis declaration: Validity must immediately precede TxTime; write :create r {k, v: Validity, tt: TxTime => x}",
        ErrKind::TempTxTime => "a transaction-temp relation cannot have a TxTime column",
        ErrKind::EngineAssigned => "the TxTime column is engine-assigned and cannot be supplied",
        ErrKind::AssertsAndRetracts => "one transaction asserts AND retracts the same fact",
        ErrKind::WrittenSameTx => "the key was written in the same transaction",
        ErrKind::ReplaceHistory => ":replace would erase the history of a TxTime relation",
        ErrKind::TtUnsupported => "not supported on a TxTime relation",
        ErrKind::DoesNotExist => "the row does not exist",
        ErrKind::BelievedDeleted => "the key is believed-deleted",
        ErrKind::PendingWrites => "the relation has pending transaction-time writes",
        ErrKind::NoValidAxis => "the relation has no valid-time axis",
        ErrKind::NoTtAxis => "the relation has no transaction-time axis",
        ErrKind::AsOfUnused => "the query reads no transaction-time-stamped relation",
        ErrKind::KeyExists => "the key exists",
        ErrKind::AlreadyWritten => "the key was already written in this transaction",
        ErrKind::EnsureMismatch => "the asserted row is a mismatch with the stored one",
        ErrKind::EnsureAmbiguous => "the assertion is ambiguous: the key was rewritten in this transaction",
        ErrKind::EnsureCurrent => "the assertion is about the CURRENT belief and takes no valid time",
        ErrKind::DuplicateKey => "duplicate key in one statement",
        ErrKind::RecordedBeliefs => "the key has recorded beliefs",
        ErrKind::NoBelief => "there is no belief at this valid time",
        ErrKind::RequiresTt => "this operation requires a TxTime relation",
        ErrKind::HeaderCollides => "a history header collides with a column of the relation",
        ErrKind::BelowFloor => "the read lies below the gc floor of the relation",
        ErrKind::FutureCutoff => "the cutoff lies in the future",
        ErrKind::ReadOnly => "a read-only transaction cannot write",
        ErrKind::ReservedName => "this relation name is reserved",
        ErrKind::ConflictingRows => "one :reconcile declares conflicting rows",
        ErrKind::ReconcileOnly => ":reconcile must be the only write to its relation in a transaction",
        ErrKind::DeclareBeliefs => "rows of a :reconcile declare beliefs and cannot retract",
        ErrKind::CorruptBlob => "eval::corrupt_value_blob",
        ErrKind::IndexNotFound => "no index has this name",
        ErrKind::IndexExists => "an index of this name already exists",
        ErrKind::BadKey => "a list of keys was expected",
        ErrKind::UnknownFixedRule => "no fixed rule has this name",
        ErrKind::FixedRuleArgs => "the arguments of a fixed rule are malformed",
        ErrKind::FixedRuleExists => "a fixed rule of this name already exists",
        ErrKind::StepBudget => "the script exceeded its step budget",
        ErrKind::StrayJump => "a jump stands outside any loop",
        ErrKind::IdsExhausted => "relation identifiers are exhausted",
        ErrKind::ClockExhausted => "the transaction clock is exhausted",
        ErrKind::NotTemporary => "rows can be kept only in a relation whose name begins with an underscore",
        ErrKind::Conflict => "the store has changed since the transaction began",
        ErrKind::UnknownEngine => "no storage engine has this name",
        ErrKind::DeleteImport => "rows of a TxTime relation cannot be deleted by an import: use :rm",
        ErrKind::ImportTt => "a TxTime relation cannot be imported from a backup: use restore_backup",
    }
}

impl DbError {
    /// The sentence that describes the error, then what it is about.
    pub fn report(&self) -> (r: String)
        ensures
            r@ == message_of(self.kind) + ": "@ + self.subject@,
    {
        let mut r = message(self.kind).to_owned();
        r.append(": ");
        r.append(self.subject.as_str());
        r
    }
}

} // verus!
