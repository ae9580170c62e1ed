//! Translation of failures raised inside a boundary call into exception
//! records that the calling host can catch and tell apart.
use vstd::prelude::*;

verus! {

/// Put before the message of every recoverable failure, so that the host sees
/// where the error came from.
pub const ORIGIN_TAG: &'static str = "Error from Rust: ";

/// A failure signalled inside a boundary call.
#[derive(Clone, Debug, PartialEq, Eq)]
pub enum FailureValue {
    /// An expected failure of the domain, such as an input that fails a check.
    Recoverable(String),
    /// An invariant violation, such as an access past the end of a sequence.
    Fatal(String),
}

/// The two categories of exception that the host can observe.
#[derive(Clone, Copy, Debug, PartialEq, Eq, Structural)]
pub enum ExceptionKind {
    /// A recoverable failure of the domain, raised as an OS-style error.
    DomainError,
    /// An invariant violation that was stopped at the boundary.
    InternalAbort,
}

/// What the host receives in place of a result when a call fails.
#[derive(Clone, Debug, PartialEq, Eq)]
pub struct ExceptionRecord {
    pub kind: ExceptionKind,
    pub message: String,
}

/// The text that a failure carries.
pub open spec fn text_of(f: FailureValue) -> Seq<char> {
    match f {
        FailureValue::Recoverable(m) => m@,
        FailureValue::Fatal(m) => m@,
    }
}

/// The category that a failure is reported under.
pub open spec fn kind_of(f: FailureValue) -> ExceptionKind {
    match f {
        FailureValue::Recoverable(_) => ExceptionKind::DomainError,
        FailureValue::Fatal(_) => ExceptionKind::InternalAbort,
    }
}

/// The message that the host sees for a failure: a recoverable failure's text
/// behind the origin tag, a fatal one's text as it is.
pub open spec fn message_of(f: FailureValue) -> Seq<char> {
    match f {
        FailureValue::Recoverable(m) => ORIGIN_TAG@ + m@,
        FailureValue::Fatal(m) => m@,
    }
}

/// `r` is the exception record that the failure `f` is translated into.
pub open spec fn translated(f: FailureValue, r: ExceptionRecord) -> bool {
    &&& r.kind == kind_of(f)
    &&& r.message@ == message_of(f)
}

/// `r` is what a boundary call returns for the outcome `o` of its operation.
pub open spec fn guarded<T>(o: Result<T, FailureValue>, r: Result<T, ExceptionRecord>) -> bool {
    match o {
        Ok(v) => r == Ok::<T, ExceptionRecord>(v),
        Err(f) => r is Err && translated(f, r->Err_0),
    }
}

impl FailureValue {
    /// The text that the host is shown for this failure.
    pub fn display(&self) -> (r: String)
        ensures
            r@ == message_of(*self),
    {
        match self {
            FailureValue::Recoverable(m) => {
                let mut s = String::from_str(ORIGIN_TAG);
                s.append(m.as_str());
                s
            },
            FailureValue::Fatal(m) => m.clone(),
        }
    }
}

/// Turns a failure into the exception record that is raised in the host.
pub fn translate(f: FailureValue) -> (r: ExceptionRecord)
    ensures
        translated(f, r),
{
    let message = f.display();
    let kind = match f {
        FailureValue::Recoverable(_) => ExceptionKind::DomainError,
        FailureValue::Fatal(_) => ExceptionKind::InternalAbort,
    };
    ExceptionRecord { kind, message }
}

/// Completes a boundary call: a success is handed back unchanged, a failure is
/// translated into an exception record.
pub fn guard<T>(o: Result<T, FailureValue>) -> (r: Result<T, ExceptionRecord>)
    ensures
        guarded(o, r),
{
    match o {
        Ok(v) => Ok(v),
        Err(f) => Err(translate(f)),
    }
}

/// A recoverable failure is raised as a domain error whose message is the
/// origin tag followed by the failure's own text, unchanged.
pub proof fn lemma_recoverable_is_domain_error(text: String, r: ExceptionRecord)
    requires
        translated(FailureValue::Recoverable(text), r),
    ensures
        r.kind == ExceptionKind::DomainError,
        r.message@.subrange(0, ORIGIN_TAG@.len() as int) == ORIGIN_TAG@,
        r.message@.subrange(ORIGIN_TAG@.len() as int, r.message@.len() as int) == text@,
{
    assert(r.message@.subrange(0, ORIGIN_TAG@.len() as int) =~= ORIGIN_TAG@);
    assert(r.message@.subrange(ORIGIN_TAG@.len() as int, r.message@.len() as int) =~= text@);
}

/// An invariant violation is raised as an internal abort, in its own category
/// and with its text unchanged, never as a domain error.
pub proof fn lemma_fatal_is_internal_abort(text: String, r: ExceptionRecord)
    requires
        translated(FailureValue::Fatal(text), r),
    ensures
        r.kind == ExceptionKind::InternalAbort,
        r.kind != ExceptionKind::DomainError,
        r.message@ == text@,
{
}

/// Translating the same failure twice gives two records with the same
/// category and the same message.
pub proof fn lemma_translation_is_repeatable(
    f: FailureValue,
    g: FailureValue,
    r1: ExceptionRecord,
    r2: ExceptionRecord,
)
    requires
        kind_of(f) == kind_of(g),
        text_of(f) == text_of(g),
        translated(f, r1),
        translated(g, r2),
    ensures
        r1.kind == r2.kind,
        r1.message@ == r2.message@,
{
}

/// A boundary call hands a success back unchanged and turns every failure into
/// exactly one exception record; nothing else can come of it.
pub proof fn lemma_guard_outcomes<T>(o: Result<T, FailureValue>, r: Result<T, ExceptionRecord>)
    requires
        guarded(o, r),
    ensures
        o is Ok <==> r is Ok,
        o is Ok ==> r->Ok_0 == o->Ok_0,
        o is Err ==> translated(o->Err_0, r->Err_0),
{
}

} // verus!
