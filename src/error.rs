//! Errors of the repository, of engines and of external waits.

use vstd::prelude::*;

use crate::text::{concat, concat3, decimal, i64_to_decimal, signed_decimal, string_from_chars, u64_to_decimal};

verus! {

#[derive(Debug, Clone, Copy, PartialEq, Eq, Structural)]
pub enum ResourceKind {
    Dataset,
}

impl ResourceKind {
    pub fn name(&self) -> (r: &'static str)
        ensures
            r@ == "Dataset"@,
    {
        "Dataset"
    }
}

pub open spec fn ref_text(p: (ResourceKind, String)) -> Seq<char> {
    "(Dataset, \""@ + p.1@ + "\")"@
}

/// The references, comma-separated.
pub open spec fn refs_text(s: Seq<(ResourceKind, String)>) -> Seq<char>
    decreases s.len(),
{
    if s.len() == 0 {
        Seq::empty()
    } else if s.len() == 1 {
        ref_text(s[0])
    } else {
        refs_text(s.drop_last()) + ", "@ + ref_text(s.last())
    }
}

fn refs_list(s: &Vec<(ResourceKind, String)>) -> (r: String)
    ensures
        r@ == "["@ + refs_text(s@) + "]"@,
{
    let n = s.len();
    let mut out = String::new();
    let mut i: usize = 0;
    while i < n
        invariant
            n == s@.len(),
            0 <= i <= n,
            out@ == refs_text(s@.subrange(0, i as int)),
        decreases n - i,
    {
        let item = concat3("(Dataset, \"", s[i].1.as_str(), "\")");
        if i == 0 {
            out = item;
        } else {
            out = concat3(out.as_str(), ", ", item.as_str());
        }
        assert(s@.subrange(0, i + 1).drop_last() =~= s@.subrange(0, i as int));
        assert(i == 0 ==> s@.subrange(0, i + 1) =~= seq![s@[0]]);
        i += 1;
    }
    assert(s@.subrange(0, n as int) =~= s@);
    concat3("[", out.as_str(), "]")
}

/// Violations of the repository's consistency.
#[derive(Debug, Clone)]
pub enum DomainError {
    DoesNotExist { kind: ResourceKind, id: String },
    AlreadyExists { kind: ResourceKind, id: String },
    MissingReference {
        from_kind: ResourceKind,
        from_id: String,
        to_kind: ResourceKind,
        to_id: String,
    },
    DanglingReference {
        from_kinds_ids: Vec<(ResourceKind, String)>,
        to_kind: ResourceKind,
        to_id: String,
    },
    /// A dataset of a batch that waits, directly or not, on itself.
    CircularDependency { kind: ResourceKind, id: String },
}

impl DomainError {
    pub open spec fn message_text(&self) -> Seq<char> {
        match self {
            DomainError::DoesNotExist { id, .. } => "Dataset"@ + " "@ + id@ + " does not exist"@,
            DomainError::AlreadyExists { id, .. } => "Dataset"@ + " "@ + id@ + " already exists"@,
            DomainError::MissingReference { from_id, to_id, .. } => "Dataset"@ + " "@ + from_id@
                + " references non existent "@ + "Dataset"@ + " "@ + to_id@,
            DomainError::DanglingReference { from_kinds_ids, to_id, .. } => "Dataset"@ + " "@ + to_id@
                + " is referenced by "@ + ("["@ + refs_text(from_kinds_ids@) + "]"@),
            DomainError::CircularDependency { id, .. } => "Dataset"@ + " "@ + id@
                + " waits on a dependency cycle"@,
        }
    }

    /// The error for people.
    pub fn message(&self) -> (r: String)
        ensures
            r@ == self.message_text(),
    {
        match self {
            DomainError::DoesNotExist { kind, id } => concat3(kind.name(), " ", id.as_str()).concat(
                " does not exist",
            ),
            DomainError::AlreadyExists { kind, id } => concat3(kind.name(), " ", id.as_str()).concat(
                " already exists",
            ),
            DomainError::MissingReference { from_kind, from_id, to_kind, to_id } => {
                let a = concat3(from_kind.name(), " ", from_id.as_str());
                let b = concat3(a.as_str(), " references non existent ", to_kind.name());
                concat3(b.as_str(), " ", to_id.as_str())
            },
            DomainError::DanglingReference { from_kinds_ids, to_kind, to_id } => {
                let a = concat3(to_kind.name(), " ", to_id.as_str());
                let l = refs_list(from_kinds_ids);
                concat3(a.as_str(), " is referenced by ", l.as_str())
            },
            DomainError::CircularDependency { kind, id } => concat3(kind.name(), " ", id.as_str()).concat(
                " waits on a dependency cycle",
            ),
        }
    }

    pub fn already_exists(kind: ResourceKind, id: String) -> (r: DomainError)
        ensures
            r matches DomainError::AlreadyExists { kind: k, id: i } && k == kind && i == id,
    {
        DomainError::AlreadyExists { kind, id }
    }

    pub fn does_not_exist(kind: ResourceKind, id: String) -> (r: DomainError)
        ensures
            r matches DomainError::DoesNotExist { kind: k, id: i } && k == kind && i == id,
    {
        DomainError::DoesNotExist { kind, id }
    }

    pub fn missing_reference(
        from_kind: ResourceKind,
        from_id: String,
        to_kind: ResourceKind,
        to_id: String,
    ) -> (r: DomainError)
        ensures
            r matches DomainError::MissingReference { from_kind: fk, from_id: fi, to_kind: tk, to_id: ti }
                && fk == from_kind && fi == from_id && tk == to_kind && ti == to_id,
    {
        DomainError::MissingReference { from_kind, from_id, to_kind, to_id }
    }

    pub fn dangling_reference(
        from_kinds_ids: Vec<(ResourceKind, String)>,
        to_kind: ResourceKind,
        to_id: String,
    ) -> (r: DomainError)
        ensures
            r matches DomainError::DanglingReference { from_kinds_ids: f, to_kind: tk, to_id: ti }
                && f == from_kinds_ids && tk == to_kind && ti == to_id,
    {
        DomainError::DanglingReference { from_kinds_ids, to_kind, to_id }
    }
}

/// A child process that exited with an error code or was killed by a signal.
#[derive(Debug, Clone)]
pub struct ProcessError {
    pub exit_code: Option<i32>,
    pub stdout_path: Option<String>,
    pub stderr_path: Option<String>,
}

impl ProcessError {
    pub fn new(exit_code: Option<i32>, stdout_path: Option<String>, stderr_path: Option<String>) -> (r: ProcessError)
        ensures
            r.exit_code == exit_code,
            r.stdout_path == stdout_path,
            r.stderr_path == stderr_path,
    {
        ProcessError { exit_code, stdout_path, stderr_path }
    }
}

/// The text that names the files where a process's output went.
pub open spec fn path_text(label: Seq<char>, path: Option<String>) -> Seq<char> {
    match path {
        Some(p) => label + p@,
        None => Seq::empty(),
    }
}

pub open spec fn output_paths_text(stdout_path: Option<String>, stderr_path: Option<String>) -> Seq<char> {
    path_text(", process stdout: "@, stdout_path) + path_text(", process stderr: "@, stderr_path)
}

fn output_paths(stdout_path: &Option<String>, stderr_path: &Option<String>) -> (r: String)
    ensures
        r@ == output_paths_text(*stdout_path, *stderr_path),
{
    let mut s = String::new();
    match stdout_path {
        Some(p) => {
            let t = concat(", process stdout: ", p.as_str());
            s = concat(s.as_str(), t.as_str());
        },
        None => {},
    }
    match stderr_path {
        Some(p) => {
            let t = concat(", process stderr: ", p.as_str());
            s = concat(s.as_str(), t.as_str());
        },
        None => {},
    }
    assert(s@ =~= output_paths_text(*stdout_path, *stderr_path));
    s
}

impl ProcessError {
    /// How the process ended, and where its output went.
    pub fn message(&self) -> (r: String)
        ensures
            r@ == match self.exit_code {
                Some(c) => "Process exited with code "@ + signed_decimal(c as int),
                None => "Process terminated by a signal"@,
            } + output_paths_text(self.stdout_path, self.stderr_path),
    {
        let head = match self.exit_code {
            Some(c) => {
                let d = i64_to_decimal(c as i64);
                concat("Process exited with code ", d.as_str())
            },
            None => "Process terminated by a signal".to_owned(),
        };
        let tail = output_paths(&self.stdout_path, &self.stderr_path);
        concat(head.as_str(), tail.as_str())
    }
}

impl ContractError {
    /// The reason, and where the process's output went.
    pub fn message(&self) -> (r: String)
        ensures
            r@ == self.reason@ + output_paths_text(self.stdout_path, self.stderr_path),
    {
        let tail = output_paths(&self.stdout_path, &self.stderr_path);
        concat(self.reason.as_str(), tail.as_str())
    }
}

/// An engine response that broke the request/response contract.
#[derive(Debug, Clone)]
pub struct ContractError {
    pub reason: String,
    pub stdout_path: Option<String>,
    pub stderr_path: Option<String>,
}

impl ContractError {
    pub fn new(reason: &str, stdout_path: Option<String>, stderr_path: Option<String>) -> (r: ContractError)
        ensures
            r.reason@ == reason@,
            r.stdout_path == stdout_path,
            r.stderr_path == stderr_path,
    {
        ContractError { reason: reason.to_owned(), stdout_path, stderr_path }
    }
}

#[derive(Debug, Clone)]
pub enum EngineError {
    NotFound { id: String },
    IOError { message: String },
    ProcessError(ProcessError),
    ContractError(ContractError),
    InternalError { message: String },
}

impl EngineError {
    pub open spec fn message_text(&self) -> Seq<char> {
        match self {
            EngineError::NotFound { id } => "Engine "@ + id@ + " was not found"@,
            EngineError::IOError { message } => message@,
            EngineError::ProcessError(p) => "Process error: "@ + (match p.exit_code {
                Some(c) => "Process exited with code "@ + signed_decimal(c as int),
                None => "Process terminated by a signal"@,
            } + output_paths_text(p.stdout_path, p.stderr_path)),
            EngineError::ContractError(c) => "Contract error: "@ + (c.reason@ + output_paths_text(
                c.stdout_path,
                c.stderr_path,
            )),
            EngineError::InternalError { message } => "Internal error: "@ + message@,
        }
    }

    /// The error for people.
    pub fn message(&self) -> (r: String)
        ensures
            r@ == self.message_text(),
    {
        match self {
            EngineError::NotFound { id } => concat3("Engine ", id.as_str(), " was not found"),
            EngineError::IOError { message } => message.clone(),
            EngineError::ProcessError(p) => {
                let m = p.message();
                concat("Process error: ", m.as_str())
            },
            EngineError::ContractError(c) => {
                let m = c.message();
                concat("Contract error: ", m.as_str())
            },
            EngineError::InternalError { message } => concat("Internal error: ", message.as_str()),
        }
    }

    pub fn not_found(id: &str) -> (r: EngineError)
        ensures
            r matches EngineError::NotFound { id: i } && i@ == id@,
    {
        EngineError::NotFound { id: id.to_owned() }
    }

    /// An internal failure, described by the message of its cause.
    pub fn internal(message: &str) -> (r: EngineError)
        ensures
            r matches EngineError::InternalError { message: m } && m@ == message@,
    {
        EngineError::InternalError { message: message.to_owned() }
    }
}

/// A bounded wait for an external resource that ran out of time.
#[derive(Debug, Clone, Copy, PartialEq, Eq, Structural)]
pub struct TimeoutError {
    pub duration_ms: u64,
}

pub open spec fn digit_of(d: int) -> char {
    (('0' as int) + d) as char
}

/// The fraction of a second after the point, without trailing zeros.
pub open spec fn millis_fraction(f: nat) -> Seq<char> {
    if f == 0 {
        Seq::empty()
    } else if f % 100 == 0 {
        seq!['.', digit_of((f / 100) as int)]
    } else if f % 10 == 0 {
        seq!['.', digit_of((f / 100) as int), digit_of((f / 10 % 10) as int)]
    } else {
        seq!['.', digit_of((f / 100) as int), digit_of((f / 10 % 10) as int), digit_of((f % 10) as int)]
    }
}

/// A span of whole milliseconds as `Duration` writes it for debugging:
/// `0ns`, `250ms`, `1s`, `1.5s`.
pub open spec fn duration_text(ms: nat) -> Seq<char> {
    if ms == 0 {
        "0ns"@
    } else if ms < 1000 {
        decimal(ms) + "ms"@
    } else {
        decimal(ms / 1000) + millis_fraction(ms % 1000) + "s"@
    }
}

fn fraction(f: u64) -> (r: String)
    requires
        f < 1000,
    ensures
        r@ == millis_fraction(f as nat),
{
    let d = |v: u64| -> (c: char)
        requires
            v < 10,
        ensures
            c == digit_of(v as int),
        { ('0' as u8 + v as u8) as char };
    let mut cs: Vec<char> = Vec::new();
    if f != 0 {
        cs.push('.');
        cs.push(d(f / 100));
        if f % 100 != 0 {
            cs.push(d(f / 10 % 10));
            if f % 10 != 0 {
                cs.push(d(f % 10));
            }
        }
    }
    assert(cs@ =~= millis_fraction(f as nat));
    string_from_chars(&cs)
}

impl TimeoutError {
    /// The error for people.
    pub fn message(&self) -> (r: String)
        ensures
            r@ == "Timed out after "@ + duration_text(self.duration_ms as nat),
    {
        let ms = self.duration_ms;
        let d = if ms == 0 {
            "0ns".to_owned()
        } else if ms < 1000 {
            let n = u64_to_decimal(ms);
            n.concat("ms")
        } else {
            let n = u64_to_decimal(ms / 1000);
            let f = fraction(ms % 1000);
            concat3(n.as_str(), f.as_str(), "s")
        };
        concat("Timed out after ", d.as_str())
    }

    pub fn new(duration_ms: u64) -> (r: TimeoutError)
        ensures
            r.duration_ms == duration_ms,
    {
        TimeoutError { duration_ms }
    }
}

} // verus!
