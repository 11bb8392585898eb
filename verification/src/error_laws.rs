//! What errors tell: each says what went wrong and with what, and an error
//! that came from another one tells that one whole.

use vstd::prelude::*;

use crate::adapter::AdapterError;
use crate::agent_manifest::ManifestError;
use crate::bundle::BundleError;
use crate::context::ContextError;
use crate::execution::ExecutionError;
use crate::task_fs::TransactionError;
use crate::trace::TraceError;
use crate::vfs_path::VfsError;

verus! {

/// An error of the adapter is told with all that it holds.
pub proof fn lemma_adapter_errors_are_told(err: &AdapterError, r: String)
    requires
        call_ensures(AdapterError::message, (err,), r),
    ensures
        err matches AdapterError::MaxStepsExceeded(n)
            ==> r@ == "max_steps exceeded: "@ + crate::text::decimal(*n as nat),
        err is MissingApiKey ==> r@ == "V9R_API_KEY not set"@,
        err matches AdapterError::Http(m) ==> r@ == "http client: "@ + m@,
        err matches AdapterError::ApiStatus { status, body }
            ==> r@ == "LLM provider returned status "@ + status@ + ": "@ + body@,
        err matches AdapterError::InvalidResponse(m)
            ==> r@ == "invalid LLM provider response: "@ + m@,
        err matches AdapterError::InvalidAction(m) ==> r@ == "invalid action: "@ + m@,
        err matches AdapterError::Violation(m) ==> r@ == "permission violation: "@ + m@,
        err matches AdapterError::Context(e) ==> r@ == "context: "@ + e.text(),
        err matches AdapterError::Execution(e) ==> r@ == "execution: "@ + e.text(),
        err matches AdapterError::Trace(e) ==> r@ == "trace: "@ + e.text(),
        err matches AdapterError::Transaction(e) ==> r@ == "task filesystem: "@ + e.text(),
        err matches AdapterError::Io { path, source } ==> r@ == "io at "@ + path@ + ": "@ + source@,
{
}

/// An error of a bundle is told with all that it holds.
pub proof fn lemma_bundle_errors_are_told(err: &BundleError, r: String)
    requires
        call_ensures(BundleError::message, (err,), r),
    ensures
        err matches BundleError::UnsupportedVersion(v)
            ==> r@ == "unsupported bundle version: "@ + crate::text::decimal(*v as nat),
        err matches BundleError::UnsafePath(p) ==> r@ == "unsafe bundle path: "@ + p@,
        err matches BundleError::MissingMandatoryArtifact(p)
            ==> r@ == "mandatory artifact missing or empty: "@ + p@,
        err matches BundleError::Io { path, source } ==> r@ == "io at "@ + path@ + ": "@ + source@,
        err matches BundleError::Serialize(m) ==> r@ == "bundle serialization: "@ + m@,
        err matches BundleError::TraceSerialize(m) ==> r@ == "trace serialization: "@ + m@,
{
}

/// An error of a context is told with all that it holds.
pub proof fn lemma_context_errors_are_told(err: &ContextError, r: String)
    requires
        call_ensures(ContextError::message, (err,), r),
    ensures
        err matches ContextError::Io { path, source }
            ==> r@ == "context io at "@ + path@ + ": "@ + source@,
        err matches ContextError::Trace(e) ==> r@ == "trace: "@ + e.text(),
{
}

/// An error of a command is told with all that it holds.
pub proof fn lemma_execution_errors_are_told(err: &ExecutionError, r: String)
    requires
        call_ensures(ExecutionError::message, (err,), r),
    ensures
        err matches ExecutionError::MaxStepsExceeded(n)
            ==> r@ == "max_steps exceeded: "@ + crate::text::decimal(*n as nat),
        err matches ExecutionError::Violation(m) ==> r@ == "permission violation: "@ + m@,
        err matches ExecutionError::Transaction(e) ==> r@ == "task filesystem: "@ + e.text(),
        err matches ExecutionError::Join(m) ==> r@ == "command worker failed: "@ + m@,
        err matches ExecutionError::Io { program, source }
            ==> r@ == "io while executing "@ + program@ + ": "@ + source@,
        err matches ExecutionError::Trace(e) ==> r@ == "trace: "@ + e.text(),
{
}

/// An error of the files of a task is told with all that it holds.
pub proof fn lemma_transaction_errors_are_told(err: &TransactionError, r: String)
    requires
        call_ensures(TransactionError::message, (err,), r),
    ensures
        err matches TransactionError::UnknownTask(id)
            ==> r@ == "unknown task: "@ + crate::ids::hyphenated(id.0),
        err matches TransactionError::FilesystemBlocked(id)
            ==> r@ == "task filesystem is blocked: "@ + crate::ids::hyphenated(id.0),
        err matches TransactionError::SymlinkUnsupported(p)
            ==> r@ == "symbolic links are not supported in task snapshots: "@ + p@,
        err matches TransactionError::Safety(m) ==> r@ == m@,
        err matches TransactionError::Io { path, source }
            ==> r@ == "io at "@ + path@ + ": "@ + source@,
        err matches TransactionError::Join(m) ==> r@ == "checkpoint worker failed: "@ + m@,
        err matches TransactionError::Trace(e) ==> r@ == "trace: "@ + e.text(),
{
}

/// An error of a trace is told with all that it holds.
pub proof fn lemma_trace_errors_are_told(err: &TraceError, r: String)
    requires
        call_ensures(TraceError::message, (err,), r),
    ensures
        err matches TraceError::Io { path, source }
            ==> r@ == "trace io at "@ + path@ + ": "@ + source@,
        err matches TraceError::Serialize(m) ==> r@ == "trace serialization: "@ + m@,
{
}

/// An error of a path is told with all that it holds.
pub proof fn lemma_vfs_errors_are_told(err: &VfsError, r: String)
    requires
        call_ensures(VfsError::message, (err,), r),
    ensures
        err is NotFound ==> r@ == "path not found"@,
        err is IsDir ==> r@ == "is a directory"@,
        err is NotADir ==> r@ == "not a directory"@,
        err is AlreadyExists ==> r@ == "already exists"@,
        err is PermissionDenied ==> r@ == "permission denied"@,
        err matches VfsError::InvalidPath(m) ==> r@ == "invalid path: "@ + m@,
        err matches VfsError::Synthetic(m) ==> r@ == "synthetic node refused operation: "@ + m@,
        err matches VfsError::Io(m) ==> r@ == "io: "@ + m@,
{
}

/// An error of a manifest is told with all that it holds.
pub proof fn lemma_manifest_errors_are_told(err: &ManifestError, r: String)
    requires
        call_ensures(ManifestError::message, (err,), r),
    ensures
        err matches ManifestError::Parse(m) ==> r@ == "toml parse error: "@ + m@,
        err matches ManifestError::Utf8(m) ==> r@ == "manifest is not utf-8: "@ + m@,
        err matches ManifestError::Vfs(e) ==> r@ == "invalid path: "@ + e.text(),
        err matches ManifestError::NameMismatch { manifest, dir }
            ==> r@ == "name in manifest ("@ + crate::text::debug_text(manifest@)
            + ") does not match agent dir ("@ + crate::text::debug_text(dir@) + ")"@,
        err matches ManifestError::BadTriggerPath { path }
            ==> r@ == "invalid trigger path "@ + crate::text::debug_text(path@)
            + ": must be a single non-empty segment"@,
        err matches ManifestError::UntrustedMount { agent, trust, real: place }
            ==> r@ == "agent "@ + crate::text::debug_text(agent@) + " ("@
            + crate::agent_manifest::trust_text(*trust) + ") is not allowed to mount real path "@
            + crate::text::debug_text(place@),
{
}

} // verus!
