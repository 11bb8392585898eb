# v9r

v9r treats a task given to a model as a transaction over a directory: a
manifest says what the task may read, write and run; a checkpoint is taken; the
task runs within limits of steps, tokens and time; its outcome is validated; and the
directory is either handed on as a bundle or rolled back. Beside it stand a
virtual filesystem, namespaces that bound what an agent sees of it, and the
routing of writes to agents.

`src/` is the library, written in Verus. Each function states what it returns
or changes, and the modules state the laws that hold between them.

| Modules | What they hold |
| --- | --- |
| `text`, `order`, `host_path`, `xml` | text, sorting, paths of the host, escaping |
| `json_value` | documents, as `serde_json` reads them |
| `ids`, `manifest`, `task`, `task_fs`, `trace` | tasks, their manifests, and the table of their files |
| `snapshot`, `bundle`, `context` | checkpoints and rollback, bundles, what a model is shown |
| `execution`, `adapter`, `guard`, `provider` | commands, the actions of a model, guarded runs, requests to a model |
| `vfs_path`, `arena`, `vfs`, `log`, `cap` | the virtual filesystem and the views of it |
| `runtime`, `watch`, `agent_manifest`, `registry`, `handlers`, `orchestrator` | agents: their memory, routes, manifests and triggers |
| `args`, `output`, `run`, `repl` | the command line and the session |

`app/` is the program around the library: files, processes, the network,
WebAssembly modules, and the forms in which manifests, traces and bundles are
stored.
