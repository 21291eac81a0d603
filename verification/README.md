# container-image-pruner

Safely prunes old per-build container images from the GitHub Container Registry, and proves that it
does. It deletes old build versions (those whose tags all read `<hash>-<timestamp>`) and the untagged
manifests that they leave behind. It never deletes a version with any other tag, the most recent
builds, or an untagged manifest that a retained tagged version refers to.

- `src/` is the library, verified with Verus. It makes every decision, from plain values to plain
  values: nothing in it sends a request or reads a clock or a file.
- `app/` is the program around it: arguments, HTTP, JSON, the audit trail.
- `tests/` run the library on concrete values.

## What is proved

Each function states exactly what it returns. On top of that, the functions named `law_...` state what
holds of every run. Among others:

- a plan deletes exactly the old builds beyond the minimum that is kept, and the old untagged versions
  that no retained tagged version refers to (`domain::laws::law_exactly_what_is_due_is_deleted`);
- every version is decided once, and the order in which versions are listed does not matter;
- planning what a plan keeps deletes nothing more;
- once the rate limit stops a run, nothing more is deleted;
- a run that carries its plans out and exits with zero has deleted as many versions as it planned;
- a request is retried a few times at most, and given up within seconds.

What is taken on trust is small: the wrappers around `chrono`, `regex` and a few functions of the
standard library. Each says what it claims of the function that it calls.

## What it cannot tell

References protect untagged versions only, and only those of retained tagged versions count. A build
version is judged by its age and its rank, also where a retained index refers to it.
