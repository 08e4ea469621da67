# physical_gc

Physical garbage collection of a pageserver's bucket: removing objects that were uploaded but
are no longer referred to, and indices and tenant manifests of historic generations.  It is not
needed for correctness; it saves storage, and keeps object listings short.

The crate is split in two.

`src/` is the verified library.  It decides what may be deleted, and counts what happened.

- `summary`: the counters of a run, and how the counters of several runs are merged.
- `mode`: how far a run may go, and which kinds of objects it may delete.
- `generation`, `ids`: the order of generations, and the names of tenants, shards and timelines.
- `refs`: refcounts of the layers of ancestor shards.
- `accumulator`: what is learned of the tenants' shards while the bucket is scanned.
- `ancestors`: which ancestor shards may be cleaned up once the storage controller agrees.
- `retention`: when an index or a tenant manifest may be deleted.
- `manifests`: which tenant manifests are candidates.
- `timelines`: which indices and which ancestor layers are candidates.
- `run`: the decisions of a run as a whole.

A decision to delete is a `Deletion`, which only the library can make, which names the object
that it is about, and which is spent on recording how the deletion went.

`app/` does the rest: it lists, looks up and deletes objects, asks the storage controller, and
logs.  The bucket and the controller are behind traits.

The library trusts one outside function, `itertools::partition`.
