//! What maps by text, the cache of kernels, the registry of functions and the
//! profilers hand back of what they were given.

use crate::function_registry::{FuncMeta, FunctionRegistry};
use crate::kernel_cache::{
    entry_views, ArtifactMeta, ArtifactWrite, CacheAction, CacheError, KernelCache,
};
use crate::models::{first_missing, missing, NeuronDef, StageDef};
use crate::nd::F32;
use crate::neuron::{chain_ensures, funcs, Neuron, Stage};
use crate::observability::{
    ExecutionContext, InMemoryProfiler, Profiler, ProfilerSnapshot, Profilers, SharedProfiler,
};
use crate::strmap::{
    entries_map, has_key, keys_distinct, lemma_entries_map_dom, lemma_without_one, StrMap,
};
use std::sync::Arc;
use vstd::prelude::*;

verus! {

// ---------------------------------------------------------------------------
// Maps
// ---------------------------------------------------------------------------
/// What a map says of a key: what was put there last, and for every other key
/// what it said before; and putting hands back what was there.
pub proof fn law_maps_hand_back<V>(
    m: &mut StrMap<V>,
    key: &str,
    value: V,
    r: Option<V>,
    other: &str,
    before: Option<&V>,
    after: Option<&V>,
    had: Option<&V>,
)
    requires
        call_ensures(StrMap::<V>::insert, (m, key, value), r),
        call_ensures(StrMap::<V>::get, (&*old(m), key), had),
        call_ensures(StrMap::<V>::get, (&*old(m), other), before),
        call_ensures(StrMap::<V>::get, (&*final(m), other), after),
    ensures
        other@ == key@ ==> after is Some && *after->0 == value,
        other@ != key@ ==> (after is Some <==> before is Some) && (after is Some ==> *after->0
            == *before->0),
        r is Some <==> had is Some,
        r is Some ==> r->0 == *had->0,
{
}

/// What was removed is handed back and is there no more; every other key has
/// what it had.
pub proof fn law_maps_let_go<V>(
    m: &mut StrMap<V>,
    key: &str,
    r: Option<V>,
    other: &str,
    before: Option<&V>,
    after: Option<&V>,
    had: Option<&V>,
)
    requires
        call_ensures(StrMap::<V>::remove, (m, key), r),
        call_ensures(StrMap::<V>::get, (&*old(m), key), had),
        call_ensures(StrMap::<V>::get, (&*old(m), other), before),
        call_ensures(StrMap::<V>::get, (&*final(m), other), after),
    ensures
        other@ == key@ ==> after is None,
        other@ != key@ ==> (after is Some <==> before is Some) && (after is Some ==> *after->0
            == *before->0),
        r is Some <==> had is Some,
        r is Some ==> r->0 == *had->0,
{
}

/// A map without entries has no key; a key is there exactly where it has a
/// value.
pub proof fn law_maps_begin_empty<V>(
    m: StrMap<V>,
    key: &str,
    r: Option<&V>,
    any: &StrMap<V>,
    there: bool,
    had: Option<&V>,
    n: usize,
)
    requires
        call_ensures(StrMap::<V>::new, (), m),
        call_ensures(StrMap::<V>::get, (&m, key), r),
        call_ensures(StrMap::<V>::contains_key, (any, key), there),
        call_ensures(StrMap::<V>::get, (any, key), had),
        call_ensures(StrMap::<V>::len, (&m,), n),
    ensures
        r is None,
        n == 0,
        there <==> had is Some,
{
}

/// A key that is put anew comes last; one that is there keeps its place, and
/// every other entry keeps its place too.
pub proof fn law_keys_keep_their_places<V>(
    m: &mut StrMap<V>,
    key: &str,
    value: V,
    r: Option<V>,
    place: int,
)
    requires
        call_ensures(StrMap::<V>::insert, (m, key, value), r),
        keys_distinct(old(m).list()),
        0 <= place < old(m).list().len(),
    ensures
        final(m).list()[place].0 == old(m).list()[place].0,
        old(m).list()[place].0 != key@ ==> final(m).list()[place].1 == old(m).list()[place].1,
        old(m).list()[place].0 == key@ ==> final(m).list()[place].1 == value
            && final(m).list().len() == old(m).list().len(),
        (forall|i: int| 0 <= i < old(m).list().len() ==> (#[trigger] old(m).list()[i]).0 != key@)
            ==> final(m).list() == old(m).list().push((key@, value)),
{
    let s = old(m).list();
    if s[place].0 == key@ {
        assert(has_key(s, key@));
    }
}

/// Removing a key leaves the entries before it where they are, and moves those
/// after it up by one.
pub proof fn law_removal_closes_the_gap<V>(
    m: &mut StrMap<V>,
    key: &str,
    r: Option<V>,
    place: int,
    i: int,
)
    requires
        call_ensures(StrMap::<V>::remove, (m, key), r),
        keys_distinct(old(m).list()),
        0 <= place < old(m).list().len(),
        old(m).list()[place].0 == key@,
    ensures
        final(m).list().len() == old(m).list().len() - 1,
        0 <= i < place ==> final(m).list()[i] == old(m).list()[i],
        place <= i < final(m).list().len() ==> final(m).list()[i] == old(m).list()[i + 1],
{
    lemma_without_one(old(m).list(), place);
}

/// The entries are there to be gone through: a key with its value at each
/// place.
pub proof fn law_entries_are_shown<V>(m: &StrMap<V>, i: usize, key: &str, value: &V, n: usize)
    requires
        i < m.list().len(),
        call_ensures(StrMap::<V>::len, (m,), n),
        call_ensures(StrMap::<V>::key_at, (m, i), key),
        call_ensures(StrMap::<V>::value_at, (m, i), value),
    ensures
        n == m.list().len(),
        m.list()[i as int] == (key@, *value),
        m@.dom().contains(key@),
        m@[key@] == *value,
{
}

proof fn lemma_last_counts<V>(s: Seq<(Seq<char>, V)>, i: int)
    requires
        0 <= i < s.len(),
        forall|j: int| i < j < s.len() ==> (#[trigger] s[j]).0 != s[i].0,
    ensures
        entries_map(s).dom().contains(s[i].0),
        entries_map(s)[s[i].0] == s[i].1,
    decreases s.len(),
{
    if i < s.len() - 1 {
        let t = s.drop_last();
        assert(s[s.len() - 1].0 != s[i].0);
        assert forall|j: int| i < j < t.len() implies (#[trigger] t[j]).0 != t[i].0 by {
            assert(s[j].0 != s[i].0);
        }
        lemma_last_counts(t, i);
    }
}

// ---------------------------------------------------------------------------
// The cache of kernels
// ---------------------------------------------------------------------------
/// The path of a file in a directory: after the directory and a slash, unless
/// the directory has no name, or ends in one, or the path of the file begins
/// with one.
pub open spec fn is_path(root: Seq<char>, file: Seq<char>, path: Seq<char>) -> bool {
    if root.len() == 0 || (file.len() > 0 && file[0] == '/') {
        path == file
    } else if root[root.len() - 1] == '/' {
        path == root + file
    } else {
        path == root + seq!['/'] + file
    }
}

/// A cache has the directory that it is given and no entries. The files of an
/// artifact and of the index stand in the directory.
pub proof fn law_caches_know_their_files(
    root: &str,
    c: KernelCache,
    cache: &KernelCache,
    fingerprint: &str,
    artifact: String,
    index: String,
)
    requires
        call_ensures(KernelCache::new, (root,), c),
        call_ensures(KernelCache::artifact_path, (cache, fingerprint), artifact),
        call_ensures(KernelCache::index_path, (cache,), index),
    ensures
        c.spec_root() == root@,
        c.spec_index().dom() == Set::<Seq<char>>::empty(),
        is_path(
            cache.spec_root(),
            fingerprint@ + seq!['.', 'b', 'i', 'n'],
            artifact@,
        ),
        is_path(
            cache.spec_root(),
            seq!['i', 'n', 'd', 'e', 'x', '.', 'j', 's', 'o', 'n'],
            index@,
        ),
{
    lemma_names();
}

proof fn lemma_names()
    ensures
        "/"@ == seq!['/'],
        ".bin"@ == seq!['.', 'b', 'i', 'n'],
        ".tmp"@ == seq!['.', 't', 'm', 'p'],
        "index.json"@ == seq!['i', 'n', 'd', 'e', 'x', '.', 'j', 's', 'o', 'n'],
        "index.tmp"@ == seq!['i', 'n', 'd', 'e', 'x', '.', 't', 'm', 'p'],
{
    reveal_strlit("/");
    reveal_strlit(".bin");
    reveal_strlit(".tmp");
    reveal_strlit("index.json");
    reveal_strlit("index.tmp");
    assert("/"@ =~= seq!['/']);
    assert(".bin"@ =~= seq!['.', 'b', 'i', 'n']);
    assert(".tmp"@ =~= seq!['.', 't', 'm', 'p']);
    assert("index.json"@ =~= seq!['i', 'n', 'd', 'e', 'x', '.', 'j', 's', 'o', 'n']);
    assert("index.tmp"@ =~= seq!['i', 'n', 'd', 'e', 'x', '.', 't', 'm', 'p']);
}

/// An artifact is written to a temporary file, which is then renamed; then the
/// index is written to a temporary file, which is then renamed. Each step
/// comes once the one before it succeeded. The first that fails ends the
/// write, with the error of that step; and nothing more is done after the end.
pub proof fn law_steps_of_a_write(
    cache: &mut KernelCache,
    write: &mut ArtifactWrite,
    ok: bool,
    r: CacheAction,
)
    requires
        call_ensures(KernelCache::write_artifact, (cache, write, ok), r),
    ensures
        ({
            let from = old(write).spec_stage();
            let to = final(write).spec_stage();
            &&& from is Begun ==> to is WritingTemp && r is WriteArtifact
            &&& from is WritingTemp && ok ==> to is Renaming && r is Rename
            &&& from is Renaming && ok ==> to is WritingIndex && r is WriteIndex
            &&& from is WritingIndex && ok ==> to is RenamingIndex && r is Rename
            &&& from is RenamingIndex && ok ==> to is Ended && r == CacheAction::End(Ok(()))
            &&& from is WritingTemp && !ok ==> to is Ended && r == CacheAction::End(
                Err(CacheError::WriteTemp),
            )
            &&& from is Renaming && !ok ==> to is Ended && r == CacheAction::End(
                Err(CacheError::Rename),
            )
            &&& from is WritingIndex && !ok ==> to is Ended && r == CacheAction::End(
                Err(CacheError::WriteTempIndex),
            )
            &&& from is RenamingIndex && !ok ==> to is Ended && r == CacheAction::End(
                Err(CacheError::RenameIndex),
            )
            &&& from is Ended ==> to == from && r == CacheAction::End(from->Ended_0)
            &&& final(write).spec_fingerprint() == old(write).spec_fingerprint()
            &&& final(write).spec_size() == old(write).spec_size()
            &&& final(cache).spec_root() == old(cache).spec_root()
        }),
{
}

/// The files that the steps of a write are about. The temporary file of an
/// artifact whose fingerprint is not empty and does not end in a slash is
/// named like the artifact, with another extension.
pub proof fn law_files_of_a_write(
    cache: &mut KernelCache,
    write: &mut ArtifactWrite,
    ok: bool,
    r: CacheAction,
)
    requires
        call_ensures(KernelCache::write_artifact, (cache, write, ok), r),
        old(write).spec_fingerprint().len() > 0,
        old(write).spec_fingerprint().last() != '/',
    ensures
        ({
            let root = old(cache).spec_root();
            let name = old(write).spec_fingerprint();
            let stage = final(write).spec_stage();
            &&& r is WriteArtifact ==> is_path(root, name + seq!['.', 't', 'm', 'p'], r->WriteArtifact_path@)
            &&& stage is Renaming ==> {
                &&& is_path(root, name + seq!['.', 't', 'm', 'p'], r->from@)
                &&& is_path(root, name + seq!['.', 'b', 'i', 'n'], r->to@)
            }
            &&& r is WriteIndex ==> is_path(
                root,
                seq!['i', 'n', 'd', 'e', 'x', '.', 't', 'm', 'p'],
                r->WriteIndex_path@,
            )
            &&& stage is RenamingIndex ==> {
                &&& is_path(root, seq!['i', 'n', 'd', 'e', 'x', '.', 't', 'm', 'p'], r->from@)
                &&& is_path(root, seq!['i', 'n', 'd', 'e', 'x', '.', 'j', 's', 'o', 'n'], r->to@)
            }
        }),
{
    lemma_names();
    let root = old(cache).spec_root();
    let name = old(write).spec_fingerprint();
    let file = name + ".bin"@;
    let temp = name + ".tmp"@;
    assert(file[0] == name[0] && temp[0] == name[0]);
    let path = crate::kernel_cache::joined_path(root, file);
    let stem = path.take(path.len() - 4);
    assert(path.last() == 'n');
    if root.len() == 0 || name[0] == '/' {
        assert(stem =~= name);
    } else if root.last() == '/' {
        assert(stem =~= root + name);
        assert(stem + ".tmp"@ =~= root + temp);
    } else {
        assert(stem =~= root + "/"@ + name);
        assert(stem + ".tmp"@ =~= root + "/"@ + temp);
    }
    assert(stem.last() == name.last());
}

/// An artifact is found, with its fingerprint and its size, from when its file
/// has its own name on; no other step changes what is found, and no other
/// artifact is found or lost.
pub proof fn law_artifacts_are_found(
    cache: &mut KernelCache,
    write: &mut ArtifactWrite,
    ok: bool,
    r: CacheAction,
    asked: &str,
    before: Option<&ArtifactMeta>,
    after: Option<&ArtifactMeta>,
)
    requires
        call_ensures(KernelCache::write_artifact, (cache, write, ok), r),
        call_ensures(KernelCache::lookup, (&*old(cache), asked), before),
        call_ensures(KernelCache::lookup, (&*final(cache), asked), after),
    ensures
        ({
            let named = old(write).spec_stage() is Renaming && ok;
            let mine = asked@ == old(write).spec_fingerprint();
            &&& named && mine ==> {
                &&& after is Some
                &&& after->0.fingerprint@ == asked@
                &&& after->0.size_bytes == old(write).spec_size()
            }
            &&& !(named && mine) ==> {
                &&& after is Some <==> before is Some
                &&& after is Some ==> after->0@ == before->0@
            }
        }),
{
}

/// A write begins with what it is given.
pub proof fn law_writes_begin(fingerprint: &str, size_bytes: u64, w: ArtifactWrite)
    requires
        call_ensures(ArtifactWrite::new, (fingerprint, size_bytes), w),
    ensures
        w.spec_fingerprint() == fingerprint@,
        w.spec_size() == size_bytes,
        w.spec_stage() is Begun,
{
}

/// An index that is loaded has what the entries say: for each key the last of
/// its entries, and for every other nothing.
pub proof fn law_loaded_entries_are_found(
    cache: &mut KernelCache,
    entries: Vec<(String, ArtifactMeta)>,
    done: (),
    i: int,
    key: &str,
    found: Option<&ArtifactMeta>,
    other: &str,
    none: Option<&ArtifactMeta>,
)
    requires
        call_ensures(KernelCache::load_index, (cache, entries), done),
        0 <= i < entries@.len(),
        key@ == entries@[i].0@,
        forall|j: int| i < j < entries@.len() ==> (#[trigger] entries@[j]).0@ != key@,
        forall|j: int| 0 <= j < entries@.len() ==> (#[trigger] entries@[j]).0@ != other@,
        call_ensures(KernelCache::lookup, (&*final(cache), key), found),
        call_ensures(KernelCache::lookup, (&*final(cache), other), none),
    ensures
        found is Some,
        found->0@ == entries@[i].1@,
        none is None,
        final(cache).spec_root() == old(cache).spec_root(),
{
    let s = entry_views(entries@);
    assert forall|j: int| i < j < s.len() implies (#[trigger] s[j]).0 != s[i].0 by {
        assert(entries@[j].0@ != key@);
    }
    lemma_last_counts(s, i);
    lemma_entries_map_dom(s, other@);
    if exists|j: int| 0 <= j < s.len() && (#[trigger] s[j]).0 == other@ {
        let j = choose|j: int| 0 <= j < s.len() && (#[trigger] s[j]).0 == other@;
        assert(entries@[j].0@ != other@);
    }
}

/// The entries of an index are what is found in it: each key is found with
/// what its entry says, and what is found has an entry.
pub proof fn law_entries_are_what_is_found(
    cache: &KernelCache,
    entries: Vec<(String, ArtifactMeta)>,
    i: int,
    key: &str,
    found: Option<&ArtifactMeta>,
    asked: &str,
    answer: Option<&ArtifactMeta>,
)
    requires
        call_ensures(KernelCache::index_entries, (cache,), entries),
        0 <= i < entries@.len(),
        key@ == entries@[i].0@,
        call_ensures(KernelCache::lookup, (cache, key), found),
        call_ensures(KernelCache::lookup, (cache, asked), answer),
    ensures
        found is Some,
        found->0@ == entries@[i].1@,
        answer is Some <==> exists|j: int|
            0 <= j < entries@.len() && (#[trigger] entries@[j]).0@ == asked@,
        forall|a: int, b: int|
            0 <= a < b < entries@.len() ==> (#[trigger] entries@[a]).0@ != (
            #[trigger] entries@[b]).0@,
{
    let s = entry_views(entries@);
    assert forall|a: int, b: int| 0 <= a < b < entries@.len() implies (
    #[trigger] entries@[a]).0@ != (#[trigger] entries@[b]).0@ by {
        assert(s[a].0 != s[b].0);
    }
    lemma_last_counts(s, i);
    lemma_entries_map_dom(s, asked@);
    if answer is Some {
        let j = choose|j: int| 0 <= j < s.len() && (#[trigger] s[j]).0 == asked@;
        assert(entries@[j].0@ == asked@);
    }
    if exists|j: int| 0 <= j < entries@.len() && (#[trigger] entries@[j]).0@ == asked@ {
        let j = choose|j: int| 0 <= j < entries@.len() && (#[trigger] entries@[j]).0@ == asked@;
        assert(s[j].0 == asked@);
    }
}

// ---------------------------------------------------------------------------
// The registry of functions
// ---------------------------------------------------------------------------
/// A function is found under the name that it was registered with last, and
/// every other name stands for what it stood for.
pub proof fn law_functions_are_found<F, G>(
    registry: &mut FunctionRegistry<F, G>,
    name: &'static str,
    f: F,
    doc: &'static str,
    done: (),
    asked: &str,
    before: Option<Arc<F>>,
    after: Option<Arc<F>>,
    plain: bool,
)
    requires
        if plain {
            call_ensures(FunctionRegistry::<F, G>::register_fn, (registry, name, f, doc), done)
        } else {
            call_ensures(FunctionRegistry::<F, G>::register, (registry, name, f, doc), done)
        },
        call_ensures(FunctionRegistry::<F, G>::get, (&*old(registry), asked), before),
        call_ensures(FunctionRegistry::<F, G>::get, (&*final(registry), asked), after),
    ensures
        asked@ == name@ ==> after is Some && *after->0 == f,
        asked@ != name@ ==> (after is Some <==> before is Some) && (after is Some ==> *after->0
            == *before->0),
        final(registry).makers() == old(registry).makers(),
{
}

/// Replacing hands back what the name stood for, and registers the function.
pub proof fn law_functions_are_replaced<F, G>(
    registry: &mut FunctionRegistry<F, G>,
    name: &'static str,
    f: F,
    doc: &'static str,
    r: Option<FuncMeta<F>>,
    before: Option<Arc<F>>,
    after: Option<Arc<F>>,
)
    requires
        call_ensures(FunctionRegistry::<F, G>::replace, (registry, name, f, doc), r),
        call_ensures(FunctionRegistry::<F, G>::get, (&*old(registry), name), before),
        call_ensures(FunctionRegistry::<F, G>::get, (&*final(registry), name), after),
    ensures
        r is Some <==> before is Some,
        r is Some ==> r->0.func() == *before->0,
        after is Some,
        *after->0 == f,
{
}

/// A function that was removed is not found any more, and whether there was
/// one is told; every other stays.
pub proof fn law_functions_are_removed<F, G>(
    registry: &mut FunctionRegistry<F, G>,
    name: &str,
    r: bool,
    had: Option<Arc<F>>,
    asked: &str,
    before: Option<Arc<F>>,
    after: Option<Arc<F>>,
)
    requires
        call_ensures(FunctionRegistry::<F, G>::remove, (registry, name), r),
        call_ensures(FunctionRegistry::<F, G>::get, (&*old(registry), name), had),
        call_ensures(FunctionRegistry::<F, G>::get, (&*old(registry), asked), before),
        call_ensures(FunctionRegistry::<F, G>::get, (&*final(registry), asked), after),
    ensures
        r <==> had is Some,
        asked@ == name@ ==> after is None,
        asked@ != name@ ==> (after is Some <==> before is Some) && (after is Some ==> *after->0
            == *before->0),
        final(registry).makers() == old(registry).makers(),
{
}

/// There is a line for each function: its name, a colon, a space, and what is
/// said of it.
pub proof fn law_functions_are_listed<F, G>(
    registry: &FunctionRegistry<F, G>,
    lines: Vec<String>,
    i: int,
)
    requires
        call_ensures(FunctionRegistry::<F, G>::list_functions, (registry,), lines),
        0 <= i < registry.entries().len(),
    ensures
        lines@.len() == registry.entries().len(),
        lines@[i]@ == registry.entries()[i].0 + seq![':', ' '] + registry.entries()[i].1.line(),
        registry.functions().dom().contains(registry.entries()[i].0),
{
    reveal_strlit(": ");
    assert(": "@ =~= seq![':', ' ']);
    assert(lines@[i]@ == registry.entries()[i].0 + ": "@ + registry.entries()[i].1.line());
    lemma_entries_map_dom(registry.entries(), registry.entries()[i].0);
}

/// A factory is called by the name that it was registered with, on the
/// parameters that are given; functions do not change with factories.
pub proof fn law_factories_are_called<F, G: Fn(&[F32]) -> Arc<F>>(
    registry: &mut FunctionRegistry<F, G>,
    name: &'static str,
    factory: G,
    done: (),
    asked: &str,
    params: &[F32],
    r: Option<Arc<F>>,
)
    requires
        call_ensures(
            FunctionRegistry::<F, G>::register_factory,
            (registry, name, factory),
            done,
        ),
        call_ensures(FunctionRegistry::<F, G>::call_factory, (&*final(registry), asked, params), r),
    ensures
        asked@ == name@ ==> r is Some && call_ensures(factory, (params,), r->0),
        asked@ != name@ ==> (r is Some <==> old(registry).makers().dom().contains(asked@)),
        asked@ != name@ && r is Some ==> call_ensures(
            old(registry).makers()[asked@],
            (params,),
            r->0,
        ),
        final(registry).functions() == old(registry).functions(),
{
}

// ---------------------------------------------------------------------------
// Neurons
// ---------------------------------------------------------------------------
/// Values that come of each other: each through the function before it.
pub open spec fn passes<F: Fn(F32) -> F32>(fs: Seq<F>, values: Seq<F32>) -> bool {
    &&& values.len() == fs.len() + 1
    &&& forall|i: int|
        0 <= i < fs.len() ==> call_ensures(#[trigger] fs[i], (values[i],), values[i + 1])
}

proof fn lemma_passes<F: Fn(F32) -> F32>(fs: Seq<F>, i: int, x: F32, y: F32) -> (values: Seq<F32>)
    requires
        0 <= i <= fs.len(),
        chain_ensures(fs, i, x, y),
    ensures
        passes(fs.skip(i), values),
        values[0] == x,
        values.last() == y,
    decreases fs.len() - i,
{
    if i == fs.len() {
        seq![x]
    } else {
        let z = choose|z: F32| #[trigger]
            call_ensures(fs[i], (x,), z) && chain_ensures(fs, i + 1, z, y);
        let rest = lemma_passes(fs, i + 1, z, y);
        let values = seq![x] + rest;
        let all = fs.skip(i);
        assert forall|k: int| 0 <= k < all.len() implies call_ensures(
            #[trigger] all[k],
            (values[k],),
            values[k + 1],
        ) by {
            if k == 0 {
                assert(all[0] == fs[i]);
                assert(values[1] == rest[0]);
            } else {
                assert(all[k] == fs.skip(i + 1)[k - 1]);
                assert(values[k] == rest[k - 1]);
                assert(values[k + 1] == rest[k]);
            }
        }
        values
    }
}

/// What a neuron returns comes of what it is given through its stages, each
/// once and in order, and then through its output.
pub proof fn law_neurons_apply_their_stages<F: Fn(F32) -> F32>(
    stages: Vec<Stage<F>>,
    output: Stage<F>,
    neuron: Neuron<F>,
    x: F32,
    r: F32,
) -> (values: Seq<F32>)
    requires
        call_ensures(Neuron::<F>::new, (stages, output), neuron),
        call_ensures(Neuron::<F>::forward, (&neuron, x), r),
    ensures
        values.len() == stages@.len() + 2,
        values[0] == x,
        forall|i: int|
            0 <= i < stages@.len() ==> call_ensures(
                (#[trigger] stages@[i]).func(),
                (values[i],),
                values[i + 1],
            ),
        call_ensures(output.func(), (values[stages@.len() as int],), r),
{
    let fs = neuron.chain();
    let values = lemma_passes(fs, 0, x, r);
    assert(fs.skip(0) =~= fs);
    assert forall|i: int| 0 <= i < stages@.len() implies call_ensures(
        (#[trigger] stages@[i]).func(),
        (values[i],),
        values[i + 1],
    ) by {
        assert(fs[i] == funcs(stages@)[i]);
        assert(call_ensures(fs[i], (values[i],), values[i + 1]));
    }
    let n = stages@.len() as int;
    assert(fs[n] == output.func());
    assert(call_ensures(fs[n], (values[n],), values[n + 1]));
    values
}

/// The description at a place: those of the stages in order, and then that of
/// the output.
pub open spec fn described(def: &NeuronDef, i: int) -> StageDef {
    if i < def.stages@.len() {
        def.stages@[i]
    } else {
        def.output
    }
}

/// A neuron has a function for each description: for a name the one that is
/// registered, for a weight and an offset what is made of them, and for a
/// factory what it makes of the parameters.
pub proof fn law_neurons_do_what_is_described<
    F: Fn(F32) -> F32,
    G: Fn(&[F32]) -> Arc<F>,
    S: Fn(F32) -> F,
    B: Fn(F32) -> F,
>(
    def: &NeuronDef,
    registry: &FunctionRegistry<F, G>,
    scale: &S,
    bias: &B,
    r: Result<Neuron<F>, String>,
    i: int,
)
    requires
        call_ensures(NeuronDef::to_neuron::<F, G, S, B>, (def, registry, scale, bias), r),
        r is Ok,
        0 <= i <= def.stages@.len(),
    ensures
        r->Ok_0.chain().len() == def.stages@.len() + 1,
        ({
            let f = r->Ok_0.chain()[i];
            match described(def, i) {
                StageDef::Named(name) => registry.functions().dom().contains(name@) && f
                    == registry.functions()[name@].func(),
                StageDef::Scale { w } => call_ensures(*scale, (w,), f),
                StageDef::Bias { b } => call_ensures(*bias, (b,), f),
                StageDef::Factory { name, params } => {
                    &&& registry.makers().dom().contains(name@)
                    &&& exists|s: &[F32], g: Arc<F>|
                        s@ == params@ && *g == f && #[trigger] call_ensures(
                            registry.makers()[name@],
                            (s,),
                            g,
                        )
                },
            }
        }),
{
    assert(def.defs()[i] == described(def, i));
    lemma_none_missing(def.defs(), registry, 0, i);
}

proof fn lemma_none_missing<F, G>(
    defs: Seq<StageDef>,
    registry: &FunctionRegistry<F, G>,
    from: int,
    i: int,
)
    requires
        0 <= from <= i < defs.len(),
        first_missing(defs, registry, from) is None,
    ensures
        missing(defs[i], registry) is None,
    decreases i - from,
{
    if from < i {
        lemma_none_missing(defs, registry, from + 1, i);
    }
}

proof fn lemma_missing_at<F, G>(
    defs: Seq<StageDef>,
    registry: &FunctionRegistry<F, G>,
    from: int,
) -> (i: int)
    requires
        0 <= from <= defs.len(),
        first_missing(defs, registry, from) is Some,
    ensures
        from <= i < defs.len(),
        missing(defs[i], registry) == first_missing(defs, registry, from),
        forall|j: int| from <= j < i ==> missing(#[trigger] defs[j], registry) is None,
    decreases defs.len() - from,
{
    if missing(defs[from], registry) is Some {
        from
    } else {
        lemma_missing_at(defs, registry, from + 1)
    }
}

/// Whether a description names what the registry does not have.
pub open spec fn unknown<F, G>(d: StageDef, registry: &FunctionRegistry<F, G>) -> bool {
    match d {
        StageDef::Named(name) => !registry.functions().dom().contains(name@),
        StageDef::Factory { name, .. } => !registry.makers().dom().contains(name@),
        _ => false,
    }
}

/// There is no neuron exactly where a description names what the registry does
/// not have; the first such name is told, in quotes, and whether it is that of
/// a function or of a factory.
pub proof fn law_unknown_names_are_told<
    F: Fn(F32) -> F32,
    G: Fn(&[F32]) -> Arc<F>,
    S: Fn(F32) -> F,
    B: Fn(F32) -> F,
>(
    def: &NeuronDef,
    registry: &FunctionRegistry<F, G>,
    scale: &S,
    bias: &B,
    r: Result<Neuron<F>, String>,
    i: int,
)
    requires
        call_ensures(NeuronDef::to_neuron::<F, G, S, B>, (def, registry, scale, bias), r),
        0 <= i <= def.stages@.len(),
        unknown(described(def, i), registry),
        forall|j: int| 0 <= j < i ==> !unknown(#[trigger] described(def, j), registry),
    ensures
        r is Err,
        match described(def, i) {
            StageDef::Named(name) => r->Err_0@ == "unknown function '"@ + name@ + "'"@,
            StageDef::Factory { name, .. } => r->Err_0@ == "unknown factory '"@ + name@ + "'"@,
            _ => false,
        },
{
    let defs = def.defs();
    assert(defs[i] == described(def, i));
    if r is Ok {
        lemma_none_missing(defs, registry, 0, i);
    } else {
        let k = lemma_missing_at(defs, registry, 0);
        assert(defs[k] == described(def, k));
        if k > i {
            assert(missing(defs[i], registry) is None);
        }
    }
}

// ---------------------------------------------------------------------------
// Profilers
// ---------------------------------------------------------------------------
/// A profiler that heard of an event shows its time on top of what it showed,
/// and every other total as it was. One that heard of nothing shows nothing.
pub proof fn law_times_are_added(
    p: &mut InMemoryProfiler,
    name: &str,
    micros: u64,
    done: (),
    before: ProfilerSnapshot,
    after: ProfilerSnapshot,
    other: Seq<char>,
    fresh: InMemoryProfiler,
    nothing: ProfilerSnapshot,
)
    requires
        call_ensures(<InMemoryProfiler as Profiler>::record_event, (p, name, micros), done),
        call_ensures(<InMemoryProfiler as Profiler>::snapshot, (&*old(p),), before),
        call_ensures(<InMemoryProfiler as Profiler>::snapshot, (&*final(p),), after),
        before.events@.dom().contains(name@) ==> before.events@[name@] + micros <= u64::MAX,
        other != name@,
        call_ensures(InMemoryProfiler::new, (), fresh),
        call_ensures(<InMemoryProfiler as Profiler>::snapshot, (&fresh,), nothing),
    ensures
        after.events@.dom().contains(name@),
        after.events@[name@] == micros + if before.events@.dom().contains(name@) {
            before.events@[name@] as int
        } else {
            0
        },
        after.events@.dom().contains(other) <==> before.events@.dom().contains(other),
        after.events@.dom().contains(other) ==> after.events@[other] == before.events@[other],
        nothing.events@.dom() == Set::<Seq<char>>::empty(),
{
}

/// What one copy of a shared profiler hears of shows in every copy, and in no
/// other profiler.
pub proof fn law_shared_times_are_added(
    all: &mut Profilers,
    mine: &SharedProfiler,
    name: &str,
    micros: u64,
    done: (),
    theirs: &SharedProfiler,
    before: ProfilerSnapshot,
    after: ProfilerSnapshot,
)
    requires
        mine@ < old(all)@.len(),
        theirs@ < old(all)@.len(),
        call_ensures(SharedProfiler::record_event, (mine, all, name, micros), done),
        call_ensures(SharedProfiler::snapshot, (theirs, &*old(all)), before),
        call_ensures(SharedProfiler::snapshot, (theirs, &*final(all)), after),
        before.events@.dom().contains(name@) ==> before.events@[name@] + micros <= u64::MAX,
    ensures
        theirs@ != mine@ ==> after.events@ == before.events@,
        theirs@ == mine@ ==> {
            &&& after.events@.dom().contains(name@)
            &&& after.events@[name@] == micros + if before.events@.dom().contains(name@) {
                before.events@[name@] as int
            } else {
                0
            }
            &&& after.events@.remove(name@) == before.events@.remove(name@)
        },
{
    if theirs@ == mine@ {
        assert(after.events@.remove(name@) =~= before.events@.remove(name@));
    }
}

/// A context has the profiler that it is made with, or none.
pub proof fn law_contexts(c: ExecutionContext, p: SharedProfiler, d: ExecutionContext)
    requires
        call_ensures(ExecutionContext::new, (), c),
        call_ensures(ExecutionContext::with_profiler, (p,), d),
    ensures
        c.profiler is None,
        d.profiler == Some(p),
        !c.debug_mode && !d.debug_mode,
        c.artifact_provenance@.dom() == Set::<Seq<char>>::empty(),
        d.artifact_provenance@.dom() == Set::<Seq<char>>::empty(),
{
}

} // verus!
