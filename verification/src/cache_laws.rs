//! What holds of a cache on disk.

use crate::kernel_cache::{
    artifact_at, artifact_name, index_at, index_temp_at, joined_path, next_index, next_stage,
    stage_action, temp_of, ActionView, CacheError, MetaView, WriteStage,
};
use crate::strmap::{
    entries_map, keys_distinct, lemma_entries_map_at, lemma_entries_map_dom,
};
use vstd::prelude::*;

verus! {

/// Files by path, after an action that succeeded.
pub open spec fn performed(
    disk: Map<Seq<char>, Seq<u8>>,
    action: ActionView,
    bytes: Seq<u8>,
    index: Seq<u8>,
) -> Map<Seq<char>, Seq<u8>> {
    match action {
        ActionView::WriteArtifact { path } => disk.insert(path, bytes),
        ActionView::WriteIndex { path } => disk.insert(path, index),
        ActionView::Rename { from, to } => if disk.dom().contains(from) {
            disk.remove(from).insert(to, disk[from])
        } else {
            disk
        },
        ActionView::End { .. } => disk,
    }
}

/// Files by path, after the first `n` actions of writing an artifact.
pub open spec fn disk_after(
    disk: Map<Seq<char>, Seq<u8>>,
    root: Seq<char>,
    fingerprint: Seq<char>,
    bytes: Seq<u8>,
    index: Seq<u8>,
    n: nat,
) -> Map<Seq<char>, Seq<u8>>
    decreases n,
{
    if n == 0 {
        disk
    } else {
        performed(
            disk_after(disk, root, fingerprint, bytes, index, (n - 1) as nat),
            stage_action(root, fingerprint, stage_after(n)),
            bytes,
            index,
        )
    }
}

/// The stage of writing an artifact after `n` actions were asked for, with
/// none having failed.
pub open spec fn stage_after(n: nat) -> WriteStage
    decreases n,
{
    if n == 0 {
        WriteStage::Begun
    } else {
        next_stage(stage_after((n - 1) as nat), true)
    }
}

/// The index after `n` actions were asked for, with none having failed.
pub open spec fn index_after(
    index: Map<Seq<char>, MetaView>,
    fingerprint: Seq<char>,
    size_bytes: u64,
    n: nat,
) -> Map<Seq<char>, MetaView>
    decreases n,
{
    if n == 0 {
        index
    } else {
        next_index(
            index_after(index, fingerprint, size_bytes, (n - 1) as nat),
            fingerprint,
            size_bytes,
            stage_after((n - 1) as nat),
            true,
        )
    }
}

/// The last four characters.
spec fn ending(s: Seq<char>) -> Seq<char> {
    s.skip(s.len() - 4)
}

proof fn lemma_joined_ending(root: Seq<char>, name: Seq<char>)
    requires
        name.len() >= 4,
    ensures
        joined_path(root, name).len() >= 4,
        ending(joined_path(root, name)) == ending(name),
{
    assert(ending(joined_path(root, name)) =~= ending(name));
}

proof fn lemma_endings(root: Seq<char>, fingerprint: Seq<char>)
    ensures
        ending(artifact_at(root, fingerprint)) == ".bin"@,
        ending(temp_of(artifact_at(root, fingerprint))) == ".tmp"@,
        ending(index_at(root)) == "json"@,
        ending(index_temp_at(root)) == ".tmp"@,
        ".bin"@ != ".tmp"@,
        ".bin"@ != "json"@,
        "json"@ != ".tmp"@,
{
    reveal_strlit(".bin");
    reveal_strlit(".tmp");
    reveal_strlit("json");
    reveal_strlit("index.json");
    reveal_strlit("index.tmp");
    let name = artifact_name(fingerprint);
    let target = artifact_at(root, fingerprint);
    lemma_joined_ending(root, name);
    lemma_joined_ending(root, "index.json"@);
    lemma_joined_ending(root, "index.tmp"@);
    assert(ending(name) =~= ".bin"@);
    assert(ending(temp_of(target)) =~= ".tmp"@);
    assert(ending("index.json"@) =~= "json"@);
    assert(ending("index.tmp"@) =~= ".tmp"@);
    assert(".bin"@[1] != ".tmp"@[1]);
    assert(".bin"@[0] != "json"@[0]);
    assert("json"@[0] != ".tmp"@[0]);
}

proof fn lemma_stages()
    ensures
        stage_after(1) == WriteStage::WritingTemp,
        stage_after(2) == WriteStage::Renaming,
        stage_after(3) == WriteStage::WritingIndex,
        stage_after(4) == WriteStage::RenamingIndex,
        stage_after(5) == WriteStage::Ended(Ok(())),
{
    reveal_with_fuel(stage_after, 6);
}

/// What was written is what is read: once an artifact has been renamed, and
/// from then on, its file holds its bytes; in the end the file of the index
/// holds the index, and every file other than these two and the temporary
/// ones is as it was.
pub proof fn law_written_is_read(
    disk: Map<Seq<char>, Seq<u8>>,
    root: Seq<char>,
    fingerprint: Seq<char>,
    bytes: Seq<u8>,
    index: Seq<u8>,
)
    ensures
        ({
            let target = artifact_at(root, fingerprint);
            let renamed = disk_after(disk, root, fingerprint, bytes, index, 2);
            let done = disk_after(disk, root, fingerprint, bytes, index, 4);
            &&& stage_after(5) == WriteStage::Ended(Ok(()))
            &&& renamed.dom().contains(target) && renamed[target] == bytes
            &&& done.dom().contains(target) && done[target] == bytes
            &&& done.dom().contains(index_at(root)) && done[index_at(root)] == index
            &&& forall|p: Seq<char>|
                p != target && p != temp_of(target) && p != index_at(root) && p != index_temp_at(
                    root,
                ) ==> {
                    &&& #[trigger] done.dom().contains(p) == disk.dom().contains(p)
                    &&& disk.dom().contains(p) ==> done[p] == disk[p]
                }
        }),
{
    lemma_endings(root, fingerprint);
    lemma_stages();
    let target = artifact_at(root, fingerprint);
    let d0 = disk_after(disk, root, fingerprint, bytes, index, 0);
    let d1 = disk_after(disk, root, fingerprint, bytes, index, 1);
    let d2 = disk_after(disk, root, fingerprint, bytes, index, 2);
    let d3 = disk_after(disk, root, fingerprint, bytes, index, 3);
    let d4 = disk_after(disk, root, fingerprint, bytes, index, 4);
    assert(d0 == disk);
    assert(d1 == d0.insert(temp_of(target), bytes));
    assert(d2 == d1.remove(temp_of(target)).insert(target, bytes));
    assert(d3 == d2.insert(index_temp_at(root), index));
    assert(d4 == d3.remove(index_temp_at(root)).insert(index_at(root), index));
}

/// What was written is found: as long as the file of an artifact does not have
/// its own name, the index is as it was; from then on it has the artifact with
/// its size, and every other entry as it was.
pub proof fn law_written_is_found(
    index: Map<Seq<char>, MetaView>,
    fingerprint: Seq<char>,
    size_bytes: u64,
)
    ensures
        index_after(index, fingerprint, size_bytes, 1) == index,
        index_after(index, fingerprint, size_bytes, 2) == index,
        ({
            let entry = MetaView { fingerprint, size_bytes };
            &&& index_after(index, fingerprint, size_bytes, 3) == index.insert(fingerprint, entry)
            &&& index_after(index, fingerprint, size_bytes, 4) == index.insert(fingerprint, entry)
            &&& index_after(index, fingerprint, size_bytes, 5) == index.insert(fingerprint, entry)
        }),
{
    lemma_stages();
    reveal_with_fuel(index_after, 6);
}

/// An action that fails leaves the index as it was.
pub proof fn law_failures_leave_the_index(
    index: Map<Seq<char>, MetaView>,
    fingerprint: Seq<char>,
    size_bytes: u64,
    stage: WriteStage,
)
    ensures
        next_index(index, fingerprint, size_bytes, stage, false) == index,
{
}

/// Every entry of `s` is one of `t`.
pub open spec fn entries_among(
    s: Seq<(Seq<char>, MetaView)>,
    t: Seq<(Seq<char>, MetaView)>,
) -> bool {
    forall|i: int| 0 <= i < s.len() ==> t.contains(#[trigger] s[i])
}

spec fn index_at_key(
    s: Seq<(Seq<char>, MetaView)>,
    t: Seq<(Seq<char>, MetaView)>,
    k: Seq<char>,
) -> bool {
    entries_map(s).dom().contains(k) ==> entries_map(t).dom().contains(k) && entries_map(t)[k]
        == entries_map(s)[k]
}

proof fn lemma_entry_kept(
    s: Seq<(Seq<char>, MetaView)>,
    t: Seq<(Seq<char>, MetaView)>,
    k: Seq<char>,
)
    requires
        keys_distinct(s),
        keys_distinct(t),
        entries_among(s, t),
    ensures
        index_at_key(s, t, k),
{
    lemma_entries_map_dom(s, k);
    if entries_map(s).dom().contains(k) {
        let i = choose|i: int| 0 <= i < s.len() && (#[trigger] s[i]).0 == k;
        lemma_entries_map_at(s, i);
        assert(t.contains(s[i]));
        let j = choose|j: int| 0 <= j < t.len() && t[j] == s[i];
        lemma_entries_map_at(t, j);
    }
}

/// The index survives on disk: entries that were kept, in whatever order they
/// come back, stand for the index they were taken from.
pub proof fn law_index_survives_in_any_order(
    kept: Seq<(Seq<char>, MetaView)>,
    back: Seq<(Seq<char>, MetaView)>,
)
    requires
        keys_distinct(kept),
        keys_distinct(back),
        entries_among(kept, back),
        entries_among(back, kept),
    ensures
        entries_map(back) == entries_map(kept),
{
    let m = entries_map(kept);
    let n = entries_map(back);
    assert forall|k: Seq<char>| index_at_key(kept, back, k) && index_at_key(back, kept, k) by {
        lemma_entry_kept(kept, back, k);
        lemma_entry_kept(back, kept, k);
    }
    assert forall|k: Seq<char>| m.dom().contains(k) == n.dom().contains(k) by {
        assert(index_at_key(kept, back, k) && index_at_key(back, kept, k));
    }
    assert forall|k: Seq<char>| m.dom().contains(k) implies m[k] == n[k] by {
        assert(index_at_key(kept, back, k));
    }
    assert(n =~= m);
}

/// Until an artifact has been renamed, whatever has come to be in the
/// temporary file, an artifact that was there before is as it was.
pub proof fn law_unfinished_writes_do_not_show(
    disk: Map<Seq<char>, Seq<u8>>,
    root: Seq<char>,
    fingerprint: Seq<char>,
    part: Seq<u8>,
)
    ensures
        ({
            let target = artifact_at(root, fingerprint);
            let torn = disk.insert(temp_of(target), part);
            &&& torn.dom().contains(target) == disk.dom().contains(target)
            &&& disk.dom().contains(target) ==> torn[target] == disk[target]
        }),
{
    lemma_endings(root, fingerprint);
}

proof fn lemma_joined_injective(root: Seq<char>, a: Seq<char>, b: Seq<char>)
    requires
        joined_path(root, a) == joined_path(root, b),
        a.len() > 0,
        b.len() > 0,
        a[0] != '/',
        b[0] != '/',
    ensures
        a == b,
{
    if root.len() > 0 {
        let head = if root.last() == '/' {
            root
        } else {
            root + "/"@
        };
        let p = joined_path(root, a);
        assert(p == head + a);
        assert(p == head + b);
        assert(a =~= p.skip(head.len() as int));
        assert(b =~= p.skip(head.len() as int));
    }
}

/// Artifacts with different fingerprints that are no absolute paths have
/// files of their own, and writing one leaves the file of the other as it is.
pub proof fn law_artifacts_are_kept_apart(
    disk: Map<Seq<char>, Seq<u8>>,
    root: Seq<char>,
    a: Seq<char>,
    b: Seq<char>,
    bytes: Seq<u8>,
    index: Seq<u8>,
)
    requires
        a != b,
        a.len() > 0 ==> a[0] != '/',
        b.len() > 0 ==> b[0] != '/',
    ensures
        artifact_at(root, a) != artifact_at(root, b),
        ({
            let done = disk_after(disk, root, a, bytes, index, 4);
            let other = artifact_at(root, b);
            &&& done.dom().contains(other) == disk.dom().contains(other)
            &&& disk.dom().contains(other) ==> done[other] == disk[other]
        }),
{
    reveal_strlit(".bin");
    let x = artifact_name(a);
    let y = artifact_name(b);
    if artifact_at(root, a) == artifact_at(root, b) {
        lemma_joined_injective(root, x, y);
        assert(a =~= x.take(x.len() - 4));
        assert(b =~= y.take(y.len() - 4));
    }
    lemma_endings(root, a);
    lemma_endings(root, b);
    law_written_is_read(disk, root, a, bytes, index);
    let done = disk_after(disk, root, a, bytes, index, 4);
    let other = artifact_at(root, b);
    assert(other != temp_of(artifact_at(root, a)));
    assert(other != index_at(root));
    assert(other != index_temp_at(root));
    assert(done.dom().contains(other) == disk.dom().contains(other));
}

/// Writing an artifact fails with the first action that fails, and then is
/// over.
pub proof fn law_first_failure_ends_the_write(ok: bool, outcome: Result<(), CacheError>)
    ensures
        next_stage(WriteStage::WritingTemp, false) == WriteStage::Ended(Err(CacheError::WriteTemp)),
        next_stage(WriteStage::Renaming, false) == WriteStage::Ended(Err(CacheError::Rename)),
        next_stage(WriteStage::WritingIndex, false) == WriteStage::Ended(
            Err(CacheError::WriteTempIndex),
        ),
        next_stage(WriteStage::RenamingIndex, false) == WriteStage::Ended(
            Err(CacheError::RenameIndex),
        ),
        next_stage(WriteStage::Ended(outcome), ok) == WriteStage::Ended(outcome),
{
}

} // verus!
