//! A cache of compiled kernels on disk, by fingerprint.
//!
//! The cache decides; a host does the file work. A host asks for the next
//! action, performs it, and says whether it succeeded.

use crate::strmap::{entries_map, keys_distinct, StrMap};
use crate::text::{join2, join3};
use vstd::prelude::*;

verus! {

/// What is known of an artifact.
#[derive(Debug)]
pub struct ArtifactMeta {
    pub fingerprint: String,
    pub size_bytes: u64,
}

/// An [`ArtifactMeta`], with the fingerprint by its characters.
#[verifier::ext_equal]
pub struct MetaView {
    pub fingerprint: Seq<char>,
    pub size_bytes: u64,
}

impl View for ArtifactMeta {
    type V = MetaView;

    open spec fn view(&self) -> MetaView {
        MetaView { fingerprint: self.fingerprint@, size_bytes: self.size_bytes }
    }
}

impl Clone for ArtifactMeta {
    fn clone(&self) -> (r: Self)
        ensures
            r@ == self@,
    {
        ArtifactMeta {
            fingerprint: self.fingerprint.as_str().to_owned(),
            size_bytes: self.size_bytes,
        }
    }
}

/// The artifacts under a directory.
pub struct KernelCache {
    root: String,
    index: StrMap<ArtifactMeta>,
}

// ---------------------------------------------------------------------------
// Paths
// ---------------------------------------------------------------------------
/// A path inside a directory; an absolute path stands for itself.
pub open spec fn joined_path(root: Seq<char>, name: Seq<char>) -> Seq<char> {
    if root.len() == 0 || (name.len() > 0 && name[0] == '/') {
        name
    } else if root.last() == '/' {
        root + name
    } else {
        root + "/"@ + name
    }
}

/// The name of the file of an artifact.
pub open spec fn artifact_name(fingerprint: Seq<char>) -> Seq<char> {
    fingerprint + ".bin"@
}

/// The path that an artifact is written to before it has its own: the
/// extension is replaced. A name that is all extension keeps it.
pub open spec fn temp_of(path: Seq<char>) -> Seq<char> {
    let stem = path.take(path.len() - 4);
    if stem.len() == 0 || stem.last() == '/' {
        path + ".tmp"@
    } else {
        stem + ".tmp"@
    }
}

/// The path of an artifact.
pub open spec fn artifact_at(root: Seq<char>, fingerprint: Seq<char>) -> Seq<char> {
    joined_path(root, artifact_name(fingerprint))
}

/// The path of the index.
pub open spec fn index_at(root: Seq<char>) -> Seq<char> {
    joined_path(root, "index.json"@)
}

/// The path that the index is written to before it has its own.
pub open spec fn index_temp_at(root: Seq<char>) -> Seq<char> {
    joined_path(root, "index.tmp"@)
}

fn join_path(root: &str, name: &str) -> (r: String)
    ensures
        r@ == joined_path(root@, name@),
{
    let n: usize = root.unicode_len();
    if n == 0 || (name.unicode_len() > 0 && name.get_char(0) == '/') {
        name.to_owned()
    } else if root.get_char(n - 1) == '/' {
        join2(root, name)
    } else {
        join3(root, "/", name)
    }
}

fn temp_path(path: &str) -> (r: String)
    requires
        path@.len() >= 4,
    ensures
        r@ == temp_of(path@),
{
    let n: usize = path.unicode_len() - 4;
    if n == 0 || path.get_char(n - 1) == '/' {
        join2(path, ".tmp")
    } else {
        let stem = path.substring_char(0, n);
        assert(stem@ =~= path@.take(n as int));
        join2(stem, ".tmp")
    }
}

// ---------------------------------------------------------------------------
// Writing an artifact
// ---------------------------------------------------------------------------
/// Why an artifact is not in the cache, or its entry not on disk.
#[derive(Clone, Copy, Debug, PartialEq, Eq, Structural)]
pub enum CacheError {
    WriteTemp,
    Rename,
    WriteTempIndex,
    RenameIndex,
}

impl CacheError {
    /// The text for an error.
    pub open spec fn text(self) -> Seq<char> {
        match self {
            CacheError::WriteTemp => "write temp artifact"@,
            CacheError::Rename => "atomic rename"@,
            CacheError::WriteTempIndex => "write temp index"@,
            CacheError::RenameIndex => "atomic rename index"@,
        }
    }

    /// Says what failed.
    pub fn message(&self) -> (r: &'static str)
        ensures
            r@ == self.text(),
    {
        match *self {
            CacheError::WriteTemp => "write temp artifact",
            CacheError::Rename => "atomic rename",
            CacheError::WriteTempIndex => "write temp index",
            CacheError::RenameIndex => "atomic rename index",
        }
    }
}

/// How far writing an artifact has come.
#[derive(Clone, Copy, Debug, PartialEq, Eq)]
pub enum WriteStage {
    Begun,
    WritingTemp,
    Renaming,
    WritingIndex,
    RenamingIndex,
    Ended(Result<(), CacheError>),
}

/// The writing of an artifact.
pub struct ArtifactWrite {
    fingerprint: String,
    size_bytes: u64,
    stage: WriteStage,
}

/// What a host is to do next.
#[derive(Debug, PartialEq, Eq)]
pub enum CacheAction {
    /// Write the bytes of the artifact to a file.
    WriteArtifact { path: String },
    /// Write the entries of the index to a file.
    WriteIndex { path: String },
    /// Rename a file.
    Rename { from: String, to: String },
    /// Nothing: this is what came of it.
    End(Result<(), CacheError>),
}

/// A [`CacheAction`], with the paths by their characters.
pub enum ActionView {
    WriteArtifact { path: Seq<char> },
    WriteIndex { path: Seq<char> },
    Rename { from: Seq<char>, to: Seq<char> },
    End { outcome: Result<(), CacheError> },
}

impl View for CacheAction {
    type V = ActionView;

    open spec fn view(&self) -> ActionView {
        match self {
            CacheAction::WriteArtifact { path } => ActionView::WriteArtifact { path: path@ },
            CacheAction::WriteIndex { path } => ActionView::WriteIndex { path: path@ },
            CacheAction::Rename { from, to } => ActionView::Rename { from: from@, to: to@ },
            CacheAction::End(outcome) => ActionView::End { outcome: *outcome },
        }
    }
}

/// The stage after one whose action succeeded or failed.
pub open spec fn next_stage(stage: WriteStage, ok: bool) -> WriteStage {
    match stage {
        WriteStage::Begun => WriteStage::WritingTemp,
        WriteStage::WritingTemp => if ok {
            WriteStage::Renaming
        } else {
            WriteStage::Ended(Err(CacheError::WriteTemp))
        },
        WriteStage::Renaming => if ok {
            WriteStage::WritingIndex
        } else {
            WriteStage::Ended(Err(CacheError::Rename))
        },
        WriteStage::WritingIndex => if ok {
            WriteStage::RenamingIndex
        } else {
            WriteStage::Ended(Err(CacheError::WriteTempIndex))
        },
        WriteStage::RenamingIndex => if ok {
            WriteStage::Ended(Ok(()))
        } else {
            WriteStage::Ended(Err(CacheError::RenameIndex))
        },
        WriteStage::Ended(outcome) => stage,
    }
}

/// The action of a stage.
pub open spec fn stage_action(
    root: Seq<char>,
    fingerprint: Seq<char>,
    stage: WriteStage,
) -> ActionView {
    let target = artifact_at(root, fingerprint);
    match stage {
        WriteStage::Begun => ActionView::WriteArtifact { path: temp_of(target) },
        WriteStage::WritingTemp => ActionView::WriteArtifact { path: temp_of(target) },
        WriteStage::Renaming => ActionView::Rename { from: temp_of(target), to: target },
        WriteStage::WritingIndex => ActionView::WriteIndex { path: index_temp_at(root) },
        WriteStage::RenamingIndex => ActionView::Rename {
            from: index_temp_at(root),
            to: index_at(root),
        },
        WriteStage::Ended(outcome) => ActionView::End { outcome },
    }
}

/// The index after an action of a stage succeeded or failed: the artifact is
/// in it once its file has its own name.
pub open spec fn next_index(
    index: Map<Seq<char>, MetaView>,
    fingerprint: Seq<char>,
    size_bytes: u64,
    stage: WriteStage,
    ok: bool,
) -> Map<Seq<char>, MetaView> {
    if stage == WriteStage::Renaming && ok {
        index.insert(fingerprint, MetaView { fingerprint, size_bytes })
    } else {
        index
    }
}

impl ArtifactWrite {
    /// The fingerprint of the artifact.
    pub closed spec fn spec_fingerprint(&self) -> Seq<char> {
        self.fingerprint@
    }

    /// The size of the artifact.
    pub closed spec fn spec_size(&self) -> u64 {
        self.size_bytes
    }

    /// How far it has come.
    pub closed spec fn spec_stage(&self) -> WriteStage {
        self.stage
    }

    /// Begins to write an artifact of a size.
    pub fn new(fingerprint: &str, size_bytes: u64) -> (r: Self)
        ensures
            r.spec_fingerprint() == fingerprint@,
            r.spec_size() == size_bytes,
            r.spec_stage() == WriteStage::Begun,
    {
        ArtifactWrite { fingerprint: fingerprint.to_owned(), size_bytes, stage: WriteStage::Begun }
    }
}

/// The metadata in a map, by their views.
pub open spec fn metas_view(m: Map<Seq<char>, ArtifactMeta>) -> Map<Seq<char>, MetaView> {
    m.map_values(|v: ArtifactMeta| v@)
}

/// Metadata by fingerprint in a list, by their views.
pub open spec fn entry_views(s: Seq<(String, ArtifactMeta)>) -> Seq<(Seq<char>, MetaView)> {
    Seq::new(s.len(), |i: int| (s[i].0@, s[i].1@))
}

impl KernelCache {
    /// The directory.
    pub closed spec fn spec_root(&self) -> Seq<char> {
        self.root@
    }

    /// The metadata by fingerprint.
    pub closed spec fn spec_index(&self) -> Map<Seq<char>, MetaView> {
        metas_view(self.index@)
    }

    /// A cache under a directory, with nothing in its index.
    pub fn new(root: &str) -> (r: Self)
        ensures
            r.spec_root() == root@,
            r.spec_index() == Map::<Seq<char>, MetaView>::empty(),
    {
        let r = KernelCache { root: root.to_owned(), index: StrMap::new() };
        assert(r.spec_index() =~= Map::<Seq<char>, MetaView>::empty());
        r
    }

    /// The path of an artifact.
    pub fn artifact_path(&self, fingerprint: &str) -> (r: String)
        ensures
            r@ == artifact_at(self.spec_root(), fingerprint@),
    {
        join_path(self.root.as_str(), join2(fingerprint, ".bin").as_str())
    }

    /// The path of the index.
    pub fn index_path(&self) -> (r: String)
        ensures
            r@ == index_at(self.spec_root()),
    {
        join_path(self.root.as_str(), "index.json")
    }

    /// The metadata of an artifact, if it is in the index.
    pub fn lookup(&self, fingerprint: &str) -> (r: Option<&ArtifactMeta>)
        ensures
            match r {
                Some(m) => self.spec_index().dom().contains(fingerprint@) && m@
                    == self.spec_index()[fingerprint@],
                None => !self.spec_index().dom().contains(fingerprint@),
            },
    {
        self.index.get(fingerprint)
    }

    /// Takes note of what came of the last action of writing an artifact, and
    /// says what to do next. The artifact is in the index once its file has
    /// its own name.
    pub fn write_artifact(&mut self, write: &mut ArtifactWrite, ok: bool) -> (r: CacheAction)
        ensures
            final(write).spec_fingerprint() == old(write).spec_fingerprint(),
            final(write).spec_size() == old(write).spec_size(),
            final(write).spec_stage() == next_stage(old(write).spec_stage(), ok),
            r@ == stage_action(
                old(self).spec_root(),
                old(write).spec_fingerprint(),
                final(write).spec_stage(),
            ),
            final(self).spec_root() == old(self).spec_root(),
            final(self).spec_index() == next_index(
                old(self).spec_index(),
                old(write).spec_fingerprint(),
                old(write).spec_size(),
                old(write).spec_stage(),
                ok,
            ),
    {
        let before = write.stage;
        write.stage = match before {
            WriteStage::Begun => WriteStage::WritingTemp,
            WriteStage::WritingTemp => if ok {
                WriteStage::Renaming
            } else {
                WriteStage::Ended(Err(CacheError::WriteTemp))
            },
            WriteStage::Renaming => if ok {
                WriteStage::WritingIndex
            } else {
                WriteStage::Ended(Err(CacheError::Rename))
            },
            WriteStage::WritingIndex => if ok {
                WriteStage::RenamingIndex
            } else {
                WriteStage::Ended(Err(CacheError::WriteTempIndex))
            },
            WriteStage::RenamingIndex => if ok {
                WriteStage::Ended(Ok(()))
            } else {
                WriteStage::Ended(Err(CacheError::RenameIndex))
            },
            WriteStage::Ended(outcome) => WriteStage::Ended(outcome),
        };
        let target = self.artifact_path(write.fingerprint.as_str());
        proof {
            reveal_strlit(".bin");
        }
        match write.stage {
            WriteStage::Begun | WriteStage::WritingTemp => CacheAction::WriteArtifact {
                path: temp_path(target.as_str()),
            },
            WriteStage::Renaming => CacheAction::Rename {
                from: temp_path(target.as_str()),
                to: target,
            },
            WriteStage::WritingIndex => {
                if matches!(before, WriteStage::Renaming) {
                    let meta = ArtifactMeta {
                        fingerprint: write.fingerprint.as_str().to_owned(),
                        size_bytes: write.size_bytes,
                    };
                    self.index.insert(write.fingerprint.as_str(), meta);
                    assert(self.spec_index() =~= old(self).spec_index().insert(
                        write.spec_fingerprint(),
                        meta@,
                    ));
                }
                CacheAction::WriteIndex { path: self.index_temp_path() }
            },
            WriteStage::RenamingIndex => CacheAction::Rename {
                from: self.index_temp_path(),
                to: self.index_path(),
            },
            WriteStage::Ended(outcome) => CacheAction::End(outcome),
        }
    }

    fn index_temp_path(&self) -> (r: String)
        ensures
            r@ == index_temp_at(self.spec_root()),
    {
        join_path(self.root.as_str(), "index.tmp")
    }

    /// The entries of the index, to be kept on disk.
    pub fn index_entries(&self) -> (r: Vec<(String, ArtifactMeta)>)
        ensures
            entries_map(entry_views(r@)) == self.spec_index(),
            keys_distinct(entry_views(r@)),
    {
        let n: usize = self.index.len();
        let mut out: Vec<(String, ArtifactMeta)> = Vec::new();
        let mut i: usize = 0;
        let ghost list = self.index.list();
        while i < n
            invariant
                i <= n,
                n == list.len(),
                list == self.index.list(),
                entry_views(out@).len() == i,
                forall|j: int|
                    0 <= j < i ==> #[trigger] entry_views(out@)[j] == (list[j].0, list[j].1@),
            decreases n - i,
        {
            let ghost before = out@;
            let entry = (self.index.key_at(i).to_owned(), self.index.value_at(i).clone());
            out.push(entry);
            assert(entry_views(out@) =~= entry_views(before).push((entry.0@, entry.1@)));
            i = i + 1;
        }
        proof {
            lemma_views_map(list, entry_views(out@));
            assert forall|a: int, b: int| 0 <= a < b < list.len() implies (
            #[trigger] entry_views(out@)[a]).0 != (#[trigger] entry_views(out@)[b]).0 by {
                assert(list[a].0 != list[b].0);
            }
        }
        out
    }

    /// Takes the index over from entries that were kept on disk; of two with
    /// one fingerprint the later counts.
    pub fn load_index(&mut self, entries: Vec<(String, ArtifactMeta)>)
        ensures
            final(self).spec_index() == entries_map(entry_views(entries@)),
            final(self).spec_root() == old(self).spec_root(),
    {
        let ghost views = entry_views(entries@);
        let mut index: StrMap<ArtifactMeta> = StrMap::new();
        let mut i: usize = 0;
        assert(views.take(0) =~= Seq::empty());
        assert(metas_view(index@) =~= entries_map(views.take(0)));
        while i < entries.len()
            invariant
                i <= entries@.len(),
                views == entry_views(entries@),
                metas_view(index@) == entries_map(views.take(i as int)),
            decreases entries@.len() - i,
        {
            let ghost before = index@;
            let meta = entries[i].1.clone();
            index.insert(entries[i].0.as_str(), meta);
            assert(metas_view(index@) =~= metas_view(before).insert(
                entries@[i as int].0@,
                meta@,
            ));
            assert(views.take(i + 1).drop_last() =~= views.take(i as int));
            i = i + 1;
        }
        assert(views.take(i as int) =~= views);
        self.index = index;
    }
}

proof fn lemma_views_map(
    list: Seq<(Seq<char>, ArtifactMeta)>,
    views: Seq<(Seq<char>, MetaView)>,
)
    requires
        views.len() == list.len(),
        forall|j: int| 0 <= j < list.len() ==> #[trigger] views[j] == (list[j].0, list[j].1@),
    ensures
        entries_map(views) == metas_view(entries_map(list)),
    decreases list.len(),
{
    if list.len() == 0 {
        assert(entries_map(views) =~= metas_view(entries_map(list)));
    } else {
        let a = list.drop_last();
        let b = views.drop_last();
        assert forall|j: int| 0 <= j < a.len() implies #[trigger] b[j] == (a[j].0, a[j].1@) by {
            assert(b[j] == views[j]);
        }
        lemma_views_map(a, b);
        assert(views[views.len() - 1] == (list.last().0, list.last().1@));
        assert(entries_map(views) =~= metas_view(entries_map(list)));
    }
}

} // verus!
