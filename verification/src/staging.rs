//! Staging buffers: which are kept, which are used again, and how new ones
//! are made.

use std::collections::BTreeMap;
use vstd::prelude::*;

verus! {

// ---------------------------------------------------------------------------
// Usages
// ---------------------------------------------------------------------------
/// What a buffer may be used for.
#[derive(Clone, Copy, Debug, PartialEq, Eq, Structural)]
pub struct Usage {
    pub map_read: bool,
    pub copy_src: bool,
    pub copy_dst: bool,
    pub storage: bool,
}

impl Usage {
    /// What either may be used for.
    pub open spec fn spec_union(self, other: Usage) -> Usage {
        Usage {
            map_read: self.map_read || other.map_read,
            copy_src: self.copy_src || other.copy_src,
            copy_dst: self.copy_dst || other.copy_dst,
            storage: self.storage || other.storage,
        }
    }

    /// Whether it allows all that another does.
    pub open spec fn spec_contains(self, other: Usage) -> bool {
        &&& other.map_read ==> self.map_read
        &&& other.copy_src ==> self.copy_src
        &&& other.copy_dst ==> self.copy_dst
        &&& other.storage ==> self.storage
    }

    /// What either may be used for.
    pub fn union(self, other: Usage) -> (r: Usage)
        ensures
            r == self.spec_union(other),
    {
        Usage {
            map_read: self.map_read || other.map_read,
            copy_src: self.copy_src || other.copy_src,
            copy_dst: self.copy_dst || other.copy_dst,
            storage: self.storage || other.storage,
        }
    }

    /// Whether it allows all that another does.
    pub fn contains(self, other: Usage) -> (r: bool)
        ensures
            r == self.spec_contains(other),
    {
        (self.map_read || !other.map_read) && (self.copy_src || !other.copy_src) && (self.copy_dst
            || !other.copy_dst) && (self.storage || !other.storage)
    }
}

/// To be copied from and to.
pub open spec fn spec_copied() -> Usage {
    Usage { map_read: false, copy_src: true, copy_dst: true, storage: false }
}

/// To be copied from and to.
pub fn copied() -> (r: Usage)
    ensures
        r == spec_copied(),
{
    Usage { map_read: false, copy_src: true, copy_dst: true, storage: false }
}

/// What a staging buffer must allow: for writing to a device, to be written
/// and then copied from; for reading from one, to be copied to and then
/// mapped.
pub open spec fn needed(for_write: bool) -> Usage {
    if for_write {
        spec_copied()
    } else {
        Usage { map_read: true, copy_src: false, copy_dst: true, storage: false }
    }
}

fn needed_usage(for_write: bool) -> (r: Usage)
    ensures
        r == needed(for_write),
{
    if for_write {
        copied()
    } else {
        Usage { map_read: true, copy_src: false, copy_dst: true, storage: false }
    }
}

// ---------------------------------------------------------------------------
// Sizes
// ---------------------------------------------------------------------------
/// The powers of two.
pub open spec fn is_power_of_two(n: int) -> bool
    decreases n,
{
    n == 1 || (n > 1 && n % 2 == 0 && is_power_of_two(n / 2))
}

/// The size of the buffers that a buffer of a size is kept with: the least
/// power of two that is not less.
pub fn bucket_for_size(size: u64) -> (r: u64)
    requires
        size <= 0x8000_0000_0000_0000,
    ensures
        is_power_of_two(r as int),
        r >= size,
        r > 1 ==> r / 2 < size,
{
    let mut bucket: u64 = 1;
    while bucket < size
        invariant
            1 <= bucket <= 0x8000_0000_0000_0000,
            size <= 0x8000_0000_0000_0000,
            is_power_of_two(bucket as int),
            bucket > 1 ==> bucket / 2 < size,
            bucket < 0x8000_0000_0000_0000 ==> bucket <= 0x4000_0000_0000_0000,
        decreases 0x8000_0000_0000_0000 - bucket,
    {
        proof {
            let twice = 2 * bucket as int;
            assert(twice % 2 == 0 && twice / 2 == bucket);
            assert(is_power_of_two(twice));
            if twice < 0x8000_0000_0000_0000 {
                lemma_gap(twice);
            }
        }
        bucket = bucket * 2;
    }
    bucket
}

/// No power of two lies between these two.
proof fn lemma_gap(n: int)
    requires
        is_power_of_two(n),
        n < 0x8000_0000_0000_0000,
    ensures
        n <= 0x4000_0000_0000_0000,
{
    reveal_with_fuel(is_power_of_two, 64);
    lemma_gap_at(n, 0x4000_0000_0000_0000);
}

proof fn lemma_gap_at(n: int, p: int)
    requires
        is_power_of_two(n),
        is_power_of_two(p),
        n < 2 * p,
    ensures
        n <= p,
    decreases n,
{
    if n > 1 && p > 1 {
        lemma_gap_at(n / 2, p / 2);
    }
}

// ---------------------------------------------------------------------------
// The pool
// ---------------------------------------------------------------------------
/// How many buffers of a size are kept.
pub const MAX_PER_BUCKET: usize = 4;

/// A staging buffer, by the number that the host has for it.
#[derive(Clone, Copy, Debug, PartialEq, Eq, Structural)]
pub struct StagingEntry {
    pub buffer: u64,
    pub in_use: bool,
    pub usage: Usage,
}

impl StagingEntry {
    /// Whether it can be taken.
    pub open spec fn spec_free(self, for_write: bool) -> bool {
        !self.in_use && self.usage.spec_contains(needed(for_write))
    }

    fn free(&self, for_write: bool) -> (r: bool)
        ensures
            r == self.spec_free(for_write),
    {
        !self.in_use && self.usage.contains(needed_usage(for_write))
    }
}

/// The first buffer from `i` on that can be taken.
pub open spec fn first_free(s: Seq<StagingEntry>, for_write: bool, i: int) -> Option<int>
    decreases s.len() - i,
{
    if i < 0 || i >= s.len() {
        None
    } else if s[i].spec_free(for_write) {
        Some(i)
    } else {
        first_free(s, for_write, i + 1)
    }
}

/// How many buffers have to go for no more to be left than are kept.
pub open spec fn excess(n: int) -> int {
    if n > MAX_PER_BUCKET {
        n - MAX_PER_BUCKET
    } else {
        0
    }
}

/// The staging buffers that are not in use, by size. Of each size a few are
/// kept, those that came back last.
pub struct StagingPool {
    buckets: BTreeMap<u64, Vec<StagingEntry>>,
}

impl StagingPool {
    /// The buffers of a size.
    pub closed spec fn bucket(&self, key: u64) -> Seq<StagingEntry> {
        if self.buckets@.dom().contains(key) {
            self.buckets@[key]@
        } else {
            Seq::empty()
        }
    }

    /// No more buffers than are kept.
    pub open spec fn capped(&self) -> bool {
        forall|key: u64| (#[trigger] self.bucket(key)).len() <= MAX_PER_BUCKET
    }

    /// No buffers.
    pub fn new() -> (r: Self)
        ensures
            forall|key: u64| (#[trigger] r.bucket(key)).len() == 0,
            r.capped(),
    {
        StagingPool { buckets: BTreeMap::new() }
    }

    fn take_bucket(&mut self, key: u64) -> (r: Vec<StagingEntry>)
        ensures
            r@ == old(self).bucket(key),
            final(self).bucket(key).len() == 0,
            forall|other: u64|
                other != key ==> #[trigger] final(self).bucket(other) == old(self).bucket(other),
    {
        match self.buckets.remove(&key) {
            Some(v) => v,
            None => Vec::new(),
        }
    }

    fn put_bucket(&mut self, key: u64, entries: Vec<StagingEntry>)
        ensures
            final(self).bucket(key) == entries@,
            forall|other: u64|
                other != key ==> #[trigger] final(self).bucket(other) == old(self).bucket(other),
    {
        self.buckets.insert(key, entries);
    }

    /// Takes the first buffer of a size that can be used for writing or for
    /// reading.
    pub fn acquire(&mut self, key: u64, for_write: bool) -> (r: Option<StagingEntry>)
        ensures
            match first_free(old(self).bucket(key), for_write, 0) {
                Some(i) => {
                    &&& r == Some(StagingEntry { in_use: true, ..old(self).bucket(key)[i] })
                    &&& final(self).bucket(key) == old(self).bucket(key).remove(i)
                },
                None => r is None && final(self).bucket(key) == old(self).bucket(key),
            },
            forall|other: u64|
                other != key ==> #[trigger] final(self).bucket(other) == old(self).bucket(other),
            old(self).capped() ==> final(self).capped(),
    {
        let mut entries = self.take_bucket(key);
        let ghost before = entries@;
        let mut i: usize = 0;
        while i < entries.len() && !entries[i].free(for_write)
            invariant
                i <= entries@.len(),
                entries@ == before,
                first_free(before, for_write, 0) == first_free(before, for_write, i as int),
            decreases entries@.len() - i,
        {
            i = i + 1;
        }
        let taken: Option<StagingEntry> = if i < entries.len() {
            let mut entry = entries.remove(i);
            entry.in_use = true;
            Some(entry)
        } else {
            None
        };
        self.put_bucket(key, entries);
        assert forall|k: u64| old(self).capped() implies (#[trigger] self.bucket(k)).len()
            <= MAX_PER_BUCKET by {
            assert(old(self).bucket(k).len() <= MAX_PER_BUCKET);
        }
        taken
    }

    /// Takes a buffer back. Returns those that are not kept for that: the ones
    /// that came back first.
    pub fn release(&mut self, key: u64, entry: StagingEntry) -> (r: Vec<StagingEntry>)
        ensures
            ({
                let all = old(self).bucket(key).push(StagingEntry { in_use: false, ..entry });
                &&& final(self).bucket(key) == all.skip(excess(all.len() as int))
                &&& r@ == all.take(excess(all.len() as int))
            }),
            forall|other: u64|
                other != key ==> #[trigger] final(self).bucket(other) == old(self).bucket(other),
            old(self).capped() ==> final(self).capped(),
    {
        let mut entries = self.take_bucket(key);
        entries.push(StagingEntry { in_use: false, ..entry });
        let ghost all = entries@;
        let mut dropped: Vec<StagingEntry> = Vec::new();
        assert(all.skip(0) =~= all);
        assert(all.take(0) =~= Seq::empty());
        while entries.len() > MAX_PER_BUCKET
            invariant
                dropped@.len() <= excess(all.len() as int),
                entries@ == all.skip(dropped@.len() as int),
                dropped@ == all.take(dropped@.len() as int),
            decreases entries@.len(),
        {
            let ghost n = dropped@.len() as int;
            let first = entries.remove(0);
            dropped.push(first);
            assert(entries@ =~= all.skip(n + 1));
            assert(dropped@ =~= all.take(n + 1));
        }
        self.put_bucket(key, entries);
        assert forall|k: u64| old(self).capped() implies (#[trigger] self.bucket(k)).len()
            <= MAX_PER_BUCKET by {
            assert(old(self).bucket(k).len() <= MAX_PER_BUCKET);
        }
        dropped
    }
}

// ---------------------------------------------------------------------------
// New buffers
// ---------------------------------------------------------------------------
/// How a new buffer comes by its first contents.
#[derive(Clone, Copy, Debug, PartialEq, Eq, Structural)]
pub enum Initial {
    /// It has none.
    Nothing,
    /// They are written once it is there.
    Queued,
    /// It is made of them, and has their size.
    AtCreation,
}

/// How to make a staging buffer.
#[derive(Clone, Copy, Debug, PartialEq, Eq, Structural)]
pub struct StagingPlan {
    pub size: u64,
    pub usage: Usage,
    pub initial: Initial,
    /// Whether it has its contents from its creation, and is not to be mapped.
    pub created_mapped: bool,
}

/// How to make a staging buffer of a size, with or without first contents.
pub open spec fn staging_plan(key: u64, contents: Option<u64>, for_write: bool) -> StagingPlan {
    match contents {
        None => StagingPlan {
            size: key,
            usage: needed(for_write),
            initial: Initial::Nothing,
            created_mapped: false,
        },
        Some(len) => if for_write {
            StagingPlan {
                size: key,
                usage: spec_copied(),
                initial: Initial::Queued,
                created_mapped: false,
            }
        } else {
            StagingPlan {
                size: len,
                usage: Usage { map_read: true, copy_src: true, copy_dst: false, storage: false },
                initial: Initial::AtCreation,
                created_mapped: true,
            }
        },
    }
}

/// A staging buffer to use: one that is there, or one to be made.
#[derive(Clone, Copy, Debug, PartialEq, Eq, Structural)]
pub enum Staging {
    Reused(StagingEntry),
    Create(StagingPlan),
}

impl StagingPool {
    /// Takes a staging buffer of a size from the pool, or says how to make
    /// one; `contents` is the length of what a new one is to hold at first.
    pub fn acquire_staging_entry(
        &mut self,
        key: u64,
        contents: Option<u64>,
        for_write: bool,
    ) -> (r: Staging)
        ensures
            match first_free(old(self).bucket(key), for_write, 0) {
                Some(i) => {
                    &&& r == Staging::Reused(
                        StagingEntry { in_use: true, ..old(self).bucket(key)[i] },
                    )
                    &&& final(self).bucket(key) == old(self).bucket(key).remove(i)
                },
                None => {
                    &&& r == Staging::Create(staging_plan(key, contents, for_write))
                    &&& final(self).bucket(key) == old(self).bucket(key)
                },
            },
            forall|other: u64|
                other != key ==> #[trigger] final(self).bucket(other) == old(self).bucket(other),
            old(self).capped() ==> final(self).capped(),
    {
        match self.acquire(key, for_write) {
            Some(entry) => Staging::Reused(entry),
            None => Staging::Create(
                match contents {
                    None => StagingPlan {
                        size: key,
                        usage: needed_usage(for_write),
                        initial: Initial::Nothing,
                        created_mapped: false,
                    },
                    Some(len) => if for_write {
                        StagingPlan {
                            size: key,
                            usage: copied(),
                            initial: Initial::Queued,
                            created_mapped: false,
                        }
                    } else {
                        StagingPlan {
                            size: len,
                            usage: Usage {
                                map_read: true,
                                copy_src: true,
                                copy_dst: false,
                                storage: false,
                            },
                            initial: Initial::AtCreation,
                            created_mapped: true,
                        }
                    },
                },
            ),
        }
    }
}

/// The bytes that are shown for a staging buffer that is to be written: what
/// it is to hold at first, or as many zeros as it is long.
pub fn staged_bytes(key: usize, contents: Option<&[u8]>) -> (r: Vec<u8>)
    ensures
        match contents {
            Some(c) => r@ == c@,
            None => r@ == Seq::new(key as nat, |i: int| 0u8),
        },
{
    let mut out: Vec<u8> = Vec::new();
    match contents {
        Some(c) => {
            let mut i: usize = 0;
            while i < c.len()
                invariant
                    i <= c@.len(),
                    out@ == c@.take(i as int),
                decreases c@.len() - i,
            {
                out.push(c[i]);
                i = i + 1;
                assert(out@ =~= c@.take(i as int));
            }
            assert(out@ =~= c@);
        },
        None => {
            let mut i: usize = 0;
            while i < key
                invariant
                    i <= key,
                    out@ == Seq::new(i as nat, |j: int| 0u8),
                decreases key - i,
            {
                out.push(0);
                i = i + 1;
                assert(out@ =~= Seq::new(i as nat, |j: int| 0u8));
            }
        },
    }
    out
}

// ---------------------------------------------------------------------------
// Uploads and reads
// ---------------------------------------------------------------------------
/// Up to this many bytes are written to a device directly.
pub const DIRECT_LIMIT: u64 = 65536;

/// How bytes get to a device.
#[derive(Clone, Copy, Debug, PartialEq, Eq, Structural)]
pub enum UploadPath {
    /// Written directly.
    Direct,
    /// Through a staging buffer of a size.
    Staged { bucket: u64 },
}

/// How to upload 32-bit floats.
#[derive(Clone, Copy, Debug, PartialEq, Eq, Structural)]
pub struct UploadPlan {
    pub size: u64,
    pub usage: Usage,
    pub path: UploadPath,
}

/// How to upload so many 32-bit floats to a buffer that is asked to allow
/// `usage`: it can be copied from and to as well.
pub fn upload_plan(elements: u64, usage: Usage) -> (r: UploadPlan)
    requires
        4 * elements <= 0x8000_0000_0000_0000,
    ensures
        r.size == 4 * elements,
        r.usage == usage.spec_union(spec_copied()),
        r.path is Direct <==> r.size <= DIRECT_LIMIT,
        r.path matches UploadPath::Staged { bucket } ==> {
            &&& is_power_of_two(bucket as int)
            &&& bucket >= r.size
            &&& bucket / 2 < r.size
        },
{
    let size: u64 = 4 * elements;
    let path = if size <= DIRECT_LIMIT {
        UploadPath::Direct
    } else {
        UploadPath::Staged { bucket: bucket_for_size(size) }
    };
    UploadPlan { size, usage: usage.union(copied()), path }
}

/// What the buffer that a staged upload ends in allows, from what the staging
/// buffer does.
pub fn staged_destination_usage(staging: Usage) -> (r: Usage)
    ensures
        r == staging.spec_union(spec_copied()),
{
    staging.union(copied())
}

/// How to read so many 32-bit floats: how many bytes, and through a staging
/// buffer of which size.
pub fn read_plan(elements: u64) -> (r: (u64, u64))
    requires
        4 * elements <= 0x8000_0000_0000_0000,
    ensures
        r.0 == 4 * elements,
        is_power_of_two(r.1 as int),
        r.1 >= r.0,
        r.1 > 1 ==> r.1 / 2 < r.0,
{
    let size: u64 = 4 * elements;
    (size, bucket_for_size(size))
}

/// The bytes that were asked for, of those that a staging buffer holds.
pub fn trimmed(mapped: &[u8], size: usize) -> (r: Vec<u8>)
    requires
        size <= mapped@.len(),
    ensures
        r@ == mapped@.take(size as int),
{
    let mut out: Vec<u8> = Vec::new();
    let mut i: usize = 0;
    while i < size
        invariant
            i <= size <= mapped@.len(),
            out@ == mapped@.take(i as int),
        decreases size - i,
    {
        out.push(mapped[i]);
        i = i + 1;
        assert(out@ =~= mapped@.take(i as int));
    }
    out
}

// ---------------------------------------------------------------------------
// Laws
// ---------------------------------------------------------------------------
proof fn lemma_first_free(s: Seq<StagingEntry>, for_write: bool, i: int)
    requires
        0 <= i,
    ensures
        match first_free(s, for_write, i) {
            Some(j) => i <= j < s.len() && s[j].spec_free(for_write) && forall|k: int|
                i <= k < j ==> !(#[trigger] s[k]).spec_free(for_write),
            None => forall|k: int| i <= k < s.len() ==> !(#[trigger] s[k]).spec_free(for_write),
        },
    decreases s.len() - i,
{
    if i < s.len() && !s[i].spec_free(for_write) {
        lemma_first_free(s, for_write, i + 1);
    }
}

/// A buffer that is taken from the pool allows what it is taken for, and so
/// does one that is made for it without first contents, or for writing.
pub proof fn law_staging_buffers_allow_their_use(
    s: Seq<StagingEntry>,
    key: u64,
    contents: Option<u64>,
    for_write: bool,
)
    ensures
        first_free(s, for_write, 0) matches Some(i) ==> 0 <= i < s.len()
            && s[i].usage.spec_contains(needed(for_write)) && !s[i].in_use,
        contents is None || for_write ==> staging_plan(
            key,
            contents,
            for_write,
        ).usage.spec_contains(needed(for_write)),
{
    lemma_first_free(s, for_write, 0);
}

/// A buffer that came back is kept, and is there to be taken again where
/// nothing before it is.
pub proof fn law_released_buffers_can_be_taken(
    s: Seq<StagingEntry>,
    entry: StagingEntry,
    for_write: bool,
)
    requires
        s.len() <= MAX_PER_BUCKET,
        entry.usage.spec_contains(needed(for_write)),
    ensures
        ({
            let all = s.push(StagingEntry { in_use: false, ..entry });
            let kept = all.skip(excess(all.len() as int));
            &&& kept.len() > 0
            &&& kept.last() == (StagingEntry { in_use: false, ..entry })
            &&& first_free(kept, for_write, 0) is Some
        }),
{
    let all = s.push(StagingEntry { in_use: false, ..entry });
    let kept = all.skip(excess(all.len() as int));
    assert(kept.last() == all.last());
    lemma_first_free(kept, for_write, 0);
    assert(kept[kept.len() - 1].spec_free(for_write));
}

/// What a buffer holds after bytes were written to it from its start.
pub open spec fn overwritten(buffer: Seq<u8>, data: Seq<u8>) -> Seq<u8> {
    data + buffer.skip(data.len() as int)
}

/// What uploading bytes leaves on the device, in a buffer `dst`: they are
/// written there directly, or to a staging buffer and copied from it.
pub open spec fn device_bytes(
    path: UploadPath,
    data: Seq<u8>,
    staging: Seq<u8>,
    dst: Seq<u8>,
) -> Seq<u8> {
    match path {
        UploadPath::Direct => overwritten(dst, data),
        UploadPath::Staged { .. } => overwritten(
            dst,
            overwritten(staging, data).take(data.len() as int),
        ),
    }
}

/// Bytes that were uploaded come back: whatever the staging buffers held
/// before, the bytes that are copied from the device to a staging buffer for
/// reading, and cut to their number, are those that were uploaded. The staging
/// buffers have the sizes that the plans say, and are long enough.
pub proof fn law_uploads_come_back(
    path: UploadPath,
    data: Seq<u8>,
    staging: Seq<u8>,
    dst: Seq<u8>,
    reading: Seq<u8>,
)
    requires
        dst.len() == data.len(),
        path matches UploadPath::Staged { bucket } ==> staging.len() == bucket && bucket
            >= data.len(),
        reading.len() >= data.len(),
    ensures
        ({
            let there = device_bytes(path, data, staging, dst);
            let mapped = overwritten(reading, there);
            &&& there == data
            &&& mapped.len() == reading.len()
            &&& mapped.take(data.len() as int) == data
        }),
{
    let there = device_bytes(path, data, staging, dst);
    assert(overwritten(staging, data).take(data.len() as int) =~= data);
    assert(there =~= data);
    assert(overwritten(reading, there).take(data.len() as int) =~= data);
}

/// There is no smaller power of two that is not less than the size.
pub proof fn law_buckets_are_least(size: int, bucket: int, other: int)
    requires
        is_power_of_two(bucket),
        is_power_of_two(other),
        bucket >= size,
        bucket > 1 ==> bucket / 2 < size,
        other >= size,
        size >= 1,
    ensures
        bucket <= other,
{
    if other < bucket {
        if bucket > 1 {
            assert(is_power_of_two(bucket / 2));
            lemma_gap_at(other, bucket / 2);
        }
    }
}

} // verus!
