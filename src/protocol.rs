//! The generation protocol: for each source file, decide from the prior
//! set's entry whether to hardlink or copy, settle the outcome once the
//! content is hashed, and record it in the new index and the statistics.
use vstd::prelude::*;
use crate::digest::digests_equal;
use crate::md5_store::{index_text_of, loaded, Md5Store};
use crate::stats::{sat_add, BackupStats};

verus! {

/// A modification time: seconds and nanoseconds since the UNIX epoch.
#[derive(Debug, Clone, Copy, PartialEq, Eq, Structural)]
pub struct FileTime {
    pub secs: i64,
    pub nanos: u32,
}

/// Size and modification time of a regular file.
#[derive(Debug, Clone, Copy, PartialEq, Eq, Structural)]
pub struct FileMeta {
    pub size: u64,
    pub mtime: FileTime,
}

/// What to do with a source file before reading it.
#[derive(Debug, Clone, Copy)]
pub enum Plan {
    /// No usable prior entry: copy, hashing on the way.
    CopyNew,
    /// The size changed: copy, hashing on the way.
    CopySizeChanged,
    /// Same size and mtime: hardlink to the prior file without reading;
    /// the prior digest is recorded.
    TrustMtime { digest: [u8; 16] },
    /// Same size, other mtime: copy speculatively while hashing; hardlink
    /// instead if the digest equals `expected`.
    Verify { expected: [u8; 16] },
}

/// The outcome for one file of the set.
#[derive(Debug, Clone, Copy, PartialEq, Eq, Structural)]
pub enum Disposition {
    /// Copied: no prior entry.
    New,
    /// Copied: the size differs from the prior entry.
    SizeChanged,
    /// Hardlinked on equal size and mtime, without reading.
    Unchanged,
    /// Hardlinked: other mtime, same content digest.
    MtimeChanged,
    /// Copied: other mtime and other content digest.
    ContentChanged,
    /// Copied because the hardlink to the prior file could not be made
    /// (another filesystem); the content equals the prior file's.
    LinkFailedCopied,
}

impl Disposition {
    /// Whether the file ends up as a hardlink to the prior set's file.
    pub open spec fn spec_is_hardlink(self) -> bool {
        self == Disposition::Unchanged || self == Disposition::MtimeChanged
    }

    #[verifier::when_used_as_spec(spec_is_hardlink)]
    pub fn is_hardlink(self) -> (r: bool)
        ensures
            r == self.spec_is_hardlink(),
    {
        match self {
            Disposition::Unchanged | Disposition::MtimeChanged => true,
            _ => false,
        }
    }
}

/// The decision table, top to bottom: no prior entry or no prior regular
/// file gives a new copy; another size gives a copy; the same mtime trusts the
/// prior digest; otherwise the content is hashed against it.
pub open spec fn plan_of(prior_digest: Option<[u8; 16]>, prior_meta: Option<FileMeta>, meta: FileMeta) -> Plan {
    match (prior_digest, prior_meta) {
        (Some(d), Some(pm)) => if pm.size != meta.size {
            Plan::CopySizeChanged
        } else if pm.mtime == meta.mtime {
            Plan::TrustMtime { digest: d }
        } else {
            Plan::Verify { expected: d }
        },
        _ => Plan::CopyNew,
    }
}

/// Decides what to do with a file of metadata `meta`, given the prior
/// index's digest for its path and the prior file's metadata (`None` when
/// there is no prior set, no entry, or no regular file there).
pub fn plan_file(prior_digest: Option<&[u8; 16]>, prior_meta: Option<FileMeta>, meta: FileMeta) -> (r: Plan)
    ensures
        r == plan_of(
            match prior_digest {
                Some(d) => Some(*d),
                None => None,
            },
            prior_meta,
            meta,
        ),
{
    match (prior_digest, prior_meta) {
        (Some(d), Some(pm)) => {
            if pm.size != meta.size {
                Plan::CopySizeChanged
            } else if pm.mtime.secs == meta.mtime.secs && pm.mtime.nanos == meta.mtime.nanos {
                Plan::TrustMtime { digest: *d }
            } else {
                Plan::Verify { expected: *d }
            }
        },
        _ => Plan::CopyNew,
    }
}

impl Plan {
    /// Whether the source must be read; only a trusted mtime spares it.
    pub open spec fn spec_needs_read(&self) -> bool {
        !(*self is TrustMtime)
    }

    #[verifier::when_used_as_spec(spec_needs_read)]
    pub fn needs_read(&self) -> (r: bool)
        ensures
            r == self.spec_needs_read(),
    {
        match self {
            Plan::TrustMtime { .. } => false,
            _ => true,
        }
    }

    /// The digest the pipeline compares against, if any.
    pub fn expected_digest(&self) -> (r: Option<[u8; 16]>)
        ensures
            match *self {
                Plan::Verify { expected } => r == Some(expected),
                _ => r is None,
            },
    {
        match self {
            Plan::Verify { expected } => Some(*expected),
            _ => None,
        }
    }
}

/// Whether the speculative write is cancelled: an expected digest was given
/// and the content's digest equals it.
pub fn should_cancel_write(expected: Option<[u8; 16]>, computed: &[u8; 16]) -> (r: bool)
    ensures
        r == (expected matches Some(e) && e@ == computed@),
{
    match expected {
        Some(e) => digests_equal(&e, computed),
        None => false,
    }
}

/// The disposition of a file given its plan and, when it was read, the
/// digest of its content.
pub open spec fn disposition_of(plan: Plan, computed: Seq<u8>) -> Disposition {
    match plan {
        Plan::CopyNew => Disposition::New,
        Plan::CopySizeChanged => Disposition::SizeChanged,
        Plan::TrustMtime { .. } => Disposition::Unchanged,
        Plan::Verify { expected } => if expected@ == computed {
            Disposition::MtimeChanged
        } else {
            Disposition::ContentChanged
        },
    }
}

/// The digest recorded in the new index: the prior one for a trusted mtime,
/// the computed one otherwise.
pub open spec fn recorded_digest(plan: Plan, computed: Seq<u8>) -> Seq<u8> {
    match plan {
        Plan::TrustMtime { digest } => digest@,
        _ => computed,
    }
}

/// Settles a plan once the content digest is known (ignored for a trusted
/// mtime): the disposition and the digest to record.
pub fn settle(plan: &Plan, computed: &[u8; 16]) -> (r: (Disposition, [u8; 16]))
    ensures
        r.0 == disposition_of(*plan, computed@),
        r.1@ == recorded_digest(*plan, computed@),
{
    match plan {
        Plan::CopyNew => (Disposition::New, *computed),
        Plan::CopySizeChanged => (Disposition::SizeChanged, *computed),
        Plan::TrustMtime { digest } => (Disposition::Unchanged, *digest),
        Plan::Verify { expected } => {
            if digests_equal(expected, computed) {
                (Disposition::MtimeChanged, *computed)
            } else {
                (Disposition::ContentChanged, *computed)
            }
        },
    }
}

/// The statistics after counting one file of `size` bytes with disposition `d`.
pub open spec fn counted(s: BackupStats, d: Disposition, size: u64) -> BackupStats {
    let s1 = match d {
        Disposition::New => BackupStats { files_new: sat_add(s.files_new, 1), ..s },
        Disposition::SizeChanged => BackupStats {
            files_size_changed: sat_add(s.files_size_changed, 1),
            ..s
        },
        Disposition::Unchanged => s,
        Disposition::MtimeChanged => BackupStats {
            files_mtime_changed: sat_add(s.files_mtime_changed, 1),
            ..s
        },
        Disposition::ContentChanged => BackupStats {
            files_mtime_changed: sat_add(s.files_mtime_changed, 1),
            files_hash_changed: sat_add(s.files_hash_changed, 1),
            ..s
        },
        Disposition::LinkFailedCopied => s,
    };
    if d.spec_is_hardlink() {
        BackupStats {
            files_hardlinked: sat_add(s1.files_hardlinked, 1),
            bytes_hardlinked: sat_add(s1.bytes_hardlinked, size),
            ..s1
        }
    } else {
        BackupStats {
            files_copied: sat_add(s1.files_copied, 1),
            bytes_copied: sat_add(s1.bytes_copied, size),
            ..s1
        }
    }
}

/// Counts one settled file in the statistics.
pub fn count_disposition(stats: &mut BackupStats, d: Disposition, size: u64)
    ensures
        *final(stats) == counted(*old(stats), d, size),
{
    match d {
        Disposition::New => stats.add_file_new(),
        Disposition::SizeChanged => stats.add_file_size_changed(),
        Disposition::Unchanged => {},
        Disposition::MtimeChanged => stats.add_file_mtime_changed(),
        Disposition::ContentChanged => {
            stats.add_file_mtime_changed();
            stats.add_file_hash_changed();
        },
        Disposition::LinkFailedCopied => {},
    }
    if d.is_hardlink() {
        stats.add_file_hardlinked(size);
    } else {
        stats.add_file_copied(size);
    }
}

/// The disposition once a planned hardlink could not be made and the file
/// was copied instead; other dispositions stay.
pub open spec fn after_link_failure(d: Disposition) -> Disposition {
    if d.spec_is_hardlink() {
        Disposition::LinkFailedCopied
    } else {
        d
    }
}

/// The disposition when the hardlink that `d` asks for failed.
pub fn link_failed(d: Disposition) -> (r: Disposition)
    ensures
        r == after_link_failure(d),
        !r.spec_is_hardlink(),
{
    if d.is_hardlink() {
        Disposition::LinkFailedCopied
    } else {
        d
    }
}

/// Records one settled file: its digest goes into the new index under its
/// relative path, and its disposition into the statistics.
pub fn record_settled(
    store: &mut Md5Store,
    stats: &mut BackupStats,
    rel_path: &str,
    size: u64,
    disposition: Disposition,
    digest: &[u8; 16],
)
    requires
        old(store).wf(),
    ensures
        final(store).wf(),
        final(store).hashes() == old(store).hashes().insert(rel_path@, digest@),
        final(store).root() == old(store).root(),
        *final(stats) == counted(*old(stats), disposition, size),
{
    store.add_hash(rel_path, *digest);
    count_disposition(stats, disposition, size);
}

/// Settles and records one file: its digest goes into the new index under
/// its relative path, and its disposition into the statistics.
pub fn record_file(
    store: &mut Md5Store,
    stats: &mut BackupStats,
    rel_path: &str,
    size: u64,
    plan: &Plan,
    computed: &[u8; 16],
) -> (r: Disposition)
    requires
        old(store).wf(),
    ensures
        r == disposition_of(*plan, computed@),
        final(store).wf(),
        final(store).hashes() == old(store).hashes().insert(rel_path@, recorded_digest(*plan, computed@)),
        final(store).root() == old(store).root(),
        *final(stats) == counted(*old(stats), r, size),
{
    let (d, digest) = settle(plan, computed);
    record_settled(store, stats, rel_path, size, d, &digest);
    d
}

/// A file that ends up hardlinked records the digest that the prior index
/// holds for it, so linked files in two sets carry the same digest.
pub proof fn law_hardlink_keeps_prior_digest(
    prior_digest: [u8; 16],
    prior_meta: Option<FileMeta>,
    meta: FileMeta,
    computed: Seq<u8>,
)
    ensures
        ({
            let plan = plan_of(Some(prior_digest), prior_meta, meta);
            disposition_of(plan, computed).spec_is_hardlink() ==> recorded_digest(plan, computed)
                == prior_digest@
        }),
{
}

/// Run again on an unchanged file (same size and mtime as its prior entry),
/// the file is hardlinked without being read, and the new index records the
/// same digest as the prior one.
pub proof fn law_unchanged_file_relinked(prior_digest: [u8; 16], meta: FileMeta, computed: Seq<u8>)
    ensures
        ({
            let plan = plan_of(Some(prior_digest), Some(meta), meta);
            &&& !plan.spec_needs_read()
            &&& disposition_of(plan, computed) == Disposition::Unchanged
            &&& disposition_of(plan, computed).spec_is_hardlink()
            &&& recorded_digest(plan, computed) == prior_digest@
        }),
{
}

/// A file whose mtime was touched but whose bytes did not change is
/// hardlinked, and counts as mtime-changed and as hardlinked.
pub proof fn law_touched_file_relinked(
    prior_digest: [u8; 16],
    prior_meta: FileMeta,
    meta: FileMeta,
    stats: BackupStats,
)
    requires
        prior_meta.size == meta.size,
        prior_meta.mtime != meta.mtime,
    ensures
        ({
            let plan = plan_of(Some(prior_digest), Some(prior_meta), meta);
            let d = disposition_of(plan, prior_digest@);
            let after = counted(stats, d, meta.size);
            &&& d == Disposition::MtimeChanged
            &&& d.spec_is_hardlink()
            &&& after.files_mtime_changed == sat_add(stats.files_mtime_changed, 1)
            &&& after.files_hardlinked == sat_add(stats.files_hardlinked, 1)
            &&& after.files_copied == stats.files_copied
        }),
{
}

/// A file of the same size as its prior entry but other content is copied
/// in full: the speculative write is not cancelled, and the new digest is
/// recorded.
pub proof fn law_changed_content_copied(
    prior_digest: [u8; 16],
    prior_meta: FileMeta,
    meta: FileMeta,
    computed: [u8; 16],
)
    requires
        prior_meta.size == meta.size,
        prior_meta.mtime != meta.mtime,
        computed@ != prior_digest@,
    ensures
        ({
            let plan = plan_of(Some(prior_digest), Some(prior_meta), meta);
            let expected = match plan {
                Plan::Verify { expected } => Some(expected),
                _ => None,
            };
            &&& !(expected matches Some(e) && e@ == computed@)
            &&& disposition_of(plan, computed@) == Disposition::ContentChanged
            &&& !disposition_of(plan, computed@).spec_is_hardlink()
            &&& recorded_digest(plan, computed@) == computed@
        }),
{
}

/// Two runs on an unchanged file: the second run reads the first run's
/// index back, finds the same digest, hardlinks the file and records that
/// digest again, so both indices hold the same digest for it.
pub proof fn law_rerun_keeps_digest(first: &Md5Store, rel: Seq<char>, prior_digest: [u8; 16], meta: FileMeta, computed: Seq<u8>)
    requires
        first.wf(),
        first.hashes().contains_key(rel),
        prior_digest@ == loaded(index_text_of(first.entries_view()))[rel],
    ensures
        ({
            let plan = plan_of(Some(prior_digest), Some(meta), meta);
            &&& disposition_of(plan, computed).spec_is_hardlink()
            &&& recorded_digest(plan, computed) == first.hashes()[rel]
        }),
{
    first.law_index_round_trip();
}

} // verus!
