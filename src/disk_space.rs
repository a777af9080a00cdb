//! Disk space of the destination filesystem, and which mount holds a path.
use vstd::prelude::*;
use crate::text::chars_of;

verus! {

/// Total, available and used bytes of a filesystem.
#[derive(Debug, Clone, Copy)]
pub struct DiskSpace {
    /// Total space in bytes
    pub total: u64,
    /// Available space in bytes
    pub available: u64,
    /// Used space in bytes (total - available, zero if available exceeds total)
    pub used: u64,
}

impl DiskSpace {
    /// The space of a filesystem with `total` bytes of which `available` are free.
    pub fn new(total: u64, available: u64) -> (r: Self)
        ensures
            r.total == total,
            r.available == available,
            r.used == (if available <= total { (total - available) as u64 } else { 0u64 }),
    {
        DiskSpace { total, available, used: total.saturating_sub(available) }
    }

    /// How many more bytes are used here than in `other` (negative if fewer).
    pub fn used_difference(&self, other: &DiskSpace) -> (r: i64)
        requires
            self.used <= i64::MAX,
            other.used <= i64::MAX,
        ensures
            r == self.used - other.used,
    {
        self.used as i64 - other.used as i64
    }
}

/// `m` is a mount point that holds the absolute path `p`: `p` is `m`, or
/// lies below it (`/` holds every absolute path).
pub open spec fn mount_holds(m: Seq<char>, p: Seq<char>) -> bool {
    if m == seq!['/'] {
        p.len() > 0 && p[0] == '/'
    } else {
        p == m || (p.len() > m.len() && p.subrange(0, m.len() as int) == m && p[m.len() as int] == '/')
    }
}

fn holds(m: &Vec<char>, p: &Vec<char>) -> (r: bool)
    ensures
        r == mount_holds(m@, p@),
{
    if m.len() == 1 && m[0] == '/' {
        assert(m@ =~= seq!['/']);
        return p.len() > 0 && p[0] == '/';
    }
    assert(m@ != seq!['/']) by {
        if m@ == seq!['/'] {
            assert(m@.len() == 1 && m@[0] == '/');
        }
    }
    if p.len() < m.len() {
        assert(p@ != m@);
        return false;
    }
    let mut k: usize = 0;
    while k < m.len()
        invariant
            k <= m.len() <= p.len(),
            forall|j: int| 0 <= j < k ==> m@[j] == p@[j],
        decreases m.len() - k,
    {
        if m[k] != p[k] {
            assert(p@.subrange(0, m@.len() as int)[k as int] != m@[k as int]);
            assert(p@ != m@) by {
                if p@ == m@ {
                    assert(p@[k as int] == m@[k as int]);
                }
            }
            return false;
        }
        k = k + 1;
    }
    assert(p@.subrange(0, m@.len() as int) =~= m@);
    if p.len() == m.len() {
        assert(p@ =~= m@);
        true
    } else {
        p[m.len()] == '/'
    }
}

/// The mount point among `mount_points` that holds `path` and is longest
/// (the last such one on a tie), or `None` if none holds it.
pub fn find_longest_matching_mount<'a>(mount_points: &[&'a str], path: &str) -> (r: Option<&'a str>)
    ensures
        r is None ==> forall|i: int|
            0 <= i < mount_points@.len() ==> !mount_holds(#[trigger] mount_points@[i]@, path@),
        r matches Some(m) ==> exists|i: int|
            0 <= i < mount_points@.len() && mount_points@[i] == m && mount_holds(m@, path@) && (
            forall|j: int|
                0 <= j < mount_points@.len() && mount_holds(#[trigger] mount_points@[j]@, path@)
                    ==> mount_points@[j]@.len() < m@.len() || (j <= i && mount_points@[j]@.len()
                    == m@.len())),
{
    let p = chars_of(path);
    let mut best: Option<usize> = None;
    let mut best_len: usize = 0;
    let mut k: usize = 0;
    while k < mount_points.len()
        invariant
            k <= mount_points@.len(),
            p@ == path@,
            best is None ==> forall|i: int|
                0 <= i < k ==> !mount_holds(#[trigger] mount_points@[i]@, path@),
            best matches Some(b) ==> b < k && mount_holds(mount_points@[b as int]@, path@)
                && best_len == mount_points@[b as int]@.len() && (forall|j: int|
                0 <= j < k && mount_holds(#[trigger] mount_points@[j]@, path@)
                    ==> mount_points@[j]@.len() < best_len || (j <= b && mount_points@[j]@.len()
                    == best_len)),
        decreases mount_points@.len() - k,
    {
        let m = chars_of(mount_points[k]);
        if holds(&m, &p) {
            match best {
                None => {
                    best = Some(k);
                    best_len = m.len();
                },
                Some(_) => {
                    if m.len() >= best_len {
                        best = Some(k);
                        best_len = m.len();
                    }
                },
            }
        }
        k = k + 1;
    }
    match best {
        None => None,
        Some(b) => Some(mount_points[b]),
    }
}

/// One mounted filesystem: its mount point and space figures.
pub struct DiskInfo {
    pub mount_point: String,
    pub total: u64,
    pub available: u64,
}

/// The space of the filesystem whose mount point holds `path` and is longest
/// (the last such one on a tie), or `None` if no mount holds it.
pub fn disk_space_for_path(disks: &[DiskInfo], path: &str) -> (r: Option<DiskSpace>)
    ensures
        r is None ==> forall|i: int|
            0 <= i < disks@.len() ==> !mount_holds(#[trigger] disks@[i].mount_point@, path@),
        r matches Some(ds) ==> exists|i: int|
            0 <= i < disks@.len() && mount_holds(disks@[i].mount_point@, path@) && ds.total
                == disks@[i].total && ds.available == disks@[i].available && ds.used == (if ds.available
                <= ds.total { (ds.total - ds.available) as u64 } else { 0u64 }) && (forall|j: int|
                0 <= j < disks@.len() && mount_holds(#[trigger] disks@[j].mount_point@, path@)
                    ==> disks@[j].mount_point@.len() < disks@[i].mount_point@.len() || (j <= i
                    && disks@[j].mount_point@.len() == disks@[i].mount_point@.len())),
{
    let p = chars_of(path);
    let mut best: Option<usize> = None;
    let mut best_len: usize = 0;
    let mut k: usize = 0;
    while k < disks.len()
        invariant
            k <= disks@.len(),
            p@ == path@,
            best is None ==> forall|i: int|
                0 <= i < k ==> !mount_holds(#[trigger] disks@[i].mount_point@, path@),
            best matches Some(b) ==> b < k && mount_holds(disks@[b as int].mount_point@, path@)
                && best_len == disks@[b as int].mount_point@.len() && (forall|j: int|
                0 <= j < k && mount_holds(#[trigger] disks@[j].mount_point@, path@)
                    ==> disks@[j].mount_point@.len() < best_len || (j <= b
                    && disks@[j].mount_point@.len() == best_len)),
        decreases disks@.len() - k,
    {
        let m = chars_of(disks[k].mount_point.as_str());
        if holds(&m, &p) {
            match best {
                None => {
                    best = Some(k);
                    best_len = m.len();
                },
                Some(_) => {
                    if m.len() >= best_len {
                        best = Some(k);
                        best_len = m.len();
                    }
                },
            }
        }
        k = k + 1;
    }
    match best {
        None => None,
        Some(b) => Some(DiskSpace::new(disks[b].total, disks[b].available)),
    }
}

/// A source of the available space at a path.
pub trait SpaceChecker {
    fn get_available_space(&self, path: &str) -> Result<u64, String>;
}

/// A checker that reports a fixed amount of available space.
pub struct MockSpaceChecker {
    pub available: u64,
}

impl SpaceChecker for MockSpaceChecker {
    fn get_available_space(&self, path: &str) -> Result<u64, String> {
        Ok(self.available)
    }
}

} // verus!
