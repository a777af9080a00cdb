//! Telemetry of one backup run: file and byte counters, per-stage times,
//! queue-depth samples, disk space and the sets reclaimed. Counters saturate
//! at `u64::MAX` rather than wrap.
use vstd::prelude::*;
use vstd::string::StringExecFns;
use crate::disk_space::DiskSpace;

verus! {

/// `a + b`, held at `u64::MAX`.
pub open spec fn sat_add(a: u64, b: u64) -> u64 {
    if a + b > u64::MAX {
        u64::MAX
    } else {
        (a + b) as u64
    }
}

/// Counters and figures of one backup run.
pub struct BackupStats {
    pub files_hardlinked: u64,
    pub files_copied: u64,
    pub bytes_hardlinked: u64,
    pub bytes_copied: u64,
    /// New files: no prior entry.
    pub files_new: u64,
    /// Copied because the size differs from the prior entry.
    pub files_size_changed: u64,
    /// Same size, other mtime: the content was hashed and compared.
    pub files_mtime_changed: u64,
    /// Of those, the ones whose content had changed.
    pub files_hash_changed: u64,
    pub bytes_source_read: u64,
    pub bytes_target_read: u64,
    pub bytes_target_written: u64,
    pub bytes_hashed: u64,
    pub reader_io_nanos: u64,
    pub reader_send_writer_nanos: u64,
    pub reader_send_hasher_nanos: u64,
    pub hasher_recv_nanos: u64,
    pub hasher_hash_nanos: u64,
    pub writer_recv_nanos: u64,
    pub writer_io_nanos: u64,
    pub memory_throttle_nanos: u64,
    pub memory_throttle_count: u64,
    pub writer_queue_depth_samples: u64,
    pub writer_queue_depth_sum: u64,
    pub writer_queue_depth_max: u64,
    pub hasher_queue_depth_samples: u64,
    pub hasher_queue_depth_sum: u64,
    pub hasher_queue_depth_max: u64,
    pub backup_root: String,
    pub session_id: String,
    /// Bytes of the source, estimated before the copy (for progress).
    pub total_bytes: u64,
    /// Time the size estimate took, in milliseconds.
    pub size_calc_millis: u64,
    pub initial_disk_space: Option<DiskSpace>,
    pub final_disk_space: Option<DiskSpace>,
    pub md5_store_size: Option<u64>,
    /// Names of the sets removed to reclaim space, in removal order.
    pub deleted_sets: Vec<String>,
}

impl BackupStats {
    /// Whether every counter is zero.
    pub open spec fn counters_zero(&self) -> bool {
        &&& self.files_hardlinked == 0 && self.files_copied == 0
        &&& self.bytes_hardlinked == 0 && self.bytes_copied == 0
        &&& self.files_new == 0 && self.files_size_changed == 0
        &&& self.files_mtime_changed == 0 && self.files_hash_changed == 0
        &&& self.bytes_source_read == 0 && self.bytes_target_read == 0
        &&& self.bytes_target_written == 0 && self.bytes_hashed == 0
        &&& self.reader_io_nanos == 0 && self.reader_send_writer_nanos == 0
        &&& self.reader_send_hasher_nanos == 0 && self.hasher_recv_nanos == 0
        &&& self.hasher_hash_nanos == 0 && self.writer_recv_nanos == 0
        &&& self.writer_io_nanos == 0 && self.memory_throttle_nanos == 0
        &&& self.memory_throttle_count == 0
        &&& self.writer_queue_depth_samples == 0 && self.writer_queue_depth_sum == 0
        &&& self.writer_queue_depth_max == 0
        &&& self.hasher_queue_depth_samples == 0 && self.hasher_queue_depth_sum == 0
        &&& self.hasher_queue_depth_max == 0
    }

    /// Fresh statistics for the set at `backup_root`.
    pub fn new(
        backup_root: &str,
        session_id: &str,
        total_bytes: u64,
        size_calc_millis: u64,
        initial_disk_space: Option<DiskSpace>,
    ) -> (r: Self)
        ensures
            r.counters_zero(),
            r.backup_root@ == backup_root@,
            r.session_id@ == session_id@,
            r.total_bytes == total_bytes,
            r.size_calc_millis == size_calc_millis,
            r.initial_disk_space == initial_disk_space,
            r.final_disk_space is None,
            r.md5_store_size is None,
            r.deleted_sets@.len() == 0,
    {
        BackupStats {
            files_hardlinked: 0,
            files_copied: 0,
            bytes_hardlinked: 0,
            bytes_copied: 0,
            files_new: 0,
            files_size_changed: 0,
            files_mtime_changed: 0,
            files_hash_changed: 0,
            bytes_source_read: 0,
            bytes_target_read: 0,
            bytes_target_written: 0,
            bytes_hashed: 0,
            reader_io_nanos: 0,
            reader_send_writer_nanos: 0,
            reader_send_hasher_nanos: 0,
            hasher_recv_nanos: 0,
            hasher_hash_nanos: 0,
            writer_recv_nanos: 0,
            writer_io_nanos: 0,
            memory_throttle_nanos: 0,
            memory_throttle_count: 0,
            writer_queue_depth_samples: 0,
            writer_queue_depth_sum: 0,
            writer_queue_depth_max: 0,
            hasher_queue_depth_samples: 0,
            hasher_queue_depth_sum: 0,
            hasher_queue_depth_max: 0,
            backup_root: String::from_str(backup_root),
            session_id: String::from_str(session_id),
            total_bytes,
            size_calc_millis,
            initial_disk_space,
            final_disk_space: None,
            md5_store_size: None,
            deleted_sets: Vec::new(),
        }
    }

    /// Bytes read from a source file.
    pub fn add_source_read(&mut self, bytes: u64)
        ensures
            *final(self) == (BackupStats {
                bytes_source_read: sat_add(old(self).bytes_source_read, bytes),
                ..*old(self)
            }),
    {
        self.bytes_source_read = self.bytes_source_read.saturating_add(bytes);
    }

    /// Bytes read back from a target.
    pub fn add_target_read(&mut self, bytes: u64)
        ensures
            *final(self) == (BackupStats {
                bytes_target_read: sat_add(old(self).bytes_target_read, bytes),
                ..*old(self)
            }),
    {
        self.bytes_target_read = self.bytes_target_read.saturating_add(bytes);
    }

    /// Bytes written to a target.
    pub fn add_target_written(&mut self, bytes: u64)
        ensures
            *final(self) == (BackupStats {
                bytes_target_written: sat_add(old(self).bytes_target_written, bytes),
                ..*old(self)
            }),
    {
        self.bytes_target_written = self.bytes_target_written.saturating_add(bytes);
    }

    /// Bytes fed to the hasher.
    pub fn add_hashed(&mut self, bytes: u64)
        ensures
            *final(self) == (BackupStats {
                bytes_hashed: sat_add(old(self).bytes_hashed, bytes),
                ..*old(self)
            }),
    {
        self.bytes_hashed = self.bytes_hashed.saturating_add(bytes);
    }

    /// A file of `file_size` bytes was hardlinked.
    pub fn add_file_hardlinked(&mut self, file_size: u64)
        ensures
            *final(self) == (BackupStats {
                files_hardlinked: sat_add(old(self).files_hardlinked, 1),
                bytes_hardlinked: sat_add(old(self).bytes_hardlinked, file_size),
                ..*old(self)
            }),
    {
        self.files_hardlinked = self.files_hardlinked.saturating_add(1);
        self.bytes_hardlinked = self.bytes_hardlinked.saturating_add(file_size);
    }

    /// A file of `file_size` bytes was copied.
    pub fn add_file_copied(&mut self, file_size: u64)
        ensures
            *final(self) == (BackupStats {
                files_copied: sat_add(old(self).files_copied, 1),
                bytes_copied: sat_add(old(self).bytes_copied, file_size),
                ..*old(self)
            }),
    {
        self.files_copied = self.files_copied.saturating_add(1);
        self.bytes_copied = self.bytes_copied.saturating_add(file_size);
    }

    /// A file had no prior entry.
    pub fn add_file_new(&mut self)
        ensures
            *final(self) == (BackupStats { files_new: sat_add(old(self).files_new, 1), ..*old(self) }),
    {
        self.files_new = self.files_new.saturating_add(1);
    }

    /// A file's size differed from its prior entry.
    pub fn add_file_size_changed(&mut self)
        ensures
            *final(self) == (BackupStats {
                files_size_changed: sat_add(old(self).files_size_changed, 1),
                ..*old(self)
            }),
    {
        self.files_size_changed = self.files_size_changed.saturating_add(1);
    }

    /// A file kept its size but not its mtime.
    pub fn add_file_mtime_changed(&mut self)
        ensures
            *final(self) == (BackupStats {
                files_mtime_changed: sat_add(old(self).files_mtime_changed, 1),
                ..*old(self)
            }),
    {
        self.files_mtime_changed = self.files_mtime_changed.saturating_add(1);
    }

    /// A file's content digest differed from its prior entry.
    pub fn add_file_hash_changed(&mut self)
        ensures
            *final(self) == (BackupStats {
                files_hash_changed: sat_add(old(self).files_hash_changed, 1),
                ..*old(self)
            }),
    {
        self.files_hash_changed = self.files_hash_changed.saturating_add(1);
    }

    /// Time spent reading the source.
    pub fn add_reader_io_time(&mut self, nanos: u64)
        ensures
            *final(self) == (BackupStats {
                reader_io_nanos: sat_add(old(self).reader_io_nanos, nanos),
                ..*old(self)
            }),
    {
        self.reader_io_nanos = self.reader_io_nanos.saturating_add(nanos);
    }

    /// Time the reader waited to hand a chunk to the writer.
    pub fn add_reader_send_writer_time(&mut self, nanos: u64)
        ensures
            *final(self) == (BackupStats {
                reader_send_writer_nanos: sat_add(old(self).reader_send_writer_nanos, nanos),
                ..*old(self)
            }),
    {
        self.reader_send_writer_nanos = self.reader_send_writer_nanos.saturating_add(nanos);
    }

    /// Time the reader waited to hand a chunk to the hasher.
    pub fn add_reader_send_hasher_time(&mut self, nanos: u64)
        ensures
            *final(self) == (BackupStats {
                reader_send_hasher_nanos: sat_add(old(self).reader_send_hasher_nanos, nanos),
                ..*old(self)
            }),
    {
        self.reader_send_hasher_nanos = self.reader_send_hasher_nanos.saturating_add(nanos);
    }

    /// Time the hasher waited for chunks.
    pub fn add_hasher_recv_time(&mut self, nanos: u64)
        ensures
            *final(self) == (BackupStats {
                hasher_recv_nanos: sat_add(old(self).hasher_recv_nanos, nanos),
                ..*old(self)
            }),
    {
        self.hasher_recv_nanos = self.hasher_recv_nanos.saturating_add(nanos);
    }

    /// Time spent hashing.
    pub fn add_hasher_hash_time(&mut self, nanos: u64)
        ensures
            *final(self) == (BackupStats {
                hasher_hash_nanos: sat_add(old(self).hasher_hash_nanos, nanos),
                ..*old(self)
            }),
    {
        self.hasher_hash_nanos = self.hasher_hash_nanos.saturating_add(nanos);
    }

    /// Time the writer waited for chunks.
    pub fn add_writer_recv_time(&mut self, nanos: u64)
        ensures
            *final(self) == (BackupStats {
                writer_recv_nanos: sat_add(old(self).writer_recv_nanos, nanos),
                ..*old(self)
            }),
    {
        self.writer_recv_nanos = self.writer_recv_nanos.saturating_add(nanos);
    }

    /// Time spent writing targets.
    pub fn add_writer_io_time(&mut self, nanos: u64)
        ensures
            *final(self) == (BackupStats {
                writer_io_nanos: sat_add(old(self).writer_io_nanos, nanos),
                ..*old(self)
            }),
    {
        self.writer_io_nanos = self.writer_io_nanos.saturating_add(nanos);
    }

    /// Time the reader waited for memory headroom.
    pub fn add_memory_throttle_time(&mut self, nanos: u64)
        ensures
            *final(self) == (BackupStats {
                memory_throttle_nanos: sat_add(old(self).memory_throttle_nanos, nanos),
                ..*old(self)
            }),
    {
        self.memory_throttle_nanos = self.memory_throttle_nanos.saturating_add(nanos);
    }

    /// One more wait for memory headroom.
    pub fn inc_memory_throttle_count(&mut self)
        ensures
            *final(self) == (BackupStats {
                memory_throttle_count: sat_add(old(self).memory_throttle_count, 1),
                ..*old(self)
            }),
    {
        self.memory_throttle_count = self.memory_throttle_count.saturating_add(1);
    }

    /// One sample of the writer queue's depth.
    pub fn sample_writer_queue_depth(&mut self, depth: u64)
        ensures
            *final(self) == (BackupStats {
                writer_queue_depth_samples: sat_add(old(self).writer_queue_depth_samples, 1),
                writer_queue_depth_sum: sat_add(old(self).writer_queue_depth_sum, depth),
                writer_queue_depth_max: if depth > old(self).writer_queue_depth_max {
                    depth
                } else {
                    old(self).writer_queue_depth_max
                },
                ..*old(self)
            }),
    {
        self.writer_queue_depth_samples = self.writer_queue_depth_samples.saturating_add(1);
        self.writer_queue_depth_sum = self.writer_queue_depth_sum.saturating_add(depth);
        if depth > self.writer_queue_depth_max {
            self.writer_queue_depth_max = depth;
        }
    }

    /// One sample of the hasher queue's depth.
    pub fn sample_hasher_queue_depth(&mut self, depth: u64)
        ensures
            *final(self) == (BackupStats {
                hasher_queue_depth_samples: sat_add(old(self).hasher_queue_depth_samples, 1),
                hasher_queue_depth_sum: sat_add(old(self).hasher_queue_depth_sum, depth),
                hasher_queue_depth_max: if depth > old(self).hasher_queue_depth_max {
                    depth
                } else {
                    old(self).hasher_queue_depth_max
                },
                ..*old(self)
            }),
    {
        self.hasher_queue_depth_samples = self.hasher_queue_depth_samples.saturating_add(1);
        self.hasher_queue_depth_sum = self.hasher_queue_depth_sum.saturating_add(depth);
        if depth > self.hasher_queue_depth_max {
            self.hasher_queue_depth_max = depth;
        }
    }

    /// The disk space after the run.
    pub fn set_final_disk_space(&mut self, disk_space: DiskSpace)
        ensures
            *final(self) == (BackupStats { final_disk_space: Some(disk_space), ..*old(self) }),
    {
        self.final_disk_space = Some(disk_space);
    }

    /// The size of the persisted digest index.
    pub fn set_md5_store_size(&mut self, size: u64)
        ensures
            *final(self) == (BackupStats { md5_store_size: Some(size), ..*old(self) }),
    {
        self.md5_store_size = Some(size);
    }

    /// A set that was removed to reclaim space.
    pub fn add_deleted_set(&mut self, set_name: String)
        ensures
            final(self).deleted_sets@ == old(self).deleted_sets@.push(set_name),
            *final(self) == (BackupStats { deleted_sets: final(self).deleted_sets, ..*old(self) }),
    {
        self.deleted_sets.push(set_name);
    }
}

} // verus!
