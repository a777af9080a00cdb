//! The human-readable summary of a run, as saved in the stats file of a set.
use vstd::prelude::*;
use vstd::string::StringExecFns;
use crate::disk_space::DiskSpace;
use crate::stats::{sat_add, BackupStats};
use crate::text::{decimal, decimal_string, padded, padded_string, push_char};

verus! {

/// The human-readable text of a byte count.
pub uninterp spec fn byte_size_text(n: u64) -> Seq<char>;

/// Relies on `bytesize::ByteSize`'s `Display`: a human-readable size such
/// as `1.5 KiB`, a function of the byte count alone.
#[verifier::external_body]
fn human_size(n: u64) -> (r: String)
    ensures
        r@ == byte_size_text(n),
{
    bytesize::ByteSize(n).to_string()
}

/// `HH:MM:SS.mmm` for a duration in milliseconds; hours take more digits
/// when needed.
pub open spec fn duration_text(ms: u64) -> Seq<char> {
    padded((ms / 3600000) as nat, 2) + seq![':'] + padded(((ms % 3600000) / 60000) as nat, 2) + seq![':']
        + padded(((ms % 60000) / 1000) as nat, 2) + seq!['.'] + padded((ms % 1000) as nat, 3)
}

fn cat(a: &str, b: &str) -> (r: String)
    ensures
        r@ == a@ + b@,
{
    let mut s = String::from_str(a);
    s.append(b);
    s
}

/// `label` followed by the decimal count.
pub open spec fn count_text(label: Seq<char>, n: u64) -> Seq<char> {
    label + decimal(n as nat)
}

/// `label`, file count, ` files, `, human size.
pub open spec fn files_text(label: Seq<char>, files: u64, bytes: u64) -> Seq<char> {
    label + decimal(files as nat) + " files, "@ + byte_size_text(bytes)
}

/// `label`, byte count, and the human size in parentheses.
pub open spec fn bytes_text(label: Seq<char>, n: u64) -> Seq<char> {
    label + decimal(n as nat) + " ("@ + byte_size_text(n) + ")"@
}

/// `label` and the used, total and available space of `d`.
pub open spec fn space_text(label: Seq<char>, d: DiskSpace) -> Seq<char> {
    label + byte_size_text(d.used) + " used of "@ + byte_size_text(d.total) + " total ("@
        + byte_size_text(d.available) + " available)"@
}

fn count_line(label: &str, n: u64) -> (r: String)
    ensures
        r@ == count_text(label@, n),
{
    cat(label, decimal_string(n).as_str())
}

fn files_line(label: &str, files: u64, bytes: u64) -> (r: String)
    ensures
        r@ == files_text(label@, files, bytes),
{
    let mut s = count_line(label, files);
    s.append(" files, ");
    s.append(human_size(bytes).as_str());
    s
}

fn bytes_line(label: &str, n: u64) -> (r: String)
    ensures
        r@ == bytes_text(label@, n),
{
    let mut s = count_line(label, n);
    s.append(" (");
    s.append(human_size(n).as_str());
    s.append(")");
    s
}

fn space_line(label: &str, d: &DiskSpace) -> (r: String)
    ensures
        r@ == space_text(label@, *d),
{
    let mut s = String::from_str(label);
    s.append(human_size(d.used).as_str());
    s.append(" used of ");
    s.append(human_size(d.total).as_str());
    s.append(" total (");
    s.append(human_size(d.available).as_str());
    s.append(" available)");
    s
}

/// The characters of each line.
pub open spec fn texts(v: Seq<String>) -> Seq<Seq<char>> {
    v.map_values(|l: String| l@)
}

/// The sections before the pipeline figures: header, times, set figures, I/O.
pub open spec fn summary_head(
    s: BackupStats,
    version: Seq<char>,
    started: Seq<char>,
    finished: Seq<char>,
    elapsed_millis: u64,
) -> Seq<Seq<char>> {
    seq![
        "Backup Summary"@,
        "=============="@,
        "Program: disk-hog-backup "@ + version,
        "Time format: HH:MM:SS.mmm"@,
        "Sizes: bytes (with human-readable shown)"@,
        Seq::empty(),
        "Session ID: "@ + s.session_id@,
        Seq::empty(),
        "Time:"@,
        "  Started:  "@ + started,
        "  Size Calc: "@ + duration_text(s.size_calc_millis),
        "  Finished: "@ + finished,
        "  Duration: "@ + duration_text(elapsed_millis),
        Seq::empty(),
        "Backup Set Stats:"@,
        count_text("  New:              "@, s.files_new),
        count_text("  Size changed:     "@, s.files_size_changed),
        count_text("  Mtime changed:    "@, s.files_mtime_changed),
        count_text("  Content changed:  "@, s.files_hash_changed),
        files_text("  Hardlinked:       "@, s.files_hardlinked, s.bytes_hardlinked),
        files_text("  Copied:           "@, s.files_copied, s.bytes_copied),
        files_text(
            "  Total:            "@,
            sat_add(s.files_hardlinked, s.files_copied),
            sat_add(s.bytes_hardlinked, s.bytes_copied),
        ),
        Seq::empty(),
        "I/O:"@,
        bytes_text("  Source Read: "@, s.bytes_source_read),
        bytes_text("  Target Read: "@, s.bytes_target_read),
        bytes_text("  Target Written: "@, s.bytes_target_written),
        bytes_text("  Hashing: "@, s.bytes_hashed),
    ]
}

/// The disk space section: present when the initial space is known; the
/// final space, the difference and the index size follow when known.
pub open spec fn disk_section(s: BackupStats) -> Seq<Seq<char>> {
    match s.initial_disk_space {
        None => Seq::empty(),
        Some(i) => seq![Seq::empty(), "Disk Space:"@, space_text("  Initial:    "@, i)] + match s.final_disk_space {
            None => Seq::empty(),
            Some(f) => seq![
                space_text("  Final:      "@, f),
                if f.used >= i.used {
                    "  Backup used: "@ + byte_size_text((f.used - i.used) as u64) + " additional space"@
                } else {
                    "  Backup freed: "@ + byte_size_text((i.used - f.used) as u64) + " space"@
                },
            ] + match s.md5_store_size {
                None => Seq::empty(),
                Some(m) => seq!["  MD5 store:   "@ + byte_size_text(m)],
            },
        },
    }
}

/// The names of the sets removed, one per line, under a heading; nothing
/// when none was removed.
pub open spec fn deleted_section(s: BackupStats) -> Seq<Seq<char>> {
    if s.deleted_sets@.len() == 0 {
        Seq::empty()
    } else {
        seq![Seq::empty(), "Auto-Deleted Backup Sets:"@] + s.deleted_sets@.map_values(
            |n: String| "  "@ + n@,
        )
    }
}

/// The whole summary, with the pipeline section given by the caller.
pub open spec fn summary_text(
    s: BackupStats,
    version: Seq<char>,
    started: Seq<char>,
    finished: Seq<char>,
    elapsed_millis: u64,
    pipeline: Seq<Seq<char>>,
) -> Seq<Seq<char>> {
    summary_head(s, version, started, finished, elapsed_millis) + pipeline + disk_section(s)
        + deleted_section(s)
}

fn push_line(lines: &mut Vec<String>, l: String)
    ensures
        texts(final(lines)@) == texts(old(lines)@).push(l@),
{
    lines.push(l);
    assert(texts(lines@) =~= texts(old(lines)@).push(l@));
}

impl BackupStats {
    /// `HH:MM:SS.mmm` for a duration in milliseconds.
    pub fn format_duration(millis: u64) -> (r: String)
        ensures
            r@ == duration_text(millis),
    {
        let hours = millis / 3600000;
        let minutes = (millis % 3600000) / 60000;
        let seconds = (millis % 60000) / 1000;
        let ms = millis % 1000;
        let mut s = padded_string(hours, 2);
        push_char(&mut s, ':');
        s.append(padded_string(minutes, 2).as_str());
        push_char(&mut s, ':');
        s.append(padded_string(seconds, 2).as_str());
        push_char(&mut s, '.');
        s.append(padded_string(ms, 3).as_str());
        s
    }

    fn format_head(
        &self,
        lines: &mut Vec<String>,
        version: &str,
        started: &str,
        finished: &str,
        elapsed_millis: u64,
    )
        ensures
            texts(final(lines)@) == texts(old(lines)@) + summary_head(*self, version@, started@, finished@, elapsed_millis),
    {
        let ghost base = texts(lines@);
        push_line(lines, String::from_str("Backup Summary"));
        push_line(lines, String::from_str("=============="));
        push_line(lines, cat("Program: disk-hog-backup ", version));
        push_line(lines, String::from_str("Time format: HH:MM:SS.mmm"));
        push_line(lines, String::from_str("Sizes: bytes (with human-readable shown)"));
        push_line(lines, String::new());
        push_line(lines, cat("Session ID: ", self.session_id.as_str()));
        push_line(lines, String::new());
        push_line(lines, String::from_str("Time:"));
        push_line(lines, cat("  Started:  ", started));
        push_line(lines, cat("  Size Calc: ", BackupStats::format_duration(self.size_calc_millis).as_str()));
        push_line(lines, cat("  Finished: ", finished));
        push_line(lines, cat("  Duration: ", BackupStats::format_duration(elapsed_millis).as_str()));
        push_line(lines, String::new());
        push_line(lines, String::from_str("Backup Set Stats:"));
        push_line(lines, count_line("  New:              ", self.files_new));
        push_line(lines, count_line("  Size changed:     ", self.files_size_changed));
        push_line(lines, count_line("  Mtime changed:    ", self.files_mtime_changed));
        push_line(lines, count_line("  Content changed:  ", self.files_hash_changed));
        push_line(lines, files_line("  Hardlinked:       ", self.files_hardlinked, self.bytes_hardlinked));
        push_line(lines, files_line("  Copied:           ", self.files_copied, self.bytes_copied));
        push_line(
            lines,
            files_line(
                "  Total:            ",
                self.files_hardlinked.saturating_add(self.files_copied),
                self.bytes_hardlinked.saturating_add(self.bytes_copied),
            ),
        );
        push_line(lines, String::new());
        push_line(lines, String::from_str("I/O:"));
        push_line(lines, bytes_line("  Source Read: ", self.bytes_source_read));
        push_line(lines, bytes_line("  Target Read: ", self.bytes_target_read));
        push_line(lines, bytes_line("  Target Written: ", self.bytes_target_written));
        push_line(lines, bytes_line("  Hashing: ", self.bytes_hashed));
        assert(texts(lines@) =~= base + summary_head(*self, version@, started@, finished@, elapsed_millis));
    }

    fn format_disk_space_info(&self, lines: &mut Vec<String>)
        ensures
            texts(final(lines)@) == texts(old(lines)@) + disk_section(*self),
    {
        let ghost base = texts(lines@);
        match self.initial_disk_space {
            None => {
                assert(texts(lines@) =~= base + disk_section(*self));
            },
            Some(i) => {
                push_line(lines, String::new());
                push_line(lines, String::from_str("Disk Space:"));
                push_line(lines, space_line("  Initial:    ", &i));
                match self.final_disk_space {
                    None => {},
                    Some(f) => {
                        push_line(lines, space_line("  Final:      ", &f));
                        if f.used >= i.used {
                            let mut l = cat("  Backup used: ", human_size(f.used - i.used).as_str());
                            l.append(" additional space");
                            push_line(lines, l);
                        } else {
                            let mut l = cat("  Backup freed: ", human_size(i.used - f.used).as_str());
                            l.append(" space");
                            push_line(lines, l);
                        }
                        match self.md5_store_size {
                            None => {},
                            Some(m) => {
                                push_line(lines, cat("  MD5 store:   ", human_size(m).as_str()));
                            },
                        }
                    },
                }
                assert(texts(lines@) =~= base + disk_section(*self));
            },
        }
    }

    fn format_deleted_sets(&self, lines: &mut Vec<String>)
        ensures
            texts(final(lines)@) == texts(old(lines)@) + deleted_section(*self),
    {
        let ghost base = texts(lines@);
        if self.deleted_sets.len() == 0 {
            assert(texts(lines@) =~= base + deleted_section(*self));
            return;
        }
        push_line(lines, String::new());
        push_line(lines, String::from_str("Auto-Deleted Backup Sets:"));
        let ghost mid = texts(lines@);
        let mut k: usize = 0;
        while k < self.deleted_sets.len()
            invariant
                k <= self.deleted_sets@.len(),
                texts(lines@) == mid + self.deleted_sets@.subrange(0, k as int).map_values(|n: String| "  "@ + n@),
            decreases self.deleted_sets@.len() - k,
        {
            push_line(lines, cat("  ", self.deleted_sets[k].as_str()));
            k = k + 1;
            assert(self.deleted_sets@.subrange(0, k as int).map_values(|n: String| "  "@ + n@)
                =~= self.deleted_sets@.subrange(0, k - 1).map_values(|n: String| "  "@ + n@).push("  "@ + self.deleted_sets@[k - 1]@));
            assert(texts(lines@) =~= mid + self.deleted_sets@.subrange(0, k as int).map_values(|n: String| "  "@ + n@));
        }
        assert(self.deleted_sets@.subrange(0, k as int) =~= self.deleted_sets@);
        assert(texts(lines@) =~= base + deleted_section(*self));
    }

    /// The summary, line by line: header and times, the set's figures, I/O,
    /// the pipeline section given (its figures are computed by the caller),
    /// disk space, and the sets removed to reclaim space.
    pub fn format_summary(
        &self,
        version: &str,
        started: &str,
        finished: &str,
        elapsed_millis: u64,
        pipeline: &Vec<String>,
    ) -> (r: Vec<String>)
        ensures
            texts(r@) == summary_text(*self, version@, started@, finished@, elapsed_millis, texts(pipeline@)),
    {
        let mut lines: Vec<String> = Vec::new();
        self.format_head(&mut lines, version, started, finished, elapsed_millis);
        let ghost head = texts(lines@);
        let mut k: usize = 0;
        while k < pipeline.len()
            invariant
                k <= pipeline@.len(),
                texts(lines@) == head + texts(pipeline@.subrange(0, k as int)),
            decreases pipeline@.len() - k,
        {
            push_line(&mut lines, String::from_str(pipeline[k].as_str()));
            k = k + 1;
            assert(texts(pipeline@.subrange(0, k as int)) =~= texts(pipeline@.subrange(0, k - 1)).push(pipeline@[k - 1]@));
            assert(texts(lines@) =~= head + texts(pipeline@.subrange(0, k as int)));
        }
        assert(pipeline@.subrange(0, k as int) =~= pipeline@);
        self.format_disk_space_info(&mut lines);
        self.format_deleted_sets(&mut lines);
        assert(texts(lines@) =~= summary_text(*self, version@, started@, finished@, elapsed_millis, texts(pipeline@)));
        lines
    }

    /// The stats file's text: the summary's lines, each ended by a newline.
    pub fn summary_file_text(lines: &Vec<String>) -> (r: String)
        ensures
            r@ == joined_lines(texts(lines@)),
    {
        let mut s = String::new();
        let mut k: usize = 0;
        while k < lines.len()
            invariant
                k <= lines@.len(),
                s@ == joined_lines(texts(lines@.subrange(0, k as int))),
            decreases lines@.len() - k,
        {
            s.append(lines[k].as_str());
            push_char(&mut s, '\n');
            k = k + 1;
            assert(texts(lines@.subrange(0, k as int)).drop_last() =~= texts(lines@.subrange(0, k - 1)));
        }
        assert(lines@.subrange(0, k as int) =~= lines@);
        s
    }
}

/// Lines, each followed by a newline.
pub open spec fn joined_lines(ls: Seq<Seq<char>>) -> Seq<char>
    decreases ls.len(),
{
    if ls.len() == 0 {
        Seq::empty()
    } else {
        joined_lines(ls.drop_last()) + ls.last() + seq!['\n']
    }
}

} // verus!
