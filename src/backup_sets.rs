//! Backup sets: their timestamped names, their order, the most recent
//! complete one, and the choice of old sets to remove when space runs short.
use vstd::prelude::*;
use vstd::string::StringExecFns;
use crate::stats::sat_add;
use crate::text::{
    chars_of, lemma_seq_lt_transitive, padded, padded_string, push_char, seq_lt, str_lt,
};

verus! {

/// A UTC date and time, as the parts a set name shows.
#[derive(Debug, Clone, Copy, PartialEq, Eq, Structural)]
pub struct SetTimestamp {
    pub year: i32,
    pub month: u32,
    pub day: u32,
    pub hour: u32,
    pub minute: u32,
    pub second: u32,
}

impl SetTimestamp {
    pub open spec fn wf(&self) -> bool {
        &&& 1 <= self.month <= 12
        &&& 1 <= self.day <= 31
        &&& self.hour < 24
        &&& self.minute < 60
        &&& self.second < 60
    }
}

/// The year with at least four digits; a negative year is `-` and at least
/// three digits.
pub open spec fn year_text(y: i32) -> Seq<char> {
    if y >= 0 {
        padded(y as nat, 4)
    } else {
        seq!['-'] + padded((-(y as int)) as nat, 3)
    }
}

/// `dhb-set-YYYYMMDD-HHMMSS`.
pub open spec fn set_name(t: SetTimestamp) -> Seq<char> {
    "dhb-set-"@ + year_text(t.year) + padded(t.month as nat, 2) + padded(t.day as nat, 2) + seq!['-']
        + padded(t.hour as nat, 2) + padded(t.minute as nat, 2) + padded(t.second as nat, 2)
}

/// The name of the set made at `time`.
pub fn generate_name(time: &SetTimestamp) -> (r: String)
    ensures
        r@ == set_name(*time),
{
    let mut s = String::from_str("dhb-set-");
    proof {
        reveal_strlit("dhb-set-");
    }
    if time.year >= 0 {
        let y = padded_string(time.year as u64, 4);
        s.append(y.as_str());
    } else {
        push_char(&mut s, '-');
        let a: u64 = (-(time.year as i64)) as u64;
        let y = padded_string(a, 3);
        s.append(y.as_str());
    }
    let mo = padded_string(time.month as u64, 2);
    s.append(mo.as_str());
    let d = padded_string(time.day as u64, 2);
    s.append(d.as_str());
    push_char(&mut s, '-');
    let h = padded_string(time.hour as u64, 2);
    s.append(h.as_str());
    let mi = padded_string(time.minute as u64, 2);
    s.append(mi.as_str());
    let se = padded_string(time.second as u64, 2);
    s.append(se.as_str());
    assert(s@ =~= set_name(*time));
    s
}

/// Relies on `chrono::Utc::now` and the `Datelike` / `Timelike` accessors:
/// the current UTC time, with month 1 to 12, day 1 to 31, hour 0 to 23,
/// minute and second 0 to 59 as chrono documents them.
#[verifier::external_body]
fn now_utc() -> (r: SetTimestamp)
    ensures
        r.wf(),
{
    let t = chrono::Utc::now();
    SetTimestamp {
        year: chrono::Datelike::year(&t),
        month: chrono::Datelike::month(&t),
        day: chrono::Datelike::day(&t),
        hour: chrono::Timelike::hour(&t),
        minute: chrono::Timelike::minute(&t),
        second: chrono::Timelike::second(&t),
    }
}

/// The name of a set made now.
pub fn generate_backup_set_name() -> (r: String)
    ensures
        exists|t: SetTimestamp| t.wf() && r@ == set_name(t),
{
    let t = now_utc();
    generate_name(&t)
}

/// One entry of the destination directory, as read from the filesystem.
pub struct SetEntry {
    pub name: String,
    pub is_dir: bool,
    /// Creation time in seconds since the UNIX epoch (zero when unknown).
    pub created: u64,
    /// Whether the digest index and its checksum are both present.
    pub complete: bool,
}

/// A backup set found in the destination.
#[derive(Debug)]
pub struct BackupSetInfo {
    pub name: String,
    pub path: String,
    /// Creation time in seconds since the UNIX epoch.
    pub created: u64,
    pub size: u64,
}

pub open spec fn starts_with(s: Seq<char>, p: Seq<char>) -> bool {
    s.len() >= p.len() && s.subrange(0, p.len() as int) == p
}

/// A directory whose name begins with `dhb-set-`.
pub open spec fn is_set_entry(e: SetEntry) -> bool {
    e.is_dir && starts_with(e.name@, "dhb-set-"@)
}

/// Order of sets: by creation time, ties by name.
pub open spec fn set_before(a: SetEntry, b: SetEntry) -> bool {
    a.created < b.created || (a.created == b.created && seq_lt(a.name@, b.name@))
}

proof fn lemma_set_before_transitive(a: SetEntry, b: SetEntry, c: SetEntry)
    requires
        set_before(a, b),
        set_before(b, c),
    ensures
        set_before(a, c),
{
    if a.created == b.created && b.created == c.created {
        lemma_seq_lt_transitive(a.name@, b.name@, c.name@);
    }
}

fn name_has_set_prefix(name: &str) -> (r: bool)
    ensures
        r == starts_with(name@, "dhb-set-"@),
{
    let v = chars_of(name);
    let p = chars_of("dhb-set-");
    proof {
        reveal_strlit("dhb-set-");
    }
    if v.len() < p.len() {
        return false;
    }
    let mut k: usize = 0;
    while k < p.len()
        invariant
            k <= p.len() <= v.len(),
            v@ == name@,
            p@ == "dhb-set-"@,
            forall|j: int| 0 <= j < k ==> v@[j] == p@[j],
        decreases p.len() - k,
    {
        if v[k] != p[k] {
            assert(v@.subrange(0, p@.len() as int)[k as int] != p@[k as int]);
            return false;
        }
        k = k + 1;
    }
    assert(v@.subrange(0, p@.len() as int) =~= p@);
    true
}

fn entry_before(a: &SetEntry, b: &SetEntry) -> (r: bool)
    ensures
        r == set_before(*a, *b),
{
    a.created < b.created || (a.created == b.created && str_lt(a.name.as_str(), b.name.as_str()))
}

/// `order` lists each set entry of `entries` exactly once, by position,
/// oldest first.
pub open spec fn is_set_order(entries: Seq<SetEntry>, order: Seq<usize>) -> bool {
    &&& forall|a: int| 0 <= a < order.len() ==> order[a] < entries.len() && is_set_entry(entries[#[trigger] order[a] as int])
    &&& forall|i: int| 0 <= i < entries.len() && is_set_entry(#[trigger] entries[i]) ==> exists|a: int| 0 <= a < order.len() && order[a] == i
    &&& forall|a: int, b: int| 0 <= a < b < order.len() ==> order[a] != order[b]
    &&& forall|a: int, b: int| 0 <= a < b < order.len() ==> !set_before(entries[order[b] as int], entries[order[a] as int])
}

/// `r` describes the entries that `order` picks, under `dest`.
pub open spec fn describes(r: Seq<BackupSetInfo>, entries: Seq<SetEntry>, order: Seq<usize>, dest: Seq<char>) -> bool {
    &&& r.len() == order.len()
    &&& forall|a: int| 0 <= a < order.len() ==> {
        let e = entries[order[a] as int];
        &&& (#[trigger] r[a]).name@ == e.name@
        &&& r[a].path@ == path_join(dest, e.name@)
        &&& r[a].created == e.created
        &&& r[a].size == 0
    }
}

/// The positions of the set entries among `entries`, oldest first (by
/// creation time, ties by name); non-directories and other names are left out.
pub fn order_sets(entries: &[SetEntry]) -> (r: Vec<usize>)
    ensures
        is_set_order(entries@, r@),
{
    let mut order: Vec<usize> = Vec::new();
    let mut k: usize = 0;
    while k < entries.len()
        invariant
            k <= entries@.len(),
            forall|a: int| 0 <= a < order@.len() ==> order@[a] < k && is_set_entry(entries@[#[trigger] order@[a] as int]),
            forall|i: int| 0 <= i < k && is_set_entry(#[trigger] entries@[i]) ==> exists|a: int| 0 <= a < order@.len() && order@[a] == i,
            forall|a: int, b: int| 0 <= a < b < order@.len() ==> order@[a] != order@[b],
            forall|a: int, b: int| 0 <= a < b < order@.len() ==> !set_before(entries@[order@[b] as int], entries@[order@[a] as int]),
        decreases entries@.len() - k,
    {
        let e = &entries[k];
        if e.is_dir && name_has_set_prefix(e.name.as_str()) {
            let mut p: usize = 0;
            while p < order.len() && !entry_before(e, &entries[order[p]])
                invariant
                    p <= order@.len(),
                    k < entries@.len(),
                    *e == entries@[k as int],
                    forall|a: int| 0 <= a < order@.len() ==> order@[a] < k,
                    forall|a: int| 0 <= a < p ==> !set_before(*e, entries@[#[trigger] order@[a] as int]),
                decreases order@.len() - p,
            {
                p = p + 1;
            }
            let ghost old_order = order@;
            order.insert(p, k);
            proof {
                assert(order@ =~= old_order.insert(p as int, k));
                assert forall|a: int, b: int| 0 <= a < b < order@.len() implies !set_before(
                    entries@[order@[b] as int],
                    entries@[order@[a] as int],
                ) by {
                    if b < p {
                    } else if b == p {
                        assert(!set_before(*e, entries@[old_order[a] as int]));
                    } else if a < p {
                        // a < p < b: order[b] = old[b-1] >= old[p] > e >= old[a]
                        assert(!set_before(entries@[old_order[b - 1] as int], entries@[old_order[a] as int]));
                    } else if a == p {
                        if set_before(entries@[old_order[b - 1] as int], *e) {
                            if p < b - 1 {
                                assert(!set_before(entries@[old_order[b - 1] as int], entries@[old_order[p as int] as int]));
                                assert(set_before(*e, entries@[old_order[p as int] as int]));
                                lemma_set_before_transitive(entries@[old_order[b - 1] as int], *e, entries@[old_order[p as int] as int]);
                            } else {
                                assert(set_before(*e, entries@[old_order[p as int] as int]));
                                lemma_set_before_transitive(entries@[old_order[b - 1] as int], *e, entries@[old_order[p as int] as int]);
                                crate::text::lemma_seq_lt_irreflexive(entries@[old_order[p as int] as int].name@);
                            }
                        }
                    } else {
                        assert(!set_before(entries@[old_order[b - 1] as int], entries@[old_order[a - 1] as int]));
                    }
                }
                assert forall|i: int| 0 <= i < k + 1 && is_set_entry(#[trigger] entries@[i]) implies exists|a: int| 0 <= a < order@.len() && order@[a] == i by {
                    if i == k {
                        assert(order@[p as int] == k);
                    } else {
                        let a0 = choose|a: int| 0 <= a < old_order.len() && old_order[a] == i;
                        if a0 < p {
                            assert(order@[a0] == i);
                        } else {
                            assert(order@[a0 + 1] == i);
                        }
                    }
                }
            }
        } else {
            proof {
                assert(!is_set_entry(entries@[k as int]));
            }
        }
        k = k + 1;
    }
    order
}

/// `dir` joined with `name` by one `/` (no `/` added after one that ends `dir`).
pub open spec fn path_join(dir: Seq<char>, name: Seq<char>) -> Seq<char> {
    if dir.len() == 0 {
        name
    } else if dir.last() == '/' {
        dir + name
    } else {
        dir + seq!['/'] + name
    }
}

pub fn join_path(dir: &str, name: &str) -> (r: String)
    ensures
        r@ == path_join(dir@, name@),
{
    let d = chars_of(dir);
    if d.len() == 0 {
        return String::from_str(name);
    }
    let mut s = String::from_str(dir);
    if d[d.len() - 1] != '/' {
        push_char(&mut s, '/');
    }
    s.append(name);
    s
}

/// The sets among `entries` under `dest`, oldest first; their sizes are not
/// measured and read zero.
pub fn list_backup_sets(dest: &str, entries: &[SetEntry]) -> (r: Vec<BackupSetInfo>)
    ensures
        exists|order: Seq<usize>| #[trigger] is_set_order(entries@, order) && describes(r@, entries@, order, dest@),
{
    let order = order_sets(entries);
    let mut out: Vec<BackupSetInfo> = Vec::new();
    let mut a: usize = 0;
    while a < order.len()
        invariant
            a <= order@.len(),
            out@.len() == a,
            forall|x: int| 0 <= x < order@.len() ==> order@[x] < entries@.len(),
            forall|x: int| 0 <= x < a ==> {
                let e = entries@[order@[x] as int];
                &&& (#[trigger] out@[x]).name@ == e.name@
                &&& out@[x].path@ == path_join(dest@, e.name@)
                &&& out@[x].created == e.created
                &&& out@[x].size == 0
            },
        decreases order@.len() - a,
    {
        let e = &entries[order[a]];
        let info = BackupSetInfo {
            name: String::from_str(e.name.as_str()),
            path: join_path(dest, e.name.as_str()),
            created: e.created,
            size: 0,
        };
        out.push(info);
        a = a + 1;
    }
    assert(describes(out@, entries@, order@, dest@));
    assert(is_set_order(entries@, order@));
    out
}

/// A set that may serve as the prior set: a complete set entry.
pub open spec fn is_prior_candidate(e: SetEntry) -> bool {
    is_set_entry(e) && e.complete
}

/// The name of the most recent complete set (by creation time, ties by
/// name), or `None` if there is none.
pub fn find_most_recent_set(entries: &[SetEntry]) -> (r: Option<String>)
    ensures
        r is None ==> forall|i: int| 0 <= i < entries@.len() ==> !is_prior_candidate(#[trigger] entries@[i]),
        r matches Some(n) ==> exists|i: int|
            0 <= i < entries@.len() && is_prior_candidate(entries@[i]) && entries@[i].name@ == n@
                && forall|j: int| 0 <= j < entries@.len() && is_prior_candidate(#[trigger] entries@[j]) ==> !set_before(entries@[i], entries@[j]),
{
    let mut best: Option<usize> = None;
    let mut k: usize = 0;
    while k < entries.len()
        invariant
            k <= entries@.len(),
            best is None ==> forall|i: int| 0 <= i < k ==> !is_prior_candidate(#[trigger] entries@[i]),
            best matches Some(b) ==> b < k && is_prior_candidate(entries@[b as int]) && forall|j: int|
                0 <= j < k && is_prior_candidate(#[trigger] entries@[j]) ==> !set_before(entries@[b as int], entries@[j]),
        decreases entries@.len() - k,
    {
        let e = &entries[k];
        if e.is_dir && e.complete && name_has_set_prefix(e.name.as_str()) {
            match best {
                None => {
                    best = Some(k);
                    proof {
                        crate::text::lemma_seq_lt_irreflexive(e.name@);
                    }
                },
                Some(b) => {
                    if entry_before(&entries[b], e) {
                        proof {
                            assert forall|j: int| 0 <= j < k + 1 && is_prior_candidate(#[trigger] entries@[j]) implies !set_before(entries@[k as int], entries@[j]) by {
                                if j < k && set_before(entries@[k as int], entries@[j]) {
                                    lemma_set_before_transitive(entries@[b as int], entries@[k as int], entries@[j]);
                                }
                                if j == k {
                                    crate::text::lemma_seq_lt_irreflexive(e.name@);
                                }
                            }
                        }
                        best = Some(k);
                    }
                },
            }
        }
        k = k + 1;
    }
    match best {
        None => None,
        Some(b) => Some(String::from_str(entries[b].name.as_str())),
    }
}

/// The full path of the most recent complete set under `dest`, if any.
pub fn find_most_recent_backup_set(dest: &str, entries: &[SetEntry]) -> (r: Option<String>)
    ensures
        r is None ==> forall|i: int| 0 <= i < entries@.len() ==> !is_prior_candidate(#[trigger] entries@[i]),
        r matches Some(p) ==> exists|i: int|
            0 <= i < entries@.len() && is_prior_candidate(entries@[i]) && p@ == path_join(dest@, entries@[i].name@)
                && forall|j: int| 0 <= j < entries@.len() && is_prior_candidate(#[trigger] entries@[j]) ==> !set_before(entries@[i], entries@[j]),
{
    match find_most_recent_set(entries) {
        None => None,
        Some(n) => Some(join_path(dest, n.as_str())),
    }
}

} // verus!
