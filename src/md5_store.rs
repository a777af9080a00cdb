//! The digest index of a backup set: relative path to content digest, kept
//! sorted by path, with its text form (one `<hex>  <path>` line per file,
//! md5sum-style escaping) and the checksum line of that text.
use vstd::prelude::*;
use vstd::string::{StringExecFns, StringSliceAdditionalSpecFns};
use crate::digest::{md5_digest, md5_of};
use crate::text::{
    chars_lt, chars_of, hex_digit, hex_of, hex_string, hex_value, lemma_hex_of_len, parse_hex_digit, push_char, string_of, lemma_seq_lt_irreflexive, lemma_seq_lt_total,
    lemma_seq_lt_transitive, seq_lt, str_eq,
};

verus! {

/// File name of the digest index at the root of a set.
pub open spec fn index_file_name() -> Seq<char> {
    "disk-hog-backup-hashes.md5"@
}

/// Whether a path character is written escaped in the index.
pub open spec fn is_special(c: char) -> bool {
    c == '\\' || c == '\n' || c == '\r'
}

pub open spec fn has_special(p: Seq<char>) -> bool {
    exists|i: int| 0 <= i < p.len() && is_special(p[i])
}

pub open spec fn escape_char(c: char) -> Seq<char> {
    if c == '\\' {
        seq!['\\', '\\']
    } else if c == '\n' {
        seq!['\\', 'n']
    } else if c == '\r' {
        seq!['\\', 'r']
    } else {
        seq![c]
    }
}

/// The path with backslash, newline and carriage return backslash-escaped.
pub open spec fn escaped(p: Seq<char>) -> Seq<char>
    decreases p.len(),
{
    if p.len() == 0 {
        Seq::empty()
    } else {
        escaped(p.drop_last()) + escape_char(p.last())
    }
}

/// What a character after a backslash stands for, if the pair is an escape.
pub open spec fn unescape_pair(c: char) -> Option<char> {
    if c == 'n' {
        Some('\n')
    } else if c == 'r' {
        Some('\r')
    } else if c == '\\' {
        Some('\\')
    } else {
        None
    }
}

/// Reading escapes from the front; a backslash that starts no escape stays.
pub open spec fn unescaped(s: Seq<char>) -> Seq<char>
    decreases s.len(),
{
    if s.len() == 0 {
        Seq::empty()
    } else if s[0] == '\\' && s.len() >= 2 && unescape_pair(s[1]) is Some {
        seq![unescape_pair(s[1])->0] + unescaped(s.subrange(2, s.len() as int))
    } else {
        seq![s[0]] + unescaped(s.drop_first())
    }
}

/// One line of the index: a leading backslash when the path needed escaping,
/// the hex digest, two spaces, the escaped path, a newline.
pub open spec fn index_line(p: Seq<char>, d: Seq<u8>) -> Seq<char> {
    (if has_special(p) { seq!['\\'] } else { Seq::empty() }) + hex_of(d) + seq![' ', ' ']
        + escaped(p) + seq!['\n']
}

/// The index text of a sequence of entries, in the order given.
pub open spec fn index_text_of(es: Seq<(Seq<char>, Seq<u8>)>) -> Seq<char>
    decreases es.len(),
{
    if es.len() == 0 {
        Seq::empty()
    } else {
        index_text_of(es.drop_last()) + index_line(es.last().0, es.last().1)
    }
}

/// Index of the first two-space separator at or after `i`.
pub open spec fn first_sep_from(l: Seq<char>, i: int) -> Option<int>
    decreases l.len() - i,
{
    if i < 0 || i + 1 >= l.len() {
        None
    } else if l[i] == ' ' && l[i + 1] == ' ' {
        Some(i)
    } else {
        first_sep_from(l, i + 1)
    }
}

/// Exactly 32 hex digits.
pub open spec fn hex_ok(h: Seq<char>) -> bool {
    h.len() == 32 && forall|i: int| 0 <= i < 32 ==> hex_value(#[trigger] h[i]) is Some
}

/// The sixteen bytes that 32 hex digits spell.
pub open spec fn digest_of_hex(h: Seq<char>) -> Seq<u8> {
    Seq::new(16, |i: int| (hex_value(h[2 * i])->0 * 16 + hex_value(h[2 * i + 1])->0) as u8)
}

/// The line without its escape marker.
pub open spec fn unmarked(line: Seq<char>) -> Seq<char> {
    if line.len() > 0 && line[0] == '\\' {
        line.drop_first()
    } else {
        line
    }
}

/// A line of the index read back: `(path, digest)`, or nothing for a line
/// that is blank, a comment, lacks the separator or has a malformed digest.
pub open spec fn parse_line(line: Seq<char>) -> Option<(Seq<char>, Seq<u8>)> {
    let l = unmarked(line);
    match first_sep_from(l, 0) {
        None => None,
        Some(p) => if hex_ok(l.subrange(0, p)) {
            Some((unescaped(l.subrange(p + 2, l.len() as int)), digest_of_hex(l.subrange(0, p))))
        } else {
            None
        },
    }
}

/// The map after reading one more line.
pub open spec fn apply_line(m: Map<Seq<char>, Seq<u8>>, line: Seq<char>) -> Map<Seq<char>, Seq<u8>> {
    match parse_line(line) {
        Some(e) => m.insert(e.0, e.1),
        None => m,
    }
}

pub open spec fn strip_cr(l: Seq<char>) -> Seq<char> {
    if l.len() > 0 && l.last() == '\r' {
        l.drop_last()
    } else {
        l
    }
}

/// Reading text character by character: the entries of the lines finished so
/// far (a later line for the same path wins), and the line still open.
pub open spec fn scan(t: Seq<char>) -> (Map<Seq<char>, Seq<u8>>, Seq<char>)
    decreases t.len(),
{
    if t.len() == 0 {
        (Map::empty(), Seq::empty())
    } else {
        let st = scan(t.drop_last());
        if t.last() == '\n' {
            (apply_line(st.0, strip_cr(st.1)), Seq::empty())
        } else {
            (st.0, st.1.push(t.last()))
        }
    }
}

/// The map that an index text describes; a last line without a newline counts.
pub open spec fn loaded(t: Seq<char>) -> Map<Seq<char>, Seq<u8>> {
    let st = scan(t);
    if st.1.len() > 0 {
        apply_line(st.0, st.1)
    } else {
        st.0
    }
}

/// Strictly increasing paths.
pub open spec fn keys_sorted(es: Seq<(Seq<char>, Seq<u8>)>) -> bool {
    forall|i: int, j: int| 0 <= i < j < es.len() ==> seq_lt(#[trigger] es[i].0, #[trigger] es[j].0)
}

pub open spec fn has_key(es: Seq<(Seq<char>, Seq<u8>)>, k: Seq<char>) -> bool {
    exists|i: int| 0 <= i < es.len() && (#[trigger] es[i]).0 == k
}

/// A position that holds path `k`.
pub open spec fn key_index(es: Seq<(Seq<char>, Seq<u8>)>, k: Seq<char>) -> int {
    choose|i: int| 0 <= i < es.len() && (#[trigger] es[i]).0 == k
}

/// The map that a sequence of entries with distinct paths describes.
pub open spec fn map_of(es: Seq<(Seq<char>, Seq<u8>)>) -> Map<Seq<char>, Seq<u8>> {
    Map::new(|k: Seq<char>| has_key(es, k), |k: Seq<char>| es[key_index(es, k)].1)
}

proof fn lemma_map_of_at(es: Seq<(Seq<char>, Seq<u8>)>, i: int)
    requires
        keys_sorted(es),
        0 <= i < es.len(),
    ensures
        map_of(es).contains_key(es[i].0),
        map_of(es)[es[i].0] == es[i].1,
{
    let k = es[i].0;
    assert(has_key(es, k));
    let j = key_index(es, k);
    if j < i {
        assert(seq_lt(es[j].0, es[i].0));
        lemma_seq_lt_irreflexive(k);
    } else if i < j {
        assert(seq_lt(es[i].0, es[j].0));
        lemma_seq_lt_irreflexive(k);
    }
    assert(j == i);
    assert(map_of(es).contains_key(k));
    assert(map_of(es)[k] == es[j].1);
}

proof fn lemma_sorted_distinct(es: Seq<(Seq<char>, Seq<u8>)>, a: int, b: int)
    requires
        keys_sorted(es),
        0 <= a < es.len(),
        0 <= b < es.len(),
        a != b,
    ensures
        es[a].0 != es[b].0,
{
    if a < b {
        assert(seq_lt(es[a].0, es[b].0));
    } else {
        assert(seq_lt(es[b].0, es[a].0));
    }
    lemma_seq_lt_irreflexive(es[a].0);
}

/// The digest index of one backup set.
pub struct Md5Store {
    entries: Vec<(String, [u8; 16])>,
    backup_root: String,
}

impl Md5Store {
    /// The entries as paths and digests, in the order kept.
    pub closed spec fn entries_view(&self) -> Seq<(Seq<char>, Seq<u8>)> {
        self.entries@.map_values(|e: (String, [u8; 16])| (e.0@, e.1@))
    }

    /// The set root this index belongs to.
    pub closed spec fn root(&self) -> Seq<char> {
        self.backup_root@
    }

    /// Paths are kept sorted, hence distinct.
    pub open spec fn wf(&self) -> bool {
        keys_sorted(self.entries_view())
    }

    /// Relative path to digest.
    pub open spec fn hashes(&self) -> Map<Seq<char>, Seq<u8>> {
        map_of(self.entries_view())
    }

    /// An empty index for the set at `backup_root`.
    pub fn new(backup_root: &str) -> (r: Self)
        ensures
            r.wf(),
            r.hashes() == Map::<Seq<char>, Seq<u8>>::empty(),
            r.root() == backup_root@,
    {
        let r = Md5Store { entries: Vec::new(), backup_root: String::from_str(backup_root) };
        assert(r.hashes() =~= Map::<Seq<char>, Seq<u8>>::empty());
        r
    }

    /// The set root this index belongs to.
    pub fn backup_root(&self) -> (r: &String)
        ensures
            r@ == self.root(),
    {
        &self.backup_root
    }

    /// Records the digest of `rel_path`, replacing an earlier one.
    pub fn add_hash(&mut self, rel_path: &str, hash: [u8; 16])
        requires
            old(self).wf(),
        ensures
            final(self).wf(),
            final(self).hashes() == old(self).hashes().insert(rel_path@, hash@),
            final(self).root() == old(self).root(),
    {
        let key = chars_of(rel_path);
        let ghost es = self.entries_view();
        let mut i: usize = 0;
        while i < self.entries.len() && chars_lt(&chars_of(self.entries[i].0.as_str()), &key)
            invariant
                i <= self.entries.len(),
                es == self.entries_view(),
                keys_sorted(es),
                key@ == rel_path@,
                forall|j: int| 0 <= j < i ==> seq_lt(#[trigger] es[j].0, key@),
            decreases self.entries.len() - i,
        {
            i = i + 1;
        }
        let ghost k = rel_path@;
        let ghost v = hash@;
        if i < self.entries.len() && str_eq(self.entries[i].0.as_str(), rel_path) {
            self.entries.set(i, (String::from_str(rel_path), hash));
            proof {
                let ns = self.entries_view();
                assert(ns =~= es.update(i as int, (k, v)));
                assert(keys_sorted(ns)) by {
                    assert forall|a: int, b: int| 0 <= a < b < ns.len() implies seq_lt(
                        #[trigger] ns[a].0,
                        #[trigger] ns[b].0,
                    ) by {
                        assert(seq_lt(es[a].0, es[b].0));
                    }
                }
                assert forall|q: Seq<char>| #[trigger] map_of(ns).contains_key(q)
                    == map_of(es).insert(k, v).contains_key(q) by {
                    if q != k && has_key(es, q) {
                        let j = choose|j: int| 0 <= j < es.len() && (#[trigger] es[j]).0 == q;
                        assert(ns[j].0 == q);
                    }
                    if has_key(ns, q) && q != k {
                        let j = choose|j: int| 0 <= j < ns.len() && (#[trigger] ns[j]).0 == q;
                        assert(es[j].0 == q);
                    }
                    if q == k {
                        assert(ns[i as int].0 == q);
                    }
                }
                assert forall|q: Seq<char>| #[trigger] map_of(ns).contains_key(q) implies map_of(
                    ns,
                )[q] == map_of(es).insert(k, v)[q] by {
                    let j = key_index(ns, q);
                    lemma_map_of_at(ns, j);
                    if j != i {
                        lemma_sorted_distinct(ns, j, i as int);
                        lemma_map_of_at(es, j);
                    }
                }
                assert(map_of(ns) =~= map_of(es).insert(k, v));
            }
        } else {
            proof {
                if i < es.len() {
                    lemma_seq_lt_total(es[i as int].0, k);
                }
            }
            self.entries.insert(i, (String::from_str(rel_path), hash));
            proof {
                let ns = self.entries_view();
                assert(ns =~= es.insert(i as int, (k, v)));
                assert(keys_sorted(ns)) by {
                    assert forall|a: int, b: int| 0 <= a < b < ns.len() implies seq_lt(
                        #[trigger] ns[a].0,
                        #[trigger] ns[b].0,
                    ) by {
                        if b < i {
                            assert(seq_lt(es[a].0, es[b].0));
                        } else if b == i {
                        } else if a < i {
                            assert(seq_lt(es[i as int].0, es[b - 1].0) || i == b - 1);
                            assert(seq_lt(es[a].0, es[b - 1].0));
                        } else if a == i {
                            if b - 1 > i {
                                assert(seq_lt(es[i as int].0, es[b - 1].0));
                                lemma_seq_lt_transitive(k, es[i as int].0, es[b - 1].0);
                            }
                        } else {
                            assert(seq_lt(es[a - 1].0, es[b - 1].0));
                        }
                    }
                }
                assert forall|q: Seq<char>| #[trigger] map_of(ns).contains_key(q)
                    == map_of(es).insert(k, v).contains_key(q) by {
                    if has_key(es, q) {
                        let j = choose|j: int| 0 <= j < es.len() && (#[trigger] es[j]).0 == q;
                        if j < i {
                            assert(ns[j].0 == q);
                        } else {
                            assert(ns[j + 1].0 == q);
                        }
                    }
                    if has_key(ns, q) && q != k {
                        let j = choose|j: int| 0 <= j < ns.len() && (#[trigger] ns[j]).0 == q;
                        if j < i {
                            assert(es[j].0 == q);
                        } else {
                            assert(es[j - 1].0 == q);
                        }
                    }
                    if q == k {
                        assert(ns[i as int].0 == q);
                    }
                }
                assert forall|q: Seq<char>| #[trigger] map_of(ns).contains_key(q) implies map_of(
                    ns,
                )[q] == map_of(es).insert(k, v)[q] by {
                    let j = key_index(ns, q);
                    lemma_map_of_at(ns, j);
                    if j != i {
                        lemma_sorted_distinct(ns, j, i as int);
                    }
                    if j < i {
                        lemma_map_of_at(es, j);
                    } else if j > i {
                        lemma_map_of_at(es, j - 1);
                    }
                }
                assert(map_of(ns) =~= map_of(es).insert(k, v));
            }
        }
    }

    /// The digest recorded for `rel_path`, if any.
    pub fn get_hash(&self, rel_path: &str) -> (r: Option<&[u8; 16]>)
        requires
            self.wf(),
        ensures
            r matches Some(h) ==> self.hashes().contains_key(rel_path@) && self.hashes()[rel_path@]
                == h@,
            r is None ==> !self.hashes().contains_key(rel_path@),
    {
        let ghost es = self.entries_view();
        let mut i: usize = 0;
        while i < self.entries.len()
            invariant
                i <= self.entries.len(),
                es == self.entries_view(),
                keys_sorted(es),
                forall|j: int| 0 <= j < i ==> (#[trigger] es[j]).0 != rel_path@,
            decreases self.entries.len() - i,
        {
            if str_eq(self.entries[i].0.as_str(), rel_path) {
                proof {
                    lemma_map_of_at(es, i as int);
                }
                return Some(&self.entries[i].1);
            }
            i = i + 1;
        }
        None
    }
}


/// The path with backslash, newline and carriage return escaped.
pub fn escape_chars(p: &Vec<char>) -> (r: Vec<char>)
    ensures
        r@ == escaped(p@),
{
    let mut out: Vec<char> = Vec::new();
    let mut i: usize = 0;
    while i < p.len()
        invariant
            i <= p.len(),
            out@ == escaped(p@.subrange(0, i as int)),
        decreases p.len() - i,
    {
        let c = p[i];
        if c == '\\' {
            out.push('\\');
            out.push('\\');
        } else if c == '\n' {
            out.push('\\');
            out.push('n');
        } else if c == '\r' {
            out.push('\\');
            out.push('r');
        } else {
            out.push(c);
        }
        proof {
            let q = p@.subrange(0, i + 1);
            assert(q.drop_last() =~= p@.subrange(0, i as int));
            assert(out@ =~= escaped(q));
        }
        i = i + 1;
    }
    assert(p@.subrange(0, p.len() as int) =~= p@);
    out
}

/// Whether the path holds a character that is written escaped.
pub fn contains_special(p: &Vec<char>) -> (r: bool)
    ensures
        r == has_special(p@),
{
    let mut i: usize = 0;
    while i < p.len()
        invariant
            i <= p.len(),
            forall|k: int| 0 <= k < i ==> !is_special(#[trigger] p@[k]),
        decreases p.len() - i,
    {
        if p[i] == '\\' || p[i] == '\n' || p[i] == '\r' {
            assert(is_special(p@[i as int]));
            return true;
        }
        i = i + 1;
    }
    false
}

/// One index line for `path` and its digest.
pub fn format_md5_line(path: &str, hash: &[u8; 16]) -> (r: String)
    ensures
        r@ == index_line(path@, hash@),
{
    let p = chars_of(path);
    let mut s = String::new();
    if contains_special(&p) {
        push_char(&mut s, '\\');
    }
    let h = hex_string(hash);
    s.append(h.as_str());
    push_char(&mut s, ' ');
    push_char(&mut s, ' ');
    let e = string_of(&escape_chars(&p));
    s.append(e.as_str());
    push_char(&mut s, '\n');
    assert(s@ =~= index_line(path@, hash@));
    s
}

/// Unescaping `v` from position `from` on.
fn unescape_from(v: &Vec<char>, from: usize) -> (r: Vec<char>)
    requires
        from <= v.len(),
    ensures
        r@ == unescaped(v@.subrange(from as int, v@.len() as int)),
{
    let mut out: Vec<char> = Vec::new();
    let mut i: usize = from;
    let ghost whole = v@.subrange(from as int, v@.len() as int);
    while i < v.len()
        invariant
            from <= i <= v.len(),
            whole == v@.subrange(from as int, v@.len() as int),
            out@ + unescaped(v@.subrange(i as int, v@.len() as int)) == unescaped(whole),
        decreases v.len() - i,
    {
        let ghost rest = v@.subrange(i as int, v@.len() as int);
        let c = v[i];
        if c == '\\' && i + 1 < v.len() && (v[i + 1] == 'n' || v[i + 1] == 'r' || v[i + 1] == '\\') {
            let n = v[i + 1];
            let d = if n == 'n' { '\n' } else if n == 'r' { '\r' } else { '\\' };
            proof {
                assert(rest[0] == c && rest[1] == n);
                assert(rest.subrange(2, rest.len() as int) =~= v@.subrange(i + 2, v@.len() as int));
                assert(unescaped(rest) == seq![d] + unescaped(v@.subrange(i + 2, v@.len() as int)));
            }
            out.push(d);
            i = i + 2;
            proof {
                assert(out@ + unescaped(v@.subrange(i as int, v@.len() as int)) =~= unescaped(whole));
            }
        } else {
            proof {
                assert(rest[0] == c);
                assert(rest.drop_first() =~= v@.subrange(i + 1, v@.len() as int));
                assert(unescaped(rest) == seq![c] + unescaped(v@.subrange(i + 1, v@.len() as int)));
            }
            out.push(c);
            i = i + 1;
            proof {
                assert(out@ + unescaped(v@.subrange(i as int, v@.len() as int)) =~= unescaped(whole));
            }
        }
    }
    assert(v@.subrange(i as int, v@.len() as int) =~= Seq::<char>::empty());
    assert(out@ =~= out@ + Seq::<char>::empty());
    out
}

/// Parses one line of chars; see `parse_line`.
fn parse_chars(line: &Vec<char>) -> (r: Option<([u8; 16], Vec<char>)>)
    ensures
        match parse_line(line@) {
            None => r is None,
            Some(e) => r matches Some(x) && x.1@ == e.0 && x.0@ == e.1,
        },
{
    let start: usize = if line.len() > 0 && line[0] == '\\' { 1 } else { 0 };
    let ghost l = unmarked(line@);
    assert(l =~= line@.subrange(start as int, line@.len() as int));
    let mut i: usize = start;
    while i < line.len() && i + 1 < line.len() && !(line[i] == ' ' && line[i + 1] == ' ')
        invariant
            start <= i <= line.len(),
            l == line@.subrange(start as int, line@.len() as int),
            first_sep_from(l, 0) == first_sep_from(l, i - start),
        decreases line.len() - i,
    {
        i = i + 1;
    }
    if i >= line.len() || i + 1 >= line.len() {
        return None;
    }
    let p: usize = i - start;
    assert(first_sep_from(l, 0) == Some(p as int));
    if p != 32 {
        return None;
    }
    let ghost h = l.subrange(0, 32);
    assert(h =~= line@.subrange(start as int, start + 32));
    let mut k: usize = 0;
    while k < 32
        invariant
            k <= 32,
            i == start + 32,
            i + 1 < line.len(),
            h == line@.subrange(start as int, start + 32),
            l == unmarked(line@),
            h == l.subrange(0, 32),
            first_sep_from(l, 0) == Some(32int),
            forall|j: int| 0 <= j < k ==> hex_value(#[trigger] h[j]) is Some,
        decreases 32 - k,
    {
        if parse_hex_digit(line[start + k]).is_none() {
            assert(h[k as int] == line@[start + k]);
            assert(!hex_ok(h));
            return None;
        }
        k = k + 1;
    }
    assert(hex_ok(h));
    let mut d: [u8; 16] = [0u8; 16];
    let mut b: usize = 0;
    while b < 16
        invariant
            b <= 16,
            i == start + 32,
            i + 1 < line.len(),
            h == line@.subrange(start as int, start + 32),
            l == unmarked(line@),
            l == line@.subrange(start as int, line@.len() as int),
            h == l.subrange(0, 32),
            first_sep_from(l, 0) == Some(32int),
            hex_ok(h),
            d@.len() == 16,
            forall|j: int| 0 <= j < b ==> d@[j] == #[trigger] digest_of_hex(h)[j],
        decreases 16 - b,
    {
        let hi = parse_hex_digit(line[start + 2 * b]);
        let lo = parse_hex_digit(line[start + 2 * b + 1]);
        assert(hex_value(h[2 * b as int]) is Some);
        assert(hex_value(h[2 * b + 1]) is Some);
        let hv = hi.unwrap();
        let lv = lo.unwrap();
        d[b] = hv * 16 + lv;
        b = b + 1;
    }
    assert(d@ =~= digest_of_hex(h));
    let path = unescape_from(line, i + 2);
    assert(line@.subrange(i + 2, line@.len() as int) =~= l.subrange(34, l.len() as int));
    Some((d, path))
}

impl Md5Store {
    /// Reads one index line: the digest and the unescaped path, or `None`
    /// for a blank, comment or malformed line.
    pub fn parse_md5_line(line: &str) -> (r: Option<([u8; 16], String)>)
        ensures
            match parse_line(line@) {
                None => r is None,
                Some(e) => r matches Some(x) && x.1@ == e.0 && x.0@ == e.1,
            },
    {
        let v = chars_of(line);
        match parse_chars(&v) {
            None => None,
            Some(x) => Some((x.0, string_of(&x.1))),
        }
    }

    /// Undoes the escaping of a path.
    pub fn unescape_path(escaped_path: &str) -> (r: String)
        ensures
            r@ == unescaped(escaped_path@),
    {
        let v = chars_of(escaped_path);
        let out = unescape_from(&v, 0);
        assert(v@.subrange(0, v@.len() as int) =~= v@);
        string_of(&out)
    }

    /// The index text: one line per entry, sorted by path.
    pub fn index_text(&self) -> (r: String)
        ensures
            r@ == index_text_of(self.entries_view()),
    {
        let mut s = String::new();
        let mut i: usize = 0;
        while i < self.entries.len()
            invariant
                i <= self.entries.len(),
                s@ == index_text_of(self.entries_view().subrange(0, i as int)),
            decreases self.entries.len() - i,
        {
            let line = format_md5_line(self.entries[i].0.as_str(), &self.entries[i].1);
            s.append(line.as_str());
            proof {
                let q = self.entries_view().subrange(0, i + 1);
                assert(q.drop_last() =~= self.entries_view().subrange(0, i as int));
                assert(s@ =~= index_text_of(q));
            }
            i = i + 1;
        }
        assert(self.entries_view().subrange(0, i as int) =~= self.entries_view());
        s
    }

    /// Reads an index text back. Lines are split at newlines (a carriage
    /// return before one is dropped); lines that do not parse are skipped.
    pub fn from_index_text(backup_root: &str, text: &str) -> (r: Self)
        ensures
            r.wf(),
            r.hashes() == loaded(text@),
            r.root() == backup_root@,
    {
        let t = chars_of(text);
        let mut store = Md5Store::new(backup_root);
        let mut cur: Vec<char> = Vec::new();
        let mut i: usize = 0;
        while i < t.len()
            invariant
                i <= t.len(),
                t@ == text@,
                store.wf(),
                store.root() == backup_root@,
                store.hashes() == scan(t@.subrange(0, i as int)).0,
                cur@ == scan(t@.subrange(0, i as int)).1,
            decreases t.len() - i,
        {
            let c = t[i];
            let ghost pre = t@.subrange(0, i as int);
            assert(t@.subrange(0, i + 1).drop_last() =~= pre);
            if c == '\n' {
                let mut line = cur;
                if line.len() > 0 && line[line.len() - 1] == '\r' {
                    line.pop();
                    assert(line@ =~= strip_cr(scan(pre).1));
                }
                if let Some(e) = parse_chars(&line) {
                    let p = string_of(&e.1);
                    store.add_hash(p.as_str(), e.0);
                }
                cur = Vec::new();
            } else {
                cur.push(c);
            }
            i = i + 1;
        }
        assert(t@.subrange(0, t@.len() as int) =~= text@);
        if cur.len() > 0 {
            if let Some(e) = parse_chars(&cur) {
                let p = string_of(&e.1);
                store.add_hash(p.as_str(), e.0);
            }
        }
        store
    }
}

/// The checksum line of an index text: its MD5 in hex, two spaces, the
/// index file name, a newline (md5sum layout).
pub fn checksum_line(index_text: &str) -> (r: String)
    ensures
        r@ == hex_of(md5_of(index_text.spec_bytes())) + seq![' ', ' '] + index_file_name() + seq!['\n'],
{
    let digest = md5_digest(index_text.as_bytes());
    let mut s = hex_string(&digest);
    push_char(&mut s, ' ');
    push_char(&mut s, ' ');
    let name = "disk-hog-backup-hashes.md5";
    proof {
        reveal_strlit("disk-hog-backup-hashes.md5");
    }
    s.append(name);
    push_char(&mut s, '\n');
    assert(s@ =~= hex_of(md5_of(index_text.spec_bytes())) + seq![' ', ' '] + index_file_name() + seq!['\n']);
    s
}

proof fn lemma_escaped_concat(a: Seq<char>, b: Seq<char>)
    ensures
        escaped(a + b) == escaped(a) + escaped(b),
    decreases b.len(),
{
    if b.len() == 0 {
        assert(a + b =~= a);
        assert(escaped(a) + escaped(b) =~= escaped(a));
    } else {
        assert((a + b).drop_last() =~= a + b.drop_last());
        lemma_escaped_concat(a, b.drop_last());
        assert(escaped(a + b) =~= escaped(a) + escaped(b));
    }
}

proof fn lemma_unescape_escaped(p: Seq<char>)
    ensures
        unescaped(escaped(p)) == p,
    decreases p.len(),
{
    if p.len() > 0 {
        let rest = p.drop_first();
        assert(p =~= seq![p[0]] + rest);
        lemma_escaped_concat(seq![p[0]], rest);
        let one = seq![p[0]];
        assert(one.drop_last() =~= Seq::<char>::empty());
        assert(one.last() == p[0]);
        assert(escaped(one.drop_last()) =~= Seq::<char>::empty());
        assert(escaped(one) == escaped(one.drop_last()) + escape_char(one.last()));
        assert(escaped(one) =~= escape_char(p[0]));
        lemma_unescape_escaped(rest);
        let e = escaped(p);
        let c = p[0];
        if c == '\\' || c == '\n' || c == '\r' {
            assert(e.subrange(2, e.len() as int) =~= escaped(rest));
        } else {
            assert(e.drop_first() =~= escaped(rest));
        }
        assert(unescaped(e) =~= p);
    } else {
        assert(escaped(p) =~= Seq::<char>::empty());
    }
}

proof fn lemma_escaped_plain(p: Seq<char>)
    ensures
        forall|i: int| 0 <= i < escaped(p).len() ==> escaped(p)[i] != '\n' && escaped(p)[i] != '\r',
        !has_special(p) ==> escaped(p) == p,
    decreases p.len(),
{
    if p.len() > 0 {
        lemma_escaped_plain(p.drop_last());
        let a = escaped(p.drop_last());
        let b = escape_char(p.last());
        assert(escaped(p) == a + b);
        assert forall|i: int| 0 <= i < escaped(p).len() implies escaped(p)[i] != '\n' && escaped(p)[i] != '\r' by {
            if i < a.len() {
                assert(escaped(p)[i] == a[i]);
            } else {
                assert(escaped(p)[i] == b[i - a.len()]);
            }
        }
        if !has_special(p) {
            assert(!has_special(p.drop_last())) by {
                if has_special(p.drop_last()) {
                    let i = choose|i: int| 0 <= i < p.drop_last().len() && is_special(p.drop_last()[i]);
                    assert(is_special(p[i]));
                }
            }
            assert(!is_special(p[p.len() - 1]));
            assert(escaped(p) =~= p);
        }
    } else {
        assert(escaped(p) =~= p);
    }
}

proof fn lemma_hex_of_at(d: Seq<u8>, i: int)
    requires
        0 <= i < d.len(),
    ensures
        hex_of(d).len() == 2 * d.len(),
        hex_of(d)[2 * i] == hex_digit((d[i] / 16) as int),
        hex_of(d)[2 * i + 1] == hex_digit((d[i] % 16) as int),
    decreases d.len(),
{
    lemma_hex_of_len(d);
    lemma_hex_of_len(d.drop_last());
    if i < d.len() - 1 {
        lemma_hex_of_at(d.drop_last(), i);
    }
}

proof fn lemma_hex_digit_value(n: int)
    requires
        0 <= n < 16,
    ensures
        hex_value(hex_digit(n)) == Some(n),
        hex_digit(n) != ' ' && hex_digit(n) != '\\' && hex_digit(n) != '\n' && hex_digit(n) != '\r',
{
}

/// The characters of an index line before its newline.
pub open spec fn line_body(p: Seq<char>, d: Seq<u8>) -> Seq<char> {
    (if has_special(p) { seq!['\\'] } else { Seq::empty() }) + hex_of(d) + seq![' ', ' '] + escaped(p)
}

proof fn lemma_parse_line_body(p: Seq<char>, d: Seq<u8>)
    requires
        d.len() == 16,
    ensures
        parse_line(line_body(p, d)) == Some((p, d)),
        forall|i: int| 0 <= i < line_body(p, d).len() ==> line_body(p, d)[i] != '\n',
        strip_cr(line_body(p, d)) == line_body(p, d),
        index_line(p, d) == line_body(p, d) + seq!['\n'],
{
    let h = hex_of(d);
    lemma_hex_of_len(d);
    lemma_escaped_plain(p);
    lemma_unescape_escaped(p);
    let body = line_body(p, d);
    let l = h + seq![' ', ' '] + escaped(p);
    assert forall|k: int| 0 <= k < 32 implies hex_value(#[trigger] h[k]) is Some && h[k] != ' ' && h[k] != '\\' && h[k] != '\n' && h[k] != '\r' by {
        let b = k / 2;
        lemma_hex_of_at(d, b);
        if k % 2 == 0 {
            assert(k == 2 * b);
            lemma_hex_digit_value((d[b] / 16) as int);
        } else {
            assert(k == 2 * b + 1);
            lemma_hex_digit_value((d[b] % 16) as int);
        }
    }
    assert(unmarked(body) =~= l) by {
        if has_special(p) {
            assert(body =~= seq!['\\'] + l);
        } else {
            assert(body =~= l);
            assert(body[0] == h[0]);
        }
    }
    assert(l[32] == ' ' && l[33] == ' ');
    assert forall|j: int| 0 <= j < 32 implies l[j] != ' ' by {
        assert(l[j] == h[j]);
    }
    lemma_first_sep_skip(l, 0);
    assert(first_sep_from(l, 0) == Some(32int));
    assert(l.subrange(0, 32) =~= h);
    assert(hex_ok(h));
    assert(digest_of_hex(h) =~= d) by {
        assert forall|b: int| 0 <= b < 16 implies #[trigger] digest_of_hex(h)[b] == d[b] by {
            lemma_hex_of_at(d, b);
            lemma_hex_digit_value((d[b] / 16) as int);
            lemma_hex_digit_value((d[b] % 16) as int);
        }
    }
    assert(l.subrange(34, l.len() as int) =~= escaped(p));
    assert(parse_line(body) == Some((p, d)));
    assert forall|i: int| 0 <= i < body.len() implies body[i] != '\n' by {
        let off: int = if has_special(p) { 1 } else { 0 };
        if i >= off + 34 {
            assert(body[i] == escaped(p)[i - off - 34]);
        } else if i >= off + 32 {
        } else if i >= off {
            assert(body[i] == h[i - off]);
        }
    }
    assert(strip_cr(body) == body) by {
        if body.len() > 0 {
            let i = body.len() - 1;
            let off: int = if has_special(p) { 1 } else { 0 };
            if i >= off + 34 {
                assert(body[i] == escaped(p)[i - off - 34]);
            }
        }
    }
    assert(index_line(p, d) =~= body + seq!['\n']);
}

proof fn lemma_first_sep_skip(l: Seq<char>, k: int)
    requires
        0 <= k <= 32,
        l.len() >= 34,
        l[32] == ' ',
        l[33] == ' ',
        forall|j: int| 0 <= j < 32 ==> l[j] != ' ',
    ensures
        first_sep_from(l, k) == first_sep_from(l, 32),
    decreases 32 - k,
{
    if k < 32 {
        lemma_first_sep_skip(l, k + 1);
    }
}

proof fn lemma_scan_no_newline(t: Seq<char>, u: Seq<char>)
    requires
        forall|i: int| 0 <= i < u.len() ==> u[i] != '\n',
    ensures
        scan(t + u) == (scan(t).0, scan(t).1 + u),
    decreases u.len(),
{
    if u.len() == 0 {
        assert(t + u =~= t);
        assert(scan(t).1 + u =~= scan(t).1);
    } else {
        assert((t + u).drop_last() =~= t + u.drop_last());
        lemma_scan_no_newline(t, u.drop_last());
        assert(scan(t).1 + u =~= (scan(t).1 + u.drop_last()).push(u.last()));
    }
}

proof fn lemma_scan_index_text(es: Seq<(Seq<char>, Seq<u8>)>)
    requires
        forall|i: int| 0 <= i < es.len() ==> (#[trigger] es[i]).1.len() == 16,
    ensures
        scan(index_text_of(es)).1.len() == 0,
        scan(index_text_of(es)).0 == fold_entries(es),
    decreases es.len(),
{
    if es.len() > 0 {
        let pre = es.drop_last();
        let e = es.last();
        assert forall|i: int| 0 <= i < pre.len() implies (#[trigger] pre[i]).1.len() == 16 by {
            assert(pre[i] == es[i]);
        }
        lemma_scan_index_text(pre);
        lemma_parse_line_body(e.0, e.1);
        let t = index_text_of(pre);
        let body = line_body(e.0, e.1);
        lemma_scan_no_newline(t, body);
        assert(index_text_of(es) =~= (t + body).push('\n'));
        assert(((t + body).push('\n')).drop_last() =~= t + body);
        assert(scan(t).1 + body =~= body);
    }
}

/// The map built by inserting the entries in order.
pub open spec fn fold_entries(es: Seq<(Seq<char>, Seq<u8>)>) -> Map<Seq<char>, Seq<u8>>
    decreases es.len(),
{
    if es.len() == 0 {
        Map::empty()
    } else {
        fold_entries(es.drop_last()).insert(es.last().0, es.last().1)
    }
}

proof fn lemma_fold_entries_sorted(es: Seq<(Seq<char>, Seq<u8>)>)
    requires
        keys_sorted(es),
    ensures
        fold_entries(es) == map_of(es),
    decreases es.len(),
{
    if es.len() == 0 {
        assert(map_of(es) =~= Map::<Seq<char>, Seq<u8>>::empty());
    } else {
        let pre = es.drop_last();
        assert(keys_sorted(pre)) by {
            assert forall|i: int, j: int| 0 <= i < j < pre.len() implies seq_lt(#[trigger] pre[i].0, #[trigger] pre[j].0) by {
                assert(seq_lt(es[i].0, es[j].0));
            }
        }
        lemma_fold_entries_sorted(pre);
        let n = es.len() - 1;
        assert forall|q: Seq<char>| #[trigger] map_of(es).contains_key(q) == map_of(pre).insert(es[n].0, es[n].1).contains_key(q) by {
            if has_key(es, q) && q != es[n].0 {
                let j = key_index(es, q);
                assert(j != n);
                assert(pre[j].0 == q);
            }
            if has_key(pre, q) {
                let j = key_index(pre, q);
                assert(es[j].0 == q);
            }
            if q == es[n].0 {
                assert(es[n].0 == q);
            }
        }
        assert forall|q: Seq<char>| #[trigger] map_of(es).contains_key(q) implies map_of(es)[q] == map_of(pre).insert(es[n].0, es[n].1)[q] by {
            let j = key_index(es, q);
            lemma_map_of_at(es, j);
            if j != n {
                lemma_sorted_distinct(es, j, n);
                assert(pre[j] == es[j]);
                lemma_map_of_at(pre, j);
            }
        }
        assert(map_of(es) =~= map_of(pre).insert(es[n].0, es[n].1));
    }
}

proof fn lemma_sorted_prefix(es: Seq<(Seq<char>, Seq<u8>)>)
    requires
        keys_sorted(es),
        es.len() > 0,
    ensures
        keys_sorted(es.drop_last()),
        map_of(es) == map_of(es.drop_last()).insert(es.last().0, es.last().1),
        !map_of(es.drop_last()).contains_key(es.last().0),
        forall|k: Seq<char>| #[trigger] map_of(es).contains_key(k) ==> k == es.last().0 || seq_lt(k, es.last().0),
{
    lemma_fold_entries_sorted(es);
    lemma_fold_entries_sorted(es.drop_last());
    let pre = es.drop_last();
    let n = es.len() - 1;
    assert(keys_sorted(pre)) by {
        assert forall|i: int, j: int| 0 <= i < j < pre.len() implies seq_lt(#[trigger] pre[i].0, #[trigger] pre[j].0) by {
            assert(seq_lt(es[i].0, es[j].0));
        }
    }
    if has_key(pre, es[n].0) {
        let j = key_index(pre, es[n].0);
        lemma_sorted_distinct(es, j, n);
    }
    assert forall|k: Seq<char>| #[trigger] map_of(es).contains_key(k) implies k == es.last().0 || seq_lt(k, es.last().0) by {
        let j = key_index(es, k);
        if j != n {
            assert(seq_lt(es[j].0, es[n].0));
        }
    }
}

proof fn lemma_sorted_unique(a: Seq<(Seq<char>, Seq<u8>)>, b: Seq<(Seq<char>, Seq<u8>)>)
    requires
        keys_sorted(a),
        keys_sorted(b),
        map_of(a) == map_of(b),
    ensures
        a == b,
    decreases a.len() + b.len(),
{
    if a.len() == 0 && b.len() == 0 {
        assert(a =~= b);
    } else if a.len() == 0 {
        lemma_map_of_at(b, 0);
        assert(!has_key(a, b[0].0));
    } else if b.len() == 0 {
        lemma_map_of_at(a, 0);
        assert(!has_key(b, a[0].0));
    } else {
        lemma_sorted_prefix(a);
        lemma_sorted_prefix(b);
        let ka = a.last().0;
        let kb = b.last().0;
        lemma_map_of_at(a, a.len() - 1);
        lemma_map_of_at(b, b.len() - 1);
        assert(ka == kb) by {
            if ka != kb {
                assert(map_of(b).contains_key(ka));
                assert(map_of(a).contains_key(kb));
                assert(seq_lt(ka, kb));
                assert(seq_lt(kb, ka));
                lemma_seq_lt_transitive(ka, kb, ka);
                lemma_seq_lt_irreflexive(ka);
            }
        }
        assert(a.last().1 == b.last().1);
        assert(map_of(a.drop_last()) =~= map_of(a).remove(ka));
        assert(map_of(b.drop_last()) =~= map_of(b).remove(kb));
        lemma_sorted_unique(a.drop_last(), b.drop_last());
        assert(a =~= a.drop_last().push(a.last()));
        assert(b =~= b.drop_last().push(b.last()));
    }
}

impl Md5Store {
    /// Reading back the index text of a store gives the same map: every
    /// path with its digest, and nothing else.
    pub proof fn law_index_round_trip(&self)
        requires
            self.wf(),
        ensures
            loaded(index_text_of(self.entries_view())) == self.hashes(),
    {
        let es = self.entries_view();
        assert forall|i: int| 0 <= i < es.len() implies (#[trigger] es[i]).1.len() == 16 by {
            assert(es[i].1 == self.entries@[i].1@);
        }
        lemma_scan_index_text(es);
        lemma_fold_entries_sorted(es);
    }

    /// The index text depends on the map alone, not on the order in which
    /// entries were added: stores with the same paths and digests persist
    /// byte-identical indices.
    pub proof fn law_index_text_determined(&self, other: &Md5Store)
        requires
            self.wf(),
            other.wf(),
            self.hashes() == other.hashes(),
        ensures
            index_text_of(self.entries_view()) == index_text_of(other.entries_view()),
    {
        lemma_sorted_unique(self.entries_view(), other.entries_view());
    }
}

} // verus!
