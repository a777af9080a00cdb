//! Ignore rules: patterns from `.dhbignore` files, matched against paths
//! relative to the source root. `*` is a glob wildcard, a trailing `/`
//! restricts a pattern to directories, a leading `/` anchors it at the root
//! and a leading `!` re-includes what it matches.
use vstd::prelude::*;
use crate::text::{chars_of, is_white, trim_chars, trimmed};

verus! {

/// Glob match: `*` stands for any run of characters, all else for itself.
pub open spec fn glob(s: Seq<char>, p: Seq<char>) -> bool
    decreases p.len(), s.len(),
{
    if p.len() == 0 {
        s.len() == 0
    } else if p[0] == '*' {
        glob(s, p.drop_first()) || (s.len() > 0 && glob(s.drop_first(), p))
    } else {
        s.len() > 0 && s[0] == p[0] && glob(s.drop_first(), p.drop_first())
    }
}

/// `s[i..j]` is one of the `/`-separated segments of `s`.
pub open spec fn is_segment(s: Seq<char>, i: int, j: int) -> bool {
    &&& 0 <= i <= j <= s.len()
    &&& (i == 0 || s[i - 1] == '/')
    &&& (j == s.len() || s[j] == '/')
    &&& forall|k: int| i <= k < j ==> s[k] != '/'
}

/// `s` starts with `d` followed by a `/`.
pub open spec fn under_dir(s: Seq<char>, d: Seq<char>) -> bool {
    s.len() > d.len() && s.subrange(0, d.len() as int) == d && s[d.len() as int] == '/'
}

/// Some segment matches the glob `p`; unless `dir` holds, it must not be the
/// last segment (the entry itself), so only a directory matches as itself.
pub open spec fn some_segment_glob(s: Seq<char>, p: Seq<char>, last_ok: bool) -> bool {
    exists|i: int, j: int|
        is_segment(s, i, j) && glob(#[trigger] s.subrange(i, j), p) && (j < s.len() || last_ok)
}

pub open spec fn some_segment_eq(s: Seq<char>, p: Seq<char>, last_ok: bool) -> bool {
    exists|i: int, j: int|
        is_segment(s, i, j) && #[trigger] s.subrange(i, j) == p && (j < s.len() || last_ok)
}

pub open spec fn has_star(p: Seq<char>) -> bool {
    exists|k: int| 0 <= k < p.len() && p[k] == '*'
}

pub open spec fn ends_slash(p: Seq<char>) -> bool {
    p.len() > 0 && p.last() == '/'
}

pub open spec fn starts_slash(p: Seq<char>) -> bool {
    p.len() > 0 && p[0] == '/'
}

/// Whether pattern text `p` (without `!`) matches the relative path `s`.
pub open spec fn pattern_matches(p: Seq<char>, s: Seq<char>, is_dir: bool) -> bool {
    if starts_slash(p) {
        let q = p.drop_first();
        if ends_slash(p) {
            let d = if q.len() > 0 { q.drop_last() } else { q };
            (s == d && is_dir) || under_dir(s, d)
        } else {
            s == q
        }
    } else if ends_slash(p) {
        let d = p.drop_last();
        if has_star(p) {
            some_segment_glob(s, d, is_dir)
        } else {
            (s == d && is_dir) || under_dir(s, d) || some_segment_eq(s, d, is_dir)
        }
    } else if has_star(p) {
        some_segment_glob(s, p, true)
    } else {
        s == p || under_dir(s, p) || some_segment_eq(s, p, true)
    }
}

/// Glob match of `s[si..se]` against `p[pi..pe]`.
fn glob_range(s: &Vec<char>, si: usize, se: usize, p: &Vec<char>, pi: usize, pe: usize) -> (r: bool)
    requires
        si <= se <= s.len(),
        pi <= pe <= p.len(),
    ensures
        r == glob(s@.subrange(si as int, se as int), p@.subrange(pi as int, pe as int)),
    decreases pe - pi, se - si,
{
    let ghost ss = s@.subrange(si as int, se as int);
    let ghost pp = p@.subrange(pi as int, pe as int);
    if pi == pe {
        return si == se;
    }
    assert(pp.drop_first() =~= p@.subrange(pi + 1, pe as int));
    assert(si < se ==> ss.drop_first() =~= s@.subrange(si + 1, se as int));
    if p[pi] == '*' {
        if glob_range(s, si, se, p, pi + 1, pe) {
            return true;
        }
        si < se && glob_range(s, si + 1, se, p, pi, pe)
    } else {
        si < se && s[si] == p[pi] && glob_range(s, si + 1, se, p, pi + 1, pe)
    }
}

fn contains_star(p: &Vec<char>) -> (r: bool)
    ensures
        r == has_star(p@),
{
    let mut k: usize = 0;
    while k < p.len()
        invariant
            k <= p.len(),
            forall|j: int| 0 <= j < k ==> p@[j] != '*',
        decreases p.len() - k,
    {
        if p[k] == '*' {
            return true;
        }
        k = k + 1;
    }
    false
}

/// Whether `s` equals `p[pi..pe]`.
fn eq_range(s: &Vec<char>, si: usize, se: usize, p: &Vec<char>, pi: usize, pe: usize) -> (r: bool)
    requires
        si <= se <= s.len(),
        pi <= pe <= p.len(),
    ensures
        r == (s@.subrange(si as int, se as int) == p@.subrange(pi as int, pe as int)),
{
    if se - si != pe - pi {
        assert(s@.subrange(si as int, se as int).len() != p@.subrange(pi as int, pe as int).len());
        return false;
    }
    let mut k: usize = 0;
    while k < se - si
        invariant
            si <= se <= s.len(),
            pi <= pe <= p.len(),
            se - si == pe - pi,
            k <= se - si,
            forall|j: int| si <= j < si + k ==> #[trigger] s@[j] == p@[j - si + pi],
        decreases se - si - k,
    {
        if s[si + k] != p[pi + k] {
            assert(s@.subrange(si as int, se as int)[k as int] != p@.subrange(pi as int, pe as int)[k as int]);
            return false;
        }
        k = k + 1;
    }
    assert(s@.subrange(si as int, se as int) =~= p@.subrange(pi as int, pe as int));
    true
}

/// Whether `s` starts with `p[pi..pe]` and then a `/`.
fn under_dir_range(s: &Vec<char>, p: &Vec<char>, pi: usize, pe: usize) -> (r: bool)
    requires
        pi <= pe <= p.len(),
    ensures
        r == under_dir(s@, p@.subrange(pi as int, pe as int)),
{
    let n = pe - pi;
    if s.len() <= n {
        return false;
    }
    eq_range(s, 0, n, p, pi, pe) && s[n] == '/'
}

/// Whether some segment of `s` matches `p[pi..pe]` (as a glob when `wild`,
/// else literally), the last segment counting only when `last_ok`.
fn segment_match(s: &Vec<char>, p: &Vec<char>, pi: usize, pe: usize, wild: bool, last_ok: bool) -> (r: bool)
    requires
        pi <= pe <= p.len(),
    ensures
        wild ==> r == some_segment_glob(s@, p@.subrange(pi as int, pe as int), last_ok),
        !wild ==> r == some_segment_eq(s@, p@.subrange(pi as int, pe as int), last_ok),
{
    let ghost pp = p@.subrange(pi as int, pe as int);
    let ghost sv = s@;
    let mut start: usize = 0;
    let mut k: usize = 0;
    // segments ending before `k` have been tried; `start` begins the open one
    while k <= s.len()
        invariant
            start <= k,
            k <= s.len() + 1,
            start <= s.len(),
            sv == s@,
            pp == p@.subrange(pi as int, pe as int),
            pi <= pe <= p.len(),
            start == 0 || s@[start - 1] == '/',
            forall|m: int| start <= m < k && m < s.len() ==> s@[m] != '/',
            forall|a: int, b: int|
                #![trigger s@.subrange(a, b)]
                is_segment(s@, a, b) && b < k && (b < s.len() || last_ok) ==> !(if wild {
                    glob(s@.subrange(a, b), pp)
                } else {
                    s@.subrange(a, b) == pp
                }),
        decreases s.len() + 1 - k,
    {
        if k == s.len() || s[k] == '/' {
            assert(is_segment(s@, start as int, k as int));
            if k < s.len() || last_ok {
                let hit = if wild {
                    glob_range(s, start, k, p, pi, pe)
                } else {
                    eq_range(s, start, k, p, pi, pe)
                };
                if hit {
                    return true;
                }
            }
            proof {
                assert forall|a: int, b: int|
                    #![trigger s@.subrange(a, b)]
                    is_segment(s@, a, b) && b < k + 1 && (b < s.len() || last_ok) implies !(if wild {
                        glob(s@.subrange(a, b), pp)
                    } else {
                        s@.subrange(a, b) == pp
                    }) by {
                    if b == k {
                        if a < start {
                            assert(s@[start - 1] == '/');
                        } else if a > start {
                            assert(s@[a - 1] == '/');
                        }
                    }
                }
            }
            if k == s.len() {
                return false;
            }
            start = k + 1;
        } else {
            proof {
                assert forall|a: int, b: int|
                    #![trigger s@.subrange(a, b)]
                    is_segment(s@, a, b) && b < k + 1 && (b < s.len() || last_ok) implies !(if wild {
                        glob(s@.subrange(a, b), pp)
                    } else {
                        s@.subrange(a, b) == pp
                    }) by {
                    assert(b != k);
                }
            }
        }
        k = k + 1;
    }
    false
}

/// One ignore pattern.
pub struct IgnorePattern {
    pattern: Vec<char>,
    is_directory: bool,
    is_absolute: bool,
    has_wildcards: bool,
    is_negated: bool,
}

impl IgnorePattern {
    /// The pattern text, without a leading `!`.
    pub closed spec fn text(&self) -> Seq<char> {
        self.pattern@
    }

    /// Whether the pattern re-includes what it matches.
    pub closed spec fn negated(&self) -> bool {
        self.is_negated
    }

    pub closed spec fn wf(&self) -> bool {
        &&& self.is_directory == ends_slash(self.pattern@)
        &&& self.is_absolute == starts_slash(self.pattern@)
        &&& self.has_wildcards == has_star(self.pattern@)
    }

    /// The pattern that `line` describes.
    pub fn new(pattern: &str) -> (r: Self)
        ensures
            r.wf(),
            r.negated() == (pattern@.len() > 0 && pattern@[0] == '!'),
            r.text() == (if r.negated() { pattern@.drop_first() } else { pattern@ }),
    {
        let v = chars_of(pattern);
        let is_negated = v.len() > 0 && v[0] == '!';
        let mut text: Vec<char> = Vec::new();
        let mut k: usize = if is_negated { 1 } else { 0 };
        let from = k;
        while k < v.len()
            invariant
                from <= k <= v.len(),
                text@ == v@.subrange(from as int, k as int),
            decreases v.len() - k,
        {
            text.push(v[k]);
            k = k + 1;
            assert(text@ =~= v@.subrange(from as int, k as int));
        }
        assert(text@ =~= (if is_negated { pattern@.drop_first() } else { pattern@ }));
        let is_directory = text.len() > 0 && text[text.len() - 1] == '/';
        let is_absolute = text.len() > 0 && text[0] == '/';
        let has_wildcards = contains_star(&text);
        IgnorePattern { pattern: text, is_directory, is_absolute, has_wildcards, is_negated }
    }

    /// A copy of this pattern.
    pub fn duplicate(&self) -> (r: Self)
        ensures
            r.text() == self.text(),
            r.negated() == self.negated(),
            r.wf() == self.wf(),
    {
        let mut text: Vec<char> = Vec::new();
        let mut k: usize = 0;
        while k < self.pattern.len()
            invariant
                k <= self.pattern.len(),
                text@ == self.pattern@.subrange(0, k as int),
            decreases self.pattern.len() - k,
        {
            text.push(self.pattern[k]);
            k = k + 1;
            assert(text@ =~= self.pattern@.subrange(0, k as int));
        }
        assert(text@ =~= self.pattern@);
        IgnorePattern {
            pattern: text,
            is_directory: self.is_directory,
            is_absolute: self.is_absolute,
            has_wildcards: self.has_wildcards,
            is_negated: self.is_negated,
        }
    }

    /// Whether the pattern matches `rel_path` (relative to the source root,
    /// segments separated by `/`); `is_dir` tells whether it names a directory.
    pub fn matches(&self, rel_path: &str, is_dir: bool) -> (r: bool)
        requires
            self.wf(),
        ensures
            r == pattern_matches(self.text(), rel_path@, is_dir),
    {
        let s = chars_of(rel_path);
        let n = self.pattern.len();
        if self.is_absolute {
            if self.is_directory {
                let end: usize = if n > 1 { n - 1 } else { n };
                proof {
                    let q = self.pattern@.drop_first();
                    let d = if q.len() > 0 { q.drop_last() } else { q };
                    assert(d =~= self.pattern@.subrange(1, end as int));
                    assert(s@.subrange(0, s@.len() as int) =~= s@);
                }
                (eq_range(&s, 0, s.len(), &self.pattern, 1, end) && is_dir)
                    || under_dir_range(&s, &self.pattern, 1, end)
            } else {
                assert(self.pattern@.drop_first() =~= self.pattern@.subrange(1, n as int));
                assert(s@.subrange(0, s@.len() as int) =~= s@);
                eq_range(&s, 0, s.len(), &self.pattern, 1, n)
            }
        } else {
            self.matches_relative(&s, is_dir)
        }
    }

    fn matches_relative(&self, s: &Vec<char>, is_dir: bool) -> (r: bool)
        requires
            self.wf(),
            !starts_slash(self.text()),
        ensures
            r == pattern_matches(self.text(), s@, is_dir),
    {
        let n = self.pattern.len();
        assert(s@.subrange(0, s@.len() as int) =~= s@);
        if self.is_directory {
            assert(self.pattern@.drop_last() =~= self.pattern@.subrange(0, n - 1));
            self.matches_directory(s, is_dir)
        } else if self.has_wildcards {
            assert(self.pattern@ =~= self.pattern@.subrange(0, n as int));
            self.matches_with_wildcards(s)
        } else {
            assert(self.pattern@ =~= self.pattern@.subrange(0, n as int));
            self.matches_exact(s)
        }
    }

    /// A directory pattern: the entry is that directory or lies inside it.
    fn matches_directory(&self, s: &Vec<char>, is_dir: bool) -> (r: bool)
        requires
            self.wf(),
            self.is_directory,
            !self.is_absolute,
        ensures
            r == pattern_matches(self.text(), s@, is_dir),
    {
        let n = self.pattern.len();
        let ghost d = self.pattern@.drop_last();
        assert(d =~= self.pattern@.subrange(0, n - 1));
        assert(s@.subrange(0, s@.len() as int) =~= s@);
        if self.has_wildcards {
            segment_match(s, &self.pattern, 0, n - 1, true, is_dir)
        } else {
            (eq_range(s, 0, s.len(), &self.pattern, 0, n - 1) && is_dir)
                || under_dir_range(s, &self.pattern, 0, n - 1)
                || segment_match(s, &self.pattern, 0, n - 1, false, is_dir)
        }
    }

    /// A pattern with wildcards: some segment matches it.
    fn matches_with_wildcards(&self, s: &Vec<char>) -> (r: bool)
        requires
            self.wf(),
            self.has_wildcards,
            !self.is_directory,
            !self.is_absolute,
        ensures
            r == pattern_matches(self.text(), s@, true),
    {
        let n = self.pattern.len();
        assert(self.pattern@ =~= self.pattern@.subrange(0, n as int));
        segment_match(s, &self.pattern, 0, n, true, true)
    }

    /// A literal pattern: the whole path, a leading directory, or a segment.
    fn matches_exact(&self, s: &Vec<char>) -> (r: bool)
        requires
            self.wf(),
            !self.has_wildcards,
            !self.is_directory,
            !self.is_absolute,
        ensures
            r == pattern_matches(self.text(), s@, true),
    {
        let n = self.pattern.len();
        assert(self.pattern@ =~= self.pattern@.subrange(0, n as int));
        assert(s@.subrange(0, s@.len() as int) =~= s@);
        eq_range(s, 0, s.len(), &self.pattern, 0, n) || under_dir_range(s, &self.pattern, 0, n)
            || segment_match(s, &self.pattern, 0, n, false, true)
    }

    /// Whether `s` matches the glob `pattern`.
    pub fn matches_wildcard(s: &str, pattern: &str) -> (r: bool)
        ensures
            r == glob(s@, pattern@),
    {
        let sv = chars_of(s);
        let pv = chars_of(pattern);
        assert(sv@.subrange(0, sv@.len() as int) =~= sv@);
        assert(pv@.subrange(0, pv@.len() as int) =~= pv@);
        glob_range(&sv, 0, sv.len(), &pv, 0, pv.len())
    }
}

/// What one pattern line stands for: its text without `!`, and whether it
/// had one.
pub open spec fn pattern_entry(l: Seq<char>) -> (Seq<char>, bool) {
    if l.len() > 0 && l[0] == '!' {
        (l.drop_first(), true)
    } else {
        (l, false)
    }
}

/// A trimmed line of an ignore file is a pattern unless it is empty or a
/// comment.
pub open spec fn is_pattern_line(l: Seq<char>) -> bool {
    l.len() > 0 && l[0] != '#'
}

pub open spec fn take_line(added: Seq<(Seq<char>, bool)>, line: Seq<char>) -> Seq<(Seq<char>, bool)> {
    if is_pattern_line(trimmed(line)) {
        added.push(pattern_entry(trimmed(line)))
    } else {
        added
    }
}

/// Reading an ignore file character by character: the patterns of the lines
/// finished so far, and the line still open.
pub open spec fn scan_patterns(t: Seq<char>) -> (Seq<(Seq<char>, bool)>, Seq<char>)
    decreases t.len(),
{
    if t.len() == 0 {
        (Seq::empty(), Seq::empty())
    } else {
        let st = scan_patterns(t.drop_last());
        if t.last() == '\n' {
            (take_line(st.0, st.1), Seq::empty())
        } else {
            (st.0, st.1.push(t.last()))
        }
    }
}

/// The patterns that an ignore file holds, in order.
pub open spec fn patterns_of_text(t: Seq<char>) -> Seq<(Seq<char>, bool)> {
    let st = scan_patterns(t);
    take_line(st.0, st.1)
}

/// Whether a path is ignored under a list of patterns: some plain pattern
/// matches it and no negated one does.
pub open spec fn ignored_by(pats: Seq<(Seq<char>, bool)>, s: Seq<char>, is_dir: bool) -> bool {
    &&& exists|i: int|
        0 <= i < pats.len() && !(#[trigger] pats[i]).1 && pattern_matches(pats[i].0, s, is_dir)
    &&& !exists|i: int|
        0 <= i < pats.len() && (#[trigger] pats[i]).1 && pattern_matches(pats[i].0, s, is_dir)
}

/// The ignore patterns in force in one directory: the built-in ones, those
/// of the ancestors' ignore files and those of its own.
pub struct IgnoreManager {
    patterns: Vec<IgnorePattern>,
}

impl IgnoreManager {
    /// The patterns as text and negation flag, in order.
    pub closed spec fn pattern_list(&self) -> Seq<(Seq<char>, bool)> {
        self.patterns@.map_values(|p: IgnorePattern| (p.text(), p.negated()))
    }

    pub closed spec fn wf(&self) -> bool {
        forall|i: int| 0 <= i < self.patterns@.len() ==> (#[trigger] self.patterns@[i]).wf()
    }

    /// The built-in patterns alone: `.cache/` directories are ignored.
    pub fn new() -> (r: Self)
        ensures
            r.wf(),
            r.pattern_list() == seq![(".cache/"@, false)],
    {
        let mut m = IgnoreManager { patterns: Vec::new() };
        m.add_pattern(".cache/");
        proof {
            reveal_strlit(".cache/");
        }
        assert(m.pattern_list() =~= seq![(".cache/"@, false)]);
        m
    }

    /// Appends one pattern (a leading `!` negates it).
    pub fn add_pattern(&mut self, pattern: &str)
        requires
            old(self).wf(),
        ensures
            final(self).wf(),
            final(self).pattern_list() == old(self).pattern_list().push(pattern_entry(pattern@)),
    {
        let p = IgnorePattern::new(pattern);
        self.patterns.push(p);
        assert(self.pattern_list() =~= old(self).pattern_list().push(pattern_entry(pattern@)));
    }

    fn push_line(&mut self, line: &Vec<char>)
        requires
            old(self).wf(),
        ensures
            final(self).wf(),
            final(self).pattern_list() == take_line(old(self).pattern_list(), line@),
    {
        let t = trim_chars(line);
        if t.len() > 0 && t[0] != '#' {
            let ghost ts = t@;
            let mut text: Vec<char> = Vec::new();
            let is_negated = t[0] == '!';
            let mut k: usize = if is_negated { 1 } else { 0 };
            let from = k;
            while k < t.len()
                invariant
                    from <= k <= t.len(),
                    text@ == t@.subrange(from as int, k as int),
                decreases t.len() - k,
            {
                text.push(t[k]);
                k = k + 1;
                assert(text@ =~= t@.subrange(from as int, k as int));
            }
            assert(text@ =~= pattern_entry(t@).0);
            let is_directory = text.len() > 0 && text[text.len() - 1] == '/';
            let is_absolute = text.len() > 0 && text[0] == '/';
            let has_wildcards = contains_star(&text);
            self.patterns.push(
                IgnorePattern { pattern: text, is_directory, is_absolute, has_wildcards, is_negated },
            );
            assert(self.pattern_list() =~= take_line(old(self).pattern_list(), line@));
        }
    }

    /// Appends the patterns of an ignore file's text: one per line, trimmed;
    /// blank lines and lines starting with `#` are skipped.
    pub fn add_patterns_from_text(&mut self, text: &str)
        requires
            old(self).wf(),
        ensures
            final(self).wf(),
            final(self).pattern_list() == old(self).pattern_list() + patterns_of_text(text@),
    {
        let t = chars_of(text);
        let ghost base = self.pattern_list();
        let mut cur: Vec<char> = Vec::new();
        let mut i: usize = 0;
        while i < t.len()
            invariant
                i <= t.len(),
                t@ == text@,
                self.wf(),
                self.pattern_list() == base + scan_patterns(t@.subrange(0, i as int)).0,
                cur@ == scan_patterns(t@.subrange(0, i as int)).1,
            decreases t.len() - i,
        {
            let c = t[i];
            let ghost pre = t@.subrange(0, i as int);
            assert(t@.subrange(0, i + 1).drop_last() =~= pre);
            if c == '\n' {
                let ghost before = self.pattern_list();
                self.push_line(&cur);
                proof {
                    let st = scan_patterns(pre);
                    if is_pattern_line(trimmed(st.1)) {
                        assert(base + st.0.push(pattern_entry(trimmed(st.1))) =~= (base + st.0).push(
                            pattern_entry(trimmed(st.1)),
                        ));
                    }
                }
                cur = Vec::new();
            } else {
                cur.push(c);
            }
            i = i + 1;
        }
        assert(t@.subrange(0, t@.len() as int) =~= text@);
        self.push_line(&cur);
        proof {
            let st = scan_patterns(text@);
            if is_pattern_line(trimmed(st.1)) {
                assert(base + st.0.push(pattern_entry(trimmed(st.1))) =~= (base + st.0).push(
                    pattern_entry(trimmed(st.1)),
                ));
            }
        }
    }

    /// A manager holding the same patterns, for a subdirectory to extend.
    pub fn inherit(&self) -> (r: Self)
        requires
            self.wf(),
        ensures
            r.wf(),
            r.pattern_list() == self.pattern_list(),
    {
        let mut v: Vec<IgnorePattern> = Vec::new();
        let mut k: usize = 0;
        while k < self.patterns.len()
            invariant
                k <= self.patterns.len(),
                self.wf(),
                forall|i: int| 0 <= i < v@.len() ==> (#[trigger] v@[i]).wf(),
                v@.len() == k,
                forall|i: int|
                    0 <= i < k ==> (#[trigger] v@[i]).text() == self.patterns@[i].text()
                        && v@[i].negated() == self.patterns@[i].negated(),
            decreases self.patterns.len() - k,
        {
            assert(self.patterns@[k as int].wf());
            let p = self.patterns[k].duplicate();
            v.push(p);
            k = k + 1;
        }
        let r = IgnoreManager { patterns: v };
        assert(r.pattern_list() =~= self.pattern_list());
        r
    }

    /// Whether `rel_path` is ignored: some plain pattern matches and no
    /// negated one does.
    pub fn should_ignore(&self, rel_path: &str, is_dir: bool) -> (r: bool)
        requires
            self.wf(),
        ensures
            r == ignored_by(self.pattern_list(), rel_path@, is_dir),
    {
        let ghost pl = self.pattern_list();
        let mut should_ignore = false;
        let mut k: usize = 0;
        while k < self.patterns.len()
            invariant
                k <= self.patterns.len(),
                self.wf(),
                pl == self.pattern_list(),
                should_ignore == exists|i: int|
                    0 <= i < k && !(#[trigger] pl[i]).1 && pattern_matches(pl[i].0, rel_path@, is_dir),
                forall|i: int|
                    0 <= i < k ==> !((#[trigger] pl[i]).1 && pattern_matches(pl[i].0, rel_path@, is_dir)),
            decreases self.patterns.len() - k,
        {
            assert(self.patterns@[k as int].wf());
            let ghost pk = pl[k as int];
            if self.patterns[k].matches(rel_path, is_dir) {
                if self.patterns[k].is_negated {
                    assert(pk.1 && pattern_matches(pk.0, rel_path@, is_dir));
                    return false;
                }
                assert(!pk.1 && pattern_matches(pk.0, rel_path@, is_dir));
                should_ignore = true;
            }
            k = k + 1;
        }
        should_ignore
    }
}

} // verus!
