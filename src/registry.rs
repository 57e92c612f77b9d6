//! The set of registered project directories, kept as a text file with one
//! path per line.
use vstd::prelude::*;
use crate::file_store::count_where;
use crate::id_generator::{find_last, last_index};
use crate::location::{home_dir, join, join_path, opt_view, tasks_dir_name};
use crate::task::{Task, TaskView};
use crate::sort::{sort_by_key_order, KeyOrder};
use crate::text::{
    is_prefix, lemma_text_le_total, lemma_text_le_trans, lower_of, push_char, starts_with, str_eq,
    text_le, text_le_exec, texts, to_lower, trim, trim_str,
};

verus! {

/// Errors of the project registry.
#[derive(Debug)]
pub enum RegistryError {
    NoHomeDirectory,
    Io(String),
}

/// The final component of a path in normal form: what follows the last
/// separator, unless that is empty or `..`.
pub open spec fn file_name_of(p: Seq<char>) -> Option<Seq<char>> {
    let seg = p.subrange(last_index(p, '/') + 1, p.len() as int);
    if seg.len() == 0 || seg == seq!['.', '.'] {
        None
    } else {
        Some(seg)
    }
}

/// A project's display name: its directory name, or the whole path when it
/// has none.
pub open spec fn project_name(p: Seq<char>) -> Seq<char> {
    match file_name_of(p) {
        Some(n) => n,
        None => p,
    }
}

/// The lower-cased directory name that project lookup compares against.
pub open spec fn lookup_key(p: Seq<char>) -> Option<Seq<char>> {
    match file_name_of(p) {
        Some(n) => Some(lower_of(n)),
        None => None,
    }
}

/// The final component of a path, as `file_name_of` defines it.
pub fn file_name(p: &str) -> (r: Option<String>)
    ensures
        opt_view(r) == file_name_of(p@),
{
    let n = p.unicode_len();
    let start: usize = match find_last(p, '/') {
        Some(k) => k + 1,
        None => 0,
    };
    let seg = p.substring_char(start, n);
    proof {
        reveal_strlit("..");
        assert(".."@ =~= seq!['.', '.']);
    }
    if seg.unicode_len() == 0 || str_eq(seg, "..") {
        None
    } else {
        Some(String::from_str(seg))
    }
}

/// A project's display name, as `project_name` defines it.
pub fn project_name_of(p: &str) -> (r: String)
    ensures
        r@ == project_name(p@),
{
    match file_name(p) {
        Some(n) => n,
        None => String::from_str(p),
    }
}

/// Index of the first key equal to `w`, or -1.
pub open spec fn exact_index(keys: Seq<Option<Seq<char>>>, w: Seq<char>) -> int
    decreases keys.len(),
{
    if keys.len() == 0 {
        -1
    } else {
        let r = exact_index(keys.drop_last(), w);
        if r >= 0 {
            r
        } else if keys.last() == Some(w) {
            keys.len() - 1
        } else {
            -1
        }
    }
}

/// A key that starts with `w`.
pub open spec fn prefix_hit(k: Option<Seq<char>>, w: Seq<char>) -> bool {
    match k {
        Some(k) => is_prefix(w, k),
        None => false,
    }
}

/// How many keys start with `w`.
pub open spec fn prefix_count(keys: Seq<Option<Seq<char>>>, w: Seq<char>) -> nat
    decreases keys.len(),
{
    if keys.len() == 0 {
        0
    } else {
        prefix_count(keys.drop_last(), w) + if prefix_hit(keys.last(), w) {
            1nat
        } else {
            0nat
        }
    }
}

/// Index of the last key that starts with `w`, or -1.
pub open spec fn prefix_index(keys: Seq<Option<Seq<char>>>, w: Seq<char>) -> int
    decreases keys.len(),
{
    if keys.len() == 0 {
        -1
    } else if prefix_hit(keys.last(), w) {
        keys.len() - 1
    } else {
        prefix_index(keys.drop_last(), w)
    }
}

/// Project lookup: the first path whose key equals `w`; failing that, the
/// one path whose key starts with `w` if exactly one does; else none.
pub open spec fn select(paths: Seq<Seq<char>>, keys: Seq<Option<Seq<char>>>, w: Seq<char>) -> Option<
    Seq<char>,
> {
    if exact_index(keys, w) >= 0 {
        Some(paths[exact_index(keys, w)])
    } else if prefix_count(keys, w) == 1 {
        Some(paths[prefix_index(keys, w)])
    } else {
        None
    }
}

proof fn lemma_index_bounds(keys: Seq<Option<Seq<char>>>, w: Seq<char>)
    ensures
        -1 <= exact_index(keys, w) < keys.len(),
        -1 <= prefix_index(keys, w) < keys.len(),
        prefix_count(keys, w) > 0 ==> prefix_index(keys, w) >= 0,
    decreases keys.len(),
{
    if keys.len() > 0 {
        lemma_index_bounds(keys.drop_last(), w);
    }
}

/// The views of optional strings.
pub open spec fn opt_texts(v: Seq<Option<String>>) -> Seq<Option<Seq<char>>> {
    v.map_values(|o: Option<String>| opt_view(o))
}

/// Picks a project by its lookup key (see `select`); `keys[i]` is the key of
/// `paths[i]` and `wanted` the lower-cased name asked for.
pub fn select_project(paths: &Vec<String>, keys: &Vec<Option<String>>, wanted: &str) -> (r: Option<
    String,
>)
    requires
        paths@.len() == keys@.len(),
    ensures
        opt_view(r) == select(texts(paths@), opt_texts(keys@), wanted@),
{
    let ghost ks = opt_texts(keys@);
    let mut exact: Option<usize> = None;
    let mut count: usize = 0;
    let mut last_hit: Option<usize> = None;
    let mut i: usize = 0;
    while i < keys.len()
        invariant
            i <= keys@.len() == paths@.len(),
            ks == opt_texts(keys@),
            count <= i,
            match exact {
                Some(e) => exact_index(ks.subrange(0, i as int), wanted@) == e as int && e < i,
                None => exact_index(ks.subrange(0, i as int), wanted@) == -1,
            },
            count == prefix_count(ks.subrange(0, i as int), wanted@),
            match last_hit {
                Some(h) => prefix_index(ks.subrange(0, i as int), wanted@) == h as int && h < i,
                None => prefix_index(ks.subrange(0, i as int), wanted@) == -1,
            },
        decreases keys.len() - i,
    {
        let ghost pre = ks.subrange(0, i as int);
        assert(ks.subrange(0, i + 1).drop_last() =~= pre);
        assert(ks.subrange(0, i + 1).last() == opt_view(keys@[i as int]));
        match &keys[i] {
            Some(k) => {
                if exact.is_none() && str_eq(k.as_str(), wanted) {
                    exact = Some(i);
                }
                if starts_with(k.as_str(), wanted) {
                    count = count + 1;
                    last_hit = Some(i);
                }
            },
            None => {},
        }
        i = i + 1;
    }
    assert(ks.subrange(0, keys@.len() as int) =~= ks);
    proof {
        lemma_index_bounds(ks, wanted@);
    }
    match exact {
        Some(e) => {
            return Some(paths[e].clone());
        },
        None => {},
    }
    if count == 1 {
        match last_hit {
            Some(h) => {
                return Some(paths[h].clone());
            },
            None => {},
        }
    }
    None
}

/// Registry of project paths for listings across projects.
#[derive(Debug)]
pub struct ProjectRegistry {
    registry_path: String,
    projects: Vec<String>,
}

/// The name of the registry file.
pub open spec fn registry_file_name() -> Seq<char> {
    seq!['.', 'p', 'r', 'o', 'j', 'e', 'c', 't', 's']
}

/// Registering `p`: the new set, and whether `p` was new.
pub open spec fn link_outcome(s: Set<Seq<char>>, p: Seq<char>) -> (Set<Seq<char>>, bool) {
    (s.insert(p), !s.contains(p))
}

/// Unregistering `p`, or failing that its canonical form `canon`: the new set,
/// and whether something was removed.
pub open spec fn unlink_outcome(s: Set<Seq<char>>, p: Seq<char>, canon: Option<Seq<char>>) -> (
    Set<Seq<char>>,
    bool,
) {
    if s.contains(p) {
        (s.remove(p), true)
    } else {
        match canon {
            Some(c) => if s.contains(c) {
                (s.remove(c), true)
            } else {
                (s, false)
            },
            None => (s, false),
        }
    }
}

/// The registry text: each path followed by a newline.
pub open spec fn registry_text(paths: Seq<Seq<char>>) -> Seq<char>
    decreases paths.len(),
{
    if paths.len() == 0 {
        Seq::empty()
    } else {
        registry_text(paths.drop_last()) + paths.last() + seq!['\n']
    }
}

/// The pieces of a text between newlines, the last one possibly empty.
pub open spec fn split_lines(s: Seq<char>) -> Seq<Seq<char>>
    decreases s.len(),
{
    if s.len() == 0 {
        seq![Seq::<char>::empty()]
    } else {
        let r = split_lines(s.drop_last());
        if s.last() == '\n' {
            r.push(Seq::<char>::empty())
        } else {
            r.update(r.len() - 1, r.last().push(s.last()))
        }
    }
}

/// The paths a registry text names: its lines trimmed, blank ones skipped.
pub open spec fn paths_in_text(s: Seq<char>) -> Set<Seq<char>> {
    trimmed_set(split_lines(s))
}

/// The non-blank lines, trimmed.
pub open spec fn trimmed_set(lines: Seq<Seq<char>>) -> Set<Seq<char>> {
    Set::new(|p: Seq<char>| p.len() > 0 && exists|i: int| 0 <= i < lines.len() && trim(#[trigger] lines[i]) == p)
}

proof fn lemma_trimmed_set_push(lines: Seq<Seq<char>>, seg: Seq<char>)
    ensures
        trimmed_set(lines.push(seg)) == if trim(seg).len() > 0 {
            trimmed_set(lines).insert(trim(seg))
        } else {
            trimmed_set(lines)
        },
{
    let nd = lines.push(seg);
    let goal = if trim(seg).len() > 0 {
        trimmed_set(lines).insert(trim(seg))
    } else {
        trimmed_set(lines)
    };
    assert forall|p: Seq<char>| trimmed_set(nd).contains(p) <==> goal.contains(p) by {
        if p.len() > 0 && p == trim(seg) {
            assert(nd[lines.len() as int] == seg);
        }
        if p.len() > 0 && (exists|k: int| 0 <= k < lines.len() && trim(#[trigger] lines[k]) == p) {
            let k = choose|k: int| 0 <= k < lines.len() && trim(#[trigger] lines[k]) == p;
            assert(nd[k] == lines[k]);
        }
        if p.len() > 0 && (exists|k: int| 0 <= k < nd.len() && trim(#[trigger] nd[k]) == p) {
            let k = choose|k: int| 0 <= k < nd.len() && trim(#[trigger] nd[k]) == p;
            if k < lines.len() {
                assert(nd[k] == lines[k]);
            }
        }
    }
    assert(trimmed_set(nd) =~= goal);
}

/// Registering the same path twice reports it new only the first time; after
/// that, unregistering it removes it once, and a second time finds nothing.
pub proof fn lemma_link_unlink_idempotent(s: Set<Seq<char>>, p: Seq<char>, canon: Option<Seq<char>>)
    requires
        !s.contains(p),
        canon matches Some(c) ==> (c == p || !s.contains(c)),
    ensures
        link_outcome(s, p).1,
        !link_outcome(link_outcome(s, p).0, p).1,
        link_outcome(link_outcome(s, p).0, p).0 == link_outcome(s, p).0,
        unlink_outcome(link_outcome(link_outcome(s, p).0, p).0, p, canon).1,
        unlink_outcome(link_outcome(link_outcome(s, p).0, p).0, p, canon).0 == s,
        !unlink_outcome(
            unlink_outcome(link_outcome(link_outcome(s, p).0, p).0, p, canon).0,
            p,
            canon,
        ).1,
{
    let s1 = s.insert(p);
    assert(s1.insert(p) =~= s1);
    assert(s1.remove(p) =~= s);
}

proof fn lemma_split_lines_nonempty(s: Seq<char>)
    ensures
        split_lines(s).len() >= 1,
    decreases s.len(),
{
    if s.len() > 0 {
        lemma_split_lines_nonempty(s.drop_last());
    }
}

proof fn lemma_split_lines_append(s: Seq<char>, q: Seq<char>)
    requires
        !q.contains('\n'),
    ensures
        split_lines(s + q) == split_lines(s).update(
            split_lines(s).len() - 1,
            split_lines(s).last() + q,
        ),
    decreases q.len(),
{
    lemma_split_lines_nonempty(s);
    if q.len() == 0 {
        assert(s + q =~= s);
        assert(split_lines(s).last() + q =~= split_lines(s).last());
        assert(split_lines(s).update(split_lines(s).len() - 1, split_lines(s).last())
            =~= split_lines(s));
    } else {
        let q0 = q.drop_last();
        assert(!q0.contains('\n')) by {
            if q0.contains('\n') {
                let i = choose|i: int| 0 <= i < q0.len() && q0[i] == '\n';
                assert(q[i] == '\n');
            }
        }
        lemma_split_lines_append(s, q0);
        assert((s + q).drop_last() =~= s + q0);
        assert((s + q).last() == q.last());
        assert(q.last() != '\n') by {
            assert(q[q.len() - 1] == q.last());
        }
        assert(split_lines(s + q0).last() + seq![q.last()] =~= split_lines(s).last() + q) by {
            assert(q =~= q0.push(q.last()));
        }
        assert(split_lines(s + q) =~= split_lines(s).update(
            split_lines(s).len() - 1,
            split_lines(s).last() + q,
        ));
    }
}

proof fn lemma_split_registry_text(paths: Seq<Seq<char>>)
    requires
        forall|i: int| 0 <= i < paths.len() ==> !(#[trigger] paths[i]).contains('\n'),
    ensures
        split_lines(registry_text(paths)) == paths.push(Seq::<char>::empty()),
    decreases paths.len(),
{
    if paths.len() == 0 {
        assert(split_lines(Seq::<char>::empty()) =~= seq![Seq::<char>::empty()]);
        assert(paths.push(Seq::<char>::empty()) =~= seq![Seq::<char>::empty()]);
    } else {
        let ps = paths.drop_last();
        let p = paths.last();
        assert forall|i: int| 0 <= i < ps.len() implies !(#[trigger] ps[i]).contains('\n') by {
            assert(ps[i] == paths[i]);
        }
        lemma_split_registry_text(ps);
        let base = registry_text(ps);
        assert(!p.contains('\n')) by {
            assert(p == paths[paths.len() - 1]);
        }
        lemma_split_lines_append(base, p);
        let whole = registry_text(paths);
        assert(whole == base + p + seq!['\n']);
        assert(whole.drop_last() =~= base + p);
        assert(whole.last() == '\n');
        assert(Seq::<char>::empty() + p =~= p);
        assert(ps.push(Seq::<char>::empty()).update(ps.len() as int, p) =~= paths);
    }
}

/// Saving then loading keeps the registry: the text written for paths that
/// are non-empty, free of surrounding white space and of newlines names
/// exactly those paths.
pub proof fn lemma_registry_text_round_trip(paths: Seq<Seq<char>>)
    requires
        forall|i: int|
            0 <= i < paths.len() ==> (#[trigger] paths[i]).len() > 0 && trim(paths[i]) == paths[i]
                && !paths[i].contains('\n'),
    ensures
        paths_in_text(registry_text(paths)) == paths.to_set(),
{
    lemma_split_registry_text(paths);
    let lines = paths.push(Seq::<char>::empty());
    assert(trim(Seq::<char>::empty()) == Seq::<char>::empty());
    assert forall|p: Seq<char>| trimmed_set(lines).contains(p) <==> paths.to_set().contains(p) by {
        if paths.contains(p) {
            let i = choose|i: int| 0 <= i < paths.len() && paths[i] == p;
            assert(lines[i] == p);
        }
        if trimmed_set(lines).contains(p) {
            let i = choose|i: int| 0 <= i < lines.len() && trim(#[trigger] lines[i]) == p;
            if i < paths.len() {
                assert(lines[i] == paths[i]);
            }
        }
    }
    assert(trimmed_set(lines) =~= paths.to_set());
}

impl ProjectRegistry {
    /// The registered paths, in insertion order.
    pub closed spec fn paths(&self) -> Seq<Seq<char>> {
        texts(self.projects@)
    }

    /// The set of registered paths.
    pub open spec fn view(&self) -> Set<Seq<char>> {
        self.paths().to_set()
    }

    /// Each path is registered once.
    pub closed spec fn wf(&self) -> bool {
        self.paths().no_duplicates()
    }

    /// Where the registry is stored.
    pub closed spec fn location(&self) -> Seq<char> {
        self.registry_path@
    }

    /// An empty registry stored at `registry_path`.
    pub fn new(registry_path: String) -> (r: ProjectRegistry)
        ensures
            r.wf(),
            r.view() == Set::<Seq<char>>::empty(),
            r.location() == registry_path@,
    {
        let r = ProjectRegistry { registry_path, projects: Vec::new() };
        assert(r.paths() =~= Seq::<Seq<char>>::empty());
        r
    }

    /// The registry file under a home directory: `home/.tasks/.projects`.
    pub fn path_under(home: Option<String>) -> (r: Result<String, RegistryError>)
        ensures
            home is None <==> r is Err,
            r matches Err(e) ==> e is NoHomeDirectory,
            r matches Ok(p) ==> home matches Some(h) && p@ == join_path(
                join_path(h@, tasks_dir_name()),
                registry_file_name(),
            ),
    {
        match home {
            None => Err(RegistryError::NoHomeDirectory),
            Some(h) => {
                proof {
                    reveal_strlit(".tasks");
                    reveal_strlit(".projects");
                }
                let dir = join(h.as_str(), ".tasks");
                Ok(join(dir.as_str(), ".projects"))
            },
        }
    }

    /// The registry file in the user's home directory, when one is known.
    pub fn default_path() -> (r: Result<String, RegistryError>)
        ensures
            r matches Err(e) ==> e is NoHomeDirectory,
    {
        ProjectRegistry::path_under(home_dir())
    }

    /// Where the registry is stored.
    pub fn registry_path(&self) -> (r: &String)
        ensures
            r@ == self.location(),
    {
        &self.registry_path
    }

    fn position(&self, p: &str) -> (r: Option<usize>)
        ensures
            match r {
                Some(i) => i < self.paths().len() && self.paths()[i as int] == p@,
                None => !self.view().contains(p@),
            },
    {
        let mut i: usize = 0;
        while i < self.projects.len()
            invariant
                i <= self.projects@.len(),
                forall|j: int| 0 <= j < i ==> self.paths()[j] != p@,
            decreases self.projects.len() - i,
        {
            if str_eq(self.projects[i].as_str(), p) {
                return Some(i);
            }
            i = i + 1;
        }
        None
    }

    fn insert_path(&mut self, p: String) -> (r: bool)
        requires
            old(self).wf(),
        ensures
            final(self).wf(),
            (final(self).view(), r) == link_outcome(old(self).view(), p@),
            final(self).location() == old(self).location(),
    {
        match self.position(p.as_str()) {
            Some(i) => {
                proof {
                    assert(self.paths().contains(p@));
                    assert(self.view().insert(p@) =~= self.view());
                }
                false
            },
            None => {
                let ghost before = self.paths();
                self.projects.push(p);
                assert(self.paths() =~= before.push(p@));
                assert(self.view() =~= before.to_set().insert(p@)) by {
                    assert forall|x: Seq<char>| self.view().contains(x) <==> before.to_set().insert(
                        p@,
                    ).contains(x) by {
                        if x == p@ {
                            assert(self.paths()[before.len() as int] == p@);
                        }
                        if before.contains(x) {
                            let k = choose|k: int| 0 <= k < before.len() && before[k] == x;
                            assert(self.paths()[k] == x);
                        }
                    }
                }
                true
            },
        }
    }

    fn remove_at(&mut self, i: usize)
        requires
            old(self).wf(),
            i < old(self).paths().len(),
        ensures
            final(self).wf(),
            final(self).view() == old(self).view().remove(old(self).paths()[i as int]),
            final(self).location() == old(self).location(),
    {
        let ghost before = self.paths();
        let ghost x = before[i as int];
        self.projects.remove(i);
        assert(self.paths() =~= before.remove(i as int));
        assert forall|y: Seq<char>| self.view().contains(y) <==> before.to_set().remove(x).contains(
            y,
        ) by {
            if self.paths().contains(y) {
                let k = choose|k: int| 0 <= k < self.paths().len() && self.paths()[k] == y;
                if k < i {
                    assert(before[k] == y);
                } else {
                    assert(before[k + 1] == y);
                }
            }
            if before.contains(y) && y != x {
                let k = choose|k: int| 0 <= k < before.len() && before[k] == y;
                if k < i {
                    assert(self.paths()[k] == y);
                } else {
                    assert(self.paths()[k - 1] == y);
                }
            }
        }
        assert(self.view() =~= before.to_set().remove(x));
    }

    /// Registers an already canonical path; true when it was not registered.
    /// The caller saves the registry when this returns true.
    pub fn link(&mut self, canonical: String) -> (r: bool)
        requires
            old(self).wf(),
        ensures
            final(self).wf(),
            (final(self).view(), r) == link_outcome(old(self).view(), canonical@),
            final(self).location() == old(self).location(),
    {
        self.insert_path(canonical)
    }

    /// Unregisters `path` as given or, failing that, its canonical form when
    /// known; true when something was removed. The caller saves the registry
    /// when this returns true.
    pub fn unlink(&mut self, path: &str, canonical: Option<&str>) -> (r: bool)
        requires
            old(self).wf(),
        ensures
            final(self).wf(),
            (final(self).view(), r) == unlink_outcome(
                old(self).view(),
                path@,
                match canonical {
                    Some(c) => Some(c@),
                    None => None,
                },
            ),
            final(self).location() == old(self).location(),
    {
        match self.position(path) {
            Some(i) => {
                self.remove_at(i);
                return true;
            },
            None => {},
        }
        match canonical {
            Some(c) => match self.position(c) {
                Some(i) => {
                    self.remove_at(i);
                    true
                },
                None => false,
            },
            None => false,
        }
    }

    /// The registered paths.
    pub fn projects(&self) -> (r: &Vec<String>)
        ensures
            texts(r@) == self.paths(),
            texts(r@).to_set() == self.view(),
    {
        &self.projects
    }

    pub fn is_empty(&self) -> (r: bool)
        requires
            self.wf(),
        ensures
            r == (self.view().len() == 0),
    {
        proof {
            self.paths().unique_seq_to_set();
        }
        self.projects.len() == 0
    }

    pub fn len(&self) -> (r: usize)
        requires
            self.wf(),
        ensures
            r == self.view().len(),
    {
        proof {
            self.paths().unique_seq_to_set();
        }
        self.projects.len()
    }

    /// The registry text: each path on a line of its own, newline-terminated.
    pub fn to_text(&self) -> (r: String)
        ensures
            r@ == registry_text(self.paths()),
    {
        let mut r = String::new();
        let mut i: usize = 0;
        while i < self.projects.len()
            invariant
                i <= self.projects@.len(),
                r@ == registry_text(self.paths().subrange(0, i as int)),
            decreases self.projects.len() - i,
        {
            r.append(self.projects[i].as_str());
            push_char(&mut r, '\n');
            assert(self.paths().subrange(0, i + 1).drop_last() =~= self.paths().subrange(
                0,
                i as int,
            ));
            i = i + 1;
        }
        assert(self.paths().subrange(0, self.projects@.len() as int) =~= self.paths());
        r
    }

    /// Registers the trimmed line, if it is not blank.
    fn add_line(&mut self, seg: &str)
        requires
            old(self).wf(),
        ensures
            final(self).wf(),
            final(self).location() == old(self).location(),
            final(self).view() == if trim(seg@).len() > 0 {
                old(self).view().insert(trim(seg@))
            } else {
                old(self).view()
            },
    {
        let line = trim_str(seg);
        if line.unicode_len() > 0 {
            self.insert_path(String::from_str(line));
        }
    }

    /// The registry that a registry text describes: one path per line,
    /// surrounding white space trimmed, blank lines skipped.
    pub fn from_text(registry_path: String, content: &str) -> (r: ProjectRegistry)
        ensures
            r.wf(),
            r.view() == paths_in_text(content@),
            r.location() == registry_path@,
    {
        let mut reg = ProjectRegistry::new(registry_path);
        let n = content.unicode_len();
        let mut start: usize = 0;
        let mut i: usize = 0;
        let ghost mut done: Seq<Seq<char>> = Seq::empty();
        assert(content@.subrange(0, 0) =~= Seq::<char>::empty());
        assert(done.push(content@.subrange(0, 0)) =~= seq![Seq::<char>::empty()]);
        assert(trimmed_set(done) =~= Set::<Seq<char>>::empty());
        while i < n
            invariant
                start <= i <= n,
                n == content@.len(),
                reg.wf(),
                reg.location() == registry_path@,
                split_lines(content@.subrange(0, i as int)) == done.push(
                    content@.subrange(start as int, i as int),
                ),
                reg.view() == trimmed_set(done),
            decreases n - i,
        {
            let c = content.get_char(i);
            let ghost pre = content@.subrange(0, i + 1);
            assert(pre.drop_last() =~= content@.subrange(0, i as int));
            assert(pre.last() == c);
            if c == '\n' {
                let ghost seg = content@.subrange(start as int, i as int);
                reg.add_line(content.substring_char(start, i));
                proof {
                    lemma_trimmed_set_push(done, seg);
                    assert(content@.subrange(i + 1, i + 1) =~= Seq::<char>::empty());
                    done = done.push(seg);
                }
                start = i + 1;
            } else {
                proof {
                    lemma_split_lines_nonempty(content@.subrange(0, i as int));
                    assert(content@.subrange(start as int, i + 1) =~= content@.subrange(
                        start as int,
                        i as int,
                    ).push(c));
                    assert(split_lines(pre) =~= done.push(content@.subrange(start as int, i + 1)));
                }
            }
            i = i + 1;
        }
        let ghost seg = content@.subrange(start as int, n as int);
        reg.add_line(content.substring_char(start, n));
        proof {
            lemma_trimmed_set_push(done, seg);
            assert(content@.subrange(0, n as int) =~= content@);
        }
        reg
    }

    /// The registered path that lookup by `name` yields (see `select`).
    pub open spec fn lookup(&self, name: Seq<char>) -> Option<Seq<char>> {
        select(self.paths(), self.paths().map_values(|p: Seq<char>| lookup_key(p)), lower_of(name))
    }

    /// Looks a project up by name, ignoring letter case: a directory name
    /// equal to it, else the single one that starts with it.
    pub fn find_project(&self, name: &str) -> (r: Option<String>)
        ensures
            opt_view(r) == self.lookup(name@),
    {
        let wanted = to_lower(name);
        let mut keys: Vec<Option<String>> = Vec::new();
        let mut i: usize = 0;
        while i < self.projects.len()
            invariant
                i <= self.projects@.len(),
                keys@.len() == i,
                forall|j: int| 0 <= j < i ==> opt_view(#[trigger] keys@[j]) == lookup_key(self.paths()[j]),
            decreases self.projects.len() - i,
        {
            let key = match file_name(self.projects[i].as_str()) {
                Some(n) => Some(to_lower(n.as_str())),
                None => None,
            };
            keys.push(key);
            i = i + 1;
        }
        assert(opt_texts(keys@) =~= self.paths().map_values(|p: Seq<char>| lookup_key(p)));
        select_project(&self.projects, &keys, wanted.as_str())
    }
}

/// Status of a registered project.
#[derive(Debug)]
pub struct ProjectStatus {
    pub path: String,
    pub name: String,
    pub exists: bool,
    pub has_tasks_dir: bool,
    pub open_tasks: usize,
    pub total_tasks: usize,
}

pub open spec fn task_is_open() -> spec_fn(TaskView) -> bool {
    |t: TaskView| t.is_open()
}

impl ProjectStatus {
    /// The status of the project at `path`, from what the caller found on
    /// disk: whether the path and its `.tasks` directory exist, and the
    /// project's tasks (archived included) when they could be listed.
    pub fn from_path(path: &str, exists: bool, has_tasks_dir: bool, tasks: Option<&Vec<Task>>) -> (r:
        ProjectStatus)
        ensures
            r.path@ == path@,
            r.name@ == project_name(path@),
            r.exists == exists,
            r.has_tasks_dir == has_tasks_dir,
            match tasks {
                Some(ts) if has_tasks_dir => r.total_tasks == ts@.len() && r.open_tasks
                    == count_where(ts@, task_is_open()),
                _ => r.total_tasks == 0 && r.open_tasks == 0,
            },
    {
        let name = project_name_of(path);
        let mut open_tasks: usize = 0;
        let mut total_tasks: usize = 0;
        match tasks {
            Some(ts) => {
                if has_tasks_dir {
                    let mut i: usize = 0;
                    while i < ts.len()
                        invariant
                            i <= ts@.len(),
                            open_tasks <= i,
                            open_tasks == count_where(ts@.subrange(0, i as int), task_is_open()),
                        decreases ts.len() - i,
                    {
                        assert(ts@.subrange(0, i + 1).drop_last() =~= ts@.subrange(0, i as int));
                        if ts[i].is_open() {
                            open_tasks = open_tasks + 1;
                        }
                        i = i + 1;
                    }
                    assert(ts@.subrange(0, ts@.len() as int) =~= ts@);
                    total_tasks = ts.len();
                }
            },
            None => {},
        }
        ProjectStatus {
            path: String::from_str(path),
            name,
            exists,
            has_tasks_dir,
            open_tasks,
            total_tasks,
        }
    }
}

impl KeyOrder for ProjectStatus {
    open spec fn key_le(&self, other: &ProjectStatus) -> bool {
        text_le(self.name@, other.name@)
    }

    proof fn lemma_key_le_total(a: &ProjectStatus, b: &ProjectStatus) {
        lemma_text_le_total(a.name@, b.name@);
    }

    proof fn lemma_key_le_trans(a: &ProjectStatus, b: &ProjectStatus, c: &ProjectStatus) {
        lemma_text_le_trans(a.name@, b.name@, c.name@);
    }

    fn le(&self, other: &ProjectStatus) -> (r: bool) {
        text_le_exec(self.name.as_str(), other.name.as_str())
    }
}

impl ProjectRegistry {
    /// The statuses of the registered projects, one per registered path in
    /// the order of `projects`, ordered by project name.
    pub fn project_statuses(&self, statuses: Vec<ProjectStatus>) -> (r: Vec<ProjectStatus>)
        requires
            statuses@.len() == self.paths().len(),
            forall|i: int| 0 <= i < statuses@.len() ==> (#[trigger] statuses@[i]).path@ == self.paths()[i],
        ensures
            r@.to_multiset() == statuses@.to_multiset(),
            forall|i: int, j: int|
                0 <= i < j < r@.len() ==> text_le(#[trigger] r@[i].name@, #[trigger] r@[j].name@),
    {
        let sorted = sort_by_key_order(statuses);
        assert forall|i: int, j: int| 0 <= i < j < sorted@.len() implies text_le(
            #[trigger] sorted@[i].name@,
            #[trigger] sorted@[j].name@,
        ) by {
            assert(sorted@[i].key_le(&sorted@[j]));
        }
        sorted
    }
}

} // verus!
