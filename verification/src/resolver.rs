//! Finding a program on the search path.
//!
//! The search path is the text of the environment's path variable, a list
//! of directories with `:` between them. What the disk holds is given to the
//! search as an `FsView`, a record of what the caller found there.

use crate::text::push_char;
use vstd::prelude::*;

verus! {

/// The character between two directories of a search path.
pub const SEPARATOR: char = ':';

/// `s` cut at every `sep`, the pieces in order. There is always one piece
/// more than there are separators, so the empty text has one empty piece.
pub open spec fn split_on(s: Seq<char>, sep: char) -> Seq<Seq<char>>
    decreases s.len(),
{
    if s.len() == 0 {
        seq![Seq::empty()]
    } else if s.last() == sep {
        split_on(s.drop_last(), sep).push(Seq::empty())
    } else {
        let before = split_on(s.drop_last(), sep);
        before.drop_last().push(before.last().push(s.last()))
    }
}

/// `pieces` written out with one `sep` between neighbours.
pub open spec fn join_with(pieces: Seq<Seq<char>>, sep: char) -> Seq<char>
    decreases pieces.len(),
{
    if pieces.len() == 0 {
        Seq::empty()
    } else if pieces.len() == 1 {
        pieces[0]
    } else {
        join_with(pieces.drop_last(), sep) + seq![sep] + pieces.last()
    }
}

/// The directories of a search path, left to right.
pub open spec fn search_dirs(search_path: Seq<char>) -> Seq<Seq<char>> {
    split_on(search_path, SEPARATOR)
}

/// The path of `name` inside `dir`: an absolute `name` stands for itself,
/// and otherwise `name` follows `dir`, with a `/` between them unless `dir`
/// is empty or ends in one.
pub open spec fn join_path(dir: Seq<char>, name: Seq<char>) -> Seq<char> {
    if name.len() > 0 && name[0] == '/' {
        name
    } else if dir.len() == 0 || dir.last() == '/' {
        dir + name
    } else {
        dir + seq!['/'] + name
    }
}

/// What was found on disk.
pub struct Files {
    /// The paths that are directories.
    pub directories: Set<Seq<char>>,
    /// The paths at which something exists.
    pub entries: Set<Seq<char>>,
}

/// `dir` is a directory and holds an entry called `name`.
pub open spec fn holds(files: Files, dir: Seq<char>, name: Seq<char>) -> bool {
    files.directories.contains(dir) && files.entries.contains(join_path(dir, name))
}

/// The path of `name` in the first of `dirs` that holds it.
pub open spec fn first_match(dirs: Seq<Seq<char>>, name: Seq<char>, files: Files) -> Option<
    Seq<char>,
>
    decreases dirs.len(),
{
    if dirs.len() == 0 {
        None
    } else {
        match first_match(dirs.drop_last(), name, files) {
            Some(path) => Some(path),
            None => if holds(files, dirs.last(), name) {
                Some(join_path(dirs.last(), name))
            } else {
                None
            },
        }
    }
}

/// Where the program `name` is found: in the first directory of `dirs` that
/// holds it. An empty name is found nowhere.
pub open spec fn resolve(dirs: Seq<Seq<char>>, name: Seq<char>, files: Files) -> Option<
    Seq<char>,
> {
    if name.len() == 0 {
        None
    } else {
        first_match(dirs, name, files)
    }
}

/// Where each of `names` is found, name by name.
pub open spec fn resolve_all(dirs: Seq<Seq<char>>, names: Seq<Seq<char>>, files: Files) -> Seq<
    Option<Seq<char>>,
> {
    Seq::new(names.len(), |k: int| resolve(dirs, names[k], files))
}

/// The pieces of a split text hold no separator, and written out with the
/// separator between them they give the text back.
pub proof fn lemma_split_on(s: Seq<char>, sep: char)
    ensures
        split_on(s, sep).len() >= 1,
        forall|k: int, j: int|
            0 <= k < split_on(s, sep).len() && 0 <= j < split_on(s, sep)[k].len() ==> (
            #[trigger] split_on(s, sep)[k][j]) != sep,
        join_with(split_on(s, sep), sep) == s,
    decreases s.len(),
{
    if s.len() > 0 {
        let init = s.drop_last();
        let before = split_on(init, sep);
        lemma_split_on(init, sep);
        let now = split_on(s, sep);
        if s.last() == sep {
            assert(now.drop_last() == before);
            assert(join_with(now, sep) == join_with(before, sep) + seq![sep] + Seq::<char>::empty());
            assert(init + seq![sep] + Seq::<char>::empty() == s);
        } else {
            assert forall|k: int, j: int|
                0 <= k < now.len() && 0 <= j < now[k].len() implies (#[trigger] now[k][j]) != sep by {
                if k < now.len() - 1 {
                    assert(now[k][j] == before[k][j]);
                } else if j < before.last().len() {
                    assert(now[k][j] == before[k][j]);
                }
            }
            let grown = before.last().push(s.last());
            if before.len() == 1 {
                assert(now == seq![grown]);
                assert(before.last() == init);
                assert(init.push(s.last()) == s);
            } else {
                assert(now.drop_last() == before.drop_last());
                assert(now.last() == grown);
                assert(join_with(before, sep) == join_with(before.drop_last(), sep) + seq![sep]
                    + before.last());
                assert(join_with(now, sep) == join_with(before.drop_last(), sep) + seq![sep]
                    + grown);
                assert(join_with(before.drop_last(), sep) + seq![sep] + grown == (join_with(
                    before.drop_last(),
                    sep,
                ) + seq![sep] + before.last()).push(s.last()));
                assert(init.push(s.last()) == s);
            }
        }
    }
}

/// Precedence: the program is found in the earliest directory that holds
/// it, and nowhere when its name is empty or no directory holds it.
pub proof fn lemma_resolve_earliest(dirs: Seq<Seq<char>>, name: Seq<char>, files: Files)
    ensures
        match resolve(dirs, name, files) {
            Some(path) => name.len() > 0 && exists|i: int|
                0 <= i < dirs.len() && #[trigger] holds(files, dirs[i], name) && path == join_path(
                    dirs[i],
                    name,
                ) && forall|j: int| 0 <= j < i ==> !holds(files, #[trigger] dirs[j], name),
            None => name.len() == 0 || forall|i: int|
                0 <= i < dirs.len() ==> !holds(files, #[trigger] dirs[i], name),
        },
{
    if name.len() > 0 {
        lemma_first_match(dirs, name, files);
    }
}

/// Consistency: looking up several names at once gives, for each of them,
/// what looking it up alone gives.
pub proof fn lemma_resolve_all_is_resolve_each(
    dirs: Seq<Seq<char>>,
    names: Seq<Seq<char>>,
    files: Files,
)
    ensures
        resolve_all(dirs, names, files).len() == names.len(),
        forall|k: int|
            0 <= k < names.len() ==> (#[trigger] resolve_all(dirs, names, files)[k]) == resolve(
                dirs,
                names[k],
                files,
            ),
{
}

/// `first_match` is the match in the earliest directory that holds `name`.
proof fn lemma_first_match(dirs: Seq<Seq<char>>, name: Seq<char>, files: Files)
    ensures
        match first_match(dirs, name, files) {
            Some(path) => exists|i: int|
                0 <= i < dirs.len() && #[trigger] holds(files, dirs[i], name) && path == join_path(
                    dirs[i],
                    name,
                ) && forall|j: int| 0 <= j < i ==> !holds(files, #[trigger] dirs[j], name),
            None => forall|i: int| 0 <= i < dirs.len() ==> !holds(files, #[trigger] dirs[i], name),
        },
    decreases dirs.len(),
{
    if dirs.len() > 0 {
        let init = dirs.drop_last();
        lemma_first_match(init, name, files);
        match first_match(init, name, files) {
            Some(path) => {
                let i = choose|i: int|
                    0 <= i < init.len() && #[trigger] holds(files, init[i], name) && path
                        == join_path(init[i], name) && forall|j: int|
                        0 <= j < i ==> !holds(files, #[trigger] init[j], name);
                assert(dirs[i] == init[i]);
                assert forall|j: int| 0 <= j < i implies !holds(files, #[trigger] dirs[j], name) by {
                    assert(dirs[j] == init[j]);
                }
                assert(holds(files, dirs[i], name));
            },
            None => {
                assert forall|j: int| 0 <= j < init.len() implies !holds(
                    files,
                    #[trigger] dirs[j],
                    name,
                ) by {
                    assert(dirs[j] == init[j]);
                }
                if holds(files, dirs.last(), name) {
                    let i = dirs.len() - 1;
                    assert(holds(files, dirs[i], name));
                }
            },
        }
    }
}

/// A match among the first directories is the match among all of them.
proof fn lemma_first_match_stays(dirs: Seq<Seq<char>>, name: Seq<char>, files: Files, n: int)
    requires
        0 <= n <= dirs.len(),
        first_match(dirs.take(n), name, files) is Some,
    ensures
        first_match(dirs, name, files) == first_match(dirs.take(n), name, files),
    decreases dirs.len() - n,
{
    if n < dirs.len() {
        assert(dirs.take(n + 1).drop_last() == dirs.take(n));
        lemma_first_match_stays(dirs, name, files, n + 1);
    } else {
        assert(dirs.take(n) == dirs);
    }
}

/// The directories of `search_path`, left to right.
pub fn split_search_path(search_path: &str) -> (r: Vec<String>)
    ensures
        r.deep_view() == search_dirs(search_path@),
{
    let mut done: Vec<String> = Vec::new();
    let mut open = String::new();
    assert(search_path@.take(0) == Seq::<char>::empty());
    assert(done.deep_view().push(open@) == seq![Seq::<char>::empty()]);
    for c in it: search_path.chars()
        invariant
            it.seq() == search_path@,
            done.deep_view().push(open@) == search_dirs(search_path@.take(it.index() as int)),
    {
        let ghost i = it.index() as int;
        let ghost read = search_path@.take(i + 1);
        let ghost before = search_dirs(search_path@.take(i));
        let ghost found = done.deep_view();
        proof {
            assert(read.drop_last() == search_path@.take(i));
            assert(read.last() == c);
            assert(before.drop_last() == found);
            assert(before.last() == open@);
        }
        if c == SEPARATOR {
            let ghost strings = done@;
            let piece = open;
            open = String::new();
            done.push(piece);
            proof {
                lemma_views_after_push(strings, done@, piece);
            }
        } else {
            push_char(&mut open, c);
        }
    }
    assert(search_path@.take(search_path@.len() as int) == search_path@);
    let ghost strings = done@;
    done.push(open);
    proof {
        lemma_views_after_push(strings, done@, open);
    }
    done
}

/// The views of a vector of strings after one more string.
proof fn lemma_views_after_push(before: Seq<String>, after: Seq<String>, s: String)
    requires
        after == before.push(s),
    ensures
        Seq::new(after.len(), |i: int| after[i].deep_view()) == Seq::new(
            before.len(),
            |i: int| before[i].deep_view(),
        ).push(s@),
{
    let a = Seq::new(after.len(), |i: int| after[i].deep_view());
    let b = Seq::new(before.len(), |i: int| before[i].deep_view()).push(s@);
    assert forall|i: int| 0 <= i < a.len() implies a[i] == b[i] by {
        if i < before.len() {
            assert(after[i] == before[i]);
        } else {
            assert(after[i] == s);
        }
    }
    assert(a =~= b);
}

/// The path of `name` inside `dir`.
pub fn candidate_path(dir: &str, name: &str) -> (r: String)
    ensures
        r@ == join_path(dir@, name@),
{
    if name.unicode_len() > 0 && name.get_char(0) == '/' {
        return name.to_owned();
    }
    let mut path = dir.to_owned();
    let n = dir.unicode_len();
    if n > 0 && dir.get_char(n - 1) != '/' {
        push_char(&mut path, '/');
    }
    path.append(name);
    path
}

/// A record of what the caller found on disk: which paths are directories
/// and at which paths something exists.
pub struct FsView {
    directories: Vec<String>,
    entries: Vec<String>,
}

impl View for FsView {
    type V = Files;

    closed spec fn view(&self) -> Files {
        Files {
            directories: self.directories.deep_view().to_set(),
            entries: self.entries.deep_view().to_set(),
        }
    }
}

/// Whether `path` is among `paths`.
fn lists(paths: &Vec<String>, path: &String) -> (r: bool)
    ensures
        r == paths.deep_view().to_set().contains(path@),
{
    let mut k: usize = 0;
    while k < paths.len()
        invariant
            0 <= k <= paths.len(),
            forall|j: int| 0 <= j < k ==> paths.deep_view()[j] != path@,
        decreases paths.len() - k,
    {
        if paths[k] == *path {
            assert(paths.deep_view()[k as int] == path@);
            return true;
        }
        k = k + 1;
    }
    false
}

impl FsView {
    /// A record of an empty disk.
    pub fn new() -> (r: FsView)
        ensures
            r@.directories == Set::<Seq<char>>::empty(),
            r@.entries == Set::<Seq<char>>::empty(),
    {
        let r = FsView { directories: Vec::new(), entries: Vec::new() };
        assert(r@.directories =~= Set::<Seq<char>>::empty());
        assert(r@.entries =~= Set::<Seq<char>>::empty());
        r
    }

    /// Records that `path` is a directory.
    pub fn add_directory(&mut self, path: String)
        ensures
            final(self)@.directories == old(self)@.directories.insert(path@),
            final(self)@.entries == old(self)@.entries,
    {
        let ghost before = self.directories@;
        self.directories.push(path);
        proof {
            lemma_views_after_push(before, self.directories@, path);
            lemma_to_set_after_push(old(self).directories.deep_view(), path@);
        }
    }

    /// Records that something exists at `path`.
    pub fn add_entry(&mut self, path: String)
        ensures
            final(self)@.entries == old(self)@.entries.insert(path@),
            final(self)@.directories == old(self)@.directories,
    {
        let ghost before = self.entries@;
        self.entries.push(path);
        proof {
            lemma_views_after_push(before, self.entries@, path);
            lemma_to_set_after_push(old(self).entries.deep_view(), path@);
        }
    }

    /// Whether `path` was found to be a directory.
    pub fn is_directory(&self, path: &String) -> (r: bool)
        ensures
            r == self@.directories.contains(path@),
    {
        lists(&self.directories, path)
    }

    /// Whether something was found at `path`.
    pub fn has_entry(&self, path: &String) -> (r: bool)
        ensures
            r == self@.entries.contains(path@),
    {
        lists(&self.entries, path)
    }
}

/// The members of a sequence after one more element.
proof fn lemma_to_set_after_push(s: Seq<Seq<char>>, p: Seq<char>)
    ensures
        s.push(p).to_set() == s.to_set().insert(p),
{
    let a = s.push(p).to_set();
    let b = s.to_set().insert(p);
    assert forall|x: Seq<char>| a.contains(x) <==> b.contains(x) by {
        if a.contains(x) {
            let i = choose|i: int| 0 <= i < s.push(p).len() && s.push(p)[i] == x;
            if i < s.len() {
                assert(s[i] == x);
            }
        }
        if b.contains(x) {
            if x == p {
                assert(s.push(p)[s.len() as int] == x);
            } else {
                let i = choose|i: int| 0 <= i < s.len() && s[i] == x;
                assert(s.push(p)[i] == x);
            }
        }
    }
    assert(a =~= b);
}

/// Looks for `name` in `dirs`, earliest first.
fn find_in(dirs: &Vec<String>, name: &str, files: &FsView) -> (r: Option<String>)
    ensures
        r.deep_view() == resolve(dirs.deep_view(), name@, files@),
{
    if name.unicode_len() == 0 {
        return None;
    }
    let mut i: usize = 0;
    assert(dirs.deep_view().take(0) == Seq::<Seq<char>>::empty());
    while i < dirs.len()
        invariant
            0 <= i <= dirs.len(),
            name@.len() > 0,
            first_match(dirs.deep_view().take(i as int), name@, files@) is None,
        decreases dirs.len() - i,
    {
        proof {
            let upto = dirs.deep_view().take(i as int + 1);
            assert(upto.drop_last() == dirs.deep_view().take(i as int));
            assert(upto.last() == dirs[i as int]@);
        }
        if files.is_directory(&dirs[i]) {
            let candidate = candidate_path(dirs[i].as_str(), name);
            if files.has_entry(&candidate) {
                proof {
                    lemma_first_match_stays(dirs.deep_view(), name@, files@, i as int + 1);
                }
                return Some(candidate);
            }
        }
        i = i + 1;
    }
    assert(dirs.deep_view().take(dirs.len() as int) == dirs.deep_view());
    None
}

/// Finds the program `to_check` on `search_path`, given what the disk
/// holds: the path of `to_check` in the first directory of the search path
/// that is a directory and holds an entry of that name.
pub fn find_command(to_check: &str, search_path: &str, files: &FsView) -> (r: Option<String>)
    ensures
        r.deep_view() == resolve(search_dirs(search_path@), to_check@, files@),
{
    let dirs = split_search_path(search_path);
    find_in(&dirs, to_check, files)
}

/// Finds each program of `to_check` on `search_path` in one pass over the
/// directories of the search path: for every name the result of
/// `find_command`, in the order of the names.
pub fn find_commands(to_check: &[&str], search_path: &str, files: &FsView) -> (r: Vec<
    Option<String>,
>)
    ensures
        r.deep_view() == resolve_all(search_dirs(search_path@), to_check.deep_view(), files@),
{
    let dirs = split_search_path(search_path);
    let ghost all = dirs.deep_view();
    let ghost names = to_check.deep_view();
    let mut found: Vec<Option<String>> = Vec::new();
    while found.len() < to_check.len()
        invariant
            found.len() <= to_check.len(),
            forall|k: int| 0 <= k < found.len() ==> (#[trigger] found@[k]) is None,
        decreases to_check.len() - found.len(),
    {
        found.push(None);
    }
    let mut i: usize = 0;
    assert(all.take(0) == Seq::<Seq<char>>::empty());
    while i < dirs.len()
        invariant
            0 <= i <= dirs.len(),
            all == dirs.deep_view(),
            names == to_check.deep_view(),
            found.len() == to_check.len(),
            forall|k: int|
                0 <= k < found.len() ==> (#[trigger] found@[k]).deep_view() == resolve(
                    all.take(i as int),
                    names[k],
                    files@,
                ),
        decreases dirs.len() - i,
    {
        let ghost seen = all.take(i as int);
        let ghost next = all.take(i as int + 1);
        proof {
            assert(next.drop_last() == seen);
            assert(next.last() == dirs[i as int]@);
        }
        if files.is_directory(&dirs[i]) {
            let mut k: usize = 0;
            while k < to_check.len()
                invariant
                    0 <= k <= to_check.len(),
                    0 <= i < dirs.len(),
                    all == dirs.deep_view(),
                    names == to_check.deep_view(),
                    seen == all.take(i as int),
                    next == all.take(i as int + 1),
                    next.drop_last() == seen,
                    next.last() == dirs[i as int]@,
                    files@.directories.contains(dirs[i as int]@),
                    found.len() == to_check.len(),
                    forall|j: int|
                        0 <= j < k ==> (#[trigger] found@[j]).deep_view() == resolve(
                            next,
                            names[j],
                            files@,
                        ),
                    forall|j: int|
                        k <= j < found.len() ==> (#[trigger] found@[j]).deep_view() == resolve(
                            seen,
                            names[j],
                            files@,
                        ),
                decreases to_check.len() - k,
            {
                let name = to_check[k];
                assert(name@ == names[k as int]);
                if found[k].is_none() && name.unicode_len() > 0 {
                    let candidate = candidate_path(dirs[i].as_str(), name);
                    if files.has_entry(&candidate) {
                        found[k] = Some(candidate);
                    }
                }
                k = k + 1;
            }
        } else {
            assert forall|k: int| 0 <= k < found.len() implies (#[trigger] found@[k]).deep_view()
                == resolve(next, names[k], files@) by {
                assert(!holds(files@, next.last(), names[k]));
            }
        }
        i = i + 1;
    }
    assert(all.take(dirs.len() as int) == all);
    assert(found.deep_view() =~= resolve_all(all, names, files@));
    found
}

} // verus!
