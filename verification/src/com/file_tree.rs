//! A tree of files by path: each directory holds files and directories by
//! name. Entries are kept in the order they were added, a name at most once
//! among the files and once among the directories of a directory.

use vstd::prelude::*;
use std::path::Path;

verus! {

/// The value of the first entry of `entries` named `name`.
pub open spec fn entry_named<V>(entries: Seq<(String, V)>, name: Seq<char>) -> Option<V>
    decreases entries.len(),
{
    if entries.len() == 0 {
        None
    } else if entries[0].0@ == name {
        Some(entries[0].1)
    } else {
        entry_named(entries.drop_first(), name)
    }
}

/// The names of `parts`, as their characters.
pub open spec fn names(parts: Seq<String>) -> Seq<Seq<char>> {
    parts.map_values(|s: String| s@)
}

/// Replacing the first entry named `key` changes what `key` names and
/// nothing else.
proof fn lemma_entry_named_update<V>(entries: Seq<(String, V)>, idx: int, s: String, v: V, other: Seq<char>)
    requires
        0 <= idx < entries.len(),
        entries[idx].0@ == s@,
        forall|j: int| 0 <= j < idx ==> entries[j].0@ != s@,
    ensures
        entry_named(entries.update(idx, (s, v)), other) == if other == s@ { Some(v) } else { entry_named(entries, other) },
    decreases entries.len(),
{
    let after = entries.update(idx, (s, v));
    if idx == 0 {
        assert(after.drop_first() =~= entries.drop_first());
    } else {
        assert(after[0] == entries[0]);
        assert(after.drop_first() =~= entries.drop_first().update(idx - 1, (s, v)));
        assert forall|j: int| 0 <= j < idx - 1 implies entries.drop_first()[j].0@ != s@ by {
            assert(entries.drop_first()[j] == entries[j + 1]);
        }
        lemma_entry_named_update(entries.drop_first(), idx - 1, s, v, other);
    }
}

/// Adding an entry under a name no entry has makes it what that name names,
/// and changes nothing else.
proof fn lemma_entry_named_push<V>(entries: Seq<(String, V)>, s: String, v: V, other: Seq<char>)
    requires
        entry_named(entries, s@) is None,
    ensures
        entry_named(entries.push((s, v)), other) == if other == s@ { Some(v) } else { entry_named(entries, other) },
    decreases entries.len(),
{
    let pushed = entries.push((s, v));
    if entries.len() == 0 {
        assert(pushed.drop_first() =~= Seq::<(String, V)>::empty());
        assert(pushed[0] == (s, v));
    } else {
        assert(pushed.drop_first() =~= entries.drop_first().push((s, v)));
        assert(pushed[0] == entries[0]);
        lemma_entry_named_push(entries.drop_first(), s, v, other);
    }
}

/// The index of the first entry of `entries` named `name`, if any.
fn find_index<V>(entries: &Vec<(String, V)>, name: &String) -> (r: Option<usize>)
    ensures
        r matches Some(i) ==> i < entries@.len() && entries@[i as int].0@ == name@
            && forall|j: int| 0 <= j < i ==> entries@[j].0@ != name@,
        r is None ==> forall|j: int| 0 <= j < entries@.len() ==> entries@[j].0@ != name@,
        r matches Some(i) ==> entry_named(entries@, name@) == Some(entries@[i as int].1),
        r is None ==> entry_named(entries@, name@) is None,
{
    let mut i: usize = 0;
    proof {
        assert(entries@.subrange(0, entries@.len() as int) =~= entries@);
    }
    while i < entries.len()
        invariant
            0 <= i <= entries@.len(),
            forall|j: int| 0 <= j < i ==> entries@[j].0@ != name@,
            entry_named(entries@, name@) == entry_named(entries@.subrange(i as int, entries@.len() as int), name@),
        decreases entries@.len() - i,
    {
        let ghost rest = entries@.subrange(i as int, entries@.len() as int);
        if entries[i].0 == *name {
            proof {
                assert(rest[0] == entries@[i as int]);
            }
            return Some(i);
        }
        proof {
            assert(rest.drop_first() =~= entries@.subrange(i + 1, entries@.len() as int));
        }
        i = i + 1;
    }
    proof {
        assert(entries@.subrange(i as int, entries@.len() as int) =~= Seq::<(String, V)>::empty());
    }
    None
}

/// The text of the parent of the path written `path`, as std's
/// `Path::parent` gives it on the platform the library is built for.
pub uninterp spec fn parent_text(path: Seq<char>) -> Option<Seq<char>>;

/// The text of the last component of the path written `path`, as std's
/// `Path::file_name` gives it on the platform the library is built for.
pub uninterp spec fn file_name_text(path: Seq<char>) -> Option<Seq<char>>;

/// The texts of the components of the path written `path`, in order, as
/// std's `Path::iter` gives them on the platform the library is built for.
pub uninterp spec fn components_text(path: Seq<char>) -> Seq<Seq<char>>;

/// Where the path written `path` leads in a file tree: the components of
/// its parent and its file name; none where it has no parent or no file name.
pub open spec fn path_parts(path: Seq<char>) -> Option<(Seq<Seq<char>>, Seq<char>)> {
    match (parent_text(path), file_name_text(path)) {
        (Some(parent), Some(name)) => Some((components_text(parent), name)),
        _ => None,
    }
}

/// std's `Path::parent` on `path`, as text. A path made from text has
/// parts that are text, so the conversion loses nothing. The result is
/// named, not stated: it depends on the path syntax of the platform.
#[verifier::external_body]
fn path_parent(path: &str) -> (r: Option<String>)
    ensures
        r matches Some(t) ==> parent_text(path@) == Some(t@),
        r is None ==> parent_text(path@) is None,
{
    match Path::new(path).parent() {
        Some(parent) => Some(parent.to_string_lossy().into_owned()),
        None => None,
    }
}

/// std's `Path::file_name` on `path`, as text. As for `path_parent`, the
/// result is named, not stated.
#[verifier::external_body]
fn path_file_name(path: &str) -> (r: Option<String>)
    ensures
        r matches Some(t) ==> file_name_text(path@) == Some(t@),
        r is None ==> file_name_text(path@) is None,
{
    match Path::new(path).file_name() {
        Some(name) => Some(name.to_string_lossy().into_owned()),
        None => None,
    }
}

/// std's `Path::iter` on `path`: the texts of its components, in order. As
/// for `path_parent`, the result is named, not stated.
#[verifier::external_body]
fn path_components(path: &str) -> (r: Vec<String>)
    ensures
        names(r@) == components_text(path@),
{
    Path::new(path).iter().map(|part| part.to_string_lossy().into_owned()).collect()
}

/// The parts that `path` leads through: the components of its parent and
/// its file name; `None` where it has no parent or no file name.
fn split_path(path: &str) -> (parts: Option<(Vec<String>, String)>)
    ensures
        parts matches Some((dirs, name)) ==> path_parts(path@) == Some((names(dirs@), name@)),
        parts is None ==> path_parts(path@) is None,
{
    let parent = match path_parent(path) {
        Some(parent) => parent,
        None => return None,
    };
    let name = match path_file_name(path) {
        Some(name) => name,
        None => return None,
    };
    let dirs = path_components(parent.as_str());
    Some((dirs, name))
}

/// A directory: its subdirectories and its files, by name.
#[verifier::reject_recursive_types(File)]
pub struct FileTree<File> {
    dirs: Vec<(String, FileTree<File>)>,
    files: Vec<(String, File)>,
}

/// The file that the path made of the directories `dirs` and the name
/// `name` leads to in `t`, if any.
pub closed spec fn file_at<File>(t: FileTree<File>, dirs: Seq<Seq<char>>, name: Seq<char>) -> Option<File>
    decreases dirs.len(),
{
    if dirs.len() == 0 {
        entry_named(t.files@, name)
    } else {
        match entry_named(t.dirs@, dirs[0]) {
            Some(sub) => file_at(sub, dirs.drop_first(), name),
            None => None,
        }
    }
}

impl<File> FileTree<File> {
    /// The subdirectories of this directory.
    pub closed spec fn dir_entries(&self) -> Seq<(String, FileTree<File>)> {
        self.dirs@
    }

    /// The files of this directory.
    pub closed spec fn file_entries(&self) -> Seq<(String, File)> {
        self.files@
    }

    /// An empty directory.
    pub fn new() -> (t: Self)
        ensures
            t.dir_entries().len() == 0,
            t.file_entries().len() == 0,
            forall|dirs: Seq<Seq<char>>, name: Seq<char>| #[trigger] file_at(t, dirs, name) is None,
    {
        let t = Self { dirs: Vec::new(), files: Vec::new() };
        proof {
            assert forall|dirs: Seq<Seq<char>>, name: Seq<char>| #[trigger] file_at(t, dirs, name) is None by {
                if dirs.len() == 0 {
                    assert(entry_named(t.files@, name) is None);
                } else {
                    assert(entry_named(t.dirs@, dirs[0]) is None);
                }
            }
        }
        t
    }

    /// The subdirectory named `name`, if any.
    pub fn get_dir(&self, name: &String) -> (r: Option<&Self>)
        ensures
            r matches Some(d) ==> entry_named(self.dir_entries(), name@) == Some(*d),
            r is None ==> entry_named(self.dir_entries(), name@) is None,
    {
        match find_index(&self.dirs, name) {
            Some(i) => Some(&self.dirs[i].1),
            None => None,
        }
    }

    /// The file named `name`, if any.
    pub fn get_file(&self, name: &String) -> (r: Option<&File>)
        ensures
            r matches Some(f) ==> entry_named(self.file_entries(), name@) == Some(*f),
            r is None ==> entry_named(self.file_entries(), name@) is None,
    {
        match find_index(&self.files, name) {
            Some(i) => Some(&self.files[i].1),
            None => None,
        }
    }

    /// Adds `file` under the name `name` in the directory that the names
    /// `dirs` from position `i` on lead to, making the directories that are
    /// missing; a file already there under that name is replaced.
    fn add_file_from(&mut self, dirs: &Vec<String>, i: usize, name: String, file: File)
        requires
            i <= dirs@.len(),
        ensures
            file_at(*final(self), names(dirs@).subrange(i as int, dirs@.len() as int), name@) == Some(file),
            forall|d: Seq<Seq<char>>, n: Seq<char>|
                !(d == names(dirs@).subrange(i as int, dirs@.len() as int) && n == name@)
                    ==> #[trigger] file_at(*final(self), d, n) == file_at(*old(self), d, n),
        decreases dirs@.len() - i,
    {
        let ghost target = names(dirs@).subrange(i as int, dirs@.len() as int);
        if i == dirs.len() {
            let ghost before = self.files@;
            let ghost key = name@;
            match find_index(&self.files, &name) {
                Some(k) => {
                    self.files.set(k, (name, file));
                    proof {
                        assert forall|n: Seq<char>| #[trigger] entry_named(self.files@, n)
                            == (if n == key { Some(file) } else { entry_named(before, n) }) by {
                            lemma_entry_named_update(before, k as int, self.files@[k as int].0, file, n);
                        }
                    }
                },
                None => {
                    self.files.push((name, file));
                    proof {
                        assert forall|n: Seq<char>| #[trigger] entry_named(self.files@, n)
                            == (if n == key { Some(file) } else { entry_named(before, n) }) by {
                            lemma_entry_named_push(before, self.files@.last().0, file, n);
                        }
                    }
                },
            }
            proof {
                assert(target =~= Seq::<Seq<char>>::empty());
                assert forall|d: Seq<Seq<char>>, n: Seq<char>|
                    !(d == target && n == key) implies #[trigger] file_at(*self, d, n) == file_at(*old(self), d, n) by {
                    if d.len() == 0 {
                        assert(d =~= target);
                        assert(entry_named(self.files@, n) == entry_named(before, n));
                    }
                }
            }
        } else {
            let ghost key = dirs@[i as int]@;
            let ghost before = self.dirs@;
            let idx = match find_index(&self.dirs, &dirs[i]) {
                Some(k) => k,
                None => {
                    self.dirs.push((dirs[i].clone(), FileTree::new()));
                    self.dirs.len() - 1
                },
            };
            let ghost pushed = self.dirs@;
            proof {
                if before.len() < pushed.len() {
                    assert forall|n: Seq<char>| #[trigger] entry_named(pushed, n)
                        == (if n == key { Some(pushed.last().1) } else { entry_named(before, n) }) by {
                        lemma_entry_named_push(before, pushed.last().0, pushed.last().1, n);
                    }
                    assert forall|j: int| 0 <= j < idx implies pushed[j].0@ != key by {
                        assert(pushed[j] == before[j]);
                    }
                }
            }
            let mut entry: (String, FileTree<File>) = (String::new(), FileTree::new());
            self.dirs.set_and_swap(idx, &mut entry);
            let ghost sub0 = entry.1;
            entry.1.add_file_from(dirs, i + 1, name, file);
            let ghost updated = entry;
            self.dirs.set_and_swap(idx, &mut entry);
            proof {
                let sub1 = updated.1;
                assert(self.dirs@ =~= pushed.update(idx as int, updated));
                assert(updated.0@ == key);
                assert(pushed[idx as int] == (updated.0, sub0));
                assert(entry_named(pushed, key) == Some(sub0));
                assert forall|n: Seq<char>| #[trigger] entry_named(self.dirs@, n)
                    == (if n == key { Some(sub1) } else { entry_named(pushed, n) }) by {
                    lemma_entry_named_update(pushed, idx as int, updated.0, sub1, n);
                }
                let rest = names(dirs@).subrange(i + 1, dirs@.len() as int);
                assert(target.drop_first() =~= rest);
                assert(target[0] == key);
                assert forall|d: Seq<Seq<char>>, n: Seq<char>|
                    !(d == target && n == name@) implies #[trigger] file_at(*self, d, n) == file_at(*old(self), d, n) by {
                    if d.len() > 0 {
                        if d[0] == key {
                            assert(!(d.drop_first() == rest && n == name@)) by {
                                if d.drop_first() == rest && n == name@ {
                                    assert(d =~= seq![d[0]] + d.drop_first());
                                    assert(target =~= seq![target[0]] + target.drop_first());
                                }
                            }
                            assert(file_at(sub1, d.drop_first(), n) == file_at(sub0, d.drop_first(), n));
                            assert(entry_named(self.dirs@, d[0]) == Some(sub1));
                            if before.len() < pushed.len() {
                                assert(file_at(sub0, d.drop_first(), n) is None);
                                assert(entry_named(before, d[0]) is None);
                            } else {
                                assert(entry_named(before, d[0]) == Some(sub0));
                            }
                        } else {
                            assert(entry_named(self.dirs@, d[0]) == entry_named(pushed, d[0]));
                            assert(entry_named(pushed, d[0]) == entry_named(before, d[0]));
                        }
                    }
                }
            }
        }
    }

    /// Adds `file` at the path made of the directories `dirs` and the name
    /// `name`, making the directories that are missing; a file already there
    /// is replaced. Every other path leads where it led before.
    pub fn add_file_at(&mut self, dirs: &Vec<String>, name: String, file: File)
        ensures
            file_at(*final(self), names(dirs@), name@) == Some(file),
            forall|d: Seq<Seq<char>>, n: Seq<char>| !(d == names(dirs@) && n == name@)
                ==> #[trigger] file_at(*final(self), d, n) == file_at(*old(self), d, n),
    {
        proof {
            assert(names(dirs@).subrange(0, dirs@.len() as int) =~= names(dirs@));
        }
        self.add_file_from(dirs, 0, name, file);
    }

    /// Adds `file` at `path`: in the directories of its parent, under its
    /// file name. A path with no parent or no file name adds nothing.
    pub fn add_file(&mut self, path: &str, file: File)
        ensures
            match path_parts(path@) {
                Some((dirs, name)) => {
                    &&& file_at(*final(self), dirs, name) == Some(file)
                    &&& forall|d: Seq<Seq<char>>, n: Seq<char>| !(d == dirs && n == name)
                        ==> #[trigger] file_at(*final(self), d, n) == file_at(*old(self), d, n)
                },
                None => *final(self) == *old(self),
            },
    {
        if let Some((dirs, name)) = split_path(path) {
            self.add_file_at(&dirs, name, file);
        }
    }

    /// The file that the path made of the directories `dirs` and the name
    /// `name` leads to, if any.
    pub fn get_by_parts(&self, dirs: &Vec<String>, name: &String) -> (r: Option<&File>)
        ensures
            r matches Some(f) ==> file_at(*self, names(dirs@), name@) == Some(*f),
            r is None ==> file_at(*self, names(dirs@), name@) is None,
    {
        let mut tree = self;
        let mut i: usize = 0;
        proof {
            assert(names(dirs@).subrange(0, dirs@.len() as int) =~= names(dirs@));
        }
        while i < dirs.len()
            invariant
                0 <= i <= dirs@.len(),
                file_at(*self, names(dirs@), name@) == file_at(*tree, names(dirs@).subrange(i as int, dirs@.len() as int), name@),
            decreases dirs@.len() - i,
        {
            let ghost rest = names(dirs@).subrange(i as int, dirs@.len() as int);
            proof {
                assert(rest[0] == dirs@[i as int]@);
                assert(rest.drop_first() =~= names(dirs@).subrange(i + 1, dirs@.len() as int));
            }
            tree = match tree.get_dir(&dirs[i]) {
                Some(sub) => sub,
                None => return None,
            };
            i = i + 1;
        }
        proof {
            assert(names(dirs@).subrange(i as int, dirs@.len() as int) =~= Seq::<Seq<char>>::empty());
        }
        tree.get_file(name)
    }

    /// The file at `path`, if any: in the directories of its parent, under
    /// its file name. A path with no parent or no file name leads to none.
    pub fn get_by_path(&self, path: &str) -> (r: Option<&File>)
        ensures
            match path_parts(path@) {
                Some((dirs, name)) => {
                    &&& r matches Some(f) ==> file_at(*self, dirs, name) == Some(*f)
                    &&& r is None ==> file_at(*self, dirs, name) is None
                },
                None => r is None,
            },
    {
        match split_path(path) {
            Some((dirs, name)) => self.get_by_parts(&dirs, &name),
            None => None,
        }
    }
}

} // verus!
