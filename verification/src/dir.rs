//! An in-memory model of the store directory.
//!
//! The verified engine works against a [`Dir`], a map from file name to file
//! contents.  Every change the engine makes to its `Dir` corresponds to a
//! [`FsAction`]; the unverified shell replays those actions on the real
//! directory, and tests replay them on a mirror `Dir`.

use vstd::prelude::*;

use crate::names::str_eq;
use vstd::slice::slice_to_vec;

verus! {

/// One file operation, relative to the store directory.
#[derive(Debug)]
pub enum FsAction {
    /// Create the store directory itself.
    CreateDir,
    /// Create or truncate a file and write its whole contents, durably.
    WriteFile { name: String, contents: Vec<u8> },
    /// Append bytes to an existing file, durably.
    AppendFile { name: String, bytes: Vec<u8> },
    /// Atomically rename `from` over `to`.
    Rename { from: String, to: String },
    /// Remove a file.
    RemoveFile { name: String },
    /// Recursively remove the store directory.
    RemoveDir,
}

/// What one action does to the contents of a directory.
pub open spec fn apply_action(d: Map<Seq<char>, Seq<u8>>, a: FsAction) -> Map<Seq<char>, Seq<u8>> {
    match a {
        FsAction::CreateDir => d,
        FsAction::WriteFile { name, contents } => d.insert(name@, contents@),
        FsAction::AppendFile { name, bytes } => if d.contains_key(name@) {
            d.insert(name@, d[name@] + bytes@)
        } else {
            d.insert(name@, bytes@)
        },
        FsAction::Rename { from, to } => if d.contains_key(from@) {
            d.remove(from@).insert(to@, d[from@])
        } else {
            d
        },
        FsAction::RemoveFile { name } => d.remove(name@),
        FsAction::RemoveDir => Map::empty(),
    }
}

/// What a sequence of actions, applied in order, does to a directory.
pub open spec fn apply_actions(d: Map<Seq<char>, Seq<u8>>, acts: Seq<FsAction>) -> Map<
    Seq<char>,
    Seq<u8>,
>
    decreases acts.len(),
{
    if acts.len() == 0 {
        d
    } else {
        apply_actions(apply_action(d, acts[0]), acts.skip(1))
    }
}

pub proof fn lemma_apply_actions_snoc(d: Map<Seq<char>, Seq<u8>>, acts: Seq<FsAction>, a: FsAction)
    ensures
        apply_actions(d, acts.push(a)) == apply_action(apply_actions(d, acts), a),
    decreases acts.len(),
{
    if acts.len() == 0 {
        assert(acts.push(a).skip(1) =~= Seq::<FsAction>::empty());
        assert(acts.push(a)[0] == a);
        assert(apply_actions(apply_action(d, a), Seq::<FsAction>::empty()) == apply_action(d, a));
        assert(apply_actions(d, acts) == d);
    } else {
        assert(acts.push(a)[0] == acts[0]);
        assert(acts.push(a).skip(1) =~= acts.skip(1).push(a));
        lemma_apply_actions_snoc(apply_action(d, acts[0]), acts.skip(1), a);
    }
}

/// The map from file name to contents that a list of entries denotes.
spec fn entries_map(s: Seq<(String, Vec<u8>)>) -> Map<Seq<char>, Seq<u8>> {
    Map::new(
        |k: Seq<char>| exists|i: int| 0 <= i < s.len() && s[i].0@ == k,
        |k: Seq<char>|
            {
                let i = choose|i: int| 0 <= i < s.len() && s[i].0@ == k;
                s[i].1@
            },
    )
}

/// Entry names are unique.
spec fn entries_wf(s: Seq<(String, Vec<u8>)>) -> bool {
    forall|i: int, j: int|
        #![trigger s[i].0@, s[j].0@]
        0 <= i < j < s.len() ==> s[i].0@ != s[j].0@
}

/// With unique names, each entry is the one its name maps to.
proof fn lemma_entry(s: Seq<(String, Vec<u8>)>, i: int)
    requires
        entries_wf(s),
        0 <= i < s.len(),
    ensures
        entries_map(s).contains_key(s[i].0@),
        entries_map(s)[s[i].0@] == s[i].1@,
{
    let k = s[i].0@;
    let j = choose|j: int| 0 <= j < s.len() && s[j].0@ == k;
    if i < j {
        assert(s[i].0@ != s[j].0@);
    } else if j < i {
        assert(s[j].0@ != s[i].0@);
    }
}

/// The contents of a directory: file names mapped to file bytes.
#[derive(Debug)]
pub struct Dir {
    files: Vec<(String, Vec<u8>)>,
}

impl View for Dir {
    type V = Map<Seq<char>, Seq<u8>>;

    closed spec fn view(&self) -> Map<Seq<char>, Seq<u8>> {
        entries_map(self.files@)
    }
}

impl Dir {
    #[verifier::type_invariant]
    spec fn wf(self) -> bool {
        entries_wf(self.files@)
    }

    /// An empty directory.
    pub fn new() -> (r: Dir)
        ensures
            r@ == Map::<Seq<char>, Seq<u8>>::empty(),
    {
        let d = Dir { files: Vec::new() };
        proof {
            assert(d@ =~= Map::<Seq<char>, Seq<u8>>::empty());
        }
        d
    }

    /// The index of the entry named `name`, if any.
    fn find(&self, name: &str) -> (r: Option<usize>)
        ensures
            match r {
                Some(i) => i < self.files@.len() && self.files@[i as int].0@ == name@,
                None => !self@.contains_key(name@),
            },
    {
        let mut i: usize = 0;
        while i < self.files.len()
            invariant
                0 <= i <= self.files@.len(),
                forall|j: int| 0 <= j < i ==> self.files@[j].0@ != name@,
            decreases self.files@.len() - i,
        {
            if str_eq(self.files[i].0.as_str(), name) {
                return Some(i);
            }
            i = i + 1;
        }
        None
    }

    pub fn contains(&self, name: &str) -> (r: bool)
        ensures
            r == self@.contains_key(name@),
    {
        let r = self.find(name);
        proof {
            use_type_invariant(self);
            if let Some(i) = r {
                lemma_entry(self.files@, i as int);
            }
        }
        match r {
            Some(_) => true,
            None => false,
        }
    }

    /// The contents of the file named `name`, if present.
    pub fn read_file(&self, name: &str) -> (r: Option<&Vec<u8>>)
        ensures
            match r {
                Some(v) => self@.contains_key(name@) && v@ == self@[name@],
                None => !self@.contains_key(name@),
            },
    {
        let found = self.find(name);
        proof {
            use_type_invariant(self);
            if let Some(i) = found {
                lemma_entry(self.files@, i as int);
            }
        }
        match found {
            Some(i) => Some(&self.files[i].1),
            None => None,
        }
    }

    /// Creates or replaces the file named `name` with the given contents.
    pub fn put(&mut self, name: &str, contents: &[u8])
        ensures
            final(self)@ == old(self)@.insert(name@, contents@),
    {
        proof {
            use_type_invariant(&*self);
        }
        let found = self.find(name);
        let mut files: Vec<(String, Vec<u8>)> = Vec::new();
        core::mem::swap(&mut files, &mut self.files);
        let ghost pre = files@;
        if let Some(i) = found {
            files.remove(i);
            proof {
                assert forall|a: int, b: int|
                    #![trigger files@[a].0@, files@[b].0@]
                    0 <= a < b < files@.len() implies files@[a].0@ != files@[b].0@ by {
                    let pa = if a < i as int { a } else { a + 1 };
                    let pb = if b < i as int { b } else { b + 1 };
                    assert(pre[pa].0@ != pre[pb].0@);
                }
            }
        }
        let ghost mid = files@;
        proof {
            assert forall|j: int| 0 <= j < mid.len() implies mid[j].0@ != name@ by {
                if let Some(i) = found {
                    let pj = if j < i as int { j } else { j + 1 };
                    assert(mid[j] == pre[pj]);
                    if pj < i as int {
                        assert(pre[pj].0@ != pre[i as int].0@);
                    } else if pj > i as int {
                        assert(pre[i as int].0@ != pre[pj].0@);
                    }
                }
            }
        }
        files.push((name.to_owned(), slice_to_vec(contents)));
        proof {
            let n = files@.len() - 1;
            assert forall|a: int, b: int|
                #![trigger files@[a].0@, files@[b].0@]
                0 <= a < b < files@.len() implies files@[a].0@ != files@[b].0@ by {
                if b < n {
                    assert(mid[a].0@ != mid[b].0@);
                } else {
                    assert(files@[b].0@ == name@);
                    assert(files@[a] == mid[a]);
                }
            }
        }
        self.files = files;
        proof {
            let n = self.files@.len() - 1;
            let target = old(self)@.insert(name@, contents@);
            assert forall|k: Seq<char>| #[trigger] self@.contains_key(k)
                implies target.contains_key(k) && self@[k] == target[k] by {
                let i = choose|i: int|
                    0 <= i < self.files@.len() && self.files@[i].0@ == k;
                lemma_entry(self.files@, i);
                if k != name@ {
                    assert(i < n);
                    assert(self.files@[i] == mid[i]);
                    if let Some(x) = found {
                        let pi = if i < x as int { i } else { i + 1 };
                        assert(mid[i] == pre[pi]);
                        lemma_entry(pre, pi);
                    } else {
                        lemma_entry(pre, i);
                    }
                } else {
                    lemma_entry(self.files@, n);
                    if i < n {
                        assert(self.files@[i].0@ != self.files@[n].0@);
                    }
                }
            }
            assert forall|k: Seq<char>| #[trigger] target.contains_key(k)
                implies self@.contains_key(k) by {
                if k == name@ {
                    lemma_entry(self.files@, n);
                } else {
                    let i = choose|i: int| 0 <= i < pre.len() && pre[i].0@ == k;
                    if let Some(x) = found {
                        assert(i != x as int) by {
                            assert(pre[x as int].0@ == name@);
                        }
                        let mi = if i < x as int { i } else { i - 1 };
                        assert(mid[mi] == pre[i]);
                        assert(self.files@[mi] == mid[mi]);
                        lemma_entry(self.files@, mi);
                    } else {
                        assert(self.files@[i] == pre[i]);
                        lemma_entry(self.files@, i);
                    }
                }
            }
            assert(self@ =~= target);
        }
    }

    /// Removes the file named `name`, if present.
    pub fn remove_file(&mut self, name: &str)
        ensures
            final(self)@ == old(self)@.remove(name@),
    {
        proof {
            use_type_invariant(&*self);
        }
        let found = self.find(name);
        let i = match found {
            Some(i) => i,
            None => {
                proof {
                    assert(self@ =~= old(self)@.remove(name@));
                }
                return ;
            },
        };
        let mut files: Vec<(String, Vec<u8>)> = Vec::new();
        core::mem::swap(&mut files, &mut self.files);
        let ghost pre = files@;
        files.remove(i);
        proof {
            assert forall|a: int, b: int|
                #![trigger files@[a].0@, files@[b].0@]
                0 <= a < b < files@.len() implies files@[a].0@ != files@[b].0@ by {
                let pa = if a < i as int { a } else { a + 1 };
                let pb = if b < i as int { b } else { b + 1 };
                assert(pre[pa].0@ != pre[pb].0@);
            }
        }
        self.files = files;
        proof {
            let target = old(self)@.remove(name@);
            assert forall|k: Seq<char>| #[trigger] self@.contains_key(k)
                implies target.contains_key(k) && self@[k] == target[k] by {
                let j = choose|j: int|
                    0 <= j < self.files@.len() && self.files@[j].0@ == k;
                let pj = if j < i as int { j } else { j + 1 };
                assert(self.files@[j] == pre[pj]);
                lemma_entry(pre, pj);
                lemma_entry(self.files@, j);
                if pj < i as int {
                    assert(pre[pj].0@ != pre[i as int].0@);
                } else if pj > i as int {
                    assert(pre[i as int].0@ != pre[pj].0@);
                }
            }
            assert forall|k: Seq<char>| #[trigger] target.contains_key(k)
                implies self@.contains_key(k) by {
                let j = choose|j: int| 0 <= j < pre.len() && pre[j].0@ == k;
                assert(j != i as int) by {
                    assert(pre[i as int].0@ == name@);
                }
                let mj = if j < i as int { j } else { j - 1 };
                assert(self.files@[mj] == pre[j]);
                lemma_entry(self.files@, mj);
            }
            assert(self@ =~= target);
        }
    }

    /// Appends bytes to the file named `name`, creating it if absent.
    pub fn append_file(&mut self, name: &str, bytes: &[u8])
        ensures
            final(self)@ == (if old(self)@.contains_key(name@) {
                old(self)@.insert(name@, old(self)@[name@] + bytes@)
            } else {
                old(self)@.insert(name@, bytes@)
            }),
    {
        let grown = match self.read_file(name) {
            Some(v) => {
                let mut c = slice_to_vec(v.as_slice());
                c.extend_from_slice(bytes);
                proof {
                    assert forall|i: int| 0 <= i < c@.len() implies c@[i] == (old(self)@[name@]
                        + bytes@)[i] by {
                        if i >= old(self)@[name@].len() {
                            assert(vstd::pervasive::cloned::<u8>(
                                bytes@[i - old(self)@[name@].len()],
                                c@[i],
                            ));
                        }
                    }
                    assert(c@ =~= old(self)@[name@] + bytes@);
                }
                c
            },
            None => slice_to_vec(bytes),
        };
        self.put(name, grown.as_slice());
    }

    /// Renames the file `from` over `to`, as the atomic commit step does.
    pub fn rename(&mut self, from: &str, to: &str)
        ensures
            final(self)@ == (if old(self)@.contains_key(from@) {
                old(self)@.remove(from@).insert(to@, old(self)@[from@])
            } else {
                old(self)@
            }),
    {
        let contents = match self.read_file(from) {
            Some(v) => slice_to_vec(v.as_slice()),
            None => {
                return ;
            },
        };
        self.remove_file(from);
        self.put(to, contents.as_slice());
    }

    /// All file names, each once.
    pub fn name_list(&self) -> (r: Vec<String>)
        ensures
            forall|i: int| 0 <= i < r@.len() ==> self@.contains_key(#[trigger] r@[i]@),
            forall|k: Seq<char>|
                self@.contains_key(k) ==> exists|i: int| 0 <= i < r@.len() && #[trigger] r@[i]@ == k,
    {
        proof {
            use_type_invariant(self);
        }
        let mut r: Vec<String> = Vec::new();
        let mut i: usize = 0;
        while i < self.files.len()
            invariant
                0 <= i <= self.files@.len(),
                r@.len() == i,
                forall|j: int| 0 <= j < i ==> #[trigger] r@[j]@ == self.files@[j].0@,
            decreases self.files@.len() - i,
        {
            r.push(self.files[i].0.clone());
            i = i + 1;
        }
        proof {
            assert forall|j: int| 0 <= j < r@.len() implies self@.contains_key(
                #[trigger] r@[j]@,
            ) by {
                lemma_entry(self.files@, j);
            }
            assert forall|k: Seq<char>| self@.contains_key(k) implies exists|j: int|
                0 <= j < r@.len() && #[trigger] r@[j]@ == k by {
                let j = choose|j: int| 0 <= j < self.files@.len() && self.files@[j].0@ == k;
                assert(r@[j]@ == k);
            }
        }
        r
    }

    /// Replays one action on this directory; what the disk shell does to the
    /// real directory, a test does to its mirror through this method.
    pub fn apply_one(&mut self, a: &FsAction)
        ensures
            final(self)@ == apply_action(old(self)@, *a),
    {
        match a {
            FsAction::CreateDir => {},
            FsAction::WriteFile { name, contents } => {
                self.put(name.as_str(), contents.as_slice());
            },
            FsAction::AppendFile { name, bytes } => {
                self.append_file(name.as_str(), bytes.as_slice());
            },
            FsAction::Rename { from, to } => {
                self.rename(from.as_str(), to.as_str());
            },
            FsAction::RemoveFile { name } => {
                self.remove_file(name.as_str());
            },
            FsAction::RemoveDir => {
                self.files = Vec::new();
                proof {
                    assert(self@ =~= Map::<Seq<char>, Seq<u8>>::empty());
                }
            },
        }
    }
}


impl Clone for Dir {
    /// Clones the directory model; the copy holds the same files.
    fn clone(&self) -> (r: Self)
        ensures
            r@ == self@,
    {
        proof {
            use_type_invariant(self);
        }
        let mut files: Vec<(String, Vec<u8>)> = Vec::new();
        let mut i: usize = 0;
        while i < self.files.len()
            invariant
                0 <= i <= self.files@.len(),
                files@.len() == i,
                forall|j: int|
                    0 <= j < i ==> #[trigger] files@[j].0@ == self.files@[j].0@ && files@[j].1@
                        == self.files@[j].1@,
            decreases self.files@.len() - i,
        {
            let name = self.files[i].0.clone();
            let contents = slice_to_vec(self.files[i].1.as_slice());
            files.push((name, contents));
            i = i + 1;
        }
        proof {
            assert(entries_wf(files@));
        }
        let r = Dir { files };
        proof {
            assert forall|k: Seq<char>| #[trigger] r@.contains_key(k) == self@.contains_key(k)
                && (r@.contains_key(k) ==> r@[k] == self@[k]) by {
                if r@.contains_key(k) {
                    let j = choose|j: int| 0 <= j < r.files@.len() && r.files@[j].0@ == k;
                    lemma_entry(r.files@, j);
                    lemma_entry(self.files@, j);
                }
                if self@.contains_key(k) {
                    let j = choose|j: int|
                        0 <= j < self.files@.len() && self.files@[j].0@ == k;
                    lemma_entry(self.files@, j);
                    lemma_entry(r.files@, j);
                }
            }
            assert(r@ =~= self@);
        }
        r
    }
}

} // verus!
