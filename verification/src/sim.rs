//! An in-memory filesystem the protocol is proved against. Each operation's
//! contract states its effect on the model of [`crate::model`]: files as a
//! map from paths to contents, directories as a set of paths. The exclusive
//! create refuses a path whose parent directory does not exist, so a driver
//! that skipped the directory step could not be verified.

use vstd::prelude::*;

use crate::model::boundary;
use crate::model::dir_chain;
use crate::paths::parent_spec;
use crate::paths::prefix_vec;
use crate::paths::SLASH;

verus! {

/// No two entries of `s` carry the same path.
pub open spec fn unique_keys(s: Seq<(Vec<u8>, Vec<u8>)>) -> bool {
    forall|i: int, j: int| 0 <= i < j < s.len() ==> s[i].0@ != s[j].0@
}

/// Some entry of `s` carries the path `k`.
pub open spec fn has_entry(s: Seq<(Vec<u8>, Vec<u8>)>, k: Seq<u8>) -> bool {
    exists|i: int| 0 <= i < s.len() && s[i].0@ == k
}

/// The contents that `s` holds under the path `k`.
pub open spec fn entry_value(s: Seq<(Vec<u8>, Vec<u8>)>, k: Seq<u8>) -> Seq<u8> {
    s[choose|i: int| 0 <= i < s.len() && s[i].0@ == k].1@
}

/// With unique keys, any entry holding `k` determines `entry_value`.
proof fn lemma_entry_value_at(s: Seq<(Vec<u8>, Vec<u8>)>, k: Seq<u8>, i: int)
    requires
        unique_keys(s),
        0 <= i < s.len(),
        s[i].0@ == k,
    ensures
        entry_value(s, k) == s[i].1@,
{
    let j = choose|j: int| 0 <= j < s.len() && s[j].0@ == k;
    assert(0 <= j < s.len() && s[j].0@ == k);
    if i != j {
        assert(false);
    }
}

/// Byte-for-byte comparison of two slices.
fn bytes_eq(a: &[u8], b: &[u8]) -> (r: bool)
    ensures
        r == (a@ == b@),
{
    if a.len() != b.len() {
        return false;
    }
    let mut i: usize = 0;
    while i < a.len()
        invariant
            a@.len() == b@.len(),
            i <= a@.len(),
            forall|j: int| 0 <= j < i ==> a@[j] == b@[j],
        decreases a@.len() - i,
    {
        if a[i] != b[i] {
            return false;
        }
        i = i + 1;
    }
    proof {
        assert(a@ =~= b@);
    }
    true
}

/// A filesystem held in memory: regular files with their contents, and the
/// set of directories that exist.
pub struct SimFs {
    files: Vec<(Vec<u8>, Vec<u8>)>,
    dirs: Vec<Vec<u8>>,
}

impl SimFs {
    /// Well-formedness: no path is stored twice.
    pub closed spec fn inv(self) -> bool {
        unique_keys(self.files@)
    }

    /// The files of the model: path to contents.
    pub closed spec fn files_view(self) -> Map<Seq<u8>, Seq<u8>> {
        Map::new(|k: Seq<u8>| has_entry(self.files@, k), |k: Seq<u8>| entry_value(self.files@, k))
    }

    /// The directories of the model.
    pub closed spec fn dirs_view(self) -> Set<Seq<u8>> {
        Set::new(|d: Seq<u8>| exists|i: int| 0 <= i < self.dirs@.len() && self.dirs@[i]@ == d)
    }

    /// An empty filesystem: no files, no directories.
    pub fn new() -> (fs: SimFs)
        ensures
            fs.inv(),
            fs.files_view() == Map::<Seq<u8>, Seq<u8>>::empty(),
            fs.dirs_view() == Set::<Seq<u8>>::empty(),
    {
        let fs = SimFs { files: Vec::new(), dirs: Vec::new() };
        proof {
            assert(fs.files_view() =~= Map::<Seq<u8>, Seq<u8>>::empty());
            assert(fs.dirs_view() =~= Set::<Seq<u8>>::empty());
        }
        fs
    }

    /// The entry index holding path `p`, if any.
    fn find_entry(&self, p: &[u8]) -> (r: Option<usize>)
        ensures
            match r {
                Some(i) => i < self.files@.len() && self.files@[i as int].0@ == p@,
                None => !has_entry(self.files@, p@),
            },
    {
        let mut i: usize = 0;
        while i < self.files.len()
            invariant
                i <= self.files@.len(),
                forall|j: int| 0 <= j < i ==> self.files@[j].0@ != p@,
            decreases self.files@.len() - i,
        {
            if bytes_eq(self.files[i].0.as_slice(), p) {
                return Some(i);
            }
            i = i + 1;
        }
        None
    }

    /// Whether a file exists at `p`.
    pub fn file_exists(&self, p: &[u8]) -> (r: bool)
        ensures
            r == self.files_view().contains_key(p@),
    {
        match self.find_entry(p) {
            Some(_) => true,
            None => false,
        }
    }

    /// Whether the directory `d` exists.
    pub fn dir_exists(&self, d: &[u8]) -> (r: bool)
        ensures
            r == self.dirs_view().contains(d@),
    {
        let mut i: usize = 0;
        while i < self.dirs.len()
            invariant
                i <= self.dirs@.len(),
                forall|j: int| 0 <= j < i ==> self.dirs@[j]@ != d@,
            decreases self.dirs@.len() - i,
        {
            if bytes_eq(self.dirs[i].as_slice(), d) {
                return true;
            }
            i = i + 1;
        }
        false
    }

    /// The contents of the file at `p`, or nothing when no file is there.
    pub fn read_file(&self, p: &[u8]) -> (r: Option<Vec<u8>>)
        requires
            self.inv(),
        ensures
            match r {
                Some(v) => self.files_view().contains_key(p@) && v@ == self.files_view()[p@],
                None => !self.files_view().contains_key(p@),
            },
    {
        match self.find_entry(p) {
            Some(i) => {
                let v = crate::paths::copy_bytes(self.files[i].1.as_slice());
                proof {
                    lemma_entry_value_at(self.files@, p@, i as int);
                }
                Some(v)
            },
            None => None,
        }
    }

    /// Stores a new entry; the path must be absent.
    fn put(&mut self, p: &[u8], data: &[u8])
        requires
            old(self).inv(),
            !old(self).files_view().contains_key(p@),
        ensures
            final(self).inv(),
            final(self).files_view() == old(self).files_view().insert(p@, data@),
            final(self).dirs_view() == old(self).dirs_view(),
    {
        let key = crate::paths::copy_bytes(p);
        let value = crate::paths::copy_bytes(data);
        self.files.push((key, value));
        proof {
            let s0 = old(self).files@;
            let s1 = self.files@;
            assert(s1.len() == s0.len() + 1);
            assert(forall|i: int| 0 <= i < s0.len() ==> s1[i] == s0[i]);
            assert(s1[s0.len() as int].0@ == p@ && s1[s0.len() as int].1@ == data@);
            assert(unique_keys(s1));
            assert forall|k: Seq<u8>| has_entry(s1, k) implies has_entry(s0, k) || k == p@ by {
                let i = choose|i: int| 0 <= i < s1.len() && s1[i].0@ == k;
                if i < s0.len() {
                    assert(s0[i].0@ == k);
                }
            }
            assert forall|k: Seq<u8>| has_entry(s0, k) implies has_entry(s1, k) by {
                let i = choose|i: int| 0 <= i < s0.len() && s0[i].0@ == k;
                assert(s1[i].0@ == k);
            }
            assert forall|k: Seq<u8>| has_entry(s0, k) && k != p@ implies entry_value(s1, k)
                == entry_value(s0, k) by {
                let i = choose|i: int| 0 <= i < s0.len() && s0[i].0@ == k;
                lemma_entry_value_at(s1, k, i);
                lemma_entry_value_at(s0, k, i);
            }
            lemma_entry_value_at(s1, p@, s0.len() as int);
            assert(self.files_view() =~= old(self).files_view().insert(p@, data@));
        }
    }

    /// Removes the file at `p` if one is there; removing an absent file
    /// changes nothing.
    pub fn remove_file(&mut self, p: &[u8])
        requires
            old(self).inv(),
        ensures
            final(self).inv(),
            final(self).files_view() == old(self).files_view().remove(p@),
            final(self).dirs_view() == old(self).dirs_view(),
    {
        match self.find_entry(p) {
            Some(i) => {
                self.files.swap_remove(i);
                proof {
                    let s0 = old(self).files@;
                    let s1 = self.files@;
                    assert(s1 =~= s0.update(i as int, s0.last()).drop_last());
                    assert(s1.len() == s0.len() - 1);
                    assert(forall|m: int| 0 <= m < s1.len() && m != i ==> s1[m] == s0[m]);
                    assert((i as int) < s1.len() ==> s1[i as int] == s0[s0.len() - 1]);
                    assert(unique_keys(s1));
                    assert forall|k: Seq<u8>| has_entry(s1, k) implies has_entry(s0, k) && k
                        != p@ by {
                        let m = choose|m: int| 0 <= m < s1.len() && s1[m].0@ == k;
                        if m == i {
                            assert(s0[s0.len() - 1].0@ == k);
                        } else {
                            assert(s0[m].0@ == k);
                        }
                    }
                    assert forall|k: Seq<u8>| has_entry(s0, k) && k != p@ implies has_entry(
                        s1,
                        k,
                    ) by {
                        let m = choose|m: int| 0 <= m < s0.len() && s0[m].0@ == k;
                        if m == s0.len() - 1 {
                            assert(i < s0.len() - 1);
                            assert(s1[i as int].0@ == k);
                        } else {
                            assert(s1[m].0@ == k);
                        }
                    }
                    assert forall|k: Seq<u8>| has_entry(s1, k) implies entry_value(s1, k)
                        == entry_value(s0, k) by {
                        let m = choose|m: int| 0 <= m < s1.len() && s1[m].0@ == k;
                        lemma_entry_value_at(s1, k, m);
                        if m == i {
                            lemma_entry_value_at(s0, k, s0.len() - 1);
                        } else {
                            lemma_entry_value_at(s0, k, m);
                        }
                    }
                    assert(self.files_view() =~= old(self).files_view().remove(p@));
                }
            },
            None => {
                proof {
                    assert(self.files_view() =~= old(self).files_view().remove(p@));
                }
            },
        }
    }

    /// Creates the file at `p` exclusively, empty: the caller must have made
    /// sure no file is there, and the parent directory must exist.
    pub fn create_exclusive(&mut self, p: &[u8])
        requires
            old(self).inv(),
            !old(self).files_view().contains_key(p@),
            old(self).dirs_view().contains(parent_spec(p@)),
        ensures
            final(self).inv(),
            final(self).files_view() == old(self).files_view().insert(p@, Seq::<u8>::empty()),
            final(self).dirs_view() == old(self).dirs_view(),
    {
        let empty: Vec<u8> = Vec::new();
        self.put(p, empty.as_slice());
    }

    /// Replaces the contents of the existing file at `p` with `data`.
    pub fn write_all(&mut self, p: &[u8], data: &[u8])
        requires
            old(self).inv(),
            old(self).files_view().contains_key(p@),
        ensures
            final(self).inv(),
            final(self).files_view() == old(self).files_view().insert(p@, data@),
            final(self).dirs_view() == old(self).dirs_view(),
    {
        self.remove_file(p);
        self.put(p, data);
        proof {
            assert(self.files_view() =~= old(self).files_view().insert(p@, data@));
        }
    }

    /// Moves the file at `from` to `to` in one step, replacing whatever was
    /// at `to`. Before this returns, `to` holds its old contents; after, it
    /// holds exactly what `from` held: there is no in-between.
    pub fn rename(&mut self, from: &[u8], to: &[u8])
        requires
            old(self).inv(),
            old(self).files_view().contains_key(from@),
        ensures
            final(self).inv(),
            final(self).files_view() == old(self).files_view().remove(from@).insert(
                to@,
                old(self).files_view()[from@],
            ),
            final(self).dirs_view() == old(self).dirs_view(),
    {
        let moved: Option<Vec<u8>> = self.read_file(from);
        match moved {
            Some(v) => {
                self.remove_file(from);
                self.remove_file(to);
                self.put(to, v.as_slice());
                proof {
                    assert(self.files_view() =~= old(self).files_view().remove(from@).insert(
                        to@,
                        old(self).files_view()[from@],
                    ));
                }
            },
            None => {
                proof {
                    assert(false);
                }
            },
        }
    }

    /// Creates the directory `d` and every missing directory on the chain
    /// leading to it; directories that already exist are left as they are.
    pub fn ensure_dir(&mut self, d: &[u8])
        requires
            old(self).inv(),
        ensures
            final(self).inv(),
            final(self).files_view() == old(self).files_view(),
            final(self).dirs_view() == old(self).dirs_view().union(dir_chain(d@)),
    {
        let ghost base = old(self).dirs_view();
        let n: usize = d.len();
        proof {
            assert(self.dirs_view() =~= base.union(chain_upto(d@, 0)));
        }
        let mut i: usize = 1;
        while i < n
            invariant
                1 <= i,
                n == d@.len(),
                i <= n || (i == 1 && n == 0),
                self.inv(),
                self.files@ == old(self).files@,
                self.dirs_view() == base.union(chain_upto(d@, i - 1)),
            decreases n - i,
        {
            if d[i] == SLASH {
                self.add_dir_prefix(d, i);
                proof {
                    lemma_chain_upto_step(d@, i as int);
                    assert(self.dirs_view() =~= base.union(chain_upto(d@, i as int)));
                }
            } else {
                proof {
                    lemma_chain_upto_step(d@, i as int);
                }
            }
            i = i + 1;
        }
        if n > 0 {
            self.add_dir_prefix(d, n);
            proof {
                lemma_chain_upto_step(d@, n as int);
                assert(self.dirs_view() =~= base.union(chain_upto(d@, n as int)));
            }
        }
        proof {
            assert(chain_upto(d@, d@.len() as int) =~= dir_chain(d@));
            assert(self.dirs_view() =~= old(self).dirs_view().union(dir_chain(d@)));
            assert(self.files_view() =~= old(self).files_view());
        }
    }

    /// Records the directory named by the first `i` bytes of `d`, unless it
    /// already exists.
    fn add_dir_prefix(&mut self, d: &[u8], i: usize)
        requires
            old(self).inv(),
            1 <= i <= d@.len(),
        ensures
            final(self).inv(),
            final(self).files@ == old(self).files@,
            final(self).dirs_view() == old(self).dirs_view().insert(d@.take(i as int)),
    {
        let prefix = prefix_vec(d, i);
        if !self.dir_exists(prefix.as_slice()) {
            let ghost before_seq = self.dirs@;
            let ghost before = self.dirs_view();
            self.dirs.push(prefix);
            proof {
                assert(self.dirs@ == before_seq.push(prefix));
                assert forall|q: Seq<u8>| self.dirs_view().contains(q) implies before.contains(q)
                    || q == d@.take(i as int) by {
                    let m = choose|m: int| 0 <= m < self.dirs@.len() && self.dirs@[m]@ == q;
                    if m < before_seq.len() {
                        assert(before_seq[m]@ == q);
                    }
                }
                assert forall|q: Seq<u8>| before.contains(q) implies self.dirs_view().contains(
                    q,
                ) by {
                    let m = choose|m: int| 0 <= m < before_seq.len() && before_seq[m]@ == q;
                    assert(self.dirs@[m]@ == q);
                }
                assert(self.dirs@[before_seq.len() as int]@ == d@.take(i as int));
                assert(self.dirs_view() =~= before.insert(d@.take(i as int)));
            }
        } else {
            proof {
                assert(self.dirs_view() =~= old(self).dirs_view().insert(d@.take(i as int)));
            }
        }
    }
}

/// The part of the directory chain of `p` whose prefixes end at `n` or
/// earlier.
pub open spec fn chain_upto(p: Seq<u8>, n: int) -> Set<Seq<u8>> {
    Set::new(
        |q: Seq<u8>| exists|i: int| 0 < i <= n && i <= p.len() && #[trigger] boundary(p, i) && q
            == p.take(i),
    )
}

/// Growing the bound by one adds the prefix ending there when that is a
/// component boundary, and nothing otherwise.
proof fn lemma_chain_upto_step(p: Seq<u8>, n: int)
    requires
        0 < n <= p.len(),
    ensures
        boundary(p, n) ==> chain_upto(p, n) == chain_upto(p, n - 1).insert(p.take(n)),
        !boundary(p, n) ==> chain_upto(p, n) == chain_upto(p, n - 1),
{
    if boundary(p, n) {
        assert(chain_upto(p, n) =~= chain_upto(p, n - 1).insert(p.take(n)));
    } else {
        assert(chain_upto(p, n) =~= chain_upto(p, n - 1));
    }
}

} // verus!
