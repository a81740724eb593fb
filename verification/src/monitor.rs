//! The watch kept on completed downloads, to tell when a downloaded file
//! goes missing: which tasks are watched, under which directories, and what
//! the file system watcher must be told as tasks come and go.
use crate::models::{DownloadStatus, EngineKind};
use crate::text::{chars_of, seq_eq, string_of};
use vstd::prelude::*;

verus! {

/// Whether a task's downloaded file is watched: a completed download of a
/// local engine.
pub fn monitors(engine: EngineKind, status: DownloadStatus) -> (r: bool)
    ensures
        r == ((engine == EngineKind::Aria2 || engine == EngineKind::YtDlp) && status == DownloadStatus::Completed),
{
    (engine == EngineKind::Aria2 || engine == EngineKind::YtDlp) && status == DownloadStatus::Completed
}

struct WatchedTask {
    id: String,
    directory: String,
    path: String,
    missing: bool,
}

/// The watched tasks by id: each with the directory watched for it, its
/// file, and whether that file was missing when last looked at.
pub struct WatchedTasks {
    tasks: Vec<WatchedTask>,
}

/// What is known of a watched task: its directory, its file, and whether
/// the file is missing.
pub type Watch = (Seq<char>, Seq<char>, bool);

impl View for WatchedTasks {
    type V = Map<Seq<char>, (Seq<char>, Seq<char>, bool)>;

    closed spec fn view(&self) -> Map<Seq<char>, (Seq<char>, Seq<char>, bool)> {
        Map::new(
            |k: Seq<char>| exists|i: int| 0 <= i < self.tasks@.len() && self.tasks@[i].id@ == k,
            |k: Seq<char>| {
                let t = self.tasks@[choose|i: int| 0 <= i < self.tasks@.len() && self.tasks@[i].id@ == k];
                (t.directory@, t.path@, t.missing)
            },
        )
    }
}

fn copy(s: &String) -> (r: String)
    ensures
        r@ == s@,
{
    string_of(&chars_of(s.as_str()))
}

impl WatchedTasks {
    /// No id is watched twice.
    pub closed spec fn wf(&self) -> bool {
        forall|i: int, j: int| 0 <= i < j < self.tasks@.len() ==> self.tasks@[i].id@ != self.tasks@[j].id@
    }

    proof fn lemma_lookup(&self, i: int)
        requires
            self.wf(),
            0 <= i < self.tasks@.len(),
        ensures
            self@.contains_key(self.tasks@[i].id@),
            self@[self.tasks@[i].id@] == (self.tasks@[i].directory@, self.tasks@[i].path@, self.tasks@[i].missing),
    {
        let k = self.tasks@[i].id@;
        let c = choose|c: int| 0 <= c < self.tasks@.len() && self.tasks@[c].id@ == k;
        assert(0 <= c < self.tasks@.len() && self.tasks@[c].id@ == k);
        if c != i {
            if c < i {
                assert(self.tasks@[c].id@ != self.tasks@[i].id@);
            } else {
                assert(self.tasks@[i].id@ != self.tasks@[c].id@);
            }
        }
    }

    pub fn new() -> (r: Self)
        ensures
            r.wf(),
            r@ == Map::<Seq<char>, Watch>::empty(),
    {
        let r = WatchedTasks { tasks: Vec::new() };
        proof {
            assert(r@ =~= Map::<Seq<char>, Watch>::empty());
        }
        r
    }

    fn position(&self, id: &str) -> (r: Option<usize>)
        requires
            self.wf(),
        ensures
            match r {
                Some(i) => i < self.tasks@.len() && self.tasks@[i as int].id@ == id@,
                None => !self@.contains_key(id@),
            },
    {
        let k = chars_of(id);
        let mut i: usize = 0;
        while i < self.tasks.len()
            invariant
                i <= self.tasks@.len(),
                k@ == id@,
                forall|j: int| 0 <= j < i ==> self.tasks@[j].id@ != id@,
            decreases self.tasks.len() - i,
        {
            if seq_eq(&chars_of(self.tasks[i].id.as_str()), &k) {
                return Some(i);
            }
            i = i + 1;
        }
        None
    }

    /// Whether the task is watched with this directory and file already.
    pub fn watches_as(&self, id: &str, directory: &str, path: &str) -> (r: bool)
        requires
            self.wf(),
        ensures
            r == (self@.contains_key(id@) && self@[id@].0 == directory@ && self@[id@].1 == path@),
    {
        match self.position(id) {
            Some(i) => {
                proof {
                    self.lemma_lookup(i as int);
                }
                seq_eq(&chars_of(self.tasks[i].directory.as_str()), &chars_of(directory)) && seq_eq(
                    &chars_of(self.tasks[i].path.as_str()),
                    &chars_of(path),
                )
            },
            None => false,
        }
    }

    /// Whether some watched task lies in this directory, so that the
    /// directory is watched.
    pub fn watches_directory(&self, directory: &str) -> (r: bool)
        requires
            self.wf(),
        ensures
            r == exists|k: Seq<char>| #[trigger] self@.contains_key(k) && self@[k].0 == directory@,
    {
        let d = chars_of(directory);
        let mut i: usize = 0;
        while i < self.tasks.len()
            invariant
                i <= self.tasks@.len(),
                self.wf(),
                d@ == directory@,
                forall|j: int| 0 <= j < i ==> self.tasks@[j].directory@ != directory@,
            decreases self.tasks.len() - i,
        {
            if seq_eq(&chars_of(self.tasks[i].directory.as_str()), &d) {
                proof {
                    self.lemma_lookup(i as int);
                }
                return true;
            }
            i = i + 1;
        }
        proof {
            assert forall|k: Seq<char>| #[trigger] self@.contains_key(k) implies self@[k].0 != directory@ by {
                let c = choose|c: int| 0 <= c < self.tasks@.len() && self.tasks@[c].id@ == k;
                self.lemma_lookup(c);
            }
        }
        false
    }

    /// Whether the watched file of a task was missing; false for a task
    /// that is not watched.
    pub fn missing(&self, id: &str) -> (r: bool)
        requires
            self.wf(),
        ensures
            r == (self@.contains_key(id@) && self@[id@].2),
    {
        match self.position(id) {
            Some(i) => {
                proof {
                    self.lemma_lookup(i as int);
                }
                self.tasks[i].missing
            },
            None => false,
        }
    }

    /// Starts watching a task that is not watched yet.
    pub fn insert(&mut self, id: &str, directory: &str, path: &str, missing: bool)
        requires
            old(self).wf(),
            !old(self)@.contains_key(id@),
        ensures
            final(self).wf(),
            final(self)@ == old(self)@.insert(id@, (directory@, path@, missing)),
    {
        let ghost before = self.tasks@;
        self.tasks.push(
            WatchedTask {
                id: string_of(&chars_of(id)),
                directory: string_of(&chars_of(directory)),
                path: string_of(&chars_of(path)),
                missing,
            },
        );
        proof {
            assert forall|i: int, j: int| 0 <= i < j < self.tasks@.len() implies self.tasks@[i].id@
                != self.tasks@[j].id@ by {
                if j == self.tasks@.len() - 1 {
                    assert(old(self)@.contains_key(before[i].id@)) by {
                        assert(0 <= i < before.len() && before[i].id@ == before[i].id@);
                    }
                }
            }
            assert forall|k: Seq<char>| #[trigger] self@.contains_key(k) == old(self)@.insert(
                id@,
                (directory@, path@, missing),
            ).contains_key(k) by {
                if k == id@ {
                    assert(self.tasks@[self.tasks@.len() - 1].id@ == k);
                }
                if old(self)@.contains_key(k) {
                    let c = choose|c: int| 0 <= c < before.len() && before[c].id@ == k;
                    assert(self.tasks@[c].id@ == k);
                }
                if self@.contains_key(k) && k != id@ {
                    let c = choose|c: int| 0 <= c < self.tasks@.len() && self.tasks@[c].id@ == k;
                    assert(c < before.len());
                    assert(before[c].id@ == k);
                }
            }
            assert forall|k: Seq<char>| #[trigger] self@.contains_key(k) implies self@[k] == old(self)@.insert(
                id@,
                (directory@, path@, missing),
            )[k] by {
                let c = choose|c: int| 0 <= c < self.tasks@.len() && self.tasks@[c].id@ == k;
                self.lemma_lookup(c);
                if c < before.len() {
                    old(self).lemma_lookup(c);
                }
            }
            assert(self@ =~= old(self)@.insert(id@, (directory@, path@, missing)));
        }
    }

    /// Stops watching a task. Returns the directory to stop watching where
    /// no other watched task lies in it.
    pub fn remove(&mut self, id: &str) -> (r: Option<String>)
        requires
            old(self).wf(),
        ensures
            final(self).wf(),
            final(self)@ == old(self)@.remove(id@),
            match r {
                Some(d) => old(self)@.contains_key(id@) && d@ == old(self)@[id@].0 && !exists|k: Seq<char>|
                    #[trigger] final(self)@.contains_key(k) && final(self)@[k].0 == d@,
                None => !old(self)@.contains_key(id@) || exists|k: Seq<char>|
                    #[trigger] final(self)@.contains_key(k) && final(self)@[k].0 == old(self)@[id@].0,
            },
    {
        let at = match self.position(id) {
            Some(i) => i,
            None => {
                proof {
                    assert(self@.remove(id@) =~= self@);
                }
                return None;
            },
        };
        proof {
            self.lemma_lookup(at as int);
        }
        let ghost before = self.tasks@;
        let removed = self.tasks.remove(at);
        proof {
            assert(self.tasks@ =~= before.remove(at as int));
            assert forall|i: int, j: int| 0 <= i < j < self.tasks@.len() implies self.tasks@[i].id@
                != self.tasks@[j].id@ by {
                let bi = if i < at { i } else { i + 1 };
                let bj = if j < at { j } else { j + 1 };
                assert(self.tasks@[i] == before[bi] && self.tasks@[j] == before[bj]);
            }
            assert forall|k: Seq<char>| #[trigger] self@.contains_key(k) == old(self)@.remove(id@).contains_key(k) by {
                if self@.contains_key(k) {
                    let c = choose|c: int| 0 <= c < self.tasks@.len() && self.tasks@[c].id@ == k;
                    let bc = if c < at { c } else { c + 1 };
                    assert(before[bc].id@ == k);
                    assert(bc != at);
                }
                if old(self)@.contains_key(k) && k != id@ {
                    let c = choose|c: int| 0 <= c < before.len() && before[c].id@ == k;
                    assert(c != at);
                    let nc = if c < at { c } else { c - 1 };
                    assert(self.tasks@[nc].id@ == k);
                }
            }
            assert forall|k: Seq<char>| #[trigger] self@.contains_key(k) implies self@[k] == old(self)@.remove(id@)[k] by {
                let c = choose|c: int| 0 <= c < self.tasks@.len() && self.tasks@[c].id@ == k;
                self.lemma_lookup(c);
                let bc = if c < at { c } else { c + 1 };
                old(self).lemma_lookup(bc);
            }
            assert(self@ =~= old(self)@.remove(id@));
        }
        if self.watches_directory(removed.directory.as_str()) {
            None
        } else {
            Some(removed.directory)
        }
    }

    /// Records whether a watched task's file is missing now.
    pub fn set_missing(&mut self, id: &str, missing: bool)
        requires
            old(self).wf(),
        ensures
            final(self).wf(),
            old(self)@.contains_key(id@) ==> final(self)@ == old(self)@.insert(
                id@,
                (old(self)@[id@].0, old(self)@[id@].1, missing),
            ),
            !old(self)@.contains_key(id@) ==> final(self)@ == old(self)@,
    {
        match self.position(id) {
            Some(i) => {
                proof {
                    self.lemma_lookup(i as int);
                }
                let ghost before = self.tasks@;
                let directory = copy(&self.tasks[i].directory);
                let path = copy(&self.tasks[i].path);
                let task_id = copy(&self.tasks[i].id);
                self.tasks.set(i, WatchedTask { id: task_id, directory, path, missing });
                proof {
                    assert forall|a: int, b: int| 0 <= a < b < self.tasks@.len() implies self.tasks@[a].id@
                        != self.tasks@[b].id@ by {
                        assert(self.tasks@[a].id@ == before[a].id@ && self.tasks@[b].id@ == before[b].id@);
                    }
                    let target = old(self)@.insert(id@, (old(self)@[id@].0, old(self)@[id@].1, missing));
                    assert forall|k: Seq<char>| #[trigger] self@.contains_key(k) == target.contains_key(k) by {
                        if self@.contains_key(k) {
                            let c = choose|c: int| 0 <= c < self.tasks@.len() && self.tasks@[c].id@ == k;
                            assert(before[c].id@ == k);
                        }
                        if old(self)@.contains_key(k) {
                            let c = choose|c: int| 0 <= c < before.len() && before[c].id@ == k;
                            assert(self.tasks@[c].id@ == k);
                        }
                    }
                    assert forall|k: Seq<char>| #[trigger] self@.contains_key(k) implies self@[k] == target[k] by {
                        let c = choose|c: int| 0 <= c < self.tasks@.len() && self.tasks@[c].id@ == k;
                        self.lemma_lookup(c);
                        old(self).lemma_lookup(c);
                    }
                    assert(self@ =~= target);
                }
            },
            None => {},
        }
    }

    /// The watched tasks in a directory, with their files: those to look
    /// at again when the directory changes.
    pub fn tasks_in_directory(&self, directory: &str) -> (r: Vec<(String, String)>)
        requires
            self.wf(),
        ensures
            forall|i: int|
                0 <= i < r@.len() ==> self@.contains_key(#[trigger] r@[i].0@) && self@[r@[i].0@].0 == directory@
                    && self@[r@[i].0@].1 == r@[i].1@,
            forall|k: Seq<char>|
                #[trigger] self@.contains_key(k) && self@[k].0 == directory@ ==> exists|i: int|
                    0 <= i < r@.len() && r@[i].0@ == k,
    {
        let d = chars_of(directory);
        let mut r: Vec<(String, String)> = Vec::new();
        let mut i: usize = 0;
        while i < self.tasks.len()
            invariant
                i <= self.tasks@.len(),
                self.wf(),
                d@ == directory@,
                forall|m: int|
                    0 <= m < r@.len() ==> self@.contains_key(#[trigger] r@[m].0@) && self@[r@[m].0@].0
                        == directory@ && self@[r@[m].0@].1 == r@[m].1@,
                forall|j: int|
                    0 <= j < i && self.tasks@[j].directory@ == directory@ ==> exists|m: int|
                        0 <= m < r@.len() && r@[m].0@ == #[trigger] self.tasks@[j].id@,
            decreases self.tasks.len() - i,
        {
            if seq_eq(&chars_of(self.tasks[i].directory.as_str()), &d) {
                proof {
                    self.lemma_lookup(i as int);
                }
                let ghost before = r@;
                r.push((copy(&self.tasks[i].id), copy(&self.tasks[i].path)));
                proof {
                    assert forall|j: int|
                        0 <= j < i + 1 && self.tasks@[j].directory@ == directory@ implies exists|m: int|
                            0 <= m < r@.len() && r@[m].0@ == #[trigger] self.tasks@[j].id@ by {
                        if j == i {
                            assert(r@[r@.len() - 1].0@ == self.tasks@[j].id@);
                        } else {
                            let m = choose|m: int| 0 <= m < before.len() && before[m].0@ == self.tasks@[j].id@;
                            assert(r@[m] == before[m]);
                        }
                    }
                }
            }
            i = i + 1;
        }
        proof {
            assert forall|k: Seq<char>|
                #[trigger] self@.contains_key(k) && self@[k].0 == directory@ implies exists|m: int|
                    0 <= m < r@.len() && r@[m].0@ == k by {
                let c = choose|c: int| 0 <= c < self.tasks@.len() && self.tasks@[c].id@ == k;
                self.lemma_lookup(c);
                assert(self.tasks@[c].directory@ == directory@);
            }
        }
        r
    }

    /// The watched tasks that are not among the given ids.
    pub fn stale_ids(&self, active: &[String]) -> (r: Vec<String>)
        requires
            self.wf(),
        ensures
            forall|i: int|
                0 <= i < r@.len() ==> self@.contains_key(#[trigger] r@[i]@) && !exists|j: int|
                    0 <= j < active@.len() && active@[j]@ == r@[i]@,
            forall|k: Seq<char>|
                #[trigger] self@.contains_key(k) && !(exists|j: int| 0 <= j < active@.len() && active@[j]@ == k)
                    ==> exists|i: int| 0 <= i < r@.len() && r@[i]@ == k,
    {
        let mut r: Vec<String> = Vec::new();
        let mut i: usize = 0;
        while i < self.tasks.len()
            invariant
                i <= self.tasks@.len(),
                self.wf(),
                forall|m: int|
                    0 <= m < r@.len() ==> self@.contains_key(#[trigger] r@[m]@) && !exists|j: int|
                        0 <= j < active@.len() && active@[j]@ == r@[m]@,
                forall|c: int|
                    0 <= c < i && !(exists|j: int| 0 <= j < active@.len() && active@[j]@ == self.tasks@[c].id@)
                        ==> exists|m: int| 0 <= m < r@.len() && r@[m]@ == #[trigger] self.tasks@[c].id@,
            decreases self.tasks.len() - i,
        {
            let id = chars_of(self.tasks[i].id.as_str());
            let mut found = false;
            let mut j: usize = 0;
            while j < active.len()
                invariant
                    j <= active@.len(),
                    id@ == self.tasks@[i as int].id@,
                    found == exists|a: int| 0 <= a < j && active@[a]@ == id@,
                decreases active.len() - j,
            {
                if seq_eq(&chars_of(active[j].as_str()), &id) {
                    found = true;
                }
                j = j + 1;
            }
            if !found {
                proof {
                    self.lemma_lookup(i as int);
                }
                let ghost before = r@;
                r.push(string_of(&id));
                proof {
                    assert forall|c: int|
                        0 <= c < i + 1 && !(exists|j: int| 0 <= j < active@.len() && active@[j]@ == self.tasks@[c].id@)
                            implies exists|m: int| 0 <= m < r@.len() && r@[m]@ == #[trigger] self.tasks@[c].id@ by {
                        if c == i {
                            assert(r@[r@.len() - 1]@ == self.tasks@[c].id@);
                        } else {
                            let m = choose|m: int| 0 <= m < before.len() && before[m]@ == self.tasks@[c].id@;
                            assert(r@[m] == before[m]);
                        }
                    }
                }
            }
            i = i + 1;
        }
        proof {
            assert forall|k: Seq<char>|
                #[trigger] self@.contains_key(k) && !(exists|j: int| 0 <= j < active@.len() && active@[j]@ == k)
                    implies exists|m: int| 0 <= m < r@.len() && r@[m]@ == k by {
                let c = choose|c: int| 0 <= c < self.tasks@.len() && self.tasks@[c].id@ == k;
                assert(self.tasks@[c].id@ == k);
            }
        }
        r
    }
}

} // verus!
