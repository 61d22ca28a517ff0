//! Generational backups of a watched configuration file.
//!
//! For a watched path `P` the manager keeps companions `P.backup.1` (newest)
//! through `P.backup.5` (oldest), plus a legacy `P.backup`.  The manager
//! works on an in-memory image of that file family — the watched file's
//! content and the five generation slots; the application mirrors the image
//! to disk.
use vstd::prelude::*;

use crate::text::{dec_digits, u64_to_string};

verus! {

/// How many generations are kept.
pub open spec fn max_generations() -> int {
    5
}

pub struct BackupManager {
    /// Path of the watched file.
    pub path: String,
    /// Content of the watched file, if it exists.
    pub file: Option<String>,
    /// Contents of `P.backup.1` .. `P.backup.5`; index 0 is the newest.
    pub slots: Vec<Option<String>>,
    /// Content of the legacy `P.backup` companion.
    pub legacy: Option<String>,
}

/// The path of generation `i` (numbered from 1).
pub open spec fn backup_name(path: Seq<char>, i: int) -> Seq<char> {
    path + ".backup."@ + dec_digits(i)
}

/// Index of the newest existing generation, or -1 if none exists.
pub open spec fn first_some(slots: Seq<Option<String>>) -> int
    decreases slots.len(),
{
    if slots.len() == 0 {
        -1
    } else if slots.first() is Some {
        0
    } else {
        let r = first_some(slots.drop_first());
        if r < 0 {
            -1
        } else {
            1 + r
        }
    }
}

/// The paths of the existing generations from index `i` on.
pub open spec fn listing(path: Seq<char>, slots: Seq<Option<String>>, i: int) -> Seq<Seq<char>>
    decreases slots.len() - i,
{
    if i < 0 || i >= slots.len() {
        Seq::empty()
    } else if slots[i] is Some {
        seq![backup_name(path, i + 1)] + listing(path, slots, i + 1)
    } else {
        listing(path, slots, i + 1)
    }
}

proof fn lemma_listing_len(path: Seq<char>, slots: Seq<Option<String>>, i: int)
    requires
        0 <= i <= slots.len(),
    ensures
        listing(path, slots, i).len() <= slots.len() - i,
    decreases slots.len() - i,
{
    if i < slots.len() {
        lemma_listing_len(path, slots, i + 1);
    }
}

/// Relates the manager's state before and after a successful `create_backup`:
/// generations shift one place toward the old end (the oldest is dropped)
/// and the newest slot takes the watched file's content.
pub open spec fn create_post(b: BackupManager, c: BackupManager) -> bool {
    &&& c.path == b.path
    &&& c.file == b.file
    &&& c.legacy == b.legacy
    &&& c.slots@ == seq![b.file] + b.slots@.drop_last()
}

/// Relates the state before and after a successful `restore_latest`: the
/// watched file takes the newest existing generation, or the legacy backup.
pub open spec fn restore_post(c: BackupManager, d: BackupManager) -> bool {
    &&& d.path == c.path
    &&& d.slots == c.slots
    &&& d.legacy == c.legacy
    &&& if first_some(c.slots@) >= 0 {
        d.file == c.slots@[first_some(c.slots@)]
    } else {
        d.file == c.legacy
    }
}

/// Why a backup operation failed.
#[derive(Debug)]
pub enum BackupError {
    /// `create_backup` found no watched file to copy.
    SourceMissing,
    /// `restore_latest` found no backup of any generation.
    NoBackup,
}

impl BackupError {
    pub fn message(&self) -> (r: String)
        ensures
            self matches BackupError::SourceMissing ==> r@ == "Source file not found"@,
            self matches BackupError::NoBackup ==> r@ == "No backup found to restore"@,
    {
        match self {
            BackupError::SourceMissing => String::from_str("Source file not found"),
            BackupError::NoBackup => String::from_str("No backup found to restore"),
        }
    }
}

impl BackupManager {
    /// The five slots are always present (each may be empty).
    pub open spec fn wf(&self) -> bool {
        self.slots@.len() == max_generations()
    }

    /// A manager for `path` with no file and no backups observed yet.
    pub fn new(path: String) -> (r: Self)
        ensures
            r.wf(),
            r.path@ == path@,
            r.file is None,
            r.legacy is None,
            forall|i: int| 0 <= i < max_generations() ==> (#[trigger] r.slots@[i]) is None,
    {
        let mut slots: Vec<Option<String>> = Vec::new();
        let mut i: usize = 0;
        while i < 5
            invariant
                0 <= i <= 5,
                slots@.len() == i,
                forall|k: int| 0 <= k < i ==> (#[trigger] slots@[k]) is None,
            decreases 5 - i,
        {
            slots.push(None);
            i = i + 1;
        }
        BackupManager { path, file: None, slots, legacy: None }
    }

    /// Take a new generation: shift the existing ones toward the old end and
    /// store the watched file's content as generation 1.  Returns the path
    /// of the new backup.
    pub fn create_backup(&mut self) -> (r: Result<String, BackupError>)
        requires
            old(self).wf(),
        ensures
            final(self).wf(),
            r is Ok <==> old(self).file is Some,
            r matches Ok(p) ==> create_post(*old(self), *final(self)) && p@ == backup_name(
                old(self).path@,
                1,
            ),
            r is Err ==> *final(self) == *old(self) && old(self).file is None,
    {
        let content: Option<String> = match &self.file {
            Some(s) => Some(s.clone()),
            None => {
                return Err(BackupError::SourceMissing);
            },
        };
        let ghost before = self.slots@;
        let _ = self.slots.pop();
        self.slots.insert(0, content);
        proof {
            assert(self.slots@ =~= seq![self.file] + before.drop_last());
        }
        let one = u64_to_string(1);
        let p = self.path.clone().concat(".backup.").concat(one.as_str());
        proof {
            assert(p@ =~= backup_name(self.path@, 1));
        }
        Ok(p)
    }

    /// Copy the newest existing generation (or the legacy backup) back onto
    /// the watched file.
    pub fn restore_latest(&mut self) -> (r: Result<(), BackupError>)
        requires
            old(self).wf(),
        ensures
            final(self).wf(),
            r is Ok <==> first_some(old(self).slots@) >= 0 || old(self).legacy is Some,
            r is Ok ==> restore_post(*old(self), *final(self)),
            r is Err ==> *final(self) == *old(self),
    {
        let n = self.slots.len();
        let mut i: usize = 0;
        while i < n
            invariant
                old(self).wf(),
                self == old(self),
                n == self.slots@.len(),
                0 <= i <= n,
                forall|k: int| 0 <= k < i ==> (#[trigger] self.slots@[k]) is None,
            decreases n - i,
        {
            let found: Option<String> = match &self.slots[i] {
                Some(s) => Some(s.clone()),
                None => None,
            };
            if let Some(content) = found {
                proof {
                    lemma_first_some_at(self.slots@, i as int);
                }
                self.file = Some(content);
                return Ok(());
            }
            i = i + 1;
        }
        proof {
            lemma_first_some_none(self.slots@);
        }
        let legacy: Option<String> = match &self.legacy {
            Some(s) => Some(s.clone()),
            None => None,
        };
        match legacy {
            Some(content) => {
                self.file = Some(content);
                Ok(())
            },
            None => Err(BackupError::NoBackup),
        }
    }

    /// The paths of the existing backups, newest first.
    pub fn list_backups(&self) -> (r: Vec<String>)
        requires
            self.wf(),
        ensures
            r@.map_values(|s: String| s@) == listing(self.path@, self.slots@, 0),
            r@.len() <= max_generations(),
    {
        let n = self.slots.len();
        let mut r: Vec<String> = Vec::new();
        let mut i: usize = 0;
        while i < n
            invariant
                self.wf(),
                n == self.slots@.len(),
                0 <= i <= n,
                r@.map_values(|s: String| s@) + listing(self.path@, self.slots@, i as int)
                    =~= listing(self.path@, self.slots@, 0),
            decreases n - i,
        {
            let present = match &self.slots[i] {
                Some(_) => true,
                None => false,
            };
            if present {
                let num = u64_to_string((i + 1) as u64);
                let p = self.path.clone().concat(".backup.").concat(num.as_str());
                proof {
                    assert(p@ =~= backup_name(self.path@, i + 1));
                }
                let ghost before = r@;
                r.push(p);
                proof {
                    assert(r@.map_values(|s: String| s@) =~= before.map_values(|s: String| s@)
                        + seq![backup_name(self.path@, i + 1)]);
                    assert(listing(self.path@, self.slots@, i as int) =~= seq![
                        backup_name(self.path@, i + 1),
                    ] + listing(self.path@, self.slots@, i + 1));
                }
            }
            i = i + 1;
        }
        proof {
            assert(listing(self.path@, self.slots@, n as int) =~= Seq::<Seq<char>>::empty());
            lemma_listing_len(self.path@, self.slots@, 0);
        }
        r
    }
}

proof fn lemma_first_some_at(slots: Seq<Option<String>>, i: int)
    requires
        0 <= i < slots.len(),
        slots[i] is Some,
        forall|k: int| 0 <= k < i ==> (#[trigger] slots[k]) is None,
    ensures
        first_some(slots) == i,
    decreases i,
{
    if i > 0 {
        let t = slots.drop_first();
        assert forall|k: int| 0 <= k < i - 1 implies (#[trigger] t[k]) is None by {
            assert(t[k] == slots[k + 1]);
        }
        assert(t[i - 1] == slots[i]);
        lemma_first_some_at(t, i - 1);
    }
}

proof fn lemma_first_some_none(slots: Seq<Option<String>>)
    requires
        forall|k: int| 0 <= k < slots.len() ==> (#[trigger] slots[k]) is None,
    ensures
        first_some(slots) == -1,
    decreases slots.len(),
{
    if slots.len() > 0 {
        let t = slots.drop_first();
        assert forall|k: int| 0 <= k < t.len() implies (#[trigger] t[k]) is None by {
            assert(t[k] == slots[k + 1]);
        }
        lemma_first_some_none(t);
    }
}

/// Round trip: a backup followed by a restore puts back onto the watched
/// file exactly the content it held when the backup was taken.
pub proof fn lemma_create_then_restore(b: BackupManager, c: BackupManager, d: BackupManager)
    requires
        b.wf(),
        b.file is Some,
        create_post(b, c),
        restore_post(c, d),
    ensures
        d.file == b.file,
{
    assert(c.slots@[0] == b.file);
    assert(c.slots@.first() is Some);
    assert(first_some(c.slots@) == 0);
}

} // verus!
