//! The snapshot engine: startup recovery of the snapshot root and the
//! bookkeeping half of making a snapshot.

use crate::name::{is_snapshot_name, valid_snapshot_name};
use crate::queue::{add_step, Queue};
use vstd::prelude::*;

verus! {

/// Working capacity when every snapshot is kept: one snapshot every two hours
/// for a day.
pub const DEF_SNAPSHOT_COUNT: usize = 12;

/// Reason given for an entry of the snapshot root that is not a directory.
pub const UNRECOGNIZED_ENTRY: &'static str = "The snapshot directory contains unrecognized files/directories";

/// Reason given for an entry whose name is not text or not a snapshot name.
pub const INVALID_NAME: &'static str =
    "The snapshot file names have invalid characters. This should not happen! Please report an error";

/// Why the engine could not start.
#[derive(Debug)]
pub enum SnapengineError {
    /// The snapshot root holds something that is not a snapshot.
    EngineError(&'static str),
    /// The file system failed; the text describes the error.
    IoError(String),
}

impl SnapengineError {
    /// A line for the operator.
    pub fn message(&self) -> (r: String)
        ensures
            self is EngineError ==> r@ == "Snapshot engine error"@ + self->EngineError_0@,
            self is IoError ==> r@ == "Snapshot engine IOError:"@ + self->IoError_0@,
    {
        match self {
            SnapengineError::EngineError(estr) => {
                let mut r = String::from_str("Snapshot engine error");
                r.append(estr);
                r
            },
            SnapengineError::IoError(e) => {
                let mut r = String::from_str("Snapshot engine IOError:");
                r.append(e.as_str());
                r
            },
        }
    }
}

/// One entry of the snapshot root as listed: its name, if it is text, and
/// whether it is a directory.
#[derive(Debug)]
pub struct DirEntryInfo {
    pub name: Option<String>,
    pub is_dir: bool,
}

/// What became of the attempt to create the snapshot root.
#[derive(Debug)]
pub enum RootState {
    /// The root did not exist and was created empty.
    Created,
    /// The root existed; its entries in listing order, or the error met while
    /// reading one.
    Listed(Vec<Result<DirEntryInfo, String>>),
    /// Creating or listing the root failed with this error.
    Failed(String),
}

/// `(capacity, unbounded)` for a retention count: `0` keeps everything.
pub open spec fn queue_config_spec(maxtop: usize) -> (usize, bool) {
    if maxtop == 0 {
        (DEF_SNAPSHOT_COUNT, true)
    } else {
        (maxtop, false)
    }
}

/// An entry that a snapshot root may hold: a directory with a snapshot name.
pub open spec fn is_snapshot_entry(e: DirEntryInfo) -> bool {
    e.is_dir && e.name is Some && valid_snapshot_name(e.name->0@)
}

/// The error that a bad entry gives.
pub open spec fn entry_error(e: DirEntryInfo) -> SnapengineError {
    if !e.is_dir {
        SnapengineError::EngineError(UNRECOGNIZED_ENTRY)
    } else {
        SnapengineError::EngineError(INVALID_NAME)
    }
}

/// Recovery from a listing: the snapshot names in listing order, or the error
/// of the first entry that could not be read or is no snapshot.
pub open spec fn recover_spec(listing: Seq<Result<DirEntryInfo, String>>) -> Result<
    Seq<String>,
    SnapengineError,
>
    decreases listing.len(),
{
    if listing.len() == 0 {
        Ok(seq![])
    } else {
        match listing[0] {
            Err(e) => Err(SnapengineError::IoError(e)),
            Ok(entry) => if !is_snapshot_entry(entry) {
                Err(entry_error(entry))
            } else {
                match recover_spec(listing.drop_first()) {
                    Ok(rest) => Ok(seq![entry.name->0].add(rest)),
                    Err(e) => Err(e),
                }
            },
        }
    }
}

/// Recovery from a listing in which every entry was read: it succeeds exactly
/// when every entry is a directory with a snapshot name, and then gives those
/// names in listing order; otherwise it fails with an `EngineError`, which
/// names a foreign entry when the first bad entry is not a directory.
pub proof fn lemma_recovery_verdict(listing: Seq<Result<DirEntryInfo, String>>)
    requires
        forall|i: int| 0 <= i < listing.len() ==> (#[trigger] listing[i]) is Ok,
    ensures
        recover_spec(listing) is Ok <==> forall|i: int|
            0 <= i < listing.len() ==> is_snapshot_entry(#[trigger] listing[i]->Ok_0),
        recover_spec(listing) is Ok ==> recover_spec(listing)->Ok_0 == listing.map_values(
            |e: Result<DirEntryInfo, String>| e->Ok_0.name->0,
        ),
        recover_spec(listing) is Err ==> recover_spec(listing)->Err_0 is EngineError,
        forall|i: int|
            #![trigger listing[i]]
            0 <= i < listing.len() && !listing[i]->Ok_0.is_dir && (forall|j: int|
                0 <= j < i ==> is_snapshot_entry(#[trigger] listing[j]->Ok_0))
                ==> recover_spec(listing) == Err::<Seq<String>, SnapengineError>(
                SnapengineError::EngineError(UNRECOGNIZED_ENTRY),
            ),
    decreases listing.len(),
{
    if listing.len() > 0 {
        let rest = listing.drop_first();
        assert forall|i: int| 0 <= i < rest.len() implies (#[trigger] rest[i]) is Ok by {
            assert(rest[i] == listing[i + 1]);
        }
        lemma_recovery_verdict(rest);
        let f = |e: Result<DirEntryInfo, String>| e->Ok_0.name->0;
        if is_snapshot_entry(listing[0]->Ok_0) {
            assert((forall|i: int| 0 <= i < listing.len() ==> is_snapshot_entry(#[trigger] listing[i]->Ok_0))
                <==> (forall|i: int| 0 <= i < rest.len() ==> is_snapshot_entry(#[trigger] rest[i]->Ok_0))) by {
                if forall|i: int| 0 <= i < rest.len() ==> is_snapshot_entry(#[trigger] rest[i]->Ok_0) {
                    assert forall|i: int| 0 <= i < listing.len() implies is_snapshot_entry(#[trigger] listing[i]->Ok_0) by {
                        if i > 0 {
                            assert(listing[i] == rest[i - 1]);
                        }
                    }
                }
                if forall|i: int| 0 <= i < listing.len() ==> is_snapshot_entry(#[trigger] listing[i]->Ok_0) {
                    assert forall|i: int| 0 <= i < rest.len() implies is_snapshot_entry(#[trigger] rest[i]->Ok_0) by {
                        assert(listing[i + 1] == rest[i]);
                    }
                }
            }
            if recover_spec(rest) is Ok {
                assert(seq![listing[0]->Ok_0.name->0].add(rest.map_values(f)) =~= listing.map_values(f));
            }
            assert forall|i: int|
                #![trigger listing[i]]
                0 <= i < listing.len() && !listing[i]->Ok_0.is_dir && (forall|j: int|
                    0 <= j < i ==> is_snapshot_entry(#[trigger] listing[j]->Ok_0))
                    implies recover_spec(listing) == Err::<Seq<String>, SnapengineError>(
                    SnapengineError::EngineError(UNRECOGNIZED_ENTRY),
                ) by {
                assert(i > 0);
                assert(rest[i - 1] == listing[i]);
                assert forall|j: int| 0 <= j < i - 1 implies is_snapshot_entry(#[trigger] rest[j]->Ok_0) by {
                    assert(rest[j] == listing[j + 1]);
                }
            }
        } else {
            assert(!is_snapshot_entry(listing[0]->Ok_0));
        }
    }
}

/// `(capacity, unbounded)` for a retention count: `0` keeps everything with a
/// working capacity of [`DEF_SNAPSHOT_COUNT`].
pub fn queue_config(maxtop: usize) -> (r: (usize, bool))
    ensures
        r == queue_config_spec(maxtop),
{
    if maxtop == 0 {
        (DEF_SNAPSHOT_COUNT, true)
    } else {
        (maxtop, false)
    }
}

/// The snapshot names of a listing of the snapshot root, in listing order.
///
/// Fails on the first entry that could not be read (`IoError`), that is not a
/// directory, or whose name is not text or not a snapshot name (`EngineError`).
pub fn recover_snapshots(listing: Vec<Result<DirEntryInfo, String>>) -> (r: Result<
    Vec<String>,
    SnapengineError,
>)
    ensures
        match recover_spec(listing@) {
            Ok(names) => r is Ok && r->Ok_0@ == names,
            Err(e) => r == Err::<Vec<String>, SnapengineError>(e),
        },
{
    let mut snaps: Vec<String> = Vec::new();
    let ghost whole = listing@;
    let mut i: usize = 0;
    proof {
        assert(whole.subrange(0, whole.len() as int) =~= whole);
        match recover_spec(whole) {
            Ok(rest) => {
                assert(snaps@.add(rest) =~= rest);
            },
            Err(_) => {},
        }
    }
    while i < listing.len()
        invariant
            0 <= i <= whole.len(),
            listing@ == whole,
            recover_spec(whole) == (match recover_spec(whole.subrange(i as int, whole.len() as int)) {
                Ok(rest) => Ok(snaps@.add(rest)),
                Err(e) => Err(e),
            }),
        decreases whole.len() - i,
    {
        let ghost tail = whole.subrange(i as int, whole.len() as int);
        proof {
            assert(tail[0] == whole[i as int]);
            assert(tail.drop_first() =~= whole.subrange(i + 1, whole.len() as int));
        }
        match &listing[i] {
            Err(e) => {
                return Err(SnapengineError::IoError(e.clone()));
            },
            Ok(entry) => {
                if !entry.is_dir {
                    return Err(SnapengineError::EngineError(UNRECOGNIZED_ENTRY));
                }
                let file_name = match &entry.name {
                    Some(n) => n.clone(),
                    None => {
                        return Err(SnapengineError::EngineError(INVALID_NAME));
                    },
                };
                if !is_snapshot_name(file_name.as_str()) {
                    return Err(SnapengineError::EngineError(INVALID_NAME));
                }
                proof {
                    let rest = whole.subrange(i + 1, whole.len() as int);
                    match recover_spec(rest) {
                        Ok(r) => {
                            assert(snaps@.add(seq![file_name].add(r)) =~= snaps@.push(
                                file_name,
                            ).add(r));
                        },
                        Err(_) => {},
                    }
                }
                snaps.push(file_name);
            },
        }
        i = i + 1;
    }
    proof {
        assert(whole.subrange(i as int, whole.len() as int).len() == 0);
        assert(snaps@.add(seq![]) =~= snaps@);
    }
    Ok(snaps)
}

/// The snapshot engine: the retention queue of the snapshots on disk and a
/// handle to the store they are taken of.
///
/// Whoever drives it calls `_mksnap_nonblocking_section` on each tick and
/// then runs the resulting job (see `SnapJob`).
pub struct SnapshotEngine<H> {
    /// Names of the snapshots (relative to the snapshot root), oldest first.
    snaps: Queue,
    /// The store.
    dbref: H,
}

impl<H> SnapshotEngine<H> {
    /// The snapshot names held, oldest first.
    pub closed spec fn snapshots(&self) -> Seq<String> {
        self.snaps.items()
    }

    /// The retention configuration `(capacity, unbounded)`.
    pub closed spec fn config(&self) -> (nat, bool) {
        (self.snaps.capacity(), self.snaps.unbounded())
    }

    /// The store handle.
    pub closed spec fn store(&self) -> H {
        self.dbref
    }

    /// An engine keeping `maxtop` snapshots (`0`: all of them), given what became
    /// of creating the snapshot root `root`.
    ///
    /// A fresh root gives an empty queue; an existing one is recovered (see
    /// [`recover_snapshots`]), and any error there stops the engine from starting.
    pub fn new(maxtop: usize, dbref: H, root: RootState) -> (r: Result<Self, SnapengineError>)
        ensures
            r is Ok ==> r->Ok_0.config() == (queue_config_spec(maxtop).0 as nat, queue_config_spec(maxtop).1)
                && r->Ok_0.store() == dbref,
            root is Created ==> r is Ok && r->Ok_0.snapshots() == Seq::<String>::empty(),
            root is Failed ==> r == Err::<Self, SnapengineError>(SnapengineError::IoError(root->Failed_0)),
            root is Listed ==> match recover_spec(root->Listed_0@) {
                Ok(names) => r is Ok && r->Ok_0.snapshots() == names,
                Err(e) => r == Err::<Self, SnapengineError>(e),
            },
    {
        let q_cfg_tuple = queue_config(maxtop);
        match root {
            RootState::Created => Ok(SnapshotEngine { snaps: Queue::new(q_cfg_tuple), dbref }),
            RootState::Failed(e) => Err(SnapengineError::IoError(e)),
            RootState::Listed(listing) => {
                let snaps = recover_snapshots(listing)?;
                if snaps.len() == 0 {
                    Ok(SnapshotEngine { snaps: Queue::new(q_cfg_tuple), dbref })
                } else {
                    Ok(SnapshotEngine { snaps: Queue::init_pre(q_cfg_tuple, snaps), dbref })
                }
            },
        }
    }

    /// The retention queue.
    pub fn queue(&self) -> (r: &Queue)
        ensures
            r.items() == self.snapshots(),
            (r.capacity(), r.unbounded()) == self.config(),
    {
        &self.snaps
    }

    /// The store handle.
    pub fn handle(&self) -> (r: &H)
        ensures
            *r == self.store(),
    {
        &self.dbref
    }

    /// Relies on chrono's `Utc::now` and `DateTime::format`: the current UTC
    /// time written `%Y%m%d-%H%M%S`. Nothing is promised of the text, which
    /// depends on the clock (chrono writes a sign and more digits for a year
    /// past 9999).
    #[verifier::external_body]
    fn get_snapname(&self) -> (r: String) {
        chrono::Utc::now().format("%Y%m%d-%H%M%S").to_string()
    }

    /// Records the snapshot `snapname` in the queue; returns it, with the
    /// snapshot evicted to make room, if any.
    pub fn register_snapshot(&mut self, snapname: String) -> (r: (String, Option<String>))
        ensures
            r.0 == snapname,
            (final(self).snapshots(), r.1) == add_step(old(self).snapshots(), old(self).config().0, old(self).config().1, snapname),
            final(self).config() == old(self).config(),
            final(self).store() == old(self).store(),
    {
        let old_snap_if_any = self.snaps.add(snapname.clone());
        (snapname, old_snap_if_any)
    }

    /// The bookkeeping half of making a snapshot: names it after the current
    /// time and records it; returns the name, with the snapshot evicted to make
    /// room, if any.
    pub fn _mksnap_nonblocking_section(&mut self) -> (r: (String, Option<String>))
        ensures
            (final(self).snapshots(), r.1) == add_step(old(self).snapshots(), old(self).config().0, old(self).config().1, r.0),
            final(self).config() == old(self).config(),
            final(self).store() == old(self).store(),
    {
        let snapname = self.get_snapname();
        self.register_snapshot(snapname)
    }
}

} // verus!
