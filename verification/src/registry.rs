//! The download registry and queue scheduler: intake of new rows with
//! collision-free paths, the lifecycle transitions, the concurrency cap
//! `max_concurrent`, and oldest-first promotion of queued rows.

use vstd::prelude::*;
use crate::model::{Download, spec_download_wf};
use crate::status::{DownloadStatus, DownloadProtocol, spec_allowed_transition};
use crate::path::{resolve_unique_path, spec_resolved_path_ok, spec_taken};
use crate::strutil::{str_eq, str_lex_le, spec_lex_le};

verus! {

/// Failures of registry operations.
#[derive(Debug, Clone, Copy, PartialEq, Eq, Structural)]
pub enum RegistryError {
    /// No row carries the given id.
    NotFound,
    /// A row with this id already exists.
    DuplicateId,
    /// The row is already completed and cannot be resumed.
    AlreadyCompleted,
    /// The lifecycle state machine has no edge for the requested change.
    NotPermitted,
    /// Every concurrency slot is busy.
    QueueFull,
    /// No free path could be derived from the requested one.
    PathExhausted,
}

/// What a caller asks to add: the request fields of a new download.
#[derive(Debug)]
pub struct AddRequest {
    pub url: String,
    pub filename: String,
    /// The resolved base target path; intake makes it collision-free.
    pub filepath: String,
    pub protocol: DownloadProtocol,
    pub connections: i32,
    pub user_agent: Option<String>,
    pub cookies: Option<String>,
    pub metadata: Option<String>,
    pub category: String,
}

pub open spec fn spec_is_dl(d: Download) -> bool {
    d.status == DownloadStatus::Downloading
}

/// Number of rows currently in status `Downloading`.
pub open spec fn spec_count_dl(rows: Seq<Download>) -> int
    decreases rows.len(),
{
    if rows.len() == 0 {
        0
    } else {
        spec_count_dl(rows.drop_last()) + if spec_is_dl(rows.last()) {
            1int
        } else {
            0int
        }
    }
}

pub open spec fn spec_rows_wf(rows: Seq<Download>) -> bool {
    forall|i: int| 0 <= i < rows.len() ==> spec_download_wf(#[trigger] rows[i])
}

pub open spec fn spec_ids_distinct(rows: Seq<Download>) -> bool {
    forall|i: int, j: int|
        0 <= i < j < rows.len() ==> (#[trigger] rows[i]).id@ != (#[trigger] rows[j]).id@
}

pub open spec fn spec_paths_distinct(rows: Seq<Download>) -> bool {
    forall|i: int, j: int|
        0 <= i < j < rows.len() ==> (#[trigger] rows[i]).filepath@ != (#[trigger] rows[j]).filepath@
}

pub open spec fn spec_has_id(rows: Seq<Download>, id: Seq<char>) -> bool {
    exists|i: int| 0 <= i < rows.len() && rows[i].id@ == id
}

/// The index of the row carrying `id` (meaningful when `spec_has_id`).
pub open spec fn spec_index_of_id(rows: Seq<Download>, id: Seq<char>) -> int {
    choose|i: int| 0 <= i < rows.len() && rows[i].id@ == id
}

proof fn lemma_id_index(rows: Seq<Download>, id: Seq<char>)
    requires
        spec_ids_distinct(rows),
        spec_has_id(rows, id),
    ensures
        0 <= spec_index_of_id(rows, id) < rows.len(),
        rows[spec_index_of_id(rows, id)].id@ == id,
        forall|j: int| 0 <= j < rows.len() && rows[j].id@ == id ==> j == spec_index_of_id(rows, id),
{
    let i = spec_index_of_id(rows, id);
    assert(0 <= i < rows.len() && rows[i].id@ == id);
    assert forall|j: int| 0 <= j < rows.len() && rows[j].id@ == id implies j == i by {
        if j < i {
            assert(rows[j].id@ != rows[i].id@);
        } else if i < j {
            assert(rows[i].id@ != rows[j].id@);
        }
    }
}

proof fn lemma_count_dl_update(rows: Seq<Download>, i: int, d: Download)
    requires
        0 <= i < rows.len(),
    ensures
        spec_count_dl(rows.update(i, d)) == spec_count_dl(rows) - (if spec_is_dl(rows[i]) {
            1int
        } else {
            0int
        }) + (if spec_is_dl(d) {
            1int
        } else {
            0int
        }),
    decreases rows.len(),
{
    let r2 = rows.update(i, d);
    if i == rows.len() - 1 {
        assert(r2.drop_last() =~= rows.drop_last());
        assert(r2.last() == d);
    } else {
        assert(r2.drop_last() =~= rows.drop_last().update(i, d));
        assert(r2.last() == rows.last());
        lemma_count_dl_update(rows.drop_last(), i, d);
    }
}

proof fn lemma_count_dl_push(rows: Seq<Download>, d: Download)
    ensures
        spec_count_dl(rows.push(d)) == spec_count_dl(rows) + if spec_is_dl(d) {
            1int
        } else {
            0int
        },
{
    assert(rows.push(d).drop_last() =~= rows);
    assert(rows.push(d).last() == d);
}

proof fn lemma_count_dl_bounds(rows: Seq<Download>)
    ensures
        0 <= spec_count_dl(rows) <= rows.len(),
    decreases rows.len(),
{
    if rows.len() > 0 {
        lemma_count_dl_bounds(rows.drop_last());
    }
}

proof fn lemma_distinct_after_update(rows: Seq<Download>, i: int, d: Download)
    requires
        0 <= i < rows.len(),
        spec_ids_distinct(rows),
        spec_paths_distinct(rows),
        d.id@ == rows[i].id@,
        d.filepath@ == rows[i].filepath@,
    ensures
        spec_ids_distinct(rows.update(i, d)),
        spec_paths_distinct(rows.update(i, d)),
{
    let r2 = rows.update(i, d);
    assert forall|a: int, b: int| 0 <= a < b < r2.len() implies (#[trigger] r2[a]).id@
        != (#[trigger] r2[b]).id@ && r2[a].filepath@ != r2[b].filepath@ by {
        assert(rows[a].id@ != rows[b].id@);
        assert(rows[a].filepath@ != rows[b].filepath@);
    }
}

/// All target paths of the rows, used together with the paths on disk when
/// intake derives a fresh one.
pub open spec fn spec_row_paths(rows: Seq<Download>) -> Seq<String> {
    rows.map_values(|d: Download| d.filepath)
}

/// The registry of download rows, with queue discipline. At all times the
/// rows are well formed, ids and paths are unique, and at most
/// `max_concurrent` rows are `Downloading`.
pub struct Registry {
    pub rows: Vec<Download>,
    pub max_concurrent: usize,
}

impl Registry {
    /// The registry invariant: row well-formedness, unique ids, unique
    /// target paths, and the concurrency cap.
    pub open spec fn wf(self) -> bool {
        &&& 1 <= self.max_concurrent
        &&& spec_rows_wf(self.rows@)
        &&& spec_ids_distinct(self.rows@)
        &&& spec_paths_distinct(self.rows@)
        &&& spec_count_dl(self.rows@) <= self.max_concurrent
    }

    pub open spec fn spec_rows(self) -> Seq<Download> {
        self.rows@
    }

    pub open spec fn spec_max_concurrent(self) -> int {
        self.max_concurrent as int
    }

    /// An empty registry allowing `max_concurrent` simultaneous transfers.
    pub fn new(max_concurrent: usize) -> (r: Registry)
        requires
            max_concurrent >= 1,
        ensures
            r.wf(),
            r.spec_rows() == Seq::<Download>::empty(),
            r.spec_max_concurrent() == max_concurrent,
    {
        Registry { rows: Vec::new(), max_concurrent }
    }

    pub fn num_rows(&self) -> (n: usize)
        ensures
            n == self.spec_rows().len(),
    {
        self.rows.len()
    }

    /// Read access to one row.
    pub fn row_at(&self, i: usize) -> (d: &Download)
        requires
            i < self.spec_rows().len(),
        ensures
            *d == self.spec_rows()[i as int],
    {
        &self.rows[i]
    }

    /// The index of the row with this id, if any.
    pub fn find_index(&self, id: &str) -> (r: Option<usize>)
        ensures
            match r {
                Some(i) => i < self.spec_rows().len() && self.spec_rows()[i as int].id@ == id@,
                None => !spec_has_id(self.spec_rows(), id@),
            },
    {
        let n = self.rows.len();
        let mut i: usize = 0;
        while i < n
            invariant
                n == self.rows@.len(),
                i <= n,
                forall|j: int| 0 <= j < i ==> self.rows@[j].id@ != id@,
            decreases n - i,
        {
            if str_eq(self.rows[i].id.as_str(), id) {
                return Some(i);
            }
            i = i + 1;
        }
        None
    }

    /// How many rows are actively downloading.
    pub fn count_downloading(&self) -> (n: usize)
        ensures
            n == spec_count_dl(self.spec_rows()),
    {
        proof {
            lemma_count_dl_bounds(self.rows@);
        }
        let len = self.rows.len();
        let mut n: usize = 0;
        let mut i: usize = 0;
        while i < len
            invariant
                len == self.rows@.len(),
                i <= len,
                n == spec_count_dl(self.rows@.take(i as int)),
                n <= i,
            decreases len - i,
        {
            proof {
                assert(self.rows@.take(i + 1).drop_last() =~= self.rows@.take(i as int));
                assert(self.rows@.take(i + 1).last() == self.rows@[i as int]);
            }
            if matches!(self.rows[i].status, DownloadStatus::Downloading) {
                n = n + 1;
            }
            i = i + 1;
        }
        proof {
            assert(self.rows@.take(len as int) =~= self.rows@);
        }
        n
    }

    /// Admits a new download. The row gets a collision-free target path (the
    /// requested one, or with the smallest free ` (n)` counter), zero
    /// progress, and a status decided by queue discipline: `Paused` when the
    /// caller starts it paused, `Queued` when every slot is busy, else
    /// `Downloading`. Fails on a duplicate id, and on the degenerate case
    /// that no free path exists.
    pub fn add_row(
        &mut self,
        req: AddRequest,
        id: String,
        created_at: String,
        disk_taken: &Vec<String>,
        start_paused: bool,
    ) -> (r: Result<Download, RegistryError>)
        requires
            old(self).wf(),
        ensures
            final(self).wf(),
            final(self).spec_max_concurrent() == old(self).spec_max_concurrent(),
            match r {
                Ok(d) => {
                    &&& !spec_has_id(old(self).spec_rows(), id@)
                    &&& final(self).spec_rows() == old(self).spec_rows().push(d)
                    &&& d.id@ == id@
                    &&& d.url@ == req.url@
                    &&& d.filename@ == req.filename@
                    &&& d.size == 0
                    &&& d.downloaded == 0
                    &&& d.speed == 0
                    &&& d.protocol == req.protocol
                    &&& d.connections == req.connections
                    &&& d.created_at@ == created_at@
                    &&& d.completed_at is None
                    &&& d.error_message is None
                    &&& d.status == (if start_paused {
                        DownloadStatus::Paused
                    } else if spec_count_dl(old(self).spec_rows())
                        >= old(self).spec_max_concurrent() {
                        DownloadStatus::Queued
                    } else {
                        DownloadStatus::Downloading
                    })
                    &&& spec_resolved_path_ok(
                        req.filepath@,
                        spec_row_paths(old(self).spec_rows()) + disk_taken@,
                        d.filepath@,
                    )
                }
                Err(RegistryError::DuplicateId) => {
                    &&& spec_has_id(old(self).spec_rows(), id@)
                    &&& *final(self) == *old(self)
                }
                Err(RegistryError::PathExhausted) => {
                    &&& spec_taken(
                        spec_row_paths(old(self).spec_rows()) + disk_taken@,
                        req.filepath@,
                    )
                    &&& (req.filepath@.len() > usize::MAX - 4 || spec_taken(
                        spec_row_paths(old(self).spec_rows()) + disk_taken@,
                        crate::path::spec_with_suffix(
                            req.filepath@.take(crate::path::spec_split_point(req.filepath@)),
                            req.filepath@.skip(crate::path::spec_split_point(req.filepath@)),
                            u64::MAX,
                        ),
                    ))
                    &&& *final(self) == *old(self)
                }
                Err(_) => false,
            },
    {
        match self.find_index(id.as_str()) {
            Some(_) => {
                return Err(RegistryError::DuplicateId);
            }
            None => {}
        }
        // Gather every occupied path: the registry's rows and the disk.
        let n = self.rows.len();
        let mut taken: Vec<String> = Vec::new();
        let mut i: usize = 0;
        while i < n
            invariant
                n == self.rows@.len(),
                i <= n,
                taken@ =~= spec_row_paths(self.rows@.take(i as int)),
            decreases n - i,
        {
            taken.push(self.rows[i].filepath.clone());
            proof {
                assert(taken@ =~= spec_row_paths(self.rows@.take(i as int)).push(
                    self.rows@[i as int].filepath,
                ));
                assert(spec_row_paths(self.rows@.take(i + 1)) =~= spec_row_paths(
                    self.rows@.take(i as int),
                ).push(self.rows@[i as int].filepath));
            }
            i = i + 1;
        }
        proof {
            assert(self.rows@.take(n as int) =~= self.rows@);
        }
        let dn = disk_taken.len();
        let mut j: usize = 0;
        while j < dn
            invariant
                dn == disk_taken@.len(),
                j <= dn,
                taken@ =~= spec_row_paths(self.rows@) + disk_taken@.take(j as int),
            decreases dn - j,
        {
            taken.push(disk_taken[j].clone());
            j = j + 1;
            proof {
                assert(taken@ =~= spec_row_paths(self.rows@) + disk_taken@.take(j as int));
            }
        }
        proof {
            assert(disk_taken@.take(dn as int) =~= disk_taken@);
            assert(taken@ =~= spec_row_paths(self.rows@) + disk_taken@);
        }
        let path = match resolve_unique_path(req.filepath.as_str(), &taken) {
            Some(p) => p,
            None => {
                return Err(RegistryError::PathExhausted);
            }
        };
        let slots_full = self.count_downloading() >= self.max_concurrent;
        let status = if start_paused {
            DownloadStatus::Paused
        } else if slots_full {
            DownloadStatus::Queued
        } else {
            DownloadStatus::Downloading
        };
        let d = Download {
            id,
            url: req.url,
            filename: req.filename,
            filepath: path,
            size: 0,
            downloaded: 0,
            status,
            protocol: req.protocol,
            speed: 0,
            connections: req.connections,
            created_at,
            completed_at: None,
            error_message: None,
            info_hash: None,
            metadata: req.metadata,
            user_agent: req.user_agent,
            cookies: req.cookies,
            category: req.category,
        };
        let out = d.duplicate();
        proof {
            lemma_count_dl_push(self.rows@, d);
            let r2 = self.rows@.push(d);
            assert forall|a: int, b: int| 0 <= a < b < r2.len() implies (#[trigger] r2[a]).id@
                != (#[trigger] r2[b]).id@ by {
                if b < self.rows@.len() {
                } else {
                    assert(r2[a] == self.rows@[a]);
                    assert(r2[b] == d);
                }
            }
            assert forall|a: int, b: int| 0 <= a < b < r2.len() implies (#[trigger] r2[
                a]).filepath@ != (#[trigger] r2[b]).filepath@ by {
                if b < self.rows@.len() {
                } else {
                    assert(r2[a] == self.rows@[a]);
                    assert(r2[b] == d);
                    assert(spec_row_paths(self.rows@)[a] == self.rows@[a].filepath);
                    assert((spec_row_paths(self.rows@) + disk_taken@)[a]
                        == self.rows@[a].filepath);
                    assert(spec_taken(spec_row_paths(self.rows@) + disk_taken@,
                        self.rows@[a].filepath@) || d.filepath@ != self.rows@[a].filepath@);
                }
            }
        }
        self.rows.push(d);
        Ok(out)
    }

    /// Pauses a row: a downloading or still-queued row becomes `Paused`; a
    /// paused row stays as it is; a completed or failed row cannot be
    /// paused.
    pub fn pause_row(&mut self, id: &str) -> (r: Result<(), RegistryError>)
        requires
            old(self).wf(),
        ensures
            final(self).wf(),
            final(self).spec_max_concurrent() == old(self).spec_max_concurrent(),
            match r {
                Ok(_) => {
                    &&& spec_has_id(old(self).spec_rows(), id@)
                    &&& ({
                        let i = spec_index_of_id(old(self).spec_rows(), id@);
                        let row = old(self).spec_rows()[i];
                        if row.status == DownloadStatus::Paused {
                            *final(self) == *old(self)
                        } else {
                            &&& spec_allowed_transition(row.status, DownloadStatus::Paused)
                            &&& final(self).spec_rows() == old(self).spec_rows().update(
                                i,
                                Download { status: DownloadStatus::Paused, speed: 0, ..row },
                            )
                        }
                    })
                }
                Err(RegistryError::NotFound) => {
                    &&& !spec_has_id(old(self).spec_rows(), id@)
                    &&& *final(self) == *old(self)
                }
                Err(RegistryError::NotPermitted) => {
                    &&& spec_has_id(old(self).spec_rows(), id@)
                    &&& ({
                        let row = old(self).spec_rows()[spec_index_of_id(
                            old(self).spec_rows(),
                            id@,
                        )];
                        row.status == DownloadStatus::Completed || row.status
                            == DownloadStatus::Error
                    })
                    &&& *final(self) == *old(self)
                }
                Err(_) => false,
            },
    {
        let fi = match self.find_index(id) {
            Some(i) => i,
            None => {
                return Err(RegistryError::NotFound);
            }
        };
        proof {
            lemma_id_index(self.rows@, id@);
        }
        let st = self.rows[fi].status;
        match st {
            DownloadStatus::Paused => Ok(()),
            DownloadStatus::Completed => Err(RegistryError::NotPermitted),
            DownloadStatus::Error => Err(RegistryError::NotPermitted),
            _ => {
                let ghost rows0 = self.rows@;
                let row = &mut self.rows[fi];
                row.status = DownloadStatus::Paused;
                row.speed = 0;
                proof {
                    lemma_count_dl_update(rows0, fi as int, self.rows@[fi as int]);
                    lemma_count_dl_bounds(rows0);
                    lemma_distinct_after_update(rows0, fi as int, self.rows@[fi as int]);
                    assert(self.rows@ =~= rows0.update(
                        fi as int,
                        Download { status: DownloadStatus::Paused, speed: 0, ..rows0[fi as int] },
                    ));
                }
                Ok(())
            }
        }
    }

    /// Resumes a row. A completed row cannot be resumed; a row already
    /// downloading is left as it is; otherwise the row starts downloading,
    /// but only while a concurrency slot is free.
    pub fn resume_row(&mut self, id: &str) -> (r: Result<(), RegistryError>)
        requires
            old(self).wf(),
        ensures
            final(self).wf(),
            final(self).spec_max_concurrent() == old(self).spec_max_concurrent(),
            match r {
                Ok(_) => {
                    &&& spec_has_id(old(self).spec_rows(), id@)
                    &&& ({
                        let i = spec_index_of_id(old(self).spec_rows(), id@);
                        let row = old(self).spec_rows()[i];
                        if row.status == DownloadStatus::Downloading {
                            *final(self) == *old(self)
                        } else {
                            &&& row.status != DownloadStatus::Completed
                            &&& spec_count_dl(old(self).spec_rows()) < old(
                                self,
                            ).spec_max_concurrent()
                            &&& spec_allowed_transition(row.status, DownloadStatus::Downloading)
                            &&& final(self).spec_rows() == old(self).spec_rows().update(
                                i,
                                Download { status: DownloadStatus::Downloading, ..row },
                            )
                        }
                    })
                }
                Err(RegistryError::NotFound) => {
                    &&& !spec_has_id(old(self).spec_rows(), id@)
                    &&& *final(self) == *old(self)
                }
                Err(RegistryError::AlreadyCompleted) => {
                    &&& spec_has_id(old(self).spec_rows(), id@)
                    &&& old(self).spec_rows()[spec_index_of_id(old(self).spec_rows(), id@)].status
                        == DownloadStatus::Completed
                    &&& *final(self) == *old(self)
                }
                Err(RegistryError::QueueFull) => {
                    &&& spec_has_id(old(self).spec_rows(), id@)
                    &&& ({
                        let st = old(self).spec_rows()[spec_index_of_id(
                            old(self).spec_rows(),
                            id@,
                        )].status;
                        st != DownloadStatus::Completed && st != DownloadStatus::Downloading
                    })
                    &&& spec_count_dl(old(self).spec_rows()) >= old(self).spec_max_concurrent()
                    &&& *final(self) == *old(self)
                }
                Err(_) => false,
            },
    {
        let fi = match self.find_index(id) {
            Some(i) => i,
            None => {
                return Err(RegistryError::NotFound);
            }
        };
        proof {
            lemma_id_index(self.rows@, id@);
        }
        let st = self.rows[fi].status;
        match st {
            DownloadStatus::Completed => Err(RegistryError::AlreadyCompleted),
            DownloadStatus::Downloading => Ok(()),
            _ => {
                if self.count_downloading() >= self.max_concurrent {
                    return Err(RegistryError::QueueFull);
                }
                let ghost rows0 = self.rows@;
                let row = &mut self.rows[fi];
                row.status = DownloadStatus::Downloading;
                proof {
                    lemma_count_dl_update(rows0, fi as int, self.rows@[fi as int]);
                    lemma_distinct_after_update(rows0, fi as int, self.rows@[fi as int]);
                    assert(self.rows@ =~= rows0.update(
                        fi as int,
                        Download { status: DownloadStatus::Downloading, ..rows0[fi as int] },
                    ));
                }
                Ok(())
            }
        }
    }

    /// Marks a downloading row completed: its progress snaps to the full
    /// size, its speed to zero, and the completion timestamp is recorded.
    pub fn complete_row(&mut self, id: &str, completed_at: String) -> (r: Result<
        (),
        RegistryError,
    >)
        requires
            old(self).wf(),
        ensures
            final(self).wf(),
            final(self).spec_max_concurrent() == old(self).spec_max_concurrent(),
            match r {
                Ok(_) => {
                    &&& spec_has_id(old(self).spec_rows(), id@)
                    &&& ({
                        let i = spec_index_of_id(old(self).spec_rows(), id@);
                        let row = old(self).spec_rows()[i];
                        &&& spec_allowed_transition(row.status, DownloadStatus::Completed)
                        &&& final(self).spec_rows() == old(self).spec_rows().update(
                            i,
                            Download {
                                status: DownloadStatus::Completed,
                                downloaded: if row.size > 0 {
                                    row.size
                                } else {
                                    row.downloaded
                                },
                                speed: 0,
                                completed_at: Some(completed_at),
                                ..row
                            },
                        )
                    })
                }
                Err(RegistryError::NotFound) => {
                    &&& !spec_has_id(old(self).spec_rows(), id@)
                    &&& *final(self) == *old(self)
                }
                Err(RegistryError::NotPermitted) => {
                    &&& spec_has_id(old(self).spec_rows(), id@)
                    &&& old(self).spec_rows()[spec_index_of_id(old(self).spec_rows(), id@)].status
                        != DownloadStatus::Downloading
                    &&& *final(self) == *old(self)
                }
                Err(_) => false,
            },
    {
        let fi = match self.find_index(id) {
            Some(i) => i,
            None => {
                return Err(RegistryError::NotFound);
            }
        };
        proof {
            lemma_id_index(self.rows@, id@);
        }
        let st = self.rows[fi].status;
        match st {
            DownloadStatus::Downloading => {
                let ghost rows0 = self.rows@;
                let row = &mut self.rows[fi];
                row.status = DownloadStatus::Completed;
                if row.size > 0 {
                    row.downloaded = row.size;
                }
                row.speed = 0;
                row.completed_at = Some(completed_at);
                proof {
                    lemma_count_dl_update(rows0, fi as int, self.rows@[fi as int]);
                    lemma_count_dl_bounds(rows0);
                    lemma_distinct_after_update(rows0, fi as int, self.rows@[fi as int]);
                }
                Ok(())
            }
            _ => Err(RegistryError::NotPermitted),
        }
    }

    /// Marks a downloading row failed, retaining the error message.
    pub fn fail_row(&mut self, id: &str, message: String) -> (r: Result<(), RegistryError>)
        requires
            old(self).wf(),
        ensures
            final(self).wf(),
            final(self).spec_max_concurrent() == old(self).spec_max_concurrent(),
            match r {
                Ok(_) => {
                    &&& spec_has_id(old(self).spec_rows(), id@)
                    &&& ({
                        let i = spec_index_of_id(old(self).spec_rows(), id@);
                        let row = old(self).spec_rows()[i];
                        &&& spec_allowed_transition(row.status, DownloadStatus::Error)
                        &&& final(self).spec_rows() == old(self).spec_rows().update(
                            i,
                            Download {
                                status: DownloadStatus::Error,
                                speed: 0,
                                error_message: Some(message),
                                ..row
                            },
                        )
                    })
                }
                Err(RegistryError::NotFound) => {
                    &&& !spec_has_id(old(self).spec_rows(), id@)
                    &&& *final(self) == *old(self)
                }
                Err(RegistryError::NotPermitted) => {
                    &&& spec_has_id(old(self).spec_rows(), id@)
                    &&& old(self).spec_rows()[spec_index_of_id(old(self).spec_rows(), id@)].status
                        != DownloadStatus::Downloading
                    &&& *final(self) == *old(self)
                }
                Err(_) => false,
            },
    {
        let fi = match self.find_index(id) {
            Some(i) => i,
            None => {
                return Err(RegistryError::NotFound);
            }
        };
        proof {
            lemma_id_index(self.rows@, id@);
        }
        let st = self.rows[fi].status;
        match st {
            DownloadStatus::Downloading => {
                let ghost rows0 = self.rows@;
                let row = &mut self.rows[fi];
                row.status = DownloadStatus::Error;
                row.speed = 0;
                row.error_message = Some(message);
                proof {
                    lemma_count_dl_update(rows0, fi as int, self.rows@[fi as int]);
                    lemma_count_dl_bounds(rows0);
                    lemma_distinct_after_update(rows0, fi as int, self.rows@[fi as int]);
                }
                Ok(())
            }
            _ => Err(RegistryError::NotPermitted),
        }
    }

    /// Writes a progress tick: the byte count (clamped to the known size, so
    /// progress never exceeds it) and the instantaneous speed.
    pub fn update_progress(&mut self, id: &str, downloaded: i64, speed: i64) -> (r: Result<
        (),
        RegistryError,
    >)
        requires
            old(self).wf(),
            downloaded >= 0,
            speed >= 0,
        ensures
            final(self).wf(),
            final(self).spec_max_concurrent() == old(self).spec_max_concurrent(),
            match r {
                Ok(_) => {
                    &&& spec_has_id(old(self).spec_rows(), id@)
                    &&& ({
                        let i = spec_index_of_id(old(self).spec_rows(), id@);
                        let row = old(self).spec_rows()[i];
                        let clamped = if row.size > 0 && downloaded > row.size {
                            row.size as int
                        } else {
                            downloaded as int
                        };
                        let kept = if row.status == DownloadStatus::Completed {
                            row.downloaded as int
                        } else {
                            clamped
                        };
                        final(self).spec_rows() == old(self).spec_rows().update(
                            i,
                            Download { downloaded: kept as i64, speed, ..row },
                        )
                    })
                }
                Err(RegistryError::NotFound) => {
                    &&& !spec_has_id(old(self).spec_rows(), id@)
                    &&& *final(self) == *old(self)
                }
                Err(_) => false,
            },
    {
        let fi = match self.find_index(id) {
            Some(i) => i,
            None => {
                return Err(RegistryError::NotFound);
            }
        };
        proof {
            lemma_id_index(self.rows@, id@);
        }
        let ghost rows0 = self.rows@;
        let size = self.rows[fi].size;
        let is_completed = matches!(self.rows[fi].status, DownloadStatus::Completed);
        let cur = self.rows[fi].downloaded;
        let new_downloaded = if is_completed {
            cur
        } else if size > 0 && downloaded > size {
            size
        } else {
            downloaded
        };
        let row = &mut self.rows[fi];
        row.downloaded = new_downloaded;
        row.speed = speed;
        proof {
            lemma_count_dl_update(rows0, fi as int, self.rows@[fi as int]);
            lemma_count_dl_bounds(rows0);
            lemma_distinct_after_update(rows0, fi as int, self.rows@[fi as int]);
        }
        Ok(())
    }

    /// Records the discovered total size of a row that is not yet
    /// completed; the progress count is clamped into the new size.
    pub fn update_size(&mut self, id: &str, size: i64) -> (r: Result<(), RegistryError>)
        requires
            old(self).wf(),
            size >= 0,
        ensures
            final(self).wf(),
            final(self).spec_max_concurrent() == old(self).spec_max_concurrent(),
            match r {
                Ok(_) => {
                    &&& spec_has_id(old(self).spec_rows(), id@)
                    &&& ({
                        let i = spec_index_of_id(old(self).spec_rows(), id@);
                        let row = old(self).spec_rows()[i];
                        let clamped = if size > 0 && row.downloaded > size {
                            size as int
                        } else {
                            row.downloaded as int
                        };
                        &&& row.status != DownloadStatus::Completed
                        &&& final(self).spec_rows() == old(self).spec_rows().update(
                            i,
                            Download { size, downloaded: clamped as i64, ..row },
                        )
                    })
                }
                Err(RegistryError::NotFound) => {
                    &&& !spec_has_id(old(self).spec_rows(), id@)
                    &&& *final(self) == *old(self)
                }
                Err(RegistryError::NotPermitted) => {
                    &&& spec_has_id(old(self).spec_rows(), id@)
                    &&& old(self).spec_rows()[spec_index_of_id(old(self).spec_rows(), id@)].status
                        == DownloadStatus::Completed
                    &&& *final(self) == *old(self)
                }
                Err(_) => false,
            },
    {
        let fi = match self.find_index(id) {
            Some(i) => i,
            None => {
                return Err(RegistryError::NotFound);
            }
        };
        proof {
            lemma_id_index(self.rows@, id@);
        }
        if matches!(self.rows[fi].status, DownloadStatus::Completed) {
            return Err(RegistryError::NotPermitted);
        }
        let ghost rows0 = self.rows@;
        let cur = self.rows[fi].downloaded;
        let clamped = if size > 0 && cur > size {
            size
        } else {
            cur
        };
        let row = &mut self.rows[fi];
        row.size = size;
        row.downloaded = clamped;
        proof {
            lemma_count_dl_update(rows0, fi as int, self.rows@[fi as int]);
            lemma_count_dl_bounds(rows0);
            lemma_distinct_after_update(rows0, fi as int, self.rows@[fi as int]);
        }
        Ok(())
    }

    /// Removes a row entirely.
    pub fn delete_row(&mut self, id: &str) -> (r: Result<(), RegistryError>)
        requires
            old(self).wf(),
        ensures
            final(self).wf(),
            final(self).spec_max_concurrent() == old(self).spec_max_concurrent(),
            match r {
                Ok(_) => {
                    &&& spec_has_id(old(self).spec_rows(), id@)
                    &&& final(self).spec_rows() == old(self).spec_rows().remove(
                        spec_index_of_id(old(self).spec_rows(), id@),
                    )
                }
                Err(RegistryError::NotFound) => {
                    &&& !spec_has_id(old(self).spec_rows(), id@)
                    &&& *final(self) == *old(self)
                }
                Err(_) => false,
            },
    {
        let fi = match self.find_index(id) {
            Some(i) => i,
            None => {
                return Err(RegistryError::NotFound);
            }
        };
        proof {
            lemma_id_index(self.rows@, id@);
        }
        let ghost rows0 = self.rows@;
        self.rows.remove(fi);
        proof {
            lemma_count_dl_remove(rows0, fi as int);
            lemma_count_dl_bounds(rows0);
            assert forall|a: int, b: int| 0 <= a < b < self.rows@.len() implies (#[trigger] self
                .rows@[a]).id@ != (#[trigger] self.rows@[b]).id@ && self.rows@[a].filepath@
                != self.rows@[b].filepath@ by {
                let a0 = if a < fi {
                    a
                } else {
                    a + 1
                };
                let b0 = if b < fi {
                    b
                } else {
                    b + 1
                };
                assert(self.rows@[a] == rows0[a0]);
                assert(self.rows@[b] == rows0[b0]);
                assert(rows0[a0].id@ != rows0[b0].id@);
                assert(rows0[a0].filepath@ != rows0[b0].filepath@);
            }
        }
        Ok(())
    }

    /// The time scheduler's bulk pause: every running row becomes `Paused`
    /// with zero speed; every other row, queued ones included, stays as it
    /// is.
    pub fn pause_all(&mut self)
        requires
            old(self).wf(),
        ensures
            final(self).wf(),
            final(self).spec_max_concurrent() == old(self).spec_max_concurrent(),
            final(self).spec_rows().len() == old(self).spec_rows().len(),
            forall|j: int|
                0 <= j < old(self).spec_rows().len() ==> final(self).spec_rows()[j] == ({
                    let row = #[trigger] old(self).spec_rows()[j];
                    if row.status == DownloadStatus::Downloading {
                        Download { status: DownloadStatus::Paused, speed: 0, ..row }
                    } else {
                        row
                    }
                }),
    {
        let n = self.rows.len();
        let mut i: usize = 0;
        while i < n
            invariant
                1 <= self.max_concurrent == old(self).max_concurrent,
                n == self.rows@.len() == old(self).rows@.len(),
                i <= n,
                spec_rows_wf(self.rows@),
                spec_ids_distinct(self.rows@),
                spec_paths_distinct(self.rows@),
                spec_count_dl(self.rows@) <= self.max_concurrent,
                forall|j: int| i <= j < n ==> self.rows@[j] == old(self).rows@[j],
                forall|j: int|
                    0 <= j < i ==> self.rows@[j] == ({
                        let row = #[trigger] old(self).rows@[j];
                        if row.status == DownloadStatus::Downloading {
                            Download { status: DownloadStatus::Paused, speed: 0, ..row }
                        } else {
                            row
                        }
                    }),
            decreases n - i,
        {
            let st = self.rows[i].status;
            if matches!(st, DownloadStatus::Downloading) {
                let ghost rows0 = self.rows@;
                let row = &mut self.rows[i];
                row.status = DownloadStatus::Paused;
                row.speed = 0;
                proof {
                    lemma_count_dl_update(rows0, i as int, self.rows@[i as int]);
                    lemma_count_dl_bounds(rows0);
                    lemma_distinct_after_update(rows0, i as int, self.rows@[i as int]);
                }
            }
            i = i + 1;
        }
    }

    /// The time scheduler's bulk resume: waiting rows (paused or queued,
    /// never failed ones, whose retry stays with the user) start
    /// downloading oldest position first while slots are free; once every
    /// slot is busy the rest stay untouched, so a row still waiting
    /// afterwards means the registry is at its cap.
    pub fn resume_all(&mut self)
        requires
            old(self).wf(),
        ensures
            final(self).wf(),
            final(self).spec_max_concurrent() == old(self).spec_max_concurrent(),
            final(self).spec_rows().len() == old(self).spec_rows().len(),
            forall|j: int|
                0 <= j < old(self).spec_rows().len() ==> final(self).spec_rows()[j] == old(
                    self,
                ).spec_rows()[j] || ({
                    let row = #[trigger] old(self).spec_rows()[j];
                    &&& (row.status == DownloadStatus::Paused || row.status
                        == DownloadStatus::Queued)
                    &&& final(self).spec_rows()[j] == Download {
                        status: DownloadStatus::Downloading,
                        ..row
                    }
                }),
            forall|j: int|
                0 <= j < final(self).spec_rows().len() ==> ({
                    let row = #[trigger] final(self).spec_rows()[j];
                    (row.status == DownloadStatus::Paused || row.status == DownloadStatus::Queued)
                        ==> spec_count_dl(final(self).spec_rows()) == old(
                        self,
                    ).spec_max_concurrent()
                }),
    {
        let n = self.rows.len();
        let mut cnt = self.count_downloading();
        let mut i: usize = 0;
        while i < n
            invariant
                1 <= self.max_concurrent == old(self).max_concurrent,
                n == self.rows@.len() == old(self).rows@.len(),
                i <= n,
                spec_rows_wf(self.rows@),
                spec_ids_distinct(self.rows@),
                spec_paths_distinct(self.rows@),
                cnt == spec_count_dl(self.rows@),
                cnt <= self.max_concurrent,
                forall|j: int| i <= j < n ==> self.rows@[j] == old(self).rows@[j],
                forall|j: int|
                    0 <= j < i ==> self.rows@[j] == old(self).rows@[j] || ({
                        let row = #[trigger] old(self).rows@[j];
                        &&& (row.status == DownloadStatus::Paused || row.status
                            == DownloadStatus::Queued)
                        &&& self.rows@[j] == Download {
                            status: DownloadStatus::Downloading,
                            ..row
                        }
                    }),
                forall|j: int|
                    0 <= j < i && ((#[trigger] self.rows@[j]).status == DownloadStatus::Paused
                        || self.rows@[j].status == DownloadStatus::Queued) ==> cnt
                        == self.max_concurrent,
            decreases n - i,
        {
            let st = self.rows[i].status;
            let waiting = matches!(st, DownloadStatus::Paused) || matches!(
                st,
                DownloadStatus::Queued,
            );
            if waiting && cnt < self.max_concurrent {
                let ghost rows0 = self.rows@;
                let row = &mut self.rows[i];
                row.status = DownloadStatus::Downloading;
                proof {
                    lemma_count_dl_update(rows0, i as int, self.rows@[i as int]);
                    lemma_distinct_after_update(rows0, i as int, self.rows@[i as int]);
                }
                cnt = cnt + 1;
            }
            i = i + 1;
        }
    }

    /// Removes every completed and failed row, keeping the rest in order.
    pub fn clear_finished(&mut self)
        requires
            old(self).wf(),
        ensures
            final(self).wf(),
            final(self).spec_max_concurrent() == old(self).spec_max_concurrent(),
            final(self).spec_rows() == old(self).spec_rows().filter(
                |d: Download|
                    d.status != DownloadStatus::Completed && d.status != DownloadStatus::Error,
            ),
    {
        let ghost rows0 = self.rows@;
        let n = self.rows.len();
        let mut kept: Vec<Download> = Vec::new();
        let mut i: usize = 0;
        proof {
            reveal_with_fuel(Seq::filter, 2);
            assert(rows0.take(0).filter(
                |d: Download|
                    d.status != DownloadStatus::Completed && d.status != DownloadStatus::Error,
            ) =~= Seq::<Download>::empty());
        }
        while i < n
            invariant
                n == rows0.len(),
                rows0 == self.rows@,
                i <= n,
                kept@ == rows0.take(i as int).filter(
                    |d: Download|
                        d.status != DownloadStatus::Completed && d.status != DownloadStatus::Error,
                ),
            decreases n - i,
        {
            proof {
                reveal_with_fuel(Seq::filter, 2);
                assert(rows0.take(i + 1).drop_last() =~= rows0.take(i as int));
                assert(rows0.take(i + 1).last() == rows0[i as int]);
            }
            let keep = !matches!(self.rows[i].status, DownloadStatus::Completed)
                && !matches!(self.rows[i].status, DownloadStatus::Error);
            if keep {
                let row = self.rows[i].duplicate();
                kept.push(row);
            }
            i = i + 1;
        }
        proof {
            assert(rows0.take(n as int) =~= rows0);
        }
        self.rows = kept;
        proof {
            let pred = |d: Download|
                d.status != DownloadStatus::Completed && d.status != DownloadStatus::Error;
            lemma_filter_keeps_wf(rows0, pred, self.max_concurrent as int);
        }
    }

    /// The oldest queued row, by creation timestamp: the candidate for
    /// promotion when a slot frees up.
    pub fn next_queued(&self) -> (r: Option<usize>)
        ensures
            match r {
                Some(i) => {
                    &&& i < self.spec_rows().len()
                    &&& self.spec_rows()[i as int].status == DownloadStatus::Queued
                    &&& forall|j: int|
                        0 <= j < self.spec_rows().len() && (#[trigger] self.spec_rows()[j]).status
                            == DownloadStatus::Queued ==> spec_lex_le(
                            self.spec_rows()[i as int].created_at@,
                            self.spec_rows()[j].created_at@,
                        )
                }
                None => forall|j: int|
                    0 <= j < self.spec_rows().len() ==> (#[trigger] self.spec_rows()[j]).status
                        != DownloadStatus::Queued,
            },
    {
        let n = self.rows.len();
        let mut best: Option<usize> = None;
        let mut i: usize = 0;
        while i < n
            invariant
                n == self.rows@.len(),
                i <= n,
                match best {
                    Some(b) => {
                        &&& b < i
                        &&& self.rows@[b as int].status == DownloadStatus::Queued
                        &&& forall|j: int|
                            0 <= j < i && (#[trigger] self.rows@[j]).status
                                == DownloadStatus::Queued ==> spec_lex_le(
                                self.rows@[b as int].created_at@,
                                self.rows@[j].created_at@,
                            )
                    }
                    None => forall|j: int|
                        0 <= j < i ==> (#[trigger] self.rows@[j]).status != DownloadStatus::Queued,
                },
            decreases n - i,
    {
            if matches!(self.rows[i].status, DownloadStatus::Queued) {
                match best {
                    Some(b) => {
                        proof {
                            lemma_lex_le_total(
                                self.rows@[i as int].created_at@,
                                self.rows@[b as int].created_at@,
                            );
                            lemma_lex_le_total(
                                self.rows@[i as int].created_at@,
                                self.rows@[i as int].created_at@,
                            );
                            lemma_lex_le_trans_all();
                        }
                        let newer = str_lex_le(
                            self.rows[i].created_at.as_str(),
                            self.rows[b].created_at.as_str(),
                        ) && !str_lex_le(
                            self.rows[b].created_at.as_str(),
                            self.rows[i].created_at.as_str(),
                        );
                        if newer {
                            best = Some(i);
                        }
                    }
                    None => {
                        proof {
                            lemma_lex_le_total(
                                self.rows@[i as int].created_at@,
                                self.rows@[i as int].created_at@,
                            );
                        }
                        best = Some(i);
                    }
                }
            }
            i = i + 1;
        }
        best
    }

    /// Promotes the oldest queued row into a free slot, returning its id;
    /// nothing happens when every slot is busy or nothing is queued.
    #[verifier::rlimit(60)]
    pub fn promote_next(&mut self) -> (r: Option<String>)
        requires
            old(self).wf(),
        ensures
            final(self).wf(),
            final(self).spec_max_concurrent() == old(self).spec_max_concurrent(),
            match r {
                Some(id) => {
                    &&& spec_count_dl(old(self).spec_rows()) < old(self).spec_max_concurrent()
                    &&& exists|i: int|
                        {
                            &&& 0 <= i < old(self).spec_rows().len()
                            &&& (#[trigger] old(self).spec_rows()[i]).status
                                == DownloadStatus::Queued
                            &&& old(self).spec_rows()[i].id@ == id@
                            &&& final(self).spec_rows() == old(self).spec_rows().update(
                                i,
                                Download {
                                    status: DownloadStatus::Downloading,
                                    ..old(self).spec_rows()[i]
                                },
                            )
                            &&& forall|j: int|
                                0 <= j < old(self).spec_rows().len() && (#[trigger] old(
                                    self,
                                ).spec_rows()[j]).status == DownloadStatus::Queued ==> spec_lex_le(
                                    old(self).spec_rows()[i].created_at@,
                                    old(self).spec_rows()[j].created_at@,
                                )
                        }
                }
                None => {
                    &&& *final(self) == *old(self)
                    &&& (spec_count_dl(old(self).spec_rows()) >= old(self).spec_max_concurrent()
                        || forall|j: int|
                        0 <= j < old(self).spec_rows().len() ==> (#[trigger] old(
                            self,
                        ).spec_rows()[j]).status != DownloadStatus::Queued)
                }
            },
    {
        if self.count_downloading() >= self.max_concurrent {
            return None;
        }
        let bi = match self.next_queued() {
            Some(i) => i,
            None => {
                return None;
            }
        };
        let id_out = self.rows[bi].id.clone();
        let ghost rows0 = self.rows@;
        let row = &mut self.rows[bi];
        row.status = DownloadStatus::Downloading;
        proof {
            lemma_count_dl_update(rows0, bi as int, self.rows@[bi as int]);
            lemma_distinct_after_update(rows0, bi as int, self.rows@[bi as int]);
            assert(self.rows@ =~= rows0.update(
                bi as int,
                Download { status: DownloadStatus::Downloading, ..rows0[bi as int] },
            ));
        }
        Some(id_out)
    }
}

proof fn lemma_filter_elem_in(s: Seq<Download>, pred: spec_fn(Download) -> bool, a: int)
    requires
        0 <= a < s.filter(pred).len(),
    ensures
        exists|j: int| 0 <= j < s.len() && s[j] == s.filter(pred)[a],
    decreases s.len(),
{
    reveal_with_fuel(Seq::filter, 2);
    s.lemma_filter_len(pred);
    if s.len() > 0 {
        let p = s.drop_last();
        let f = s.filter(pred);
        let fp = p.filter(pred);
        if pred(s.last()) {
            assert(f == fp.push(s.last()));
            if a < fp.len() {
                lemma_filter_elem_in(p, pred, a);
                let j = choose|j: int| 0 <= j < p.len() && p[j] == fp[a];
                assert(s[j] == f[a]);
            } else {
                assert(s[s.len() - 1] == f[a]);
            }
        } else {
            assert(f == fp);
            lemma_filter_elem_in(p, pred, a);
            let j = choose|j: int| 0 <= j < p.len() && p[j] == fp[a];
            assert(s[j] == f[a]);
        }
    }
}

proof fn lemma_filter_keeps_wf(rows: Seq<Download>, pred: spec_fn(Download) -> bool, max: int)
    requires
        spec_rows_wf(rows),
        spec_ids_distinct(rows),
        spec_paths_distinct(rows),
        spec_count_dl(rows) <= max,
    ensures
        spec_rows_wf(rows.filter(pred)),
        spec_ids_distinct(rows.filter(pred)),
        spec_paths_distinct(rows.filter(pred)),
        spec_count_dl(rows.filter(pred)) <= spec_count_dl(rows) <= max,
    decreases rows.len(),
{
    reveal_with_fuel(Seq::filter, 2);
    lemma_count_dl_bounds(rows);
    if rows.len() > 0 {
        let p = rows.drop_last();
        let last = rows.last();
        assert(forall|i: int| 0 <= i < p.len() ==> p[i] == rows[i]);
        lemma_count_dl_bounds(p);
        lemma_filter_keeps_wf(p, pred, spec_count_dl(p));
        let fp = p.filter(pred);
        let f = rows.filter(pred);
        if pred(last) {
            assert(f == fp.push(last));
            lemma_count_dl_push(fp, last);
            assert(forall|i: int| 0 <= i < fp.len() ==> f[i] == fp[i]);
            assert(f.last() == last);
            assert forall|a: int, b: int| 0 <= a < b < f.len() implies (#[trigger] f[a]).id@
                != (#[trigger] f[b]).id@ && f[a].filepath@ != f[b].filepath@ by {
                if b < fp.len() {
                    assert(fp[a].id@ != fp[b].id@);
                    assert(fp[a].filepath@ != fp[b].filepath@);
                } else {
                    lemma_filter_elem_in(p, pred, a);
                    let j = choose|j: int| 0 <= j < p.len() && p[j] == fp[a];
                    assert(p[j] == f[a]);
                    assert(rows[j].id@ != rows[rows.len() - 1].id@);
                    assert(rows[j].filepath@ != rows[rows.len() - 1].filepath@);
                }
            }
        } else {
            assert(f == fp);
        }
    }
}

proof fn lemma_count_dl_remove(rows: Seq<Download>, i: int)
    requires
        0 <= i < rows.len(),
    ensures
        spec_count_dl(rows.remove(i)) == spec_count_dl(rows) - (if spec_is_dl(rows[i]) {
            1int
        } else {
            0int
        }),
    decreases rows.len(),
{
    if i == rows.len() - 1 {
        assert(rows.remove(i) =~= rows.drop_last());
    } else {
        assert(rows.remove(i).drop_last() =~= rows.drop_last().remove(i));
        assert(rows.remove(i).last() == rows.last());
        lemma_count_dl_remove(rows.drop_last(), i);
    }
}

proof fn lemma_char_code_eq(c1: char, c2: char)
    requires
        c1 as u32 == c2 as u32,
    ensures
        c1 == c2,
{
    vstd::utf8::char_u32_cast(c1, c1 as u32);
    vstd::utf8::char_u32_cast(c2, c2 as u32);
}

/// Lexicographic order is total: two strings always compare one way.
proof fn lemma_lex_le_total(a: Seq<char>, b: Seq<char>)
    ensures
        spec_lex_le(a, b) || spec_lex_le(b, a),
    decreases a.len(),
{
    if a.len() > 0 && b.len() > 0 {
        if (a.first() as u32) == (b.first() as u32) {
            lemma_char_code_eq(a.first(), b.first());
            lemma_lex_le_total(a.drop_first(), b.drop_first());
        }
    }
}

proof fn lemma_lex_le_trans(a: Seq<char>, b: Seq<char>, c: Seq<char>)
    requires
        spec_lex_le(a, b),
        spec_lex_le(b, c),
    ensures
        spec_lex_le(a, c),
    decreases a.len(),
{
    if a.len() > 0 && b.len() > 0 && c.len() > 0 {
        if (a.first() as u32) == (b.first() as u32) && (b.first() as u32) == (c.first() as u32) {
            lemma_char_code_eq(a.first(), b.first());
            lemma_char_code_eq(b.first(), c.first());
            lemma_lex_le_trans(a.drop_first(), b.drop_first(), c.drop_first());
        }
    }
}

proof fn lemma_lex_le_trans_all()
    ensures
        forall|a: Seq<char>, b: Seq<char>, c: Seq<char>|
            #[trigger] spec_lex_le(a, b) && #[trigger] spec_lex_le(b, c) ==> spec_lex_le(a, c),
{
    assert forall|a: Seq<char>, b: Seq<char>, c: Seq<char>|
        #[trigger] spec_lex_le(a, b) && #[trigger] spec_lex_le(b, c) implies spec_lex_le(a, c) by {
        lemma_lex_le_trans(a, b, c);
    }
}

} // verus!
