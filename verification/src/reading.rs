//! Reading the current values: one read per control file, in order, until the
//! first failure. The reads themselves are made by the caller; a session says
//! which file is due and takes what was found in it. A path that names no core
//! is passed over without a read.

use crate::discovery::AmdEppMgr;
use crate::location::{core_index_of_path, path_core_index, paths_of, CoreIndex};
use crate::report::{collect, report_of, report_readings, FileReading, ProfileReport, Reading, Report};
use crate::sorting::views;
use vstd::prelude::*;

verus! {

/// The state of a session: the files at `paths` are to be read; `readings`
/// holds what is known of the first of them, one reading for each.
pub struct ReadState {
    pub paths: Seq<Seq<char>>,
    pub readings: Seq<Reading>,
}

impl ReadState {
    /// Whether the session goes on: a path is left and no reading has given
    /// an error.
    pub open spec fn goes_on(self) -> bool {
        self.readings.len() < self.paths.len() && collect(self.readings).outcome is Ok
    }

    /// The next path.
    pub open spec fn next_path(self) -> Seq<char> {
        self.paths[self.readings.len() as int]
    }

    /// The reading of a path whose file is not read.
    pub open spec fn unread(path: Seq<char>) -> Reading {
        Reading { path, content: Err(Seq::empty()) }
    }

    /// The state once every path that needs no read has been dealt with: as
    /// long as the session goes on and the next path is not that of a core's
    /// control file, the path is taken note of without a read.
    pub open spec fn settle(self) -> ReadState
        decreases self.paths.len() - self.readings.len(),
    {
        if self.goes_on() && !(path_core_index(self.next_path()) is Index) {
            (ReadState { readings: self.readings.push(Self::unread(self.next_path())), ..self }).settle()
        } else {
            self
        }
    }

    /// The state in which a session begins.
    pub open spec fn begin(paths: Seq<Seq<char>>) -> ReadState {
        (ReadState { paths, readings: Seq::empty() }).settle()
    }

    /// The path of the file that is due to be read, if one is.
    pub open spec fn pending(self) -> Option<Seq<char>> {
        if self.goes_on() && path_core_index(self.next_path()) is Index {
            Some(self.next_path())
        } else {
            None
        }
    }

    /// The state after the read that was due gave `content`. Where no read
    /// was due, nothing changes.
    pub open spec fn record(self, content: Result<Seq<char>, Seq<char>>) -> ReadState {
        match self.pending() {
            None => self,
            Some(path) => (ReadState {
                readings: self.readings.push(Reading { path, content }),
                ..self
            }).settle(),
        }
    }

    /// The report of the session, once no read is due any more.
    pub open spec fn result(self) -> Option<Report> {
        if self.pending() is Some {
            None
        } else {
            Some(report_of(self.readings))
        }
    }
}

/// A session that reads the control files of a manager.
pub struct ReadSession {
    paths: Vec<String>,
    readings: Vec<FileReading>,
}

impl View for ReadSession {
    type V = ReadState;

    closed spec fn view(&self) -> ReadState {
        ReadState { paths: views(self.paths@), readings: views(self.readings@) }
    }
}

impl AmdEppMgr {
    /// Begins to read the current value of every core, in order.
    pub fn read_profile(&self) -> (session: ReadSession)
        ensures
            session@ == ReadState::begin(paths_of(self@)),
    {
        let mut paths: Vec<String> = Vec::new();
        let mut i: usize = 0;
        while i < self.locations.len()
            invariant
                i <= self.locations@.len(),
                paths@.len() == i,
                forall|j: int| 0 <= j < i ==> (#[trigger] paths@[j])@ == self.locations@[j].path@,
            decreases self.locations.len() - i,
        {
            paths.push(self.locations[i].path.clone());
            i = i + 1;
        }
        let mut session: ReadSession = ReadSession { paths, readings: Vec::new() };
        proof {
            assert(views(session.paths@) =~= paths_of(self@));
            assert(views(session.readings@) =~= Seq::<Reading>::empty());
        }
        session.settle();
        session
    }
}

impl ReadSession {
    /// Whether a reading has given an error.
    fn failed(&self) -> (failed: bool)
        ensures
            failed == (collect(self@.readings).outcome is Err),
    {
        let mut i: usize = 0;
        proof {
            assert(views(self.readings@).take(0) =~= Seq::<Reading>::empty());
        }
        while i < self.readings.len()
            invariant
                i <= self.readings@.len(),
                collect(views(self.readings@).take(i as int)).outcome is Ok,
            decreases self.readings.len() - i,
        {
            let reading: &FileReading = &self.readings[i];
            proof {
                let seen: Seq<Reading> = views(self.readings@).take(i as int + 1);
                assert(seen.drop_last() =~= views(self.readings@).take(i as int));
                assert(seen.last() == reading@);
            }
            let bad: bool = match core_index_of_path(reading.path.as_str()) {
                CoreIndex::Absent => false,
                CoreIndex::Malformed(_) => true,
                CoreIndex::Index(_) => reading.content.is_err(),
            };
            if bad {
                proof {
                    crate::report::lemma_collect_stays_failed(views(self.readings@), i as int + 1);
                }
                return true;
            }
            i = i + 1;
        }
        proof {
            assert(views(self.readings@).take(i as int) =~= views(self.readings@));
        }
        false
    }

    /// Deals with every path that needs no read.
    fn settle(&mut self)
        ensures
            final(self)@ == old(self)@.settle(),
    {
        loop
            invariant
                self@.settle() == old(self)@.settle(),
            decreases self.paths@.len() - self.readings@.len(),
        {
            let n: usize = self.readings.len();
            if n >= self.paths.len() || self.failed() {
                return ;
            }
            match core_index_of_path(self.paths[n].as_str()) {
                CoreIndex::Index(_) => { return ; },
                _ => {},
            }
            let ghost before: ReadState = self@;
            let path: String = self.paths[n].clone();
            self.readings.push(FileReading { path, content: Err(String::new()) });
            proof {
                assert(views(self.readings@) =~= before.readings.push(
                    ReadState::unread(before.next_path()),
                ));
            }
        }
    }

    /// The path of the file that is due to be read, if one is.
    pub fn pending(&self) -> (path: Option<String>)
        ensures
            match path {
                Some(p) => self@.pending() == Some(p@),
                None => self@.pending() is None,
            },
    {
        let n: usize = self.readings.len();
        if n >= self.paths.len() || self.failed() {
            return None;
        }
        match core_index_of_path(self.paths[n].as_str()) {
            CoreIndex::Index(_) => Some(self.paths[n].clone()),
            _ => None,
        }
    }

    /// Takes what the read that was due has given: the contents of the file,
    /// or why it could not be read.
    pub fn record(&mut self, content: Result<String, String>)
        ensures
            final(self)@ == old(self)@.record(
                match content {
                    Ok(text) => Ok(text@),
                    Err(cause) => Err(cause@),
                },
            ),
    {
        match self.pending() {
            None => {},
            Some(path) => {
                let ghost before: ReadState = self@;
                let reading: FileReading = FileReading { path, content };
                self.readings.push(reading);
                proof {
                    assert(views(self.readings@) =~= before.readings.push(reading@));
                }
                self.settle();
            },
        }
    }

    /// The report of the session, once no read is due any more: the paths
    /// that were passed over, and the lines of the report or the error that
    /// ended the session.
    pub fn result(&self) -> (report: Option<ProfileReport>)
        ensures
            match report {
                Some(r) => self@.result() == Some(r@),
                None => self@.result() is None,
            },
    {
        match self.pending() {
            Some(_) => None,
            None => Some(report_readings(&self.readings)),
        }
    }
}

} // verus!
