//! Finding the server that belongs to the current directory: the decisions of
//! the discovery sequence, taken one outcome at a time.
//!
//! Listing processes, probing a port and canonicalising paths are done by the
//! caller; each result is handed back here, and the next step says what to do.

use vstd::prelude::*;
use crate::port::{cmdline_port, extract_port_from_cmdline, port_flag};
use crate::text::{chars_of, contains_chars, occurs_in};

verus! {

/// A located server: its process id (0 when not known), its port and its
/// working directory.
#[derive(Debug, Clone)]
pub struct Server {
    pub pid: u32,
    pub port: u16,
    pub cwd: String,
}

/// Body of the server's path-introspection answer.
#[derive(Debug, Clone)]
pub struct PathResponse {
    pub directory: Option<String>,
    pub worktree: Option<String>,
}

/// Why a port could not be confirmed as a server.
#[derive(Debug, Clone)]
pub enum ValidationError {
    /// The request could not be completed; the text says why.
    Connection(String),
    /// The server answered without a working directory.
    Protocol,
}

/// Why no server was found.
#[derive(Debug, Clone)]
pub enum DiscoveryError {
    /// No process of the tool runs with a `--port` flag.
    NoProcesses,
    /// Every candidate answered, none for this directory.
    NoMatch,
    /// The last candidate that failed validation, and why.
    Unreachable(ValidationError),
    /// The port given explicitly did not answer as a server.
    PortNotResponding { port: u16, error: ValidationError },
}

/// A process that may be a server: its id and its joined command line.
#[derive(Debug, Clone)]
pub struct Candidate {
    pub pid: u32,
    pub cmdline: String,
}

/// What probing the current candidate gave.
#[derive(Debug, Clone)]
pub enum Outcome {
    /// Validation failed.
    Failed(ValidationError),
    /// Validation succeeded; the two directories are given canonicalised (or
    /// as they were, where that failed) for the comparison.
    Reached { server: Server, server_dir: String, cwd: String },
}

/// What the caller does next.
#[derive(Debug, Clone)]
pub enum Step {
    /// Validate the server on `port`, found in candidate `index`.
    Probe { index: usize, port: u16 },
    /// Discovery is over: this server matches.
    Found(Server),
    /// Discovery is over without a server.
    Failed(DiscoveryError),
}

/// The name of the tool whose servers are looked for.
pub open spec fn tool_name() -> Seq<char> {
    seq!['o', 'p', 'e', 'n', 'c', 'o', 'd', 'e']
}

/// A command line belongs to a candidate when it names the tool and holds
/// `--port`.
pub open spec fn candidate_line(cmdline: Seq<char>) -> bool {
    occurs_in(cmdline, tool_name()) && occurs_in(cmdline, port_flag())
}

/// Process ids and command lines of a process listing.
pub open spec fn listing(procs: Seq<(u32, String)>) -> Seq<(u32, Seq<char>)> {
    procs.map_values(|p: (u32, String)| (p.0, p.1@))
}

/// Process ids and command lines of candidates.
pub open spec fn candidate_lines(cands: Seq<Candidate>) -> Seq<(u32, Seq<char>)> {
    cands.map_values(|c: Candidate| (c.pid, c.cmdline@))
}

/// Whether the joined command line `cmdline` is that of a candidate.
pub fn is_candidate(cmdline: &str) -> (r: bool)
    ensures
        r == candidate_line(cmdline@),
{
    let t = chars_of(cmdline);
    let name: Vec<char> = vec!['o', 'p', 'e', 'n', 'c', 'o', 'd', 'e'];
    let flag: Vec<char> = vec!['-', '-', 'p', 'o', 'r', 't'];
    assert(name@ == tool_name());
    assert(flag@ == port_flag());
    contains_chars(&t, &name) && contains_chars(&t, &flag)
}

/// The candidates of a process listing (process id and joined command line),
/// in the order of the listing.
pub fn select_candidates(procs: &Vec<(u32, String)>) -> (r: Vec<Candidate>)
    ensures
        candidate_lines(r@) == listing(procs@).filter(|p: (u32, Seq<char>)| candidate_line(p.1)),
{
    let ghost pred = |p: (u32, Seq<char>)| candidate_line(p.1);
    let mut r: Vec<Candidate> = Vec::new();
    let mut i: usize = 0;
    while i < procs.len()
        invariant
            i <= procs@.len(),
            pred == (|p: (u32, Seq<char>)| candidate_line(p.1)),
            candidate_lines(r@) == listing(procs@).take(i as int).filter(pred),
        decreases procs.len() - i,
    {
        let ghost item = listing(procs@)[i as int];
        proof {
            assert(listing(procs@).take(i + 1) == listing(procs@).take(i as int).push(item));
            listing(procs@).take(i as int).lemma_filter_push(item, pred);
        }
        let pid = procs[i].0;
        if is_candidate(procs[i].1.as_str()) {
            let ghost before = r@;
            let cmdline = procs[i].1.clone();
            r.push(Candidate { pid, cmdline });
            assert(candidate_lines(r@) =~= candidate_lines(before).push(item));
        }
        i = i + 1;
    }
    assert(listing(procs@).take(i as int) == listing(procs@));
    r
}

/// Result of validating `port` from the body of its path answer: the working
/// directory is `directory` if present, else `worktree`.
pub open spec fn validated(port: u16, resp: PathResponse) -> Result<Server, ValidationError> {
    match resp.directory {
        Some(d) => Ok(Server { pid: 0, port, cwd: d }),
        None => match resp.worktree {
            Some(w) => Ok(Server { pid: 0, port, cwd: w }),
            None => Err(ValidationError::Protocol),
        },
    }
}

/// Turns the path answer of the server on `port` into a located server.
pub fn server_from_path(port: u16, resp: PathResponse) -> (r: Result<Server, ValidationError>)
    ensures
        r == validated(port, resp),
{
    match resp.directory {
        Some(d) => Ok(Server { pid: 0, port, cwd: d }),
        None => match resp.worktree {
            Some(w) => Ok(Server { pid: 0, port, cwd: w }),
            None => Err(ValidationError::Protocol),
        },
    }
}

/// Result of discovery when the port was given: the validation result, its
/// error naming the port.
pub fn explicit_port_result(port: u16, r: Result<Server, ValidationError>) -> (res: Result<
    Server,
    DiscoveryError,
>)
    ensures
        res == match r {
            Ok(s) => Ok::<Server, DiscoveryError>(s),
            Err(e) => Err(DiscoveryError::PortNotResponding { port, error: e }),
        },
{
    match r {
        Ok(s) => Ok(s),
        Err(e) => Err(DiscoveryError::PortNotResponding { port, error: e }),
    }
}

/// Whether `path` starts with `base`, whole components at a time, as
/// `std::path::Path::starts_with` tells.
pub uninterp spec fn path_starts_with(path: Seq<char>, base: Seq<char>) -> bool;

/// Relies on `std::path::Path::starts_with`: the answer depends on the two
/// paths alone, and a path starts with itself.
#[verifier::external_body]
fn starts_with_path(path: &str, base: &str) -> (r: bool)
    ensures
        r == path_starts_with(path@, base@),
        path@ == base@ ==> r,
{
    std::path::Path::new(path).starts_with(std::path::Path::new(base))
}

/// Two directories are related when one is the other or lies inside it.
pub open spec fn dirs_related(cwd: Seq<char>, server_dir: Seq<char>) -> bool {
    path_starts_with(cwd, server_dir) || path_starts_with(server_dir, cwd)
}

/// Whether a server working in `server_dir` serves the directory `cwd`.
pub fn directories_match(cwd: &str, server_dir: &str) -> (r: bool)
    ensures
        r == dirs_related(cwd@, server_dir@),
{
    starts_with_path(cwd, server_dir) || starts_with_path(server_dir, cwd)
}

/// The directory test does not depend on which side is the caller's.
pub proof fn lemma_directory_match_symmetric(a: Seq<char>, b: Seq<char>)
    ensures
        dirs_related(a, b) == dirs_related(b, a),
{
}

/// Index of the first candidate, from `from` on, whose command line names a port.
pub open spec fn next_probe(cands: Seq<Candidate>, from: int) -> Option<int>
    decreases cands.len() - from,
{
    if from < 0 || from >= cands.len() {
        None
    } else if cmdline_port(cands[from].cmdline@) is Some {
        Some(from)
    } else {
        next_probe(cands, from + 1)
    }
}

/// The error when the candidates are exhausted: the last validation error, or
/// no match.
pub open spec fn exhausted(last: Option<ValidationError>) -> DiscoveryError {
    match last {
        Some(e) => DiscoveryError::Unreachable(e),
        None => DiscoveryError::NoMatch,
    }
}

/// The step taken when looking for a candidate from `from` on.
pub open spec fn step_from(cands: Seq<Candidate>, from: int, last: Option<ValidationError>) -> Step {
    match next_probe(cands, from) {
        Some(i) => match cmdline_port(cands[i].cmdline@) {
            Some(p) => Step::Probe { index: i as usize, port: p },
            None => Step::Failed(exhausted(last)),
        },
        None => Step::Failed(exhausted(last)),
    }
}

/// The state of one discovery run over a list of candidates.
pub struct Discovery {
    pub candidates: Vec<Candidate>,
    /// The candidate being probed.
    pub pos: usize,
    /// The error of the last candidate that failed validation.
    pub last_error: Option<ValidationError>,
}

impl Discovery {
    /// A run over `candidates`, in the order the scan listed them.
    pub fn new(candidates: Vec<Candidate>) -> (r: Discovery)
        ensures
            r.candidates == candidates,
            r.pos == 0,
            r.last_error is None,
    {
        Discovery { candidates, pos: 0, last_error: None }
    }

    fn advance(&mut self, from: usize) -> (r: Step)
        requires
            from <= old(self).candidates@.len(),
        ensures
            final(self).candidates == old(self).candidates,
            r == step_from(old(self).candidates@, from as int, old(self).last_error),
            r matches Step::Probe { index, port } ==> final(self).pos == index
                && final(self).last_error == old(self).last_error,
    {
        let mut i: usize = from;
        while i < self.candidates.len()
            invariant
                from <= i <= self.candidates@.len(),
                self.candidates == old(self).candidates,
                self.last_error == old(self).last_error,
                next_probe(self.candidates@, from as int) == next_probe(self.candidates@, i as int),
            decreases self.candidates.len() - i,
        {
            match extract_port_from_cmdline(self.candidates[i].cmdline.as_str()) {
                Some(port) => {
                    self.pos = i;
                    return Step::Probe { index: i, port };
                },
                None => {},
            }
            i = i + 1;
        }
        match self.last_error.take() {
            Some(e) => Step::Failed(DiscoveryError::Unreachable(e)),
            None => Step::Failed(DiscoveryError::NoMatch),
        }
    }

    /// The first step of a run: no candidates at all is a failure of its own;
    /// otherwise, probe the first candidate that names a port.
    pub fn start(&mut self) -> (r: Step)
        requires
            old(self).last_error is None,
        ensures
            final(self).candidates == old(self).candidates,
            old(self).candidates@.len() == 0 ==> r == Step::Failed(DiscoveryError::NoProcesses),
            old(self).candidates@.len() > 0 ==> r == step_from(old(self).candidates@, 0, None),
            r matches Step::Probe { index, port } ==> final(self).pos == index
                && final(self).last_error is None,
    {
        if self.candidates.len() == 0 {
            return Step::Failed(DiscoveryError::NoProcesses);
        }
        self.advance(0)
    }

    /// The step after probing the current candidate: a server whose directory
    /// is related to the caller's is the result, with the candidate's process
    /// id; a failure is recorded; either way the next candidate is looked for.
    pub fn on_outcome(&mut self, outcome: Outcome) -> (r: Step)
        requires
            old(self).pos < old(self).candidates@.len(),
        ensures
            final(self).candidates == old(self).candidates,
            r == match outcome {
                Outcome::Failed(e) => step_from(
                    old(self).candidates@,
                    old(self).pos + 1,
                    Some(e),
                ),
                Outcome::Reached { server, server_dir, cwd } => if dirs_related(
                    cwd@,
                    server_dir@,
                ) {
                    Step::Found(
                        Server {
                            pid: old(self).candidates@[old(self).pos as int].pid,
                            port: server.port,
                            cwd: server.cwd,
                        },
                    )
                } else {
                    step_from(old(self).candidates@, old(self).pos + 1, old(self).last_error)
                },
            },
            r matches Step::Probe { index, port } ==> final(self).pos == index
                && final(self).last_error == match outcome {
                Outcome::Failed(e) => Some(e),
                Outcome::Reached { .. } => old(self).last_error,
            },
    {
        let n = self.candidates.len();
        assert(self.pos < n);
        let next = self.pos + 1;
        match outcome {
            Outcome::Failed(e) => {
                self.last_error = Some(e);
                self.advance(next)
            },
            Outcome::Reached { server, server_dir, cwd } => {
                if directories_match(cwd.as_str(), server_dir.as_str()) {
                    let pid = self.candidates[self.pos].pid;
                    Step::Found(Server { pid, port: server.port, cwd: server.cwd })
                } else {
                    self.advance(next)
                }
            },
        }
    }
}

} // verus!
