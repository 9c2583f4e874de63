//! Finding the process to measure: first from a file that holds its
//! identifier, then from a listing of the running processes.
//!
//! Reading the file, asking whether a process is alive and listing processes
//! are left to the caller. [`Locator`] says which of them to do next and takes
//! what came of it.

use crate::chars::{chars_of, first_token, first_token_bounds, trim, trim_bounds};
use crate::error::BenchmarkError;
use crate::number::{decimal, parse_radix, parse_unsigned, push_decimal};
use vstd::prelude::*;

verus! {

/// The name by which the process is looked for in the listing.
pub const PROCESS_NAME: &'static str = "hackmud";

/// The file that holds the identifier of the process, written by another tool.
pub const IDENTIFIER_FILE: &'static str = "/home/jacob/hackmud/scanner.pid";

/// The identifier of a process: a positive number.
#[derive(Clone, Copy, Debug, PartialEq, Eq, Structural)]
pub struct ProcessId {
    value: u32,
}

impl ProcessId {
    #[verifier::type_invariant]
    spec fn positive(self) -> bool {
        self.value > 0
    }

    /// The number of the process.
    pub closed spec fn number(self) -> nat {
        self.value as nat
    }

    /// The identifier with the given number; zero identifies no process.
    pub fn new(value: u32) -> (pid: Option<ProcessId>)
        ensures
            pid is Some == (value > 0),
            pid is Some ==> pid.unwrap().number() == value,
    {
        if value > 0 {
            Some(ProcessId { value })
        } else {
            None
        }
    }

    /// The number of the process.
    pub fn get(&self) -> (value: u32)
        ensures
            value == self.number(),
            value > 0,
    {
        proof {
            use_type_invariant(self);
        }
        self.value
    }
}

/// The identifier that a piece of text writes: a positive decimal number of 32
/// bits, with an optional `+` in front.
pub open spec fn identifier_of(text: Seq<char>) -> Option<nat> {
    match parse_unsigned(text, 10, u32::MAX as nat) {
        Some(number) => if number > 0 {
            Some(number)
        } else {
            None
        },
        None => None,
    }
}

/// The identifier in the content of the identifier file: the whole content,
/// white space at its ends aside.
pub open spec fn cached_identifier(content: Seq<char>) -> Option<nat> {
    identifier_of(trim(content))
}

/// The identifier in the output of the process listing: its first field.
pub open spec fn listed_identifier(output: Seq<char>) -> Option<nat> {
    identifier_of(first_token(output))
}

/// The number of an identifier that may be missing.
pub open spec fn optional_number(pid: Option<ProcessId>) -> Option<nat> {
    match pid {
        Some(p) => Some(p.number()),
        None => None,
    }
}

/// The characters of a text that may be missing.
pub open spec fn optional_text(text: Option<&str>) -> Option<Seq<char>> {
    match text {
        Some(t) => Some(t@),
        None => None,
    }
}

fn identifier_in_window(chars: &[char], from: usize, to: usize) -> (pid: Option<ProcessId>)
    requires
        from <= to <= chars@.len(),
    ensures
        optional_number(pid) == identifier_of(chars@.subrange(from as int, to as int)),
{
    match parse_radix(chars, from, to, 10, 0xffff_ffff) {
        Some(number) => ProcessId::new(number as u32),
        None => None,
    }
}

/// Reads the content of the identifier file.
pub fn parse_cached_identifier(content: &str) -> (pid: Option<ProcessId>)
    ensures
        optional_number(pid) == cached_identifier(content@),
{
    let chars = chars_of(content);
    assert(chars@.subrange(0, chars@.len() as int) =~= content@);
    let (from, to) = trim_bounds(chars.as_slice(), 0, chars.len());
    identifier_in_window(chars.as_slice(), from, to)
}

/// Reads the output of the process listing.
pub fn parse_listed_identifier(output: &str) -> (pid: Option<ProcessId>)
    ensures
        optional_number(pid) == listed_identifier(output@),
{
    let chars = chars_of(output);
    assert(chars@.subrange(0, chars@.len() as int) =~= output@);
    let (from, to) = first_token_bounds(chars.as_slice(), 0, chars.len());
    identifier_in_window(chars.as_slice(), from, to)
}

/// The path of the per-process file `name` of the process `number`.
pub open spec fn process_path(number: nat, name: Seq<char>) -> Seq<char> {
    "/proc/"@ + decimal(number) + "/"@ + name
}

/// The path under which the memory of a process can be opened.
pub fn memory_path(pid: ProcessId) -> (path: String)
    ensures
        path@ == process_path(pid.number(), "mem"@),
{
    let mut path = String::from_str("/proc/");
    push_decimal(&mut path, pid.get() as u64);
    path.append("/");
    path.append("mem");
    path
}

/// The path under which the region map of a process can be read.
pub fn map_path(pid: ProcessId) -> (path: String)
    ensures
        path@ == process_path(pid.number(), "maps"@),
{
    let mut path = String::from_str("/proc/");
    push_decimal(&mut path, pid.get() as u64);
    path.append("/");
    path.append("maps");
    path
}

/// Where the search for the process stands.
#[derive(Clone, Copy, Debug, PartialEq, Eq, Structural)]
pub enum Locator {
    /// The content of the identifier file is awaited.
    ReadingIdentifierFile,
    /// The file named this process; whether it is alive is awaited.
    CheckingLiveness(ProcessId),
    /// The output of the process listing is awaited.
    ListingProcesses,
    /// The search ended with this process.
    Found(ProcessId),
    /// The search ended without a process.
    NotFound,
}

/// What the caller of a [`Locator`] has to do next.
#[derive(Clone, Copy, Debug, PartialEq, Eq, Structural)]
pub enum LocatorAction {
    /// Read the identifier file and hand its content to
    /// [`Locator::on_identifier_file`].
    ReadIdentifierFile,
    /// Find out whether the memory of this process can be reached and hand the
    /// answer to [`Locator::on_liveness`].
    CheckLiveness(ProcessId),
    /// List the processes of the wanted name and hand the output to
    /// [`Locator::on_listing`].
    ListProcesses,
    /// Nothing: the search has ended, see [`Locator::outcome`].
    Finish,
}

/// The mathematical content of a [`Locator`].
pub enum LocatorModel {
    ReadingIdentifierFile,
    CheckingLiveness(nat),
    ListingProcesses,
    Found(nat),
    NotFound,
}

impl LocatorModel {
    /// The state after the content of the identifier file came in; `None` where
    /// the file could not be read.
    pub open spec fn after_identifier_file(self, content: Option<Seq<char>>) -> LocatorModel {
        match self {
            LocatorModel::ReadingIdentifierFile => match content {
                Some(text) => match cached_identifier(text) {
                    Some(number) => LocatorModel::CheckingLiveness(number),
                    None => LocatorModel::ListingProcesses,
                },
                None => LocatorModel::ListingProcesses,
            },
            _ => self,
        }
    }

    /// The state after it became known whether the cached process is alive.
    pub open spec fn after_liveness(self, alive: bool) -> LocatorModel {
        match self {
            LocatorModel::CheckingLiveness(number) => if alive {
                LocatorModel::Found(number)
            } else {
                LocatorModel::ListingProcesses
            },
            _ => self,
        }
    }

    /// The state after the output of the listing came in; `None` where the
    /// listing failed.
    pub open spec fn after_listing(self, output: Option<Seq<char>>) -> LocatorModel {
        match self {
            LocatorModel::ListingProcesses => match output {
                Some(text) => match listed_identifier(text) {
                    Some(number) => LocatorModel::Found(number),
                    None => LocatorModel::NotFound,
                },
                None => LocatorModel::NotFound,
            },
            _ => self,
        }
    }

    /// Whether the search has ended.
    pub open spec fn is_final(self) -> bool {
        self is Found || self is NotFound
    }
}

/// The process that the search ends with, when the identifier file holds
/// `content`, the process it names is alive or not as `alive` says, and the
/// listing prints `output`: the cached process if it is alive, else the listed
/// one, else none. The listing is never looked at when the cached process is
/// alive.
pub open spec fn located(content: Option<Seq<char>>, alive: bool, output: Option<Seq<char>>)
    -> Option<nat> {
    let cached = match content {
        Some(text) => cached_identifier(text),
        None => None,
    };
    if cached is Some && alive {
        cached
    } else {
        match output {
            Some(text) => listed_identifier(text),
            None => None,
        }
    }
}

impl View for Locator {
    type V = LocatorModel;

    open spec fn view(&self) -> LocatorModel {
        match *self {
            Locator::ReadingIdentifierFile => LocatorModel::ReadingIdentifierFile,
            Locator::CheckingLiveness(pid) => LocatorModel::CheckingLiveness(pid.number()),
            Locator::ListingProcesses => LocatorModel::ListingProcesses,
            Locator::Found(pid) => LocatorModel::Found(pid.number()),
            Locator::NotFound => LocatorModel::NotFound,
        }
    }
}

impl Locator {
    /// The start of a search.
    pub fn start() -> (locator: Locator)
        ensures
            locator@ == LocatorModel::ReadingIdentifierFile,
    {
        Locator::ReadingIdentifierFile
    }

    /// What has to be done next.
    pub fn action(&self) -> (action: LocatorAction)
        ensures
            action == match *self {
                Locator::ReadingIdentifierFile => LocatorAction::ReadIdentifierFile,
                Locator::CheckingLiveness(pid) => LocatorAction::CheckLiveness(pid),
                Locator::ListingProcesses => LocatorAction::ListProcesses,
                Locator::Found(_) => LocatorAction::Finish,
                Locator::NotFound => LocatorAction::Finish,
            },
    {
        match *self {
            Locator::ReadingIdentifierFile => LocatorAction::ReadIdentifierFile,
            Locator::CheckingLiveness(pid) => LocatorAction::CheckLiveness(pid),
            Locator::ListingProcesses => LocatorAction::ListProcesses,
            Locator::Found(_) => LocatorAction::Finish,
            Locator::NotFound => LocatorAction::Finish,
        }
    }

    /// Takes the content of the identifier file, `None` where it could not be
    /// read. In any other state than [`Locator::ReadingIdentifierFile`] nothing
    /// changes.
    pub fn on_identifier_file(self, content: Option<&str>) -> (next: Locator)
        ensures
            next@ == self@.after_identifier_file(optional_text(content)),
    {
        match self {
            Locator::ReadingIdentifierFile => match content {
                Some(text) => match parse_cached_identifier(text) {
                    Some(pid) => Locator::CheckingLiveness(pid),
                    None => Locator::ListingProcesses,
                },
                None => Locator::ListingProcesses,
            },
            _ => self,
        }
    }

    /// Takes the answer to whether the cached process is alive. In any other
    /// state than [`Locator::CheckingLiveness`] nothing changes.
    pub fn on_liveness(self, alive: bool) -> (next: Locator)
        ensures
            next@ == self@.after_liveness(alive),
    {
        match self {
            Locator::CheckingLiveness(pid) => if alive {
                Locator::Found(pid)
            } else {
                Locator::ListingProcesses
            },
            _ => self,
        }
    }

    /// Takes the output of the process listing, `None` where the listing
    /// failed. In any other state than [`Locator::ListingProcesses`] nothing
    /// changes.
    pub fn on_listing(self, output: Option<&str>) -> (next: Locator)
        ensures
            next@ == self@.after_listing(optional_text(output)),
    {
        match self {
            Locator::ListingProcesses => match output {
                Some(text) => match parse_listed_identifier(text) {
                    Some(pid) => Locator::Found(pid),
                    None => Locator::NotFound,
                },
                None => Locator::NotFound,
            },
            _ => self,
        }
    }

    /// How the search ended: `None` as long as it has not.
    pub fn outcome(&self) -> (outcome: Option<Result<ProcessId, BenchmarkError>>)
        ensures
            outcome == match *self {
                Locator::Found(pid) => Some(Ok::<ProcessId, BenchmarkError>(pid)),
                Locator::NotFound => Some(
                    Err::<ProcessId, BenchmarkError>(BenchmarkError::ProcessNotFound),
                ),
                _ => None::<Result<ProcessId, BenchmarkError>>,
            },
    {
        match *self {
            Locator::Found(pid) => Some(Ok(pid)),
            Locator::NotFound => Some(Err(BenchmarkError::ProcessNotFound)),
            _ => None,
        }
    }
}

/// A search that is given every answer it asks for ends, after three answers at
/// most, with the process that [`located`] names.
pub proof fn lemma_search_ends(content: Option<Seq<char>>, alive: bool, output: Option<Seq<char>>)
    ensures
        ({
            let end = LocatorModel::ReadingIdentifierFile.after_identifier_file(
                content,
            ).after_liveness(alive).after_listing(output);
            &&& end.is_final()
            &&& end == match located(content, alive, output) {
                Some(number) => LocatorModel::Found(number),
                None => LocatorModel::NotFound,
            }
        }),
{
}

/// Runs a whole search on answers that are known beforehand: the content of the
/// identifier file, whether the process that it names is alive, and the output
/// of the listing.
pub fn locate(content: Option<&str>, alive: bool, output: Option<&str>) -> (found: Result<
    ProcessId,
    BenchmarkError,
>)
    ensures
        match found {
            Ok(pid) => located(optional_text(content), alive, optional_text(output)) == Some(
                pid.number(),
            ),
            Err(error) => error == BenchmarkError::ProcessNotFound && located(
                optional_text(content),
                alive,
                optional_text(output),
            ) is None,
        },
{
    let locator = Locator::start().on_identifier_file(content).on_liveness(alive).on_listing(
        output,
    );
    match locator {
        Locator::Found(pid) => Ok(pid),
        _ => Err(BenchmarkError::ProcessNotFound),
    }
}

} // verus!
