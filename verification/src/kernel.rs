//! What the library asks of the world, and what it is told.
//!
//! Nothing here touches a file, a register or a clock. A [`Procedure`] names
//! the one thing it wants done next, and is resumed with what came of it; its
//! caller does the doing.

use vstd::prelude::*;

verus! {

/// The kinds of failure there are.
#[derive(Clone, Copy, Debug, PartialEq, Eq, Structural)]
pub enum ErrorKind {
    NotFound,
    PermissionDenied,
    ConnectionRefused,
    ConnectionReset,
    HostUnreachable,
    NetworkUnreachable,
    ConnectionAborted,
    NotConnected,
    AddrInUse,
    AddrNotAvailable,
    NetworkDown,
    BrokenPipe,
    AlreadyExists,
    WouldBlock,
    NotADirectory,
    IsADirectory,
    DirectoryNotEmpty,
    ReadOnlyFilesystem,
    FilesystemLoop,
    StaleNetworkFileHandle,
    InvalidInput,
    InvalidData,
    TimedOut,
    WriteZero,
    StorageFull,
    NotSeekable,
    QuotaExceeded,
    FileTooLarge,
    ResourceBusy,
    ExecutableFileBusy,
    Deadlock,
    CrossesDevices,
    TooManyLinks,
    InvalidFilename,
    ArgumentListTooLong,
    Interrupted,
    Unsupported,
    UnexpectedEof,
    OutOfMemory,
    InProgress,
    Other,
    /// A failure of no other kind.
    Uncategorized,
}

/// A failure to read, write or find something.
#[derive(Debug)]
pub struct IoError {
    pub kind: ErrorKind,
    pub message: String,
}

/// What a failure says: its kind and its message.
pub type Told = (ErrorKind, Seq<char>);

pub open spec fn told(err: IoError) -> Told {
    (err.kind, err.message@)
}

/// What reading a file's text says.
pub open spec fn told_text(r: Result<String, IoError>) -> Result<Seq<char>, Told> {
    match r {
        Ok(content) => Ok(content@),
        Err(err) => Err(told(err)),
    }
}

/// What a write says.
pub open spec fn told_unit(r: Result<(), IoError>) -> Result<(), Told> {
    match r {
        Ok(()) => Ok(()),
        Err(err) => Err(told(err)),
    }
}

/// What measuring a file says.
pub open spec fn told_length(r: Result<u64, IoError>) -> Result<u64, Told> {
    match r {
        Ok(length) => Ok(length),
        Err(err) => Err(told(err)),
    }
}

/// An entry of a directory.
#[derive(Debug)]
pub struct Entry {
    /// Its name as text, with U+FFFD for what is not UTF-8.
    pub name: String,
    /// Its name as the directory has it.
    pub raw: Vec<u8>,
}

pub struct EntryState {
    pub name: Seq<char>,
    pub raw: Seq<u8>,
}

impl View for Entry {
    type V = EntryState;

    open spec fn view(&self) -> EntryState {
        EntryState { name: self.name@, raw: self.raw@ }
    }
}

impl Clone for Entry {
    fn clone(&self) -> (r: Self)
        ensures
            r@ == self@,
    {
        let r: Entry = Entry { name: self.name.clone(), raw: self.raw.clone() };
        assert(r.raw@ =~= self.raw@);
        r
    }
}

/// What reading an entry says.
pub open spec fn told_entry(r: Result<Entry, IoError>) -> Result<EntryState, Told> {
    match r {
        Ok(entry) => Ok(entry@),
        Err(err) => Err(told(err)),
    }
}

/// What reading an entry says of its name.
pub open spec fn told_name(r: Result<Entry, IoError>) -> Result<Seq<char>, Told> {
    match r {
        Ok(entry) => Ok(entry.name@),
        Err(err) => Err(told(err)),
    }
}

/// What listing a directory says.
pub open spec fn told_listing(r: Result<Vec<Result<Entry, IoError>>, IoError>) -> Result<
    Seq<Result<EntryState, Told>>,
    Told,
> {
    match r {
        Ok(entries) => Ok(entries@.map_values(|e: Result<Entry, IoError>| told_entry(e))),
        Err(err) => Err(told(err)),
    }
}

/// What listing a directory says of the names in it.
pub open spec fn told_names(r: Result<Vec<Result<Entry, IoError>>, IoError>) -> Result<
    Seq<Result<Seq<char>, Told>>,
    Told,
> {
    match r {
        Ok(entries) => Ok(entries@.map_values(|e: Result<Entry, IoError>| told_name(e))),
        Err(err) => Err(told(err)),
    }
}

pub fn failed(kind: ErrorKind, message: String) -> (r: IoError)
    ensures
        r.kind == kind,
        r.message == message,
{
    IoError { kind, message }
}

/// Keeps the kind, so a caller can still tell a missing device from a
/// permission problem, and prepends what was being attempted.
pub fn context(err: IoError, what: &str) -> (r: IoError)
    ensures
        r.kind == err.kind,
        r.message@ == what@ + ": "@ + err.message@,
{
    let mut message: String = String::new();
    message.append(what);
    message.append(": ");
    message.append(&err.message);
    assert(message@ =~= what@ + ": "@ + err.message@);
    IoError { kind: err.kind, message }
}

/// One thing to do.
#[derive(Debug)]
pub enum Op {
    /// Whether a path leads anywhere; answered with [`Reply::Flag`].
    Exists(String),
    /// Whether a path is a directory; answered with [`Reply::Flag`].
    IsDir(String),
    /// The text of a file; answered with [`Reply::Text`].
    ReadText(String),
    /// The target of a link; answered with [`Reply::Text`].
    ReadLink(String),
    /// The text of a file in an entry of a directory, the entry by its own
    /// name; answered with [`Reply::Text`].
    ReadEntryText(String, Vec<u8>, String),
    /// The target of a link in an entry of a directory, the entry by its own
    /// name; answered with [`Reply::Text`].
    ReadEntryLink(String, Vec<u8>, String),
    /// Replace what a file holds; answered with [`Reply::Unit`].
    WriteText(String, String),
    /// Two bytes of a file from an offset on; answered with [`Reply::Bytes`].
    ReadBytes(String, u64),
    /// Replace two bytes of a file from an offset on; answered with
    /// [`Reply::Unit`].
    WriteBytes(String, u64, u8, u8),
    /// The entries of a directory, in the order it lists them; answered with
    /// [`Reply::Names`].
    ListDir(String),
    /// The length of a file; answered with [`Reply::Length`].
    FileLen(String),
    /// The mode and the device number of an entry of a directory, by its own
    /// name; answered with [`Reply::Node`].
    StatEntry(String, Vec<u8>),
    /// Map a file as the registers to use from here on, and say how long it
    /// is; answered with [`Reply::Length`].
    MapFile(String),
    /// Read the register at a byte offset; answered with [`Reply::Word`].
    Read32(u32),
    /// Write the register at a byte offset; answered with [`Reply::Done`].
    Write32(u32, u32),
    /// Start timing anew; answered with [`Reply::Done`].
    StartTimer,
    /// Nanoseconds since the timing started; answered with [`Reply::Nanos`].
    Elapsed,
    /// Sleep for some milliseconds; answered with [`Reply::Done`].
    Sleep(u64),
}

/// What came of an [`Op`].
#[derive(Debug)]
pub enum Reply {
    Done,
    Flag(bool),
    Text(Result<String, IoError>),
    Unit(Result<(), IoError>),
    Bytes(Result<(u8, u8), IoError>),
    /// The entries found, or what came of one that could not be read.
    Names(Result<Vec<Result<Entry, IoError>>, IoError>),
    Length(Result<u64, IoError>),
    Node(Result<(u32, u64), IoError>),
    Word(u32),
    Nanos(u64),
}

/// An [`Op`] with the text it carries.
pub enum Request {
    Exists(Seq<char>),
    IsDir(Seq<char>),
    ReadText(Seq<char>),
    ReadLink(Seq<char>),
    ReadEntryText(Seq<char>, Seq<u8>, Seq<char>),
    ReadEntryLink(Seq<char>, Seq<u8>, Seq<char>),
    WriteText(Seq<char>, Seq<char>),
    ReadBytes(Seq<char>, u64),
    WriteBytes(Seq<char>, u64, u8, u8),
    ListDir(Seq<char>),
    FileLen(Seq<char>),
    StatEntry(Seq<char>, Seq<u8>),
    MapFile(Seq<char>),
    Read32(u32),
    Write32(u32, u32),
    StartTimer,
    Elapsed,
    Sleep(u64),
}

impl Request {
    /// Whether it asks for something, and changes nothing.
    pub open spec fn is_question(self) -> bool {
        match self {
            Request::Exists(_)
            | Request::IsDir(_)
            | Request::ReadText(_)
            | Request::ReadLink(_)
            | Request::ReadEntryText(_, _, _)
            | Request::ReadEntryLink(_, _, _)
            | Request::ReadBytes(_, _)
            | Request::ListDir(_)
            | Request::FileLen(_)
            | Request::StatEntry(_, _) => true,
            _ => false,
        }
    }
}

impl View for Op {
    type V = Request;

    open spec fn view(&self) -> Request {
        match *self {
            Op::Exists(path) => Request::Exists(path@),
            Op::IsDir(path) => Request::IsDir(path@),
            Op::ReadText(path) => Request::ReadText(path@),
            Op::ReadLink(path) => Request::ReadLink(path@),
            Op::ReadEntryText(dir, raw, file) => Request::ReadEntryText(dir@, raw@, file@),
            Op::ReadEntryLink(dir, raw, file) => Request::ReadEntryLink(dir@, raw@, file@),
            Op::WriteText(path, content) => Request::WriteText(path@, content@),
            Op::ReadBytes(path, at) => Request::ReadBytes(path@, at),
            Op::WriteBytes(path, at, low, high) => Request::WriteBytes(path@, at, low, high),
            Op::ListDir(path) => Request::ListDir(path@),
            Op::FileLen(path) => Request::FileLen(path@),
            Op::StatEntry(dir, raw) => Request::StatEntry(dir@, raw@),
            Op::MapFile(path) => Request::MapFile(path@),
            Op::Read32(offset) => Request::Read32(offset),
            Op::Write32(offset, value) => Request::Write32(offset, value),
            Op::StartTimer => Request::StartTimer,
            Op::Elapsed => Request::Elapsed,
            Op::Sleep(ms) => Request::Sleep(ms),
        }
    }
}

impl Reply {
    /// Whether this is an answer to `request`, whatever it says.
    pub open spec fn answers(self, request: Request) -> bool {
        match request {
            Request::Exists(_) | Request::IsDir(_) => self is Flag,
            Request::ReadText(_)
            | Request::ReadLink(_)
            | Request::ReadEntryText(_, _, _)
            | Request::ReadEntryLink(_, _, _) => self is Text,
            Request::WriteText(_, _)
            | Request::WriteBytes(_, _, _, _) => self is Unit,
            Request::ListDir(_) => self is Names,
            Request::FileLen(_) | Request::MapFile(_) => self is Length,
            Request::StatEntry(_, _) => self is Node,
            Request::ReadBytes(_, _) => self is Bytes,
            Request::Read32(_) => self is Word,
            Request::Elapsed => self is Nanos,
            Request::Write32(_, _) | Request::StartTimer | Request::Sleep(_) => self is Done,
        }
    }
}

/// A tree that does not change, by what it answers.
pub type Tree = spec_fn(Request) -> Reply;

/// What reading a file in a tree says.
pub open spec fn read_in(tree: Tree, path: Seq<char>) -> Result<Seq<char>, Told> {
    told_text(tree(Request::ReadText(path))->Text_0)
}

/// What reading a link in a tree says.
pub open spec fn link_in(tree: Tree, path: Seq<char>) -> Result<Seq<char>, Told> {
    told_text(tree(Request::ReadLink(path))->Text_0)
}

/// Where a procedure stands once resumed.
#[derive(Debug)]
pub enum Step<P, T> {
    /// It wants something else done.
    Next(P),
    /// It is over.
    Done(T),
}

/// Work that alternates with the world, one request at a time.
///
/// The bodies of [`Procedure::op`] and [`Procedure::resume`] name the two spec
/// functions once, so that their definitions are at hand in the proof.
pub trait Procedure: Sized {
    type Output;

    spec fn well_formed(&self) -> bool;

    spec fn request(&self) -> Request;

    /// What to do next.
    fn op(&self) -> (op: Op)
        requires
            self.well_formed(),
        ensures
            op@ == self.request(),
    ;

    /// Take in what came of it.
    fn resume(self, reply: Reply) -> (step: Step<Self, Self::Output>)
        requires
            self.well_formed(),
            reply.answers(self.request()),
        ensures
            step matches Step::Next(next) ==> next.well_formed(),
    ;
}

// --- Waiting -----------------------------------------------------------------

/// What a wait has just seen.
#[derive(Clone, Copy, Debug, PartialEq, Eq, Structural)]
pub enum PollEvent {
    /// The clock has been started.
    Started,
    /// A look, and whether it found what is waited for.
    Looked(bool),
    /// The nanoseconds since the start.
    Elapsed(u64),
    /// A pause is over.
    Slept,
}

/// What a wait does next.
#[derive(Clone, Copy, Debug, PartialEq, Eq, Structural)]
pub enum PollStep {
    Look,
    AskTime,
    Sleep,
    Ready,
    TimedOut,
}

/// A wait looks, and looks again every millisecond; the deadline is checked
/// after a look that found nothing, so even an expired one looks once.
pub open spec fn poll_step(event: PollEvent, timeout: u64) -> PollStep {
    match event {
        PollEvent::Started => PollStep::Look,
        PollEvent::Looked(true) => PollStep::Ready,
        PollEvent::Looked(false) => PollStep::AskTime,
        PollEvent::Elapsed(nanos) => if nanos > timeout {
            PollStep::TimedOut
        } else {
            PollStep::Sleep
        },
        PollEvent::Slept => PollStep::Look,
    }
}

/// One step of waiting until something holds, at 1 ms granularity.
pub fn poll(event: PollEvent, timeout: u64) -> (r: PollStep)
    ensures
        r == poll_step(event, timeout),
{
    match event {
        PollEvent::Started => PollStep::Look,
        PollEvent::Looked(done) => if done {
            PollStep::Ready
        } else {
            PollStep::AskTime
        },
        PollEvent::Elapsed(nanos) => if nanos > timeout {
            PollStep::TimedOut
        } else {
            PollStep::Sleep
        },
        PollEvent::Slept => PollStep::Look,
    }
}

/// A wait gives up only past its deadline, and asks for the time only after a
/// look that found nothing: even an expired deadline looks once, and what is
/// already there is never a timeout.
pub proof fn a_wait_looks_before_it_gives_up(event: PollEvent, timeout: u64)
    ensures
        poll_step(PollEvent::Started, timeout) == PollStep::Look,
        poll_step(event, timeout) == PollStep::AskTime <==> event == PollEvent::Looked(false),
        poll_step(event, timeout) == PollStep::Ready <==> event == PollEvent::Looked(true),
        poll_step(event, timeout) == PollStep::TimedOut <==> (event matches PollEvent::Elapsed(nanos)
            && nanos > timeout),
{
}

/// How long a wait pauses between two looks, in milliseconds.
pub const POLL_PAUSE_MS: u64 = 1;

/// Where a wait stands: what it has asked for last.
#[derive(Clone, Copy, Debug, PartialEq, Eq, Structural)]
pub enum Pace {
    Starting,
    Looking,
    Timing,
    Sleeping,
}

/// `timed out waiting for` something.
pub open spec fn timed_out_message(what: Seq<char>) -> Seq<char> {
    "timed out waiting for "@ + what
}

pub fn timed_out(what: &str) -> (r: IoError)
    ensures
        r.kind == ErrorKind::TimedOut,
        r.message@ == timed_out_message(what@),
{
    let mut message: String = String::new();
    message.append("timed out waiting for ");
    message.append(what);
    assert(message@ =~= timed_out_message(what@));
    failed(ErrorKind::TimedOut, message)
}

/// A question leaves everything as it is: nothing is written by it, nothing
/// mapped, and no time goes by.
pub proof fn a_question_writes_nothing(request: Request)
    ensures
        request.is_question() ==> !(request is WriteText) && !(request is WriteBytes) && !(
        request is Write32) && !(request is MapFile) && !(request is Sleep),
        request is ReadText || request is ReadLink || request is ListDir ==> request.is_question(),
{
}

/// A wait looks once a millisecond, and what it says when it gives up starts with
/// that it timed out and ends with what was waited for.
pub proof fn a_timeout_says_what_was_waited_for(what: Seq<char>)
    ensures
        POLL_PAUSE_MS == 1,
        timed_out_message(what) == "timed out waiting for "@ + what,
{
}

/// What went wrong keeps its kind and its words, and what was read its text.
pub proof fn what_is_told_is_what_was_said(err: IoError, content: String, length: u64, entry: Entry)
    ensures
        told(err).0 == err.kind,
        told(err).1 == err.message@,
        told_text(Ok(content)) == Ok::<Seq<char>, Told>(content@),
        told_text(Err(err)) == Err::<Seq<char>, Told>(told(err)),
        told_unit(Ok(())) == Ok::<(), Told>(()),
        told_unit(Err(err)) == Err::<(), Told>(told(err)),
        told_length(Ok(length)) == Ok::<u64, Told>(length),
        told_length(Err(err)) == Err::<u64, Told>(told(err)),
        told_name(Ok(entry)) == Ok::<Seq<char>, Told>(entry.name@),
        told_entry(Ok(entry)) == Ok::<EntryState, Told>(
            EntryState { name: entry.name@, raw: entry.raw@ },
        ),
{
}

/// An operation asks for just what it holds.
pub proof fn an_operation_asks_for_what_it_holds(
    path: String,
    content: String,
    at: u64,
    low: u8,
    high: u8,
    register: u32,
    value: u32,
)
    ensures
        Op::Exists(path)@ == Request::Exists(path@),
        Op::IsDir(path)@ == Request::IsDir(path@),
        Op::ReadText(path)@ == Request::ReadText(path@),
        Op::ReadLink(path)@ == Request::ReadLink(path@),
        Op::WriteText(path, content)@ == Request::WriteText(path@, content@),
        Op::ReadBytes(path, at)@ == Request::ReadBytes(path@, at),
        Op::WriteBytes(path, at, low, high)@ == Request::WriteBytes(path@, at, low, high),
        Op::ListDir(path)@ == Request::ListDir(path@),
        Op::FileLen(path)@ == Request::FileLen(path@),
        Op::MapFile(path)@ == Request::MapFile(path@),
        Op::Read32(register)@ == Request::Read32(register),
        Op::Write32(register, value)@ == Request::Write32(register, value),
        Op::StartTimer@ == Request::StartTimer,
        Op::Elapsed@ == Request::Elapsed,
        Op::Sleep(at)@ == Request::Sleep(at),
{
}

} // verus!
