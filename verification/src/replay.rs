//! Replaying a recorded trace of file and memory-mapping calls.
//!
//! A trace holds one call per line, its fields separated by `|`. The file
//! descriptors in it are those of the recorded run; a replay maps each one to
//! the descriptor that its own `openat` returned.

use crate::text::{parse_hex, parsed_hex, same_text, split, split_on, trim_by, trimmed, views, Strip};
use std::collections::BTreeMap;
use vstd::prelude::*;
use vstd::string::*;

verus! {

/// From the file descriptors of the recorded run to those of the replay.
pub type FdMap = BTreeMap<usize, usize>;

/// Why a line of a trace could not be replayed.
#[derive(Clone, Copy, Debug, PartialEq, Eq, Structural)]
pub enum ReplayError {
    /// The line has too few fields for its call.
    MissingField,
    /// A field that holds a number is not `0x` and hexadecimal digits.
    BadNumber,
    /// An `openat` is not relative to the current directory.
    BadDirFd,
    /// The call names a file descriptor that no `openat` has bound.
    UnknownFd,
    /// The file descriptor is bound already.
    FdInUse,
}

/// The call that a line of a trace records.
#[derive(Clone, Debug, PartialEq, Eq)]
pub enum Command {
    /// Open the file `fname`; the recorded run got the descriptor `ofd`.
    Openat { fname: String, flags: usize, mode: usize, ofd: usize },
    /// Close the file that the recorded run knew as `ofd`.
    Close { ofd: usize },
    /// Map memory, from the file that the recorded run knew as `ofd`.
    Mmap { va: usize, len: usize, prot: usize, flags: usize, ofd: usize, offset: usize },
    /// Unmap memory.
    Munmap { va: usize, len: usize },
    /// Nothing to replay: another call, or an `openat` that had failed.
    Skip,
}

/// A command, with its file name as a sequence of characters.
pub enum CommandView {
    Openat { fname: Seq<char>, flags: usize, mode: usize, ofd: usize },
    Close { ofd: usize },
    Mmap { va: usize, len: usize, prot: usize, flags: usize, ofd: usize, offset: usize },
    Munmap { va: usize, len: usize },
    Skip,
}

impl View for Command {
    type V = CommandView;

    open spec fn view(&self) -> CommandView {
        match *self {
            Command::Openat { fname, flags, mode, ofd } => CommandView::Openat {
                fname: fname@,
                flags,
                mode,
                ofd,
            },
            Command::Close { ofd } => CommandView::Close { ofd },
            Command::Mmap { va, len, prot, flags, ofd, offset } => CommandView::Mmap {
                va,
                len,
                prot,
                flags,
                ofd,
                offset,
            },
            Command::Munmap { va, len } => CommandView::Munmap { va, len },
            Command::Skip => CommandView::Skip,
        }
    }
}

/// What the replay has to do for a command.
#[derive(Clone, Debug, PartialEq, Eq)]
pub enum Action {
    /// Open the file `fname`, and bind the descriptor it gets to `ofd`.
    Openat { fname: String, flags: usize, mode: usize, ofd: usize },
    /// Close the file `fd`.
    Close { fd: usize },
    /// Map memory from the file `fd`.
    Mmap { va: usize, len: usize, prot: usize, flags: usize, fd: usize, offset: usize },
    /// Unmap memory.
    Munmap { va: usize, len: usize },
    /// Nothing.
    Nothing,
}

/// An action, with its file name as a sequence of characters.
pub enum ActionView {
    Openat { fname: Seq<char>, flags: usize, mode: usize, ofd: usize },
    Close { fd: usize },
    Mmap { va: usize, len: usize, prot: usize, flags: usize, fd: usize, offset: usize },
    Munmap { va: usize, len: usize },
    Nothing,
}

impl View for Action {
    type V = ActionView;

    open spec fn view(&self) -> ActionView {
        match *self {
            Action::Openat { fname, flags, mode, ofd } => ActionView::Openat {
                fname: fname@,
                flags,
                mode,
                ofd,
            },
            Action::Close { fd } => ActionView::Close { fd },
            Action::Mmap { va, len, prot, flags, fd, offset } => ActionView::Mmap {
                va,
                len,
                prot,
                flags,
                fd,
                offset,
            },
            Action::Munmap { va, len } => ActionView::Munmap { va, len },
            Action::Nothing => ActionView::Nothing,
        }
    }
}

/// The number that a field holds: white space, `0x`, a number in base 16,
/// white space.
pub open spec fn number_in(s: Seq<char>) -> Option<usize> {
    let t = trimmed(s, Strip::Whitespace);
    if t.len() >= 2 && t[0] == '0' && t[1] == 'x' {
        parsed_hex(t.subrange(2, t.len() as int))
    } else {
        None
    }
}

/// Reads the number that a field holds, if it holds one.
pub fn try_parse_usize(s: &str) -> (number: Option<usize>)
    ensures
        number == number_in(s@),
{
    let t = trim_by(s, Strip::Whitespace);
    let n = t.unicode_len();
    if n >= 2 && t.get_char(0) == '0' && t.get_char(1) == 'x' {
        parse_hex(t.substring_char(2, n))
    } else {
        None
    }
}

/// Reads the number that a field holds.
pub fn parse_usize(s: &str) -> (number: usize)
    requires
        number_in(s@) is Some,
    ensures
        Some(number) == number_in(s@),
{
    match try_parse_usize(s) {
        Some(number) => number,
        None => 0,
    }
}

/// The text without the quotes, single or double, at its start and its end.
pub fn remove_quotes(s: &str) -> (t: String)
    ensures
        t@ == trimmed(s@, Strip::Quotes),
{
    trim_by(s, Strip::Quotes).to_owned()
}

/// The recorded result of a call is an error.
pub open spec fn is_failure(result: Seq<char>) -> bool {
    result.len() > 0 && result[0] == 'E'
}

/// The command of an `openat` line with the fields `f`.
pub open spec fn parsed_openat(f: Seq<Seq<char>>) -> Result<CommandView, ReplayError> {
    if f.len() < 7 {
        Err(ReplayError::MissingField)
    } else {
        let flags = number_in(trimmed(f[3], Strip::Whitespace));
        let mode = number_in(trimmed(f[4], Strip::Whitespace));
        let result = trimmed(f[6], Strip::Whitespace);
        if flags is None || mode is None {
            Err(ReplayError::BadNumber)
        } else if trimmed(f[1], Strip::Whitespace) != "AT_FDCWD"@ {
            Err(ReplayError::BadDirFd)
        } else if is_failure(result) {
            Ok(CommandView::Skip)
        } else {
            match number_in(result) {
                None => Err(ReplayError::BadNumber),
                Some(ofd) => Ok(
                    CommandView::Openat {
                        fname: trimmed(trimmed(f[2], Strip::Whitespace), Strip::Quotes),
                        flags: flags->0,
                        mode: mode->0,
                        ofd,
                    },
                ),
            }
        }
    }
}

/// The command of a `close` line with the fields `f`.
pub open spec fn parsed_close(f: Seq<Seq<char>>) -> Result<CommandView, ReplayError> {
    if f.len() < 2 {
        Err(ReplayError::MissingField)
    } else {
        match number_in(trimmed(f[1], Strip::Whitespace)) {
            None => Err(ReplayError::BadNumber),
            Some(ofd) => Ok(CommandView::Close { ofd }),
        }
    }
}

/// The command of an `mmap` line with the fields `f`.
pub open spec fn parsed_mmap(f: Seq<Seq<char>>) -> Result<CommandView, ReplayError> {
    if f.len() < 9 {
        Err(ReplayError::MissingField)
    } else if number_in(f[1]) is None || number_in(f[2]) is None || number_in(f[3]) is None
        || number_in(f[4]) is None || number_in(f[5]) is None || number_in(f[6]) is None {
        Err(ReplayError::BadNumber)
    } else {
        Ok(
            CommandView::Mmap {
                va: number_in(f[1])->0,
                len: number_in(f[2])->0,
                prot: number_in(f[3])->0,
                flags: number_in(f[4])->0,
                ofd: number_in(f[5])->0,
                offset: number_in(f[6])->0,
            },
        )
    }
}

/// The command of a `munmap` line with the fields `f`.
pub open spec fn parsed_munmap(f: Seq<Seq<char>>) -> Result<CommandView, ReplayError> {
    if f.len() < 3 {
        Err(ReplayError::MissingField)
    } else if number_in(f[1]) is None || number_in(f[2]) is None {
        Err(ReplayError::BadNumber)
    } else {
        Ok(CommandView::Munmap { va: number_in(f[1])->0, len: number_in(f[2])->0 })
    }
}

/// The command that a line records: its first field names the call, and a
/// line of any other call is skipped.
pub open spec fn parsed_cmd(line: Seq<char>) -> Result<CommandView, ReplayError> {
    let f = split_on(line, '|');
    if f[0] == "openat"@ {
        parsed_openat(f)
    } else if f[0] == "close"@ {
        parsed_close(f)
    } else if f[0] == "mmap"@ {
        parsed_mmap(f)
    } else if f[0] == "munmap"@ {
        parsed_munmap(f)
    } else {
        Ok(CommandView::Skip)
    }
}

/// `r` is a reading of a line that gives the command or the error `expected`.
pub open spec fn reads_as(r: Result<Command, ReplayError>, expected: Result<
    CommandView,
    ReplayError,
>) -> bool {
    match expected {
        Ok(c) => r matches Ok(x) && x@ == c,
        Err(e) => r == Err::<Command, ReplayError>(e),
    }
}

fn parse_openat(info: &Vec<&str>) -> (r: Result<Command, ReplayError>)
    ensures
        reads_as(r, parsed_openat(views(info@))),
{
    if info.len() < 7 {
        return Err(ReplayError::MissingField);
    }
    let dfd = trim_by(info[1], Strip::Whitespace);
    let fname = remove_quotes(trim_by(info[2], Strip::Whitespace));
    let flags = try_parse_usize(trim_by(info[3], Strip::Whitespace));
    let mode = try_parse_usize(trim_by(info[4], Strip::Whitespace));
    let result = trim_by(info[6], Strip::Whitespace);
    match (flags, mode) {
        (Some(flags), Some(mode)) => {
            if !same_text(dfd, "AT_FDCWD") {
                return Err(ReplayError::BadDirFd);
            }
            if result.unicode_len() > 0 && result.get_char(0) == 'E' {
                return Ok(Command::Skip);
            }
            match try_parse_usize(result) {
                None => Err(ReplayError::BadNumber),
                Some(ofd) => Ok(Command::Openat { fname, flags, mode, ofd }),
            }
        },
        _ => Err(ReplayError::BadNumber),
    }
}

fn parse_close(info: &Vec<&str>) -> (r: Result<Command, ReplayError>)
    ensures
        reads_as(r, parsed_close(views(info@))),
{
    if info.len() < 2 {
        return Err(ReplayError::MissingField);
    }
    match try_parse_usize(trim_by(info[1], Strip::Whitespace)) {
        None => Err(ReplayError::BadNumber),
        Some(ofd) => Ok(Command::Close { ofd }),
    }
}

fn parse_mmap(info: &Vec<&str>) -> (r: Result<Command, ReplayError>)
    ensures
        reads_as(r, parsed_mmap(views(info@))),
{
    if info.len() < 9 {
        return Err(ReplayError::MissingField);
    }
    let va = try_parse_usize(info[1]);
    let len = try_parse_usize(info[2]);
    let prot = try_parse_usize(info[3]);
    let flags = try_parse_usize(info[4]);
    let ofd = try_parse_usize(info[5]);
    let offset = try_parse_usize(info[6]);
    match (va, len, prot, flags, ofd, offset) {
        (Some(va), Some(len), Some(prot), Some(flags), Some(ofd), Some(offset)) => Ok(
            Command::Mmap { va, len, prot, flags, ofd, offset },
        ),
        _ => Err(ReplayError::BadNumber),
    }
}

fn parse_munmap(info: &Vec<&str>) -> (r: Result<Command, ReplayError>)
    ensures
        reads_as(r, parsed_munmap(views(info@))),
{
    if info.len() < 3 {
        return Err(ReplayError::MissingField);
    }
    match (try_parse_usize(info[1]), try_parse_usize(info[2])) {
        (Some(va), Some(len)) => Ok(Command::Munmap { va, len }),
        _ => Err(ReplayError::BadNumber),
    }
}

/// Reads the command that a line of a trace records.
pub fn parse_cmd(cmd: &str) -> (r: Result<Command, ReplayError>)
    ensures
        reads_as(r, parsed_cmd(cmd@)),
{
    let info = split(cmd, '|');
    let name = info[0];
    if same_text(name, "openat") {
        parse_openat(&info)
    } else if same_text(name, "close") {
        parse_close(&info)
    } else if same_text(name, "mmap") {
        parse_mmap(&info)
    } else if same_text(name, "munmap") {
        parse_munmap(&info)
    } else {
        Ok(Command::Skip)
    }
}

/// The file descriptor of the replay for the descriptor `ofd` of the recorded
/// run. The descriptor -1 of a mapping without a file stands for itself.
pub open spec fn mapped_fd(fds: Map<usize, usize>, ofd: usize) -> Option<usize> {
    if ofd == usize::MAX {
        Some(ofd)
    } else if fds.contains_key(ofd) {
        Some(fds[ofd])
    } else {
        None
    }
}

/// What the replay has to do for a command, given the file descriptors bound
/// so far, and the descriptors that are bound after it. A `close` gives up the
/// binding of its descriptor.
pub open spec fn resolved(cmd: CommandView, fds: Map<usize, usize>) -> Result<
    (ActionView, Map<usize, usize>),
    ReplayError,
> {
    match cmd {
        CommandView::Openat { fname, flags, mode, ofd } => Ok(
            (ActionView::Openat { fname, flags, mode, ofd }, fds),
        ),
        CommandView::Close { ofd } => if fds.contains_key(ofd) {
            Ok((ActionView::Close { fd: fds[ofd] }, fds.remove(ofd)))
        } else {
            Err(ReplayError::UnknownFd)
        },
        CommandView::Mmap { va, len, prot, flags, ofd, offset } => match mapped_fd(fds, ofd) {
            Some(fd) => Ok((ActionView::Mmap { va, len, prot, flags, fd, offset }, fds)),
            None => Err(ReplayError::UnknownFd),
        },
        CommandView::Munmap { va, len } => Ok((ActionView::Munmap { va, len }, fds)),
        CommandView::Skip => Ok((ActionView::Nothing, fds)),
    }
}

/// `r` and the descriptors `now` are the outcome `expected` of a command; on
/// an error the descriptors are those from `before`.
pub open spec fn acts_as(
    r: Result<Action, ReplayError>,
    before: Map<usize, usize>,
    now: Map<usize, usize>,
    expected: Result<(ActionView, Map<usize, usize>), ReplayError>,
) -> bool {
    match expected {
        Ok((action, fds)) => r matches Ok(x) && x@ == action && now == fds,
        Err(e) => r == Err::<Action, ReplayError>(e) && now == before,
    }
}

/// Turns a command into what the replay has to do, with the file descriptors
/// of the replay in place of the recorded ones.
pub fn resolve_cmd(cmd: Command, fd_map: &mut FdMap) -> (r: Result<Action, ReplayError>)
    ensures
        acts_as(r, old(fd_map)@, final(fd_map)@, resolved(cmd@, old(fd_map)@)),
{
    match cmd {
        Command::Openat { fname, flags, mode, ofd } => Ok(
            Action::Openat { fname, flags, mode, ofd },
        ),
        Command::Close { ofd } => match fd_map.remove(&ofd) {
            Some(fd) => Ok(Action::Close { fd }),
            None => {
                assert(old(fd_map)@.remove(ofd) =~= old(fd_map)@);
                Err(ReplayError::UnknownFd)
            },
        },
        Command::Mmap { va, len, prot, flags, ofd, offset } => {
            if ofd == usize::MAX {
                Ok(Action::Mmap { va, len, prot, flags, fd: ofd, offset })
            } else {
                match fd_map.get(&ofd) {
                    Some(fd) => Ok(Action::Mmap { va, len, prot, flags, fd: *fd, offset }),
                    None => Err(ReplayError::UnknownFd),
                }
            }
        },
        Command::Munmap { va, len } => Ok(Action::Munmap { va, len }),
        Command::Skip => Ok(Action::Nothing),
    }
}

/// Binds the descriptor `ofd` of the recorded run to the descriptor `fd` that
/// the replay got for the same file. A descriptor that is bound already keeps
/// its binding, and the attempt is refused.
pub fn bind_fd(fd_map: &mut FdMap, ofd: usize, fd: usize) -> (r: Result<(), ReplayError>)
    ensures
        old(fd_map)@.contains_key(ofd) ==> r == Err::<(), ReplayError>(ReplayError::FdInUse)
            && final(fd_map)@ == old(fd_map)@,
        !old(fd_map)@.contains_key(ofd) ==> r == Ok::<(), ReplayError>(()) && final(fd_map)@
            == old(fd_map)@.insert(ofd, fd),
{
    if fd_map.contains_key(&ofd) {
        Err(ReplayError::FdInUse)
    } else {
        fd_map.insert(ofd, fd);
        Ok(())
    }
}

/// Reads a line of a trace and says what the replay has to do for it.
///
/// A line that cannot be read, or that names a file descriptor which is not
/// bound, gives an error and leaves the descriptors as they are.
pub fn do_cmd(cmd: &str, fd_map: &mut FdMap) -> (r: Result<Action, ReplayError>)
    ensures
        match parsed_cmd(cmd@) {
            Ok(c) => acts_as(r, old(fd_map)@, final(fd_map)@, resolved(c, old(fd_map)@)),
            Err(e) => r == Err::<Action, ReplayError>(e) && final(fd_map)@ == old(fd_map)@,
        },
{
    match parse_cmd(cmd) {
        Ok(command) => resolve_cmd(command, fd_map),
        Err(e) => Err(e),
    }
}

/// The commands of the lines, up to the first line that cannot be read.
pub open spec fn parsed_lines(lines: Seq<Seq<char>>) -> Result<Seq<CommandView>, ReplayError>
    decreases lines.len(),
{
    if lines.len() == 0 {
        Ok(Seq::empty())
    } else {
        match parsed_lines(lines.drop_last()) {
            Err(e) => Err(e),
            Ok(commands) => match parsed_cmd(lines.last()) {
                Err(e) => Err(e),
                Ok(c) => Ok(commands.push(c)),
            },
        }
    }
}

/// The commands with their file names as sequences of characters.
pub open spec fn command_views(commands: Seq<Command>) -> Seq<CommandView> {
    Seq::new(commands.len(), |i: int| commands[i]@)
}

/// Reads a test case: a trace with one call on each line.
///
/// The result holds the command of every line, in the order of the lines, or
/// the error of the first line that cannot be read.
pub fn do_testcase(lines: &str) -> (r: Result<Vec<Command>, ReplayError>)
    ensures
        match parsed_lines(split_on(lines@, '\n')) {
            Ok(commands) => r matches Ok(v) && command_views(v@) == commands,
            Err(e) => r == Err::<Vec<Command>, ReplayError>(e),
        },
{
    let all = split(lines, '\n');
    let mut commands: Vec<Command> = Vec::new();
    let mut i: usize = 0;
    proof {
        assert(views(all@).take(0) =~= Seq::<Seq<char>>::empty());
        assert(command_views(commands@) =~= Seq::<CommandView>::empty());
    }
    while i < all.len()
        invariant
            0 <= i <= all@.len(),
            views(all@) == split_on(lines@, '\n'),
            parsed_lines(views(all@).take(i as int)) == Ok::<Seq<CommandView>, ReplayError>(
                command_views(commands@),
            ),
        decreases all@.len() - i,
    {
        let ghost upto = views(all@).take(i + 1);
        proof {
            assert(upto.drop_last() =~= views(all@).take(i as int));
            assert(upto.last() == all@[i as int]@);
        }
        match parse_cmd(all[i]) {
            Err(e) => {
                proof {
                    lemma_error_stays(views(all@), i + 1);
                }
                return Err(e);
            },
            Ok(command) => {
                let ghost before = commands@;
                commands.push(command);
                proof {
                    assert(command_views(commands@) =~= command_views(before).push(command@));
                }
            },
        }
        i = i + 1;
    }
    proof {
        assert(views(all@).take(all@.len() as int) =~= views(all@));
    }
    Ok(commands)
}

/// Where the first lines cannot all be read, neither can the whole, and the
/// error is that of the first line that fails.
proof fn lemma_error_stays(lines: Seq<Seq<char>>, k: int)
    requires
        0 <= k <= lines.len(),
        parsed_lines(lines.take(k)) is Err,
    ensures
        parsed_lines(lines) == parsed_lines(lines.take(k)),
    decreases lines.len() - k,
{
    if k < lines.len() {
        assert(lines.take(k + 1).drop_last() =~= lines.take(k));
        lemma_error_stays(lines, k + 1);
    } else {
        assert(lines.take(k) =~= lines);
    }
}

} // verus!
