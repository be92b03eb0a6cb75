//! The client's side of the conversation: what it sends, and what it makes
//! of each thing the broker says.

use vstd::prelude::*;
use crate::auth::{token_bytes, token_text};
use crate::frame::{decode_header, Header};
use crate::number::{decimal, decimal_digits, number_value, parse_number};
use crate::reply::RunMode;
use crate::subst::{pairs_view, Pair};
use crate::template::texts_view;
use crate::text::{
    begins_with, extend_chars, extend_str, first_index, index_from, is_word, slice_of, starts_with,
    string_of, to_chars, trim, trimmed,
};

verus! {

/// Why a connection could not be set up.
#[derive(Debug)]
pub enum ConInitErr {
    /// The socket could not be reached; the text says why.
    CouldNotConnectToSocket(String),
    /// The broker's greeting is not the id of a connection.
    BadGreeting(String),
}

/// Why a run could not be asked for.
#[derive(Debug)]
pub enum ConRunErr {
    /// The token file at the path could not be written; the text says why.
    FailedToEditFileForAuth(String, String),
}

/// A connection to the broker, as the client knows it.
#[derive(Debug)]
pub struct Con {
    pub id: usize,
    pub client_dir: String,
}

/// The directory of the client of connection `id`.
pub open spec fn client_dir_text(id: nat) -> Seq<char> {
    "/tmp/d26run-client-"@ + decimal_digits(id) + seq!['/']
}

impl Con {
    /// Sets the connection up from the outcome of reaching the socket: the
    /// broker's greeting, or why the socket could not be reached. The
    /// greeting must be the decimal id of the connection.
    pub fn init(greeting: Result<String, String>) -> (r: Result<Con, ConInitErr>)
        ensures
            match greeting {
                Err(why) => r matches Err(ConInitErr::CouldNotConnectToSocket(w)) && w@ == why@,
                Ok(line) => match number_value(line@, usize::MAX as nat) {
                    Some(id) => r matches Ok(con) && con.id == id && con.client_dir@
                        == client_dir_text(id),
                    None => r matches Err(ConInitErr::BadGreeting(l)) && l@ == line@,
                },
            },
    {
        match greeting {
            Err(why) => Err(ConInitErr::CouldNotConnectToSocket(why)),
            Ok(line) => match parse_number(&to_chars(line.as_str()), usize::MAX as u128) {
                Some(id) => {
                    let mut buf: Vec<char> = Vec::new();
                    extend_str(&mut buf, "/tmp/d26run-client-");
                    extend_chars(&mut buf, &decimal(id));
                    buf.push('/');
                    assert(buf@ =~= client_dir_text(id as nat));
                    Ok(Con { id: id as usize, client_dir: string_of(&buf) })
                },
                None => Err(ConInitErr::BadGreeting(line)),
            },
        }
    }
}

/// What follows `prefix` in `line`, if `line` begins with it.
pub open spec fn after_prefix(line: Seq<char>, prefix: Seq<char>) -> Option<Seq<char>> {
    if begins_with(line, prefix) {
        Some(line.skip(prefix.len() as int))
    } else {
        None
    }
}

/// What follows `prefix` in `line`, if `line` begins with it.
pub fn strip_prefix(line: &Vec<char>, prefix: &str) -> (r: Option<Vec<char>>)
    ensures
        match r {
            Some(rest) => after_prefix(line@, prefix@) == Some(rest@),
            None => after_prefix(line@, prefix@) is None,
        },
{
    let p = to_chars(prefix);
    if starts_with(line, &p) {
        assert(line@.skip(p@.len() as int) =~= line@.subrange(
            p@.len() as int,
            line@.len() as int,
        ));
        Some(slice_of(line, p.len(), line.len()))
    } else {
        None
    }
}

/// The number that stands after `prefix` in `line`, white space around it
/// left aside.
pub open spec fn count_after(line: Seq<char>, prefix: Seq<char>) -> Option<nat> {
    match after_prefix(line, prefix) {
        Some(rest) => number_value(trimmed(rest), usize::MAX as nat),
        None => None,
    }
}

/// The number that stands after `prefix` in `line`.
pub fn read_count(line: &str, prefix: &str) -> (r: Option<usize>)
    ensures
        match r {
            Some(n) => count_after(line@, prefix@) == Some(n as nat),
            None => count_after(line@, prefix@) is None,
        },
{
    match strip_prefix(&to_chars(line), prefix) {
        Some(rest) => match parse_number(&trim(&rest), usize::MAX as u128) {
            Some(n) => Some(n as usize),
            None => None,
        },
        None => None,
    }
}

/// The number of templates that the first line of a listing announces.
pub fn list_count(line: &str) -> (r: Option<usize>)
    ensures
        match r {
            Some(n) => count_after(line@, "listing configs; count: "@) == Some(n as nat),
            None => count_after(line@, "listing configs; count: "@) is None,
        },
{
    read_count(line, "listing configs; count: ")
}

/// Whether a name holds a space.
pub open spec fn has_space(name: Seq<char>) -> bool {
    index_from(name, ' ', 0) is Some
}

/// The lines that set the variables: one `set-var` line for each variable
/// whose name holds no space, in order.
pub open spec fn set_var_lines(vars: Seq<Pair>) -> Seq<Seq<char>>
    decreases vars.len(),
{
    if vars.len() == 0 {
        Seq::empty()
    } else {
        let before = set_var_lines(vars.drop_last());
        let (name, value) = vars.last();
        if has_space(name) {
            before
        } else {
            before.push("set-var "@ + name + seq![' '] + value + seq!['\n'])
        }
    }
}

/// The line that asks for a run.
pub open spec fn run_line(config: Seq<char>, mode: Option<RunMode>) -> Seq<char> {
    match mode {
        Some(m) => "run mode="@ + m.word() + seq![' '] + config + seq!['\n'],
        None => "run "@ + config + seq!['\n'],
    }
}

/// The lines with which a client asks for a run: those that set its
/// variables, then the `run` line.
pub fn run_lines(config: &str, vars: &Vec<(String, String)>, mode: Option<RunMode>) -> (out: Vec<
    String,
>)
    ensures
        texts_view(out@) == set_var_lines(pairs_view(vars@)).push(run_line(config@, mode)),
{
    let ghost pv = pairs_view(vars@);
    let mut out: Vec<String> = Vec::new();
    let mut i: usize = 0;
    assert(set_var_lines(pv.take(0)) =~= Seq::<Seq<char>>::empty());
    assert(texts_view(out@) =~= set_var_lines(pv.take(0)));
    while i < vars.len()
        invariant
            i <= vars.len(),
            pv == pairs_view(vars@),
            texts_view(out@) == set_var_lines(pv.take(i as int)),
        decreases vars.len() - i,
    {
        let ghost before = texts_view(out@);
        proof {
            assert(pv.take(i + 1).drop_last() =~= pv.take(i as int));
            assert(pv.take(i + 1).last() == pv[i as int]);
        }
        let name = to_chars(vars[i].0.as_str());
        if first_index(&name, ' ').is_none() {
            let mut buf: Vec<char> = Vec::new();
            extend_str(&mut buf, "set-var ");
            extend_chars(&mut buf, &name);
            buf.push(' ');
            extend_str(&mut buf, vars[i].1.as_str());
            buf.push('\n');
            let line = string_of(&buf);
            assert(line@ =~= "set-var "@ + pv[i as int].0 + seq![' '] + pv[i as int].1 + seq![
                '\n',
            ]);
            out.push(line);
            assert(texts_view(out@) =~= before.push(line@));
        }
        i += 1;
    }
    assert(pv.take(i as int) =~= pv);
    let ghost before = texts_view(out@);
    let mut buf: Vec<char> = Vec::new();
    match mode {
        Some(m) => {
            extend_str(&mut buf, "run mode=");
            extend_str(&mut buf, m.name().as_str());
            buf.push(' ');
        },
        None => {
            extend_str(&mut buf, "run ");
        },
    }
    extend_str(&mut buf, config);
    buf.push('\n');
    let line = string_of(&buf);
    assert(line@ =~= run_line(config@, mode));
    out.push(line);
    assert(texts_view(out@) =~= before.push(line@));
    out
}

/// Where the client stands in a run. `T` is the type of texts.
#[derive(Debug)]
pub enum Dialog<T> {
    /// The run was asked for; the broker is to name the token file.
    AwaitAuthWait,
    /// The token file is being written.
    AwaitTokenWritten(T),
    /// The broker is to accept the client.
    AwaitAccept,
    /// The broker is to start the run or report errors.
    AwaitStart,
    /// The broker reports `total` errors; error `index` is being read, of
    /// which `left` lines are still to come, or its number of lines where
    /// `left` is `None`.
    Errors { total: usize, index: usize, left: Option<usize> },
    /// The header of the next frame is to come.
    AwaitHeader,
    /// The payload of a frame is to come.
    AwaitPayload { stderr: bool, len: u8 },
    /// The run is over.
    Over,
}

/// Why the client gives a run up. `T` is the type of texts.
#[derive(Debug)]
pub enum Failure<T> {
    /// The broker did not name a token file but said this.
    ExpectedAuthWait(T),
    /// The token file at the path could not be written; the text says why.
    FailedToEditFileForAuth(T, T),
    /// The broker did not accept the client but said this.
    ExpectedAccept(T),
    /// A count in the error report is no number.
    BadCount(T),
    /// The template did not resolve; the broker reported so many errors.
    InvalidConfig(usize),
}

/// Something for the client to do. `T` is the type of texts, `B` that of
/// bytes.
#[derive(Debug)]
pub enum Task<T, B> {
    /// Send the text to the broker.
    Send(T),
    /// Write the bytes to the token file at the path, in place of what it
    /// holds, and report with `on_token_written`.
    WriteToken(T, B),
    /// Read a line from the broker and report it, without the line feed at
    /// its end, with `on_line`.
    ReadLine,
    /// Read one byte from the broker and report it with `on_header`.
    ReadHeader,
    /// Read so many bytes from the broker and report them with
    /// `on_payload`.
    ReadPayload(u8),
    /// Write the bytes to standard output.
    WriteOut(B),
    /// Write the bytes to standard error.
    WriteErr(B),
    /// Print the line of an error report.
    Print(T),
    /// Close the connection: the run is over.
    Shutdown,
    /// Give the run up.
    Fail(Failure<T>),
}

impl View for Dialog<String> {
    type V = Dialog<Seq<char>>;

    open spec fn view(&self) -> Dialog<Seq<char>> {
        match self {
            Dialog::AwaitAuthWait => Dialog::AwaitAuthWait,
            Dialog::AwaitTokenWritten(path) => Dialog::AwaitTokenWritten(path@),
            Dialog::AwaitAccept => Dialog::AwaitAccept,
            Dialog::AwaitStart => Dialog::AwaitStart,
            Dialog::Errors { total, index, left } => Dialog::Errors {
                total: *total,
                index: *index,
                left: *left,
            },
            Dialog::AwaitHeader => Dialog::AwaitHeader,
            Dialog::AwaitPayload { stderr, len } => Dialog::AwaitPayload {
                stderr: *stderr,
                len: *len,
            },
            Dialog::Over => Dialog::Over,
        }
    }
}

impl View for Failure<String> {
    type V = Failure<Seq<char>>;

    open spec fn view(&self) -> Failure<Seq<char>> {
        match self {
            Failure::ExpectedAuthWait(l) => Failure::ExpectedAuthWait(l@),
            Failure::FailedToEditFileForAuth(p, w) => Failure::FailedToEditFileForAuth(p@, w@),
            Failure::ExpectedAccept(l) => Failure::ExpectedAccept(l@),
            Failure::BadCount(l) => Failure::BadCount(l@),
            Failure::InvalidConfig(n) => Failure::InvalidConfig(*n),
        }
    }
}

impl View for Task<String, Vec<u8>> {
    type V = Task<Seq<char>, Seq<u8>>;

    open spec fn view(&self) -> Task<Seq<char>, Seq<u8>> {
        match self {
            Task::Send(t) => Task::Send(t@),
            Task::WriteToken(p, b) => Task::WriteToken(p@, b@),
            Task::ReadLine => Task::ReadLine,
            Task::ReadHeader => Task::ReadHeader,
            Task::ReadPayload(n) => Task::ReadPayload(*n),
            Task::WriteOut(b) => Task::WriteOut(b@),
            Task::WriteErr(b) => Task::WriteErr(b@),
            Task::Print(t) => Task::Print(t@),
            Task::Shutdown => Task::Shutdown,
            Task::Fail(f) => Task::Fail(f@),
        }
    }
}

/// What an event makes of a dialog: its new state and what is to be done.
pub type Move = (Dialog<Seq<char>>, Seq<Task<Seq<char>, Seq<u8>>>);

/// The tasks of a list as the model sees them.
pub open spec fn tasks_view(v: Seq<Task<String, Vec<u8>>>) -> Seq<Task<Seq<char>, Seq<u8>>> {
    Seq::new(v.len(), |i: int| v[i]@)
}

/// A dialog and what is to be done, as the model sees them.
pub open spec fn move_view(r: (Dialog<String>, Vec<Task<String, Vec<u8>>>)) -> Move {
    (r.0@, tasks_view(r.1@))
}

/// The run is given up.
pub open spec fn failed(f: Failure<Seq<char>>) -> Move {
    (Dialog::Over, seq![Task::Fail(f)])
}

/// The line of an error report as the client prints it: the number of the
/// error, counted from one, a bar, and the line.
pub open spec fn printed_line(index: nat, line: Seq<char>) -> Seq<char> {
    decimal_digits(index + 1) + " | "@ + line
}

/// The dialog once error `index` of `total` is through: the next error is
/// read, or, after the last, the run is given up.
pub open spec fn next_error(total: usize, index: usize) -> Move {
    if index + 1 >= total {
        failed(Failure::InvalidConfig(total))
    } else {
        (Dialog::Errors { total, index: (index + 1) as usize, left: None }, seq![Task::ReadLine])
    }
}

/// The beginning of a run: the lines that ask for it are sent, and the
/// broker's answer is read.
pub open spec fn begun(config: Seq<char>, vars: Seq<Pair>, mode: Option<RunMode>) -> Move {
    let lines = set_var_lines(vars).push(run_line(config, mode));
    (
        Dialog::AwaitAuthWait,
        Seq::new(lines.len(), |i: int| Task::<Seq<char>, Seq<u8>>::Send(lines[i])).push(
            Task::ReadLine,
        ),
    )
}

/// A line of the broker, without the line feed at its end.
pub open spec fn client_on_line(d: Dialog<Seq<char>>, line: Seq<char>) -> Move {
    match d {
        Dialog::AwaitAuthWait => match after_prefix(line, "auth wait "@) {
            Some(path) => (
                Dialog::AwaitTokenWritten(path),
                seq![Task::WriteToken(path, token_text())],
            ),
            None => failed(Failure::ExpectedAuthWait(line)),
        },
        Dialog::AwaitAccept => if line == "auth accept"@ {
            (Dialog::AwaitStart, seq![Task::ReadLine])
        } else {
            failed(Failure::ExpectedAccept(line))
        },
        Dialog::AwaitStart => if line == "run start"@ {
            (Dialog::AwaitHeader, seq![Task::ReadHeader])
        } else if begins_with(line, "run error_invalid_config: "@) {
            match count_after(line, "run error_invalid_config: "@) {
                None => failed(Failure::BadCount(line)),
                Some(n) => if n == 0 {
                    failed(Failure::InvalidConfig(0))
                } else {
                    (
                        Dialog::Errors { total: n as usize, index: 0, left: None },
                        seq![Task::ReadLine],
                    )
                },
            }
        } else {
            (Dialog::AwaitHeader, seq![Task::ReadHeader])
        },
        Dialog::Errors { total, index, left: None } => match number_value(
            line,
            usize::MAX as nat,
        ) {
            None => failed(Failure::BadCount(line)),
            Some(k) => if k == 0 {
                next_error(total, index)
            } else {
                (Dialog::Errors { total, index, left: Some(k as usize) }, seq![Task::ReadLine])
            },
        },
        Dialog::Errors { total, index, left: Some(k) } => {
            let print = Task::<Seq<char>, Seq<u8>>::Print(printed_line(index as nat, line));
            if k <= 1 {
                (next_error(total, index).0, seq![print] + next_error(total, index).1)
            } else {
                (
                    Dialog::Errors { total, index, left: Some((k - 1) as usize) },
                    seq![print, Task::ReadLine],
                )
            }
        },
        _ => (d, Seq::empty()),
    }
}

/// The token file was written, or could not be.
pub open spec fn client_on_token_written(d: Dialog<Seq<char>>, outcome: Result<(), Seq<char>>)
    -> Move {
    match d {
        Dialog::AwaitTokenWritten(path) => match outcome {
            Ok(_) => (Dialog::AwaitAccept, seq![Task::Send("auth done\n"@), Task::ReadLine]),
            Err(why) => failed(Failure::FailedToEditFileForAuth(path, why)),
        },
        _ => (d, Seq::empty()),
    }
}

/// The header byte of a frame: the byte that ends the stream, or the side
/// and the length of the payload that follows.
pub open spec fn client_on_header(d: Dialog<Seq<char>>, byte: u8) -> Move {
    match d {
        Dialog::AwaitHeader => if byte == 0 {
            (Dialog::Over, seq![Task::Shutdown])
        } else {
            let stderr = byte >= 128;
            let len = if stderr {
                (byte - 128) as u8
            } else {
                byte
            };
            (Dialog::AwaitPayload { stderr, len }, seq![Task::ReadPayload(len)])
        },
        _ => (d, Seq::empty()),
    }
}

/// The payload of a frame: it goes to the client's output of its side.
pub open spec fn client_on_payload(d: Dialog<Seq<char>>, bytes: Seq<u8>) -> Move {
    match d {
        Dialog::AwaitPayload { stderr, len } => (
            Dialog::AwaitHeader,
            seq![
                if stderr {
                    Task::WriteErr(bytes)
                } else {
                    Task::WriteOut(bytes)
                },
                Task::ReadHeader,
            ],
        ),
        _ => (d, Seq::empty()),
    }
}

/// The tasks of a client.
pub type Tasks = Vec<Task<String, Vec<u8>>>;

fn no_task() -> (v: Tasks)
    ensures
        tasks_view(v@) == Seq::<Task<Seq<char>, Seq<u8>>>::empty(),
{
    let v: Tasks = Vec::new();
    assert(tasks_view(v@) =~= Seq::<Task<Seq<char>, Seq<u8>>>::empty());
    v
}

fn one_task(a: Task<String, Vec<u8>>) -> (v: Tasks)
    ensures
        tasks_view(v@) == seq![a@],
{
    let mut v: Tasks = Vec::new();
    v.push(a);
    assert(tasks_view(v@) =~= seq![a@]);
    v
}

fn two_tasks(a: Task<String, Vec<u8>>, b: Task<String, Vec<u8>>) -> (v: Tasks)
    ensures
        tasks_view(v@) == seq![a@, b@],
{
    let mut v: Tasks = Vec::new();
    v.push(a);
    v.push(b);
    assert(tasks_view(v@) =~= seq![a@, b@]);
    v
}

fn give_up(f: Failure<String>) -> (r: (Dialog<String>, Tasks))
    ensures
        move_view(r) == failed(f@),
{
    (Dialog::Over, one_task(Task::Fail(f)))
}

fn after_error(total: usize, index: usize) -> (r: (Dialog<String>, Tasks))
    ensures
        move_view(r) == next_error(total, index),
{
    if index >= total || index + 1 >= total {
        give_up(Failure::InvalidConfig(total))
    } else {
        (Dialog::Errors { total, index: index + 1, left: None }, one_task(Task::ReadLine))
    }
}

/// The line of an error report as the client prints it.
pub fn print_line(index: usize, line: &str) -> (out: String)
    ensures
        out@ == printed_line(index as nat, line@),
{
    let mut buf: Vec<char> = Vec::new();
    extend_chars(&mut buf, &decimal(index as u128 + 1));
    extend_str(&mut buf, " | ");
    extend_str(&mut buf, line);
    assert(buf@ =~= printed_line(index as nat, line@));
    string_of(&buf)
}

impl Dialog<String> {
    /// Begins a run of the template `config` with the given variables.
    pub fn begin(config: &str, vars: &Vec<(String, String)>, mode: Option<RunMode>) -> (r: (
        Dialog<String>,
        Tasks,
    ))
        ensures
            move_view(r) == begun(config@, pairs_view(vars@), mode),
    {
        let lines = run_lines(config, vars, mode);
        let ghost lv = texts_view(lines@);
        let mut tasks: Tasks = Vec::new();
        let mut i: usize = 0;
        while i < lines.len()
            invariant
                i <= lines.len(),
                tasks.len() == i,
                forall|j: int|
                    0 <= j < i ==> (#[trigger] tasks@[j])@ == Task::<Seq<char>, Seq<u8>>::Send(
                        lines@[j]@,
                    ),
            decreases lines.len() - i,
        {
            tasks.push(Task::Send(lines[i].clone()));
            i += 1;
        }
        tasks.push(Task::ReadLine);
        assert(tasks_view(tasks@) =~= begun(config@, pairs_view(vars@), mode).1);
        (Dialog::AwaitAuthWait, tasks)
    }

    /// A line of the broker, without the line feed at its end.
    pub fn on_line(self, line: &str) -> (r: (Dialog<String>, Tasks))
        ensures
            move_view(r) == client_on_line(self@, line@),
    {
        let chars = to_chars(line);
        match self {
            Dialog::AwaitAuthWait => match strip_prefix(&chars, "auth wait ") {
                Some(path) => {
                    let path = string_of(&path);
                    (
                        Dialog::AwaitTokenWritten(path.clone()),
                        one_task(Task::WriteToken(path, token_bytes())),
                    )
                },
                None => give_up(Failure::ExpectedAuthWait(string_of(&chars))),
            },
            Dialog::AwaitAccept => {
                if is_word(&chars, "auth accept") {
                    (Dialog::AwaitStart, one_task(Task::ReadLine))
                } else {
                    give_up(Failure::ExpectedAccept(string_of(&chars)))
                }
            },
            Dialog::AwaitStart => {
                if is_word(&chars, "run start") {
                    (Dialog::AwaitHeader, one_task(Task::ReadHeader))
                } else if starts_with(&chars, &to_chars("run error_invalid_config: ")) {
                    match read_count(line, "run error_invalid_config: ") {
                        None => give_up(Failure::BadCount(string_of(&chars))),
                        Some(n) => {
                            if n == 0 {
                                give_up(Failure::InvalidConfig(0))
                            } else {
                                (
                                    Dialog::Errors { total: n, index: 0, left: None },
                                    one_task(Task::ReadLine),
                                )
                            }
                        },
                    }
                } else {
                    (Dialog::AwaitHeader, one_task(Task::ReadHeader))
                }
            },
            Dialog::Errors { total, index, left: None } => {
                match parse_number(&chars, usize::MAX as u128) {
                    None => give_up(Failure::BadCount(string_of(&chars))),
                    Some(k) => {
                        if k == 0 {
                            after_error(total, index)
                        } else {
                            (
                                Dialog::Errors { total, index, left: Some(k as usize) },
                                one_task(Task::ReadLine),
                            )
                        }
                    },
                }
            },
            Dialog::Errors { total, index, left: Some(k) } => {
                let print = Task::Print(print_line(index, line));
                if k <= 1 {
                    let (d, more) = after_error(total, index);
                    let mut tasks = one_task(print);
                    let ghost first = tasks_view(tasks@);
                    let ghost rest = tasks_view(more@);
                    let mut more = more;
                    tasks.append(&mut more);
                    assert(tasks_view(tasks@) =~= first + rest);
                    (d, tasks)
                } else {
                    (
                        Dialog::Errors { total, index, left: Some(k - 1) },
                        two_tasks(print, Task::ReadLine),
                    )
                }
            },
            other => (other, no_task()),
        }
    }

    /// The token file was written, or could not be; `outcome` says why not.
    pub fn on_token_written(self, outcome: Result<(), String>) -> (r: (Dialog<String>, Tasks))
        ensures
            move_view(r) == client_on_token_written(
                self@,
                match outcome {
                    Ok(_) => Ok(()),
                    Err(why) => Err(why@),
                },
            ),
    {
        match self {
            Dialog::AwaitTokenWritten(path) => match outcome {
                Ok(_) => (
                    Dialog::AwaitAccept,
                    two_tasks(Task::Send("auth done\n".to_owned()), Task::ReadLine),
                ),
                Err(why) => give_up(Failure::FailedToEditFileForAuth(path, why)),
            },
            other => (other, no_task()),
        }
    }

    /// The header byte of a frame.
    pub fn on_header(self, byte: u8) -> (r: (Dialog<String>, Tasks))
        ensures
            move_view(r) == client_on_header(self@, byte),
    {
        match self {
            Dialog::AwaitHeader => match decode_header(byte) {
                Header::End => (Dialog::Over, one_task(Task::Shutdown)),
                Header::Data { stderr, len } => (
                    Dialog::AwaitPayload { stderr, len },
                    one_task(Task::ReadPayload(len)),
                ),
            },
            other => (other, no_task()),
        }
    }

    /// The payload of a frame.
    pub fn on_payload(self, bytes: Vec<u8>) -> (r: (Dialog<String>, Tasks))
        ensures
            move_view(r) == client_on_payload(self@, bytes@),
    {
        match self {
            Dialog::AwaitPayload { stderr, len } => {
                let write = if stderr {
                    Task::WriteErr(bytes)
                } else {
                    Task::WriteOut(bytes)
                };
                (Dialog::AwaitHeader, two_tasks(write, Task::ReadHeader))
            },
            other => (other, no_task()),
        }
    }
}

/// The templates that the lines of a listing name, each with the policy
/// file it names: the first line announces how many there are, and two lines
/// follow for each. `None` where the first line announces nothing or the
/// number of lines is not what it announces.
pub open spec fn listed(lines: Seq<Seq<char>>) -> Option<Seq<Pair>> {
    if lines.len() == 0 {
        None
    } else {
        match count_after(lines[0], "listing configs; count: "@) {
            None => None,
            Some(n) => if lines.len() == 1 + 2 * n {
                Some(Seq::new(n, |i: int| (lines[1 + 2 * i], lines[2 + 2 * i])))
            } else {
                None
            },
        }
    }
}

impl Con {
    /// What is sent to the broker to ask for the templates on offer.
    pub fn list_request(&self) -> (out: String)
        ensures
            out@ == "list-configs\n"@,
    {
        "list-configs\n".to_owned()
    }

    /// What is sent to the broker to ask it to load its templates anew.
    pub fn reload_request(&self) -> (out: String)
        ensures
            out@ == "reload-configs\n"@,
    {
        "reload-configs\n".to_owned()
    }

    /// The templates on offer, read from the broker's answer to
    /// `list-configs`, one line in each text.
    pub fn list(&self, response: &Vec<String>) -> (r: Option<Vec<(String, String)>>)
        ensures
            match listed(texts_view(response@)) {
                Some(pairs) => r matches Some(v) && pairs_view(v@) == pairs,
                None => r is None,
            },
    {
        if response.len() == 0 {
            return None;
        }
        match list_count(response[0].as_str()) {
            None => None,
            Some(n) => {
                if (response.len() - 1) % 2 != 0 || (response.len() - 1) / 2 != n {
                    return None;
                }
                let mut out: Vec<(String, String)> = Vec::new();
                let mut i: usize = 0;
                while i < n
                    invariant
                        i <= n,
                        response.len() == 1 + 2 * n,
                        out.len() == i,
                        forall|j: int|
                            0 <= j < i ==> (#[trigger] out@[j]).0@ == response@[1 + 2 * j]@
                                && out@[j].1@ == response@[2 + 2 * j]@,
                    decreases n - i,
                {
                    out.push((response[1 + 2 * i].clone(), response[2 + 2 * i].clone()));
                    i += 1;
                }
                assert(pairs_view(out@) =~= listed(texts_view(response@))->0);
                Some(out)
            },
        }
    }

    /// Whether the broker's answer to `reload-configs` confirms the
    /// request.
    pub fn reload_configs(&self, response: &str) -> (confirmed: bool)
        ensures
            confirmed == (response@ == "reload-configs requested"@),
    {
        is_word(&to_chars(response), "reload-configs requested")
    }

    /// Begins a run of the template `config` with the given variables.
    pub fn run(&self, config: &str, vars: &Vec<(String, String)>, mode: Option<RunMode>) -> (r: (
        Dialog<String>,
        Tasks,
    ))
        ensures
            move_view(r) == begun(config@, pairs_view(vars@), mode),
    {
        Dialog::begin(config, vars, mode)
    }
}

impl Failure<String> {
    /// The error that the caller of a run gets for this failure, if it gets
    /// one: that the token file could not be written. Every other failure
    /// means that the broker broke the protocol or refused the run.
    pub fn run_err(self) -> (r: Option<ConRunErr>)
        ensures
            match self {
                Failure::FailedToEditFileForAuth(path, why) => r matches Some(
                    ConRunErr::FailedToEditFileForAuth(p, w),
                ) && p@ == path@ && w@ == why@,
                _ => r is None,
            },
    {
        match self {
            Failure::FailedToEditFileForAuth(path, why) => Some(
                ConRunErr::FailedToEditFileForAuth(path, why),
            ),
            _ => None,
        }
    }
}

} // verus!

