//! Keeping a single instance running. A starting instance creates a named
//! mutex; when another instance already holds it, the new one asks the old
//! one to restore its tray icon, or takes over from an old instance whose
//! tray is dead or hung, or exits. The decisions are a state machine: the
//! caller performs each `SingleAction` and feeds the answer back as a
//! `SingleEvent`.

use vstd::prelude::*;
use crate::cmd::{lemma_parse_dec_roundtrip, parse_int_spec};
use crate::text::{dec_str, push_dec};

verus! {

/// Where the start-up negotiation stands.
#[derive(Clone, Copy, Debug, PartialEq, Eq, Structural)]
pub enum SingleStage {
    Start,
    /// Waiting for the mutex to be created.
    AwaitMutex,
    /// Waiting for the old instance's tray window to be looked up.
    AwaitTray,
    /// Waiting for the thread and process owning the tray window.
    AwaitThread,
    /// Waiting to learn whether the tray thread is alive (process `pid`).
    AwaitAlive { pid: u32 },
    /// The tray thread is dead: is process `pid` really this program?
    AwaitDeadCheck { pid: u32 },
    /// Waiting for the old instance to confirm that it restored its icon.
    AwaitRestore { pid: u32 },
    /// The old instance did not answer: is process `pid` really this program?
    AwaitHungCheck { pid: u32 },
    /// Waiting for the process id recorded in the pid file.
    AwaitPidFile,
    /// Is the recorded process `pid` really this program?
    AwaitFileCheck { pid: u32 },
    /// Waiting for a process running the same executable.
    AwaitProcess,
    /// Waiting for the old instance to be terminated and replaced.
    AwaitTakeOver,
    Done,
}

/// What the caller is asked to do next.
#[derive(Clone, Copy, Debug, PartialEq, Eq, Structural)]
pub enum SingleAction {
    CreateMutex,
    FindTrayWindow,
    QueryWindowThread,
    CheckThreadAlive(u32),
    CheckIsWinsnap(u32),
    /// Ask the old instance to restore its tray icon and wait for it.
    RequestRestore,
    ReadPidFile,
    FindProcess,
    /// Terminate process `pid` and take the mutex over.
    TakeOver(u32),
    /// First instance: record the pid and run.
    RunRecordingPid,
    /// The mutex could not be created: run anyway.
    RunWithoutPid,
    /// The old instance was replaced: run.
    RunAfterTakeOver,
    /// The old instance restored its icon: release the mutex and exit.
    ExitConfirmed,
    /// No way to take over: release the mutex, report it and exit.
    ExitUnable,
    /// Taking over failed: exit.
    ExitTakeOverFailed,
}

/// The thread and process that own a window.
#[derive(Clone, Copy, Debug, PartialEq, Eq, Structural)]
pub struct ThreadOwner {
    pub tid: u32,
    pub pid: u32,
}

/// An answer to the last action.
#[derive(Clone, Copy, Debug, PartialEq, Eq, Structural)]
pub enum SingleEvent {
    Begin,
    MutexFailed,
    MutexCreated { existed: bool },
    TrayWindow { found: bool },
    WindowThread(Option<ThreadOwner>),
    ThreadAlive(bool),
    IsWinsnap(bool),
    Restored(bool),
    PidFile(Option<u32>),
    Process(Option<u32>),
    TookOver(bool),
}

pub open spec fn single_step_spec(stage: SingleStage, event: SingleEvent, own_pid: u32) -> (SingleStage, SingleAction) {
    match (stage, event) {
        (SingleStage::Start, SingleEvent::Begin) => (SingleStage::AwaitMutex, SingleAction::CreateMutex),
        (SingleStage::AwaitMutex, SingleEvent::MutexFailed) => (SingleStage::Done, SingleAction::RunWithoutPid),
        (SingleStage::AwaitMutex, SingleEvent::MutexCreated { existed }) => if existed {
            (SingleStage::AwaitTray, SingleAction::FindTrayWindow)
        } else {
            (SingleStage::Done, SingleAction::RunRecordingPid)
        },
        (SingleStage::AwaitTray, SingleEvent::TrayWindow { found }) => if found {
            (SingleStage::AwaitThread, SingleAction::QueryWindowThread)
        } else {
            (SingleStage::AwaitPidFile, SingleAction::ReadPidFile)
        },
        (SingleStage::AwaitThread, SingleEvent::WindowThread(t)) => match t {
            Some(o) => (SingleStage::AwaitAlive { pid: o.pid }, SingleAction::CheckThreadAlive(o.tid)),
            None => (SingleStage::AwaitPidFile, SingleAction::ReadPidFile),
        },
        (SingleStage::AwaitAlive { pid }, SingleEvent::ThreadAlive(alive)) => if alive {
            (SingleStage::AwaitRestore { pid }, SingleAction::RequestRestore)
        } else {
            (SingleStage::AwaitDeadCheck { pid }, SingleAction::CheckIsWinsnap(pid))
        },
        (SingleStage::AwaitDeadCheck { pid }, SingleEvent::IsWinsnap(ok)) => if ok {
            (SingleStage::AwaitTakeOver, SingleAction::TakeOver(pid))
        } else {
            (SingleStage::AwaitPidFile, SingleAction::ReadPidFile)
        },
        (SingleStage::AwaitRestore { pid }, SingleEvent::Restored(ok)) => if ok {
            (SingleStage::Done, SingleAction::ExitConfirmed)
        } else {
            (SingleStage::AwaitHungCheck { pid }, SingleAction::CheckIsWinsnap(pid))
        },
        (SingleStage::AwaitHungCheck { pid }, SingleEvent::IsWinsnap(ok)) => if ok {
            (SingleStage::AwaitTakeOver, SingleAction::TakeOver(pid))
        } else {
            (SingleStage::AwaitPidFile, SingleAction::ReadPidFile)
        },
        (SingleStage::AwaitPidFile, SingleEvent::PidFile(p)) => match p {
            Some(pid) => (SingleStage::AwaitFileCheck { pid }, SingleAction::CheckIsWinsnap(pid)),
            None => (SingleStage::AwaitProcess, SingleAction::FindProcess),
        },
        (SingleStage::AwaitFileCheck { pid }, SingleEvent::IsWinsnap(ok)) => if ok {
            (SingleStage::AwaitTakeOver, SingleAction::TakeOver(pid))
        } else {
            (SingleStage::AwaitProcess, SingleAction::FindProcess)
        },
        (SingleStage::AwaitProcess, SingleEvent::Process(p)) => match p {
            Some(pid) => if pid != own_pid {
                (SingleStage::AwaitTakeOver, SingleAction::TakeOver(pid))
            } else {
                (SingleStage::Done, SingleAction::ExitUnable)
            },
            None => (SingleStage::Done, SingleAction::ExitUnable),
        },
        (SingleStage::AwaitTakeOver, SingleEvent::TookOver(ok)) => if ok {
            (SingleStage::Done, SingleAction::RunAfterTakeOver)
        } else {
            (SingleStage::Done, SingleAction::ExitTakeOverFailed)
        },
        _ => (SingleStage::Done, SingleAction::ExitUnable),
    }
}

/// One step of the start-up negotiation: the next stage and action for the
/// answer `event` in `stage`, with `own_pid` this process's id (see
/// `single_step_spec`). An old instance is only terminated when it was
/// confirmed to run this program, or found running this program's
/// executable under another process id.
pub fn single_step(stage: SingleStage, event: SingleEvent, own_pid: u32) -> (r: (SingleStage, SingleAction))
    ensures
        r == single_step_spec(stage, event, own_pid),
        r.1 matches SingleAction::TakeOver(p) ==> {
            ||| event == SingleEvent::IsWinsnap(true) && (stage == SingleStage::AwaitDeadCheck { pid: p }
                || stage == SingleStage::AwaitHungCheck { pid: p } || stage == SingleStage::AwaitFileCheck { pid: p })
            ||| stage == SingleStage::AwaitProcess && event == SingleEvent::Process(Some(p)) && p != own_pid
        },
        r.1 == SingleAction::RequestRestore ==> event == SingleEvent::ThreadAlive(true),
{
    match (stage, event) {
        (SingleStage::Start, SingleEvent::Begin) => (SingleStage::AwaitMutex, SingleAction::CreateMutex),
        (SingleStage::AwaitMutex, SingleEvent::MutexFailed) => (SingleStage::Done, SingleAction::RunWithoutPid),
        (SingleStage::AwaitMutex, SingleEvent::MutexCreated { existed }) => if existed {
            (SingleStage::AwaitTray, SingleAction::FindTrayWindow)
        } else {
            (SingleStage::Done, SingleAction::RunRecordingPid)
        },
        (SingleStage::AwaitTray, SingleEvent::TrayWindow { found }) => if found {
            (SingleStage::AwaitThread, SingleAction::QueryWindowThread)
        } else {
            (SingleStage::AwaitPidFile, SingleAction::ReadPidFile)
        },
        (SingleStage::AwaitThread, SingleEvent::WindowThread(t)) => match t {
            Some(o) => (SingleStage::AwaitAlive { pid: o.pid }, SingleAction::CheckThreadAlive(o.tid)),
            None => (SingleStage::AwaitPidFile, SingleAction::ReadPidFile),
        },
        (SingleStage::AwaitAlive { pid }, SingleEvent::ThreadAlive(alive)) => if alive {
            (SingleStage::AwaitRestore { pid }, SingleAction::RequestRestore)
        } else {
            (SingleStage::AwaitDeadCheck { pid }, SingleAction::CheckIsWinsnap(pid))
        },
        (SingleStage::AwaitDeadCheck { pid }, SingleEvent::IsWinsnap(ok)) => if ok {
            (SingleStage::AwaitTakeOver, SingleAction::TakeOver(pid))
        } else {
            (SingleStage::AwaitPidFile, SingleAction::ReadPidFile)
        },
        (SingleStage::AwaitRestore { pid }, SingleEvent::Restored(ok)) => if ok {
            (SingleStage::Done, SingleAction::ExitConfirmed)
        } else {
            (SingleStage::AwaitHungCheck { pid }, SingleAction::CheckIsWinsnap(pid))
        },
        (SingleStage::AwaitHungCheck { pid }, SingleEvent::IsWinsnap(ok)) => if ok {
            (SingleStage::AwaitTakeOver, SingleAction::TakeOver(pid))
        } else {
            (SingleStage::AwaitPidFile, SingleAction::ReadPidFile)
        },
        (SingleStage::AwaitPidFile, SingleEvent::PidFile(p)) => match p {
            Some(pid) => (SingleStage::AwaitFileCheck { pid }, SingleAction::CheckIsWinsnap(pid)),
            None => (SingleStage::AwaitProcess, SingleAction::FindProcess),
        },
        (SingleStage::AwaitFileCheck { pid }, SingleEvent::IsWinsnap(ok)) => if ok {
            (SingleStage::AwaitTakeOver, SingleAction::TakeOver(pid))
        } else {
            (SingleStage::AwaitProcess, SingleAction::FindProcess)
        },
        (SingleStage::AwaitProcess, SingleEvent::Process(p)) => match p {
            Some(pid) => if pid != own_pid {
                (SingleStage::AwaitTakeOver, SingleAction::TakeOver(pid))
            } else {
                (SingleStage::Done, SingleAction::ExitUnable)
            },
            None => (SingleStage::Done, SingleAction::ExitUnable),
        },
        (SingleStage::AwaitTakeOver, SingleEvent::TookOver(ok)) => if ok {
            (SingleStage::Done, SingleAction::RunAfterTakeOver)
        } else {
            (SingleStage::Done, SingleAction::ExitTakeOverFailed)
        },
        _ => (SingleStage::Done, SingleAction::ExitUnable),
    }
}

/// Whether the action ends the negotiation, and whether the program then runs.
pub open spec fn finishes(a: SingleAction) -> Option<bool> {
    match a {
        SingleAction::RunRecordingPid | SingleAction::RunWithoutPid | SingleAction::RunAfterTakeOver => Some(true),
        SingleAction::ExitConfirmed | SingleAction::ExitUnable | SingleAction::ExitTakeOverFailed => Some(false),
        _ => None,
    }
}

/// Law: a final action always leaves the negotiation done, and one that is
/// done answers everything with a final action.
pub proof fn lemma_single_done(stage: SingleStage, event: SingleEvent, own_pid: u32)
    ensures
        finishes(single_step_spec(stage, event, own_pid).1) is Some ==> single_step_spec(stage, event, own_pid).0 == SingleStage::Done,
        stage == SingleStage::Done ==> finishes(single_step_spec(stage, event, own_pid).1) is Some,
{
}


/// The text recorded in the pid file for process `pid`: its decimal digits.
pub fn pid_text(pid: u32) -> (r: String)
    ensures
        r@ == dec_str(pid as nat),
{
    let mut s = String::new();
    push_dec(&mut s, pid as u64);
    s
}

/// Law: the recorded text of a process id parses back (as `parse_u32`
/// does) to the same id, so a later instance finds the process again.
pub proof fn lemma_pid_text_roundtrip(pid: u32)
    ensures
        parse_int_spec(dec_str(pid as nat), false, 0, u32::MAX as int) == Some(pid as int),
{
    lemma_parse_dec_roundtrip(pid as nat, false, u32::MAX as int);
}

} // verus!
