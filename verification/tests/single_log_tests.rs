use winsnap::autostart::{ps_quote, shortcut_script};
use winsnap::cmd::parse_u32;
use winsnap::log::{c, change_line, detail_line, format_change, format_local_time, win_info, CLR_INTERACT, CLR_NUDGE};
use winsnap::single::{pid_text, single_step, SingleAction, SingleEvent, SingleStage, ThreadOwner};

fn run(events: &[SingleEvent], own: u32) -> Vec<SingleAction> {
    let mut stage = SingleStage::Start;
    let mut out = Vec::new();
    for e in events {
        let (s, a) = single_step(stage, *e, own);
        stage = s;
        out.push(a);
    }
    out
}

#[test]
fn first_instance_runs() {
    let acts = run(&[SingleEvent::Begin, SingleEvent::MutexCreated { existed: false }], 1);
    assert_eq!(acts, vec![SingleAction::CreateMutex, SingleAction::RunRecordingPid]);
    let acts = run(&[SingleEvent::Begin, SingleEvent::MutexFailed], 1);
    assert_eq!(acts[1], SingleAction::RunWithoutPid);
}

#[test]
fn healthy_old_instance_keeps_running() {
    let acts = run(
        &[
            SingleEvent::Begin,
            SingleEvent::MutexCreated { existed: true },
            SingleEvent::TrayWindow { found: true },
            SingleEvent::WindowThread(Some(ThreadOwner { tid: 11, pid: 22 })),
            SingleEvent::ThreadAlive(true),
            SingleEvent::Restored(true),
        ],
        1,
    );
    assert_eq!(
        acts,
        vec![
            SingleAction::CreateMutex,
            SingleAction::FindTrayWindow,
            SingleAction::QueryWindowThread,
            SingleAction::CheckThreadAlive(11),
            SingleAction::RequestRestore,
            SingleAction::ExitConfirmed,
        ]
    );
}

#[test]
fn dead_tray_is_taken_over() {
    let acts = run(
        &[
            SingleEvent::Begin,
            SingleEvent::MutexCreated { existed: true },
            SingleEvent::TrayWindow { found: true },
            SingleEvent::WindowThread(Some(ThreadOwner { tid: 11, pid: 22 })),
            SingleEvent::ThreadAlive(false),
            SingleEvent::IsWinsnap(true),
            SingleEvent::TookOver(true),
        ],
        1,
    );
    assert_eq!(acts[5], SingleAction::TakeOver(22));
    assert_eq!(acts[6], SingleAction::RunAfterTakeOver);
}

#[test]
fn fallbacks_and_refusals() {
    // No tray window, a stale pid file, then a process that is this one.
    let acts = run(
        &[
            SingleEvent::Begin,
            SingleEvent::MutexCreated { existed: true },
            SingleEvent::TrayWindow { found: false },
            SingleEvent::PidFile(Some(33)),
            SingleEvent::IsWinsnap(false),
            SingleEvent::Process(Some(5)),
        ],
        5,
    );
    assert_eq!(
        acts[2..].to_vec(),
        vec![SingleAction::ReadPidFile, SingleAction::CheckIsWinsnap(33), SingleAction::FindProcess, SingleAction::ExitUnable]
    );
    // A hung old instance that is not this program is never terminated.
    let acts = run(
        &[
            SingleEvent::Begin,
            SingleEvent::MutexCreated { existed: true },
            SingleEvent::TrayWindow { found: true },
            SingleEvent::WindowThread(Some(ThreadOwner { tid: 1, pid: 2 })),
            SingleEvent::ThreadAlive(true),
            SingleEvent::Restored(false),
            SingleEvent::IsWinsnap(false),
            SingleEvent::PidFile(None),
            SingleEvent::Process(Some(9)),
            SingleEvent::TookOver(false),
        ],
        5,
    );
    assert_eq!(acts[6], SingleAction::ReadPidFile);
    assert_eq!(acts[7], SingleAction::FindProcess);
    assert_eq!(acts[8], SingleAction::TakeOver(9));
    assert_eq!(acts[9], SingleAction::ExitTakeOverFailed);
    // An answer that does not fit the stage ends the negotiation.
    assert_eq!(single_step(SingleStage::AwaitTray, SingleEvent::Restored(true), 5), (SingleStage::Done, SingleAction::ExitUnable));
}

#[test]
fn pid_text_reads_back() {
    for pid in [0u32, 7, 1234, u32::MAX] {
        assert_eq!(pid_text(pid), pid.to_string());
        assert_eq!(parse_u32(&pid_text(pid)), Some(pid));
    }
}

#[test]
fn powershell_quoting() {
    assert_eq!(ps_quote("C:\\it's\\x"), "C:\\it''s\\x");
    assert_eq!(ps_quote("''"), "''''");
    assert_eq!(
        shortcut_script("C:\\S\\winsnap.lnk", "C:\\O'B\\winsnap.exe", "C:\\O'B"),
        "$ws = New-Object -ComObject WScript.Shell; $lnk = $ws.CreateShortcut('C:\\S\\winsnap.lnk'); \
         $lnk.TargetPath = 'C:\\O''B\\winsnap.exe'; $lnk.WorkingDirectory = 'C:\\O''B'; $lnk.Save()"
    );
}

#[test]
fn log_text() {
    assert_eq!(format_local_time(0), "1970-01-01 08:00:00");
    assert_eq!(format_local_time(951782400), "2000-02-29 08:00:00");
    assert_eq!(format_local_time(1704067199), "2024-01-01 07:59:59");
    assert_eq!(format_change((10, 20, 110, 220), (-5, 0, 795, 600)), "(10,20,100x200) -> (-5,0,800x600)");
    assert_eq!(c("x", 92), "\x1b[92mx\x1b[0m");
    // Handle 1: colour index 3 → 92.
    assert_eq!(win_info(1, "code", "main.rs"), "\x1b[92m[code]\x1b[0m main.rs");
    assert_eq!(
        change_line("T", "交互", CLR_INTERACT, "定位-5", 92, "I", "C"),
        "[T] \x1b[96m[交互]\x1b[0m \x1b[92m[定位-5]\x1b[0m I C"
    );
    assert_eq!(
        detail_line("T", "缩放", 95, "D", "I", "C"),
        "[T] \x1b[96m[交互]\x1b[0m \x1b[95m[缩放]\x1b[0m D I C"
    );
    assert_eq!(CLR_NUDGE, 93);
}
