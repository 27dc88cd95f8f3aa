use bobbin_cli::command::{
    console_after_load, plan_console, plan_control, plan_itm, plan_itm_command, plan_load, plan_openocd,
    reset_variant, CommandError, ConsoleMode, DebugCommand, LoadOptions, ResetVariant, TracePlan,
};
use bobbin_cli::device::{Device, SelectError};
use bobbin_cli::dispatch::{CapabilityError, DebuggerKind, LoaderKind, Registry};

fn board() -> Device {
    Device {
        vendor_id: 0x0483,
        product_id: 0x374b,
        vendor_string: String::from("STMicroelectronics"),
        product_string: String::from("STM32 STLink"),
        serial_number: String::from("0671FF"),
        device_type: None,
        loader_type: Some(String::from("openocd")),
        debugger_type: Some(String::from("openocd")),
        bossa_path: None,
        cdc_path: Some(String::from("/dev/ttyACM1")),
        msd_path: None,
        openocd_serial: Some(String::from("hla_serial 0671FF")),
        can_trace_itm: true,
    }
}

/// Stands in for a debugger; records whether any operation reached it.
struct RecordingDebugger {
    invoked: bool,
}

impl RecordingDebugger {
    fn run(&mut self, _cmd: DebugCommand) {
        self.invoked = true;
    }
}

#[test]
fn control_without_debugger_fails_before_any_call() {
    let mut d = board();
    d.debugger_type = None;
    let mut probe = RecordingDebugger { invoked: false };
    match plan_control(vec![d], &Registry::standard(), DebugCommand::Halt) {
        Ok(p) => probe.run(p.command),
        Err(e) => assert_eq!(e, CommandError::Capability(CapabilityError::NoCapability)),
    }
    assert!(!probe.invoked);
}

#[test]
fn control_with_unknown_debugger() {
    let mut d = board();
    d.debugger_type = Some(String::from("blackmagic"));
    let r = plan_control(vec![d], &Registry::standard(), DebugCommand::Resume);
    assert_eq!(
        r.err(),
        Some(CommandError::Capability(CapabilityError::UnknownCapability(String::from("blackmagic"))))
    );
}

#[test]
fn control_resolves_debugger_and_command() {
    let r = plan_control(vec![board()], &Registry::standard(), DebugCommand::Reset(ResetVariant::Init)).unwrap();
    assert_eq!(r.debugger, DebuggerKind::OpenOcd);
    assert_eq!(r.command, DebugCommand::Reset(ResetVariant::Init));
    assert_eq!(r.device.serial_number, "0671FF");
}

#[test]
fn control_selection_errors() {
    let r = plan_control(vec![], &Registry::standard(), DebugCommand::Halt);
    assert_eq!(r.err(), Some(CommandError::Select(SelectError::NoMatch)));
    let r = plan_control(vec![board(), board()], &Registry::standard(), DebugCommand::Halt);
    assert_eq!(r.err(), Some(CommandError::Select(SelectError::AmbiguousMatch(2))));
}

#[test]
fn reset_flags_pick_one_variant() {
    assert_eq!(reset_variant(false, false, false), ResetVariant::Plain);
    assert_eq!(reset_variant(true, true, true), ResetVariant::Run);
    assert_eq!(reset_variant(false, true, true), ResetVariant::Halt);
    assert_eq!(reset_variant(false, false, true), ResetVariant::Init);
}

#[test]
fn itm_without_clock_is_config_error() {
    assert_eq!(plan_itm(&board(), None, None), Err(CommandError::MissingTargetClock));
    let r = plan_itm_command(vec![board()], None, None);
    assert_eq!(r.err(), Some(CommandError::MissingTargetClock));
}

#[test]
fn itm_clock_sources() {
    let d = board();
    assert_eq!(plan_itm(&d, Some(72_000_000), Some(8_000_000)), Ok(TracePlan { target_clock: 72_000_000, trace_clock: 2_000_000 }));
    assert_eq!(plan_itm(&d, None, Some(8_000_000)), Ok(TracePlan { target_clock: 8_000_000, trace_clock: 2_000_000 }));
    let mut n = board();
    n.can_trace_itm = false;
    assert_eq!(plan_itm(&n, Some(1), None), Err(CommandError::TraceUnsupported));
}

#[test]
fn load_plan_and_console() {
    let opts = LoadOptions { run: true, itm: false, noconsole: false, packet: true };
    let p = plan_load(vec![board()], &Registry::standard(), opts).unwrap();
    assert_eq!(p.loader, LoaderKind::OpenOcd);
    assert_eq!(p.console, Some(ConsoleMode::Framed));
    let d = board();
    assert_eq!(console_after_load(&d, LoadOptions { packet: false, ..opts }), Some(ConsoleMode::Raw));
    assert_eq!(console_after_load(&d, LoadOptions { itm: true, ..opts }), None);
    assert_eq!(console_after_load(&d, LoadOptions { noconsole: true, ..opts }), None);
    assert_eq!(console_after_load(&d, LoadOptions { run: false, ..opts }), None);
    let mut nocdc = board();
    nocdc.cdc_path = None;
    assert_eq!(console_after_load(&nocdc, opts), None);
}

#[test]
fn load_without_loader() {
    let mut d = board();
    d.loader_type = None;
    let opts = LoadOptions { run: false, itm: false, noconsole: false, packet: false };
    let r = plan_load(vec![d], &Registry::standard(), opts);
    assert_eq!(r.err(), Some(CommandError::Capability(CapabilityError::NoCapability)));
}

#[test]
fn console_and_openocd_paths() {
    assert_eq!(plan_console(vec![board()]), Ok(String::from("/dev/ttyACM1")));
    let mut d = board();
    d.cdc_path = None;
    d.openocd_serial = None;
    assert_eq!(plan_console(vec![d.clone()]), Err(CommandError::NoConsole));
    assert_eq!(plan_openocd(vec![board()]), Ok(String::from("hla_serial 0671FF")));
    assert_eq!(plan_openocd(vec![d]), Err(CommandError::NoSerialIdentifier));
}
