//! What each device-targeting command decides before it acts: the one device,
//! the handler, the operation, and what follows a load.
use vstd::prelude::*;
use crate::device::{select_one, selection, Device, SelectError};
use crate::dispatch::{
    resolution, CapabilityError, DebuggerKind, LoaderKind, Registry, TRACE_CLOCK,
};

verus! {

/// The variant of a reset.
#[derive(Debug, Clone, Copy, PartialEq, Eq, Structural)]
pub enum ResetVariant {
    Plain,
    Run,
    Halt,
    Init,
}

/// One debug operation; exactly one is selected per control invocation.
#[derive(Debug, Clone, Copy, PartialEq, Eq, Structural)]
pub enum DebugCommand {
    Halt,
    Resume,
    Reset(ResetVariant),
}

/// How a console session shows what the board sends.
#[derive(Debug, Clone, Copy, PartialEq, Eq, Structural)]
pub enum ConsoleMode {
    Raw,
    Framed,
}

/// The flags of `load`.
#[derive(Debug, Clone, Copy, PartialEq, Eq, Structural)]
pub struct LoadOptions {
    pub run: bool,
    pub itm: bool,
    pub noconsole: bool,
    pub packet: bool,
}

/// The clocks of an ITM trace, in Hz.
#[derive(Debug, Clone, Copy, PartialEq, Eq, Structural)]
pub struct TracePlan {
    pub target_clock: u32,
    pub trace_clock: u32,
}

/// Why a command stops before acting.
#[derive(Debug, Clone, PartialEq, Eq)]
pub enum CommandError {
    Select(SelectError),
    Capability(CapabilityError),
    /// The device cannot trace ITM.
    TraceUnsupported,
    /// No target clock was given nor configured for the trace.
    MissingTargetClock,
    /// The device exposes no serial console.
    NoConsole,
    /// The device has no OpenOCD serial identifier.
    NoSerialIdentifier,
}

/// A resolved control invocation.
pub struct ControlPlan {
    pub device: Device,
    pub debugger: DebuggerKind,
    pub command: DebugCommand,
}

/// A resolved load invocation.
pub struct LoadPlan {
    pub device: Device,
    pub loader: LoaderKind,
    /// The console to open before loading and view afterwards, if any.
    pub console: Option<ConsoleMode>,
}

pub open spec fn reset_variant_of(run: bool, halt: bool, init: bool) -> ResetVariant {
    if run {
        ResetVariant::Run
    } else if halt {
        ResetVariant::Halt
    } else if init {
        ResetVariant::Init
    } else {
        ResetVariant::Plain
    }
}

/// The reset variant of the `reset` flags; `--run` wins over `--halt`, which
/// wins over `--init`.
pub fn reset_variant(run: bool, halt: bool, init: bool) -> (r: ResetVariant)
    ensures
        r == reset_variant_of(run, halt, init),
{
    if run {
        ResetVariant::Run
    } else if halt {
        ResetVariant::Halt
    } else if init {
        ResetVariant::Init
    } else {
        ResetVariant::Plain
    }
}

/// Whether resolving `tag` gave the error `e`, as the resolvers state it.
pub open spec fn capability_error_matches(tag: Option<String>, t: Seq<char>, e: CapabilityError) -> bool {
    match e {
        CapabilityError::NoCapability => tag is None,
        CapabilityError::UnknownCapability(s) => tag is Some && s@ == t,
    }
}

/// Selects the one device and its debugger for `command`. Fails on the
/// selection first, then on the debugger, and touches no hardware.
pub fn plan_control(devices: Vec<Device>, registry: &Registry, command: DebugCommand) -> (r: Result<ControlPlan, CommandError>)
    ensures
        match selection(devices@) {
            Err(e) => r == Err::<ControlPlan, CommandError>(CommandError::Select(e)),
            Ok(d) => match resolution(registry.debuggers@, d.debugger_type) {
                Ok(k) => r matches Ok(p) && p.device == d && p.debugger == k && p.command == command,
                Err(t) => r matches Err(CommandError::Capability(e)) && capability_error_matches(d.debugger_type, t, e),
            },
        },
{
    let device = match select_one(devices) {
        Ok(d) => d,
        Err(e) => return Err(CommandError::Select(e)),
    };
    match registry.resolve_debugger(&device) {
        Ok(debugger) => Ok(ControlPlan { device, debugger, command }),
        Err(e) => Err(CommandError::Capability(e)),
    }
}

/// The target clock of a trace: the one given on the command line, else the
/// configured one.
pub open spec fn trace_plan_of(d: Device, explicit: Option<u32>, configured: Option<u32>) -> Result<TracePlan, CommandError> {
    if !d.can_trace_itm {
        Err(CommandError::TraceUnsupported)
    } else {
        match explicit {
            Some(c) => Ok(TracePlan { target_clock: c, trace_clock: TRACE_CLOCK }),
            None => match configured {
                Some(c) => Ok(TracePlan { target_clock: c, trace_clock: TRACE_CLOCK }),
                None => Err(CommandError::MissingTargetClock),
            },
        }
    }
}

/// The clocks of an ITM trace on `d`; fails, with no trace started, when the
/// device cannot trace or no target clock is known.
pub fn plan_itm(d: &Device, explicit: Option<u32>, configured: Option<u32>) -> (r: Result<TracePlan, CommandError>)
    ensures
        r == trace_plan_of(*d, explicit, configured),
{
    if !d.can_trace_itm {
        return Err(CommandError::TraceUnsupported);
    }
    match explicit {
        Some(c) => Ok(TracePlan { target_clock: c, trace_clock: TRACE_CLOCK }),
        None => match configured {
            Some(c) => Ok(TracePlan { target_clock: c, trace_clock: TRACE_CLOCK }),
            None => Err(CommandError::MissingTargetClock),
        },
    }
}

/// Selects the one device for `itm` and its trace clocks.
pub fn plan_itm_command(devices: Vec<Device>, explicit: Option<u32>, configured: Option<u32>) -> (r: Result<(Device, TracePlan), CommandError>)
    ensures
        match selection(devices@) {
            Err(e) => r == Err::<(Device, TracePlan), CommandError>(CommandError::Select(e)),
            Ok(d) => match trace_plan_of(d, explicit, configured) {
                Ok(p) => r == Ok::<(Device, TracePlan), CommandError>((d, p)),
                Err(e) => r == Err::<(Device, TracePlan), CommandError>(e),
            },
        },
{
    let device = match select_one(devices) {
        Ok(d) => d,
        Err(e) => return Err(CommandError::Select(e)),
    };
    match plan_itm(&device, explicit, configured) {
        Ok(p) => Ok((device, p)),
        Err(e) => Err(e),
    }
}

pub open spec fn console_after_load_of(d: Device, opts: LoadOptions) -> Option<ConsoleMode> {
    if !opts.noconsole && !opts.itm && opts.run && d.cdc_path is Some {
        Some(if opts.packet { ConsoleMode::Framed } else { ConsoleMode::Raw })
    } else {
        None
    }
}

/// The console that a load opens: only when the firmware is run, neither the
/// console is switched off nor a trace asked for, and the device has one.
pub fn console_after_load(d: &Device, opts: LoadOptions) -> (r: Option<ConsoleMode>)
    ensures
        r == console_after_load_of(*d, opts),
{
    if !opts.noconsole && !opts.itm && opts.run && d.cdc_path.is_some() {
        if opts.packet {
            Some(ConsoleMode::Framed)
        } else {
            Some(ConsoleMode::Raw)
        }
    } else {
        None
    }
}

/// Selects the one device for `load`, its loader, and the console to view
/// after loading. Fails on the selection first, then on the loader.
pub fn plan_load(devices: Vec<Device>, registry: &Registry, opts: LoadOptions) -> (r: Result<LoadPlan, CommandError>)
    ensures
        match selection(devices@) {
            Err(e) => r == Err::<LoadPlan, CommandError>(CommandError::Select(e)),
            Ok(d) => match resolution(registry.loaders@, d.loader_type) {
                Ok(k) => r matches Ok(p) && p.device == d && p.loader == k && p.console == console_after_load_of(d, opts),
                Err(t) => r matches Err(CommandError::Capability(e)) && capability_error_matches(d.loader_type, t, e),
            },
        },
{
    let device = match select_one(devices) {
        Ok(d) => d,
        Err(e) => return Err(CommandError::Select(e)),
    };
    match registry.resolve_loader(&device) {
        Ok(loader) => {
            let console = console_after_load(&device, opts);
            Ok(LoadPlan { device, loader, console })
        },
        Err(e) => Err(CommandError::Capability(e)),
    }
}

/// The serial console path of the one selected device.
pub fn plan_console(devices: Vec<Device>) -> (r: Result<String, CommandError>)
    ensures
        match selection(devices@) {
            Err(e) => r == Err::<String, CommandError>(CommandError::Select(e)),
            Ok(d) => match d.cdc_path {
                Some(p) => r matches Ok(s) && s@ == p@,
                None => r == Err::<String, CommandError>(CommandError::NoConsole),
            },
        },
{
    let device = match select_one(devices) {
        Ok(d) => d,
        Err(e) => return Err(CommandError::Select(e)),
    };
    match &device.cdc_path {
        Some(p) => Ok(p.clone()),
        None => Err(CommandError::NoConsole),
    }
}

/// The OpenOCD serial identifier of the one selected device.
pub fn plan_openocd(devices: Vec<Device>) -> (r: Result<String, CommandError>)
    ensures
        match selection(devices@) {
            Err(e) => r == Err::<String, CommandError>(CommandError::Select(e)),
            Ok(d) => match d.openocd_serial {
                Some(p) => r matches Ok(s) && s@ == p@,
                None => r == Err::<String, CommandError>(CommandError::NoSerialIdentifier),
            },
        },
{
    let device = match select_one(devices) {
        Ok(d) => d,
        Err(e) => return Err(CommandError::Select(e)),
    };
    match &device.openocd_serial {
        Some(p) => Ok(p.clone()),
        None => Err(CommandError::NoSerialIdentifier),
    }
}

} // verus!
