//! Capability dispatch and the decisions of the device-targeting commands:
//! which handler runs, which debug operation, and with which trace clocks.
//! Every decision here is made before any hardware is touched.
use vstd::prelude::*;
use crate::device::{str_eq, Device};

verus! {

/// The fixed clock of the trace output, in Hz.
pub const TRACE_CLOCK: u32 = 2_000_000;

/// A handler that flashes firmware.
#[derive(Debug, Clone, Copy, PartialEq, Eq, Structural)]
pub enum LoaderKind {
    Bossa,
    OpenOcd,
    JLink,
    Teensy,
    Dfu,
}

/// A handler that drives a debug probe.
#[derive(Debug, Clone, Copy, PartialEq, Eq, Structural)]
pub enum DebuggerKind {
    OpenOcd,
    JLink,
}

/// Why no handler could be resolved for a device.
#[derive(Debug, Clone, PartialEq, Eq)]
pub enum CapabilityError {
    /// The device carries no tag for this class of command.
    NoCapability,
    /// The device's tag names no registered handler.
    UnknownCapability(String),
}

/// A mapping from capability tags to handlers, built once at startup.
pub struct Registry {
    pub loaders: Vec<(String, LoaderKind)>,
    pub debuggers: Vec<(String, DebuggerKind)>,
}

/// The handler of the first entry whose tag is `tag`.
pub open spec fn lookup<K>(entries: Seq<(String, K)>, tag: Seq<char>) -> Option<K>
    decreases entries.len(),
{
    if entries.len() == 0 {
        None
    } else if entries[0].0@ == tag {
        Some(entries[0].1)
    } else {
        lookup(entries.skip(1), tag)
    }
}

/// The outcome of resolving the tag `tag` against `entries`.
pub open spec fn resolution<K>(entries: Seq<(String, K)>, tag: Option<String>) -> Result<K, Seq<char>> {
    match tag {
        None => Err(Seq::empty()),
        Some(t) => match lookup(entries, t@) {
            Some(k) => Ok(k),
            None => Err(t@),
        },
    }
}

fn lookup_tag<K: Copy>(entries: &Vec<(String, K)>, tag: &str) -> (r: Option<K>)
    ensures
        r == lookup(entries@, tag@),
{
    let mut i: usize = 0;
    assert(entries@.skip(0) =~= entries@);
    while i < entries.len()
        invariant
            i <= entries@.len(),
            lookup(entries@, tag@) == lookup(entries@.skip(i as int), tag@),
        decreases entries@.len() - i,
    {
        assert(entries@.skip(i as int)[0] == entries@[i as int]);
        assert(entries@.skip(i as int).skip(1) =~= entries@.skip(i + 1));
        if str_eq(entries[i].0.as_str(), tag) {
            return Some(entries[i].1);
        }
        i = i + 1;
    }
    None
}

fn resolve<K: Copy>(entries: &Vec<(String, K)>, tag: &Option<String>) -> (r: Result<K, CapabilityError>)
    ensures
        match resolution(entries@, *tag) {
            Ok(k) => r == Ok::<K, CapabilityError>(k),
            Err(t) => match r {
                Err(CapabilityError::NoCapability) => tag is None,
                Err(CapabilityError::UnknownCapability(s)) => tag is Some && s@ == t,
                Ok(_) => false,
            },
        },
{
    match tag {
        None => Err(CapabilityError::NoCapability),
        Some(t) => match lookup_tag(entries, t.as_str()) {
            Some(k) => Ok(k),
            None => Err(CapabilityError::UnknownCapability(t.clone())),
        },
    }
}

impl Registry {
    /// The handlers this tool ships with.
    pub fn standard() -> (r: Registry)
        ensures
            r.loaders@.map_values(|e: (String, LoaderKind)| (e.0@, e.1)) == seq![
                ("bossa"@, LoaderKind::Bossa),
                ("openocd"@, LoaderKind::OpenOcd),
                ("jlink"@, LoaderKind::JLink),
                ("teensy"@, LoaderKind::Teensy),
                ("dfu"@, LoaderKind::Dfu),
            ],
            r.debuggers@.map_values(|e: (String, DebuggerKind)| (e.0@, e.1)) == seq![
                ("openocd"@, DebuggerKind::OpenOcd),
                ("jlink"@, DebuggerKind::JLink),
            ],
    {
        let mut loaders: Vec<(String, LoaderKind)> = Vec::new();
        loaders.push((String::from_str("bossa"), LoaderKind::Bossa));
        loaders.push((String::from_str("openocd"), LoaderKind::OpenOcd));
        loaders.push((String::from_str("jlink"), LoaderKind::JLink));
        loaders.push((String::from_str("teensy"), LoaderKind::Teensy));
        loaders.push((String::from_str("dfu"), LoaderKind::Dfu));
        let mut debuggers: Vec<(String, DebuggerKind)> = Vec::new();
        debuggers.push((String::from_str("openocd"), DebuggerKind::OpenOcd));
        debuggers.push((String::from_str("jlink"), DebuggerKind::JLink));
        let r = Registry { loaders, debuggers };
        assert(r.loaders@.map_values(|e: (String, LoaderKind)| (e.0@, e.1)) =~= seq![
            ("bossa"@, LoaderKind::Bossa),
            ("openocd"@, LoaderKind::OpenOcd),
            ("jlink"@, LoaderKind::JLink),
            ("teensy"@, LoaderKind::Teensy),
            ("dfu"@, LoaderKind::Dfu),
        ]);
        assert(r.debuggers@.map_values(|e: (String, DebuggerKind)| (e.0@, e.1)) =~= seq![
            ("openocd"@, DebuggerKind::OpenOcd),
            ("jlink"@, DebuggerKind::JLink),
        ]);
        r
    }

    /// The loader for the device: `NoCapability` when it has no loader tag,
    /// `UnknownCapability(tag)` when no handler is registered for its tag.
    pub fn resolve_loader(&self, d: &Device) -> (r: Result<LoaderKind, CapabilityError>)
        ensures
            match resolution(self.loaders@, d.loader_type) {
                Ok(k) => r == Ok::<LoaderKind, CapabilityError>(k),
                Err(t) => match r {
                    Err(CapabilityError::NoCapability) => d.loader_type is None,
                    Err(CapabilityError::UnknownCapability(s)) => d.loader_type is Some && s@ == t,
                    Ok(_) => false,
                },
            },
    {
        resolve(&self.loaders, &d.loader_type)
    }

    /// The debugger for the device: `NoCapability` when it has no debugger tag,
    /// `UnknownCapability(tag)` when no handler is registered for its tag.
    pub fn resolve_debugger(&self, d: &Device) -> (r: Result<DebuggerKind, CapabilityError>)
        ensures
            match resolution(self.debuggers@, d.debugger_type) {
                Ok(k) => r == Ok::<DebuggerKind, CapabilityError>(k),
                Err(t) => match r {
                    Err(CapabilityError::NoCapability) => d.debugger_type is None,
                    Err(CapabilityError::UnknownCapability(s)) => d.debugger_type is Some && s@ == t,
                    Ok(_) => false,
                },
            },
    {
        resolve(&self.debuggers, &d.debugger_type)
    }
}

} // verus!
