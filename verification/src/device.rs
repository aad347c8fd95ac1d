//! Device abstraction. Everything above this layer is platform independent and
//! testable on any host, including hosts that have no device access.

use vstd::prelude::*;
use vstd::slice::*;
use vstd::string::*;

use crate::error;
use crate::error::{DeviceError, DeviceErrorView, Stage};
use crate::stream;
use crate::text;
use crate::trace::{StepView, Trace};

verus! {

/// Only `Removable` may be written. `Unknown` is treated as fixed.
#[derive(Debug, Clone, Copy, PartialEq, Eq, Structural)]
pub enum Removability {
    Removable,
    Fixed,
    Unknown,
}

impl Removability {
    pub open spec fn name(self) -> Seq<char> {
        match self {
            Removability::Removable => "removable"@,
            Removability::Fixed => "fixed"@,
            Removability::Unknown => "unknown"@,
        }
    }

    pub fn as_str(self) -> (name: &'static str)
        ensures
            name@ == self.name(),
    {
        match self {
            Removability::Removable => "removable",
            Removability::Fixed => "fixed",
            Removability::Unknown => "unknown",
        }
    }

    pub fn writable(self) -> (writable: bool)
        ensures
            writable == (self is Removable),
    {
        matches!(self, Removability::Removable)
    }
}

#[derive(Debug, Clone, PartialEq, Eq)]
pub struct DeviceInfo {
    /// Identifier accepted verbatim as the `<device>` argument.
    pub id: String,
    pub description: String,
    pub size_bytes: Option<u64>,
    pub logical_sector_size: u32,
    pub removability: Removability,
}

/// A [`DeviceInfo`] by what it says.
#[verifier::ext_equal]
pub struct DeviceInfoView {
    pub id: Seq<char>,
    pub description: Seq<char>,
    pub size_bytes: Option<u64>,
    pub logical_sector_size: u32,
    pub removability: Removability,
}

impl View for DeviceInfo {
    type V = DeviceInfoView;

    open spec fn view(&self) -> DeviceInfoView {
        DeviceInfoView {
            id: self.id@,
            description: self.description@,
            size_bytes: self.size_bytes,
            logical_sector_size: self.logical_sector_size,
            removability: self.removability,
        }
    }
}

impl DeviceInfo {
    /// The same description once more.
    pub fn copied(&self) -> (info: DeviceInfo)
        ensures
            info@ == self@,
    {
        DeviceInfo {
            id: self.id.clone(),
            description: self.description.clone(),
            size_bytes: self.size_bytes,
            logical_sector_size: self.logical_sector_size,
            removability: self.removability,
        }
    }
}

#[derive(Debug, Clone, Copy, PartialEq, Eq, Structural)]
pub enum Access {
    Read,
    ReadWrite,
}

/// Positioned raw access. Offsets and buffer lengths are sector aligned by the
/// caller, because Windows physical-disk handles may require it.
///
/// `State` holds whatever a device's next answer depends on, the medium and the
/// moment among it. The steps give the answer of one access, what it leaves in
/// the buffer, and the state that follows. Whatever happens to a device, what
/// it reports of itself stays the same while it is open.
///
/// The model has a default nothing is known of, so that an implementation
/// written in plain Rust can leave it out.
pub trait RawDevice: Sized {
    type State;

    open spec fn state(&self) -> Self::State {
        arbitrary()
    }

    /// What a device in this state reports of itself.
    open spec fn described(state: Self::State) -> DeviceInfoView {
        arbitrary()
    }

    open spec fn read_step(state: Self::State, offset: u64, buf: Seq<u8>) -> (
        Result<usize, DeviceErrorView>,
        Seq<u8>,
        Self::State,
    ) {
        arbitrary()
    }

    open spec fn write_step(state: Self::State, offset: u64, bytes: Seq<u8>) -> (
        Result<usize, DeviceErrorView>,
        Self::State,
    ) {
        arbitrary()
    }

    open spec fn flush_step(state: Self::State) -> (Result<(), DeviceErrorView>, Self::State) {
        arbitrary()
    }

    fn info(&self) -> (info: &DeviceInfo)
        ensures
            info@ == Self::described(self.state()),
    ;

    fn read_at(&mut self, offset: u64, buf: &mut [u8]) -> (result: Result<usize, DeviceError>)
        ensures
            final(buf)@.len() == old(buf)@.len(),
            (error::answer(result), final(buf)@, final(self).state()) == Self::read_step(
                old(self).state(),
                offset,
                old(buf)@,
            ),
            Self::described(final(self).state()) == Self::described(old(self).state()),
    ;

    fn write_at(&mut self, offset: u64, buf: &[u8]) -> (result: Result<usize, DeviceError>)
        ensures
            (error::answer(result), final(self).state()) == Self::write_step(
                old(self).state(),
                offset,
                buf@,
            ),
            Self::described(final(self).state()) == Self::described(old(self).state()),
    ;

    fn flush(&mut self) -> (result: Result<(), DeviceError>)
        ensures
            (error::answer(result), final(self).state()) == Self::flush_step(old(self).state()),
            Self::described(final(self).state()) == Self::described(old(self).state()),
    ;
}

/// What stands between a write and the medium on one volume the OS has mounted
/// over the target device.
#[derive(Debug, Clone, PartialEq, Eq)]
pub struct VolumeLock {
    /// How the OS names the volume, in the form the user will recognise.
    pub volume: String,
    pub locked: bool,
    /// Why it could not be locked, when it could not.
    pub error: Option<DeviceError>,
}

/// A [`VolumeLock`] by what it says.
#[verifier::ext_equal]
pub struct VolumeLockView {
    pub volume: Seq<char>,
    pub locked: bool,
    pub error: Option<DeviceErrorView>,
}

impl View for VolumeLock {
    type V = VolumeLockView;

    open spec fn view(&self) -> VolumeLockView {
        VolumeLockView {
            volume: self.volume@,
            locked: self.locked,
            error: match self.error {
                Some(err) => Some(err@),
                None => None,
            },
        }
    }
}

/// The descriptions by what they say.
pub open spec fn info_views(infos: Seq<DeviceInfo>) -> Seq<DeviceInfoView> {
    Seq::new(infos.len(), |i: int| infos[i]@)
}

/// The locks by what they say.
pub open spec fn lock_views(locks: Seq<VolumeLock>) -> Seq<VolumeLockView> {
    Seq::new(locks.len(), |i: int| locks[i]@)
}

/// The devices an enumeration gave, or what its failure says.
pub open spec fn enumeration(result: Result<Vec<DeviceInfo>, DeviceError>) -> Result<
    Seq<DeviceInfoView>,
    DeviceErrorView,
> {
    match result {
        Ok(infos) => Ok(info_views(infos@)),
        Err(err) => Err(err@),
    }
}

/// The state a device was opened in, or what the failure to open it says.
pub open spec fn opening<D: RawDevice>(result: Result<D, DeviceError>) -> Result<
    D::State,
    DeviceErrorView,
> {
    match result {
        Ok(device) => Ok(device.state()),
        Err(err) => Err(err@),
    }
}

/// The locks a rehearsal tried, or what its failure says.
pub open spec fn rehearsal(result: Result<Vec<VolumeLock>, DeviceError>) -> Result<
    Seq<VolumeLockView>,
    DeviceErrorView,
> {
    match result {
        Ok(locks) => Ok(lock_views(locks@)),
        Err(err) => Err(err@),
    }
}

/// The trace is passed in because opening a device is itself several steps, and
/// which one failed is the whole point of the report.
///
/// `State` holds whatever a host's next answer depends on, the handles it has
/// given out among it. The steps give the answer to one request, what it leaves
/// on the record, and the state that follows; asking twice is two steps.
///
/// The model has a default nothing is known of, so that an implementation
/// written in plain Rust can leave it out.
pub trait Backend: Sized {
    type Device: RawDevice;

    type State;

    open spec fn state(&self) -> Self::State {
        arbitrary()
    }

    open spec fn enumerate_step(state: Self::State, trace: Seq<StepView>) -> (
        Result<Seq<DeviceInfoView>, DeviceErrorView>,
        Seq<StepView>,
        Self::State,
    ) {
        arbitrary()
    }

    open spec fn open_step(
        state: Self::State,
        id: Seq<char>,
        access: Access,
        trace: Seq<StepView>,
    ) -> (
        Result<<Self::Device as RawDevice>::State, DeviceErrorView>,
        Seq<StepView>,
        Self::State,
    ) {
        arbitrary()
    }

    open spec fn rehearse_step(state: Self::State, id: Seq<char>, trace: Seq<StepView>) -> (
        Result<Seq<VolumeLockView>, DeviceErrorView>,
        Seq<StepView>,
        Self::State,
    ) {
        arbitrary()
    }

    fn enumerate(&mut self, trace: &mut Trace) -> (result: Result<Vec<DeviceInfo>, DeviceError>)
        ensures
            (enumeration(result), final(trace)@, final(self).state()) == Self::enumerate_step(
                old(self).state(),
                old(trace)@,
            ),
    ;

    fn open(&mut self, id: &str, access: Access, trace: &mut Trace) -> (result: Result<
        Self::Device,
        DeviceError,
    >)
        ensures
            (opening(result), final(trace)@, final(self).state()) == Self::open_step(
                old(self).state(),
                id@,
                access,
                old(trace)@,
            ),
    ;

    /// Runs the write path as far as it can without writing: takes a writable
    /// handle, tries the volume locks a write would need, then releases both.
    /// The point is to learn on site whether a write would be permitted without
    /// risking a card to find out. A host that locks nothing names no volumes.
    fn rehearse_write(&mut self, id: &str, trace: &mut Trace) -> (result: Result<
        Vec<VolumeLock>,
        DeviceError,
    >)
        ensures
            (rehearsal(result), final(trace)@, final(self).state()) == Self::rehearse_step(
                old(self).state(),
                id@,
                old(trace)@,
            ),
    ;
}

/// In-memory device backing the transfer, alignment and PIT tests.
#[derive(Debug)]
pub struct MemoryDevice {
    info: DeviceInfo,
    data: Vec<u8>,
    /// Offset at which the next write fails, simulating a vanished device.
    fail_write_at: Option<u64>,
    /// Offset at which the next read fails, simulating a vanished device.
    fail_read_at: Option<u64>,
    flushes: usize,
}

/// Everything an in-memory device's answers depend on.
#[verifier::ext_equal]
pub struct MemoryState {
    pub info: DeviceInfoView,
    pub data: Seq<u8>,
    pub fail_write_at: Option<u64>,
    pub fail_read_at: Option<u64>,
    pub flushes: usize,
}

impl View for MemoryDevice {
    type V = MemoryState;

    closed spec fn view(&self) -> MemoryState {
        MemoryState {
            info: self.info@,
            data: self.data@,
            fail_write_at: self.fail_write_at,
            fail_read_at: self.fail_read_at,
            flushes: self.flushes,
        }
    }
}

/// True when an access at `offset` finds the device gone.
pub open spec fn gone(fail_at: Option<u64>, offset: u64) -> bool {
    fail_at is Some && offset >= fail_at->0
}

/// The answer of a device that has vanished.
pub open spec fn removed(stage: Stage) -> DeviceErrorView {
    DeviceErrorView { stage, message: "device removed"@, os_error: Some(433) }
}

/// Why `len` bytes at `offset` are outside `size` bytes of memory, if they are.
pub open spec fn out_of_memory_range(offset: u64, len: nat, size: nat) -> Option<DeviceErrorView> {
    if offset > usize::MAX {
        Some(
            DeviceErrorView::plain(
                Stage::Seek,
                "offset "@ + text::dec(offset as nat) + " out of range"@,
            ),
        )
    } else if offset + len > size {
        Some(
            DeviceErrorView::plain(
                Stage::Seek,
                "range "@ + text::dec(offset as nat) + "+"@ + text::dec(len)
                    + " exceeds device size "@ + text::dec(size),
            ),
        )
    } else {
        None
    }
}

impl MemoryDevice {
    pub fn new(id: &str, size: usize, removability: Removability) -> (device: MemoryDevice)
        ensures
            device@ == (MemoryState {
                info: DeviceInfoView {
                    id: id@,
                    description: "in-memory test device"@,
                    size_bytes: Some(size as u64),
                    logical_sector_size: 512,
                    removability,
                },
                data: Seq::new(size as nat, |i: int| 0u8),
                fail_write_at: None,
                fail_read_at: None,
                flushes: 0,
            }),
    {
        let device = MemoryDevice {
            info: DeviceInfo {
                id: id.to_owned(),
                description: "in-memory test device".to_owned(),
                size_bytes: Some(size as u64),
                logical_sector_size: 512,
                removability,
            },
            data: vec![0u8; size],
            fail_write_at: None,
            fail_read_at: None,
            flushes: 0,
        };
        assert(device.data@ =~= Seq::new(size as nat, |i: int| 0u8));
        device
    }

    /// Makes the device report another logical sector size.
    pub fn set_sector_size(&mut self, sector: u32)
        ensures
            final(self)@ == (MemoryState {
                info: DeviceInfoView { logical_sector_size: sector, ..old(self)@.info },
                ..old(self)@
            }),
    {
        self.info.logical_sector_size = sector;
    }

    pub fn flushes(&self) -> (flushes: usize)
        ensures
            flushes == self@.flushes,
    {
        self.flushes
    }

    pub fn fail_writes_from(&mut self, offset: u64)
        ensures
            final(self)@ == (MemoryState { fail_write_at: Some(offset), ..old(self)@ }),
    {
        self.fail_write_at = Some(offset);
    }

    pub fn fail_reads_from(&mut self, offset: u64)
        ensures
            final(self)@ == (MemoryState { fail_read_at: Some(offset), ..old(self)@ }),
    {
        self.fail_read_at = Some(offset);
    }

    pub fn contents(&self) -> (data: &[u8])
        ensures
            data@ == self@.data,
    {
        self.data.as_slice()
    }

    pub fn contents_mut(&mut self) -> (data: &mut [u8])
        ensures
            data@ == old(self)@.data,
            final(self)@ == (MemoryState { data: final(data)@, ..old(self)@ }),
    {
        self.data.as_mut_slice()
    }

    /// Where `len` bytes at `offset` start, if all of them exist.
    fn range(&self, offset: u64, len: usize) -> (result: Result<usize, DeviceError>)
        ensures
            match out_of_memory_range(offset, len as nat, self@.data.len()) {
                Some(err) => error::answer(result) == Err::<usize, DeviceErrorView>(err),
                None => result == Ok::<usize, DeviceError>(offset as usize),
            },
            self@.data.len() <= usize::MAX,
    {
        let size: usize = self.data.len();
        if offset > usize::MAX as u64 {
            let mut message = "offset ".to_owned();
            text::push_dec(&mut message, offset);
            message.append(" out of range");
            return Err(DeviceError::new(Stage::Seek, message.as_str()));
        }
        let start: usize = offset as usize;
        let fits = match start.checked_add(len) {
            Some(end) => end <= size,
            None => false,
        };
        if !fits {
            let mut message = "range ".to_owned();
            text::push_dec(&mut message, offset);
            message.append("+");
            text::push_dec(&mut message, len as u64);
            message.append(" exceeds device size ");
            text::push_dec(&mut message, size as u64);
            return Err(DeviceError::new(Stage::Seek, message.as_str()));
        }
        Ok(start)
    }
}

impl RawDevice for MemoryDevice {
    type State = MemoryState;

    open spec fn state(&self) -> MemoryState {
        self@
    }

    open spec fn described(state: MemoryState) -> DeviceInfoView {
        state.info
    }

    open spec fn read_step(state: MemoryState, offset: u64, buf: Seq<u8>) -> (
        Result<usize, DeviceErrorView>,
        Seq<u8>,
        MemoryState,
    ) {
        if gone(state.fail_read_at, offset) {
            (Err(removed(Stage::Read)), buf, state)
        } else {
            match out_of_memory_range(offset, buf.len(), state.data.len()) {
                Some(err) => (Err(err), buf, state),
                None => (
                    Ok(buf.len() as usize),
                    state.data.subrange(offset as int, offset + buf.len()),
                    state,
                ),
            }
        }
    }

    open spec fn write_step(state: MemoryState, offset: u64, bytes: Seq<u8>) -> (
        Result<usize, DeviceErrorView>,
        MemoryState,
    ) {
        if gone(state.fail_write_at, offset) {
            (Err(removed(Stage::Write)), state)
        } else {
            match out_of_memory_range(offset, bytes.len(), state.data.len()) {
                Some(err) => (Err(err), state),
                None => (
                    Ok(bytes.len() as usize),
                    MemoryState {
                        data: stream::overlaid(state.data, offset as int, bytes),
                        ..state
                    },
                ),
            }
        }
    }

    open spec fn flush_step(state: MemoryState) -> (Result<(), DeviceErrorView>, MemoryState) {
        (Ok(()), MemoryState { flushes: state.flushes.wrapping_add(1), ..state })
    }

    fn info(&self) -> (info: &DeviceInfo) {
        &self.info
    }

    fn read_at(&mut self, offset: u64, buf: &mut [u8]) -> (result: Result<usize, DeviceError>) {
        if let Some(fail) = self.fail_read_at {
            if offset >= fail {
                return Err(DeviceError::with_os_error(Stage::Read, "device removed", 433));
            }
        }
        let len: usize = buf.len();
        match self.range(offset, len) {
            Ok(start) => {
                stream::copy_into(buf, 0, slice_subrange(self.data.as_slice(), start, start + len));
                assert(buf@ =~= self.data@.subrange(offset as int, offset + len));
                Ok(len)
            },
            Err(err) => Err(err),
        }
    }

    fn write_at(&mut self, offset: u64, buf: &[u8]) -> (result: Result<usize, DeviceError>) {
        if let Some(fail) = self.fail_write_at {
            if offset >= fail {
                return Err(DeviceError::with_os_error(Stage::Write, "device removed", 433));
            }
        }
        match self.range(offset, buf.len()) {
            Ok(start) => {
                stream::copy_into(self.data.as_mut_slice(), start, buf);
                Ok(buf.len())
            },
            Err(err) => Err(err),
        }
    }

    fn flush(&mut self) -> (result: Result<(), DeviceError>) {
        self.flushes = self.flushes.wrapping_add(1);
        Ok(())
    }
}

} // verus!
