//! Full command paths driven by an in-memory backend and in-memory files. This
//! is where the automated coverage stops: it shows the argument, range and
//! reporting logic, not that any OS agrees.

use std::cell::{Cell, RefCell};
use std::collections::BTreeMap;
use std::rc::Rc;

use rawio::app::{self, Next, Surroundings};
use rawio::cli::{
    parse_size, Cli, Command, DumpArgs, FlashArgs, HexArgs, Location, PartsArgs, PitArgs,
    PitSource, ProbeArgs, SchemeArg, TableSource, TransferOptions, VerifyArgs,
};
use rawio::device::{
    Access, Backend, DeviceInfo, MemoryDevice, RawDevice, Removability, VolumeLock,
};
use rawio::error::{DeviceError, Error, Stage};
use rawio::progress::Silent;
use rawio::trace::Trace;

struct FakeBackend {
    device: Rc<RefCell<MemoryDevice>>,
    volumes: Vec<VolumeLock>,
    /// Access requested by every `open`, in order.
    opens: RefCell<Vec<Access>>,
    /// The device named in every rehearsal of a write, in order.
    rehearsals: RefCell<Vec<String>>,
    /// What a rehearsal fails with, when it is to fail.
    refusal: Option<DeviceError>,
    /// How often a device was written to or flushed.
    touched: Rc<Cell<usize>>,
    /// The files the commands read and write, by name.
    files: RefCell<BTreeMap<String, Vec<u8>>>,
}

impl FakeBackend {
    fn new(size: usize, removability: Removability) -> Self {
        Self {
            device: Rc::new(RefCell::new(MemoryDevice::new("mem0", size, removability))),
            volumes: Vec::new(),
            opens: RefCell::new(Vec::new()),
            rehearsals: RefCell::new(Vec::new()),
            refusal: None,
            touched: Rc::new(Cell::new(0)),
            files: RefCell::new(BTreeMap::new()),
        }
    }

    fn store(&self, name: &str, bytes: Vec<u8>) {
        self.files.borrow_mut().insert(name.to_string(), bytes);
    }

    fn file(&self, name: &str) -> Vec<u8> {
        self.files.borrow()[name].clone()
    }

    fn has(&self, name: &str) -> bool {
        self.files.borrow().contains_key(name)
    }
}

impl Backend for &FakeBackend {
    type Device = Handle;
    type State = ();

    fn enumerate(&mut self, _trace: &mut Trace) -> Result<Vec<DeviceInfo>, DeviceError> {
        Ok(vec![self.device.borrow().info().clone()])
    }

    fn rehearse_write(
        &mut self,
        id: &str,
        _trace: &mut Trace,
    ) -> Result<Vec<VolumeLock>, DeviceError> {
        self.rehearsals.borrow_mut().push(id.to_string());
        match &self.refusal {
            Some(err) => Err(err.clone()),
            None => Ok(self.volumes.clone()),
        }
    }

    fn open(
        &mut self,
        id: &str,
        access: Access,
        _trace: &mut Trace,
    ) -> Result<Handle, DeviceError> {
        self.opens.borrow_mut().push(access);
        if id != "mem0" {
            return Err(DeviceError::new(
                Stage::Open,
                &format!("no such device {id:?}"),
            ));
        }
        let info = self.device.borrow().info().clone();
        Ok(Handle {
            info,
            inner: Rc::clone(&self.device),
            touched: Rc::clone(&self.touched),
        })
    }
}

struct Handle {
    info: DeviceInfo,
    inner: Rc<RefCell<MemoryDevice>>,
    touched: Rc<Cell<usize>>,
}

impl RawDevice for Handle {
    type State = ();

    fn info(&self) -> &DeviceInfo {
        &self.info
    }

    fn read_at(&mut self, offset: u64, buf: &mut [u8]) -> Result<usize, DeviceError> {
        self.inner.borrow_mut().read_at(offset, buf)
    }

    fn write_at(&mut self, offset: u64, buf: &[u8]) -> Result<usize, DeviceError> {
        self.touched.set(self.touched.get() + 1);
        self.inner.borrow_mut().write_at(offset, buf)
    }

    fn flush(&mut self) -> Result<(), DeviceError> {
        self.touched.set(self.touched.get() + 1);
        self.inner.borrow_mut().flush()
    }
}

/// The arguments of one run, spelled as on a command line.
fn arguments(args: &[&str]) -> Cli {
    let mut device = None;
    let mut location = Location {
        offset: None,
        partition: None,
        partition_id: None,
    };
    let mut table = TableSource::default();
    let mut pit_source = PitSource::default();
    let mut transfer = TransferOptions {
        dry_run: false,
        no_progress: false,
    };
    let mut length = None;
    let mut file = None;
    let (mut parts, mut pit, mut verify, mut no_squeeze) = (false, false, false, false);

    let mut rest = args[2..].iter();
    while let Some(word) = rest.next() {
        let mut value = || *rest.next().expect("a value follows");
        match *word {
            "--offset" => location.offset = Some(parse_size(value()).unwrap()),
            "--partition" => location.partition = Some(value().to_string()),
            "--partition-id" => location.partition_id = Some(value().parse().unwrap()),
            "--scheme" => table.scheme = SchemeArg::named(value()).unwrap(),
            "--pit-offset" => pit_source.pit_offset = Some(parse_size(value()).unwrap()),
            "--pit-scan" => pit_source.pit_scan = parse_size(value()).unwrap(),
            "--length" => length = Some(parse_size(value()).unwrap()),
            "-o" | "-i" => file = Some(value().to_string()),
            "--parts" => parts = true,
            "--pit" => pit = true,
            "--verify" => verify = true,
            "--no-squeeze" => no_squeeze = true,
            "--dry-run" => transfer.dry_run = true,
            other => device = Some(other.to_string()),
        }
    }
    table.pit_source = pit_source;
    let device = device.unwrap_or_default();

    let command = match args[1] {
        "list" => Command::List,
        "probe" => Command::Probe(ProbeArgs {
            device,
            parts,
            pit,
            location,
            table,
        }),
        "parts" => Command::Parts(PartsArgs { device, table }),
        "pit" => Command::Pit(PitArgs { device, pit_source }),
        "hex" => {
            let mut hex = HexArgs::new(device, location, table);
            hex.length = length.unwrap_or(hex.length);
            hex.no_squeeze = no_squeeze;
            hex.dry_run = transfer.dry_run;
            Command::Hex(hex)
        }
        "dump" => Command::Dump(DumpArgs {
            device,
            location,
            table,
            transfer,
            length,
            output: file.expect("dump takes -o"),
        }),
        "flash" => Command::Flash(FlashArgs {
            device,
            location,
            table,
            transfer,
            input: file.expect("flash takes -i"),
            verify,
        }),
        "verify" => Command::Verify(VerifyArgs {
            device,
            location,
            table,
            transfer,
            input: file.expect("verify takes -i"),
        }),
        other => panic!("no command {other}"),
    };
    Cli {
        trace: false,
        command,
    }
}

fn run(args: &[&str], backend: &FakeBackend) -> (Result<(), Error>, String) {
    let streams = run_streams(args, backend);
    (streams.result, streams.out)
}

/// The two streams kept apart, for the tests that care which one a line took.
struct Streams {
    result: Result<(), Error>,
    out: String,
    diag: String,
}

fn run_streams(args: &[&str], backend: &FakeBackend) -> Streams {
    let cli = arguments(args);
    let mut out = String::new();
    let mut diag = String::new();
    let result = complete(&cli, backend, &mut out, &mut diag);
    Streams { result, out, diag }
}

/// Runs a command with nobody watching, and supplies the files it asks for.
fn complete(
    cli: &Cli,
    backend: &FakeBackend,
    out: &mut String,
    diag: &mut String,
) -> Result<(), Error> {
    let around = Surroundings {
        watched: false,
        absolute: None,
    };
    let mut trace = Trace::new();
    let mut host = backend;
    let mut device = None;
    match app::run(cli, &around, &mut host, &mut device, out, diag, &mut trace)? {
        Next::Finished => Ok(()),
        Next::Dump(job) => {
            let mut file = Vec::new();
            let opened = device.as_mut().expect("a dump has its device open");
            let dumped = app::finish_dump(&job, opened, &mut file, out, &mut trace, &mut Silent);
            backend.store(&job.output, file);
            dumped.map(|_| ())
        }
        Next::Flash(job) => {
            let file = backend.file(&job.input);
            let length = file.len() as u64;
            let planned = app::plan_flash(job, length, &mut device, out, diag, &mut trace)?;
            let Some(ready) = planned else {
                return Ok(());
            };
            let opened = device.as_mut().expect("a flash has its device open");
            let mut source = file.as_slice();
            let check =
                app::finish_flash(ready, opened, &mut source, out, &mut trace, &mut Silent)?;
            if let Some(ready) = check {
                let mut source = file.as_slice();
                app::compare(&ready, opened, &mut source, out, &mut trace, &mut Silent)?;
            }
            Ok(())
        }
        Next::Verify(job) => {
            let file = backend.file(&job.input);
            let length = file.len() as u64;
            let planned =
                app::plan_verify(job, length, &mut host, &mut device, out, diag, &mut trace)?;
            let Some(ready) = planned else {
                return Ok(());
            };
            let opened = device.as_mut().expect("a comparison has its device open");
            let mut source = file.as_slice();
            app::compare(&ready, opened, &mut source, out, &mut trace, &mut Silent).map(|_| ())
        }
    }
}

fn pit_image(entries: &[(&str, u32, u32)]) -> Vec<u8> {
    let mut buf = vec![0u8; 28 + entries.len() * 132];
    buf[0..4].copy_from_slice(&0x1234_9876u32.to_le_bytes());
    buf[4..8].copy_from_slice(&(entries.len() as u32).to_le_bytes());
    buf[24..28].copy_from_slice(&1u32.to_le_bytes());
    for (i, (name, offset, count)) in entries.iter().enumerate() {
        let entry = &mut buf[28 + i * 132..][..132];
        entry[4..8].copy_from_slice(&2u32.to_le_bytes()); // device type: mmc
        entry[8..12].copy_from_slice(&(i as u32).to_le_bytes()); // identifier
        entry[20..24].copy_from_slice(&offset.to_le_bytes());
        entry[24..28].copy_from_slice(&count.to_le_bytes());
        entry[36..36 + name.len()].copy_from_slice(name.as_bytes());
    }
    buf
}

#[test]
fn list_reports_the_device_identifier_usable_as_an_argument() {
    let backend = FakeBackend::new(4096, Removability::Removable);
    let (result, out) = run(&["rawio", "list"], &backend);

    assert!(result.is_ok());
    assert!(out.starts_with("mem0 "), "{out}");
}

#[test]
fn flash_then_dump_round_trips_through_the_cli() {
    let input = "image.bin";
    let output = "readback.bin";
    let data: Vec<u8> = (0..2048).map(|i| (i % 251) as u8).collect();
    let backend = FakeBackend::new(8192, Removability::Removable);
    backend.store(input, data.clone());
    let (flashed, _) = run(
        &[
            "rawio",
            "flash",
            "mem0",
            "--offset",
            "1K",
            "-i",
            input,
        ],
        &backend,
    );
    assert!(flashed.is_ok(), "{flashed:?}");

    let (dumped, _) = run(
        &[
            "rawio",
            "dump",
            "mem0",
            "--offset",
            "1K",
            "--length",
            "2K",
            "-o",
            output,
        ],
        &backend,
    );
    assert!(dumped.is_ok(), "{dumped:?}");
    assert_eq!(backend.file(output), data);
}

#[test]
fn flash_to_a_fixed_device_exits_four_and_writes_nothing() {
    let input = "image.bin";
    let backend = FakeBackend::new(4096, Removability::Fixed);
    backend.store(input, vec![0xFFu8; 512]);
    let (result, _) = run(
        &[
            "rawio",
            "flash",
            "mem0",
            "--offset",
            "0",
            "-i",
            input,
        ],
        &backend,
    );

    let err = result.unwrap_err();
    assert!(matches!(err, Error::NotRemovable { .. }), "{err:?}");
    assert_eq!(err.exit_code(), 4);
    assert!(backend.device.borrow().contents().iter().all(|b| *b == 0));
}

#[test]
fn partition_lookup_prints_the_resolved_range_before_use() {
    let backend = FakeBackend::new(1 << 20, Removability::Removable);
    backend.device.borrow_mut().contents_mut()[..28 + 132]
        .copy_from_slice(&pit_image(&[("LOG", 16, 8)]));
    let output = "log.bin";
    let run = run_streams(
        &[
            "rawio",
            "dump",
            "mem0",
            "--scheme",
            "pit",
            "--partition",
            "LOG",
            "-o",
            output,
        ],
        &backend,
    );

    assert!(run.result.is_ok(), "{:?}", run.result);
    assert!(
        run.diag.contains("pit: LOG spans 8192..12288 (4096 bytes)"),
        "{}",
        run.diag
    );
    assert_eq!(backend.file(output).len(), 4096);
}

#[test]
fn the_pit_command_prints_every_entry() {
    let backend = FakeBackend::new(1 << 20, Removability::Removable);
    write_pit(&backend, 0, &[("BOOT", 16, 8), ("LOG", 64, 128)]);

    let (result, out) = run(&["rawio", "pit", "mem0"], &backend);

    assert!(result.is_ok(), "{result:?}");
    assert!(out.contains("BOOT"), "{out}");
    assert!(out.contains("LOG"), "{out}");
    // Byte values next to the raw block values they were derived from.
    assert!(out.contains("32768"), "{out}");
    assert!(out.contains("65536"), "{out}");
}

#[test]
fn the_pit_can_be_read_from_somewhere_other_than_zero() {
    let backend = FakeBackend::new(1 << 20, Removability::Removable);
    write_pit(&backend, 4096, &[("LOG", 64, 128)]);

    let (found, out) = run(&["rawio", "pit", "mem0", "--pit-offset", "4096"], &backend);
    assert!(found.is_ok(), "{found:?}");
    assert!(out.contains("LOG"), "{out}");

    let (wrong, _) = run(&["rawio", "pit", "mem0", "--pit-offset", "8192"], &backend);
    assert!(matches!(wrong, Err(Error::Pit(_))), "{wrong:?}");
}

/// The card in hand: an MBR, and the PIT tucked into the space in front of the
/// first partition where nothing points at it.
#[test]
fn a_pit_in_front_of_the_first_partition_is_found_without_an_offset() {
    let backend = FakeBackend::new(16 << 20, Removability::Removable);
    write_mbr(&backend, &[(0x0c, 2048, 4096)]);
    write_pit(&backend, 2047 * 512, &[("LOG", 64, 128)]);

    let run = run_streams(&["rawio", "pit", "mem0"], &backend);

    assert!(run.result.is_ok(), "{:?}", run.result);
    assert!(
        run.diag.contains("pit: found at offset 1048064"),
        "{}",
        run.diag
    );
    assert!(run.out.contains("LOG"), "{}", run.out);
}

/// Two copies in the same gap: the one the partition was written against is
/// the one a backwards search reaches first.
#[test]
fn the_copy_nearest_the_first_partition_is_the_one_reported() {
    let backend = FakeBackend::new(16 << 20, Removability::Removable);
    write_mbr(&backend, &[(0x0c, 2048, 4096)]);
    write_pit(&backend, 512, &[("OLD", 64, 128)]);
    write_pit(&backend, 2047 * 512, &[("LOG", 64, 128)]);

    let (result, out) = run(&["rawio", "pit", "mem0"], &backend);

    assert!(result.is_ok(), "{result:?}");
    assert!(out.contains("LOG") && !out.contains("OLD"), "{out}");
}

/// The search reads unallocated space, and how much of it is bounded.
#[test]
fn the_search_stops_at_the_budget_and_says_how_to_carry_on() {
    let backend = FakeBackend::new(16 << 20, Removability::Removable);
    write_mbr(&backend, &[(0x0c, 2048, 4096)]);
    write_pit(&backend, 12 << 20, &[("LOG", 64, 128)]);

    let (stopped, _) = run(&["rawio", "pit", "mem0", "--pit-scan", "4K"], &backend);
    let message = stopped.unwrap_err().to_string();
    assert!(message.contains("--pit-scan"), "{message}");

    let (found, out) = run(&["rawio", "pit", "mem0", "--pit-scan", "0"], &backend);
    assert!(found.is_ok(), "{found:?}");
    assert!(out.contains("LOG"), "{out}");
}

#[test]
fn the_parts_command_prints_the_mbr_and_the_space_it_leaves() {
    let backend = FakeBackend::new(16 << 20, Removability::Removable);
    write_mbr(&backend, &[(0x0c, 2048, 4096), (0x83, 8192, 4096)]);

    let (result, out) = run(&["rawio", "parts", "mem0"], &backend);

    assert!(result.is_ok(), "{result:?}");
    assert!(out.contains("scheme=mbr"), "{out}");
    assert!(out.contains("0x0c"), "{out}");
    // 2048 and 8192 sectors in, 4096 sectors long.
    assert!(out.contains("1048576") && out.contains("4194304"), "{out}");
    assert!(out.contains("unallocated 0..1048576"), "{out}");
    assert!(out.contains("backwards"), "{out}");
}

/// MBR entries have no names, so the index is the only selector, and a range
/// resolved from one is printed before it is read.
#[test]
fn a_range_resolves_from_an_mbr_entry_by_index() {
    let backend = FakeBackend::new(16 << 20, Removability::Removable);
    write_mbr(&backend, &[(0x0c, 2048, 8)]);
    let output = "p1.bin";

    let run = run_streams(
        &[
            "rawio",
            "dump",
            "mem0",
            "--partition-id",
            "1",
            "-o",
            output,
        ],
        &backend,
    );

    assert!(run.result.is_ok(), "{:?} {}", run.result, run.diag);
    assert!(run.diag.contains("parts: mbr #1"), "{}", run.diag);
    assert!(run.diag.contains("spans 1048576..1052672"), "{}", run.diag);
    assert_eq!(backend.file(output).len(), 4096);
}

#[test]
fn an_mbr_name_lookup_says_which_selector_works() {
    let backend = FakeBackend::new(16 << 20, Removability::Removable);
    write_mbr(&backend, &[(0x0c, 2048, 8)]);
    let output = "p1.bin";

    let (result, _) = run(
        &[
            "rawio",
            "dump",
            "mem0",
            "--partition",
            "BOOT",
            "-o",
            output,
        ],
        &backend,
    );

    let message = result.unwrap_err().to_string();
    assert!(message.contains("--partition-id"), "{message}");
    assert!(!backend.has(output));
}

/// A card carrying both is ambiguous, and guessing is what costs a card.
#[test]
fn a_hybrid_layout_is_refused_until_the_scheme_is_named() {
    let backend = FakeBackend::new(16 << 20, Removability::Removable);
    write_mbr(&backend, &[(0x0c, 2048, 4096)]);
    backend.device.borrow_mut().contents_mut()[512..520].copy_from_slice(b"EFI PART");

    let (result, _) = run(&["rawio", "parts", "mem0"], &backend);

    let message = result.unwrap_err().to_string();
    assert!(message.contains("--scheme"), "{message}");

    let (named, out) = run(&["rawio", "parts", "mem0", "--scheme", "mbr"], &backend);
    assert!(named.is_ok(), "{named:?}");
    assert!(out.contains("scheme=mbr"), "{out}");
}

#[test]
fn an_entry_past_the_end_of_the_device_is_flagged() {
    let backend = FakeBackend::new(1 << 20, Removability::Removable);
    write_pit(&backend, 0, &[("SANE", 16, 8), ("BAD", 99_999_999, 1024)]);

    let (result, out) = run(&["rawio", "pit", "mem0"], &backend);

    assert!(result.is_ok(), "{result:?}");
    assert!(out.contains("beyond device"), "{out}");
}

#[test]
fn a_partition_past_the_end_of_the_device_aborts_before_any_io() {
    let backend = FakeBackend::new(1 << 20, Removability::Removable);
    write_pit(&backend, 0, &[("BAD", 99_999_999, 1024)]);
    let output = "bad.bin";

    let (result, _) = run(
        &[
            "rawio",
            "dump",
            "mem0",
            "--scheme",
            "pit",
            "--partition",
            "BAD",
            "-o",
            output,
        ],
        &backend,
    );

    assert!(
        matches!(result, Err(Error::InvalidArgument(_))),
        "{result:?}"
    );
    assert!(!backend.has(output));
}

#[test]
fn a_partition_id_selects_the_same_range_as_its_name() {
    let backend = FakeBackend::new(1 << 20, Removability::Removable);
    write_pit(&backend, 0, &[("BOOT", 16, 8), ("LOG", 64, 128)]);

    let by_name = "name.bin";
    let (named, _) = run(
        &[
            "rawio",
            "dump",
            "mem0",
            "--scheme",
            "pit",
            "--partition",
            "LOG",
            "-o",
            by_name,
        ],
        &backend,
    );
    let by_id = "id.bin";
    let identified = run_streams(
        &[
            "rawio",
            "dump",
            "mem0",
            "--scheme",
            "pit",
            "--partition-id",
            "1",
            "-o",
            by_id,
        ],
        &backend,
    );

    assert!(named.is_ok(), "{named:?}");
    assert!(identified.result.is_ok(), "{:?}", identified.result);
    assert!(
        identified.diag.contains("pit: LOG spans 32768..98304"),
        "{}",
        identified.diag
    );
    assert_eq!(
        backend.file(by_name),
        backend.file(by_id)
    );
}

#[test]
fn probe_rehearses_the_volume_locks_a_write_would_need() {
    let mut backend = FakeBackend::new(1 << 20, Removability::Removable);
    backend.volumes = vec![
        VolumeLock {
            volume: "E:".into(),
            locked: true,
            error: None,
        },
        VolumeLock {
            volume: "F:".into(),
            locked: false,
            error: Some(DeviceError::with_os_error(
                Stage::LockVolume,
                "access denied",
                5,
            )),
        },
    ];

    let (result, out) = run(&["rawio", "probe", "mem0"], &backend);

    assert!(result.is_ok(), "{result:?}");
    assert!(out.contains("E:") && out.contains("F:"), "{out}");
    assert!(out.contains("os error 5"), "{out}");
    // The card is untouched either way.
    assert!(backend.device.borrow().contents().iter().all(|b| *b == 0));
}

#[test]
fn probe_does_not_rehearse_a_write_it_would_refuse() {
    let mut backend = FakeBackend::new(1 << 20, Removability::Fixed);
    backend.volumes = vec![VolumeLock {
        volume: "C:".into(),
        locked: true,
        error: None,
    }];

    let (result, out) = run(&["rawio", "probe", "mem0"], &backend);

    assert!(result.is_ok(), "{result:?}");
    assert!(!out.contains("C:"), "{out}");
    assert!(out.to_lowercase().contains("not removable"), "{out}");
}

#[test]
fn probe_reports_the_table_when_asked_for_it() {
    let backend = FakeBackend::new(1 << 20, Removability::Removable);
    write_pit(&backend, 0, &[("LOG", 64, 128)]);

    let (without, quiet) = run(&["rawio", "probe", "mem0"], &backend);
    assert!(without.is_ok(), "{without:?}");
    assert!(!quiet.contains("LOG"), "{quiet}");

    let (with, loud) = run(&["rawio", "probe", "mem0", "--pit"], &backend);
    assert!(with.is_ok(), "{with:?}");
    assert!(loud.contains("LOG"), "{loud}");
}

#[test]
fn an_unknown_partition_name_lists_the_ones_that_exist() {
    let backend = FakeBackend::new(1 << 20, Removability::Removable);
    write_pit(&backend, 0, &[("BOOT", 16, 8), ("LOG", 64, 128)]);
    let output = "x.bin";

    let (result, _) = run(
        &[
            "rawio",
            "dump",
            "mem0",
            "--scheme",
            "pit",
            "--partition",
            "NOPE",
            "-o",
            output,
        ],
        &backend,
    );

    let message = result.unwrap_err().to_string();
    assert!(
        message.contains("BOOT") && message.contains("LOG"),
        "{message}"
    );
}

#[test]
fn flashing_a_partition_reports_how_much_of_it_was_used() {
    let backend = FakeBackend::new(1 << 20, Removability::Removable);
    write_pit(&backend, 0, &[("LOG", 64, 128)]);
    let input = "small.bin";
    backend.store(input, vec![0xEE; 1024]);

    let (result, out) = run(
        &[
            "rawio",
            "flash",
            "mem0",
            "--scheme",
            "pit",
            "--partition",
            "LOG",
            "-i",
            input,
        ],
        &backend,
    );

    assert!(result.is_ok(), "{result:?}");
    assert!(out.contains("1024") && out.contains("65536"), "{out}");
}

#[test]
fn a_dry_run_dump_writes_no_file() {
    let backend = FakeBackend::new(1 << 20, Removability::Removable);
    write_pit(&backend, 0, &[("LOG", 64, 128)]);
    let output = "log.bin";

    let (result, out) = run(
        &[
            "rawio",
            "dump",
            "mem0",
            "--scheme",
            "pit",
            "--partition",
            "LOG",
            "-o",
            output,
            "--dry-run",
        ],
        &backend,
    );

    assert!(result.is_ok(), "{result:?}");
    assert!(out.contains("dry-run"), "{out}");
    assert!(!backend.has(output));
}

#[test]
fn a_dry_run_flash_leaves_the_device_untouched() {
    let backend = FakeBackend::new(1 << 20, Removability::Removable);
    write_pit(&backend, 0, &[("LOG", 64, 128)]);
    let before = backend.device.borrow().contents().to_vec();
    let input = "img.bin";
    backend.store(input, vec![0x5A; 4096]);

    let (result, out) = run(
        &[
            "rawio",
            "flash",
            "mem0",
            "--scheme",
            "pit",
            "--partition",
            "LOG",
            "-i",
            input,
            "--dry-run",
        ],
        &backend,
    );

    assert!(result.is_ok(), "{result:?}");
    assert!(out.contains("dry-run"), "{out}");
    assert_eq!(backend.device.borrow().contents(), before.as_slice());
}

/// A dry run exists to show what the real run would do, so it has to run the
/// same range validation and refuse exactly what the real run refuses.
#[test]
fn a_dry_run_refuses_the_unaligned_offset_the_real_run_would() {
    let backend = FakeBackend::new(1 << 20, Removability::Removable);
    let input = "img.bin";
    backend.store(input, vec![0u8; 512]);

    let (result, _) = run(
        &[
            "rawio",
            "flash",
            "mem0",
            "--offset",
            "100",
            "-i",
            input,
            "--dry-run",
        ],
        &backend,
    );

    assert!(
        matches!(result, Err(Error::InvalidArgument(_))),
        "{result:?}"
    );
}

#[test]
fn a_dry_run_refuses_a_range_that_overflows() {
    let backend = FakeBackend::new(1 << 20, Removability::Removable);
    let output = "x.bin";

    // Sector aligned, but offset + length wraps u64.
    let (result, _) = run(
        &[
            "rawio",
            "dump",
            "mem0",
            "--offset",
            "18446744073709551104",
            "--length",
            "4096",
            "-o",
            output,
            "--dry-run",
        ],
        &backend,
    );

    assert!(
        matches!(result, Err(Error::InvalidArgument(_))),
        "{result:?}"
    );
}

#[test]
fn a_dry_run_refuses_a_range_past_the_device_end() {
    let backend = FakeBackend::new(8192, Removability::Removable);
    let input = "img.bin";
    backend.store(input, vec![0u8; 8192]);

    let (result, _) = run(
        &[
            "rawio",
            "verify",
            "mem0",
            "--offset",
            "4096",
            "-i",
            input,
            "--dry-run",
        ],
        &backend,
    );

    assert!(
        matches!(result, Err(Error::InvalidArgument(_))),
        "{result:?}"
    );
}

/// The Windows backend locks and dismounts mounted volumes on a writable open,
/// so a rehearsal must never ask for one; only the real flash may.
#[test]
fn a_dry_run_flash_never_opens_the_device_for_writing() {
    let backend = FakeBackend::new(1 << 20, Removability::Removable);
    let input = "img.bin";
    backend.store(input, vec![0x5A; 4096]);
    let flash = |dry: bool| {
        let mut args = vec![
            "rawio",
            "flash",
            "mem0",
            "--offset",
            "0",
            "-i",
            input,
        ];
        if dry {
            args.push("--dry-run");
        }
        let (result, _) = run(&args, &backend);
        assert!(result.is_ok(), "dry={dry}: {result:?}");
    };

    flash(true);
    assert_eq!(*backend.opens.borrow(), vec![Access::Read]);

    flash(false);
    assert_eq!(
        *backend.opens.borrow(),
        vec![Access::Read, Access::ReadWrite]
    );
}

#[test]
fn flash_can_read_back_what_it_wrote() {
    let backend = FakeBackend::new(1 << 20, Removability::Removable);
    let input = "img.bin";
    backend.store(input, (0..4096).map(|i| (i % 251) as u8).collect::<Vec<_>>());

    let (result, out) = run(
        &[
            "rawio",
            "flash",
            "mem0",
            "--offset",
            "4096",
            "-i",
            input,
            "--verify",
        ],
        &backend,
    );

    assert!(result.is_ok(), "{result:?}");
    assert!(out.contains("verified"), "{out}");
}

#[test]
fn verify_names_the_first_byte_that_differs() {
    let backend = FakeBackend::new(1 << 20, Removability::Removable);
    let input = "img.bin";
    backend.store(input, vec![0x11; 4096]);

    let (flashed, _) = run(
        &[
            "rawio",
            "flash",
            "mem0",
            "--offset",
            "4096",
            "-i",
            input,
        ],
        &backend,
    );
    assert!(flashed.is_ok(), "{flashed:?}");
    backend.device.borrow_mut().contents_mut()[4096 + 100] = 0x22;

    let (result, _) = run(
        &[
            "rawio",
            "verify",
            "mem0",
            "--offset",
            "4096",
            "-i",
            input,
        ],
        &backend,
    );

    let message = result.unwrap_err().to_string();
    assert!(message.contains("4196"), "{message}");
}

/// A file longer than the partition would be compared into the neighbouring
/// partition; flash refuses that input, so verify has to as well.
#[test]
fn verify_rejects_input_longer_than_the_partition() {
    let backend = FakeBackend::new(1 << 20, Removability::Removable);
    write_pit(&backend, 0, &[("LOG", 64, 128)]);
    let input = "big.bin";
    backend.store(input, vec![0u8; 128 << 10]);

    let (result, _) = run(
        &[
            "rawio",
            "verify",
            "mem0",
            "--scheme",
            "pit",
            "--partition",
            "LOG",
            "-i",
            input,
        ],
        &backend,
    );

    assert!(
        matches!(result, Err(Error::InvalidArgument(_))),
        "{result:?}"
    );
}

/// Verify walks the same device ranges the transfers do, so it has to refuse
/// exactly what they refuse instead of failing later with a raw device error.
#[test]
fn verify_rejects_an_unaligned_offset_like_dump_does() {
    let backend = FakeBackend::new(1 << 20, Removability::Removable);
    let input = "img.bin";
    backend.store(input, vec![0u8; 512]);

    let (result, _) = run(
        &[
            "rawio",
            "verify",
            "mem0",
            "--offset",
            "100",
            "-i",
            input,
        ],
        &backend,
    );

    assert!(
        matches!(result, Err(Error::InvalidArgument(_))),
        "{result:?}"
    );
}

#[test]
fn verify_rejects_a_range_past_the_device_end_before_reading() {
    let backend = FakeBackend::new(8192, Removability::Removable);
    let input = "img.bin";
    backend.store(input, vec![0u8; 8192]);

    let (result, _) = run(
        &[
            "rawio",
            "verify",
            "mem0",
            "--offset",
            "4096",
            "-i",
            input,
        ],
        &backend,
    );

    assert!(
        matches!(result, Err(Error::InvalidArgument(_))),
        "{result:?}"
    );
}

#[test]
fn a_length_larger_than_the_partition_is_rejected() {
    let backend = FakeBackend::new(1 << 20, Removability::Removable);
    write_pit(&backend, 0, &[("LOG", 64, 128)]);
    let output = "log.bin";

    let (result, _) = run(
        &[
            "rawio",
            "dump",
            "mem0",
            "--scheme",
            "pit",
            "--partition",
            "LOG",
            "--length",
            "128K",
            "-o",
            output,
        ],
        &backend,
    );

    assert!(
        matches!(result, Err(Error::InvalidArgument(_))),
        "{result:?}"
    );
    assert!(!backend.has(output));
}

#[test]
fn a_missing_table_says_where_it_looked() {
    let backend = FakeBackend::new(1 << 20, Removability::Removable);

    let (result, _) = run(&["rawio", "pit", "mem0"], &backend);

    let message = result.unwrap_err().to_string();
    assert!(message.contains("--pit-offset"), "{message}");
}

/// Garbage at the PIT offset carries a garbage entry count; the parse failure
/// has to come from the magic check, never from trying to size a read by it.
#[test]
fn garbage_where_the_pit_should_be_fails_on_the_magic() {
    let backend = FakeBackend::new(1 << 20, Removability::Removable);
    {
        let mut device = backend.device.borrow_mut();
        let sector = &mut device.contents_mut()[..512];
        sector.fill(0xA5); // wrong magic
        sector[4..8].copy_from_slice(&100_000u32.to_le_bytes()); // absurd count
    }

    let (result, _) = run(&["rawio", "pit", "mem0", "--pit-offset", "0"], &backend);

    let message = result.unwrap_err().to_string();
    assert!(message.contains("magic"), "{message}");

    // Without an offset the same garbage is simply never a candidate.
    let (searched, _) = run(&["rawio", "pit", "mem0"], &backend);
    assert!(searched.unwrap_err().to_string().contains("no PIT found"));
}

#[test]
fn a_device_without_a_pit_aborts_instead_of_transferring() {
    let backend = FakeBackend::new(1 << 20, Removability::Removable);
    let output = "log.bin";

    let (result, _) = run(
        &[
            "rawio",
            "dump",
            "mem0",
            "--scheme",
            "pit",
            "--partition",
            "LOG",
            "-o",
            output,
        ],
        &backend,
    );

    assert!(matches!(result, Err(Error::Pit(_))), "{result:?}");
    assert!(!backend.has(output));
}

/// `(type, first LBA, sectors)` in the primary slots, in order.
fn write_mbr(backend: &FakeBackend, entries: &[(u8, u32, u32)]) {
    let mut device = backend.device.borrow_mut();
    let sector = &mut device.contents_mut()[..512];
    sector[510..512].copy_from_slice(&[0x55, 0xAA]);
    for (i, (kind, start, sectors)) in entries.iter().enumerate() {
        let entry = &mut sector[446 + i * 16..][..16];
        entry[4] = *kind;
        entry[8..12].copy_from_slice(&start.to_le_bytes());
        entry[12..16].copy_from_slice(&sectors.to_le_bytes());
    }
}

fn write_pit(backend: &FakeBackend, at: usize, entries: &[(&str, u32, u32)]) {
    let image = pit_image(entries);
    backend.device.borrow_mut().contents_mut()[at..at + image.len()].copy_from_slice(&image);
}

/// The dump is what `hexdump -C` prints of the same bytes, including the line
/// that says where it stopped.
#[test]
fn hex_prints_the_bytes_at_the_offset_it_was_given() {
    let backend = FakeBackend::new(4096, Removability::Removable);
    backend.device.borrow_mut().contents_mut()[..16]
        .copy_from_slice(b"\xeb\x3c\x90MSDOS5.0\x00\x02\x08\x20\x00");

    let (result, out) = run(
        &["rawio", "hex", "mem0", "--offset", "0", "--length", "16"],
        &backend,
    );

    assert!(result.is_ok(), "{result:?}");
    assert_eq!(
        out,
        "00000000  eb 3c 90 4d 53 44 4f 53  35 2e 30 00 02 08 20 00  |.<.MSDOS5.0... .|\n\
         00000010\n"
    );
}

/// A structure does not begin where its sector does, and looking at one is the
/// whole point of the command.
#[test]
fn hex_starts_at_an_offset_no_sector_starts_at() {
    let backend = FakeBackend::new(16 << 20, Removability::Removable);
    write_mbr(&backend, &[(0x0c, 2048, 8)]);

    let (result, out) = run(
        &[
            "rawio", "hex", "mem0", "--offset", "0x1be", "--length", "16",
        ],
        &backend,
    );

    assert!(result.is_ok(), "{result:?}");
    assert!(
        out.starts_with("000001be  00 00 00 00 0c 00 00 00"),
        "{out}"
    );
    assert!(out.trim_end().ends_with("000001ce"), "{out}");
}

/// The partition forms resolve exactly as they do for a transfer, and say what
/// they resolved to before a byte is printed.
#[test]
fn hex_reads_the_partition_the_table_names() {
    let backend = FakeBackend::new(16 << 20, Removability::Removable);
    write_mbr(&backend, &[(0x0c, 2048, 8)]);
    backend.device.borrow_mut().contents_mut()[1 << 20..(1 << 20) + 4].copy_from_slice(b"BOOT");

    let run = run_streams(
        &[
            "rawio",
            "hex",
            "mem0",
            "--partition-id",
            "1",
            "--length",
            "16",
        ],
        &backend,
    );

    assert!(run.result.is_ok(), "{:?}", run.result);
    assert!(run.diag.contains("parts: mbr #1"), "{}", run.diag);
    assert!(run.out.contains("00100000  42 4f 4f 54"), "{}", run.out);
}

/// Most of a card is one repeated line, and printing all of them hides the one
/// that matters. The default length is one sector.
#[test]
fn hex_collapses_the_runs_a_card_is_mostly_made_of() {
    let backend = FakeBackend::new(4096, Removability::Removable);

    let (result, out) = run(&["rawio", "hex", "mem0", "--offset", "0"], &backend);

    assert!(result.is_ok(), "{result:?}");
    let lines: Vec<&str> = out.lines().collect();
    assert_eq!(lines.len(), 3, "{out}");
    assert_eq!(lines[1], "*");
    assert_eq!(lines[2], "00000200");
}

#[test]
fn hex_prints_every_line_when_the_squeeze_is_off() {
    let backend = FakeBackend::new(4096, Removability::Removable);

    let (result, out) = run(
        &[
            "rawio",
            "hex",
            "mem0",
            "--offset",
            "0",
            "--length",
            "64",
            "--no-squeeze",
        ],
        &backend,
    );

    assert!(result.is_ok(), "{result:?}");
    assert_eq!(out.lines().count(), 5, "{out}");
    assert!(!out.contains('*'), "{out}");
}

/// A rehearsal reads nothing, which is the only way to check a range on a
/// device that must not be touched.
#[test]
fn a_dry_run_hex_reads_nothing() {
    let backend = FakeBackend::new(4096, Removability::Removable);
    backend.device.borrow_mut().fail_reads_from(0);

    let (result, out) = run(
        &[
            "rawio",
            "hex",
            "mem0",
            "--offset",
            "0",
            "--length",
            "32",
            "--dry-run",
        ],
        &backend,
    );

    assert!(result.is_ok(), "{result:?}");
    assert!(out.contains("dry-run: would read 32 bytes"), "{out}");
    assert!(!out.contains('|'), "{out}");
}

#[test]
fn hex_refuses_a_range_past_the_device_end() {
    let backend = FakeBackend::new(4096, Removability::Removable);

    let (result, _) = run(
        &[
            "rawio", "hex", "mem0", "--offset", "4000", "--length", "512",
        ],
        &backend,
    );

    assert!(
        matches!(result, Err(Error::InvalidArgument(_))),
        "{result:?}"
    );
}

/// A script reads stdout, and `rawio hex` exists to diff against the
/// `hexdump -C` the reader already has. How the range was arrived at is for a
/// person, so it takes stderr and leaves the dump alone.
#[test]
fn a_partition_hexdump_puts_nothing_but_the_dump_on_stdout() {
    let backend = FakeBackend::new(16 << 20, Removability::Removable);
    write_mbr(&backend, &[(0x0c, 2048, 8)]);

    let run = run_streams(&["rawio", "hex", "mem0", "--partition-id", "1"], &backend);

    assert!(run.result.is_ok(), "{:?}", run.result);
    assert!(run.out.starts_with("00100000"), "{}", run.out);
    assert!(!run.out.contains("parts:"), "{}", run.out);
    assert!(run.diag.contains("parts: mbr #1"), "{}", run.diag);
}

/// The same rule for the PIT: a search prints where it looked and what it
/// found, and none of that belongs in what a script parses.
#[test]
fn a_pit_search_reports_itself_on_stderr() {
    let backend = FakeBackend::new(16 << 20, Removability::Removable);
    write_mbr(&backend, &[(0x0c, 2048, 4096)]);
    write_pit(&backend, 2047 * 512, &[("LOG", 64, 128)]);

    let run = run_streams(&["rawio", "pit", "mem0"], &backend);

    assert!(run.result.is_ok(), "{:?}", run.result);
    assert!(!run.out.contains("pit: searching"), "{}", run.out);
    assert!(!run.out.contains("pit: found at offset"), "{}", run.out);
    assert!(run.diag.contains("pit: searching"), "{}", run.diag);
    assert!(run.diag.contains("pit: found at offset"), "{}", run.diag);
    assert!(run.out.contains("LOG"), "{}", run.out);
}

/// --pit-offset says where a PIT is. Which table a range comes from is what
/// --scheme says, and letting the offset quietly decide it changed what
/// `--partition-id 1` meant on a card that carries both.
#[test]
fn a_pit_offset_does_not_choose_the_table() {
    let backend = FakeBackend::new(16 << 20, Removability::Removable);
    write_mbr(&backend, &[(0x0c, 2048, 8)]);
    write_pit(&backend, 4096, &[("LOG", 64, 128)]);

    let (refused, _) = run(
        &["rawio", "parts", "mem0", "--pit-offset", "4096"],
        &backend,
    );
    assert!(
        matches!(refused, Err(Error::InvalidArgument(_))),
        "{refused:?}"
    );

    // Said outright, the offset is honoured and the MBR is not consulted.
    let (asked, out) = run(
        &[
            "rawio",
            "parts",
            "mem0",
            "--scheme",
            "pit",
            "--pit-offset",
            "4096",
        ],
        &backend,
    );
    assert!(asked.is_ok(), "{asked:?}");
    assert!(out.contains("LOG"), "{out}");
}

/// `probe --pit` reads one, so the offset has something to say there without
/// a --scheme that would also redirect --partition.
#[test]
fn probe_takes_a_pit_offset_alongside_the_partition_table() {
    let backend = FakeBackend::new(16 << 20, Removability::Removable);
    write_mbr(&backend, &[(0x0c, 2048, 8)]);
    write_pit(&backend, 4096, &[("LOG", 64, 128)]);

    let run = run_streams(
        &[
            "rawio",
            "probe",
            "mem0",
            "--parts",
            "--pit",
            "--pit-offset",
            "4096",
            "--partition-id",
            "1",
        ],
        &backend,
    );

    assert!(run.result.is_ok(), "{:?} {}", run.result, run.diag);
    // The MBR entry, not the PIT entry that also answers to 1.
    assert!(run.diag.contains("parts: mbr #1"), "{}", run.diag);
    assert!(run.out.contains("resolved: offset=1048576"), "{}", run.out);
    assert!(run.out.contains("LOG"), "{}", run.out);
}

/// The WSL shares, the extended-length and device namespaces, and plain UNC
/// all reach the OS exactly as typed. Rewriting them breaks paths that
/// Windows accepts and we do not.
#[test]
fn special_paths_are_not_rewritten() {
    let paths = [
        r"\\wsl.localhost\Ubuntu-24.04\home\me\boot.bin",
        r"\\wsl$\Ubuntu\home\me\boot.bin",
        r"\\?\C:\images\boot.bin",
        r"\\?\UNC\wsl.localhost\Ubuntu\home\me\boot.bin",
        r"\\server\share\boot.bin",
        r"C:\images\boot.bin",
        "C:/images/boot.bin",
        "/home/me/boot.bin",
    ];

    for given in paths {
        for absolute in [None, Some(given.to_string())] {
            let around = Surroundings {
                watched: false,
                absolute,
            };
            let backend = FakeBackend::new(4096, Removability::Removable);
            let mut trace = Trace::new();
            let (mut out, mut diag) = (String::new(), String::new());

            let cli = arguments(&[
                "rawio", "dump", "mem0", "--offset", "0", "--length", "512", "-o", given,
            ]);
            let (mut host, mut device) = (&backend, None);
            let next = app::run(
                &cli, &around, &mut host, &mut device, &mut out, &mut diag, &mut trace,
            );
            let Ok(Next::Dump(job)) = next else {
                panic!("expected dump")
            };
            assert_eq!(job.output, given, "{given}");

            let cli = arguments(&["rawio", "flash", "mem0", "--offset", "0", "-i", given]);
            let (mut host, mut device) = (&backend, None);
            let next = app::run(
                &cli, &around, &mut host, &mut device, &mut out, &mut diag, &mut trace,
            );
            let Ok(Next::Flash(job)) = next else {
                panic!("expected flash")
            };
            assert_eq!(job.input, given, "{given}");
        }
    }
}

/// A partition form says where its range is before it is used, and an offset
/// says nothing.
#[test]
fn a_resolved_range_is_told_before_it_is_used() {
    let backend = FakeBackend::new(16 << 20, Removability::Removable);
    write_mbr(&backend, &[(0x0c, 2048, 8)]);

    let told = run_streams(
        &["rawio", "dump", "mem0", "--partition-id", "1", "-o", "p", "--dry-run"],
        &backend,
    );
    assert!(told.result.is_ok(), "{:?}", told.result);
    assert_eq!(
        told.diag,
        "parts: mbr #1 - spans 1048576..1052672 (4096 bytes), type 0x0c, from MBR at LBA 0\n"
    );
    assert_eq!(
        told.out,
        "dry-run: would read 4096 bytes from mem0 at 1048576..1052672 into \"p\"\n"
    );

    let silent = run_streams(
        &["rawio", "dump", "mem0", "--offset", "0", "--length", "512", "-o", "p"],
        &backend,
    );
    assert!(silent.result.is_ok(), "{:?}", silent.result);
    assert_eq!(silent.diag, "");
    assert_eq!(silent.out, "dumped 512 bytes from offset 0 to \"p\"\n");
}

/// A rehearsal by offset reads nothing, whatever the command.
#[test]
fn a_rehearsal_by_offset_touches_nothing() {
    let backend = FakeBackend::new(1 << 20, Removability::Removable);
    backend.device.borrow_mut().fail_reads_from(0);
    backend.device.borrow_mut().fail_writes_from(0);
    backend.store("i", vec![1u8; 700]);

    for (args, said) in [
        (
            vec!["rawio", "dump", "mem0", "--offset", "0", "--length", "9", "-o", "o", "--dry-run"],
            "dry-run: would read 9 bytes from mem0 at 0..9 into \"o\"\n",
        ),
        (
            vec!["rawio", "flash", "mem0", "--offset", "512", "-i", "i", "--dry-run"],
            "dry-run: would write 700 bytes from \"i\" to mem0 at 512..1212\n",
        ),
        (
            vec!["rawio", "verify", "mem0", "--offset", "512", "-i", "i", "--dry-run"],
            "dry-run: would compare 700 bytes of mem0 at 512..1212 against \"i\"\n",
        ),
    ] {
        let (result, out) = run(&args, &backend);
        assert!(result.is_ok(), "{args:?} {result:?}");
        assert_eq!(out, said);
    }
    assert_eq!(backend.device.borrow().flushes(), 0);
    assert!(!backend.has("o"));
}

/// Only a flash that will write asks for more than to read.
#[test]
fn nothing_but_a_real_flash_opens_for_writing() {
    let backend = FakeBackend::new(16 << 20, Removability::Removable);
    write_mbr(&backend, &[(0x0c, 2048, 8)]);
    write_pit(&backend, 4096, &[("LOG", 64, 128)]);
    backend.store("i", vec![0u8; 512]);

    for args in [
        vec!["rawio", "probe", "mem0", "--parts", "--pit"],
        vec!["rawio", "parts", "mem0"],
        vec!["rawio", "pit", "mem0"],
        vec!["rawio", "hex", "mem0", "--offset", "0"],
        vec!["rawio", "dump", "mem0", "--offset", "0", "--length", "512", "-o", "o"],
        vec!["rawio", "verify", "mem0", "--offset", "8192", "-i", "i"],
    ] {
        let (result, _) = run(&args, &backend);
        assert!(result.is_ok(), "{args:?} {result:?}");
    }
    assert!(backend.opens.borrow().iter().all(|access| *access == Access::Read));
}

/// The input has to fit the partition it is meant for, to the byte.
#[test]
fn an_input_fits_its_partition() {
    let backend = FakeBackend::new(16 << 20, Removability::Removable);
    write_mbr(&backend, &[(0x0c, 2048, 8)]);
    backend.store("fits", vec![1u8; 4096]);
    backend.store("long", vec![2u8; 4097]);

    let (long, _) = run(
        &["rawio", "flash", "mem0", "--partition-id", "1", "-i", "long"],
        &backend,
    );
    assert_eq!(
        long.unwrap_err().to_string(),
        "invalid argument: input is 4097 bytes but the target range is 4096 bytes"
    );
    assert_eq!(backend.device.borrow().contents()[1 << 20], 0);

    let (fits, out) = run(
        &["rawio", "flash", "mem0", "--partition-id", "1", "-i", "fits", "--verify"],
        &backend,
    );
    assert!(fits.is_ok(), "{fits:?}");
    assert_eq!(
        out,
        "wrote 4096 bytes to offset 1048576 of 4096 bytes available\n\
         verified 4096 bytes at offset 1048576\n"
    );
    assert_eq!(backend.device.borrow().contents()[(1 << 20) + 4096], 0);
}

/// A dump by offset does not know how long it is.
#[test]
fn a_dump_by_offset_needs_a_length() {
    let backend = FakeBackend::new(4096, Removability::Removable);

    let (result, _) = run(&["rawio", "dump", "mem0", "--offset", "0", "-o", "o"], &backend);

    assert_eq!(
        result.unwrap_err().to_string(),
        "invalid argument: --length is required with --offset"
    );
}

/// A card whose table is damaged is not searched for a PIT: what its partitions
/// leave over is not known.
#[test]
fn a_damaged_table_stops_the_search() {
    let backend = FakeBackend::new(16 << 20, Removability::Removable);
    // An extended partition with no chain in it.
    write_mbr(&backend, &[(0x05, 2048, 4096)]);
    write_pit(&backend, 4096, &[("LOG", 64, 128)]);

    let (searched, _) = run(&["rawio", "pit", "mem0"], &backend);
    assert!(matches!(searched, Err(Error::Parts(_))), "{searched:?}");

    let (said, out) = run(&["rawio", "pit", "mem0", "--pit-offset", "4096"], &backend);
    assert!(said.is_ok(), "{said:?}");
    assert!(out.contains("LOG"), "{out}");
}

/// The report of a table, line by line.
#[test]
fn a_table_is_printed_in_columns() {
    let backend = FakeBackend::new(16 << 20, Removability::Removable);
    write_mbr(&backend, &[(0x0c, 2048, 4096)]);

    let (result, out) = run(&["rawio", "parts", "mem0"], &backend);

    assert!(result.is_ok(), "{result:?}");
    let lines: Vec<&str> = out.lines().collect();
    assert_eq!(lines[0], "parts: scheme=mbr, from MBR at LBA 0, 1 entries");
    assert_eq!(
        lines[1],
        "device: mem0  0.0 GiB  removable  sector=512  in-memory test device"
    );
    assert!(lines.contains(&"  unallocated 3145728..16777216 (13.0 MiB)"), "{out}");
}

/// Everything on the card.
fn contents(backend: &FakeBackend) -> Vec<u8> {
    backend.device.borrow().contents().to_vec()
}

/// A rehearsed flash opens the device once, for reading, and neither writes nor
/// flushes.
#[test]
fn a_rehearsed_flash_leaves_the_card_alone() {
    let backend = FakeBackend::new(8192, Removability::Removable);
    backend.device.borrow_mut().write_at(1024, &[7u8; 512]).unwrap();
    let before = contents(&backend);
    backend.store("image.bin", vec![1u8; 2048]);

    let (result, out) = run(
        &["rawio", "flash", "mem0", "--offset", "1K", "-i", "image.bin", "--dry-run"],
        &backend,
    );

    assert!(result.is_ok(), "{result:?}");
    assert!(out.contains("dry-run"), "{out}");
    assert_eq!(*backend.opens.borrow(), vec![Access::Read]);
    assert_eq!(backend.touched.get(), 0);
    assert_eq!(contents(&backend), before);
}

/// A card that may not be written is refused untouched, though it was opened.
#[test]
fn a_refused_flash_leaves_the_disk_alone() {
    let backend = FakeBackend::new(8192, Removability::Fixed);
    backend.store("image.bin", vec![1u8; 512]);

    let (result, _) =
        run(&["rawio", "flash", "mem0", "--offset", "0", "-i", "image.bin"], &backend);

    assert_eq!(result.unwrap_err().exit_code(), 4);
    assert_eq!(backend.opens.borrow().len(), 1);
    assert_eq!(backend.touched.get(), 0);
    assert_eq!(contents(&backend), vec![0u8; 8192]);
}

/// A plan touches the card no more than a rehearsal does: only the transfer
/// writes.
#[test]
fn nothing_is_written_before_the_transfer() {
    let backend = FakeBackend::new(8192, Removability::Removable);
    let cli = arguments(&["rawio", "flash", "mem0", "--offset", "1K", "-i", "image.bin"]);
    let around = Surroundings { watched: false, absolute: None };
    let (mut out, mut diag, mut trace) = (String::new(), String::new(), Trace::new());
    let (mut host, mut device) = (&backend, None);

    let next =
        app::run(&cli, &around, &mut host, &mut device, &mut out, &mut diag, &mut trace).unwrap();
    let Next::Flash(job) = next else {
        panic!("a flash goes on");
    };
    let ready =
        app::plan_flash(job, 512, &mut device, &mut out, &mut diag, &mut trace).unwrap().unwrap();
    assert_eq!(backend.touched.get(), 0);

    let image = [9u8; 512];
    let mut source = &image[..];
    let opened = device.as_mut().unwrap();
    let check =
        app::finish_flash(ready, opened, &mut source, &mut out, &mut trace, &mut Silent).unwrap();
    assert!(check.is_none());
    assert_eq!(backend.touched.get(), 2);
    assert_eq!(contents(&backend)[1024..1536], image);
}

#[test]
fn a_fixed_disk_is_never_rehearsed() {
    let backend = FakeBackend::new(4096, Removability::Fixed);
    let (result, out) = run(&["rawio", "probe", "mem0"], &backend);

    assert!(result.is_ok(), "{result:?}");
    assert!(backend.rehearsals.borrow().is_empty());
    assert_eq!(out.lines().filter(|line| line.contains("not removable")).count(), 1, "{out}");
}

#[test]
fn a_failed_rehearsal_is_printed_and_the_probe_goes_on() {
    let mut backend = FakeBackend::new(4096, Removability::Removable);
    backend.refusal = Some(DeviceError::new(Stage::LockVolume, "the volume is busy"));
    let (result, out) = run(&["rawio", "probe", "mem0"], &backend);

    assert!(result.is_ok(), "{result:?}");
    assert_eq!(*backend.rehearsals.borrow(), vec!["mem0".to_string()]);
    assert!(out.contains("the volume is busy"), "{out}");
}

/// A card that carries both an MBR and a GPT has no gaps to go by, and is
/// searched from its start.
#[test]
fn a_hybrid_card_is_searched_whole() {
    let backend = FakeBackend::new(4 << 20, Removability::Removable);
    write_mbr(&backend, &[(0x0c, 2048, 4096)]);
    backend.device.borrow_mut().contents_mut()[512..520].copy_from_slice(b"EFI PART");
    write_pit(&backend, 64 * 512, &[("BOOT", 2048, 8)]);

    let streams = run_streams(&["rawio", "pit", "mem0"], &backend);

    assert!(streams.result.is_ok(), "{:?}", streams.result);
    assert!(streams.out.contains("BOOT"), "{}", streams.out);
    let said: Vec<&str> = streams.diag.lines().collect();
    assert!(said[0].starts_with("pit: no partition table to bound the search ("), "{said:?}");
    assert!(said[0].contains("hybrid"), "{said:?}");
    assert_eq!(said[1], "pit: searching 0..4194304");
    assert_eq!(
        said[2],
        "pit: found at offset 32768 by searching the space no partition covers"
    );
}

/// A device that fails while its table is read says nothing of the table, and
/// the search goes on without it.
#[test]
fn a_table_that_cannot_be_read_does_not_stop_the_search() {
    let backend = FakeBackend::new(1 << 20, Removability::Removable);
    write_mbr(&backend, &[(0x0c, 64, 64)]);
    backend.device.borrow_mut().fail_reads_from(512);

    let streams = run_streams(&["rawio", "pit", "mem0"], &backend);

    let said: Vec<&str> = streams.diag.lines().collect();
    assert!(said[0].contains("device removed"), "{said:?}");
    assert!(said[0].ends_with("; searching from offset 0"), "{said:?}");
    assert_eq!(said[1], "pit: searching 0..1048576");
    // The one block there is still reads, and holds no table.
    assert!(matches!(streams.result, Err(Error::Pit(_))), "{:?}", streams.result);
}

/// The range of a flash that was verified is the range that was written.
#[test]
fn a_flash_is_read_back_only_when_asked() {
    for (verify, lines) in [(false, 1), (true, 2)] {
        let backend = FakeBackend::new(8192, Removability::Removable);
        backend.store("image.bin", vec![3u8; 700]);
        let mut args = vec!["rawio", "flash", "mem0", "--offset", "1K", "-i", "image.bin"];
        if verify {
            args.push("--verify");
        }
        let (result, out) = run(&args, &backend);
        assert!(result.is_ok(), "{result:?}");
        assert_eq!(out.lines().count(), lines, "{out}");
        assert_eq!(out.contains("verified 700 bytes at offset 1024"), verify, "{out}");
    }
}
