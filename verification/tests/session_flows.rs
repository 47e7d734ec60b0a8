//! The protocol of a (de)compression, run against a file system held in memory.

use std::collections::HashMap;
use zist::format::Format;
use zist::io::{Error, Options};
use zist::session::{Action, Creation, Event, Job, Outcome, Probe, Session, SourceData};

const PAYLOAD: &[u8] = b"the quick brown fox jumps over the lazy dog\n\
    the rain in spain falls mainly on the plain\n\
    pack my box with five dozen liquor jugs\n";

#[derive(Default)]
struct MemFs {
    files: HashMap<Vec<u8>, Vec<u8>>,
    /// Symbolic links: path -> target.
    links: HashMap<Vec<u8>, Vec<u8>>,
    /// Every action performed, by name.
    log: Vec<&'static str>,
    /// Files that open but cannot be read.
    unreadable: Vec<Vec<u8>>,
}

impl MemFs {
    fn with(path: &str, data: &[u8]) -> MemFs {
        let mut fs = MemFs::default();
        fs.write(path, data);
        fs
    }
    fn write(&mut self, path: &str, data: &[u8]) {
        self.files.insert(path.as_bytes().to_vec(), data.to_vec());
    }
    fn read(&self, path: &str) -> Option<&Vec<u8>> {
        self.files.get(path.as_bytes())
    }
    fn has(&self, path: &str) -> bool {
        self.files.contains_key(path.as_bytes()) || self.links.contains_key(path.as_bytes())
    }
    fn rename(&mut self, from: &str, to: &str) {
        let data = self.files.remove(from.as_bytes()).unwrap();
        self.files.insert(to.as_bytes().to_vec(), data);
    }

    /// Hands an unreadable source to `session` and follows it to its answer.
    fn finish_unreadable(&mut self, session: Session, why: &str) -> Result<Outcome, Error> {
        let mut session = session;
        let mut event = Event::SourceRead(SourceData::ReadFailed(why.to_string()));
        loop {
            let (next, action) = session.step(event);
            session = next;
            event = match action {
                Action::DiscardOutput(p) => {
                    self.log.push("discard");
                    self.files.remove(&p);
                    Event::OutputDiscarded
                }
                Action::Finish(r) => return r,
                _ => panic!("an unreadable source is followed by cleanup only"),
            };
        }
    }

    /// Runs `job`; what is streamed goes to `sink`.
    fn run(&mut self, job: Job, sink: &mut Vec<u8>) -> Result<Outcome, Error> {
        let mut session = Session::new(job);
        let mut event = Event::Begin;
        let mut output: Option<Vec<u8>> = None;
        loop {
            assert!(session.awaits(&event));
            let (next, action) = session.step(event);
            session = next;
            event = match action {
                Action::ReadHead(p) => {
                    self.log.push("read_head");
                    match self.files.get(&p) {
                        Some(d) => Event::HeadRead(Ok(d[..d.len().min(6)].to_vec())),
                        None => Event::HeadRead(Err("No such file or directory".to_string())),
                    }
                }
                Action::ProbeOutput(p) => {
                    self.log.push("probe");
                    if self.files.contains_key(&p) || self.links.contains_key(&p) {
                        Event::OutputProbed(Probe::Present)
                    } else {
                        Event::OutputProbed(Probe::Absent)
                    }
                }
                Action::RemoveStale(p) => {
                    self.log.push("remove_stale");
                    if self.links.remove(&p).is_none() {
                        self.files.remove(&p);
                    }
                    Event::StaleRemoved(Ok(()))
                }
                Action::CreateOutput(p) => {
                    self.log.push("create");
                    if self.files.contains_key(&p) || self.links.contains_key(&p) {
                        Event::OutputCreated(Creation::AlreadyExists)
                    } else {
                        self.files.insert(p.clone(), Vec::new());
                        output = Some(p);
                        Event::OutputCreated(Creation::Created)
                    }
                }
                Action::ReadSource(p) => {
                    self.log.push("read_source");
                    if self.unreadable.contains(&p) {
                        return self.finish_unreadable(session, "Input/output error");
                    }
                    match self.files.get(&p) {
                        Some(d) => Event::SourceRead(SourceData::Data(d.clone())),
                        None => Event::SourceRead(SourceData::OpenFailed("No such file".to_string())),
                    }
                }
                Action::WriteOutput(bytes) => {
                    self.log.push("write");
                    match &output {
                        Some(p) => self.files.get_mut(p).unwrap().extend_from_slice(&bytes),
                        None => sink.extend_from_slice(&bytes),
                    }
                    Event::OutputWritten(Ok(()))
                }
                Action::DiscardOutput(p) => {
                    self.log.push("discard");
                    self.files.remove(&p);
                    Event::OutputDiscarded
                }
                Action::RemoveSource(p) => {
                    self.log.push("remove_source");
                    match self.files.remove(&p) {
                        Some(_) => Event::SourceRemoved(Ok(())),
                        None => Event::SourceRemoved(Err("No such file".to_string())),
                    }
                }
                Action::Finish(r) => return r,
            };
        }
    }
}

fn compress_in_place(fs: &mut MemFs, src: &str, fmt: Format, level: Option<i32>, opts: Options) -> Result<String, Error> {
    let job = Job::CompressInPlace { src: src.as_bytes().to_vec(), fmt, level, opts };
    match fs.run(job, &mut Vec::new())? {
        Outcome::Compressed(p) => Ok(String::from_utf8(p).unwrap()),
        _ => panic!("unexpected outcome"),
    }
}

fn decompress_in_place(fs: &mut MemFs, src: &str, opts: Options) -> Result<(String, Format), Error> {
    let job = Job::DecompressInPlace { src: src.as_bytes().to_vec(), opts };
    match fs.run(job, &mut Vec::new())? {
        Outcome::Decompressed(p, f) => Ok((String::from_utf8(p).unwrap(), f)),
        _ => panic!("unexpected outcome"),
    }
}

fn compress_to_writer(fs: &mut MemFs, src: &str, fmt: Format, level: Option<i32>, out: &mut Vec<u8>) -> Result<(), Error> {
    let job = Job::CompressToWriter { src: src.as_bytes().to_vec(), fmt, level };
    match fs.run(job, out)? {
        Outcome::Streamed => Ok(()),
        _ => panic!("unexpected outcome"),
    }
}

fn decompress_to_writer(fs: &mut MemFs, src: &str, out: &mut Vec<u8>, max: Option<u64>) -> Result<Format, Error> {
    let job = Job::DecompressToWriter { src: src.as_bytes().to_vec(), max_decompressed: max };
    match fs.run(job, out)? {
        Outcome::StreamedFrom(f) => Ok(f),
        _ => panic!("unexpected outcome"),
    }
}

fn test_file(fs: &mut MemFs, src: &str) -> Result<Format, Error> {
    decompress_to_writer(fs, src, &mut Vec::new(), None)
}

fn suffix(fmt: Format) -> String {
    String::from_utf8(fmt.suffix()).unwrap()
}

fn roundtrip(fmt: Format) {
    let mut fs = MemFs::with("d/sample.txt", PAYLOAD);
    let compressed = compress_in_place(&mut fs, "d/sample.txt", fmt, None, Options::default()).unwrap();
    assert!(fs.has(&compressed));
    assert!(!fs.has("d/sample.txt"));
    assert_eq!(compressed, format!("d/sample.txt.{}", suffix(fmt)));

    let (restored, detected) = decompress_in_place(&mut fs, &compressed, Options::default()).unwrap();
    assert_eq!(detected, fmt);
    assert!(!fs.has(&compressed));
    assert_eq!(restored, "d/sample.txt");
    assert_eq!(fs.read(&restored).unwrap(), PAYLOAD);
}

#[test]
fn roundtrip_zstd() {
    roundtrip(Format::Zstd);
}

#[test]
fn roundtrip_gzip() {
    roundtrip(Format::Gzip);
}

#[test]
fn roundtrip_xz() {
    roundtrip(Format::Xz);
}

#[test]
fn roundtrip_bzip2() {
    roundtrip(Format::Bzip2);
}

#[test]
fn decompress_with_misleading_extension() {
    let mut fs = MemFs::with("d/real.txt", PAYLOAD);
    let compressed = compress_in_place(&mut fs, "d/real.txt", Format::Gzip, None, Options::default()).unwrap();
    fs.rename(&compressed, "d/lying.xz");

    let (restored, detected) = decompress_in_place(&mut fs, "d/lying.xz", Options::default()).unwrap();
    assert_eq!(detected, Format::Gzip);
    assert_eq!(restored, "d/lying");
    assert_eq!(fs.read(&restored).unwrap(), PAYLOAD);
}

#[test]
fn compress_refuses_to_clobber() {
    let mut fs = MemFs::with("d/a.txt", PAYLOAD);
    fs.write("d/a.txt.zst", b"existing");
    match compress_in_place(&mut fs, "d/a.txt", Format::Zstd, None, Options::default()) {
        Err(Error::OutputExists(p)) => assert_eq!(p, b"d/a.txt.zst".to_vec()),
        other => panic!("expected OutputExists, got {other:?}"),
    }
    assert!(fs.has("d/a.txt"));
    assert_eq!(fs.read("d/a.txt.zst").unwrap(), b"existing");
}

#[test]
fn decompress_unknown_format_errors() {
    let mut fs = MemFs::with("d/plain.bin", b"not a compressed file at all, nope");
    match decompress_in_place(&mut fs, "d/plain.bin", Options::default()) {
        Err(Error::UnknownFormat) => {}
        other => panic!("expected UnknownFormat, got {other:?}"),
    }
    assert!(fs.has("d/plain.bin"));
    assert_eq!(fs.log, vec!["read_head"]);
}

#[test]
fn keep_preserves_source_on_compress() {
    let mut fs = MemFs::with("d/a.txt", PAYLOAD);
    let opts = Options { keep: true, ..Options::default() };
    let out = compress_in_place(&mut fs, "d/a.txt", Format::Zstd, None, opts).unwrap();
    assert!(fs.has("d/a.txt"), "keep=true must preserve source");
    assert!(fs.has(&out));
}

#[test]
fn keep_preserves_source_on_decompress() {
    let mut fs = MemFs::with("d/a.txt", PAYLOAD);
    let compressed = compress_in_place(&mut fs, "d/a.txt", Format::Gzip, None, Options::default()).unwrap();

    let opts = Options { keep: true, ..Options::default() };
    let (restored, _) = decompress_in_place(&mut fs, &compressed, opts).unwrap();
    assert!(fs.has(&compressed), "keep=true must preserve compressed source");
    assert!(fs.has(&restored));
}

#[test]
fn force_overwrites_existing_output_on_compress() {
    let mut fs = MemFs::with("d/a.txt", PAYLOAD);
    fs.write("d/a.txt.zst", b"stale contents");

    let opts = Options { force: true, ..Options::default() };
    compress_in_place(&mut fs, "d/a.txt", Format::Zstd, None, opts).unwrap();
    assert!(fs.has("d/a.txt.zst"));
    assert_ne!(fs.read("d/a.txt.zst").unwrap(), b"stale contents");
}

#[test]
fn force_overwrites_existing_output_on_decompress() {
    let mut fs = MemFs::with("d/a.txt", PAYLOAD);
    let compressed = compress_in_place(&mut fs, "d/a.txt", Format::Xz, None, Options::default()).unwrap();
    fs.write("d/a.txt", b"stale");

    let opts = Options { force: true, ..Options::default() };
    decompress_in_place(&mut fs, &compressed, opts).unwrap();
    assert_eq!(fs.read("d/a.txt").unwrap(), PAYLOAD);
}

#[test]
fn compress_to_writer_then_decompress_to_writer() {
    let mut fs = MemFs::with("d/a.txt", PAYLOAD);

    let mut buf: Vec<u8> = Vec::new();
    compress_to_writer(&mut fs, "d/a.txt", Format::Zstd, None, &mut buf).unwrap();
    assert_eq!(&buf[..4], &[0x28, 0xB5, 0x2F, 0xFD]);
    assert!(fs.has("d/a.txt"), "streaming must never touch source");

    fs.write("d/staged.zst", &buf);
    let mut plain = Vec::new();
    let fmt = decompress_to_writer(&mut fs, "d/staged.zst", &mut plain, None).unwrap();
    assert_eq!(fmt, Format::Zstd);
    assert_eq!(plain, PAYLOAD);
    assert!(fs.log.iter().all(|a| ["read_head", "read_source", "write"].contains(a)));
}

#[test]
fn test_file_passes_valid_archive() {
    let mut fs = MemFs::with("d/a.txt", PAYLOAD);
    let compressed = compress_in_place(&mut fs, "d/a.txt", Format::Bzip2, None, Options::default()).unwrap();
    assert_eq!(test_file(&mut fs, &compressed).unwrap(), Format::Bzip2);
}

#[test]
fn test_file_fails_on_corruption() {
    let mut fs = MemFs::with("d/a.txt", PAYLOAD);
    let compressed = compress_in_place(&mut fs, "d/a.txt", Format::Gzip, None, Options::default()).unwrap();

    let mut bytes = fs.read(&compressed).unwrap().clone();
    let i = 12.min(bytes.len() - 1);
    bytes[i] ^= 0xFF;
    fs.write(&compressed, &bytes);

    assert!(test_file(&mut fs, &compressed).is_err(), "corrupted archive must fail test");
}

#[test]
fn max_size_aborts_when_output_exceeds_cap() {
    let mut fs = MemFs::with("d/bomb.txt", PAYLOAD);
    let compressed = compress_in_place(&mut fs, "d/bomb.txt", Format::Zstd, None, Options::default()).unwrap();

    let mut sink = Vec::new();
    let err = decompress_to_writer(&mut fs, &compressed, &mut sink, Some(10)).unwrap_err();
    match err {
        Error::MaxSizeExceeded(10) => {}
        other => panic!("expected MaxSizeExceeded(10), got {other:?}"),
    }
}

#[test]
fn max_size_passes_when_output_fits() {
    let mut fs = MemFs::with("d/small.txt", PAYLOAD);
    let compressed = compress_in_place(&mut fs, "d/small.txt", Format::Zstd, None, Options::default()).unwrap();

    let mut sink = Vec::new();
    decompress_to_writer(&mut fs, &compressed, &mut sink, Some(64 * 1024)).unwrap();
    assert_eq!(sink, PAYLOAD);
}

#[test]
fn decompress_in_place_honors_max_size() {
    let mut fs = MemFs::with("d/a.txt", PAYLOAD);
    let compressed = compress_in_place(&mut fs, "d/a.txt", Format::Gzip, None, Options::default()).unwrap();

    let opts = Options { max_decompressed: Some(10), ..Options::default() };
    let res = decompress_in_place(&mut fs, &compressed, opts);
    assert!(matches!(res, Err(Error::MaxSizeExceeded(10))));
    assert!(!fs.has("d/a.txt"), "partial output not cleaned up");
    assert!(fs.has(&compressed), "source removed on max-size failure");
}

#[test]
fn force_replaces_symlink_rather_than_clobbering_target() {
    let mut fs = MemFs::with("d/a.txt", PAYLOAD);
    fs.write("d/victim.conf", b"DO NOT TOUCH\n");
    fs.links.insert(b"d/a.txt.zst".to_vec(), b"d/victim.conf".to_vec());

    let opts = Options { force: true, ..Options::default() };
    compress_in_place(&mut fs, "d/a.txt", Format::Zstd, None, opts).unwrap();

    assert_eq!(fs.read("d/victim.conf").unwrap(), b"DO NOT TOUCH\n");
    assert!(!fs.links.contains_key(&b"d/a.txt.zst"[..]));
    let bytes = fs.read("d/a.txt.zst").unwrap();
    assert_eq!(&bytes[..4], &[0x28, 0xB5, 0x2F, 0xFD]);
}

#[test]
fn unsupported_format_discards_created_output() {
    let mut fs = MemFs::with("d/a.txt", PAYLOAD);
    match compress_in_place(&mut fs, "d/a.txt", Format::Lz4, None, Options::default()) {
        Err(Error::UnsupportedFormat(Format::Lz4)) => {}
        other => panic!("expected UnsupportedFormat, got {other:?}"),
    }
    assert!(!fs.has("d/a.txt.lz4"));
    assert!(fs.has("d/a.txt"));
    assert_eq!(fs.log, vec!["create", "read_source", "discard"]);
}

#[test]
fn source_removed_only_after_write() {
    let mut fs = MemFs::with("d/a.txt", PAYLOAD);
    compress_in_place(&mut fs, "d/a.txt", Format::Zstd, None, Options::default()).unwrap();
    assert_eq!(fs.log, vec!["create", "read_source", "write", "remove_source"]);
}

#[test]
fn missing_source_leaves_empty_output() {
    let mut fs = MemFs::default();
    match compress_in_place(&mut fs, "d/none.txt", Format::Zstd, None, Options::default()) {
        Err(Error::Io(_)) => {}
        other => panic!("expected Io, got {other:?}"),
    }
    assert_eq!(fs.read("d/none.txt.zst").unwrap(), b"");
}

#[test]
fn decompress_missing_source_is_io_error() {
    let mut fs = MemFs::default();
    assert!(matches!(decompress_in_place(&mut fs, "d/none.zst", Options::default()), Err(Error::Io(_))));
}

#[test]
fn forced_probe_of_absent_output_creates_directly() {
    let mut fs = MemFs::with("d/a.txt", PAYLOAD);
    let opts = Options { force: true, ..Options::default() };
    compress_in_place(&mut fs, "d/a.txt", Format::Gzip, Some(9), opts).unwrap();
    assert_eq!(fs.log, vec!["probe", "create", "read_source", "write", "remove_source"]);
}

#[test]
fn capped_stream_writes_the_bytes_that_fit() {
    let mut fs = MemFs::with("d/bomb.txt", PAYLOAD);
    let compressed = compress_in_place(&mut fs, "d/bomb.txt", Format::Zstd, None, Options::default()).unwrap();
    let mut sink = Vec::new();
    let err = decompress_to_writer(&mut fs, &compressed, &mut sink, Some(10)).unwrap_err();
    assert!(matches!(err, Error::MaxSizeExceeded(10)));
    assert_eq!(sink, &PAYLOAD[..10]);
}

#[test]
fn corrupt_stream_writes_what_was_decoded_before_failing() {
    let mut fs = MemFs::with("d/a.txt", PAYLOAD);
    let compressed = compress_in_place(&mut fs, "d/a.txt", Format::Gzip, None, Options::default()).unwrap();
    let bytes = fs.read(&compressed).unwrap().clone();
    fs.write(&compressed, &bytes[..bytes.len() - 8]);
    let mut sink = Vec::new();
    assert!(decompress_to_writer(&mut fs, &compressed, &mut sink, None).is_err());
    assert!(PAYLOAD.starts_with(&sink));
}

#[test]
fn unreadable_source_in_unsupported_format_is_unsupported() {
    let mut fs = MemFs::with("d/a.txt", PAYLOAD);
    fs.unreadable.push(b"d/a.txt".to_vec());
    match compress_in_place(&mut fs, "d/a.txt", Format::Lz4, None, Options::default()) {
        Err(Error::UnsupportedFormat(Format::Lz4)) => {}
        other => panic!("expected UnsupportedFormat, got {other:?}"),
    }
    assert!(!fs.has("d/a.txt.lz4"));
    match compress_in_place(&mut fs, "d/a.txt", Format::Zstd, None, Options::default()) {
        Err(Error::Io(m)) => assert_eq!(m, "Input/output error"),
        other => panic!("expected Io, got {other:?}"),
    }
    assert!(!fs.has("d/a.txt.zst"));
    assert!(fs.has("d/a.txt"));
}
