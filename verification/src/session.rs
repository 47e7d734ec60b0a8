//! The protocol of one (de)compression of a file: what is done to the file
//! system, in which order, and what is answered.
//!
//! A `Session` decides; the program performs each `Action` on the file system
//! and hands back what came of it as an `Event`. In place, the output is made
//! next to the source, by `create_new` so that nothing is ever clobbered; the
//! source is removed only after the whole output was written, and a failure
//! once the source was opened removes that partial output (a source that
//! cannot be opened leaves the empty output behind). Streaming to a writer
//! reads the source and nothing else; a decompression that fails there still
//! writes what was decompressed before the failure, no more than the cap.

use vstd::prelude::*;
use crate::format::{detected, has_codec, Format};
use crate::io::{
    decode_stream, decoded, detect_format, encode, encode_outcome, encoded, stream_outcome, Error,
    Options,
};
use crate::naming::{compressed_name, compressed_path, decompressed_name, decompressed_path};

verus! {

/// One operation of the library on a source file, named by its path.
#[derive(Debug, Clone)]
pub enum Job {
    /// Compress `src` into `src.<suffix>`; remove `src` unless `opts.keep`.
    CompressInPlace { src: Vec<u8>, fmt: Format, level: Option<i32>, opts: Options },
    /// Decompress `src` (format found by its magic bytes) into `src` without its
    /// extension; remove `src` unless `opts.keep`.
    DecompressInPlace { src: Vec<u8>, opts: Options },
    /// Stream the compressed form of `src` to a writer; never touch the source.
    CompressToWriter { src: Vec<u8>, fmt: Format, level: Option<i32> },
    /// Stream the decompressed form of `src` to a writer, capped at
    /// `max_decompressed` bytes; answer the format found.
    DecompressToWriter { src: Vec<u8>, max_decompressed: Option<u64> },
}

/// What the file system says of the output path (`symlink_metadata`).
pub enum Probe {
    Present,
    Absent,
    Failed(String),
}

/// What came of creating the output file with `create_new`.
pub enum Creation {
    Created,
    AlreadyExists,
    Failed(String),
}

/// What came of reading the whole source file.
pub enum SourceData {
    /// Its bytes.
    Data(Vec<u8>),
    /// It could not be opened.
    OpenFailed(String),
    /// It was opened, but reading it failed.
    ReadFailed(String),
}

/// What came of the last action.
pub enum Event {
    /// The session is to start.
    Begin,
    /// The first bytes of the source (one read of at most six bytes).
    HeadRead(Result<Vec<u8>, String>),
    OutputProbed(Probe),
    StaleRemoved(Result<(), String>),
    OutputCreated(Creation),
    SourceRead(SourceData),
    /// The bytes were written to the output and flushed.
    OutputWritten(Result<(), String>),
    /// The partial output was removed, or its removal failed (which is ignored).
    OutputDiscarded,
    SourceRemoved(Result<(), String>),
}

/// What the session answers when it is done.
pub enum Outcome {
    /// The path of the compressed file.
    Compressed(Vec<u8>),
    /// The path of the decompressed file and the format found.
    Decompressed(Vec<u8>, Format),
    /// The compressed stream went to the writer.
    Streamed,
    /// The decompressed stream went to the writer; the format found.
    StreamedFrom(Format),
}

/// What the program is to do next.
pub enum Action {
    /// Open the file and read its first bytes once, into a buffer of six bytes.
    ReadHead(Vec<u8>),
    /// Ask for the metadata of this path without following a symlink.
    ProbeOutput(Vec<u8>),
    /// Remove this file (a symlink itself, not its target).
    RemoveStale(Vec<u8>),
    /// Create this file for writing, failing if anything exists there.
    CreateOutput(Vec<u8>),
    /// Read the whole file.
    ReadSource(Vec<u8>),
    /// Write these bytes to the output (the created file or the writer), then flush.
    WriteOutput(Vec<u8>),
    /// Remove this partial output; a failure to do so is ignored.
    DiscardOutput(Vec<u8>),
    /// Remove the source file.
    RemoveSource(Vec<u8>),
    /// Stop with this answer.
    Finish(Result<Outcome, Error>),
}

/// Where a session stands: what it waits for, and the format once known.
pub enum Stage {
    Start,
    AwaitHead,
    AwaitProbe { fmt: Format },
    AwaitStale { fmt: Format },
    AwaitCreate { fmt: Format },
    AwaitSource { fmt: Format },
    AwaitWrite { fmt: Format },
    /// Streaming: what was decompressed before the error `err` is being written.
    AwaitPartial { err: Error },
    AwaitDiscard { err: Error },
    AwaitRemoval { fmt: Format },
    Over,
}

/// A (de)compression in progress.
pub struct Session {
    /// The operation.
    pub job: Job,
    /// The output path, once known (in place only).
    pub out: Vec<u8>,
    /// Where the operation stands.
    pub stage: Stage,
}

/// The source path of a job.
pub open spec fn job_src(j: Job) -> Seq<u8> {
    match j {
        Job::CompressInPlace { src, .. } => src@,
        Job::DecompressInPlace { src, .. } => src@,
        Job::CompressToWriter { src, .. } => src@,
        Job::DecompressToWriter { src, .. } => src@,
    }
}

/// The job makes an output file next to its source.
pub open spec fn is_in_place(j: Job) -> bool {
    j is CompressInPlace || j is DecompressInPlace
}

/// The job compresses.
pub open spec fn is_compress(j: Job) -> bool {
    j is CompressInPlace || j is CompressToWriter
}

/// The options of an in-place job.
pub open spec fn job_opts(j: Job) -> Options {
    match j {
        Job::CompressInPlace { opts, .. } => opts,
        Job::DecompressInPlace { opts, .. } => opts,
        _ => Options { keep: true, force: false, max_decompressed: None },
    }
}

/// The format a compressing job asks for.
pub open spec fn job_fmt(j: Job) -> Format {
    match j {
        Job::CompressInPlace { fmt, .. } => fmt,
        Job::CompressToWriter { fmt, .. } => fmt,
        _ => Format::Zstd,
    }
}

/// The compression level a compressing job asks for.
pub open spec fn job_level(j: Job) -> Option<i32> {
    match j {
        Job::CompressInPlace { level, .. } => level,
        Job::CompressToWriter { level, .. } => level,
        _ => None,
    }
}

/// The cap on decompressed output of a decompressing job.
pub open spec fn job_max(j: Job) -> Option<u64> {
    match j {
        Job::DecompressInPlace { opts, .. } => opts.max_decompressed,
        Job::DecompressToWriter { max_decompressed, .. } => max_decompressed,
        _ => None,
    }
}

/// The output path of an in-place job, given the format.
pub open spec fn output_name(j: Job, fmt: Format) -> Seq<u8> {
    if is_compress(j) {
        compressed_name(job_src(j), fmt)
    } else {
        decompressed_name(job_src(j))
    }
}

/// `w` and `err` are a possible result of the job's codec on the source bytes
/// `data`: the bytes for the output and the error that ends the job, if any.
/// Compressing gives the encoder's output, which announces its format and
/// decodes back to the source, or an error and nothing; decompressing gives
/// what goes to the output (see `stream_outcome`).
pub open spec fn codec_outcome(j: Job, fmt: Format, data: Seq<u8>, w: Vec<u8>, err: Option<Error>) -> bool {
    if is_compress(j) {
        &&& encode_outcome(
            fmt,
            data,
            job_level(j),
            match err {
                None => Ok(w),
                Some(e) => Err(e),
            },
        )
        &&& err is Some ==> w@.len() == 0
        &&& err is None ==> decoded(fmt, w@) == Some(data) && detected(w@) == Some(fmt)
    } else {
        stream_outcome(fmt, data, job_max(j), w@, err)
    }
}

/// `o` is the answer of a successful job.
pub open spec fn success(j: Job, fmt: Format, out: Seq<u8>, o: Outcome) -> bool {
    match j {
        Job::CompressInPlace { .. } => o matches Outcome::Compressed(p) && p@ == out,
        Job::DecompressInPlace { .. } => o matches Outcome::Decompressed(p, f) && p@ == out && f
            == fmt,
        Job::CompressToWriter { .. } => o is Streamed,
        Job::DecompressToWriter { .. } => o matches Outcome::StreamedFrom(f) && f == fmt,
    }
}

/// The session is done with answer `r`.
pub open spec fn finishes(t: Session, a: Action, r: Result<Outcome, Error>) -> bool {
    t.stage is Over && a == Action::Finish(r)
}

/// The session stops with an error satisfying `p`.
pub open spec fn fails_with(t: Session, a: Action, e: Error) -> bool {
    a matches Action::Finish(Err(x)) && x == e && t.stage is Over
}

/// Once the format is known: go and make the output at `out`, probing it first
/// under `force`.
pub open spec fn opens_output(j: Job, fmt: Format, t: Session, a: Action) -> bool {
    &&& t.out@ == output_name(j, fmt)
    &&& if job_opts(j).force {
        a matches Action::ProbeOutput(p) && p@ == t.out@ && t.stage == (Stage::AwaitProbe { fmt })
    } else {
        a matches Action::CreateOutput(p) && p@ == t.out@ && t.stage == (Stage::AwaitCreate { fmt })
    }
}

/// The source is to be read whole.
pub open spec fn reads_source(j: Job, fmt: Format, t: Session, a: Action) -> bool {
    a matches Action::ReadSource(p) && p@ == job_src(j) && t.stage == (Stage::AwaitSource { fmt })
}

/// After a failure in place with the output made: remove the partial output,
/// then answer `e`; when streaming: answer `e`.
pub open spec fn cleans_up(s: Session, e: Error, t: Session, a: Action) -> bool {
    if is_in_place(s.job) {
        a matches Action::DiscardOutput(p) && p@ == s.out@ && t.stage == (Stage::AwaitDiscard {
            err: e,
        }) && t.out@ == s.out@
    } else {
        fails_with(t, a, e)
    }
}

/// The session waits for event `e`.
pub open spec fn awaits(s: Session, e: Event) -> bool {
    match s.stage {
        Stage::Start => e is Begin,
        Stage::AwaitHead => e is HeadRead,
        Stage::AwaitProbe { .. } => e is OutputProbed,
        Stage::AwaitStale { .. } => e is StaleRemoved,
        Stage::AwaitCreate { .. } => e is OutputCreated,
        Stage::AwaitSource { .. } => e is SourceRead,
        Stage::AwaitWrite { .. } => e is OutputWritten,
        Stage::AwaitPartial { .. } => e is OutputWritten,
        Stage::AwaitDiscard { .. } => e is OutputDiscarded,
        Stage::AwaitRemoval { .. } => e is SourceRemoved,
        Stage::Over => false,
    }
}

/// The session is consistent: stages exist only for the jobs that use them,
/// a compressing job works in the format it asked for, and in place the output
/// path is the one that naming gives.
pub open spec fn wf(s: Session) -> bool {
    match s.stage {
        Stage::Start => true,
        Stage::AwaitHead => !is_compress(s.job),
        Stage::AwaitProbe { fmt } => is_in_place(s.job) && job_opts(s.job).force && s.out@
            == output_name(s.job, fmt) && (is_compress(s.job) ==> fmt == job_fmt(s.job)),
        Stage::AwaitStale { fmt } => is_in_place(s.job) && job_opts(s.job).force && s.out@
            == output_name(s.job, fmt) && (is_compress(s.job) ==> fmt == job_fmt(s.job)),
        Stage::AwaitCreate { fmt } => is_in_place(s.job) && s.out@ == output_name(s.job, fmt) && (
        is_compress(s.job) ==> fmt == job_fmt(s.job)),
        Stage::AwaitSource { fmt } => (is_in_place(s.job) ==> s.out@ == output_name(s.job, fmt)) && (
        is_compress(s.job) ==> fmt == job_fmt(s.job)),
        Stage::AwaitWrite { fmt } => (is_in_place(s.job) ==> s.out@ == output_name(s.job, fmt)) && (
        is_compress(s.job) ==> fmt == job_fmt(s.job)),
        Stage::AwaitPartial { .. } => !is_in_place(s.job),
        Stage::AwaitDiscard { .. } => is_in_place(s.job),
        Stage::AwaitRemoval { fmt } => is_in_place(s.job) && !job_opts(s.job).keep && s.out@
            == output_name(s.job, fmt) && (is_compress(s.job) ==> fmt == job_fmt(s.job)),
        Stage::Over => true,
    }
}

/// One step of the protocol: from session `s`, on event `e`, to session `t`
/// with action `a`.
pub open spec fn next(s: Session, e: Event, t: Session, a: Action) -> bool {
    &&& t.job == s.job
    &&& match (s.stage, e) {
        (Stage::Start, Event::Begin) => match s.job {
            Job::CompressInPlace { fmt, .. } => opens_output(s.job, fmt, t, a),
            Job::CompressToWriter { fmt, .. } => reads_source(s.job, fmt, t, a),
            _ => a matches Action::ReadHead(p) && p@ == job_src(s.job) && t.stage is AwaitHead,
        },
        (Stage::AwaitHead, Event::HeadRead(r)) => match r {
            Err(m) => fails_with(t, a, Error::Io(m)),
            Ok(head) => match detected(head@) {
                None => fails_with(t, a, Error::UnknownFormat),
                Some(fmt) => if is_in_place(s.job) {
                    opens_output(s.job, fmt, t, a)
                } else {
                    reads_source(s.job, fmt, t, a)
                },
            },
        },
        (Stage::AwaitProbe { fmt }, Event::OutputProbed(p)) => match p {
            Probe::Present => a matches Action::RemoveStale(q) && q@ == s.out@ && t.stage == (
            Stage::AwaitStale { fmt }) && t.out@ == s.out@,
            Probe::Absent => a matches Action::CreateOutput(q) && q@ == s.out@ && t.stage == (
            Stage::AwaitCreate { fmt }) && t.out@ == s.out@,
            Probe::Failed(m) => fails_with(t, a, Error::Io(m)),
        },
        (Stage::AwaitStale { fmt }, Event::StaleRemoved(r)) => match r {
            Ok(()) => a matches Action::CreateOutput(q) && q@ == s.out@ && t.stage == (
            Stage::AwaitCreate { fmt }) && t.out@ == s.out@,
            Err(m) => fails_with(t, a, Error::Io(m)),
        },
        (Stage::AwaitCreate { fmt }, Event::OutputCreated(c)) => match c {
            Creation::Created => reads_source(s.job, fmt, t, a) && t.out@ == s.out@,
            Creation::AlreadyExists => a matches Action::Finish(Err(Error::OutputExists(p))) && p@
                == s.out@ && t.stage is Over,
            Creation::Failed(m) => fails_with(t, a, Error::Io(m)),
        },
        (Stage::AwaitSource { fmt }, Event::SourceRead(d)) => match d {
            SourceData::OpenFailed(m) => fails_with(t, a, Error::Io(m)),
            SourceData::ReadFailed(m) => if has_codec(fmt) {
                cleans_up(s, Error::Io(m), t, a)
            } else {
                cleans_up(s, Error::UnsupportedFormat(fmt), t, a)
            },
            SourceData::Data(data) => exists|w: Vec<u8>, err: Option<Error>|
                {
                    &&& codec_outcome(s.job, fmt, data@, w, err)
                    &&& match err {
                        None => a matches Action::WriteOutput(b) && b@ == w@ && t.stage == (
                        Stage::AwaitWrite { fmt }) && t.out@ == s.out@,
                        Some(e) => if !is_in_place(s.job) && w@.len() > 0 {
                            a matches Action::WriteOutput(b) && b@ == w@ && t.stage == (
                            Stage::AwaitPartial { err: e })
                        } else {
                            cleans_up(s, e, t, a)
                        },
                    }
                },
        },
        (Stage::AwaitWrite { fmt }, Event::OutputWritten(w)) => match w {
            Err(m) => cleans_up(s, Error::Io(m), t, a),
            Ok(()) => if is_in_place(s.job) && !job_opts(s.job).keep {
                a matches Action::RemoveSource(p) && p@ == job_src(s.job) && t.stage == (
                Stage::AwaitRemoval { fmt }) && t.out@ == s.out@
            } else {
                a matches Action::Finish(Ok(o)) && success(s.job, fmt, s.out@, o) && t.stage is Over
            },
        },
        (Stage::AwaitPartial { err }, Event::OutputWritten(w)) => match w {
            Ok(()) => finishes(t, a, Err(err)),
            Err(m) => fails_with(t, a, Error::Io(m)),
        },
        (Stage::AwaitDiscard { err }, Event::OutputDiscarded) => finishes(t, a, Err(err)),
        (Stage::AwaitRemoval { fmt }, Event::SourceRemoved(r)) => match r {
            Ok(()) => a matches Action::Finish(Ok(o)) && success(s.job, fmt, s.out@, o)
                && t.stage is Over,
            Err(m) => fails_with(t, a, Error::Io(m)),
        },
        _ => false,
    }
}

/// Law: removing the source follows, in the very next step, the writing of the
/// codec's whole output for the whole source, and only once that write
/// succeeded.
pub proof fn law_removal_follows_full_write(
    s0: Session,
    e0: Event,
    s1: Session,
    a0: Action,
    e1: Event,
    s2: Session,
    a1: Action,
)
    requires
        wf(s0),
        next(s0, e0, s1, a0),
        next(s1, e1, s2, a1),
        a1 is RemoveSource,
    ensures
        e1 matches Event::OutputWritten(Ok(_)),
        e0 matches Event::SourceRead(SourceData::Data(d)) && a0 matches Action::WriteOutput(b) && (
        is_compress(s0.job) ==> b@ == encoded(job_fmt(s0.job), d@, job_level(s0.job))),
{
    law_source_removed_only_after_output_written(s1, e1, s2, a1);
    assert(s0.stage is AwaitSource);
    law_output_is_codec_output(s0, e0, s1, a0);
}

/// Law: the source is removed only right after the whole output was written and
/// flushed, only in place, and only without `keep`.
pub proof fn law_source_removed_only_after_output_written(s: Session, e: Event, t: Session, a: Action)
    requires
        next(s, e, t, a),
        a is RemoveSource,
    ensures
        s.stage is AwaitWrite,
        e matches Event::OutputWritten(Ok(_)),
        is_in_place(s.job),
        !job_opts(s.job).keep,
{
}

/// Law: `keep`, and streaming, never remove the source.
pub proof fn law_keep_preserves_source(s: Session, e: Event, t: Session, a: Action)
    requires
        next(s, e, t, a),
        job_opts(s.job).keep || !is_in_place(s.job),
    ensures
        !(a is RemoveSource),
{
}

/// Law: what is written is the codec's whole output for the whole source: the
/// compressed form of the source in the job's format and level, which announces
/// that format and decodes back to the source; or the decompressed source, which
/// fits the cap.
pub proof fn law_output_is_codec_output(s: Session, e: Event, t: Session, a: Action)
    requires
        wf(s),
        next(s, e, t, a),
        a is WriteOutput,
        t.stage is AwaitWrite,
    ensures
        s.stage is AwaitSource,
        e matches Event::SourceRead(SourceData::Data(d)) && ({
            let fmt = s.stage->AwaitSource_fmt;
            let b = a->WriteOutput_0@;
            &&& is_compress(s.job) ==> fmt == job_fmt(s.job) && b == encoded(fmt, d@, job_level(s.job))
                && decoded(fmt, b) == Some(d@) && detected(b) == Some(fmt)
            &&& !is_compress(s.job) ==> decoded(fmt, d@) == Some(b) && (job_max(s.job) matches Some(l) ==> b.len() <= l)
        }),
{
}

/// Law: a compressing job whose format has a codec writes, once the source was
/// read, the compressed form of the source: compression is owed to succeed.
pub proof fn law_compression_is_written(s: Session, e: Event, t: Session, a: Action)
    requires
        wf(s),
        next(s, e, t, a),
        s.stage is AwaitSource,
        is_compress(s.job),
        has_codec(job_fmt(s.job)),
        e matches Event::SourceRead(SourceData::Data(_)),
    ensures
        e matches Event::SourceRead(SourceData::Data(d)) && a matches Action::WriteOutput(b) && b@
            == encoded(job_fmt(s.job), d@, job_level(s.job)),
        t.stage == (Stage::AwaitWrite { fmt: job_fmt(s.job) }),
{
}

/// Law: the head step of a decompressing job works on in the format that the
/// whole compressed stream announces, when the head read gave the stream's first
/// bytes (six, or all of a shorter stream, or any number in between).
pub proof fn law_head_picks_stream_format(
    s: Session,
    e: Event,
    t: Session,
    a: Action,
    stream: Seq<u8>,
    n: int,
)
    requires
        wf(s),
        next(s, e, t, a),
        s.stage is AwaitHead,
        (if stream.len() < 6 { stream.len() as int } else { 6 }) <= n <= stream.len(),
        e matches Event::HeadRead(Ok(head)) && head@ == stream.take(n),
        detected(stream) is Some,
    ensures
        match t.stage {
            Stage::AwaitSource { fmt } => detected(stream) == Some(fmt),
            Stage::AwaitProbe { fmt } => detected(stream) == Some(fmt),
            Stage::AwaitCreate { fmt } => detected(stream) == Some(fmt),
            _ => false,
        },
{
    crate::format::law_head_announces_stream(stream, n);
}

/// Law: a decompressing job that reads, in the format it was made in, what a
/// compressing job wrote, writes back the source of the compressing job,
/// whenever that fits the cap.
pub proof fn law_sessions_roundtrip(
    c: Session,
    ce: Event,
    ct: Session,
    ca: Action,
    d: Session,
    de: Event,
    dt: Session,
    da: Action,
)
    requires
        wf(c),
        next(c, ce, ct, ca),
        is_compress(c.job),
        ca is WriteOutput,
        wf(d),
        next(d, de, dt, da),
        !is_compress(d.job),
        d.stage == (Stage::AwaitSource { fmt: job_fmt(c.job) }),
        de matches Event::SourceRead(SourceData::Data(x)) && x@ == ca->WriteOutput_0@,
        ce matches Event::SourceRead(SourceData::Data(src)) && (job_max(d.job) matches Some(l)
            ==> src@.len() <= l),
    ensures
        ce matches Event::SourceRead(SourceData::Data(src)) && da matches Action::WriteOutput(y)
            && y@ == src@,
{
    law_output_is_codec_output(c, ce, ct, ca);
}

/// Law: only decompressing to a writer writes output that ends in an error:
/// what the decoder gave before the error, which, for a valid stream longer
/// than the cap, is its first bytes up to the cap, followed by
/// `MaxSizeExceeded`; the error is answered once that was written.
pub proof fn law_capped_stream_writes_prefix(s: Session, e: Event, t: Session, a: Action)
    requires
        wf(s),
        next(s, e, t, a),
        t.stage is AwaitPartial,
    ensures
        s.job is DecompressToWriter,
        s.stage is AwaitSource,
        a matches Action::WriteOutput(b) && b@.len() > 0,
        e matches Event::SourceRead(SourceData::Data(d)) && (decoded(s.stage->AwaitSource_fmt, d@) matches Some(out)
            ==> (job_max(s.job) matches Some(l) && out.len() > l && a->WriteOutput_0@ == out.take(l as int)
            && t.stage->AwaitPartial_err == Error::MaxSizeExceeded(l))),
{
}

/// Law: once the output that ends in an error was written, that error is
/// answered; where writing it failed, that failure is.
pub proof fn law_partial_output_then_error(s: Session, e: Event, t: Session, a: Action)
    requires
        next(s, e, t, a),
        s.stage is AwaitPartial,
    ensures
        e matches Event::OutputWritten(Ok(_)) ==> a == Action::Finish(Err(s.stage->AwaitPartial_err)),
        e matches Event::OutputWritten(Err(m)) ==> a == Action::Finish(Err(Error::Io(m))),
        t.stage is Over,
{
}

/// Law: in place, once the output file exists, a failure removes it before the
/// error is answered. (It does not hold where the source cannot be opened: the
/// empty output is then left behind, and the error answered at once.)
pub proof fn law_failure_discards_partial_output(s: Session, e: Event, t: Session, a: Action)
    requires
        next(s, e, t, a),
        is_in_place(s.job),
        s.stage is AwaitWrite || (s.stage is AwaitSource && !(e matches Event::SourceRead(
            SourceData::OpenFailed(_),
        ))),
    ensures
        a matches Action::Finish(r) ==> r is Ok,
        a matches Action::DiscardOutput(p) ==> p@ == s.out@ && t.stage is AwaitDiscard,
{
}

/// Law: streaming reads the source and writes to the writer, and does nothing
/// else to the file system.
pub proof fn law_streaming_only_reads(s: Session, e: Event, t: Session, a: Action)
    requires
        wf(s),
        next(s, e, t, a),
        !is_in_place(s.job),
    ensures
        a is ReadHead || a is ReadSource || a is WriteOutput || a is Finish,
{
}

/// Law: nothing is clobbered. A file at the output path is removed only under
/// `force` and only once the probe found it (a symlink is removed itself, its
/// target untouched); the output is made only by creating a new file at the path
/// that naming gives, and where something exists there the answer is
/// `OutputExists` with that path.
pub proof fn law_never_clobbers(s: Session, e: Event, t: Session, a: Action)
    requires
        wf(s),
        next(s, e, t, a),
    ensures
        a matches Action::RemoveStale(p) ==> job_opts(s.job).force && e == Event::OutputProbed(
            Probe::Present,
        ) && p@ == s.out@ && is_in_place(s.job),
        a matches Action::CreateOutput(p) ==> (t.stage matches Stage::AwaitCreate { fmt } && p@
            == output_name(s.job, fmt) && is_in_place(s.job)),
        s.stage is AwaitCreate && e == Event::OutputCreated(Creation::AlreadyExists) ==> (a matches Action::Finish(
            Err(Error::OutputExists(p)),
        ) && p@ == s.out@),
{
}

/// A copy of the bytes of `p`.
fn copy_bytes(p: &Vec<u8>) -> (q: Vec<u8>)
    ensures
        q@ == p@,
{
    vstd::slice::slice_to_vec(p.as_slice())
}

impl Job {
    /// The source path.
    pub fn src(&self) -> (p: &Vec<u8>)
        ensures
            p@ == job_src(*self),
    {
        match self {
            Job::CompressInPlace { src, .. } => src,
            Job::DecompressInPlace { src, .. } => src,
            Job::CompressToWriter { src, .. } => src,
            Job::DecompressToWriter { src, .. } => src,
        }
    }

    fn in_place(&self) -> (r: bool)
        ensures
            r == is_in_place(*self),
    {
        match self {
            Job::CompressInPlace { .. } | Job::DecompressInPlace { .. } => true,
            _ => false,
        }
    }

    fn opts(&self) -> (o: Options)
        ensures
            o == job_opts(*self),
    {
        match self {
            Job::CompressInPlace { opts, .. } => *opts,
            Job::DecompressInPlace { opts, .. } => *opts,
            _ => Options { keep: true, force: false, max_decompressed: None },
        }
    }

    /// The output path in place, given the format.
    fn output_path(&self, fmt: Format) -> (p: Vec<u8>)
        ensures
            p@ == output_name(*self, fmt),
    {
        match self {
            Job::CompressInPlace { src, .. } | Job::CompressToWriter { src, .. } => compressed_path(
                src.as_slice(),
                fmt,
            ),
            Job::DecompressInPlace { src, .. } | Job::DecompressToWriter { src, .. } => decompressed_path(
                src.as_slice(),
            ),
        }
    }

    /// Runs the job's codec on the source bytes: the bytes for the output, and
    /// the error that ends the job, if any.
    fn run_codec(&self, fmt: Format, data: &[u8]) -> (r: (Vec<u8>, Option<Error>))
        ensures
            codec_outcome(*self, fmt, data@, r.0, r.1),
    {
        match self {
            Job::CompressInPlace { level, .. } | Job::CompressToWriter { level, .. } => match encode(
                data,
                fmt,
                *level,
            ) {
                Ok(v) => (v, None),
                Err(e) => (Vec::new(), Some(e)),
            },
            Job::DecompressInPlace { opts, .. } => decode_stream(data, fmt, opts.max_decompressed),
            Job::DecompressToWriter { max_decompressed, .. } => decode_stream(data, fmt, *max_decompressed),
        }
    }

    /// The answer of the job when it succeeded.
    fn success(&self, fmt: Format, out: &Vec<u8>) -> (o: Outcome)
        ensures
            success(*self, fmt, out@, o),
    {
        match self {
            Job::CompressInPlace { .. } => Outcome::Compressed(copy_bytes(out)),
            Job::DecompressInPlace { .. } => Outcome::Decompressed(copy_bytes(out), fmt),
            Job::CompressToWriter { .. } => Outcome::Streamed,
            Job::DecompressToWriter { .. } => Outcome::StreamedFrom(fmt),
        }
    }
}

impl Session {
    /// A session for `job`, waiting to begin.
    pub fn new(job: Job) -> (s: Session)
        ensures
            s.job == job,
            s.stage is Start,
            wf(s),
    {
        Session { job, out: Vec::new(), stage: Stage::Start }
    }

    /// Whether the session waits for `e`.
    pub fn awaits(&self, e: &Event) -> (r: bool)
        ensures
            r == awaits(*self, *e),
    {
        match (&self.stage, e) {
            (Stage::Start, Event::Begin) => true,
            (Stage::AwaitHead, Event::HeadRead(_)) => true,
            (Stage::AwaitProbe { .. }, Event::OutputProbed(_)) => true,
            (Stage::AwaitStale { .. }, Event::StaleRemoved(_)) => true,
            (Stage::AwaitCreate { .. }, Event::OutputCreated(_)) => true,
            (Stage::AwaitSource { .. }, Event::SourceRead(_)) => true,
            (Stage::AwaitWrite { .. }, Event::OutputWritten(_)) => true,
            (Stage::AwaitPartial { .. }, Event::OutputWritten(_)) => true,
            (Stage::AwaitDiscard { .. }, Event::OutputDiscarded) => true,
            (Stage::AwaitRemoval { .. }, Event::SourceRemoved(_)) => true,
            _ => false,
        }
    }

    /// Once the format is known: make the output, probing it first under `force`.
    fn open_output(job: Job, fmt: Format) -> (res: (Session, Action))
        requires
            is_in_place(job),
            is_compress(job) ==> fmt == job_fmt(job),
        ensures
            res.0.job == job,
            opens_output(job, fmt, res.0, res.1),
            wf(res.0),
    {
        let out = job.output_path(fmt);
        let path = copy_bytes(&out);
        if job.opts().force {
            (Session { job, out, stage: Stage::AwaitProbe { fmt } }, Action::ProbeOutput(path))
        } else {
            (Session { job, out, stage: Stage::AwaitCreate { fmt } }, Action::CreateOutput(path))
        }
    }

    /// In place: remove the partial output, then answer `err`. Streaming: answer `err`.
    fn clean_up(job: Job, out: Vec<u8>, err: Error) -> (res: (Session, Action))
        ensures
            res.0.job == job,
            cleans_up(Session { job, out, stage: Stage::Over }, err, res.0, res.1),
            is_in_place(job) ==> wf(res.0),
            !is_in_place(job) ==> res.0.stage is Over,
    {
        if job.in_place() {
            let path = copy_bytes(&out);
            (Session { job, out, stage: Stage::AwaitDiscard { err } }, Action::DiscardOutput(path))
        } else {
            (Session { job, out, stage: Stage::Over }, Action::Finish(Err(err)))
        }
    }

    /// Takes the step that event `e` calls for.
    pub fn step(self, e: Event) -> (res: (Session, Action))
        requires
            wf(self),
            awaits(self, e),
        ensures
            next(self, e, res.0, res.1),
            wf(res.0),
    {
        let ghost s = self;
        let Session { job, out, stage } = self;
        match (stage, e) {
            (Stage::Start, Event::Begin) => match job {
                Job::CompressInPlace { fmt, .. } => Session::open_output(job, fmt),
                Job::CompressToWriter { fmt, .. } => {
                    let path = copy_bytes(job.src());
                    (Session { job, out, stage: Stage::AwaitSource { fmt } }, Action::ReadSource(path))
                },
                _ => {
                    let path = copy_bytes(job.src());
                    (Session { job, out, stage: Stage::AwaitHead }, Action::ReadHead(path))
                },
            },
            (Stage::AwaitHead, Event::HeadRead(r)) => match r {
                Err(m) => (Session { job, out, stage: Stage::Over }, Action::Finish(Err(Error::Io(m)))),
                Ok(head) => match detect_format(head.as_slice()) {
                    Err(err) => (Session { job, out, stage: Stage::Over }, Action::Finish(Err(err))),
                    Ok(fmt) => if job.in_place() {
                        Session::open_output(job, fmt)
                    } else {
                        let path = copy_bytes(job.src());
                        (Session { job, out, stage: Stage::AwaitSource { fmt } }, Action::ReadSource(path))
                    },
                },
            },
            (Stage::AwaitProbe { fmt }, Event::OutputProbed(p)) => match p {
                Probe::Present => {
                    let path = copy_bytes(&out);
                    (Session { job, out, stage: Stage::AwaitStale { fmt } }, Action::RemoveStale(path))
                },
                Probe::Absent => {
                    let path = copy_bytes(&out);
                    (Session { job, out, stage: Stage::AwaitCreate { fmt } }, Action::CreateOutput(path))
                },
                Probe::Failed(m) => (Session { job, out, stage: Stage::Over }, Action::Finish(Err(Error::Io(m)))),
            },
            (Stage::AwaitStale { fmt }, Event::StaleRemoved(r)) => match r {
                Ok(()) => {
                    let path = copy_bytes(&out);
                    (Session { job, out, stage: Stage::AwaitCreate { fmt } }, Action::CreateOutput(path))
                },
                Err(m) => (Session { job, out, stage: Stage::Over }, Action::Finish(Err(Error::Io(m)))),
            },
            (Stage::AwaitCreate { fmt }, Event::OutputCreated(c)) => match c {
                Creation::Created => {
                    let path = copy_bytes(job.src());
                    (Session { job, out, stage: Stage::AwaitSource { fmt } }, Action::ReadSource(path))
                },
                Creation::AlreadyExists => {
                    let path = copy_bytes(&out);
                    (Session { job, out, stage: Stage::Over }, Action::Finish(Err(Error::OutputExists(path))))
                },
                Creation::Failed(m) => (Session { job, out, stage: Stage::Over }, Action::Finish(Err(Error::Io(m)))),
            },
            (Stage::AwaitSource { fmt }, Event::SourceRead(d)) => match d {
                SourceData::OpenFailed(m) => (Session { job, out, stage: Stage::Over }, Action::Finish(Err(Error::Io(m)))),
                SourceData::ReadFailed(m) => if fmt.has_codec() {
                    Session::clean_up(job, out, Error::Io(m))
                } else {
                    Session::clean_up(job, out, Error::UnsupportedFormat(fmt))
                },
                SourceData::Data(data) => {
                    let (bytes, failure) = job.run_codec(fmt, data.as_slice());
                    match failure {
                        None => {
                            (Session { job, out, stage: Stage::AwaitWrite { fmt } }, Action::WriteOutput(bytes))
                        },
                        Some(err) => if !job.in_place() && bytes.len() > 0 {
                            (Session { job, out, stage: Stage::AwaitPartial { err } }, Action::WriteOutput(bytes))
                        } else {
                            Session::clean_up(job, out, err)
                        },
                    }
                },
            },
            (Stage::AwaitWrite { fmt }, Event::OutputWritten(w)) => match w {
                Err(m) => Session::clean_up(job, out, Error::Io(m)),
                Ok(()) => if job.in_place() && !job.opts().keep {
                    let path = copy_bytes(job.src());
                    (Session { job, out, stage: Stage::AwaitRemoval { fmt } }, Action::RemoveSource(path))
                } else {
                    let o = job.success(fmt, &out);
                    (Session { job, out, stage: Stage::Over }, Action::Finish(Ok(o)))
                },
            },
            (Stage::AwaitPartial { err }, Event::OutputWritten(w)) => match w {
                Ok(()) => (Session { job, out, stage: Stage::Over }, Action::Finish(Err(err))),
                Err(m) => (Session { job, out, stage: Stage::Over }, Action::Finish(Err(Error::Io(m)))),
            },
            (Stage::AwaitDiscard { err }, Event::OutputDiscarded) => {
                (Session { job, out, stage: Stage::Over }, Action::Finish(Err(err)))
            },
            (Stage::AwaitRemoval { fmt }, Event::SourceRemoved(r)) => match r {
                Ok(()) => {
                    let o = job.success(fmt, &out);
                    (Session { job, out, stage: Stage::Over }, Action::Finish(Ok(o)))
                },
                Err(m) => (Session { job, out, stage: Stage::Over }, Action::Finish(Err(Error::Io(m)))),
            },
            _ => {
                proof {
                    assert(false);
                }
                (Session { job, out, stage: Stage::Over }, Action::Finish(Err(Error::UnknownFormat)))
            },
        }
    }
}

} // verus!
