//! The local snapshot of the catalog: where it lies, how the remote feed is
//! turned into it chunk by chunk, and what to do when it is asked for.
//!
//! The feed is a bzip2 stream; the snapshot holds the same content in the
//! Snappy frame format. A refresh takes the feed in the chunks in which it
//! arrives and gives out, for each, the bytes to append to the snapshot, so
//! that neither is ever held in memory as a whole.

use crate::error::{io_outcome, PkgError, PkgErrorView};
use crate::progress::{advanced, Progress};
use std::io::{Read, Write};
use vstd::prelude::*;
use vstd::string::StringExecFns;

verus! {

/// The address of the remote feed.
pub const DB_URL: &'static str =
    "https://clientupdate-v6.cursecdn.com/feed/addons/432/v10/complete.json.bz2";

/// The file name of the snapshot inside the data directory.
pub const DB_PATH: &'static str = "complete.json.sz";

/// The total that a refresh shows before the feed has answered.
pub const REFRESH_INITIAL_LENGTH: u64 = 100;

/// The size of the buffer that the feed is read with.
pub const CHUNK_SIZE: usize = 65536;

/// A recoding stage: a `BzDecoder` of bzip2 that writes what it decodes
/// into a `FrameEncoder` of snap, which encodes it into a buffer. A stage
/// is made empty and lives on through writes that succeed; the write that
/// fails takes it away, so that every stage that there is has taken in
/// what was written to it.
#[verifier::external_body]
pub struct Recoder {
    stage: bzip2::write::BzDecoder<snap::write::FrameEncoder<Vec<u8>>>,
}

/// The content of a bzip2 stream: what decoding gives for bytes that are one
/// complete stream, and nothing for any other bytes.
pub uninterp spec fn bunzipped(packed: Seq<u8>) -> Option<Seq<u8>>;

/// The content of a stream in the Snappy frame format, and nothing for bytes
/// that are no such stream.
pub uninterp spec fn unsnapped(framed: Seq<u8>) -> Option<Seq<u8>>;

/// The bytes that a recoding stage has taken in since it was made.
pub uninterp spec fn stage_taken_in(stage: Recoder) -> Seq<u8>;

/// The bytes that a recoding stage has given out since it was made.
pub uninterp spec fn stage_given_out(stage: Recoder) -> Seq<u8>;

/// `BzDecoder::new` of bzip2 around `FrameEncoder::new` of snap around an
/// empty buffer: a stage that decodes what is written to it and encodes the
/// result into the buffer. It has taken in and given out nothing.
#[verifier::external_body]
fn stage_new() -> (stage: Recoder)
    ensures
        stage_taken_in(stage) == Seq::<u8>::empty(),
        stage_given_out(stage) == Seq::<u8>::empty(),
{
    Recoder { stage: bzip2::write::BzDecoder::new(snap::write::FrameEncoder::new(Vec::new())) }
}

/// `Write::write_all` on the bzip2 decoder. Where it succeeds, the whole
/// chunk has been taken in and the stage is handed back; nothing is given
/// out by this call, what the stage has encoded stays in its buffer. Where
/// it fails, the stage is gone, and what was written cannot be the
/// beginning of a stream: the decoder refuses bytes only for an error in
/// what it has read of them, or because they follow the end of a stream,
/// and the buffer that it writes to takes whatever it is given. The decoder
/// is taken to get the memory that it asks for when a stream begins.
#[verifier::external_body]
fn stage_write(stage: Recoder, chunk: &[u8]) -> (written: Result<Recoder, std::io::Error>)
    ensures
        written matches Ok(next) ==> stage_taken_in(next) == stage_taken_in(stage) + chunk@
            && stage_given_out(next) == stage_given_out(stage),
        written is Err ==> forall|rest: Seq<u8>|
            (#[trigger] bunzipped(stage_taken_in(stage) + chunk@ + rest)) is None,
{
    let mut stage = stage;
    stage.stage.write_all(chunk)?;
    Ok(stage)
}

/// `BzDecoder::get_mut` and `FrameEncoder::get_mut`, to empty the buffer
/// that the stage encodes into: the bytes that come back are given out, in
/// their order, and nothing is taken in.
#[verifier::external_body]
fn stage_drain(stage: &mut Recoder) -> (bytes: Vec<u8>)
    ensures
        stage_taken_in(*final(stage)) == stage_taken_in(*old(stage)),
        stage_given_out(*final(stage)) == stage_given_out(*old(stage)) + bytes@,
{
    std::mem::take(stage.stage.get_mut().get_mut())
}

/// `BzDecoder::finish` of bzip2, then `FrameEncoder::into_inner` of snap.
/// The first succeeds exactly where what was taken in is one complete bzip2
/// stream: it fails where the end of the stream was not reached and on an
/// error in what was read. The second flushes what is left to encode into
/// the buffer, which takes whatever it is given. The bytes that come back
/// are the last to be given out: all that was given out is then a Snappy
/// stream whose content is the content of the bzip2 stream.
#[verifier::external_body]
fn stage_finish(stage: Recoder) -> (tail: Result<Vec<u8>, std::io::Error>)
    ensures
        tail matches Ok(bytes) ==> bunzipped(stage_taken_in(stage)) is Some && unsnapped(
            stage_given_out(stage) + bytes@,
        ) == bunzipped(stage_taken_in(stage)),
        tail is Err ==> bunzipped(stage_taken_in(stage)) is None,
{
    let mut stage = stage;
    let encoder = stage.stage.finish()?;
    encoder.into_inner().map_err(|error| error.into_error())
}

/// `Read::read_to_end` on a `FrameDecoder` of snap over the bytes: their
/// content as a Snappy stream, or an error where they are no such stream.
#[verifier::external_body]
fn snappy_read_all(framed: &[u8]) -> (content: Result<Vec<u8>, std::io::Error>)
    ensures
        match content {
            Ok(bytes) => unsnapped(framed@) == Some(bytes@),
            Err(_) => unsnapped(framed@) is None,
        },
{
    let mut content = Vec::new();
    snap::read::FrameDecoder::new(framed).read_to_end(&mut content)?;
    Ok(content)
}

/// The path of the snapshot for a data directory: the directory, a slash
/// unless the directory is empty or ends in one, and the snapshot's name.
pub open spec fn snapshot_path(data_dir: Seq<char>) -> Seq<char> {
    if data_dir.len() == 0 || data_dir.last() == '/' {
        data_dir + DB_PATH@
    } else {
        data_dir + seq!['/'] + DB_PATH@
    }
}

/// The path of the snapshot inside the given data directory.
pub fn db_location(data_dir: &str) -> (path: String)
    ensures
        path@ == snapshot_path(data_dir@),
{
    proof {
        reveal_strlit("/");
        assert("/"@ =~= seq!['/']);
    }
    if data_dir.is_empty() || crate::text::str_ends_with(data_dir, "/") {
        assert(data_dir@.len() > 0 ==> "/"@.is_suffix_of(data_dir@) ==> data_dir@.last() == '/') by {
            if data_dir@.len() > 0 && "/"@.is_suffix_of(data_dir@) {
                let at = data_dir@.len() - 1;
                assert(data_dir@.skip(at)[0] == '/');
            }
        }
        data_dir.to_owned().concat(DB_PATH)
    } else {
        assert(data_dir@.last() != '/') by {
            if data_dir@.last() == '/' {
                assert(data_dir@.skip(data_dir@.len() - 1) =~= seq!['/']);
            }
        }
        data_dir.to_owned().concat("/").concat(DB_PATH)
    }
}

/// The content of a snapshot: the bytes that its Snappy stream holds. A
/// snapshot that is no such stream is corrupt, which is not the same as
/// missing.
pub fn decode_snapshot(framed: &[u8]) -> (content: Result<Vec<u8>, PkgError>)
    ensures
        match content {
            Ok(bytes) => unsnapped(framed@) == Some(bytes@),
            Err(error) => unsnapped(framed@) is None && error@ == PkgErrorView::CacheCorrupt,
        },
{
    io_outcome(snappy_read_all(framed), PkgError::CacheCorrupt)
}

/// A refresh of the snapshot in progress. It is handed on from chunk to
/// chunk and is gone once a chunk has failed it.
pub struct Refresh {
    stage: Recoder,
    progress: Progress,
}

impl Refresh {
    /// The bytes of the feed that the refresh has taken in.
    pub closed spec fn fed(&self) -> Seq<u8> {
        stage_taken_in(self.stage)
    }

    /// The bytes for the snapshot that the refresh has given out.
    pub closed spec fn emitted(&self) -> Seq<u8> {
        stage_given_out(self.stage)
    }

    /// The count of the feed's bytes against the feed's length.
    pub closed spec fn shown(&self) -> Progress {
        self.progress
    }

    /// Begins a refresh, given the length that the feed announced, if it
    /// announced one. Without one the progress has no known total.
    pub fn begin(content_length: Option<u64>) -> (refresh: Refresh)
        ensures
            refresh.fed() == Seq::<u8>::empty(),
            refresh.emitted() == Seq::<u8>::empty(),
            refresh.shown() == (Progress {
                position: 0,
                length: match content_length {
                    Some(length) => length,
                    None => 0,
                },
                determinate: content_length is Some,
            }),
    {
        let mut progress = Progress::new(REFRESH_INITIAL_LENGTH);
        progress.set_length(content_length, 0);
        Refresh { stage: stage_new(), progress }
    }

    /// Takes in the next chunk of the feed and gives out the refresh as it
    /// goes on, with the bytes to append to the snapshot. The chunk's length
    /// is added to the count. A chunk fails the refresh, for good, only
    /// where the feed up to the end of the chunk cannot be the beginning of
    /// a bzip2 stream, whatever may follow: the chunks of a feed that is
    /// one are all taken in.
    pub fn on_chunk(self, chunk: &[u8]) -> (step: Result<(Refresh, Vec<u8>), PkgError>)
        ensures
            (exists|rest: Seq<u8>| (#[trigger] bunzipped(self.fed() + chunk@ + rest)) is Some)
                ==> step is Ok,
            match step {
                Ok((next, out)) => next.fed() == self.fed() + chunk@ && next.emitted()
                    == self.emitted() + out@ && next.shown() == (Progress {
                    position: advanced(self.shown().position, chunk@.len() as usize),
                    ..self.shown()
                }),
                Err(error) => error@ == PkgErrorView::NetworkError && forall|rest: Seq<u8>|
                    (#[trigger] bunzipped(self.fed() + chunk@ + rest)) is None,
            },
    {
        let mut progress = self.progress;
        progress.inc(chunk.len());
        match io_outcome(stage_write(self.stage, chunk), PkgError::NetworkError) {
            Ok(stage) => {
                let mut stage = stage;
                let out = stage_drain(&mut stage);
                Ok((Refresh { stage, progress }, out))
            },
            Err(error) => Err(error),
        }
    }

    /// The progress to show: the bytes of the feed counted so far against
    /// the length that the feed announced.
    pub fn progress(&self) -> (progress: Progress)
        ensures
            progress == self.shown(),
    {
        self.progress
    }

    /// Ends the refresh once the feed has ended, and gives out the last
    /// bytes for the snapshot. This succeeds exactly where the feed was one
    /// complete bzip2 stream, and all the bytes that were given out, in
    /// their order, are then a Snappy stream with the same content.
    pub fn finish(self) -> (tail: Result<Vec<u8>, PkgError>)
        ensures
            tail is Ok <==> bunzipped(self.fed()) is Some,
            match tail {
                Ok(out) => bunzipped(self.fed()) is Some && unsnapped(self.emitted() + out@)
                    == bunzipped(self.fed()),
                Err(error) => error@ == PkgErrorView::NetworkError && bunzipped(self.fed())
                    is None,
            },
    {
        io_outcome(stage_finish(self.stage), PkgError::NetworkError)
    }
}

/// What an attempt to open the snapshot came to.
#[derive(Debug, Clone, Copy, PartialEq, Eq, Structural)]
pub enum OpenOutcome {
    /// The snapshot is there and was opened.
    Opened,
    /// There is no snapshot.
    Missing,
    /// The snapshot could not be opened for another reason.
    Failed,
}

/// What to do next in order to load the catalog.
#[derive(Debug, Clone, Copy, PartialEq, Eq, Structural)]
pub enum LoadStep {
    /// Read the snapshot that was opened and decode it.
    Decode,
    /// Fetch the feed into the snapshot, then open the snapshot again.
    Refresh,
}

/// What follows from an attempt to open the snapshot. A snapshot that was
/// opened is decoded. A missing one is fetched, once: where it is still
/// missing after that, the load fails for want of a snapshot. Any other
/// trouble with opening it fails the load at once and is never taken for a
/// missing snapshot.
pub open spec fn step_after(refreshed: bool, outcome: OpenOutcome) -> Result<
    LoadStep,
    PkgErrorView,
> {
    match outcome {
        OpenOutcome::Opened => Ok(LoadStep::Decode),
        OpenOutcome::Missing => if refreshed {
            Err(PkgErrorView::CacheMissing)
        } else {
            Ok(LoadStep::Refresh)
        },
        OpenOutcome::Failed => Err(PkgErrorView::IoError),
    }
}

/// The number of refreshes that a load asks for while it is told the given
/// outcomes in their order, starting from a load that has or has not
/// refreshed already.
pub open spec fn refreshes_in(refreshed: bool, outcomes: Seq<OpenOutcome>) -> nat
    decreases outcomes.len(),
{
    if outcomes.len() == 0 {
        0
    } else {
        let asks = step_after(refreshed, outcomes[0]) == Ok::<LoadStep, PkgErrorView>(
            LoadStep::Refresh,
        );
        let rest = refreshes_in(refreshed || asks, outcomes.skip(1));
        if asks {
            rest + 1
        } else {
            rest
        }
    }
}

/// A load never refreshes twice, whatever it is told, and not at all once
/// it has refreshed.
pub proof fn lemma_at_most_one_refresh(refreshed: bool, outcomes: Seq<OpenOutcome>)
    ensures
        refreshes_in(refreshed, outcomes) <= 1,
        refreshed ==> refreshes_in(refreshed, outcomes) == 0,
    decreases outcomes.len(),
{
    if outcomes.len() > 0 {
        let asks = step_after(refreshed, outcomes[0]) == Ok::<LoadStep, PkgErrorView>(
            LoadStep::Refresh,
        );
        lemma_at_most_one_refresh(refreshed || asks, outcomes.skip(1));
    }
}

/// A load that never finds the snapshot missing does not refresh.
pub proof fn lemma_no_refresh_when_present(outcomes: Seq<OpenOutcome>)
    requires
        forall|i: int| 0 <= i < outcomes.len() ==> outcomes[i] != OpenOutcome::Missing,
    ensures
        refreshes_in(false, outcomes) == 0,
    decreases outcomes.len(),
{
    if outcomes.len() > 0 {
        let rest = outcomes.skip(1);
        assert forall|i: int| 0 <= i < rest.len() implies rest[i] != OpenOutcome::Missing by {
            assert(rest[i] == outcomes[i + 1]);
        }
        lemma_no_refresh_when_present(rest);
    }
}

/// A fresh load that finds the snapshot missing at first refreshes exactly
/// once, whatever it is told afterwards.
pub proof fn lemma_one_refresh_when_missing(outcomes: Seq<OpenOutcome>)
    requires
        outcomes.len() > 0,
        outcomes[0] == OpenOutcome::Missing,
    ensures
        refreshes_in(false, outcomes) == 1,
{
    lemma_at_most_one_refresh(true, outcomes.skip(1));
}

/// A load of the catalog in progress: it remembers whether the snapshot has
/// been refreshed for it.
#[derive(Debug)]
pub struct SnapshotLoad {
    refreshed: bool,
}

impl SnapshotLoad {
    /// Whether this load has asked for a refresh.
    pub closed spec fn has_refreshed(&self) -> bool {
        self.refreshed
    }

    /// A load that has not begun.
    pub fn new() -> (load: SnapshotLoad)
        ensures
            !load.has_refreshed(),
    {
        SnapshotLoad { refreshed: false }
    }

    /// Says what to do after an attempt to open the snapshot.
    pub fn on_open(&mut self, outcome: OpenOutcome) -> (step: Result<LoadStep, PkgError>)
        ensures
            match step {
                Ok(next) => step_after(old(self).has_refreshed(), outcome) == Ok::<
                    LoadStep,
                    PkgErrorView,
                >(next),
                Err(error) => step_after(old(self).has_refreshed(), outcome) == Err::<
                    LoadStep,
                    PkgErrorView,
                >(error@),
            },
            final(self).has_refreshed() == (old(self).has_refreshed() || step == Ok::<
                LoadStep,
                PkgError,
            >(LoadStep::Refresh)),
    {
        match outcome {
            OpenOutcome::Opened => Ok(LoadStep::Decode),
            OpenOutcome::Missing => {
                if self.refreshed {
                    Err(PkgError::CacheMissing)
                } else {
                    self.refreshed = true;
                    Ok(LoadStep::Refresh)
                }
            },
            OpenOutcome::Failed => Err(PkgError::IoError),
        }
    }
}

} // verus!
