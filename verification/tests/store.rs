use minepkg::error::PkgError;
use minepkg::local_db::{
    db_location, decode_snapshot, LoadStep, OpenOutcome, Refresh, SnapshotLoad,
};
use minepkg::progress::Progress;
use std::io::Write;

fn packed(content: &[u8]) -> Vec<u8> {
    let mut encoder = bzip2::write::BzEncoder::new(Vec::new(), bzip2::Compression::default());
    encoder.write_all(content).unwrap();
    encoder.finish().unwrap()
}

fn framed(content: &[u8]) -> Vec<u8> {
    let mut encoder = snap::write::FrameEncoder::new(Vec::new());
    encoder.write_all(content).unwrap();
    encoder.into_inner().unwrap()
}

fn sample(len: usize) -> Vec<u8> {
    let mut content = Vec::with_capacity(len);
    let mut state: u32 = 12345;
    while content.len() < len {
        state = state.wrapping_mul(1103515245).wrapping_add(12345);
        let word = b"{\"Name\":\"Ender IO\",\"Id\":";
        content.extend_from_slice(word);
        content.push(b'0' + ((state >> 16) % 10) as u8);
        content.push(b'}');
    }
    content.truncate(len);
    content
}

/// Feeds a refresh in chunks of the given size and gives the snapshot.
fn refreshed(feed: &[u8], chunk: usize) -> Result<Vec<u8>, PkgError> {
    let mut refresh = Refresh::begin(Some(feed.len() as u64));
    let mut snapshot = Vec::new();
    for piece in feed.chunks(chunk) {
        let (next, bytes) = refresh.on_chunk(piece)?;
        refresh = next;
        snapshot.extend(bytes);
    }
    snapshot.extend(refresh.finish()?);
    Ok(snapshot)
}

#[test]
fn a_refresh_keeps_the_content_of_the_feed() {
    let content = b"{\"data\":[{\"Name\":\"Ender IO\",\"Id\":1}]}".to_vec();
    let feed = packed(&content);
    let snapshot = refreshed(&feed, 7).unwrap();
    assert_ne!(snapshot, feed);
    assert_ne!(snapshot, content);
    assert_eq!(decode_snapshot(&snapshot).unwrap(), content);
}

#[test]
fn a_refresh_does_not_depend_on_how_the_feed_is_cut() {
    let content = sample(300_000);
    let feed = packed(&content);
    for chunk in [1usize, 13, 4096, 65536, feed.len()] {
        let snapshot = refreshed(&feed, chunk).unwrap();
        assert_eq!(decode_snapshot(&snapshot).unwrap(), content, "chunks of {}", chunk);
    }
}

#[test]
fn a_refresh_of_an_empty_document_gives_an_empty_snapshot_content() {
    let feed = packed(b"");
    let snapshot = refreshed(&feed, 16).unwrap();
    assert_eq!(decode_snapshot(&snapshot).unwrap(), Vec::<u8>::new());
}

#[test]
fn a_feed_that_ends_early_fails_the_refresh() {
    let feed = packed(&sample(50_000));
    let cut = &feed[..feed.len() - 10];
    assert!(matches!(refreshed(cut, 1000), Err(PkgError::NetworkError)));
    assert!(matches!(refreshed(&[], 1000), Err(PkgError::NetworkError)));
}

#[test]
fn a_feed_that_is_no_bzip2_stream_fails_the_refresh() {
    let garbage = b"this is certainly not a bzip2 stream, whatever else it may be".to_vec();
    assert!(matches!(refreshed(&garbage, 8), Err(PkgError::NetworkError)));
}

#[test]
fn bytes_after_the_end_of_the_stream_fail_the_refresh() {
    let mut feed = packed(b"some content");
    feed.extend_from_slice(b"trailing");
    assert!(matches!(refreshed(&feed, 5), Err(PkgError::NetworkError)));
}

#[test]
fn a_chunk_that_cannot_be_decoded_fails_the_refresh() {
    let refresh = Refresh::begin(None);
    assert!(matches!(
        refresh.on_chunk(b"garbage garbage garbage").map(|(_, bytes)| bytes),
        Err(PkgError::NetworkError)
    ));
    // A good chunk after a good feed has ended is one chunk too many.
    let good = packed(b"content");
    let (refresh, _) = Refresh::begin(None).on_chunk(&good).unwrap();
    assert!(refresh.on_chunk(&good).is_err());
}

#[test]
fn a_refresh_counts_the_bytes_of_the_feed() {
    let feed = packed(&sample(10_000));
    let refresh = Refresh::begin(Some(feed.len() as u64));
    assert_eq!(
        refresh.progress(),
        Progress { position: 0, length: feed.len() as u64, determinate: true }
    );
    let (first, second) = feed.split_at(100);
    let (refresh, _) = refresh.on_chunk(first).unwrap();
    assert_eq!(refresh.progress().position, 100);
    let (refresh, _) = refresh.on_chunk(second).unwrap();
    assert_eq!(refresh.progress().position, feed.len() as u64);
    assert_eq!(refresh.progress().length, feed.len() as u64);
}

#[test]
fn a_feed_of_unknown_length_has_no_known_total() {
    let refresh = Refresh::begin(None);
    assert_eq!(refresh.progress(), Progress { position: 0, length: 0, determinate: false });
    let feed = packed(b"abc");
    let (refresh, _) = refresh.on_chunk(&feed).unwrap();
    assert_eq!(refresh.progress().position, feed.len() as u64);
    assert_eq!(refresh.progress().length, 0);
    assert!(!refresh.progress().determinate);
}

#[test]
fn a_snapshot_is_decoded_to_what_was_framed() {
    let content = sample(200_000);
    assert_eq!(decode_snapshot(&framed(&content)).unwrap(), content);
    assert_eq!(decode_snapshot(&[]).unwrap(), Vec::<u8>::new());
}

#[test]
fn a_corrupt_snapshot_is_not_a_missing_one() {
    let mut snapshot = framed(&sample(1000));
    let last = snapshot.len() - 1;
    snapshot[last] ^= 0xff;
    assert!(matches!(decode_snapshot(&snapshot), Err(PkgError::CacheCorrupt)));
    assert!(matches!(decode_snapshot(b"{\"data\":[]}"), Err(PkgError::CacheCorrupt)));
    let whole = framed(&sample(100_000));
    assert!(matches!(decode_snapshot(&whole[..whole.len() / 2]), Err(PkgError::CacheCorrupt)));
}

/// Loads against a store that holds a snapshot or not, and counts the
/// refreshes. A refresh puts the snapshot in place unless it is told not to.
fn load(present: &mut bool, refresh_works: bool) -> (Result<(), PkgError>, usize) {
    let mut loader = SnapshotLoad::new();
    let mut refreshes = 0;
    loop {
        let outcome = if *present { OpenOutcome::Opened } else { OpenOutcome::Missing };
        match loader.on_open(outcome) {
            Ok(LoadStep::Decode) => return (Ok(()), refreshes),
            Ok(LoadStep::Refresh) => {
                refreshes += 1;
                assert!(refreshes < 10);
                if refresh_works {
                    *present = true;
                }
            }
            Err(error) => return (Err(error), refreshes),
        }
    }
}

#[test]
fn a_missing_snapshot_is_refreshed_once_and_then_read() {
    let mut present = false;
    let (outcome, refreshes) = load(&mut present, true);
    assert!(outcome.is_ok());
    assert_eq!(refreshes, 1);
    // The second load finds the snapshot and refreshes nothing.
    let (outcome, refreshes) = load(&mut present, true);
    assert!(outcome.is_ok());
    assert_eq!(refreshes, 0);
}

#[test]
fn a_snapshot_that_stays_missing_fails_after_one_refresh() {
    let mut present = false;
    let (outcome, refreshes) = load(&mut present, false);
    assert!(matches!(outcome, Err(PkgError::CacheMissing)));
    assert_eq!(refreshes, 1);
}

#[test]
fn trouble_with_opening_the_snapshot_is_not_taken_for_a_missing_one() {
    let mut loader = SnapshotLoad::new();
    assert!(matches!(loader.on_open(OpenOutcome::Failed), Err(PkgError::IoError)));
    // Neither at the first attempt nor after a refresh.
    let mut loader = SnapshotLoad::new();
    assert_eq!(loader.on_open(OpenOutcome::Missing).unwrap(), LoadStep::Refresh);
    assert!(matches!(loader.on_open(OpenOutcome::Failed), Err(PkgError::IoError)));
    let mut loader = SnapshotLoad::new();
    assert_eq!(loader.on_open(OpenOutcome::Opened).unwrap(), LoadStep::Decode);
}

#[test]
fn the_snapshot_lies_in_the_data_directory() {
    assert_eq!(db_location("/home/u/.local/share/mmm"), "/home/u/.local/share/mmm/complete.json.sz");
    assert_eq!(db_location("/home/u/.mmm/"), "/home/u/.mmm/complete.json.sz");
    assert_eq!(db_location(""), "complete.json.sz");
    assert_eq!(db_location("/"), "/complete.json.sz");
    assert_eq!(db_location("data"), "data/complete.json.sz");
}

#[test]
fn every_chunk_of_a_whole_feed_is_taken_in() {
    let content = sample(120_000);
    let feed = packed(&content);
    for chunk in [1usize, 3, 1000, 40_000] {
        let mut refresh = Refresh::begin(None);
        let mut snapshot = Vec::new();
        for piece in feed.chunks(chunk) {
            let (next, bytes) = refresh.on_chunk(piece).expect("a chunk of a whole feed");
            refresh = next;
            snapshot.extend(bytes);
        }
        snapshot.extend(refresh.finish().expect("the end of a whole feed"));
        assert_eq!(decode_snapshot(&snapshot).unwrap(), content);
    }
}

#[test]
fn a_feed_fails_at_its_end_exactly_where_it_is_not_whole() {
    let feed = packed(&sample(70_000));
    for cut in [0usize, 1, 4, 10, feed.len() / 2, feed.len() - 1] {
        let refresh = Refresh::begin(None);
        match refresh.on_chunk(&feed[..cut]) {
            Ok((refresh, _)) => {
                assert!(matches!(refresh.finish(), Err(PkgError::NetworkError)), "cut at {}", cut)
            }
            Err(error) => panic!("the beginning of a feed was refused at {}: {:?}", cut, error),
        }
    }
    let (refresh, _) = Refresh::begin(None).on_chunk(&feed).unwrap();
    assert!(refresh.finish().is_ok());
}
