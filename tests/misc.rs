use bevy_playdate::file::{load_and_decompress, AssetLoadError, FileBytes, LZ4_INPUT_LIMIT};
use bevy_playdate::gen_job::{
    simple_step, Fulfil, GenJob, GeneratorState, JobRequest, JobResponse,
};
use bevy_playdate::input::{PlaydateButton, SystemEvent};
use bevy_playdate::jobs::WorkResult;
use bevy_playdate::state::{AppState, LoadingState};
use bevy_playdate::tilemap::{ArchivedChunkData, Tile, TILE_COUNT};
use bevy_playdate::visibility::{InheritedVisibility, Visibility};

#[test]
fn tilemap_tile_is_16_bits() {
    assert_eq!(std::mem::size_of::<Tile>(), 2);
}

#[test]
fn tile_to_chunk_pos_rounds_toward_zero() {
    assert_eq!(ArchivedChunkData::tile_to_chunk_pos(0, 0), (0, 0));
    assert_eq!(ArchivedChunkData::tile_to_chunk_pos(15, 16), (0, 1));
    assert_eq!(ArchivedChunkData::tile_to_chunk_pos(33, -17), (2, -1));
    assert_eq!(ArchivedChunkData::tile_to_chunk_pos(-15, -16), (0, -1));
    assert_eq!(ArchivedChunkData::tile_to_chunk_pos(i32::MIN, i32::MAX), (-134217728, 134217727));
}

#[test]
fn chunk_tiles_are_row_major() {
    let mut tiles = vec![None; TILE_COUNT];
    tiles[3 + 2 * 16] = Some(Tile { tile_id: 7, mask: 0 });
    let chunk = ArchivedChunkData::new(tiles).unwrap();
    assert_eq!(chunk.get_tile_data(3, 2), Some(Tile { tile_id: 7, mask: 0 }));
    assert_eq!(chunk.get_tile_data(2, 3), None);
    assert_eq!(chunk.get_tile_data(16, 0), None);
    assert_eq!(chunk.get_tile_data(-1, 0), None);
    assert!(ArchivedChunkData::new(vec![None; 3]).is_none());
}

#[test]
fn visibility_resolution() {
    assert_eq!(Visibility::inherited_or_hidden(true), Visibility::Inherited);
    assert_eq!(Visibility::inherited_or_hidden(false), Visibility::Hidden);
    assert!(Visibility::Inherited.resolve(None));
    assert!(!Visibility::Inherited.resolve(Some(false)));
    assert!(Visibility::Visible.resolve(Some(false)));
    assert!(!Visibility::Hidden.resolve(Some(true)));
    let mut v = InheritedVisibility::default();
    assert!(!v.get());
    assert!(v.update(true));
    assert!(!v.update(true));
    assert!(v.get());
    assert_eq!(Visibility::default(), Visibility::Inherited);
}

#[test]
fn states_default_and_loading_ends_without_marker() {
    assert_eq!(AppState::default(), AppState::Title);
    assert_eq!(LoadingState::default(), LoadingState::NotLoading);
    assert_eq!(LoadingState::Loading.after_loading_check(true), LoadingState::Loading);
    assert_eq!(LoadingState::Loading.after_loading_check(false), LoadingState::EndLoading);
    assert_eq!(LoadingState::StartLoading.after_loading_check(false), LoadingState::StartLoading);
}

#[test]
fn buttons_and_events() {
    assert!(PlaydateButton::A.in_mask(32));
    assert!(!PlaydateButton::B.in_mask(32));
    assert!(PlaydateButton::Left.in_mask(1 | 8));
    assert!(PlaydateButton::Down.in_mask(1 | 8));
    assert_eq!(SystemEvent::from_event(0, 0), Some(SystemEvent::Init));
    assert_eq!(SystemEvent::from_event(7, 65), Some(SystemEvent::KeyPressed(65)));
    assert_eq!(SystemEvent::from_event(9, 0), Some(SystemEvent::LowPower));
    assert_eq!(SystemEvent::from_event(10, 0), None);
}

#[test]
fn compressed_blob_round_trips() {
    let plain: Vec<u8> = b"tilemap tilemap tilemap tilemap bytes".to_vec();
    let packed = lz4_flex::compress_prepend_size(&plain);
    assert_ne!(packed, plain);
    let unpacked = load_and_decompress(&packed).unwrap();
    assert_eq!(unpacked, plain);
}

#[test]
fn short_or_corrupt_blob_is_an_error() {
    assert!(matches!(load_and_decompress(&[1, 0, 0]), Err(AssetLoadError::Decompress(_))));
    assert!(matches!(
        load_and_decompress(&[10, 0, 0, 0, 0xff, 0xff]),
        Err(AssetLoadError::Decompress(_))
    ));
}

#[test]
fn file_bytes_accumulate_until_an_empty_chunk() {
    let mut file = FileBytes::new();
    assert!(!file.push_chunk(&[1, 2, 3]));
    assert!(!file.push_chunk(&[4]));
    assert!(file.push_chunk(&[]));
    assert_eq!(file.len(), 4);
    assert_eq!(file.into_bytes(), vec![1, 2, 3, 4]);
}

#[test]
fn simple_generator_steps() {
    assert!(matches!(
        simple_step::<u8, u8>(GeneratorState::Yielded(())),
        WorkResult::Continue(())
    ));
    assert!(matches!(
        simple_step::<u8, u8>(GeneratorState::Complete(Ok(3))),
        WorkResult::Success(3)
    ));
    assert!(matches!(
        simple_step::<u8, u8>(GeneratorState::Complete(Err(4))),
        WorkResult::Error(4)
    ));
}

#[test]
fn rich_generator_requests_are_answered_once() {
    let mut job: GenJob<fn(u32) -> u32> = GenJob::new();
    assert!(matches!(job.take_request(), Fulfil::Resume));
    let r = job.on_resumed::<u32, ()>(GeneratorState::Yielded(JobRequest::WithWorld(|w| w + 1)));
    assert!(matches!(r, WorkResult::Continue(())));
    let answer = match job.take_request() {
        Fulfil::RunWithWorld(f) => JobResponse::WithWorld(f(41)),
        Fulfil::Resume => JobResponse::Nothing,
    };
    assert_eq!(answer.into_world_value(), 42);
    assert!(matches!(job.take_request(), Fulfil::Resume));
    let r = job.on_resumed::<u32, ()>(GeneratorState::Yielded(JobRequest::Yield));
    assert!(matches!(r, WorkResult::Continue(())));
    assert!(matches!(job.take_request(), Fulfil::Resume));
    let done = job.on_resumed::<u32, ()>(GeneratorState::Complete(Ok(9)));
    assert!(matches!(done, WorkResult::Success(9)));
    assert!(matches!(JobResponse::<u8>::default(), JobResponse::Nothing));
}

#[test]
fn oversized_blob_is_refused() {
    let mut blob = vec![0u8, 0, 0, 0, 0xF0];
    blob.resize(LZ4_INPUT_LIMIT, 0xFF);
    assert!(matches!(load_and_decompress(&blob), Err(AssetLoadError::TooLarge)));
}
