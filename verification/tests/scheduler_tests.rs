use std::sync::Arc;
use kanjitomo::gray::GrayBuffer;
use kanjitomo::ocr_manager::{process_task, OCRManager, WorkerEvent, WorkerState, worker_transition};
use kanjitomo::ocr_task::OCRTask;
use kanjitomo::params::Parameters;
use kanjitomo::reference::{ReferenceMatrixCache, ReferenceMatrixCacheBuilder};
use kanjitomo::KanjiTomo;

fn blob_image() -> GrayBuffer {
    let mut pixels = vec![255u8; 1024];
    for y in 8..24 {
        for x in 8..24 {
            pixels[y * 32 + x] = 0;
        }
    }
    GrayBuffer::new(32, 32, pixels)
}

fn small_store(params: &Parameters) -> ReferenceMatrixCache {
    let mut builder = ReferenceMatrixCacheBuilder::new(*params);
    let mut glyph = [0u32; 32];
    for y in 8..24u32 {
        for x in 8..24u32 {
            glyph[y as usize] |= 1u32 << (31 - x);
        }
    }
    builder.add_reference('口', glyph, 0, "test-font".to_owned());
    builder.build()
}

#[test]
fn draining_returns_exactly_the_submitted_tasks() {
    let params = Parameters::default();
    let store = Arc::new(small_store(&params));
    let mut mgr = OCRManager::new(params, store).expect("worker pool");
    let k = 5;
    for i in 0..k {
        let mut task = OCRTask::new(blob_image());
        task.char_index = Some(i);
        mgr.add_task(task);
    }
    assert_eq!(mgr.outstanding(), k);
    let (done, clean) = mgr.wait_until_done();
    assert!(clean);
    assert_eq!(done.len(), k as usize);
    assert_eq!(mgr.outstanding(), 0);
    for task in &done {
        assert!(!task.results.is_empty());
        assert_eq!(task.results[0].reference.character, '口');
    }
    mgr.stop_threads();
}

#[test]
fn draining_an_empty_batch_returns_at_once() {
    let params = Parameters::default();
    let store = Arc::new(ReferenceMatrixCache::new());
    let mut mgr = OCRManager::new(params, store).expect("worker pool");
    let (done, clean) = mgr.wait_until_done();
    assert!(clean);
    assert_eq!(done.len(), 0);
    assert_eq!(mgr.outstanding(), 0);
}

#[test]
fn blank_image_task_completes_with_no_candidates() {
    let params = Parameters::default();
    let store = small_store(&params);
    let task = OCRTask::new(GrayBuffer::new(32, 32, vec![255u8; 1024]));
    let processed = process_task(&params, &store, task);
    assert_eq!(processed.results.len(), 0);
    assert!(processed.get_character().is_none());
}

#[test]
fn pipeline_binarises_the_image_in_place() {
    let params = Parameters::default();
    let store = small_store(&params);
    let task = OCRTask::new(blob_image());
    let processed = process_task(&params, &store, task);
    for &v in &processed.image.pixels {
        assert!(v == 0 || v == 255);
    }
}

#[test]
fn worker_state_machine_follows_the_table() {
    assert_eq!(
        worker_transition(WorkerState::Idle, WorkerEvent::StopObserved),
        WorkerState::Stopping
    );
    assert_eq!(
        worker_transition(WorkerState::Idle, WorkerEvent::TaskReceived),
        WorkerState::Binarizing
    );
    assert_eq!(
        worker_transition(WorkerState::Binarizing, WorkerEvent::ImageBinarized),
        WorkerState::Matching
    );
    assert_eq!(
        worker_transition(WorkerState::Matching, WorkerEvent::ResultSent),
        WorkerState::Idle
    );
    // Workers never abort mid-task: a stop request outside Idle changes
    // nothing.
    assert_eq!(
        worker_transition(WorkerState::Matching, WorkerEvent::StopObserved),
        WorkerState::Matching
    );
}

#[test]
fn batch_results_come_back_ordered_by_position() {
    let params = Parameters::default();
    let store = Arc::new(small_store(&params));
    let mut engine = KanjiTomo::new(params, store).expect("worker pool");
    for i in (0..4u32).rev() {
        engine.run_ocr(blob_image(), i);
    }
    let (output, clean) = engine.finish();
    assert!(clean);
    assert_eq!(output.characters.len(), 4);
    assert_eq!(output.best_matching_characters.len(), 4);
    // Every task matched the single stored glyph.
    assert_eq!(output.search_string, "口口口口");
    engine.stop();
}
