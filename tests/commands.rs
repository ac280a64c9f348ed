use piperdesk::audio::AudioFormat;
use piperdesk::cmds::{
    begin_export, begin_next, clear_queue_impl, complete_next, enqueue_text_impl, finish_export,
    get_queue, import_source, remove_from_queue_impl, update_export_dir, AppConfig, ExportOptions,
    ImportSource, SharedState,
};
use piperdesk::piper::PiperConfig;
use piperdesk::queue::{NewQueueItem, QueueStatus};

fn state() -> SharedState {
    let piper = PiperConfig::from_settings(None, None, "./voices".to_string(), None, None);
    SharedState::new(
        AppConfig {
            piper,
            export_dir: "/tmp/exports".to_string(),
        },
        Vec::new(),
    )
}

fn item(title: &str, text: &str) -> NewQueueItem {
    NewQueueItem {
        title: title.into(),
        text: text.into(),
        voice: None,
        rate: None,
        format: None,
    }
}

#[test]
fn enqueue_and_remove_items() {
    let mut state = state();
    let items = enqueue_text_impl(
        &mut state,
        vec![NewQueueItem {
            title: "Sample".into(),
            text: "Hello".into(),
            voice: None,
            rate: Some(1000),
            format: None,
        }],
    )
    .expect("enqueue");
    assert_eq!(items.len(), 1);
    assert_eq!(state.queue.len(), 1);
    remove_from_queue_impl(&mut state, items[0].id);
    assert!(state.queue.is_empty());
}

#[test]
fn clear_queue_removes_all() {
    let mut state = state();
    enqueue_text_impl(&mut state, vec![item("One", "A"), item("Two", "B")]).expect("enqueue");
    assert_eq!(state.queue.len(), 2);
    clear_queue_impl(&mut state);
    assert!(state.queue.is_empty());
}

#[test]
fn submit_then_list_then_remove_round_trip() {
    let mut state = state();
    let created = enqueue_text_impl(&mut state, vec![item("Sample", "Hello")]).unwrap();
    let all = get_queue(&state);
    assert_eq!(all.len(), 1);
    assert_eq!(all[0].id, created[0].id);
    assert_eq!(all[0].status, QueueStatus::Pending);
    assert_eq!(all[0].voice, "en_US-amy-medium");
    assert_eq!(all[0].rate, 1000);
    assert_eq!(all[0].format, AudioFormat::Wav);
    assert!(all[0].output.is_none());
    remove_from_queue_impl(&mut state, created[0].id);
    assert!(get_queue(&state).is_empty());
}

#[test]
fn removing_an_absent_id_changes_nothing() {
    let mut state = state();
    let created = enqueue_text_impl(&mut state, vec![item("A", "a")]).unwrap();
    remove_from_queue_impl(&mut state, created[0].id.wrapping_add(1));
    assert_eq!(state.queue.len(), 1);
}

#[test]
fn submitted_ids_are_distinct() {
    let mut state = state();
    let created =
        enqueue_text_impl(&mut state, vec![item("A", "a"), item("B", "b"), item("C", "c")]).unwrap();
    assert_ne!(created[0].id, created[1].id);
    assert_ne!(created[1].id, created[2].id);
    assert_ne!(created[0].id, created[2].id);
}

#[test]
fn advance_follows_submission_order_across_removals() {
    let mut state = state();
    let created =
        enqueue_text_impl(&mut state, vec![item("A", "a"), item("B", "b"), item("C", "c")]).unwrap();
    remove_from_queue_impl(&mut state, created[1].id);
    let (first, _) = begin_next(&mut state).unwrap();
    assert_eq!(first.id, created[0].id);
    assert_eq!(first.status, QueueStatus::Processing);
    let (second, _) = begin_next(&mut state).unwrap();
    assert_eq!(second.id, created[2].id);
    assert_eq!(begin_next(&mut state).err().unwrap(), "No pending items");
}

#[test]
fn one_pending_job_is_claimed_once() {
    let mut state = state();
    enqueue_text_impl(&mut state, vec![item("Only", "x")]).unwrap();
    assert!(begin_next(&mut state).is_ok());
    assert_eq!(begin_next(&mut state).err().unwrap(), "No pending items");
}

#[test]
fn next_job_request_uses_the_export_directory() {
    let mut state = state();
    let mut new_item = item("Chapter 1: Intro!", "Hello");
    new_item.rate = Some(1250);
    new_item.format = Some(AudioFormat::Mp3);
    enqueue_text_impl(&mut state, vec![new_item]).unwrap();
    let (_, req) = begin_next(&mut state).unwrap();
    assert_eq!(req.output, "/tmp/exports/Chapter_1_Intro.mp3");
    assert_eq!(req.voice.as_deref(), Some("en_US-amy-medium"));
    assert_eq!(req.speed, Some(1250));
    assert_eq!(req.text, "Hello");
    assert_eq!(req.format, AudioFormat::Mp3);
}

#[test]
fn completion_and_failure_are_recorded() {
    let mut state = state();
    let created = enqueue_text_impl(&mut state, vec![item("A", "a"), item("B", "b")]).unwrap();
    let (a, _) = begin_next(&mut state).unwrap();
    let done = complete_next(&mut state, a, Ok("/tmp/exports/A.wav".to_string())).unwrap();
    assert_eq!(done.status, QueueStatus::Completed);
    assert_eq!(done.output.as_deref(), Some("/tmp/exports/A.wav"));
    let (b, _) = begin_next(&mut state).unwrap();
    let err = complete_next(&mut state, b, Err("boom".to_string())).err().unwrap();
    assert_eq!(err, "boom");
    let all = get_queue(&state);
    assert_eq!(all[0].id, created[0].id);
    assert_eq!(all[0].status, QueueStatus::Completed);
    assert_eq!(all[1].status, QueueStatus::Failed);
    assert!(all[1].output.is_none());
}

#[test]
fn a_terminal_job_does_not_change_status_again() {
    let mut state = state();
    enqueue_text_impl(&mut state, vec![item("A", "a")]).unwrap();
    let (a, _) = begin_next(&mut state).unwrap();
    let copy = get_queue(&state).remove(0);
    complete_next(&mut state, a, Err("failed".to_string())).err().unwrap();
    complete_next(&mut state, copy, Ok("/x.wav".to_string())).unwrap();
    let all = get_queue(&state);
    assert_eq!(all[0].status, QueueStatus::Failed);
    assert!(all[0].output.is_none());
}

#[test]
fn export_keeps_status_and_updates_output_and_format() {
    let mut state = state();
    let created = enqueue_text_impl(&mut state, vec![item("My Book", "text")]).unwrap();
    let (a, _) = begin_next(&mut state).unwrap();
    complete_next(&mut state, a, Ok("/tmp/exports/My_Book.wav".to_string())).unwrap();
    let options = ExportOptions {
        item_id: created[0].id,
        format: AudioFormat::Mp3,
        speed: Some(800),
        voice: Some("other".to_string()),
        directory: Some("/music".to_string()),
    };
    let req = begin_export(&state, &options).unwrap();
    assert_eq!(req.output, "/music/My_Book.mp3");
    assert_eq!(req.voice.as_deref(), Some("other"));
    assert_eq!(req.speed, Some(800));
    let out = finish_export(&mut state, created[0].id, req.output.clone(), AudioFormat::Mp3);
    assert_eq!(out, "/music/My_Book.mp3");
    let all = get_queue(&state);
    assert_eq!(all[0].status, QueueStatus::Completed);
    assert_eq!(all[0].output.as_deref(), Some("/music/My_Book.mp3"));
    assert_eq!(all[0].format, AudioFormat::Mp3);
}

#[test]
fn export_defaults_and_missing_item() {
    let mut state = state();
    let created = enqueue_text_impl(&mut state, vec![item("T", "x")]).unwrap();
    update_export_dir(&mut state, "/out/".to_string());
    let options = ExportOptions {
        item_id: created[0].id,
        format: AudioFormat::Wav,
        speed: None,
        voice: None,
        directory: None,
    };
    let req = begin_export(&state, &options).unwrap();
    assert_eq!(req.output, "/out/T.wav");
    assert_eq!(req.speed, Some(1000));
    assert_eq!(req.voice.as_deref(), Some("en_US-amy-medium"));
    let missing = ExportOptions {
        item_id: created[0].id.wrapping_add(7),
        format: AudioFormat::Wav,
        speed: None,
        voice: None,
        directory: None,
    };
    assert_eq!(begin_export(&state, &missing).err().unwrap(), "Item not found");
}

#[test]
fn import_source_by_extension() {
    assert!(matches!(import_source("notes.TXT"), Ok(ImportSource::ReadText)));
    match import_source("/books/a.epub") {
        Ok(ImportSource::Script(s)) => assert_eq!(s, "scripts/import_epub.py"),
        _ => panic!("expected the epub script"),
    }
    match import_source("paper.Pdf") {
        Ok(ImportSource::Script(s)) => assert_eq!(s, "scripts/import_pdf.py"),
        _ => panic!("expected the pdf script"),
    }
    assert_eq!(import_source("letter.docx").err().unwrap(), "Unsupported extension: docx");
    assert_eq!(import_source("README").err().unwrap(), "Unsupported extension: ");
}

#[test]
fn failure_clears_an_earlier_export_output() {
    let mut state = state();
    let created = enqueue_text_impl(&mut state, vec![item("A", "a")]).unwrap();
    finish_export(&mut state, created[0].id, "/music/A.mp3".to_string(), AudioFormat::Mp3);
    assert_eq!(get_queue(&state)[0].output.as_deref(), Some("/music/A.mp3"));
    let (a, _) = begin_next(&mut state).unwrap();
    complete_next(&mut state, a, Err("boom".to_string())).err().unwrap();
    let all = get_queue(&state);
    assert_eq!(all[0].status, QueueStatus::Failed);
    assert!(all[0].output.is_none());
}
