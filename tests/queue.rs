use piperdesk::queue::{JobQueue, NewQueueItem};

fn job(title: &str) -> NewQueueItem {
    NewQueueItem { title: title.into(), text: "t".into(), voice: None, rate: None, format: None }
}

#[test]
fn ids_of_removed_jobs_are_not_handed_out_again() {
    let mut q = JobQueue::new();
    let created = q.submit(vec![job("A")], "v");
    let id = created[0].id;
    q.remove(id);
    assert!(q.was_issued(id));
    assert_ne!(q.fresh_id(id), id);
    let later = q.submit(vec![job("B")], "v");
    assert_ne!(later[0].id, id);
}

#[test]
fn a_new_candidate_id_is_kept() {
    let q = JobQueue::new();
    assert_eq!(q.fresh_id(42), 42);
    let mut q = JobQueue::new();
    q.submit(vec![job("A")], "v");
    assert!(!q.was_issued(7) || q.fresh_id(7) != 7);
}
