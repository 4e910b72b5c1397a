use video2en::batch::BatchRun;

#[test]
fn failed_middle_item_does_not_stop_the_batch() {
    let mut run = BatchRun::new(3);
    let mut written = Vec::new();
    while let Some(item) = run.next_item() {
        let ok = item != 1;
        if ok {
            written.push(item);
        }
        run.record(ok);
    }
    assert!(run.is_done());
    assert_eq!(written, vec![0, 2]);
    assert_eq!(run.succeeded, vec![0, 2]);
    assert_eq!(run.failed, vec![1]);
    assert_eq!(run.succeeded_count(), 2);
    assert_eq!(run.failed_count(), 1);
}

#[test]
fn empty_batch_is_done_at_once() {
    let run = BatchRun::new(0);
    assert_eq!(run.next_item(), None);
    assert!(run.is_done());
}
