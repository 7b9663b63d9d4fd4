use progress_io::read_buffer::{PollStatus, ReadBuffer, ReadTarget};

#[test]
fn splits_batch_across_two_fills() {
    let mut buffer = ReadBuffer::new();
    let mut first = ReadTarget::new(2);
    let batch = vec![1u8, 2, 3, 4, 5];
    let status = buffer.put_data(&mut first, batch, 0);
    assert!(matches!(status, PollStatus::Ready));
    assert_eq!(first.into_filled(), vec![1, 2]);
    let (bytes, offset) = buffer.take_data().expect("a tail must be stored");
    assert_eq!(bytes, vec![1, 2, 3, 4, 5]);
    assert_eq!(offset, 2);
    let mut second = ReadTarget::new(10);
    let status = buffer.put_data(&mut second, bytes, offset);
    assert!(matches!(status, PollStatus::Ready));
    assert_eq!(second.into_filled(), vec![3, 4, 5]);
    assert!(buffer.take_data().is_none());
}

#[test]
fn empty_batch_is_pending_and_clears_the_tail() {
    let mut buffer = ReadBuffer::new();
    let mut small = ReadTarget::new(1);
    let status = buffer.put_data(&mut small, vec![1u8, 2], 0);
    assert!(matches!(status, PollStatus::Ready));
    assert_eq!(small.into_filled(), vec![1]);
    let mut roomy = ReadTarget::new(4);
    let status = buffer.put_data(&mut roomy, Vec::new(), 0);
    assert!(matches!(status, PollStatus::Pending));
    assert_eq!(roomy.into_filled(), Vec::<u8>::new());
    assert!(buffer.take_data().is_none());
}

#[test]
fn exact_fit_leaves_nothing_stored() {
    let mut buffer = ReadBuffer::new();
    let mut target = ReadTarget::new(3);
    let status = buffer.put_data(&mut target, vec![6u8, 7, 8], 0);
    assert!(matches!(status, PollStatus::Ready));
    assert_eq!(target.into_filled(), vec![6, 7, 8]);
    assert!(buffer.take_data().is_none());
}

#[test]
fn delivery_resumes_from_a_nonzero_offset() {
    let mut buffer = ReadBuffer::new();
    let mut target = ReadTarget::new(8);
    let status = buffer.put_data(&mut target, vec![1u8, 2, 3, 4], 3);
    assert!(matches!(status, PollStatus::Ready));
    assert_eq!(target.into_filled(), vec![4]);
    assert!(buffer.take_data().is_none());
}

#[test]
fn arbitrary_capacities_deliver_every_byte_once() {
    let batch = vec![10u8, 20, 30, 40, 50, 60, 70];
    let capacities = [3usize, 1, 0, 2, 5];
    let mut buffer = ReadBuffer::new();
    let mut delivered: Vec<u8> = Vec::new();
    let mut fresh = Some((batch.clone(), 0usize));
    for capacity in capacities {
        let (bytes, start) = match buffer.take_data() {
            Some(pair) => pair,
            None => match fresh.take() {
                Some(pair) => pair,
                None => break,
            },
        };
        let mut target = ReadTarget::new(capacity);
        let status = buffer.put_data(&mut target, bytes, start);
        assert!(matches!(status, PollStatus::Ready));
        delivered.extend(target.into_filled());
    }
    assert_eq!(delivered, batch);
}

#[test]
fn take_data_returns_the_stored_pair_and_clears_it() {
    let mut buffer = ReadBuffer::default();
    assert!(buffer.take_data().is_none());
    let mut target = ReadTarget::new(0);
    let status = buffer.put_data(&mut target, vec![5u8, 6], 1);
    assert!(matches!(status, PollStatus::Ready));
    assert_eq!(target.into_filled(), Vec::<u8>::new());
    let (bytes, offset) = buffer.take_data().expect("a tail must be stored");
    assert_eq!(bytes, vec![5, 6]);
    assert_eq!(offset, 1);
    assert!(buffer.take_data().is_none());
}

#[test]
fn target_tracks_remaining_room() {
    let mut buffer = ReadBuffer::new();
    let mut target = ReadTarget::new(5);
    assert_eq!(target.remaining(), 5);
    let status = buffer.put_data(&mut target, vec![1u8, 2, 3], 0);
    assert!(matches!(status, PollStatus::Ready));
    assert_eq!(target.remaining(), 2);
    assert_eq!(target.into_filled(), vec![1, 2, 3]);
}
