use ocl_primes::stream::{
    queue_capacity, result_channel, ChannelClosed, DeviceError, StreamError, StreamState,
    MAX_QUEUE_CAPACITY,
};

fn device_error(message: &str) -> DeviceError {
    DeviceError { message: message.to_string() }
}

#[test]
fn stream_ends_after_senders_are_gone() {
    let (sink, mut stream) = result_channel::<u32>(4);
    sink.push(1).unwrap();
    sink.push(2).unwrap();
    drop(sink);
    assert!(matches!(stream.next(), Ok(1)));
    assert!(matches!(stream.next(), Ok(2)));
    assert!(matches!(stream.next(), Err(StreamError::EndOfStream)));
    assert!(matches!(stream.next(), Err(StreamError::EndOfStream)));
}

#[test]
fn error_on_third_unit_ends_the_stream() {
    let (sink, mut stream) = result_channel::<u32>(8);
    sink.push(10).unwrap();
    sink.push(20).unwrap();
    sink.push_error(device_error("enqueue failed")).unwrap();
    sink.push(40).unwrap();
    assert!(matches!(stream.next(), Ok(10)));
    assert!(matches!(stream.next(), Ok(20)));
    match stream.next() {
        Err(StreamError::Device(e)) => assert_eq!(e.message, "enqueue failed"),
        _ => panic!("expected the device error"),
    }
    assert!(matches!(stream.next(), Err(StreamError::EndOfStream)));
    assert!(matches!(stream.next(), Err(StreamError::EndOfStream)));
    drop(sink);
}

#[test]
fn sink_records_its_capacity() {
    let (sink, _stream) = result_channel::<u32>(7);
    assert_eq!(sink.capacity(), 7);
    assert_eq!(sink.clone().capacity(), 7);
}

#[test]
fn push_fails_once_the_reader_is_gone() {
    let (sink, stream) = result_channel::<u32>(2);
    let other = sink.clone();
    drop(stream);
    assert_eq!(sink.push(1), Err(ChannelClosed));
    assert_eq!(other.push_error(device_error("x")), Err(ChannelClosed));
}

#[test]
fn state_accepts_values_until_end() {
    let mut s = StreamState::new();
    assert!(!s.is_finished());
    assert!(matches!(s.accept(Some(Ok::<u8, DeviceError>(5))), Ok(5)));
    assert!(!s.is_finished());
    assert!(matches!(s.accept::<u8>(None), Err(StreamError::EndOfStream)));
    assert!(s.is_finished());
    assert!(matches!(s.accept(Some(Ok::<u8, DeviceError>(6))), Err(StreamError::EndOfStream)));
}

#[test]
fn state_reports_a_device_error_once() {
    let mut s = StreamState::new();
    assert!(matches!(
        s.accept(Some(Err::<u8, DeviceError>(device_error("read failed")))),
        Err(StreamError::Device(_))
    ));
    assert!(s.is_finished());
    assert!(matches!(
        s.accept(Some(Err::<u8, DeviceError>(device_error("again")))),
        Err(StreamError::EndOfStream)
    ));
}

#[test]
fn queue_capacity_is_ten_units_capped() {
    assert_eq!(queue_capacity(0), 0);
    assert_eq!(queue_capacity(128), 1280);
    assert_eq!(queue_capacity(MAX_QUEUE_CAPACITY / 10), MAX_QUEUE_CAPACITY / 10 * 10);
    assert_eq!(queue_capacity(MAX_QUEUE_CAPACITY), MAX_QUEUE_CAPACITY);
    assert_eq!(queue_capacity(usize::MAX), MAX_QUEUE_CAPACITY);
}
