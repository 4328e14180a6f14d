use freenet_lib::helper::{media_pipe_name, pipe_should_retry, ERROR_FILE_NOT_FOUND, ERROR_PIPE_BUSY};

#[test]
fn pipe_name_of_process() {
    assert_eq!(media_pipe_name(4321), "\\\\.\\pipe\\FREENET_MEDIA_4321");
    assert_eq!(media_pipe_name(0), "\\\\.\\pipe\\FREENET_MEDIA_0");
}

#[test]
fn pipe_retries() {
    assert!(pipe_should_retry(0, ERROR_PIPE_BUSY));
    assert!(pipe_should_retry(1, ERROR_FILE_NOT_FOUND));
    assert!(!pipe_should_retry(2, ERROR_PIPE_BUSY));
    assert!(!pipe_should_retry(0, 5));
}
