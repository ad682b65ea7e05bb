//! The buffered descriptor against a real pipe.

use kinesin::buffd::BufFd;

fn make_nonblocking_pipe() -> (i32, i32) {
    let (r, w) = nix::unistd::pipe().unwrap();
    nix::fcntl::fcntl(r, nix::fcntl::FcntlArg::F_SETFL(nix::fcntl::OFlag::O_NONBLOCK)).unwrap();
    (r, w)
}

#[test]
fn read_drains_what_the_producer_wrote() {
    let (rfd, wfd) = make_nonblocking_pipe();
    let mut buf = BufFd::new(rfd, 8);
    assert_eq!(buf.capacity(), 8);
    assert_eq!(buf.as_raw_fd(), rfd);
    assert!(buf.data().is_empty());

    nix::unistd::write(wfd, b"abc").unwrap();
    assert_eq!(buf.read().unwrap(), 3);
    assert_eq!(buf.data(), b"abc");
    assert_eq!(buf.data_to_vec(), b"abc".to_vec());

    // nothing further in the pipe: "no data yet" reads as zero bytes
    assert_eq!(buf.read().unwrap(), 0);
    assert!(buf.data().is_empty());

    // end of stream also reads as zero bytes
    nix::unistd::write(wfd, b"xy").unwrap();
    assert_eq!(buf.read().unwrap(), 2);
    nix::unistd::close(wfd).unwrap();
    assert_eq!(buf.read().unwrap(), 0);
}

#[test]
fn set_len_exposes_a_prefix_of_the_buffer() {
    let (rfd, wfd) = make_nonblocking_pipe();
    let mut buf = BufFd::new(rfd, 8);
    nix::unistd::write(wfd, b"abcdef").unwrap();
    assert_eq!(buf.read().unwrap(), 6);
    buf.set_len(2);
    assert_eq!(buf.data(), b"ab");
    nix::unistd::close(wfd).unwrap();
}

#[test]
fn reads_are_capped_by_the_capacity() {
    let (rfd, wfd) = make_nonblocking_pipe();
    let mut buf = BufFd::new(rfd, 4);
    nix::unistd::write(wfd, b"0123456789").unwrap();
    assert_eq!(buf.read().unwrap(), 4);
    assert_eq!(buf.data(), b"0123");
    assert_eq!(buf.read().unwrap(), 4);
    assert_eq!(buf.data(), b"4567");
    nix::unistd::close(wfd).unwrap();
}

#[test]
fn reading_a_dead_descriptor_surfaces_the_error_number() {
    let mut buf = BufFd::new(999, 4);
    // descriptor 999 is not open in this process: EBADF
    assert_eq!(buf.read(), Err(9));
    assert!(buf.data().is_empty());
}
