use wagi::error::CapabilityError;
use wagi::socksville::{DirOp, FileType, Socksville, SocksvillePlusPlus};

#[test]
fn open_resolves_configured_name_only() {
    let dir = SocksvillePlusPlus::single(String::from("echo"), String::from("127.0.0.1:9999"));
    let addr = dir.open_file(&String::from("echo")).unwrap();
    assert_eq!(addr, "127.0.0.1:9999");
    let missing = dir.open_file(&String::from("other"));
    assert!(matches!(missing, Err(CapabilityError::NotFound(n)) if n == "other"));
}

#[test]
fn directory_is_read_only_and_unenumerable() {
    let dir = SocksvillePlusPlus::single(String::from("echo"), String::from("127.0.0.1:9999"));
    let ops = vec![
        DirOp::OpenDir,
        DirOp::CreateDir,
        DirOp::Readdir,
        DirOp::Symlink,
        DirOp::RemoveDir,
        DirOp::UnlinkFile,
        DirOp::ReadLink,
        DirOp::GetFilestat,
        DirOp::GetPathFilestat,
        DirOp::Rename,
        DirOp::HardLink,
        DirOp::SetTimes,
    ];
    for op in ops {
        assert!(matches!(dir.dir_op(op), Err(CapabilityError::Unsupported)));
    }
}

#[test]
fn positional_and_capacity_operations_fail_explicitly() {
    let mut s = Socksville::new();
    assert!(matches!(s.seek(), Err(CapabilityError::Unsupported)));
    assert!(matches!(s.allocate(0, 16), Err(CapabilityError::Unsupported)));
    assert!(matches!(
        s.set_times(None, None),
        Err(CapabilityError::Unsupported)
    ));
    assert!(matches!(s.peek(), Err(CapabilityError::Unsupported)));
    assert!(matches!(s.advise(0, 1), Err(CapabilityError::Unsupported)));
    assert!(matches!(
        s.set_filestat_size(4),
        Err(CapabilityError::Unsupported)
    ));
    assert!(matches!(
        s.read_vectored_at(0),
        Err(CapabilityError::Unsupported)
    ));
    assert!(matches!(
        s.write_vectored_at(0),
        Err(CapabilityError::Unsupported)
    ));
    assert!(matches!(s.readable(), Err(CapabilityError::Unsupported)));
    assert!(matches!(s.writable(), Err(CapabilityError::Unsupported)));
    let flags = s.get_fdflags().unwrap();
    assert!(matches!(
        s.set_fdflags(flags),
        Err(CapabilityError::Unsupported)
    ));
}

#[test]
fn stream_queries_report_socket_semantics() {
    let s = Socksville::new();
    assert_eq!(s.get_filetype().unwrap(), FileType::SocketStream);
    let flags = s.get_fdflags().unwrap();
    assert!(flags.append);
    assert!(!flags.dsync && !flags.nonblock && !flags.rsync && !flags.sync);
    let stat = s.get_filestat().unwrap();
    assert_eq!(stat.filetype, FileType::SocketStream);
    assert_eq!(stat.size, 0);
    assert_eq!(stat.nlink, 0);
    assert_eq!(stat.atim, None);
    assert_eq!(s.num_ready_bytes().unwrap(), 0);
    assert!(s.sync().is_ok());
    assert!(s.datasync().is_ok());
}

#[test]
fn echo_roundtrip_over_the_stream_model() {
    let mut s = Socksville::new();
    let written = s
        .write_vectored(&vec![b"ping".to_vec()])
        .unwrap();
    assert_eq!(written, 4);
    assert_eq!(s.outgoing, b"ping".to_vec());
    // the echo peer hands every written byte back
    s.incoming = s.outgoing.clone();
    let (chunks, total) = s.read_vectored(&vec![16]).unwrap();
    assert_eq!(total, 4);
    assert_eq!(chunks.len(), 1);
    assert_eq!(chunks[0], b"ping".to_vec());
    assert_eq!(s.incoming.len(), 0);
}

#[test]
fn vectored_write_concatenates_in_order() {
    let mut s = Socksville::new();
    let n = s
        .write_vectored(&vec![b"ab".to_vec(), b"".to_vec(), b"cde".to_vec()])
        .unwrap();
    assert_eq!(n, 5);
    assert_eq!(s.outgoing, b"abcde".to_vec());
}

#[test]
fn vectored_read_deals_bytes_out_in_order() {
    let mut s = Socksville::new();
    s.incoming = b"abcde".to_vec();
    let (chunks, total) = s.read_vectored(&vec![2, 2]).unwrap();
    assert_eq!(total, 4);
    assert_eq!(chunks[0], b"ab".to_vec());
    assert_eq!(chunks[1], b"cd".to_vec());
    assert_eq!(s.incoming, b"e".to_vec());
    let (chunks2, total2) = s.read_vectored(&vec![10]).unwrap();
    assert_eq!(total2, 1);
    assert_eq!(chunks2[0], b"e".to_vec());
    assert_eq!(s.incoming.len(), 0);
}

#[test]
fn concurrent_writers_never_interleave() {
    // the exclusive lock admits exactly two schedules for two whole writes;
    // under either, the observer reads one payload complete before the other
    let mut first_order = Socksville::new();
    first_order.write_vectored(&vec![b"AAA".to_vec()]).unwrap();
    first_order.write_vectored(&vec![b"BBB".to_vec()]).unwrap();
    let mut second_order = Socksville::new();
    second_order.write_vectored(&vec![b"BBB".to_vec()]).unwrap();
    second_order.write_vectored(&vec![b"AAA".to_vec()]).unwrap();
    for observed in [first_order.outgoing, second_order.outgoing] {
        assert!(observed == b"AAABBB".to_vec() || observed == b"BBBAAA".to_vec());
    }
}
