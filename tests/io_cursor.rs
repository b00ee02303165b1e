use fat32::cursor::Cursor;
use fat32::io::{Error, ErrorKind, Read, Seek, SeekFrom, Write};

#[test]
fn error_accessors() {
    let e = Error::new(ErrorKind::Interrupted, "again");
    assert!(e.is_interrupted());
    assert_eq!(e.kind(), ErrorKind::Interrupted);
    assert_eq!(e.msg, "again");
    let e = Error::new(ErrorKind::UnexpectedEof, "short");
    assert!(!e.is_interrupted());
    assert_eq!(e.kind(), ErrorKind::UnexpectedEof);
}

#[test]
fn cursor_accessors() {
    let mut c = Cursor::new(vec![1u8, 2, 3]);
    assert_eq!(c.position(), 0);
    c.set_position(2);
    assert_eq!(c.position(), 2);
    assert_eq!(c.get_ref(), &vec![1u8, 2, 3]);
    c.get_mut().push(4);
    assert_eq!(c.remaining_slice(), &[3u8, 4]);
    assert!(!c.is_empty());
    c.set_position(10);
    assert!(c.is_empty());
    assert_eq!(c.remaining_slice(), &[] as &[u8]);
    assert_eq!(c.into_inner(), vec![1u8, 2, 3, 4]);
}

#[test]
fn cursor_read_and_read_exact() {
    let data = [10u8, 20, 30, 40, 50];
    let mut c = Cursor::new(&data[..]);
    let mut buf = [0u8; 3];
    assert_eq!(c.read(&mut buf).unwrap(), 3);
    assert_eq!(buf, [10, 20, 30]);
    assert_eq!(c.read(&mut buf).unwrap(), 2);
    assert_eq!(buf, [40, 50, 30]);
    assert_eq!(c.read(&mut buf).unwrap(), 0);
    c.set_position(1);
    let mut two = [0u8; 2];
    c.read_exact(&mut two).unwrap();
    assert_eq!(two, [20, 30]);
    assert_eq!(c.position(), 3);
    let mut four = [0u8; 4];
    assert_eq!(c.read_exact(&mut four).unwrap_err().kind(), ErrorKind::UnexpectedEof);
}

#[test]
fn cursor_seek() {
    let mut c = Cursor::new(vec![0u8; 10]);
    assert_eq!(c.seek(SeekFrom::Start(4)).unwrap(), 4);
    assert_eq!(c.seek(SeekFrom::Current(3)).unwrap(), 7);
    assert_eq!(c.seek(SeekFrom::Current((-2i64) as u64)).unwrap(), 5);
    assert_eq!(c.seek(SeekFrom::End(0)).unwrap(), 10);
    assert_eq!(c.seek(SeekFrom::End((-11i64) as u64)).unwrap_err().kind(), ErrorKind::InvalidInput);
    assert_eq!(c.position(), 10);
    assert_eq!(c.stream_len().unwrap(), 10);
    assert_eq!(c.stream_position().unwrap(), 10);
    c.rewind().unwrap();
    assert_eq!(c.position(), 0);
}

#[test]
fn cursor_write_into_slice() {
    let mut data = [0u8; 4];
    {
        let mut c = Cursor::new(&mut data[..]);
        c.set_position(2);
        assert_eq!(c.write(&[7, 8, 9]).unwrap(), 2);
        assert_eq!(c.position(), 4);
        assert_eq!(c.write(&[1]).unwrap(), 0);
        c.flush().unwrap();
    }
    assert_eq!(data, [0, 0, 7, 8]);
}

#[test]
fn cursor_write_into_vec_pads_with_zeros() {
    let mut c = Cursor::new(vec![1u8, 2]);
    c.set_position(4);
    assert_eq!(c.write(&[5, 6]).unwrap(), 2);
    assert_eq!(c.position(), 6);
    c.set_position(1);
    assert_eq!(c.write(&[9]).unwrap(), 1);
    assert_eq!(c.into_inner(), vec![1u8, 9, 0, 0, 5, 6]);
}

#[test]
fn slice_read_and_write_advance() {
    let data = [1u8, 2, 3];
    let mut src: &[u8] = &data;
    let mut buf = [0u8; 2];
    assert_eq!(src.read(&mut buf).unwrap(), 2);
    assert_eq!(src, &[3u8]);
    let mut out = [0u8; 3];
    let mut dst: &mut [u8] = &mut out;
    assert_eq!(dst.write(&[4, 5]).unwrap(), 2);
    assert_eq!(dst.len(), 1);
    assert_eq!(out, [4, 5, 0]);
}
