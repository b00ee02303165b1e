use fat32::allocator::{align_down, align_up, is_power_of_two, map2bin, size4bin, Allocator};
use fat32::atag::{Atag, Core, Mem};
use fat32::shell::{edit_line, respond, Command, Error as ShellError, LineEvent, Reply};
use fat32::stack_vec::StackVec;

#[test]
fn alignment() {
    assert_eq!(align_down(0x1234, 0x100), 0x1200);
    assert_eq!(align_up(0x1234, 0x100), 0x1300);
    assert_eq!(align_up(0x1200, 0x100), 0x1200);
    assert_eq!(align_down(7, 1), 7);
    assert!(is_power_of_two(64));
    assert!(!is_power_of_two(0));
    assert!(!is_power_of_two(12));
}

#[test]
fn size_classes() {
    assert_eq!(map2bin(1), 0);
    assert_eq!(map2bin(8), 0);
    assert_eq!(map2bin(9), 1);
    assert_eq!(map2bin(16), 1);
    assert_eq!(map2bin(17), 2);
    assert_eq!(map2bin(4096), 9);
    assert_eq!(size4bin(0), 8);
    assert_eq!(size4bin(9), 4096);
}

#[test]
fn allocator_bumps_then_reuses_freed_blocks() {
    let mut a = Allocator::new(0x1000, 0x2000);
    let x = a.allocate(10, 8).unwrap();
    assert_eq!(x, 0x1000);
    let y = a.allocate(10, 8).unwrap();
    assert_eq!(y, 0x1010);
    let z = a.allocate(100, 64).unwrap();
    assert_eq!(z, 0x1040);
    a.deallocate(x, 10, 8);
    assert_eq!(a.allocate(12, 4).unwrap(), x);
    assert_eq!(a.allocate(12, 4).unwrap(), 0x10C0);
    assert!(a.allocate(0x2000, 8).is_none());
}

#[test]
fn atag_accessors() {
    let c = Core { flags: 1, page_size: 4096, root_dev: 0 };
    let m = Mem { size: 0x1000, start: 0x8000 };
    assert_eq!(Atag::Core(c).core_tag(), Some(c));
    assert_eq!(Atag::Mem(m).core_tag(), None);
    assert_eq!(Atag::Mem(m).mem(), Some(m));
    assert_eq!(Atag::Cmd("console=tty").cmd(), Some("console=tty"));
    assert_eq!(Atag::End.cmd(), None);
    assert_eq!(Atag::Unknown(7).mem(), None);
}

#[test]
fn line_editing() {
    let mut storage = [0u8; 3];
    let mut line = StackVec::new(&mut storage);
    assert_eq!(edit_line(&mut line, 0x08), LineEvent::Bell);
    assert_eq!(edit_line(&mut line, b'a'), LineEvent::Echo(b'a'));
    assert_eq!(edit_line(&mut line, 0xC3), LineEvent::Bell);
    assert_eq!(edit_line(&mut line, b'b'), LineEvent::Echo(b'b'));
    assert_eq!(edit_line(&mut line, b'c'), LineEvent::Echo(b'c'));
    assert_eq!(edit_line(&mut line, b'd'), LineEvent::Bell);
    assert_eq!(edit_line(&mut line, 0x7F), LineEvent::Erase);
    assert_eq!(edit_line(&mut line, b'\r'), LineEvent::Submit);
    assert_eq!(line.as_slice(), b"ab");
}

#[test]
fn command_parse() {
    let mut buf: [&[u8]; 4] = [&[]; 4];
    let cmd = Command::parse(b"  echo  hello world ", &mut buf).ok().unwrap();
    assert_eq!(cmd.path(), b"echo");
    assert_eq!(cmd.args.as_slice(), &[&b"echo"[..], &b"hello"[..], &b"world"[..]]);

    let mut buf: [&[u8]; 4] = [&[]; 4];
    assert!(matches!(Command::parse(b"   ", &mut buf), Err(ShellError::Empty)));

    let mut buf: [&[u8]; 2] = [&[]; 2];
    assert!(matches!(Command::parse(b"a b c", &mut buf), Err(ShellError::TooManyArgs)));
}

#[test]
fn shell_replies() {
    let mut buf: [&[u8]; 4] = [&[]; 4];
    match respond(b"echo hi there", &mut buf) {
        Reply::Echo(t) => assert_eq!(t, b"hi there"),
        other => panic!("unexpected {:?}", other),
    }
    let mut buf: [&[u8]; 4] = [&[]; 4];
    assert!(matches!(respond(b"echo", &mut buf), Reply::Echo(t) if t.is_empty()));
    let mut buf: [&[u8]; 4] = [&[]; 4];
    assert!(matches!(respond(b"panic", &mut buf), Reply::Panic));
    let mut buf: [&[u8]; 4] = [&[]; 4];
    assert!(matches!(respond(b"ls /", &mut buf), Reply::Unknown(p) if p == b"ls"));
    let mut buf: [&[u8]; 4] = [&[]; 4];
    assert!(matches!(respond(b"    ", &mut buf), Reply::Nothing));
    let mut buf: [&[u8]; 1] = [&[]; 1];
    assert!(matches!(respond(b"echo a", &mut buf), Reply::TooManyArgs));
}
