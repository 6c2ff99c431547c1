use oxbow::pty;
use oxbow::pty::{Ptys, ReadOut, NPTYS, OPOST, SIGINT, SIGQUIT};
use oxbow::waitq::QCAP;

fn typed(p: &mut Ptys, i: u8, s: &[u8]) -> i32 {
    pty::master_write(p, i, s).sig
}

fn read_line(p: &mut Ptys, i: u8) -> Option<Vec<u8>> {
    let mut buf = [0u8; 300];
    match pty::slave_read(p, i, &mut buf) {
        ReadOut::Data(n) => Some(buf[..n].to_vec()),
        ReadOut::Eof => Some(vec![]),
        ReadOut::WouldBlock => None,
    }
}

fn screen(p: &mut Ptys, i: u8) -> Vec<u8> {
    let mut buf = [0u8; 600];
    match pty::master_read(p, i, &mut buf) {
        ReadOut::Data(n) => buf[..n].to_vec(),
        _ => vec![],
    }
}

#[test]
fn a_typed_line_arrives_whole() {
    let mut p = Ptys::new();
    let i = pty::create(&mut p).unwrap();
    typed(&mut p, i, b"hel");
    assert_eq!(read_line(&mut p, i), None);
    typed(&mut p, i, b"lo\r");
    assert_eq!(read_line(&mut p, i), Some(b"hello\n".to_vec()));
    assert_eq!(screen(&mut p, i), b"hello\r\n".to_vec());
}

#[test]
fn erase_takes_back_one_character() {
    let mut p = Ptys::new();
    let i = pty::create(&mut p).unwrap();
    typed(&mut p, i, b"abx\x7fc\n");
    assert_eq!(read_line(&mut p, i), Some(b"abc\n".to_vec()));
    assert_eq!(screen(&mut p, i), b"abx\x08 \x08c\r\n".to_vec());
}

#[test]
fn kill_takes_back_the_line() {
    let mut p = Ptys::new();
    let i = pty::create(&mut p).unwrap();
    typed(&mut p, i, b"abc\x15de\n");
    assert_eq!(read_line(&mut p, i), Some(b"de\n".to_vec()));
}

#[test]
fn signal_keys_name_the_foreground() {
    let mut p = Ptys::new();
    let i = pty::create(&mut p).unwrap();
    pty::set_fg(&mut p, i, 7);
    assert_eq!(pty::fg_pid(&p, i), 7);
    let out = pty::master_write(&mut p, i, b"ab\x03");
    assert_eq!((out.sig, out.sig_pid), (SIGINT, 7));
    assert_eq!(typed(&mut p, i, b"\x1c"), SIGQUIT);
    typed(&mut p, i, b"x\n");
    assert_eq!(read_line(&mut p, i), Some(b"x\n".to_vec()));
}

#[test]
fn end_of_file_on_an_empty_line() {
    let mut p = Ptys::new();
    let i = pty::create(&mut p).unwrap();
    typed(&mut p, i, b"\x04");
    assert_eq!(read_line(&mut p, i), Some(vec![]));
    typed(&mut p, i, b"ab\x04");
    assert_eq!(read_line(&mut p, i), Some(b"ab".to_vec()));
}

#[test]
fn raw_mode_passes_through() {
    let mut p = Ptys::new();
    let i = pty::create(&mut p).unwrap();
    let (_, o, _, cc) = pty::get_termios(&p, i);
    pty::set_termios(&mut p, i, 0, o, 0, cc);
    assert_eq!(typed(&mut p, i, b"a\x03\x7f\r"), 0);
    assert_eq!(read_line(&mut p, i), Some(b"a\x03\x7f\r".to_vec()));
    assert_eq!(screen(&mut p, i), vec![]);
}

#[test]
fn output_lines_return_the_carriage() {
    let mut p = Ptys::new();
    let i = pty::create(&mut p).unwrap();
    let mut wake = [0usize; QCAP];
    pty::park_master_reader(&mut p, i, 5);
    let n = pty::slave_write(&mut p, i, b"a\nb", &mut wake);
    assert_eq!(&wake[..n], &[5]);
    assert_eq!(screen(&mut p, i), b"a\r\nb".to_vec());
    let (_, o, _, cc) = pty::get_termios(&p, i);
    assert_eq!(o & OPOST, OPOST);
    pty::set_termios(&mut p, i, 0, 0, 0, cc);
    pty::slave_write(&mut p, i, b"a\nb", &mut wake);
    assert_eq!(screen(&mut p, i), b"a\nb".to_vec());
}

#[test]
fn window_sizes() {
    let mut p = Ptys::new();
    let i = pty::create(&mut p).unwrap();
    pty::set_winsize(&mut p, i, 50, 132);
    assert_eq!(pty::get_winsize(&p, i), (50, 132));
}

#[test]
fn closing_a_side_ends_the_other() {
    let mut p = Ptys::new();
    let i = pty::create(&mut p).unwrap();
    let mut wake = [0usize; QCAP];
    pty::park_slave_reader(&mut p, i, 8);
    let n = pty::close_master(&mut p, i, &mut wake);
    assert_eq!(&wake[..n], &[8]);
    assert_eq!(read_line(&mut p, i), Some(vec![]));
    assert!(pty::slave_can_read(&p, i));
}

#[test]
fn terminals_run_out() {
    let mut p = Ptys::new();
    for _ in 0..NPTYS {
        assert!(pty::create(&mut p).is_some());
    }
    assert!(pty::create(&mut p).is_none());
    let i = 0;
    let mut wake = [0usize; QCAP];
    assert!(!pty::master_can_read(&p, i));
    pty::close_master(&mut p, i, &mut wake);
    pty::close_slave(&mut p, i, &mut wake);
    assert_eq!(pty::create(&mut p), Some(0));
}
