use uart_echo::config::{AT_CMD, BAUDERATE, HEARTBEAT_PERIOD_MS, READ_BUF_SIZE};
use uart_echo::frame::{assemble, echo_line, Assembled, DecodeError};
use uart_echo::trigger::FrameTrigger;

#[test]
fn configuration_values() {
    assert_eq!(AT_CMD, b'\n');
    assert_eq!(READ_BUF_SIZE, 64);
    assert_eq!(BAUDERATE, 115200);
    assert_eq!(HEARTBEAT_PERIOD_MS, 1000);
    let t = FrameTrigger::configured();
    assert_eq!(t.trigger_byte, 0x0A);
    assert_eq!(t.threshold, 64);
}

#[test]
fn zero_count_is_empty() {
    let buf = [0u8; 64];
    assert_eq!(assemble(&buf, 0), Ok(Assembled::Empty));
    assert_eq!(assemble(b"hello\n", 0), Ok(Assembled::Empty));
    assert_eq!(assemble(&[], 0), Ok(Assembled::Empty));
    assert_eq!(assemble(&[0xff, 0xfe], 0), Ok(Assembled::Empty));
}

#[test]
fn assemble_trims_both_ends() {
    assert_eq!(assemble(b"  hi there \r\n", 13), Ok(Assembled::Frame("hi there")));
    assert_eq!(assemble(b"\t\x0b\x0cx\n", 5), Ok(Assembled::Frame("x")));
    assert_eq!(assemble(b"a  b", 4), Ok(Assembled::Frame("a  b")));
}

#[test]
fn assemble_trims_unicode_whitespace() {
    let s = "\u{3000}\u{2003}gr\u{fc}\u{df}e\u{a0}\u{85}\u{1680}\u{2028}\u{2029}\u{202f}\u{205f}";
    let bytes = s.as_bytes();
    assert_eq!(assemble(bytes, bytes.len()), Ok(Assembled::Frame("gr\u{fc}\u{df}e")));
}

#[test]
fn assemble_keeps_what_is_no_whitespace() {
    // U+200B and U+180E look blank and are no whitespace; neither is NUL.
    let s = "\u{200b}x\u{180e}";
    assert_eq!(assemble(s.as_bytes(), s.len()), Ok(Assembled::Frame(s)));
    assert_eq!(assemble(b"\0a\0", 3), Ok(Assembled::Frame("\0a\0")));
}

#[test]
fn assemble_of_whitespace_only_is_an_empty_frame() {
    assert_eq!(assemble(b"\n", 1), Ok(Assembled::Frame("")));
    assert_eq!(assemble(b" \t\r\n", 4), Ok(Assembled::Frame("")));
}

#[test]
fn assemble_reads_the_count_and_no_more() {
    // A buffer that still holds an earlier, longer read.
    let mut buf = [0u8; 64];
    buf[..6].copy_from_slice(b"hello\n");
    buf[..3].copy_from_slice(b"yo\n");
    assert_eq!(assemble(&buf, 3), Ok(Assembled::Frame("yo")));
    assert_eq!(assemble(&buf, 2), Ok(Assembled::Frame("yo")));
    assert_eq!(assemble(&buf, 5), Ok(Assembled::Frame("yo\nlo")));
    // Ill-formed bytes behind the count do no harm.
    let tail = [b'o', b'k', 0xff, 0xff];
    assert_eq!(assemble(&tail, 2), Ok(Assembled::Frame("ok")));
}

#[test]
fn assemble_rejects_ill_formed_text() {
    assert_eq!(assemble(&[0xff], 1), Err(DecodeError));
    assert_eq!(assemble(&[b'a', 0x80, b'\n'], 3), Err(DecodeError));
    // An overlong encoding, a surrogate, a sequence cut short.
    assert_eq!(assemble(&[0xc0, 0xaf], 2), Err(DecodeError));
    assert_eq!(assemble(&[0xed, 0xa0, 0x80], 3), Err(DecodeError));
    assert_eq!(assemble(&[0xe2, 0x82, 0xac], 2), Err(DecodeError));
    assert_eq!(assemble(&[0xe2, 0x82, 0xac], 3), Ok(Assembled::Frame("\u{20ac}")));
}

#[test]
fn echo_line_wraps_the_frame() {
    assert_eq!(echo_line("hello"), "echo: hello\n");
    assert_eq!(echo_line(""), "echo: \n");
    assert_eq!(echo_line("a b"), "echo: a b\n");
    assert_eq!(echo_line("gr\u{fc}n"), "echo: gr\u{fc}n\n");
}

#[test]
fn boundary_at_first_trigger() {
    let t = FrameTrigger::configured();
    assert_eq!(t.boundary(b"hello\n"), Some(5));
    assert_eq!(t.boundary(b"hello\nworld\n"), Some(5));
    assert_eq!(t.boundary(b"\nabc"), Some(0));
    assert_eq!(t.read_len(b"hello\n"), Some(6));
    assert_eq!(t.read_len(b"hello\nworld\n"), Some(6));
    assert_eq!(t.read_len(b"\nabc"), Some(1));
}

#[test]
fn boundary_at_every_position_before_the_threshold() {
    let t = FrameTrigger::configured();
    for k in 0..64usize {
        let mut input = vec![b'x'; 70];
        input[k] = b'\n';
        assert_eq!(t.boundary(&input), Some(k));
        assert_eq!(t.read_len(&input), Some(k + 1));
    }
}

#[test]
fn boundary_forced_by_threshold() {
    let t = FrameTrigger::configured();
    let full = [b'a'; 64];
    assert_eq!(t.boundary(&full), Some(64));
    assert_eq!(t.read_len(&full), Some(64));
    // A trigger byte that comes after the buffer is full is too late.
    let mut longer = vec![b'a'; 64];
    longer.push(b'\n');
    assert_eq!(t.boundary(&longer), Some(64));
    assert_eq!(t.read_len(&longer), Some(64));
    let mut last = [b'a'; 64];
    last[63] = b'\n';
    assert_eq!(t.boundary(&last), Some(63));
    assert_eq!(t.read_len(&last), Some(64));
}

#[test]
fn boundary_of_incomplete_stream() {
    let t = FrameTrigger::configured();
    assert_eq!(t.boundary(b""), None);
    assert_eq!(t.boundary(b"hello"), None);
    assert_eq!(t.boundary(&[b'a'; 63]), None);
    assert_eq!(t.read_len(b""), None);
    assert_eq!(t.read_len(&[b'a'; 63]), None);
}

#[test]
fn boundary_with_other_settings() {
    let t = FrameTrigger { trigger_byte: b';', threshold: 4 };
    assert_eq!(t.boundary(b"ab;cd"), Some(2));
    assert_eq!(t.boundary(b"abcd;"), Some(4));
    assert_eq!(t.boundary(b"abc"), None);
    assert_eq!(t.boundary(b"a\nb;"), Some(3));
    let none = FrameTrigger { trigger_byte: b';', threshold: 0 };
    assert_eq!(none.boundary(b"abc"), Some(0));
    assert_eq!(none.read_len(b";"), Some(0));
}

#[test]
fn closing_line_feed_is_not_part_of_the_frame() {
    let with = assemble(b"hello\n", 6);
    let without = assemble(b"hello\n", 5);
    assert_eq!(with, Ok(Assembled::Frame("hello")));
    assert_eq!(with, without);
    let s = " caf\u{e9} \n";
    assert_eq!(assemble(s.as_bytes(), s.len()), assemble(s.as_bytes(), s.len() - 1));
}

#[test]
fn trimming_a_frame_again_changes_nothing() {
    let first = match assemble(b" \t a b \r\n", 9) {
        Ok(Assembled::Frame(text)) => text,
        other => panic!("no frame: {:?}", other),
    };
    assert_eq!(first, "a b");
    assert_eq!(assemble(first.as_bytes(), first.len()), Ok(Assembled::Frame(first)));
}
