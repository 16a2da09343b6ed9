use anym::buf::{BufW, CapacityError};

#[test]
fn new_buffer_holds_no_text() {
    let mut bytes = [0u8; 4];
    let w = BufW::new(&mut bytes);
    assert_eq!(w.utf8(), "");
}

#[test]
fn new_buffer_ignores_what_the_bytes_held() {
    let mut bytes = [b'x', 0xff, b'z'];
    let w = BufW::new(&mut bytes);
    assert_eq!(w.utf8(), "");
}

#[test]
fn write_str_appends_in_order() {
    let mut bytes = [0u8; 15];
    let mut w = BufW::new(&mut bytes);
    assert_eq!(w.write_str("__Anym_"), Ok(()));
    assert_eq!(w.utf8(), "__Anym_");
    assert_eq!(w.write_str("abcdEF12"), Ok(()));
    assert_eq!(w.utf8(), "__Anym_abcdEF12");
}

#[test]
fn write_str_fills_the_buffer_to_the_last_byte() {
    let mut bytes = [0u8; 3];
    let mut w = BufW::new(&mut bytes);
    assert_eq!(w.write_str("abc"), Ok(()));
    assert_eq!(w.utf8(), "abc");
    assert_eq!(w.write_str(""), Ok(()));
    assert_eq!(w.utf8(), "abc");
}

#[test]
fn write_str_that_does_not_fit_writes_nothing() {
    let mut bytes = [0u8; 4];
    let mut w = BufW::new(&mut bytes);
    assert_eq!(w.write_str("ab"), Ok(()));
    assert_eq!(w.write_str("cde"), Err(CapacityError));
    assert_eq!(w.utf8(), "ab");
    assert_eq!(w.write_str("cd"), Ok(()));
    assert_eq!(w.utf8(), "abcd");
}

#[test]
fn write_char_appends_one_character() {
    let mut bytes = [0u8; 20];
    let mut w = BufW::new(&mut bytes);
    assert_eq!(w.write_char('T'), Ok(()));
    assert_eq!(w.write_str("12"), Ok(()));
    assert_eq!(w.utf8(), "T12");
}

#[test]
fn write_char_is_refused_when_the_buffer_is_full() {
    let mut bytes = [0u8; 1];
    let mut w = BufW::new(&mut bytes);
    assert_eq!(w.write_char('a'), Ok(()));
    assert_eq!(w.write_char('b'), Err(CapacityError));
    assert_eq!(w.utf8(), "a");
}

#[test]
fn write_char_takes_the_whole_ascii_range() {
    let mut bytes = [0u8; 2];
    let mut w = BufW::new(&mut bytes);
    assert_eq!(w.write_char('\0'), Ok(()));
    assert_eq!(w.write_char('\u{7f}'), Ok(()));
    assert_eq!(w.utf8(), "\0\u{7f}");
}

#[test]
fn the_text_ends_up_in_the_callers_bytes() {
    let mut bytes = [0u8; 4];
    {
        let mut w = BufW::new(&mut bytes);
        assert_eq!(w.write_str("T7"), Ok(()));
    }
    assert_eq!(bytes, [b'T', b'7', 0, 0]);
}

#[test]
fn new_touches_no_byte() {
    let mut bytes = [9u8, 0xff, 7];
    {
        let w = BufW::new(&mut bytes);
        assert_eq!(w.utf8(), "");
    }
    assert_eq!(bytes, [9, 0xff, 7]);
}

#[test]
fn an_append_touches_only_the_bytes_it_writes() {
    let mut bytes = [1u8, 2, 3, 4, 5];
    {
        let mut w = BufW::new(&mut bytes);
        assert_eq!(w.write_str("ab"), Ok(()));
        assert_eq!(w.write_char('c'), Ok(()));
    }
    assert_eq!(bytes, [b'a', b'b', b'c', 4, 5]);
}

#[test]
fn a_refused_append_touches_no_byte() {
    let mut bytes = [0u8; 3];
    {
        let mut w = BufW::new(&mut bytes);
        assert_eq!(w.write_str("ab"), Ok(()));
        assert_eq!(w.write_str("cd"), Err(CapacityError));
        assert_eq!(w.utf8(), "ab");
    }
    assert_eq!(bytes, [b'a', b'b', 0]);
}

#[test]
fn two_appends_leave_the_bytes_of_one() {
    let mut first = [7u8; 6];
    let mut second = [7u8; 6];
    {
        let mut w = BufW::new(&mut first);
        assert_eq!(w.write_str("T"), Ok(()));
        assert_eq!(w.write_str("12"), Ok(()));
        let mut v = BufW::new(&mut second);
        assert_eq!(v.write_str("T12"), Ok(()));
        assert_eq!(w.utf8(), v.utf8());
    }
    assert_eq!(first, second);
    assert_eq!(first, [b'T', b'1', b'2', 7, 7, 7]);
}

#[test]
fn a_character_is_written_as_the_text_of_one_character() {
    let mut first = [7u8; 2];
    let mut second = [7u8; 2];
    {
        let mut w = BufW::new(&mut first);
        let mut v = BufW::new(&mut second);
        assert_eq!(w.write_char('q'), v.write_str("q"));
        assert_eq!(w.write_char('r'), v.write_str("r"));
        assert_eq!(w.write_char('s'), v.write_str("s"));
        assert_eq!(w.utf8(), v.utf8());
    }
    assert_eq!(first, second);
    assert_eq!(first, [b'q', b'r']);
}

#[test]
fn a_full_buffer_refuses_every_character() {
    let mut bytes = [0u8; 1];
    {
        let mut w = BufW::new(&mut bytes);
        assert_eq!(w.write_char('a'), Ok(()));
        assert_eq!(w.write_char('b'), Err(CapacityError));
        assert_eq!(w.write_char('\u{e9}'), Err(CapacityError));
        assert_eq!(w.write_char('\u{10ffff}'), Err(CapacityError));
        assert_eq!(w.utf8(), "a");
    }
    assert_eq!(bytes, [b'a']);
}

#[test]
fn writing_the_empty_text_always_succeeds() {
    let mut bytes = [5u8; 1];
    {
        let mut w = BufW::new(&mut bytes);
        assert_eq!(w.write_str(""), Ok(()));
        assert_eq!(w.write_char('x'), Ok(()));
        assert_eq!(w.write_str(""), Ok(()));
        assert_eq!(w.utf8(), "x");
    }
    assert_eq!(bytes, [b'x']);
}
