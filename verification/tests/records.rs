use rew::io::{
    split_records, write_records, LineBuffer, RecordTooLarge, Separator, WriteBuffer,
};

fn read_all(input: &[u8], separator: Separator, limit: usize, chunk: usize) -> Result<Vec<Vec<u8>>, RecordTooLarge> {
    let mut buffer = LineBuffer::new(separator, limit);
    let mut records = Vec::new();
    for piece in input.chunks(chunk.max(1)) {
        buffer.feed(piece);
        while let Some(record) = buffer.next()? {
            records.push(record);
        }
    }
    while let Some(record) = buffer.finish()? {
        records.push(record);
    }
    Ok(records)
}

fn records(values: &[&str]) -> Vec<Vec<u8>> {
    values.iter().map(|value| value.as_bytes().to_vec()).collect()
}

#[test]
fn separator_bytes() {
    assert_eq!(Separator::Newline.as_byte(), b'\n');
    assert_eq!(Separator::Null.as_byte(), 0);
    assert_eq!(Separator::new(false), Separator::Newline);
    assert_eq!(Separator::new(true), Separator::Null);
}

#[test]
fn records_end_at_separators() {
    for chunk in [1, 2, 3, 100] {
        assert_eq!(
            read_all(b"first\nsecond\nthird\n", Separator::Newline, 32, chunk),
            Ok(records(&["first", "second", "third"]))
        );
        assert_eq!(
            read_all(b"aa\0bb\0cc\0", Separator::Null, 32, chunk),
            Ok(records(&["aa", "bb", "cc"]))
        );
        assert_eq!(
            read_all(b"a\nb", Separator::Newline, 32, chunk),
            Ok(records(&["a", "b"]))
        );
        assert_eq!(
            read_all(b"\n\na\n\n", Separator::Newline, 32, chunk),
            Ok(records(&["", "", "a", ""]))
        );
        assert_eq!(read_all(b"", Separator::Newline, 32, chunk), Ok(records(&[])));
        assert_eq!(
            read_all(b"a\nb\0c", Separator::Null, 32, chunk),
            Ok(records(&["a\nb", "c"]))
        );
    }
}

#[test]
fn record_longer_than_the_buffer_is_refused() {
    let too_large = Err(RecordTooLarge { limit: 8 });
    for chunk in [1, 4, 100] {
        assert_eq!(
            read_all(b"12345678\n", Separator::Newline, 8, chunk),
            Ok(records(&["12345678"]))
        );
        assert_eq!(read_all(b"123456789\n", Separator::Newline, 8, chunk), too_large);
        assert_eq!(read_all(b"123456789", Separator::Newline, 8, chunk), too_large);
        assert_eq!(
            read_all(b"a\n123456789\n", Separator::Newline, 8, chunk),
            too_large
        );
    }
    assert_eq!(read_all(b"\n", Separator::Newline, 0, 1), Ok(records(&[""])));
    assert_eq!(
        read_all(b"a", Separator::Newline, 0, 1),
        Err(RecordTooLarge { limit: 0 })
    );
}

#[test]
fn one_record_is_given_at_a_time() {
    let mut buffer = LineBuffer::new(Separator::Newline, 16);
    assert_eq!(buffer.next(), Ok(None));
    buffer.feed(b"ab");
    assert_eq!(buffer.next(), Ok(None));
    buffer.feed(b"c\nd\ne");
    assert_eq!(buffer.next(), Ok(Some(b"abc".to_vec())));
    assert_eq!(buffer.next(), Ok(Some(b"d".to_vec())));
    assert_eq!(buffer.next(), Ok(None));
    assert_eq!(buffer.finish(), Ok(Some(b"e".to_vec())));
    assert_eq!(buffer.finish(), Ok(None));
    buffer.feed(b"x\ny");
    assert_eq!(buffer.finish(), Ok(Some(b"x".to_vec())));
    assert_eq!(buffer.finish(), Ok(Some(b"y".to_vec())));
    assert_eq!(buffer.finish(), Ok(None));
}

#[test]
fn every_record_goes_out_at_once_by_lines() {
    let mut buffer = WriteBuffer::new(Separator::Newline, false, 1024);
    assert_eq!(buffer.write_record(b"a"), Some(b"a\n".to_vec()));
    assert_eq!(buffer.write_record(b""), Some(b"\n".to_vec()));
    assert_eq!(buffer.finish(), b"");
}

#[test]
fn records_go_out_when_the_buffer_is_full() {
    let mut buffer = WriteBuffer::new(Separator::Null, true, 6);
    assert_eq!(buffer.write_record(b"ab"), None);
    assert_eq!(buffer.write_record(b"c"), None);
    assert_eq!(buffer.write_record(b""), Some(b"ab\0c\0\0".to_vec()));
    assert_eq!(buffer.write_record(b"long record"), Some(b"long record\0".to_vec()));
    assert_eq!(buffer.write_record(b"x"), None);
    assert_eq!(buffer.finish(), b"x\0");
    assert_eq!(buffer.finish(), b"");
}

fn write_all(records: &[Vec<u8>], separator: Separator, full: bool, size: usize) -> Vec<u8> {
    let mut buffer = WriteBuffer::new(separator, full, size);
    let mut out = Vec::new();
    for record in records {
        if let Some(bytes) = buffer.write_record(record) {
            out.extend(bytes);
        }
    }
    out.extend(buffer.finish());
    out
}

#[test]
fn what_is_written_is_read_back() {
    let all = records(&["", "a", "bc", "", "def"]);
    for separator in [Separator::Newline, Separator::Null] {
        for full in [false, true] {
            let written = write_all(&all, separator, full, 4);
            assert_eq!(read_all(&written, separator, 8, 3), Ok(all.clone()));
        }
    }
}

#[test]
fn separators_only_differ_in_the_separator() {
    let all = records(&["aa", "", "bb", "cc"]);
    let lines = write_all(&all, Separator::Newline, true, 5);
    let nulls = write_all(&all, Separator::Null, false, 5);
    assert_eq!(lines, b"aa\n\nbb\ncc\n");
    assert_eq!(nulls, b"aa\0\0bb\0cc\0");
    assert_eq!(lines.len(), nulls.len());
    for (line, null) in lines.iter().zip(&nulls) {
        assert!(line == null || (*line == b'\n' && *null == 0));
    }
}

#[test]
fn whole_stream_is_cut_and_written() {
    assert_eq!(
        split_records(b"a\n\nbc\nd", Separator::Newline),
        records(&["a", "", "bc", "d"])
    );
    assert_eq!(split_records(b"a\n", Separator::Newline), records(&["a"]));
    assert_eq!(split_records(b"\0", Separator::Null), records(&[""]));
    assert_eq!(split_records(b"", Separator::Null), records(&[]));
    assert_eq!(
        write_records(&records(&["a", "", "bc"]), Separator::Null),
        b"a\0\0bc\0"
    );
    assert_eq!(write_records(&[], Separator::Newline), b"");
    for input in [&b"x\ny\n"[..], b"\n\n", b"one"] {
        assert_eq!(
            split_records(input, Separator::Newline),
            read_all(input, Separator::Newline, 64, 2).unwrap()
        );
    }
}
