use bullet_stream::sink::ByteSink;
use bullet_stream::util::{
    format_stream_writer, prefix_first_rest_lines, prefix_lines, ParagraphInspectWrite,
};

#[test]
fn test_paragraph_inspect_write() {
    let buffer: Vec<u8> = Vec::new();
    let mut inspect_write = ParagraphInspectWrite::new(buffer);
    assert!(!inspect_write.trailing_paragraph());

    inspect_write.write_all("Hello World".as_bytes());
    assert!(!inspect_write.trailing_paragraph());

    inspect_write.write_all("".as_bytes());
    assert!(!inspect_write.trailing_paragraph());

    inspect_write.write_all("\n\nHello World!\n".as_bytes());
    assert!(!inspect_write.trailing_paragraph());

    inspect_write.write_all("Hello World!\n".as_bytes());
    assert!(!inspect_write.trailing_paragraph());

    inspect_write.write_all("Hello World!\n\n".as_bytes());
    assert!(inspect_write.trailing_paragraph());

    inspect_write.write_all("End.\n".as_bytes());
    assert!(!inspect_write.trailing_paragraph());

    // Double end, on multiple writes
    inspect_write.write_all("End.\n".as_bytes());
    inspect_write.write_all("\n".as_bytes());
    assert!(inspect_write.trailing_paragraph());

    inspect_write.write_all("- The scenery here is wonderful\n".as_bytes());
    inspect_write.write_all("\n".as_bytes());
    assert!(inspect_write.trailing_paragraph());
}

#[test]
fn test_prefix_first_rest_lines() {
    assert_eq!("- hello", &prefix_first_rest_lines("- ", "  ", "hello"));
    assert_eq!(
        "- hello\n  world",
        &prefix_first_rest_lines("- ", "  ", "hello\nworld")
    );
    assert_eq!(
        "- hello\n  world\n",
        &prefix_first_rest_lines("- ", "  ", "hello\nworld\n")
    );

    assert_eq!("- ", &prefix_first_rest_lines("- ", "  ", ""));

    assert_eq!(
        "- hello\n  \n  world",
        &prefix_first_rest_lines("- ", "  ", "hello\n\nworld")
    );
}

#[test]
fn test_prefix_lines() {
    assert_eq!(
        "- hello\n- world\n",
        &prefix_lines("hello\nworld\n", |_, _| String::from("- "))
    );
    assert_eq!(
        "0: hello\n1: world\n",
        &prefix_lines("hello\nworld\n", |index, _| { format!("{index}: ") })
    );
    assert_eq!("- ", &prefix_lines("", |_, _| String::from("- ")));
    assert_eq!("- \n", &prefix_lines("\n", |_, _| String::from("- ")));
    assert_eq!("- \n- \n", &prefix_lines("\n\n", |_, _| String::from("- ")));
}

#[test]
fn prefix_lines_hands_each_line_with_its_break() {
    assert_eq!(
        "<a\n>a\n<\n>\n<b>b",
        &prefix_lines("a\n\nb", |_, line| format!("<{line}>"))
    );
}

#[test]
fn fragmented_writes_leave_the_state_of_one_write() {
    let whole = "one\n\ntwo\n\n\nthree\n\n";
    let bytes = whole.as_bytes();
    let mut at_once = ParagraphInspectWrite::new(Vec::new());
    at_once.write_all(bytes);
    for cut_a in 0..=bytes.len() {
        for cut_b in cut_a..=bytes.len() {
            let mut in_parts = ParagraphInspectWrite::new(Vec::new());
            in_parts.write_all(&bytes[..cut_a]);
            in_parts.write_all(&bytes[cut_a..cut_b]);
            in_parts.write_all(&bytes[cut_b..]);
            assert_eq!(
                at_once.trailing_newline_count(),
                in_parts.trailing_newline_count()
            );
            assert_eq!(at_once.trailing_paragraph(), in_parts.trailing_paragraph());
            assert_eq!(bytes, in_parts.into_inner().as_slice());
        }
    }
    assert_eq!(2, at_once.trailing_newline_count());
}

#[test]
fn newline_run_counts_across_writes() {
    let mut writer = ParagraphInspectWrite::new(Vec::new());
    assert_eq!(0, writer.trailing_newline_count());
    writer.write_all(b"\n");
    assert_eq!(1, writer.trailing_newline_count());
    assert!(!writer.trailing_paragraph());
    writer.write_all(b"\n\n");
    assert_eq!(3, writer.trailing_newline_count());
    assert!(writer.trailing_paragraph());
    writer.write_all(b"x");
    assert_eq!(0, writer.trailing_newline_count());
    writer.write_all(b"x\n");
    assert_eq!(1, writer.trailing_newline_count());
    assert_eq!(b"\n\n\nxx\n".as_slice(), writer.into_inner().as_slice());
}

#[test]
fn continuing_goes_on_from_a_run() {
    let mut writer = ParagraphInspectWrite::continuing(Vec::new(), 1);
    assert!(!writer.trailing_paragraph());
    writer.write_all(b"\n");
    assert!(writer.trailing_paragraph());
    assert_eq!(2, writer.trailing_newline_count());
}

#[test]
fn streamed_lines_are_indented() {
    let mut stream = format_stream_writer(Vec::new());
    stream.write_all(b"foo\n");
    stream.write_all(b"bar\n");
    assert_eq!(b"      foo\n      bar\n".as_slice(), stream.unwrap().as_slice());
}

#[test]
fn streamed_blank_lines_stay_bare() {
    let mut stream = format_stream_writer(Vec::new());
    stream.write_all(b"fo");
    stream.write_all(b"o\n\n\t\nbaz");
    assert_eq!(
        b"      foo\n\n      \t\n      baz".as_slice(),
        stream.unwrap().as_slice()
    );
}

#[test]
fn stream_without_remainder_forwards_nothing_on_release() {
    let mut stream = format_stream_writer(Vec::new());
    stream.write_all(b"a\n");
    assert_eq!(b"      a\n".as_slice(), stream.unwrap().as_slice());
    let empty = format_stream_writer(Vec::new());
    assert!(empty.unwrap().is_empty());
}
