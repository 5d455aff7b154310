use bullet_stream::sink::ByteSink;
use bullet_stream::strip_ansi;
use bullet_stream::util::ParagraphInspectWrite;
use bullet_stream::duration_format::Elapsed;
use bullet_stream::write::{
    bullet, h1, h2, h3, important, line_mapped, mapped, plain, stream_finish, stream_forward,
    stream_start, sub_bullet, sub_bullet_prefix, sub_start_print_interval, sub_stream_cmd,
    sub_stream_with, sub_time_cmd, timer_close, timer_line, warning,
};

#[test]
fn plain_ending_newline() {
    let mut writer = ParagraphInspectWrite::new(Vec::new());

    let input = String::from("Accidental newline\n");

    assert!(input.ends_with("\n"));
    plain(&mut writer, &input);
    h2(&mut writer, "Then a header");

    assert_eq!(
        String::from("Accidental newline\n\n## Then a header\n\n"),
        strip_ansi(&String::from_utf8_lossy(&writer.into_inner()))
    );
}

#[test]
fn test_mapped_write() {
    let input = "foo\nbar\nbaz".as_bytes();
    let mut writer = line_mapped(Vec::new(), |line: Vec<u8>| line.repeat(2));
    writer.write_all(input);
    let output = writer.unwrap();

    assert_eq!(output, "foo\nfoo\nbar\nbar\nbazbaz".as_bytes());
}

#[test]
fn mapped_write_forwards_whole_records_only() {
    let mut writer = mapped(Vec::new(), b';', |mut record: Vec<u8>| {
        record.insert(0, b'<');
        record.push(b'>');
        record
    });
    writer.write_all(b"a;b");
    writer.write_all(b"c;;d");
    let output = writer.unwrap();

    assert_eq!(b"<a;><bc;><;><d>".as_slice(), output.as_slice());
}

#[test]
fn mapped_write_release_without_remainder_maps_nothing() {
    let mut writer = line_mapped(Vec::new(), |mut record: Vec<u8>| {
        record.insert(0, b'>');
        record
    });
    writer.write_all(b"a\n");
    assert_eq!(b">a\n".as_slice(), writer.unwrap().as_slice());
}

#[test]
fn headers_of_each_level() {
    let mut writer = ParagraphInspectWrite::new(Vec::new());
    h1(&mut writer, " one ");
    h2(&mut writer, "two");
    h3(&mut writer, "three");
    let io = writer.into_inner();

    assert_eq!(
        "\n\u{1b}[1;35m# one\u{1b}[0m\n\n\u{1b}[1;35m## two\u{1b}[0m\n\n\u{1b}[1;35m### three\u{1b}[0m\n\n",
        String::from_utf8_lossy(&io)
    );
}

#[test]
fn header_with_several_lines_colors_each() {
    let mut writer = ParagraphInspectWrite::new(Vec::new());
    h1(&mut writer, "a\nb");
    assert_eq!(
        "\n\u{1b}[1;35m# a\u{1b}[0m\n\u{1b}[1;35mb\u{1b}[0m\n\n",
        String::from_utf8_lossy(&writer.into_inner())
    );
}

#[test]
fn bullets_and_plain_lines() {
    let mut io: Vec<u8> = Vec::new();
    bullet(&mut io, "  first\nsecond  ");
    sub_bullet(&mut io, "third\nfourth");
    plain(&mut io, "  fifth  \n\n");
    assert_eq!(
        "- first\n  second\n  - third\n    fourth\n  fifth\n",
        String::from_utf8_lossy(&io)
    );
    assert_eq!("  - x\n    y", sub_bullet_prefix(" x\ny\n"));
    assert_eq!("  - ", sub_bullet_prefix(""));
}

#[test]
fn announcements_are_paragraphs() {
    let mut writer = ParagraphInspectWrite::new(Vec::new());
    writer.write_all(b"text\n");
    warning(&mut writer, "careful");
    important(&mut writer, "note\n\nwell");
    let io = writer.into_inner();
    assert_eq!(
        "text\n\n\u{1b}[0;33m! careful\u{1b}[0m\n\n\u{1b}[1;36m! note\u{1b}[0m\n\u{1b}[1;36m!\u{1b}[0m\n\u{1b}[1;36m! well\u{1b}[0m\n\n",
        String::from_utf8_lossy(&io)
    );
}

#[test]
fn empty_announcement_is_a_bare_mark() {
    let mut writer = ParagraphInspectWrite::new(Vec::new());
    warning(&mut writer, "  \n ");
    assert_eq!(
        "\n\u{1b}[0;33m!\u{1b}[0m\n\n",
        String::from_utf8_lossy(&writer.into_inner())
    );
}

#[test]
fn multibyte_text_is_written_as_utf8() {
    let mut io: Vec<u8> = Vec::new();
    bullet(&mut io, "\u{a0}héllo wörld ✓\u{3000}");
    assert_eq!("- héllo wörld ✓\n".as_bytes(), io.as_slice());
}

#[test]
fn stream_steps_write_announcement_messages_and_end() {
    let mut writer = ParagraphInspectWrite::new(Vec::new());
    stream_start(&mut writer, "Running");
    stream_forward(
        &mut writer,
        &vec![b"      a\n".to_vec(), b"      b".to_vec(), b"\n".to_vec()],
    );
    stream_finish(
        &mut writer,
        &bullet_stream::duration_format::Elapsed { secs: 75, millis: 0 },
    );
    assert_eq!(
        "  - Running\n\n      a\n      b\n\n  - Done (1m 15s)\n",
        String::from_utf8_lossy(&writer.into_inner())
    );
}

#[test]
fn stream_that_ends_in_a_paragraph_gets_no_second_blank_line() {
    let mut writer = ParagraphInspectWrite::new(Vec::new());
    sub_stream_with(
        &mut writer,
        "Running",
        &vec![b"      a\n\n".to_vec()],
        &bullet_stream::duration_format::Elapsed { secs: 0, millis: 0 },
    );
    assert_eq!(
        "  - Running\n\n      a\n\n  - Done (< 0.1s)\n",
        String::from_utf8_lossy(&writer.into_inner())
    );
}

#[test]
fn stream_without_messages() {
    let mut writer = ParagraphInspectWrite::new(Vec::new());
    sub_stream_with(
        &mut writer,
        "Running",
        &Vec::new(),
        &bullet_stream::duration_format::Elapsed { secs: 0, millis: 99 },
    );
    assert_eq!(
        "  - Running\n\n  - Done (< 0.1s)\n",
        String::from_utf8_lossy(&writer.into_inner())
    );
}

#[test]
fn timer_line_is_closed_with_details() {
    let guard = sub_start_print_interval(Vec::new(), "Installing");
    let details: Vec<char> = "1.5s".chars().collect();
    let io = timer_close(guard, &details);
    assert_eq!(
        "  - Installing ... (1.5s)\n",
        strip_ansi(&String::from_utf8_lossy(&io))
    );
}

#[test]
fn test_stream_cmd() {
    let mut writer = ParagraphInspectWrite::new(Vec::new());
    sub_stream_cmd(
        &mut writer,
        "bash -c \"echo hello\"",
        &vec![b"      hello\n".to_vec()],
        &Elapsed { secs: 0, millis: 3 },
    );

    let expected = "  - Running `bash -c \"echo hello\"`\n\n      hello\n\n  - Done (< 0.1s)\n";
    assert_eq!(
        expected,
        strip_ansi(&String::from_utf8_lossy(&writer.into_inner()))
    )
}

#[test]
fn test_time_cmd() {
    let writer = sub_time_cmd(
        ParagraphInspectWrite::new(Vec::new()),
        "bash -c \"echo hello\"",
        0,
        &Elapsed { secs: 0, millis: 3 },
    );

    let expected = "- Running `bash -c \"echo hello\"` ... (< 0.1s)";
    assert_eq!(
        expected.trim(),
        strip_ansi(&String::from_utf8_lossy(&writer.into_inner())).trim()
    )
}

#[test]
fn timer_line_is_what_a_timer_writes_step_by_step() {
    let mut guard = sub_start_print_interval(Vec::new(), "Installing");
    guard.tick();
    guard.tick();
    let details: Vec<char> = "done".chars().collect();
    let in_steps = timer_close(guard, &details);

    let mut at_once: Vec<u8> = Vec::new();
    timer_line(&mut at_once, "Installing", 2, &details);

    assert_eq!(in_steps, at_once);
    assert_eq!(
        "  - Installing ..... (done)\n",
        strip_ansi(&String::from_utf8_lossy(&at_once))
    );
}

#[test]
fn two_lines_through_an_indenting_closure() {
    let mut writer = line_mapped(Vec::new(), |line: Vec<u8>| {
        let mut indented = b"      ".to_vec();
        indented.extend_from_slice(&line);
        indented
    });
    writer.write_all(b"foo\n");
    writer.write_all(b"bar\n");
    assert_eq!(
        b"      foo\n      bar\n".as_slice(),
        writer.unwrap().as_slice()
    );
}
