use bullet_stream::duration_format::Elapsed;
use bullet_stream::global::print;
use bullet_stream::global::{
    enter_scope, leave_scope, set_writer, with_locked_writer, GlobalWriter,
};
use bullet_stream::sink::ByteSink;
use bullet_stream::strip_ansi;

#[test]
fn with_locked_writer_captures_and_restores() {
    let mut global = GlobalWriter::new(Vec::new());
    print::bullet(&mut global, "before");

    let (global, output) = with_locked_writer(global, Vec::new(), |mut global| {
        print::bullet(&mut global, "This should work fine");
        print::sub_bullet(&mut global, "Even after another scope");
        global
    });
    assert_eq!(
        "- This should work fine\n  - Even after another scope\n",
        strip_ansi(&String::from_utf8_lossy(&output))
    );
    assert!(!global.is_in_scope());

    let (global, output) = with_locked_writer(global, Vec::new(), |mut global| {
        print::bullet(&mut global, "Main thread still works");
        global
    });
    assert_eq!(
        "- Main thread still works\n",
        strip_ansi(&String::from_utf8_lossy(&output))
    );
    assert!(!global.is_in_scope());
    assert_eq!(1, global.trailing_newline_count());
}

#[test]
fn scoped_override_restores_the_original_sink() {
    let mut global = GlobalWriter::new(b"kept".to_vec());
    global.write_all(b"\n\n");
    assert!(global.trailing_paragraph());

    enter_scope(&mut global, b"new".to_vec());
    assert!(global.is_in_scope());
    assert!(!global.trailing_paragraph());
    assert_eq!(0, global.trailing_newline_count());
    global.write_all(b" text\n");
    print::h2(&mut global, "Title");
    let out = leave_scope(&mut global);

    assert_eq!(
        "new text\n\n## Title\n\n",
        strip_ansi(&String::from_utf8_lossy(&out))
    );
    assert!(!global.is_in_scope());
    assert!(global.trailing_paragraph());
    assert_eq!(2, global.trailing_newline_count());

    // What was there before the override is there after it.
    enter_scope(&mut global, Vec::new());
    global.write_all(b"lost to the first sink");
    let _ = leave_scope(&mut global);
    global.write_all(b"more");
    let (_, nothing) = with_locked_writer(global, Vec::new(), |global| global);
    assert!(nothing.is_empty());
}

#[test]
fn scoped_override_without_writes_returns_the_sink_unchanged() {
    let mut global = GlobalWriter::new(Vec::new());
    enter_scope(&mut global, b"as it was".to_vec());
    let out = leave_scope(&mut global);
    assert_eq!(b"as it was".as_slice(), out.as_slice());
}

#[test]
fn set_writer_replaces_the_sink_and_its_count() {
    let mut global = GlobalWriter::new(b"old\n\n".to_vec());
    global.write_all(b"\n\n");
    assert!(global.trailing_paragraph());
    set_writer(&mut global, Vec::new());
    assert!(!global.trailing_paragraph());
    assert!(!global.is_in_scope());
    let (_, out) = with_locked_writer(global, Vec::new(), |mut global| {
        print::h1(&mut global, "I am a top level header");
        print::all_done(&mut global, &None);
        global
    });
    assert_eq!(
        "\n# I am a top level header\n\n- Done\n",
        strip_ansi(&String::from_utf8_lossy(&out))
    );
}

#[test]
fn print_functions_write_what_the_handle_writes() {
    let (_, out) = with_locked_writer(GlobalWriter::new(Vec::new()), Vec::new(), |mut g| {
        let started = print::buildpack(&mut g, "FYEO Buildpack");
        print::header(&mut g, "the branches bending low");
        print::bullet(&mut g, "Tracks");
        print::sub_bullet(&mut g, "all the windows are glowing");
        print::sub_bullet(&mut g, "looking in between those long reeds");
        print::bullet(&mut g, "Released");
        print::sub_bullet(&mut g, "2024");
        print::header(&mut g, "failed book plots");
        print::bullet(&mut g, "Tracks");
        print::sub_bullet(&mut g, "the stream at new river beach ");
        print::sub_bullet(&mut g, "a line that is broad");
        print::bullet(&mut g, "Released");
        print::sub_bullet(&mut g, "2023");
        print::all_done(&mut g, &Some(started));
        g
    });
    let expected = "\n## FYEO Buildpack\n\n### the branches bending low\n\n- Tracks\n  - all the windows are glowing\n  - looking in between those long reeds\n- Released\n  - 2024\n\n### failed book plots\n\n- Tracks\n  - the stream at new river beach\n  - a line that is broad\n- Released\n  - 2023\n- Done (finished in < 0.1s)\n";
    assert_eq!(expected, strip_ansi(&String::from_utf8_lossy(&out)));
}

#[test]
fn print_plain_warning_error_and_headers() {
    let (_, out) = with_locked_writer(GlobalWriter::new(Vec::new()), Vec::new(), |mut g| {
        print::plain(&mut g, "This almost seems silly.");
        print::plain(&mut g, "Which is nice.");
        print::warning(&mut g, "This town ain't\nbig enough\nfor the both of us");
        print::error(&mut g, "It's at times like this");
        print::h1(&mut g, "one");
        print::h2(&mut g, "two");
        print::h3(&mut g, "three");
        g
    });
    let expected = "This almost seems silly.\nWhich is nice.\n\n! This town ain't\n! big enough\n! for the both of us\n\n! It's at times like this\n\n# one\n\n## two\n\n### three\n\n";
    assert_eq!(expected, strip_ansi(&String::from_utf8_lossy(&out)));
}

#[test]
fn print_timer_and_stream() {
    let (_, out) = with_locked_writer(GlobalWriter::new(Vec::new()), Vec::new(), |mut g| {
        print::bullet(&mut g, "Ruby");
        let timer = print::sub_start_timer(g, "Installing");
        let mut g = timer.done().release();
        print::sub_stream_with(
            &mut g,
            "Running",
            &vec![b"      hello world\n".to_vec()],
            &Elapsed { secs: 0, millis: 5 },
        );
        g
    });
    let expected = "- Ruby\n  - Installing ... (< 0.1s)\n  - Running\n\n      hello world\n\n  - Done (< 0.1s)\n";
    assert_eq!(expected, strip_ansi(&String::from_utf8_lossy(&out)));
}

#[test]
fn print_commands() {
    let (_, out) = with_locked_writer(GlobalWriter::new(Vec::new()), Vec::new(), |mut g| {
        print::sub_stream_cmd(
            &mut g,
            "echo hi",
            &vec![b"      hi\n".to_vec()],
            &Elapsed { secs: 61, millis: 0 },
        );
        print::sub_time_cmd(&mut g, "true", 1, &Elapsed { secs: 1, millis: 250 });
        g
    });
    let expected = "  - Running `echo hi`\n\n      hi\n\n  - Done (1m 1s)\n  - Running `true` .... (1.2s)\n";
    assert_eq!(expected, strip_ansi(&String::from_utf8_lossy(&out)));
}

#[test]
fn print_stream_in_steps() {
    let (_, out) = with_locked_writer(GlobalWriter::new(Vec::new()), Vec::new(), |mut g| {
        print::sub_stream_open(&mut g, "Running");
        g.write_all(b"      line\n");
        print::sub_stream_close(&mut g, &Elapsed { secs: 0, millis: 0 });
        g
    });
    assert_eq!(
        "  - Running\n\n      line\n\n  - Done (< 0.1s)\n",
        String::from_utf8_lossy(&out)
    );
}
