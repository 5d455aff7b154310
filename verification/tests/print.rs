use bullet_stream::duration_format::Elapsed;
use bullet_stream::global::{set_writer, with_locked_writer, GlobalWriter};
use bullet_stream::strip_ansi;
use bullet_stream::style;
use bullet_stream::Print;

#[test]
fn double_h2_h2_newlines() {
    let writer = Vec::new();
    let output = Print::new(writer).h2("Header 2").h2("Header 2");

    let io = output.done();
    let expected = String::from("\n## Header 2\n\n## Header 2\n\n- Done (finished in < 0.1s)\n");

    assert_eq!(expected, strip_ansi(&String::from_utf8_lossy(&io)))
}

#[test]
fn double_h1_h2_newlines() {
    let writer = Vec::new();
    let output = Print::new(writer).h1("Header 1").h2("Header 2");

    let io = output.done();
    let expected = String::from("\n# Header 1\n\n## Header 2\n\n- Done (finished in < 0.1s)\n");

    assert_eq!(expected, strip_ansi(&String::from_utf8_lossy(&io)))
}

#[test]
fn stream_with() {
    let writer = Vec::new();
    let mut output = Print::new(writer)
        .h2("Example Buildpack")
        .bullet("Streaming");

    let messages = vec![b"      hello world\n".to_vec()];
    output.stream_with(
        &format!("Running {}", style::command("echo \"hello world\"")),
        &messages,
        &Elapsed { secs: 0, millis: 12 },
    );

    let io = output.done().done();
    let expected = String::from(
        "\n## Example Buildpack\n\n- Streaming\n  - Running `echo \"hello world\"`\n\n      hello world\n\n  - Done (< 0.1s)\n- Done (finished in < 0.1s)\n",
    );

    assert_eq!(expected, strip_ansi(&String::from_utf8_lossy(&io)));
}

#[test]
fn background_timer() {
    let io = Print::new(Vec::new())
        .without_header()
        .bullet("Background")
        .start_timer("Installing")
        .done()
        .done()
        .done();

    // Test human readable timer output
    let expected =
        String::from("- Background\n  - Installing ... (< 0.1s)\n- Done (finished in < 0.1s)\n");

    assert_eq!(expected, strip_ansi(&String::from_utf8_lossy(&io)));

    // Test timer dot colorization
    let expected = String::from(
        "- Background\n  - Installing\u{1b}[2;1m .\u{1b}[0m\u{1b}[2;1m.\u{1b}[0m\u{1b}[2;1m. \u{1b}[0m(< 0.1s)\n- Done (finished in < 0.1s)\n",
    );

    assert_eq!(expected, String::from_utf8_lossy(&io));
}

#[test]
fn background_timer_dropped() {
    let timer = Print::new(Vec::new())
        .without_header()
        .bullet("Background")
        .start_timer("Installing");
    let io = timer.release();

    // Test human readable timer output
    let expected = String::from("- Background\n  - Installing ... (Error)\n");

    assert_eq!(expected, strip_ansi(&String::from_utf8_lossy(&io)));
}

#[test]
fn write_paragraph_empty_lines() {
    let io = Print::new(Vec::new())
        .h1("Example Buildpack\n\n")
        .warning("\n\nhello\n\n\t\t\nworld\n\n")
        .bullet("Version\n\n")
        .sub_bullet("Installing\n\n")
        .done()
        .done();

    let tab_char = '\t';
    let expected = format!(
        "\n# Example Buildpack\n\n! hello\n!\n! {tab_char}{tab_char}\n! world\n\n- Version\n  - Installing\n- Done (finished in < 0.1s)\n"
    );

    assert_eq!(expected, strip_ansi(&String::from_utf8_lossy(&io)));
}

#[test]
fn paragraph_color_codes() {
    let io = Print::new(Vec::new())
        .h1("Buildpack Header is Bold Purple")
        .important("Important is bold cyan")
        .warning("Warnings are yellow")
        .error("Errors are red");

    let expected = String::from(
        "\n\u{1b}[1;35m# Buildpack Header is Bold Purple\u{1b}[0m\n\n\u{1b}[1;36m! Important is bold cyan\u{1b}[0m\n\n\u{1b}[0;33m! Warnings are yellow\u{1b}[0m\n\n\u{1b}[0;31m! Errors are red\u{1b}[0m\n\n",
    );

    assert_eq!(expected, String::from_utf8_lossy(&io));
}

#[test]
fn test_important() {
    let writer = Vec::new();
    let io = Print::new(writer)
        .h1("Heroku Ruby Buildpack")
        .important("This is important")
        .done();

    let expected = String::from(
        "\n# Heroku Ruby Buildpack\n\n! This is important\n\n- Done (finished in < 0.1s)\n",
    );

    assert_eq!(expected, strip_ansi(&String::from_utf8_lossy(&io)));
}

#[test]
fn test_error() {
    let io = Print::new(Vec::new())
        .h1("Heroku Ruby Buildpack")
        .error("This is an error");

    let expected = String::from("\n# Heroku Ruby Buildpack\n\n! This is an error\n\n");

    assert_eq!(expected, strip_ansi(&String::from_utf8_lossy(&io)));
}

#[test]
fn test_captures() {
    let writer = Vec::new();
    let mut first_stream = Print::new(writer)
        .h1("Heroku Ruby Buildpack")
        .bullet("Ruby version `3.1.3` from `Gemfile.lock`")
        .done()
        .bullet("Hello world")
        .start_stream("Streaming with no newlines");

    first_stream = first_stream.write_all("stuff\n".as_bytes());

    let mut second_stream = first_stream
        .done()
        .start_stream("Streaming with blank lines and a trailing newline");

    second_stream = second_stream.write_all("foo\nbar\n\n\t\nbaz\n\n".as_bytes());

    let io = second_stream.done().done().done();

    let tab_char = '\t';
    let expected = format!(
        "\n# Heroku Ruby Buildpack\n\n- Ruby version `3.1.3` from `Gemfile.lock`\n- Hello world\n  - Streaming with no newlines\n\n      stuff\n\n  - Done (< 0.1s)\n  - Streaming with blank lines and a trailing newline\n\n      foo\n      bar\n\n      {tab_char}\n      baz\n\n  - Done (< 0.1s)\n- Done (finished in < 0.1s)\n"
    );

    assert_eq!(expected, strip_ansi(&String::from_utf8_lossy(&io)));
}

#[test]
fn test_streaming_a_command() {
    let writer = Vec::new();
    let mut stream = Print::new(writer)
        .h1("Streaming buildpack demo")
        .bullet("Command streaming")
        .start_stream("Streaming stuff");

    stream = stream.write_all("hello world\n".as_bytes());

    let io = stream.done().done().done();

    let actual = strip_ansi(&String::from_utf8_lossy(&io));

    assert!(actual.contains("      hello world\n"));
}

#[test]
fn warning_after_buildpack() {
    let writer = Vec::new();
    let io = Print::new(writer)
        .h1("RCT")
        .warning("It's too crowded here\nI'm tired")
        .bullet("Guest thoughts")
        .sub_bullet("The jumping fountains are great")
        .sub_bullet("The music is nice here")
        .done()
        .done();

    let expected = String::from(
        "\n# RCT\n\n! It's too crowded here\n! I'm tired\n\n- Guest thoughts\n  - The jumping fountains are great\n  - The music is nice here\n- Done (finished in < 0.1s)\n",
    );

    assert_eq!(expected, strip_ansi(&String::from_utf8_lossy(&io)));
}

#[test]
fn warning_step_padding() {
    let writer = Vec::new();
    let io = Print::new(writer)
        .h1("RCT")
        .bullet("Guest thoughts")
        .sub_bullet("The scenery here is wonderful")
        .warning("It's too crowded here\nI'm tired")
        .sub_bullet("The jumping fountains are great")
        .sub_bullet("The music is nice here")
        .done()
        .done();

    let expected = String::from(
        "\n# RCT\n\n- Guest thoughts\n  - The scenery here is wonderful\n\n! It's too crowded here\n! I'm tired\n\n  - The jumping fountains are great\n  - The music is nice here\n- Done (finished in < 0.1s)\n",
    );

    assert_eq!(expected, strip_ansi(&String::from_utf8_lossy(&io)));
}

#[test]
fn global_preserves_newline() {
    let mut global = GlobalWriter::new(Vec::new());
    set_writer(&mut global, Vec::new());

    let (_global, io) = with_locked_writer(global, Vec::new(), |global| {
        let global = Print::global(global)
            .h1("Genuine Joes")
            .bullet("Dodge")
            .sub_bullet("A ball")
            .error("A wrench");

        Print::global(global)
            .without_header()
            .error("It's a bold strategy, Cotton.\nLet's see if it pays off for 'em.")
    });

    let expected = String::from(
        "\n# Genuine Joes\n\n- Dodge\n  - A ball\n\n! A wrench\n\n! It's a bold strategy, Cotton.\n! Let's see if it pays off for 'em.\n\n",
    );

    assert_eq!(expected, strip_ansi(&String::from_utf8_lossy(&io)));
}

#[test]
fn double_warning_step_padding() {
    let writer = Vec::new();
    let output = Print::new(writer)
        .h1("RCT")
        .bullet("Guest thoughts")
        .sub_bullet("The scenery here is wonderful");

    let io = output
        .warning("It's too crowded here")
        .warning("I'm tired")
        .sub_bullet("The jumping fountains are great")
        .sub_bullet("The music is nice here")
        .done()
        .done();

    let expected = String::from(
        "\n# RCT\n\n- Guest thoughts\n  - The scenery here is wonderful\n\n! It's too crowded here\n\n! I'm tired\n\n  - The jumping fountains are great\n  - The music is nice here\n- Done (finished in < 0.1s)\n",
    );

    assert_eq!(expected, strip_ansi(&String::from_utf8_lossy(&io)));
}

#[test]
fn header_bullet_sub_bullet_done() {
    let io = Print::new(Vec::new())
        .h1("Build")
        .bullet("Ruby")
        .sub_bullet("Installing")
        .done()
        .done();

    let expected = "# Build\n\n- Ruby\n  - Installing\n- Done (finished in < 0.1s)";

    assert_eq!(expected, strip_ansi(&String::from_utf8_lossy(&io)).trim());
}

#[test]
fn timer_cancelled_then_retried() {
    let bullet = Print::new(Vec::new()).without_header().bullet("Background");
    let timer = bullet.start_timer("Installing");
    let bullet = timer.cancel("Interrupted");
    let timer = bullet.start_timer("Retrying");
    let bullet = timer.done();
    let io = bullet.done().release();

    let expected =
        "- Background\n  - Installing ... (Interrupted)\n  - Retrying ... (< 0.1s)\n";

    assert_eq!(expected, strip_ansi(&String::from_utf8_lossy(&io)));
}

#[test]
fn timer_ticks_add_marks() {
    let timer = Print::new(Vec::new())
        .without_header()
        .bullet("Background")
        .start_timer("Installing");
    let io = timer.tick().tick().cancel("stopped").release();

    assert_eq!(
        "- Background\n  - Installing ..... (stopped)\n",
        strip_ansi(&String::from_utf8_lossy(&io))
    );
    assert_eq!(
        "- Background\n  - Installing\u{1b}[2;1m .\u{1b}[0m\u{1b}[2;1m.\u{1b}[0m\u{1b}[2;1m.\u{1b}[0m\u{1b}[2;1m.\u{1b}[0m\u{1b}[2;1m. \u{1b}[0m(stopped)\n",
        String::from_utf8_lossy(&io)
    );
}

#[test]
fn released_timer_after_ticks_says_error_last() {
    let timer = Print::new(Vec::new())
        .h2("Timers")
        .bullet("Background")
        .start_timer("Installing")
        .tick();
    let io = timer.release();
    let text = strip_ansi(&String::from_utf8_lossy(&io));

    assert!(text.ends_with("  - Installing .... (Error)\n"));
}

#[test]
fn consecutive_headers_have_one_blank_line_between() {
    let io = Print::new(Vec::new())
        .h1("First \n\n\n")
        .h2("\n\nSecond\n\n")
        .h2("Third")
        .release();

    assert_eq!(
        "\n# First\n\n## Second\n\n## Third\n\n",
        strip_ansi(&String::from_utf8_lossy(&io))
    );
}

#[test]
fn new_handle_counts_no_line_breaks_of_its_sink() {
    let mut sink = Vec::new();
    sink.extend_from_slice(b"before\n\n");
    let io = Print::new(sink).h1("Title").release();

    assert_eq!(
        "before\n\n\n# Title\n\n",
        strip_ansi(&String::from_utf8_lossy(&io))
    );
}

#[test]
fn done_without_start_has_no_time() {
    let mut writer = bullet_stream::util::ParagraphInspectWrite::new(Vec::new());
    bullet_stream::write::all_done(&mut writer, &None);
    assert_eq!(b"- Done\n".as_slice(), writer.into_inner().as_slice());
}

#[test]
fn stream_release_writes_the_open_line() {
    let stream = Print::new(Vec::new())
        .without_header()
        .bullet("Section")
        .start_stream("Streaming")
        .write_all(b"whole\npart");
    let io = stream.release();

    assert_eq!(
        "- Section\n  - Streaming\n\n      whole\n      part",
        String::from_utf8_lossy(&io)
    );
}

#[test]
fn stream_done_after_open_line_adds_blank_line() {
    let io = Print::new(Vec::new())
        .without_header()
        .bullet("Section")
        .start_stream("Streaming")
        .write_all(b"part")
        .done()
        .release();

    assert_eq!(
        "- Section\n  - Streaming\n\n      part\n  - Done (< 0.1s)\n",
        String::from_utf8_lossy(&io)
    );
}

#[test]
fn sub_bullet_done_goes_back_to_bullets() {
    let io = Print::new(Vec::new())
        .without_header()
        .bullet("One")
        .done()
        .bullet("Two\nlines")
        .sub_bullet("a\nb")
        .release();

    assert_eq!(
        "- One\n- Two\n  lines\n  - a\n    b\n",
        String::from_utf8_lossy(&io)
    );
}

#[test]
fn empty_texts_still_get_their_marks() {
    let io = Print::new(Vec::new())
        .h2("")
        .bullet("")
        .sub_bullet("  ")
        .release();

    assert_eq!(
        "\n## \n\n- \n  - \n",
        strip_ansi(&String::from_utf8_lossy(&io))
    );
}

#[test]
fn streaming_in_steps_writes_what_streaming_at_once_writes() {
    let elapsed = Elapsed { secs: 2, millis: 340 };
    let messages = vec![b"      out\n".to_vec(), b"      err\n".to_vec()];

    let mut at_once = Print::new(Vec::new()).without_header().bullet("Section");
    at_once.stream_with("Running", &messages, &elapsed);

    let mut in_steps = Print::new(Vec::new()).without_header().bullet("Section");
    in_steps.stream_open("Running");
    for message in &messages {
        in_steps.stream_write(message);
    }
    in_steps.stream_close(&elapsed);

    let expected = "- Section\n  - Running\n\n      out\n      err\n\n  - Done (2.3s)\n";
    let at_once = at_once.release();
    assert_eq!(expected, String::from_utf8_lossy(&at_once));
    assert_eq!(at_once, in_steps.release());
}

#[test]
fn continuing_handle_knows_the_paragraph_before_it() {
    let io = Print::continuing(b"text\n\n".to_vec(), 2).h2("Title").release();
    assert_eq!(
        "text\n\n## Title\n\n",
        strip_ansi(&String::from_utf8_lossy(&io))
    );
    let io = Print::continuing(b"text\n".to_vec(), 1).h2("Title").release();
    assert_eq!(
        "text\n\n## Title\n\n",
        strip_ansi(&String::from_utf8_lossy(&io))
    );
}

#[test]
fn test_cmd() {
    let writer = Vec::new();
    let mut bullet = Print::new(writer)
        .h2("You must obey the dance commander")
        .bullet("Giving out the order for fun");

    bullet.stream_cmd(
        "bash -c \"echo it would be awesome\"",
        &vec![b"      it would be awesome\n".to_vec()],
        &Elapsed { secs: 0, millis: 20 },
    );

    bullet.time_cmd(
        "bash -c \"echo if we could dance\"",
        0,
        &Elapsed { secs: 0, millis: 20 },
    );

    let io = bullet.done().done();
    let expected = String::from(
        "\n## You must obey the dance commander\n\n- Giving out the order for fun\n  - Running `bash -c \"echo it would be awesome\"`\n\n      it would be awesome\n\n  - Done (< 0.1s)\n  - Running `bash -c \"echo if we could dance\"` ... (< 0.1s)\n- Done (finished in < 0.1s)\n",
    );
    assert_eq!(expected, strip_ansi(&String::from_utf8_lossy(&io)));
}

#[test]
fn timed_command_shows_a_mark_for_each_interval() {
    let mut bullet = Print::new(Vec::new()).without_header().bullet("Section");
    bullet.time_cmd("sleep 3", 3, &Elapsed { secs: 3, millis: 20 });
    let io = bullet.release();
    assert_eq!(
        "- Section\n  - Running `sleep 3` ...... (3.0s)\n",
        strip_ansi(&String::from_utf8_lossy(&io))
    );
}
