use bullet_stream::strip_ansi;
use bullet_stream::style;

#[test]
fn decorations() {
    assert_eq!(
        "\u{1b}[1;4;36mhttps://example.com\u{1b}[0m",
        style::url("https://example.com")
    );
    assert_eq!("`\u{1b}[0;33m2.3.4\u{1b}[0m`", style::value("2.3.4"));
    assert_eq!(
        "`\u{1b}[0;33m\u{1b}[1;36mbundle install\u{1b}[0m`",
        style::command("bundle install")
    );
    assert_eq!("(cached)", style::details("cached"));
    assert_eq!("\u{1b}[1;36mHELP:\u{1b}[0m", style::important("HELP:"));
    assert_eq!(
        "Running `\u{1b}[0;33m\u{1b}[1;36mls -a\u{1b}[0m`",
        style::running_command("ls -a")
    );
    assert_eq!("      ", style::CMD_INDENT);
}

#[test]
fn decorations_strip_to_their_text() {
    assert_eq!("`ls`", strip_ansi(&style::command("ls")));
    assert_eq!("Running `ls`", strip_ansi(&style::running_command("ls")));
    assert_eq!("()", style::details(""));
}
