use bullet_stream::background_printer::print_interval;

#[test]
fn guard_writes_start_ticks_and_end() {
    let mut guard = print_interval(Vec::new(), "[", "-", "]", "!");
    guard.tick();
    guard.tick();
    let io = guard.stop();
    assert_eq!(b"[---]".as_slice(), io.as_slice());
}

#[test]
fn guard_stopped_at_once_has_one_tick() {
    let io = print_interval(Vec::new(), " .", ".", ". ", "(Error)").stop();
    assert_eq!(b" ... ".as_slice(), io.as_slice());
}

#[test]
fn abandoned_guard_ends_with_its_text() {
    let mut guard = print_interval(b"label".to_vec(), " .", ".", ". ", "(Error)");
    guard.tick();
    let io = guard.abandon();
    assert_eq!(b"label .... (Error)\n".as_slice(), io.as_slice());
}
