use bullet_stream::sink::{ByteSink, Forward};
use bullet_stream::strip_ansi;
use bullet_stream::Print;
use std::cell::RefCell;
use std::rc::Rc;

#[test]
fn vec_sink_appends() {
    let mut sink = b"ab".to_vec();
    sink.write_all(b"cd");
    sink.write_all(b"");
    sink.write_all(b"e");
    assert_eq!(b"abcde".as_slice(), sink.as_slice());
}

#[test]
fn forward_hands_every_write_on() {
    let target: Rc<RefCell<Vec<Vec<u8>>>> = Rc::new(RefCell::new(Vec::new()));
    let taker = target.clone();
    let mut sink = Forward::new(move |bytes: &[u8]| taker.borrow_mut().push(bytes.to_vec()));
    sink.write_all(b"one");
    sink.write_all(b"");
    sink.write_all(b"two\n");
    assert_eq!(
        vec![b"one".to_vec(), b"".to_vec(), b"two\n".to_vec()],
        *target.borrow()
    );
}

#[test]
fn handle_on_a_forwarding_sink_writes_as_it_goes() {
    let target: Rc<RefCell<Vec<u8>>> = Rc::new(RefCell::new(Vec::new()));
    let taker = target.clone();
    let sink = Forward::new(move |bytes: &[u8]| taker.borrow_mut().extend_from_slice(bytes));
    let output = Print::new(sink).h2("Title").bullet("Point");
    assert_eq!(
        "\n## Title\n\n- Point\n",
        strip_ansi(&String::from_utf8_lossy(&target.borrow()))
    );
    let _ = output.done().done();
    assert_eq!(
        "\n## Title\n\n- Point\n- Done (finished in < 0.1s)\n",
        strip_ansi(&String::from_utf8_lossy(&target.borrow()))
    );
}
