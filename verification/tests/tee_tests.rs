use estream::Tee;

fn to_chunks(std_in: Vec<String>) -> Vec<Vec<u8>> {
    std_in.into_iter().map(|s| s.into_bytes()).collect()
}

#[test]
fn single_read() {
    let std_in = vec![String::from("testing")];
    let mock_std_in = to_chunks(std_in);
    let mock_std_out = vec![];

    let mut tee = Tee::new(mock_std_in, mock_std_out);

    let mut buf: Vec<u8> = vec![0; 100];
    assert_eq!(7, tee.read(&mut buf));
    assert_eq!(b"testing", &buf[0..7]);

    let mock_std_out = tee.get_writer_ref();
    assert_eq!(b"testing", &mock_std_out.as_slice());
}

#[test]
fn single_read_ends_in_newline() {
    let std_in = vec![String::from("testing\n")];
    let mock_std_in = to_chunks(std_in);
    let mock_std_out = vec![];

    let mut tee = Tee::new(mock_std_in, mock_std_out);

    let mut buf: Vec<u8> = vec![0; 100];
    assert_eq!(8, tee.read(&mut buf));
    assert_eq!(b"testing\n", &buf[0..8]);

    let mock_std_out = tee.get_writer_ref();
    assert_eq!(b"testing\n", &mock_std_out.as_slice());
}

#[test]
fn single_read_with_newline() {
    let std_in = vec![String::from("testing\nis great")];
    let mock_std_in = to_chunks(std_in);
    let mock_std_out = vec![];

    let mut tee = Tee::new(mock_std_in, mock_std_out);

    let mut buf: Vec<u8> = vec![0; 100];
    assert_eq!(8, tee.read(&mut buf));
    assert_eq!(b"testing\n", &buf[0..8]);

    let mock_std_out = tee.get_writer_ref();
    assert_eq!(b"testing\n", &mock_std_out.as_slice());

    assert_eq!(8, tee.read(&mut buf));
    assert_eq!(b"is great", &buf[0..8]);

    let mock_std_out = tee.get_writer_ref();
    assert_eq!(b"testing\nis great", &mock_std_out.as_slice());
}

#[test]
fn multiline() {
    let std_in = vec![
        String::from("testing.."),
        String::from(".\n."),
        String::from("is fun"),
    ];
    let mock_std_in = to_chunks(std_in);
    let mock_std_out = vec![];

    let mut tee = Tee::new(mock_std_in, mock_std_out);

    let mut buf: Vec<u8> = vec![0; 100];

    // first read
    assert_eq!(9, tee.read(&mut buf));
    assert_eq!(b"testing..", &buf[0..9]);
    let mock_std_out = tee.get_writer_ref();
    assert_eq!(b"testing..", &mock_std_out.as_slice());

    // second read
    // should stop at the newline to allow our two outbound streams to sync
    assert_eq!(2, tee.read(&mut buf));
    assert_eq!(b".\n", &buf[0..2]);
    let mock_std_out = tee.get_writer_ref();
    assert_eq!(b"testing...\n", &mock_std_out.as_slice());

    // third read
    assert_eq!(1, tee.read(&mut buf));
    assert_eq!(b".", &buf[0..1]);
    let mock_std_out = tee.get_writer_ref();
    assert_eq!(b"testing...\n.", &mock_std_out.as_slice());

    // fourth read
    assert_eq!(6, tee.read(&mut buf));
    assert_eq!(b"is fun", &buf[0..6]);
    let mock_std_out = tee.get_writer_ref();
    assert_eq!(b"testing...\n.is fun", &mock_std_out.as_slice());
}

// With no terminator anywhere upstream, every chunk passes through
// unmodified and in order, and the sink mirrors the caller byte for byte.
#[test]
fn no_terminator_chunks_pass_through() {
    let std_in = vec![
        String::from("alpha"),
        String::from("beta"),
        String::from("gamma"),
    ];
    let mock_std_in = to_chunks(std_in);
    let mut tee = Tee::new(mock_std_in, vec![]);

    let mut buf: Vec<u8> = vec![0; 100];
    assert_eq!(5, tee.read(&mut buf));
    assert_eq!(b"alpha", &buf[0..5]);
    assert_eq!(b"alpha", &tee.get_writer_ref().as_slice());

    assert_eq!(4, tee.read(&mut buf));
    assert_eq!(b"beta", &buf[0..4]);
    assert_eq!(b"alphabeta", &tee.get_writer_ref().as_slice());

    assert_eq!(5, tee.read(&mut buf));
    assert_eq!(b"gamma", &buf[0..5]);
    assert_eq!(b"alphabetagamma", &tee.get_writer_ref().as_slice());
}

// Once the source is exhausted and nothing is held back, a read returns 0
// and stays safe to call again.
#[test]
fn end_of_stream_is_idempotent() {
    let std_in = vec![String::from("last\n")];
    let mock_std_in = to_chunks(std_in);
    let mut tee = Tee::new(mock_std_in, vec![]);

    let mut buf: Vec<u8> = vec![0; 100];
    assert_eq!(5, tee.read(&mut buf));
    assert_eq!(0, tee.read(&mut buf));
    assert_eq!(0, tee.read(&mut buf));
    assert_eq!(0, tee.read(&mut buf));
    assert_eq!(b"last\n", &tee.get_writer_ref().as_slice());
}

// At every point in time the sink holds exactly the concatenation of all
// bytes handed to the caller so far, never more and never less.
#[test]
fn sink_never_runs_ahead_of_reads() {
    let std_in = vec![
        String::from("one\ntwo"),
        String::from("\nthree"),
    ];
    let mock_std_in = to_chunks(std_in);
    let mut tee = Tee::new(mock_std_in, vec![]);

    let mut buf: Vec<u8> = vec![0; 100];
    let mut handed: Vec<u8> = Vec::new();
    loop {
        let n = tee.read(&mut buf);
        handed.extend_from_slice(&buf[0..n]);
        assert_eq!(&handed, tee.get_writer_ref());
        if n == 0 {
            break;
        }
    }
    assert_eq!(b"one\ntwo\nthree", &handed.as_slice());
}

// A terminator in a replayed holdback does not split it further: the whole
// holdback comes back in one call.
#[test]
fn holdback_replays_in_one_piece() {
    let std_in = vec![String::from("a\nb\nc")];
    let mock_std_in = to_chunks(std_in);
    let mut tee = Tee::new(mock_std_in, vec![]);

    let mut buf: Vec<u8> = vec![0; 100];
    assert_eq!(2, tee.read(&mut buf));
    assert_eq!(b"a\n", &buf[0..2]);
    assert_eq!(3, tee.read(&mut buf));
    assert_eq!(b"b\nc", &buf[0..3]);
    assert_eq!(b"a\nb\nc", &tee.get_writer_ref().as_slice());
}

// Bytes past the terminator beyond the holdback capacity are dropped, a
// documented limitation of the fixed-size holdback.
#[test]
fn holdback_overflow_drops_excess() {
    let mut chunk = b"head\n".to_vec();
    chunk.extend_from_slice(&vec![b'x'; estream::HOLDBACK_CAPACITY + 7]);
    let mut tee = Tee::new(vec![chunk], vec![]);

    let mut buf: Vec<u8> = vec![0; estream::HOLDBACK_CAPACITY + 100];
    assert_eq!(5, tee.read(&mut buf));
    assert_eq!(b"head\n", &buf[0..5]);

    let n = tee.read(&mut buf);
    assert_eq!(estream::HOLDBACK_CAPACITY, n);
    assert!(buf[0..n].iter().all(|b| *b == b'x'));

    assert_eq!(0, tee.read(&mut buf));
    assert_eq!(estream::HOLDBACK_CAPACITY + 5, tee.get_writer_ref().len());
}

// A source that yields an empty chunk mid-stream makes that one call
// return 0 without ending the stream.
#[test]
fn empty_chunk_reads_as_zero() {
    let std_in = vec![String::from("x"), String::new(), String::from("y")];
    let mock_std_in = to_chunks(std_in);
    let mut tee = Tee::new(mock_std_in, vec![]);

    let mut buf: Vec<u8> = vec![0; 10];
    assert_eq!(1, tee.read(&mut buf));
    assert_eq!(0, tee.read(&mut buf));
    assert_eq!(1, tee.read(&mut buf));
    assert_eq!(b"y", &buf[0..1]);
    assert_eq!(b"xy", &tee.get_writer_ref().as_slice());
}

// The write primitive appends to the sink, flushed, in one step.
#[test]
fn write_appends_to_sink() {
    let mut tee = Tee::new(Vec::new(), vec![]);
    tee.write(b"abc");
    tee.write(b"def");
    assert_eq!(b"abcdef", &tee.get_writer_ref().as_slice());
}

// The sink may start non-empty; the tee only ever appends to it.
#[test]
fn sink_contents_are_preserved() {
    let mock_std_in = to_chunks(vec![String::from("tail")]);
    let mut tee = Tee::new(mock_std_in, b"head:".to_vec());

    let mut buf: Vec<u8> = vec![0; 10];
    assert_eq!(4, tee.read(&mut buf));
    assert_eq!(b"head:tail", &tee.get_writer_ref().as_slice());
}
