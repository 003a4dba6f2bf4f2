use rush::codec::{encode, DecodeError};
use rush::lsh::LocalitySensitiveHashDatabase;
use rush::net::handler::{bulk_response, reorder, sort_batch};
use rush::net::wire::{decode, find_line_end, put_decimal, read_decimal, to_bytes};
use rush::net::{
    command_kind, Command, CommandKind, Database, Decoded, Frame, Handler, IndexedFrame, Mode,
    ProtocolError, SessionState, Step,
};
use rush::simd::{SimdNativeType, SimdTypeProxy, SimdVecImpl};

/// Four lanes of hardware single precision.
#[derive(Debug, Clone, Copy)]
struct M128([f32; 4]);

impl SimdNativeType for M128 {
    fn lanes() -> usize {
        4
    }
    fn setzero() -> Self {
        M128([0.0; 4])
    }
    fn load(elts: &Vec<u32>) -> Self {
        let mut x = [0f32; 4];
        for i in 0..4 {
            x[i] = f32::from_bits(elts[i]);
        }
        M128(x)
    }
    fn extract(self, i: usize) -> u32 {
        self.0[i].to_bits()
    }
    fn add(self, rhs: Self) -> Self {
        let mut x = self.0;
        for i in 0..4 {
            x[i] = self.0[i] + rhs.0[i];
        }
        M128(x)
    }
    fn sub(self, rhs: Self) -> Self {
        let mut x = self.0;
        for i in 0..4 {
            x[i] = self.0[i] - rhs.0[i];
        }
        M128(x)
    }
    fn mul(self, rhs: Self) -> Self {
        let mut x = self.0;
        for i in 0..4 {
            x[i] = self.0[i] * rhs.0[i];
        }
        M128(x)
    }
    fn div(self, rhs: Self) -> Self {
        let mut x = self.0;
        for i in 0..4 {
            x[i] = self.0[i] / rhs.0[i];
        }
        M128(x)
    }
    fn fmadd(self, b: Self, c: Self) -> Self {
        let mut x = self.0;
        for i in 0..4 {
            x[i] = self.0[i].mul_add(b.0[i], c.0[i]);
        }
        M128(x)
    }
    fn reduce_add(self, sum: u32) -> u32 {
        let a = self.0;
        (f32::from_bits(sum) + ((a[0] + a[1]) + (a[2] + a[3]))).to_bits()
    }
    fn scale(self, c: u32) -> Self {
        let c = f32::from_bits(c);
        let mut x = self.0;
        for i in 0..4 {
            x[i] = c * self.0[i];
        }
        M128(x)
    }
    fn scalar_sqrt(x: u32) -> u32 {
        f32::from_bits(x).sqrt().to_bits()
    }
    fn scalar_sub(x: u32, y: u32) -> u32 {
        (f32::from_bits(x) - f32::from_bits(y)).to_bits()
    }
    fn scalar_div(x: u32, y: u32) -> u32 {
        (f32::from_bits(x) / f32::from_bits(y)).to_bits()
    }
}

#[allow(non_camel_case_types)]
type f32x4 = SimdTypeProxy<M128>;

fn bits(v: Vec<f32>) -> Vec<u32> {
    v.into_iter().map(|x| x.to_bits()).collect()
}

fn floats(v: Vec<u32>) -> Vec<f32> {
    v.into_iter().map(f32::from_bits).collect()
}

type V16 = SimdVecImpl<f32x4, 4>;
type Db = LocalitySensitiveHashDatabase<V16>;

fn collect16(v: Vec<f32>) -> V16 {
    V16::from_iter(bits(v))
}

fn blob(v: Vec<f32>) -> Vec<u8> {
    encode(&collect16(v))
}

fn payload(v: Vec<f32>) -> Vec<u8> {
    collect16(v).to_vec().iter().flat_map(|w| w.to_le_bytes()).collect()
}

fn command(name: &str, v: Vec<f32>) -> Frame {
    Frame::Array(vec![
        Frame::Simple(name.to_string()),
        Frame::Simple("embeddings".to_string()),
        Frame::Bulk(blob(v)),
    ])
}

fn same(a: &Frame, b: &Frame) -> bool {
    to_bytes(a) == to_bytes(b)
}

fn error_text(frame: &Frame) -> String {
    match frame {
        Frame::Error(text) => text.clone(),
        other => panic!("no error frame: {:?}", other),
    }
}

/// Three stored vectors that are far from one another.
fn stocked() -> Db {
    let mut db = Db::new(32, 16);
    for scale in [1f32, -1.0] {
        db.insert(collect16(vec![scale; 16]));
    }
    let mut mixed = vec![1f32; 16];
    for i in 0..8 {
        mixed[i] = -1.0;
    }
    db.insert(collect16(mixed));
    db
}

fn mixed(scale: f32) -> Vec<f32> {
    (0..16).map(|i| if i < 8 { -scale } else { scale }).collect()
}

#[test]
fn mode_from_u64() {
    assert_eq!(Mode::from_u64(0), Some(Mode::Stream));
    assert_eq!(Mode::from_u64(1), Some(Mode::Bulk));
    assert_eq!(Mode::from_u64(2), Some(Mode::Single));
    assert_eq!(Mode::from_u64(3), None);
    assert_eq!(Mode::from_u64(u64::MAX), None);
}

#[test]
fn command_names() {
    assert_eq!(command_kind(&"get".to_string()), Some(CommandKind::Get));
    assert_eq!(command_kind(&"put".to_string()), Some(CommandKind::Put));
    assert_eq!(command_kind(&"GET".to_string()), None);
    assert_eq!(command_kind(&"".to_string()), None);
    assert_eq!(command_kind(&"gets".to_string()), None);
}

fn parse_error(frames: Vec<Frame>) -> ProtocolError {
    match Command::<Db>::parse(frames) {
        Ok(_) => panic!("parsed"),
        Err(e) => e,
    }
}

#[test]
fn parse_reads_three_fields() {
    let ok = vec![
        Frame::Simple("GeT".to_string()),
        Frame::Simple("DataSet".to_string()),
        Frame::Bulk(blob(vec![1.0; 16])),
    ];
    assert!(matches!(Command::<Db>::parse(ok), Ok(Command::Get(_))));
    let put = vec![
        Frame::Simple("PUT".to_string()),
        Frame::Simple("x".to_string()),
        Frame::Bulk(blob(vec![1.0; 16])),
        Frame::Null,
    ];
    assert!(matches!(Command::<Db>::parse(put), Ok(Command::Put(_))));
    assert_eq!(parse_error(vec![]), ProtocolError::ExpectedCommandName);
    assert_eq!(parse_error(vec![Frame::Integer(1)]), ProtocolError::ExpectedCommandName);
    assert_eq!(
        parse_error(vec![Frame::Simple("get".to_string())]),
        ProtocolError::ExpectedDatasetName
    );
    assert_eq!(
        parse_error(vec![Frame::Simple("get".to_string()), Frame::Bulk(vec![])]),
        ProtocolError::ExpectedDatasetName
    );
    assert_eq!(
        parse_error(vec![Frame::Simple("get".to_string()), Frame::Simple("d".to_string())]),
        ProtocolError::ExpectedBlob
    );
    assert_eq!(
        parse_error(vec![
            Frame::Simple("get".to_string()),
            Frame::Simple("d".to_string()),
            Frame::Simple("blob".to_string()),
        ]),
        ProtocolError::ExpectedBlob
    );
    assert_eq!(
        parse_error(vec![
            Frame::Simple("del".to_string()),
            Frame::Simple("d".to_string()),
            Frame::Bulk(blob(vec![1.0; 16])),
        ]),
        ProtocolError::UnrecognizedCommand
    );
    assert_eq!(
        parse_error(vec![
            Frame::Simple("get".to_string()),
            Frame::Simple("d".to_string()),
            Frame::Bulk(vec![16, 0, 0]),
        ]),
        ProtocolError::Dimension(DecodeError::TooShort)
    );
    assert_eq!(
        parse_error(vec![
            Frame::Simple("put".to_string()),
            Frame::Simple("d".to_string()),
            Frame::Bulk(vec![16, 0, 0, 0, 1, 2, 3, 4]),
        ]),
        ProtocolError::Dimension(DecodeError::InvalidLength)
    );
}

#[test]
fn error_frames_carry_short_lowercase_reasons() {
    let all = [
        ProtocolError::MalformedFrame,
        ProtocolError::ExpectedInteger,
        ProtocolError::UnknownMode,
        ProtocolError::ExpectedArrayOrNull,
        ProtocolError::ExpectedBulkArray,
        ProtocolError::ExpectedCommandArray,
        ProtocolError::ExpectedCommandName,
        ProtocolError::ExpectedDatasetName,
        ProtocolError::ExpectedBlob,
        ProtocolError::UnrecognizedCommand,
        ProtocolError::Dimension(DecodeError::TooShort),
        ProtocolError::Dimension(DecodeError::InvalidLength),
        ProtocolError::Dimension(DecodeError::InvalidValue),
    ];
    for e in all {
        let text = e.message();
        assert_eq!(text, text.to_lowercase());
        assert!(text.len() < 80);
        assert_eq!(error_text(&e.to_frame()), text);
    }
    assert_eq!(ProtocolError::UnrecognizedCommand.message(), "parse error; unrecognized command");
    assert_eq!(ProtocolError::ExpectedInteger.message(), "protocol error; expected integer frame");
}

#[test]
fn get_answers_with_the_neighbour_or_null() {
    let mut db = stocked();
    let hit = match Command::<Db>::parse(vec![
        Frame::Simple("get".to_string()),
        Frame::Simple("d".to_string()),
        Frame::Bulk(blob(vec![3.0; 16])),
    ]) {
        Ok(cmd) => cmd.execute(7, &mut db),
        Err(e) => panic!("{:?}", e),
    };
    assert_eq!(hit.id(), 7);
    assert!(same(hit.get_frame(), &Frame::Bulk(payload(vec![1.0; 16]))));
    let mut empty = Db::new(4, 16);
    let miss = match Command::<Db>::parse(vec![
        Frame::Simple("get".to_string()),
        Frame::Simple("d".to_string()),
        Frame::Bulk(blob(vec![3.0; 16])),
    ]) {
        Ok(cmd) => cmd.execute(0, &mut empty),
        Err(e) => panic!("{:?}", e),
    };
    assert!(same(miss.get_frame(), &Frame::Null));
    assert_eq!(Database::len(&db), 3);
}

#[test]
fn put_inserts_and_answers_ok() {
    let mut db = Db::new(8, 16);
    for (i, scale) in [1f32, 2.0, 1.0].iter().enumerate() {
        let cmd = Command::<Db>::parse(vec![
            Frame::Simple("put".to_string()),
            Frame::Simple("d".to_string()),
            Frame::Bulk(blob(vec![*scale; 16])),
        ]);
        let resp = match cmd {
            Ok(cmd) => cmd.execute(i, &mut db),
            Err(e) => panic!("{:?}", e),
        };
        assert_eq!(resp.id(), i);
        assert!(same(&resp.into_frame(), &Frame::Simple("OK".to_string())));
    }
    assert_eq!(db.len(), 2);
    assert!(db.query(&collect16(vec![1.0; 16])).is_some());
}

#[test]
fn responses_are_put_back_in_request_order() {
    let scrambled = vec![
        IndexedFrame::new(2, Frame::Integer(20)),
        IndexedFrame::new(0, Frame::Integer(0)),
        IndexedFrame::new(3, Frame::Integer(30)),
        IndexedFrame::new(1, Frame::Integer(10)),
    ];
    let out = reorder(scrambled);
    let got: Vec<u64> = out
        .iter()
        .map(|f| match f {
            Frame::Integer(n) => *n,
            _ => panic!(),
        })
        .collect();
    assert_eq!(got, vec![0, 10, 20, 30]);
    assert!(reorder(Vec::new()).is_empty());
    let ties = reorder(vec![
        IndexedFrame::new(1, Frame::Integer(1)),
        IndexedFrame::new(0, Frame::Integer(0)),
        IndexedFrame::new(1, Frame::Integer(1)),
    ]);
    assert!(same(&Frame::Array(ties), &Frame::Array(vec![
        Frame::Integer(0),
        Frame::Integer(1),
        Frame::Integer(1),
    ])));
}

#[test]
fn stream_mode_answers_in_the_order_of_the_requests() {
    let mut db = stocked();
    let mut session = Handler::new();
    assert_eq!(session.state(), SessionState::AwaitingMode);
    assert!(matches!(session.on_frame::<Db>(Some(Frame::Integer(0))), Step::Idle));
    assert_eq!(session.state(), SessionState::Streaming);

    let queries = vec![vec![-2.0; 16], mixed(3.0), vec![5.0; 16]];
    let expected = vec![vec![-1.0; 16], mixed(1.0), vec![1.0; 16]];
    let mut responses = Vec::new();
    let mut counter = 0;
    for q in queries {
        match session.on_frame::<Db>(Some(command("get", q))) {
            Step::Execute(cmd) => {
                responses.push(cmd.execute(counter, &mut db).into_frame());
                counter += 1;
            },
            _ => panic!("no command"),
        }
        assert_eq!(session.state(), SessionState::Streaming);
    }
    assert!(matches!(session.on_frame::<Db>(Some(Frame::Null)), Step::Close));
    assert_eq!(session.state(), SessionState::Closed);
    assert!(matches!(session.on_frame::<Db>(Some(Frame::Integer(0))), Step::Close));

    assert_eq!(responses.len(), 3);
    for (response, v) in responses.iter().zip(expected) {
        assert!(same(response, &Frame::Bulk(payload(v))));
    }
}

#[test]
fn bulk_mode_aligns_responses_with_requests() {
    let mut db = stocked();
    let mut session = Handler::new();
    assert!(matches!(session.on_frame::<Db>(Some(Frame::Integer(1))), Step::Idle));
    assert_eq!(session.state(), SessionState::AwaitingBatch);
    let batch = Frame::Array(vec![
        command("get", vec![5.0; 16]),
        command("get", mixed(0.5)),
        command("get", vec![-9.0; 16]),
        command("get", mixed(7.0)),
    ]);
    let (commands, ready) = match session.on_frame::<Db>(Some(batch)) {
        Step::ExecuteAll(commands, ready) => (commands, ready),
        _ => panic!("no batch"),
    };
    assert_eq!(session.state(), SessionState::Closed);
    assert_eq!(commands.len(), 4);
    assert!(ready.is_empty());

    // The commands finish in another order than they were sent in.
    let mut finished = ready;
    let mut pending: Vec<(usize, Command<Db>)> = commands;
    for pick in [2usize, 0, 1, 0] {
        let (id, cmd) = pending.remove(pick);
        finished.push(cmd.execute(id, &mut db));
    }
    let order: Vec<usize> = finished.iter().map(|f| f.id()).collect();
    assert_eq!(order, vec![2, 0, 3, 1]);

    let response = bulk_response(finished);
    let expected = Frame::Array(vec![
        Frame::Bulk(payload(vec![1.0; 16])),
        Frame::Bulk(payload(mixed(1.0))),
        Frame::Bulk(payload(vec![-1.0; 16])),
        Frame::Bulk(payload(mixed(1.0))),
    ]);
    match &response {
        Frame::Array(frames) => assert_eq!(frames.len(), 4),
        _ => panic!("no array"),
    }
    assert!(same(&response, &expected));
}

#[test]
fn bulk_mode_reports_bad_entries_in_place() {
    let mut db = stocked();
    let frames = vec![
        command("get", vec![5.0; 16]),
        Frame::Integer(3),
        command("drop", vec![5.0; 16]),
        command("put", vec![0.5; 16]),
    ];
    let (commands, ready) = sort_batch::<Db>(&frames);
    assert_eq!(commands.iter().map(|c| c.0).collect::<Vec<usize>>(), vec![0, 3]);
    assert_eq!(ready.iter().map(|r| r.id()).collect::<Vec<usize>>(), vec![1, 2]);
    let mut all = ready;
    for (id, cmd) in commands.into_iter().rev() {
        all.push(cmd.execute(id, &mut db));
    }
    let response = bulk_response(all);
    let expected = Frame::Array(vec![
        Frame::Bulk(payload(vec![1.0; 16])),
        ProtocolError::ExpectedCommandArray.to_frame(),
        ProtocolError::UnrecognizedCommand.to_frame(),
        Frame::Simple("OK".to_string()),
    ]);
    assert!(same(&response, &expected));
    assert_eq!(db.len(), 4);
}

#[test]
fn session_reports_errors_and_goes_on() {
    let mut session = Handler::new();
    match session.on_frame::<Db>(Some(Frame::Null)) {
        Step::Reply(f) => assert_eq!(error_text(&f), "protocol error; expected integer frame"),
        _ => panic!(),
    }
    assert_eq!(session.state(), SessionState::AwaitingMode);
    match session.on_frame::<Db>(Some(Frame::Integer(9))) {
        Step::Reply(f) => assert_eq!(error_text(&f), "protocol error; expected mode in [0, 1, 2]"),
        _ => panic!(),
    }
    assert!(matches!(session.on_frame::<Db>(Some(Frame::Integer(0))), Step::Idle));
    match session.on_frame::<Db>(Some(Frame::Integer(0))) {
        Step::Reply(f) => assert_eq!(
            error_text(&f),
            "protocol error; streaming frames must be either array or null"
        ),
        _ => panic!(),
    }
    match session.on_frame::<Db>(Some(Frame::Array(vec![Frame::Simple("get".to_string())]))) {
        Step::Reply(f) => assert_eq!(error_text(&f), "protocol error; expected dataset name"),
        _ => panic!(),
    }
    assert_eq!(session.state(), SessionState::Streaming);
    assert!(matches!(session.on_frame::<Db>(Some(command("PUT", vec![1.0; 16]))), Step::Execute(_)));
    assert!(matches!(session.on_frame::<Db>(None), Step::Close));
    assert_eq!(session.state(), SessionState::Closed);

    let mut bulk = Handler::new();
    assert!(matches!(bulk.on_frame::<Db>(Some(Frame::Integer(1))), Step::Idle));
    match bulk.on_frame::<Db>(Some(Frame::Null)) {
        Step::Reply(f) => assert_eq!(error_text(&f), "protocol error; bulk mode frame must be array"),
        _ => panic!(),
    }
    assert_eq!(bulk.state(), SessionState::AwaitingBatch);

    let mut single = Handler::new();
    assert!(matches!(single.on_frame::<Db>(Some(Frame::Integer(2))), Step::Close));
    let mut ended = Handler::new();
    assert!(matches!(ended.on_frame::<Db>(None), Step::Close));
}

#[test]
fn frames_on_the_wire() {
    assert_eq!(to_bytes(&Frame::Simple("OK".to_string())), b"+OK\r\n");
    assert_eq!(to_bytes(&Frame::Error("bad".to_string())), b"-bad\r\n");
    assert_eq!(to_bytes(&Frame::Integer(0)), b":0\r\n");
    assert_eq!(to_bytes(&Frame::Integer(1024)), b":1024\r\n");
    assert_eq!(to_bytes(&Frame::Integer(u64::MAX)), b":18446744073709551615\r\n");
    assert_eq!(to_bytes(&Frame::Bulk(vec![1, 2, 13, 10, 3])), b"$5\r\n\x01\x02\r\n\x03\r\n");
    assert_eq!(to_bytes(&Frame::Bulk(vec![])), b"$0\r\n\r\n");
    assert_eq!(to_bytes(&Frame::Null), b"$-1\r\n");
    assert_eq!(to_bytes(&Frame::Array(vec![])), b"*0\r\n");
    assert_eq!(
        to_bytes(&Frame::Array(vec![
            Frame::Simple("get".to_string()),
            Frame::Array(vec![Frame::Integer(7), Frame::Null]),
            Frame::Bulk(vec![65]),
        ])),
        b"*3\r\n+get\r\n*2\r\n:7\r\n$-1\r\n$1\r\nA\r\n"
    );
    assert_eq!(to_bytes(&Frame::Simple("gr\u{fc}n".to_string())), "+gr\u{fc}n\r\n".as_bytes());
}

fn read(bytes: &[u8]) -> (Frame, usize) {
    match decode(bytes) {
        Decoded::Complete(f, n) => (f, n),
        other => panic!("{:?}", other),
    }
}

#[test]
fn frames_are_read_back() {
    let frames = vec![
        Frame::Simple("OK".to_string()),
        Frame::Simple("".to_string()),
        Frame::Error("unknown error inserting to LSH database".to_string()),
        Frame::Integer(0),
        Frame::Integer(9),
        Frame::Integer(10),
        Frame::Integer(u64::MAX),
        Frame::Bulk(vec![]),
        Frame::Bulk((0..=255).collect()),
        Frame::Bulk(b"\r\n\r\n".to_vec()),
        Frame::Null,
        Frame::Array(vec![]),
        command("put", vec![1.5; 16]),
        Frame::Array(vec![Frame::Array(vec![Frame::Array(vec![Frame::Null])]), Frame::Integer(1)]),
        Frame::Simple("a\rb\nc".to_string()),
    ];
    for f in &frames {
        let bytes = to_bytes(f);
        let (back, used) = read(&bytes);
        assert_eq!(used, bytes.len());
        assert!(same(&back, f));
        let mut more = bytes.clone();
        more.extend_from_slice(b":1\r\n");
        let (back, used) = read(&more);
        assert_eq!(used, bytes.len());
        assert!(same(&back, f));
        for cut in 0..bytes.len() {
            assert!(matches!(decode(&bytes[..cut]), Decoded::Incomplete), "{:?} cut at {}", f, cut);
        }
    }
}

#[test]
fn malformed_frames_are_refused() {
    for bad in [
        &b"?\r\n"[..],
        b"x",
        b":\r\n",
        b":01\r\n",
        b":+1\r\n",
        b":-1\r\n",
        b":1a\r\n",
        b":18446744073709551616\r\n",
        b":99999999999999999999999\r\n",
        b"$-2\r\n",
        b"$1\r\nab\r\n",
        b"$2\r\nab\rx",
        b"$x\r\n",
        b"*x\r\n",
        b"*1\r\n?",
        b"*2\r\n:1\r\n:x\r\n",
        b"+\xff\r\n",
        b"-\xc3\r\n",
    ] {
        assert!(matches!(decode(bad), Decoded::Invalid), "{:?}", bad);
    }
    for short in [&b""[..], b"+", b"+OK", b"+OK\r", b"$3\r\nab", b"$3\r\nabc\r", b"*2\r\n:1\r\n", b"*1\r\n"] {
        assert!(matches!(decode(short), Decoded::Incomplete), "{:?}", short);
    }
    assert_eq!(find_line_end(b"ab\r\ncd\r\n", 0), Some(2));
    assert_eq!(find_line_end(b"ab\r\ncd\r\n", 3), Some(6));
    assert_eq!(find_line_end(b"ab\r", 0), None);
    assert_eq!(read_decimal(b"0"), Some(0));
    assert_eq!(read_decimal(b"18446744073709551615"), Some(u64::MAX));
    assert_eq!(read_decimal(b"00"), None);
    assert_eq!(read_decimal(b""), None);
    let mut out = Vec::new();
    put_decimal(&mut out, 1203);
    assert_eq!(out, b"1203");
}

#[test]
fn a_session_over_bytes() {
    let mut db = stocked();
    let mut input = Vec::new();
    input.extend(to_bytes(&Frame::Integer(0)));
    input.extend(to_bytes(&command("put", vec![4.0; 16])));
    input.extend(to_bytes(&command("get", vec![-3.0; 16])));
    input.extend(to_bytes(&Frame::Simple("noise".to_string())));
    input.extend(to_bytes(&command("get", vec![3.0; 16])));
    input.extend(to_bytes(&command("get", vec![1.25; 16])));
    input.extend(to_bytes(&Frame::Null));

    let mut session = Handler::new();
    let mut output = Vec::new();
    let mut at = 0;
    let mut counter = 0;
    loop {
        let frame = if at == input.len() {
            None
        } else {
            let (f, used) = read(&input[at..]);
            at += used;
            Some(f)
        };
        match session.on_frame::<Db>(frame) {
            Step::Idle => {},
            Step::Reply(f) => output.extend(to_bytes(&f)),
            Step::Execute(cmd) => {
                output.extend(to_bytes(cmd.execute(counter, &mut db).get_frame()));
                counter += 1;
            },
            Step::ExecuteAll(_, _) => panic!("no batch was sent"),
            Step::Close => break,
        }
    }
    let mut expected = Vec::new();
    expected.extend(b"+OK\r\n");
    expected.extend(to_bytes(&Frame::Bulk(payload(vec![-1.0; 16]))));
    expected.extend(to_bytes(&ProtocolError::ExpectedArrayOrNull.to_frame()));
    expected.extend(to_bytes(&Frame::Bulk(payload(vec![4.0; 16]))));
    expected.extend(to_bytes(&Frame::Bulk(payload(vec![1.0; 16]))));
    assert_eq!(output, expected);
    assert_eq!(at, input.len());
}
