use ape_dts::meta::position::Position;
use ape_dts::meta::position_codec::PositionCodec;
use ape_dts::pipeline::{BasePipeline, CloseAction, CloseStage};

fn same(a: &Position, b: &Position) -> bool {
    match (a, b) {
        (Position::Unset, Position::Unset) => true,
        (
            Position::Redis { run_id: r1, repl_offset: o1, now_db_id: d1, timestamp: t1 },
            Position::Redis { run_id: r2, repl_offset: o2, now_db_id: d2, timestamp: t2 },
        ) => r1 == r2 && o1 == o2 && d1 == d2 && t1 == t2,
        _ => false,
    }
}

#[test]
fn positions_are_written_as_arrays() {
    assert_eq!(PositionCodec::encode(&Position::Unset), b"*1\r\n$5\r\nunset\r\n".to_vec());
    let p = Position::Redis {
        run_id: b"abc".to_vec(),
        repl_offset: 1234,
        now_db_id: -1,
        timestamp: b"00000001698499200000".to_vec(),
    };
    assert_eq!(
        PositionCodec::encode(&p),
        b"*5\r\n$5\r\nredis\r\n$3\r\nabc\r\n$4\r\n1234\r\n$2\r\n-1\r\n$20\r\n00000001698499200000\r\n".to_vec()
    );
}

#[test]
fn a_position_written_is_read_back() {
    let positions = vec![
        Position::Unset,
        Position::Redis { run_id: Vec::new(), repl_offset: 0, now_db_id: 0, timestamp: Vec::new() },
        Position::Redis { run_id: b"run".to_vec(), repl_offset: u64::MAX, now_db_id: i64::MIN, timestamp: b"t".to_vec() },
        Position::Redis {
            run_id: vec![0, 13, 10, 255, b'*', b'$'],
            repl_offset: 42,
            now_db_id: i64::MAX,
            timestamp: vec![13, 10],
        },
    ];
    for p in &positions {
        let bytes = PositionCodec::encode(p);
        let back = PositionCodec::decode(&bytes).unwrap();
        assert!(same(p, &back), "{:?} came back as {:?}", p, back);
        assert_eq!(PositionCodec::encode(&back), bytes);
    }
}

#[test]
fn what_is_no_position_is_not_read() {
    for bytes in [
        &b""[..],
        b"*1\r\n$5\r\nunset\r\n ",
        b"*1\r\n$5\r\nUNSET\r\n",
        b"*2\r\n$5\r\nunset\r\n$1\r\nx\r\n",
        b"*5\r\n$5\r\nredis\r\n$3\r\nabc\r\n$1\r\nx\r\n$1\r\n0\r\n$0\r\n\r\n",
        b"*5\r\n$5\r\nredis\r\n$3\r\nabc\r\n$2\r\n-1\r\n$1\r\n0\r\n$0\r\n\r\n",
        b"*5\r\n$5\r\nredis\r\n$3\r\nabc\r\n$1\r\n1\r\n$1\r\nx\r\n$0\r\n\r\n",
        b"*4\r\n$5\r\nredis\r\n$3\r\nabc\r\n$1\r\n1\r\n$1\r\n0\r\n",
        b"*5\r\n$5\r\nmysql\r\n$3\r\nabc\r\n$1\r\n1\r\n$1\r\n0\r\n$0\r\n\r\n",
        b"+unset\r\n",
        b"*1\r\n$5\r\nunse",
    ] {
        assert!(PositionCodec::decode(bytes).is_none(), "{:?}", String::from_utf8_lossy(bytes));
    }
}

#[test]
fn closing_goes_extractor_buffer_destination() {
    let mut stage = CloseStage::Running;
    assert_eq!(BasePipeline::close(&mut stage, false), CloseAction::CloseExtractor);
    assert_eq!(stage, CloseStage::Draining);
    assert_eq!(BasePipeline::close(&mut stage, false), CloseAction::Drain);
    assert_eq!(BasePipeline::close(&mut stage, false), CloseAction::Drain);
    assert_eq!(stage, CloseStage::Draining);
    assert_eq!(BasePipeline::close(&mut stage, true), CloseAction::CloseDestination);
    assert_eq!(stage, CloseStage::Closed);
    assert_eq!(BasePipeline::close(&mut stage, true), CloseAction::Nothing);
    assert_eq!(BasePipeline::close(&mut stage, false), CloseAction::Nothing);
    assert_eq!(stage, CloseStage::Closed);
    let mut stage = CloseStage::Running;
    assert_eq!(BasePipeline::close(&mut stage, true), CloseAction::CloseExtractor);
    assert_eq!(BasePipeline::close(&mut stage, true), CloseAction::CloseDestination);
}
