//! A position as bytes, for the log and for resuming a task.
//!
//! A position is written as an array of byte strings, each with its
//! length in front: the kind of backend first, then the fields of that
//! kind. What is written is read back as the same position, whatever
//! bytes its fields hold.

use vstd::prelude::*;
use crate::extractor::redis::redis_cdc_extractor::{command_of, AofStream};
use crate::extractor::redis::redis_resp_reader::{parse_value, read_value, ParseResult, Parsed, MAX_DEPTH};
use crate::extractor::redis::wire_proofs::lemma_read_encoded_cmd;
use crate::meta::position::{Position, PositionView};
use crate::meta::redis::redis_object::RedisCmd;
use crate::sinker::redis::cmd_encoder::{encode_cmd, CmdEncoder};
use crate::util::bytes::lit;
use crate::util::bytes::{bytes_eq, copy_bytes, str_bytes};
use crate::util::decimal::{
    digits_of,
    i64_to_decimal,
    lemma_parse_i64_of_digits,
    lemma_parse_u64_of_digits,
    parse_i64,
    parse_i64_spec,
    parse_u64,
    parse_u64_spec,
    signed_digits_of,
    u64_to_decimal,
};

verus! {

/// The byte strings that a position is written as.
pub open spec fn position_args(p: PositionView) -> Seq<Seq<u8>> {
    match p {
        PositionView::Unset => seq![lit("unset")],
        PositionView::Redis { run_id, repl_offset, now_db_id, timestamp } => seq![
            lit("redis"),
            run_id,
            digits_of(repl_offset as nat),
            signed_digits_of(now_db_id as int),
            timestamp,
        ],
    }
}

/// The position that the byte strings `args` write, if they write one.
pub open spec fn position_of_args(args: Seq<Seq<u8>>) -> Option<PositionView> {
    if args.len() == 1 && args[0] == lit("unset") {
        Some(PositionView::Unset)
    } else if args.len() == 5 && args[0] == lit("redis") {
        match (parse_u64_spec(args[2]), parse_i64_spec(args[3])) {
            (Some(repl_offset), Some(now_db_id)) => Some(
                PositionView::Redis { run_id: args[1], repl_offset, now_db_id, timestamp: args[4] },
            ),
            _ => None,
        }
    } else {
        None
    }
}

/// A position as bytes.
pub open spec fn encoded(p: PositionView) -> Seq<u8> {
    encode_cmd(position_args(p))
}

/// The position that the bytes `s` write, if they write one and nothing
/// else.
pub open spec fn decoded(s: Seq<u8>) -> Option<PositionView> {
    match parse_value(s, MAX_DEPTH as nat) {
        Parsed::Done { value, len } => if len == s.len() {
            match command_of(value) {
                Ok(args) => position_of_args(args),
                Err(_) => None,
            }
        } else {
            None
        },
        _ => None,
    }
}

pub struct PositionCodec {}

impl PositionCodec {
    /// The position as bytes.
    pub fn encode(position: &Position) -> (bytes: Vec<u8>)
        ensures
            bytes@ == encoded(position@),
    {
        let mut cmd = RedisCmd::new();
        match position {
            Position::Unset => {
                cmd.add_str_arg("unset");
            },
            Position::Redis { run_id, repl_offset, now_db_id, timestamp } => {
                cmd.add_str_arg("redis");
                cmd.add_bytes_arg(run_id.as_slice());
                cmd.add_arg(u64_to_decimal(*repl_offset));
                cmd.add_arg(i64_to_decimal(*now_db_id));
                cmd.add_bytes_arg(timestamp.as_slice());
            },
        }
        proof {
            assert(cmd@ =~= position_args(position@));
        }
        CmdEncoder::encode(&cmd)
    }

    /// The position that the bytes write, `None` where they write none
    /// or hold more than one.
    pub fn decode(bytes: &[u8]) -> (r: Option<Position>)
        ensures
            match r {
                Some(p) => decoded(bytes@) == Some(p@),
                None => decoded(bytes@) is None,
            },
    {
        let cmd = match read_value(bytes) {
            ParseResult::Done { value, len } => {
                if len != bytes.len() {
                    return None;
                }
                match AofStream::handle_redis_value(value) {
                    Ok(cmd) => cmd,
                    Err(_) => {
                        return None;
                    },
                }
            },
            _ => {
                return None;
            },
        };
        let ghost args = cmd@;
        let unset = str_bytes("unset");
        let redis = str_bytes("redis");
        if cmd.len() == 1 && bytes_eq(cmd.args[0].as_slice(), unset.as_slice()) {
            return Some(Position::Unset);
        }
        if cmd.len() == 5 && bytes_eq(cmd.args[0].as_slice(), redis.as_slice()) {
            let offset = parse_u64(cmd.args[2].as_slice());
            let db = parse_i64(cmd.args[3].as_slice());
            match (offset, db) {
                (Some(repl_offset), Some(now_db_id)) => {
                    return Some(
                        Position::Redis {
                            run_id: copy_bytes(cmd.args[1].as_slice()),
                            repl_offset,
                            now_db_id,
                            timestamp: copy_bytes(cmd.args[4].as_slice()),
                        },
                    );
                },
                _ => {
                    return None;
                },
            }
        }
        None
    }
}

/// What is written is read back: the bytes of a position are read as
/// that position.
pub proof fn lemma_position_round_trip(p: PositionView)
    requires
        p matches PositionView::Redis { run_id, timestamp, .. } ==> run_id.len() <= i64::MAX
            && timestamp.len() <= i64::MAX,
    ensures
        decoded(encoded(p)) == Some(p),
{
    let args = position_args(p);
    reveal_strlit("unset");
    reveal_strlit("redis");
    match p {
        PositionView::Unset => {
            vstd::utf8::is_ascii_chars_encode_utf8("unset"@);
            assert(args[0].len() == 5);
        },
        PositionView::Redis { run_id, repl_offset, now_db_id, timestamp } => {
            vstd::utf8::is_ascii_chars_encode_utf8("redis"@);
            vstd::utf8::is_ascii_chars_encode_utf8("unset"@);
            assert(args[0].len() == 5);
            crate::util::decimal::lemma_pow10_bounds();
            crate::util::decimal::lemma_digits_len(repl_offset as nat, 20);
            crate::util::decimal::lemma_signed_digits_len(now_db_id as int, 20);
            lemma_parse_u64_of_digits(repl_offset);
            lemma_parse_i64_of_digits(now_db_id);
            assert(lit("redis") != lit("unset")) by {
                assert(lit("redis")[0] == 114u8);
                assert(lit("unset")[0] == 117u8);
            }
        },
    }
    assert forall|i: int| 0 <= i < args.len() implies (#[trigger] args[i]).len() <= i64::MAX by {}
    lemma_read_encoded_cmd(args, Seq::empty(), MAX_DEPTH as nat);
    assert(encode_cmd(args) + Seq::<u8>::empty() =~= encode_cmd(args));
}

} // verus!
