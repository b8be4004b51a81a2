//! Commands on the wire: an array of byte strings, each with its length
//! in front.

use vstd::prelude::*;
use crate::meta::redis::redis_object::RedisCmd;
use crate::util::bytes::push_bytes;
use crate::util::decimal::{digits_of, u64_to_decimal};

verus! {

/// The end of a line.
pub open spec fn crlf() -> Seq<u8> {
    seq![13u8, 10u8]
}

/// A byte string on the wire: `$`, its length, the end of a line, its
/// bytes, the end of a line.
pub open spec fn encode_bulk(arg: Seq<u8>) -> Seq<u8> {
    seq![36u8] + digits_of(arg.len()) + crlf() + arg + crlf()
}

/// The byte strings of `args` on the wire, one after the other.
pub open spec fn encode_bulks(args: Seq<Seq<u8>>) -> Seq<u8>
    decreases args.len(),
{
    if args.len() == 0 {
        Seq::empty()
    } else {
        encode_bulks(args.drop_last()) + encode_bulk(args.last())
    }
}

/// A command on the wire: `*`, the number of its arguments, the end of a
/// line, then each argument as a byte string.
pub open spec fn encode_cmd(args: Seq<Seq<u8>>) -> Seq<u8> {
    seq![42u8] + digits_of(args.len()) + crlf() + encode_bulks(args)
}

/// The commands of `cmds` on the wire, one after the other.
pub open spec fn encode_cmds(cmds: Seq<Seq<Seq<u8>>>) -> Seq<u8>
    decreases cmds.len(),
{
    if cmds.len() == 0 {
        Seq::empty()
    } else {
        encode_cmds(cmds.drop_last()) + encode_cmd(cmds.last())
    }
}

/// The commands of `cmds`, each as its arguments.
pub open spec fn cmd_views(cmds: Seq<RedisCmd>) -> Seq<Seq<Seq<u8>>> {
    Seq::new(cmds.len(), |i: int| cmds[i]@)
}

/// Commands ready to be sent as one pipelined request.
#[derive(Debug, Clone)]
pub struct PackedCmds {
    /// The commands on the wire, one after the other.
    pub bytes: Vec<u8>,
    /// The number of replies that the destination owes: one for each
    /// command.
    pub replies: usize,
}

pub struct CmdEncoder {}

impl CmdEncoder {
    /// The command on the wire.
    pub fn encode(cmd: &RedisCmd) -> (buf: Vec<u8>)
        ensures
            buf@ == encode_cmd(cmd@),
    {
        let mut buf: Vec<u8> = Vec::new();
        CmdEncoder::encode_into(&mut buf, cmd);
        proof {
            assert(Seq::<u8>::empty() + encode_cmd(cmd@) =~= encode_cmd(cmd@));
        }
        buf
    }

    /// Appends the command on the wire to `buf`.
    pub fn encode_into(buf: &mut Vec<u8>, cmd: &RedisCmd)
        ensures
            final(buf)@ == old(buf)@ + encode_cmd(cmd@),
    {
        let ghost start = buf@;
        buf.push(42u8);
        let count = u64_to_decimal(cmd.args.len() as u64);
        push_bytes(buf, count.as_slice());
        buf.push(13u8);
        buf.push(10u8);
        let ghost head = seq![42u8] + digits_of(cmd@.len()) + crlf();
        proof {
            assert(buf@ =~= start + head);
        }
        let mut i: usize = 0;
        while i < cmd.args.len()
            invariant
                i <= cmd.args@.len(),
                cmd@.len() == cmd.args@.len(),
                buf@ == start + head + encode_bulks(cmd@.take(i as int)),
            decreases cmd.args@.len() - i,
        {
            let ghost before = buf@;
            let arg = &cmd.args[i];
            buf.push(36u8);
            let len = u64_to_decimal(arg.len() as u64);
            push_bytes(buf, len.as_slice());
            buf.push(13u8);
            buf.push(10u8);
            push_bytes(buf, arg.as_slice());
            buf.push(13u8);
            buf.push(10u8);
            i = i + 1;
            proof {
                let t = cmd@.take(i as int);
                assert(t.drop_last() =~= cmd@.take(i - 1));
                assert(t.last() == arg@);
                assert(buf@ =~= before + encode_bulk(arg@));
                assert(buf@ =~= start + head + encode_bulks(t));
            }
        }
        proof {
            assert(cmd@.take(i as int) =~= cmd@);
            assert(buf@ =~= start + encode_cmd(cmd@));
        }
    }

    /// The commands on the wire, one after the other, with the number of
    /// replies to expect.
    pub fn pack(cmds: &Vec<RedisCmd>) -> (packed: PackedCmds)
        ensures
            packed.bytes@ == encode_cmds(cmd_views(cmds@)),
            packed.replies == cmds@.len(),
    {
        let mut bytes: Vec<u8> = Vec::new();
        let mut i: usize = 0;
        while i < cmds.len()
            invariant
                i <= cmds@.len(),
                bytes@ == encode_cmds(cmd_views(cmds@).take(i as int)),
            decreases cmds@.len() - i,
        {
            CmdEncoder::encode_into(&mut bytes, &cmds[i]);
            i = i + 1;
            proof {
                let t = cmd_views(cmds@).take(i as int);
                assert(t.drop_last() =~= cmd_views(cmds@).take(i - 1));
                assert(t.last() == cmds@[i - 1]@);
            }
        }
        proof {
            assert(cmd_views(cmds@).take(i as int) =~= cmd_views(cmds@));
        }
        PackedCmds { bytes, replies: cmds.len() }
    }
}

} // verus!
