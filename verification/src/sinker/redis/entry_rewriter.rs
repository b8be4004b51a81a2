//! Turning a snapshot entry into commands that rebuild it.

use vstd::prelude::*;
use crate::meta::redis::redis_entry::RedisEntry;
use crate::meta::redis::redis_object::{
    HashField,
    HashObject,
    ListObject,
    RedisCmd,
    SetObject,
    StringObject,
    ZSetEntry,
    ZsetObject,
};
use crate::sinker::redis::cmd_encoder::cmd_views;
use crate::util::bytes::{lit, push_bytes};
use crate::util::crc64::{crc64, crc64_spec, le_bytes, push_u64_le};
use crate::util::decimal::{i64_to_decimal, signed_digits_of};

verus! {

/// The version of the snapshot format that a serialized value is marked
/// with: old enough for every destination to accept.
pub const DUMP_VERSION: u8 = 6;

/// The version of the destination server.
#[derive(Debug, Clone, Copy, PartialEq, Eq, Structural)]
pub struct RedisVersion {
    pub major: u32,
    pub minor: u32,
}

impl RedisVersion {
    /// Whether the version is `major.minor` or later.
    pub open spec fn spec_at_least(self, major: u32, minor: u32) -> bool {
        self.major > major || (self.major == major && self.minor >= minor)
    }

    /// Whether the version is `major.minor` or later.
    pub fn at_least(&self, major: u32, minor: u32) -> (r: bool)
        ensures
            r == self.spec_at_least(major, minor),
    {
        self.major > major || (self.major == major && self.minor >= minor)
    }
}

/// The byte strings of `items`.
pub open spec fn byte_views(items: Seq<Vec<u8>>) -> Seq<Seq<u8>> {
    Seq::new(items.len(), |i: int| items[i]@)
}

/// The fields of a hash as arguments: each field, then its value.
pub open spec fn hash_args(fields: Seq<HashField>) -> Seq<Seq<u8>>
    decreases fields.len(),
{
    if fields.len() == 0 {
        Seq::empty()
    } else {
        hash_args(fields.drop_last()).push(fields.last().field@).push(fields.last().value@)
    }
}

/// The members of a sorted set as arguments: each score, then its member.
pub open spec fn zset_args(elements: Seq<ZSetEntry>) -> Seq<Seq<u8>>
    decreases elements.len(),
{
    if elements.len() == 0 {
        Seq::empty()
    } else {
        zset_args(elements.drop_last()).push(elements.last().score@).push(elements.last().member@)
    }
}

/// A string is set.
pub open spec fn string_cmds(obj: StringObject) -> Seq<Seq<Seq<u8>>> {
    seq![seq![lit("set"), obj.key@, obj.value@]]
}

/// A list is dropped and pushed anew, so that a second delivery leaves
/// it as the first did. An empty list gives no command.
pub open spec fn list_cmds(obj: ListObject) -> Seq<Seq<Seq<u8>>> {
    if obj.elements@.len() == 0 {
        Seq::empty()
    } else {
        seq![
            seq![lit("del"), obj.key@],
            seq![lit("rpush"), obj.key@] + byte_views(obj.elements@),
        ]
    }
}

/// The members of a set are added in one command. An empty set gives no
/// command.
pub open spec fn set_cmds(obj: SetObject) -> Seq<Seq<Seq<u8>>> {
    if obj.elements@.len() == 0 {
        Seq::empty()
    } else {
        seq![seq![lit("sadd"), obj.key@] + byte_views(obj.elements@)]
    }
}

/// The fields of a hash are set in one command. An empty hash gives no
/// command.
pub open spec fn hash_cmds(obj: HashObject) -> Seq<Seq<Seq<u8>>> {
    if obj.fields@.len() == 0 {
        Seq::empty()
    } else {
        seq![seq![lit("hset"), obj.key@] + hash_args(obj.fields@)]
    }
}

/// The members of a sorted set are added in one command. An empty sorted
/// set gives no command.
pub open spec fn zset_cmds(obj: ZsetObject) -> Seq<Seq<Seq<u8>>> {
    if obj.elements@.len() == 0 {
        Seq::empty()
    } else {
        seq![seq![lit("zadd"), obj.key@] + zset_args(obj.elements@)]
    }
}

/// The command that sets when the key of `entry` expires, where it does.
pub open spec fn expire_cmd(entry: RedisEntry) -> Option<Seq<Seq<u8>>> {
    if entry.expire_ms > 0 {
        Some(seq![lit("pexpireat"), entry.key@, signed_digits_of(entry.expire_ms as int)])
    } else {
        None
    }
}

/// A serialized value as `RESTORE` takes it: the type byte, the value as
/// the snapshot held it, the format version in two bytes, and the checksum
/// of all that in eight bytes, lowest first.
pub open spec fn value_dump(type_byte: u8, raw: Seq<u8>) -> Seq<u8> {
    let body = seq![type_byte] + raw + seq![DUMP_VERSION, 0u8];
    body + le_bytes(crc64_spec(0, body))
}

/// The time to live that `RESTORE` is given: the expiry of the entry, or
/// zero where it has none.
pub open spec fn restore_ttl(entry: RedisEntry) -> int {
    if entry.expire_ms > 0 {
        entry.expire_ms as int
    } else {
        0
    }
}

/// The command that restores `entry` from its serialized form. From
/// version 3.0 on the destination is told to replace a key that exists;
/// from version 5.0 on an expiry is marked as a point in time.
pub open spec fn restore_cmd(entry: RedisEntry, version: RedisVersion) -> Seq<Seq<u8>> {
    seq![
        lit("restore"),
        entry.key@,
        signed_digits_of(restore_ttl(entry)),
        value_dump(entry.value_type_byte, entry.raw_bytes@),
    ] + (if version.spec_at_least(3, 0) {
        seq![lit("replace")]
    } else {
        Seq::empty()
    }) + (if version.spec_at_least(5, 0) && entry.expire_ms > 0 {
        seq![lit("absttl")]
    } else {
        Seq::empty()
    })
}

/// The arguments of a run of commands with one more are the arguments of
/// the run with those of the one more.
pub proof fn lemma_cmd_views_push(cmds: Seq<RedisCmd>, cmd: RedisCmd)
    ensures
        cmd_views(cmds.push(cmd)) == cmd_views(cmds).push(cmd@),
{
    assert(cmd_views(cmds.push(cmd)) =~= cmd_views(cmds).push(cmd@));
}

/// The arguments of two runs of commands joined are the arguments of the
/// first, then those of the second.
pub proof fn lemma_cmd_views_concat(a: Seq<RedisCmd>, b: Seq<RedisCmd>)
    ensures
        cmd_views(a + b) == cmd_views(a) + cmd_views(b),
{
    assert(cmd_views(a + b) =~= cmd_views(a) + cmd_views(b));
}

/// Appends copies of `items` to the arguments of `cmd`.
fn add_all(cmd: &mut RedisCmd, items: &Vec<Vec<u8>>)
    ensures
        final(cmd)@ == old(cmd)@ + byte_views(items@),
{
    let mut i: usize = 0;
    while i < items.len()
        invariant
            i <= items@.len(),
            cmd@ == old(cmd)@ + byte_views(items@).take(i as int),
        decreases items@.len() - i,
    {
        cmd.add_bytes_arg(items[i].as_slice());
        i = i + 1;
        proof {
            assert(cmd@ =~= old(cmd)@ + byte_views(items@).take(i as int));
        }
    }
    proof {
        assert(byte_views(items@).take(i as int) =~= byte_views(items@));
    }
}

/// A command of one word and one key.
fn keyed(word: &str, key: &Vec<u8>) -> (cmd: RedisCmd)
    ensures
        cmd@ == seq![lit(word), key@],
{
    let mut cmd = RedisCmd::new();
    cmd.add_str_arg(word);
    cmd.add_bytes_arg(key.as_slice());
    proof {
        assert(cmd@ =~= seq![lit(word), key@]);
    }
    cmd
}

pub struct EntryRewriter {}

impl EntryRewriter {
    /// The commands that rebuild a string.
    pub fn rewrite_string(obj: &StringObject) -> (cmds: Vec<RedisCmd>)
        ensures
            cmd_views(cmds@) == string_cmds(*obj),
    {
        let mut cmd = keyed("set", &obj.key);
        cmd.add_bytes_arg(obj.value.as_slice());
        let cmds: Vec<RedisCmd> = vec![cmd];
        proof {
            assert(cmd@ =~= seq![lit("set"), obj.key@, obj.value@]);
            assert(cmd_views(cmds@) =~= string_cmds(*obj));
        }
        cmds
    }

    /// The commands that rebuild a list.
    pub fn rewrite_list(obj: &ListObject) -> (cmds: Vec<RedisCmd>)
        ensures
            cmd_views(cmds@) == list_cmds(*obj),
    {
        if obj.elements.len() == 0 {
            let cmds: Vec<RedisCmd> = Vec::new();
            proof {
                assert(cmd_views(cmds@) =~= list_cmds(*obj));
            }
            return cmds;
        }
        let del = keyed("del", &obj.key);
        let mut push = keyed("rpush", &obj.key);
        add_all(&mut push, &obj.elements);
        let cmds: Vec<RedisCmd> = vec![del, push];
        proof {
            assert(cmd_views(cmds@) =~= list_cmds(*obj));
        }
        cmds
    }

    /// The commands that rebuild a set.
    pub fn rewrite_set(obj: &SetObject) -> (cmds: Vec<RedisCmd>)
        ensures
            cmd_views(cmds@) == set_cmds(*obj),
    {
        if obj.elements.len() == 0 {
            let cmds: Vec<RedisCmd> = Vec::new();
            proof {
                assert(cmd_views(cmds@) =~= set_cmds(*obj));
            }
            return cmds;
        }
        let mut cmd = keyed("sadd", &obj.key);
        add_all(&mut cmd, &obj.elements);
        let cmds: Vec<RedisCmd> = vec![cmd];
        proof {
            assert(cmd_views(cmds@) =~= set_cmds(*obj));
        }
        cmds
    }

    /// The commands that rebuild a hash.
    pub fn rewrite_hash(obj: &HashObject) -> (cmds: Vec<RedisCmd>)
        ensures
            cmd_views(cmds@) == hash_cmds(*obj),
    {
        if obj.fields.len() == 0 {
            let cmds: Vec<RedisCmd> = Vec::new();
            proof {
                assert(cmd_views(cmds@) =~= hash_cmds(*obj));
            }
            return cmds;
        }
        let mut cmd = keyed("hset", &obj.key);
        let ghost head = cmd@;
        let mut i: usize = 0;
        while i < obj.fields.len()
            invariant
                i <= obj.fields@.len(),
                cmd@ == head + hash_args(obj.fields@.take(i as int)),
            decreases obj.fields@.len() - i,
        {
            cmd.add_bytes_arg(obj.fields[i].field.as_slice());
            cmd.add_bytes_arg(obj.fields[i].value.as_slice());
            i = i + 1;
            proof {
                let t = obj.fields@.take(i as int);
                assert(t.drop_last() =~= obj.fields@.take(i - 1));
                assert(t.last() == obj.fields@[i - 1]);
                assert(cmd@ =~= head + hash_args(t));
            }
        }
        proof {
            assert(obj.fields@.take(i as int) =~= obj.fields@);
        }
        let cmds: Vec<RedisCmd> = vec![cmd];
        proof {
            assert(cmd_views(cmds@) =~= hash_cmds(*obj));
        }
        cmds
    }

    /// The commands that rebuild a sorted set.
    pub fn rewrite_zset(obj: &ZsetObject) -> (cmds: Vec<RedisCmd>)
        ensures
            cmd_views(cmds@) == zset_cmds(*obj),
    {
        if obj.elements.len() == 0 {
            let cmds: Vec<RedisCmd> = Vec::new();
            proof {
                assert(cmd_views(cmds@) =~= zset_cmds(*obj));
            }
            return cmds;
        }
        let mut cmd = keyed("zadd", &obj.key);
        let ghost head = cmd@;
        let mut i: usize = 0;
        while i < obj.elements.len()
            invariant
                i <= obj.elements@.len(),
                cmd@ == head + zset_args(obj.elements@.take(i as int)),
            decreases obj.elements@.len() - i,
        {
            cmd.add_bytes_arg(obj.elements[i].score.as_slice());
            cmd.add_bytes_arg(obj.elements[i].member.as_slice());
            i = i + 1;
            proof {
                let t = obj.elements@.take(i as int);
                assert(t.drop_last() =~= obj.elements@.take(i - 1));
                assert(t.last() == obj.elements@[i - 1]);
                assert(cmd@ =~= head + zset_args(t));
            }
        }
        proof {
            assert(obj.elements@.take(i as int) =~= obj.elements@);
        }
        let cmds: Vec<RedisCmd> = vec![cmd];
        proof {
            assert(cmd_views(cmds@) =~= zset_cmds(*obj));
        }
        cmds
    }

    /// The command that sets when the key of `entry` expires, where it
    /// does.
    pub fn rewrite_expire(entry: &RedisEntry) -> (cmd: Option<RedisCmd>)
        ensures
            match cmd {
                Some(c) => expire_cmd(*entry) == Some(c@),
                None => expire_cmd(*entry) is None,
            },
    {
        if entry.expire_ms > 0 {
            let mut cmd = keyed("pexpireat", &entry.key);
            cmd.add_arg(i64_to_decimal(entry.expire_ms));
            proof {
                assert(cmd@ =~= expire_cmd(*entry)->0);
            }
            Some(cmd)
        } else {
            None
        }
    }

    /// A serialized value as `RESTORE` takes it.
    pub fn create_value_dump(type_byte: u8, raw: &[u8]) -> (dump: Vec<u8>)
        ensures
            dump@ == value_dump(type_byte, raw@),
    {
        let mut dump: Vec<u8> = Vec::new();
        dump.push(type_byte);
        push_bytes(&mut dump, raw);
        dump.push(DUMP_VERSION);
        dump.push(0u8);
        proof {
            assert(dump@ =~= seq![type_byte] + raw@ + seq![DUMP_VERSION, 0u8]);
        }
        let sum = crc64(0, dump.as_slice());
        push_u64_le(&mut dump, sum);
        dump
    }

    /// The command that restores `entry` from its serialized form.
    pub fn rewrite_as_restore(entry: &RedisEntry, version: RedisVersion) -> (cmd: RedisCmd)
        ensures
            cmd@ == restore_cmd(*entry, version),
    {
        let mut cmd = keyed("restore", &entry.key);
        let ttl: i64 = if entry.expire_ms > 0 {
            entry.expire_ms
        } else {
            0
        };
        cmd.add_arg(i64_to_decimal(ttl));
        cmd.add_arg(EntryRewriter::create_value_dump(entry.value_type_byte, entry.raw_bytes.as_slice()));
        if version.at_least(3, 0) {
            cmd.add_str_arg("replace");
        }
        if version.at_least(5, 0) && entry.expire_ms > 0 {
            cmd.add_str_arg("absttl");
        }
        proof {
            assert(cmd@ =~= restore_cmd(*entry, version));
        }
        cmd
    }
}

} // verus!
