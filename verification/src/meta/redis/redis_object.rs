//! A command on the wire and the objects that a snapshot holds.

use vstd::prelude::*;
use crate::util::bytes::{copy_bytes, str_bytes, text_bytes};

verus! {

/// A command: its name and its arguments, each a byte string, in order.
/// Arguments that the pipeline does not understand are kept as they came.
#[derive(Debug, Clone)]
pub struct RedisCmd {
    pub args: Vec<Vec<u8>>,
}

impl View for RedisCmd {
    type V = Seq<Seq<u8>>;

    open spec fn view(&self) -> Seq<Seq<u8>> {
        Seq::new(self.args@.len(), |i: int| self.args@[i]@)
    }
}

/// The byte strings that `texts` are stored as.
pub open spec fn texts_bytes(texts: Seq<&str>) -> Seq<Seq<u8>> {
    Seq::new(texts.len(), |i: int| text_bytes(texts[i]@))
}

impl RedisCmd {
    /// The argument at `idx` as it is, the empty byte string where the
    /// command has none there.
    pub open spec fn spec_arg(&self, idx: int) -> Seq<u8> {
        if 0 <= idx < self@.len() {
            self@[idx]
        } else {
            Seq::empty()
        }
    }

    /// A command without arguments.
    pub fn new() -> (cmd: RedisCmd)
        ensures
            cmd@ == Seq::<Seq<u8>>::empty(),
    {
        let cmd = RedisCmd { args: Vec::new() };
        proof {
            assert(cmd@ =~= Seq::<Seq<u8>>::empty());
        }
        cmd
    }

    /// The command made of `args`.
    pub fn from_args(args: Vec<Vec<u8>>) -> (cmd: RedisCmd)
        ensures
            cmd.args == args,
    {
        RedisCmd { args }
    }

    /// The command made of the texts `args`.
    pub fn from_str_args(args: &[&str]) -> (cmd: RedisCmd)
        ensures
            cmd@ == texts_bytes(args@),
    {
        let mut cmd = RedisCmd::new();
        let mut i: usize = 0;
        while i < args.len()
            invariant
                i <= args.len(),
                cmd@ == texts_bytes(args@).take(i as int),
            decreases args.len() - i,
        {
            cmd.add_str_arg(args[i]);
            i = i + 1;
            proof {
                assert(cmd@ =~= texts_bytes(args@).take(i as int));
            }
        }
        proof {
            assert(texts_bytes(args@).take(i as int) =~= texts_bytes(args@));
        }
        cmd
    }

    /// Appends an argument.
    pub fn add_arg(&mut self, arg: Vec<u8>)
        ensures
            final(self)@ == old(self)@.push(arg@),
    {
        self.args.push(arg);
        proof {
            assert(self@ =~= old(self)@.push(arg@));
        }
    }

    /// Appends a text as an argument.
    pub fn add_str_arg(&mut self, arg: &str)
        ensures
            final(self)@ == old(self)@.push(text_bytes(arg@)),
    {
        let bytes = str_bytes(arg);
        self.add_arg(bytes);
    }

    /// Appends a copy of `arg` as an argument.
    pub fn add_bytes_arg(&mut self, arg: &[u8])
        ensures
            final(self)@ == old(self)@.push(arg@),
    {
        let bytes = copy_bytes(arg);
        self.add_arg(bytes);
    }

    /// The number of arguments, the name counted.
    pub fn len(&self) -> (n: usize)
        ensures
            n == self@.len(),
    {
        self.args.len()
    }

    /// The name of the command: its first argument, empty where it has
    /// none.
    pub fn get_name(&self) -> (name: Vec<u8>)
        ensures
            name@ == self.spec_arg(0),
    {
        self.get_arg(0)
    }

    /// A copy of the argument at `idx`, empty where the command has none
    /// there.
    pub fn get_arg(&self, idx: usize) -> (arg: Vec<u8>)
        ensures
            arg@ == self.spec_arg(idx as int),
    {
        if idx < self.args.len() {
            copy_bytes(self.args[idx].as_slice())
        } else {
            Vec::new()
        }
    }

    /// A copy of the command.
    pub fn duplicate(&self) -> (cmd: RedisCmd)
        ensures
            cmd@ == self@,
    {
        let mut cmd = RedisCmd::new();
        let mut i: usize = 0;
        while i < self.args.len()
            invariant
                i <= self.args@.len(),
                cmd@ == self@.take(i as int),
            decreases self.args@.len() - i,
        {
            cmd.add_bytes_arg(self.args[i].as_slice());
            i = i + 1;
            proof {
                assert(cmd@ =~= self@.take(i as int));
            }
        }
        proof {
            assert(self@.take(i as int) =~= self@);
        }
        cmd
    }
}

/// A string value.
#[derive(Debug, Clone)]
pub struct StringObject {
    pub key: Vec<u8>,
    pub value: Vec<u8>,
}

/// A list and its elements, head first.
#[derive(Debug, Clone)]
pub struct ListObject {
    pub key: Vec<u8>,
    pub elements: Vec<Vec<u8>>,
}

/// A set and its members.
#[derive(Debug, Clone)]
pub struct SetObject {
    pub key: Vec<u8>,
    pub elements: Vec<Vec<u8>>,
}

/// A field of a hash and its value.
#[derive(Debug, Clone)]
pub struct HashField {
    pub field: Vec<u8>,
    pub value: Vec<u8>,
}

/// A hash and its fields.
#[derive(Debug, Clone)]
pub struct HashObject {
    pub key: Vec<u8>,
    pub fields: Vec<HashField>,
}

/// A member of a sorted set and its score, as the text that the source
/// writes it in.
#[derive(Debug, Clone)]
pub struct ZSetEntry {
    pub member: Vec<u8>,
    pub score: Vec<u8>,
}

/// A sorted set and its members.
#[derive(Debug, Clone)]
pub struct ZsetObject {
    pub key: Vec<u8>,
    pub elements: Vec<ZSetEntry>,
}

/// A stream, held as the commands that append its entries and rebuild
/// its groups.
#[derive(Debug, Clone)]
pub struct StreamObject {
    pub key: Vec<u8>,
    pub cmds: Vec<RedisCmd>,
}

/// An object of a module: only its serialized form is known.
#[derive(Debug, Clone)]
pub struct ModuleObject {
    pub key: Vec<u8>,
}

/// The byte strings of `items`.
pub open spec fn bytes_of(items: Seq<Vec<u8>>) -> Seq<Seq<u8>> {
    Seq::new(items.len(), |i: int| items[i]@)
}

/// The fields of a hash, each with its value.
pub open spec fn field_views(fields: Seq<HashField>) -> Seq<(Seq<u8>, Seq<u8>)> {
    Seq::new(fields.len(), |i: int| (fields[i].field@, fields[i].value@))
}

/// The members of a sorted set, each with its score.
pub open spec fn scored_views(elements: Seq<ZSetEntry>) -> Seq<(Seq<u8>, Seq<u8>)> {
    Seq::new(elements.len(), |i: int| (elements[i].member@, elements[i].score@))
}

/// The commands of `cmds`, each as its arguments.
pub open spec fn cmds_of(cmds: Seq<RedisCmd>) -> Seq<Seq<Seq<u8>>> {
    Seq::new(cmds.len(), |i: int| cmds[i]@)
}

/// An object, as the contracts speak of it.
pub enum ObjectView {
    String { key: Seq<u8>, value: Seq<u8> },
    List { key: Seq<u8>, elements: Seq<Seq<u8>> },
    SetObj { key: Seq<u8>, elements: Seq<Seq<u8>> },
    Hash { key: Seq<u8>, fields: Seq<(Seq<u8>, Seq<u8>)> },
    Zset { key: Seq<u8>, elements: Seq<(Seq<u8>, Seq<u8>)> },
    Stream { key: Seq<u8>, cmds: Seq<Seq<Seq<u8>>> },
    Module { key: Seq<u8> },
    Unknown,
}

impl View for RedisObject {
    type V = ObjectView;

    open spec fn view(&self) -> ObjectView {
        match self {
            RedisObject::String(o) => ObjectView::String { key: o.key@, value: o.value@ },
            RedisObject::List(o) => ObjectView::List { key: o.key@, elements: bytes_of(o.elements@) },
            RedisObject::SetObj(o) => ObjectView::SetObj {
                key: o.key@,
                elements: bytes_of(o.elements@),
            },
            RedisObject::Hash(o) => ObjectView::Hash { key: o.key@, fields: field_views(o.fields@) },
            RedisObject::Zset(o) => ObjectView::Zset {
                key: o.key@,
                elements: scored_views(o.elements@),
            },
            RedisObject::Stream(o) => ObjectView::Stream { key: o.key@, cmds: cmds_of(o.cmds@) },
            RedisObject::Module(o) => ObjectView::Module { key: o.key@ },
            RedisObject::Unknown => ObjectView::Unknown,
        }
    }
}

/// An object decoded from a snapshot.
#[derive(Debug, Clone)]
pub enum RedisObject {
    String(StringObject),
    List(ListObject),
    SetObj(SetObject),
    Hash(HashObject),
    Zset(ZsetObject),
    Stream(StreamObject),
    Module(ModuleObject),
    Unknown,
}

} // verus!
