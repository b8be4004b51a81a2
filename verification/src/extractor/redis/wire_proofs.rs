//! Reading undoes writing: the bytes that the encoder writes for a
//! command are read back as that command.

use vstd::prelude::*;
use crate::extractor::redis::redis_cdc_extractor::{all_data, command_of, data_of};
use crate::extractor::redis::redis_resp_reader::{
    parse_data,
    parse_items,
    parse_line,
    parse_value,
    Parsed,
    ParsedItems,
    ParsedLine,
};
use crate::extractor::redis::redis_resp_types::ValueView;
use crate::sinker::redis::cmd_encoder::{crlf, encode_bulk, encode_bulks, encode_cmd};
use crate::util::bytes::lemma_first_index_is;
use crate::util::decimal::{
    digits_of,
    lemma_digits_of_are_digits,
    lemma_parse_i64_of_digits,
    parse_i64_spec,
};

verus! {

/// The byte strings of `args` as values.
pub open spec fn data_values(args: Seq<Seq<u8>>) -> Seq<ValueView> {
    Seq::new(args.len(), |i: int| ValueView::Data(args[i]))
}

/// A line of digits is read as the digits.
pub proof fn lemma_digits_line(n: nat, tail: Seq<u8>)
    ensures
        parse_line(digits_of(n) + crlf() + tail) == (ParsedLine::Done {
            text: digits_of(n),
            len: (digits_of(n).len() + 2) as int,
        }),
{
    let d = digits_of(n);
    let s = d + crlf() + tail;
    lemma_digits_of_are_digits(n);
    assert forall|j: int| 0 <= j < d.len() implies s[j] != 13u8 by {
        assert(s[j] == d[j]);
        assert(48 <= d[j] <= 57);
    }
    assert(s[d.len() as int] == 13u8);
    assert(s[(d.len() + 1) as int] == 10u8);
    lemma_first_index_is(s, 13u8, d.len() as int);
    assert(s.take(d.len() as int) =~= d);
}

/// The bytes of one argument are read as that argument, whatever
/// follows them.
pub proof fn lemma_read_encoded_bulk(arg: Seq<u8>, tail: Seq<u8>, depth: nat)
    requires
        arg.len() <= i64::MAX,
    ensures
        parse_value(encode_bulk(arg) + tail, depth) == (Parsed::Done {
            value: ValueView::Data(arg),
            len: encode_bulk(arg).len() as int,
        }),
{
    let d = digits_of(arg.len());
    let s = encode_bulk(arg) + tail;
    let after = arg + crlf() + tail;
    assert(s[0] == 36u8);
    assert(s.skip(1) =~= d + crlf() + after);
    lemma_digits_line(arg.len(), after);
    lemma_parse_i64_of_digits(arg.len() as i64);
    let head: int = (d.len() + 3) as int;
    let n: int = arg.len() as int;
    assert(parse_i64_spec(d) == Some(arg.len() as i64));
    assert(s.len() == head + n + 2 + tail.len());
    assert(s[head + n] == 13u8);
    assert(s[head + n + 1] == 10u8);
    assert(s.subrange(head, head + n) =~= arg);
    assert(parse_data(s, head, n) == (Parsed::Done {
        value: ValueView::Data(arg),
        len: head + n + 2,
    }));
    assert(encode_bulk(arg).len() == head + n + 2);
}

/// The arguments on the wire are the first on the wire and then the
/// others.
pub proof fn lemma_encode_bulks_front(args: Seq<Seq<u8>>)
    requires
        args.len() > 0,
    ensures
        encode_bulks(args) == encode_bulk(args[0]) + encode_bulks(args.skip(1)),
    decreases args.len(),
{
    if args.len() == 1 {
        assert(args.drop_last() =~= Seq::<Seq<u8>>::empty());
        assert(args.skip(1) =~= Seq::<Seq<u8>>::empty());
        assert(encode_bulks(args) =~= encode_bulk(args[0]) + encode_bulks(args.skip(1)));
    } else {
        lemma_encode_bulks_front(args.drop_last());
        assert(args.drop_last()[0] == args[0]);
        assert(args.drop_last().skip(1) =~= args.skip(1).drop_last());
        assert(args.skip(1).last() == args.last());
        assert(encode_bulks(args) =~= encode_bulk(args[0]) + encode_bulks(args.skip(1)));
    }
}

/// The bytes of a run of arguments are read as those arguments,
/// whatever follows them.
pub proof fn lemma_read_encoded_bulks(args: Seq<Seq<u8>>, tail: Seq<u8>, depth: nat)
    requires
        forall|i: int| 0 <= i < args.len() ==> (#[trigger] args[i]).len() <= i64::MAX,
    ensures
        parse_items(encode_bulks(args) + tail, args.len(), depth) == (ParsedItems::Done {
            values: data_values(args),
            len: encode_bulks(args).len() as int,
        }),
    decreases args.len(),
{
    if args.len() == 0 {
        assert(data_values(args) =~= Seq::<ValueView>::empty());
    } else {
        let first = encode_bulk(args[0]);
        let others = args.skip(1);
        let s = encode_bulks(args) + tail;
        lemma_encode_bulks_front(args);
        assert(s =~= first + (encode_bulks(others) + tail));
        lemma_read_encoded_bulk(args[0], encode_bulks(others) + tail, depth);
        assert(s.skip(first.len() as int) =~= encode_bulks(others) + tail);
        assert forall|i: int| 0 <= i < others.len() implies (#[trigger] others[i]).len()
            <= i64::MAX by {
            assert(others[i] == args[i + 1]);
        }
        lemma_read_encoded_bulks(others, tail, depth);
        assert(seq![ValueView::Data(args[0])] + data_values(others) =~= data_values(args));
    }
}

/// The values of `args` hold the command `args`.
pub proof fn lemma_command_of_data(args: Seq<Seq<u8>>)
    ensures
        all_data(data_values(args)),
        data_of(data_values(args)) == args,
        command_of(ValueView::Bulk(data_values(args))) == Ok::<_, crate::error::Error>(args),
{
    let values = data_values(args);
    assert(data_of(values) =~= args);
}

/// Reading undoes writing: the bytes of a command, whatever follows
/// them, are read as the array of its arguments, which holds the
/// command; and the value takes as many bytes as the command was written
/// in.
pub proof fn lemma_read_encoded_cmd(args: Seq<Seq<u8>>, tail: Seq<u8>, depth: nat)
    requires
        depth >= 1,
        args.len() <= i64::MAX,
        forall|i: int| 0 <= i < args.len() ==> (#[trigger] args[i]).len() <= i64::MAX,
    ensures
        parse_value(encode_cmd(args) + tail, depth) == (Parsed::Done {
            value: ValueView::Bulk(data_values(args)),
            len: encode_cmd(args).len() as int,
        }),
        command_of(ValueView::Bulk(data_values(args))) == Ok::<_, crate::error::Error>(args),
{
    let d = digits_of(args.len());
    let s = encode_cmd(args) + tail;
    let body = encode_bulks(args) + tail;
    assert(s[0] == 42u8);
    assert(s.skip(1) =~= d + crlf() + body);
    lemma_digits_line(args.len(), body);
    lemma_parse_i64_of_digits(args.len() as i64);
    let head: int = (d.len() + 3) as int;
    assert(s.skip(head) =~= body);
    lemma_read_encoded_bulks(args, tail, (depth - 1) as nat);
    lemma_command_of_data(args);
    assert(encode_cmd(args).len() == head + encode_bulks(args).len());
}

} // verus!
