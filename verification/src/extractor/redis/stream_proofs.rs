//! What holds of every stream of commands: positions never go back, a
//! heartbeat never becomes a change record, and a change record belongs
//! to the database of the last `SELECT`.

use vstd::prelude::*;
use crate::extractor::redis::redis_cdc_extractor::{
    arg,
    command_of,
    filtered,
    is_heartbeat,
    is_record_of,
    is_select,
    spec_on_value,
    AofEvent,
    AofView,
};
use crate::meta::dt_data::DtItem;
use crate::extractor::redis::redis_resp_types::ValueView;
use crate::util::decimal::parse_i64_spec;

verus! {

/// A change record of the stream, by what it carries.
pub struct Emission {
    pub cmd: Seq<Seq<u8>>,
    pub db_id: i64,
    pub offset: u64,
    pub timestamp: Seq<u8>,
}

/// The change records that the stream `s` makes of the values of
/// `inputs`, each with the bytes that it took, up to the first value
/// that the stream fails on.
pub open spec fn emissions(s: AofView, inputs: Seq<(ValueView, usize)>) -> Seq<Emission>
    decreases inputs.len(),
{
    if inputs.len() == 0 {
        Seq::empty()
    } else {
        let step = spec_on_value(s, inputs[0].0, inputs[0].1);
        match step.1 {
            AofEvent::Failed(_) => Seq::empty(),
            AofEvent::Emitted { cmd } => seq![
                Emission {
                    cmd,
                    db_id: step.0.now_db_id,
                    offset: step.0.repl_offset,
                    timestamp: step.0.heartbeat_timestamp,
                },
            ] + emissions(step.0, inputs.skip(1)),
            _ => emissions(step.0, inputs.skip(1)),
        }
    }
}

/// Whether no value of `inputs` holds a `SELECT`.
pub open spec fn no_select(inputs: Seq<(ValueView, usize)>) -> bool {
    forall|i: int|
        0 <= i < inputs.len() ==> match command_of((#[trigger] inputs[i]).0) {
            Ok(cmd) => !is_select(cmd),
            Err(_) => true,
        }
}

/// A value never moves the offset back, and leaves the heartbeat key and
/// the filter as they were.
pub proof fn lemma_step_keeps(s: AofView, value: ValueView, n: usize)
    ensures
        spec_on_value(s, value, n).0.repl_offset >= s.repl_offset,
        spec_on_value(s, value, n).0.heartbeat == s.heartbeat,
        spec_on_value(s, value, n).0.run_id == s.run_id,
        spec_on_value(s, value, n).0.do_dbs == s.do_dbs,
        spec_on_value(s, value, n).0.ignore_dbs == s.ignore_dbs,
        !(spec_on_value(s, value, n).1 is Switched) ==> spec_on_value(s, value, n).0.now_db_id
            == s.now_db_id,
{
}

/// No change record lies before the offset that the stream started at.
pub proof fn lemma_emissions_start_at(s: AofView, inputs: Seq<(ValueView, usize)>)
    ensures
        forall|k: int|
            0 <= k < emissions(s, inputs).len() ==> (#[trigger] emissions(s, inputs)[k]).offset
                >= s.repl_offset,
    decreases inputs.len(),
{
    if inputs.len() > 0 {
        let step = spec_on_value(s, inputs[0].0, inputs[0].1);
        let rest = emissions(step.0, inputs.skip(1));
        lemma_step_keeps(s, inputs[0].0, inputs[0].1);
        lemma_emissions_start_at(step.0, inputs.skip(1));
        let all = emissions(s, inputs);
        assert forall|k: int| 0 <= k < all.len() implies (#[trigger] all[k]).offset
            >= s.repl_offset by {
            match step.1 {
                AofEvent::Emitted { cmd } => {
                    if k > 0 {
                        assert(all[k] == rest[k - 1]);
                    }
                },
                _ => {},
            }
        }
    }
}

/// Position monotonicity: of two change records of one stream, the later
/// carries an offset that is no smaller.
pub proof fn lemma_positions_never_go_back(s: AofView, inputs: Seq<(ValueView, usize)>)
    ensures
        forall|i: int, j: int|
            0 <= i <= j < emissions(s, inputs).len() ==> (#[trigger] emissions(s, inputs)[i]).offset
                <= (#[trigger] emissions(s, inputs)[j]).offset,
    decreases inputs.len(),
{
    if inputs.len() > 0 {
        let step = spec_on_value(s, inputs[0].0, inputs[0].1);
        let rest = emissions(step.0, inputs.skip(1));
        lemma_positions_never_go_back(step.0, inputs.skip(1));
        lemma_emissions_start_at(step.0, inputs.skip(1));
        let all = emissions(s, inputs);
        assert forall|i: int, j: int| 0 <= i <= j < all.len() implies (#[trigger] all[i]).offset <= (
        #[trigger] all[j]).offset by {
            match step.1 {
                AofEvent::Emitted { cmd } => {
                    if i > 0 {
                        assert(all[i] == rest[i - 1]);
                        assert(all[j] == rest[j - 1]);
                    } else if j > 0 {
                        assert(all[j] == rest[j - 1]);
                    }
                },
                _ => {},
            }
        }
    }
}

/// The change records of two states of one stream compare as the offsets
/// of the states do: the record of the later state is no earlier than
/// the record of the earlier.
pub proof fn lemma_records_compare_as_offsets(
    first: DtItem,
    first_cmd: Seq<Seq<u8>>,
    earlier: AofView,
    second: DtItem,
    second_cmd: Seq<Seq<u8>>,
    later: AofView,
)
    requires
        is_record_of(first, first_cmd, earlier),
        is_record_of(second, second_cmd, later),
        earlier.repl_offset <= later.repl_offset,
    ensures
        second.position.not_earlier_than(first.position),
        first.position.progress() == earlier.repl_offset,
        second.position.progress() == later.repl_offset,
{
}

/// Heartbeat isolation: no change record of the stream is a write to the
/// heartbeat key in the heartbeat database.
pub proof fn lemma_heartbeat_is_never_emitted(s: AofView, inputs: Seq<(ValueView, usize)>)
    ensures
        forall|k: int|
            0 <= k < emissions(s, inputs).len() ==> !is_heartbeat(
                s.heartbeat,
                (#[trigger] emissions(s, inputs)[k]).db_id,
                emissions(s, inputs)[k].cmd,
            ),
    decreases inputs.len(),
{
    if inputs.len() > 0 {
        let step = spec_on_value(s, inputs[0].0, inputs[0].1);
        let rest = emissions(step.0, inputs.skip(1));
        lemma_step_keeps(s, inputs[0].0, inputs[0].1);
        lemma_heartbeat_is_never_emitted(step.0, inputs.skip(1));
        let all = emissions(s, inputs);
        assert forall|k: int| 0 <= k < all.len() implies !is_heartbeat(
            s.heartbeat,
            (#[trigger] all[k]).db_id,
            all[k].cmd,
        ) by {
            match step.1 {
                AofEvent::Emitted { cmd } => {
                    if k > 0 {
                        assert(all[k] == rest[k - 1]);
                    }
                },
                _ => {},
            }
        }
    }
}

/// Heartbeat isolation, the other side: a write to the heartbeat key in
/// any database but the heartbeat database is a change record, as every
/// other command is that is no `SELECT` and whose database the filter
/// keeps. The record holds the command as it came and the database of
/// the stream, and the heartbeat timestamp stays as it was. The one
/// command that makes no record is the one whose end lies beyond what
/// an offset can count: there the stream fails and stays as it was.
pub proof fn lemma_write_elsewhere_is_emitted(s: AofView, value: ValueView, n: usize)
    requires
        command_of(value) is Ok,
        command_of(value)->Ok_0.len() > 0,
        !is_select(command_of(value)->Ok_0),
        s.heartbeat matches Some(h) ==> h.0 != s.now_db_id,
        !filtered(s.do_dbs, s.ignore_dbs, s.now_db_id),
    ensures
        s.repl_offset + n <= u64::MAX ==> {
            &&& spec_on_value(s, value, n).1 == (AofEvent::Emitted {
                cmd: command_of(value)->Ok_0,
            })
            &&& spec_on_value(s, value, n).0 == (AofView {
                repl_offset: (s.repl_offset + n) as u64,
                ..s
            })
        },
        s.repl_offset + n > u64::MAX ==> spec_on_value(s, value, n) == (
            s,
            AofEvent::Failed(crate::error::Error::OffsetOverflow),
        ),
{
}

/// A value that is no array of byte strings is an error of the
/// protocol: the stream fails on it and makes no record of any part of
/// it.
pub proof fn lemma_malformed_value_fails(s: AofView, value: ValueView, n: usize)
    requires
        !(value is Nil),
        s.repl_offset + n <= u64::MAX,
        match value {
            ValueView::Bulk(items) => exists|i: int| 0 <= i < items.len() && !(#[trigger] items[i] is Data),
            _ => true,
        },
    ensures
        spec_on_value(s, value, n).1 == AofEvent::Failed(crate::error::Error::UnexpectedAofValue),
        command_of(value) == Err::<Seq<Seq<u8>>, _>(crate::error::Error::UnexpectedAofValue),
{
}

/// A `SELECT` with a database index that can be read switches the
/// stream to that database and makes no change record.
pub proof fn lemma_select_switches(s: AofView, value: ValueView, n: usize)
    requires
        s.repl_offset + n <= u64::MAX,
        command_of(value) is Ok,
        command_of(value)->Ok_0.len() > 0,
        is_select(command_of(value)->Ok_0),
        parse_i64_spec(arg(command_of(value)->Ok_0, 1)) is Some,
    ensures
        spec_on_value(s, value, n).1 is Switched,
        spec_on_value(s, value, n).0.now_db_id == parse_i64_spec(
            arg(command_of(value)->Ok_0, 1),
        )->0,
{
}

/// Database-switch scoping: as long as no `SELECT` comes, every change
/// record belongs to the database that the stream is in.
pub proof fn lemma_database_holds_until_select(s: AofView, inputs: Seq<(ValueView, usize)>)
    requires
        no_select(inputs),
    ensures
        forall|k: int|
            0 <= k < emissions(s, inputs).len() ==> (#[trigger] emissions(s, inputs)[k]).db_id
                == s.now_db_id,
    decreases inputs.len(),
{
    if inputs.len() > 0 {
        let step = spec_on_value(s, inputs[0].0, inputs[0].1);
        let tail = inputs.skip(1);
        let rest = emissions(step.0, tail);
        assert(no_select(tail)) by {
            assert forall|i: int| 0 <= i < tail.len() implies match command_of(
                (#[trigger] tail[i]).0,
            ) {
                Ok(cmd) => !is_select(cmd),
                Err(_) => true,
            } by {
                assert(tail[i] == inputs[i + 1]);
            }
        }
        assert(inputs[0] == inputs[0]);
        assert(!(step.1 is Switched));
        lemma_step_keeps(s, inputs[0].0, inputs[0].1);
        lemma_database_holds_until_select(step.0, tail);
        let all = emissions(s, inputs);
        assert forall|k: int| 0 <= k < all.len() implies (#[trigger] all[k]).db_id
            == s.now_db_id by {
            match step.1 {
                AofEvent::Emitted { cmd } => {
                    if k > 0 {
                        assert(all[k] == rest[k - 1]);
                    }
                },
                _ => {},
            }
        }
    }
}

/// Database-switch scoping, from the switch on: after a `SELECT` of the
/// database `n`, every change record belongs to `n` until the next
/// `SELECT`.
pub proof fn lemma_select_scopes_what_follows(
    s: AofView,
    select: ValueView,
    n: usize,
    inputs: Seq<(ValueView, usize)>,
)
    requires
        spec_on_value(s, select, n).1 is Switched,
        no_select(inputs),
    ensures
        forall|k: int|
            0 <= k < emissions(s, seq![(select, n)] + inputs).len() ==> (#[trigger] emissions(
                s,
                seq![(select, n)] + inputs,
            )[k]).db_id == spec_on_value(s, select, n).0.now_db_id,
{
    let all = seq![(select, n)] + inputs;
    assert(all[0] == (select, n));
    assert(all.skip(1) =~= inputs);
    lemma_database_holds_until_select(spec_on_value(s, select, n).0, inputs);
    assert(emissions(s, all) == emissions(spec_on_value(s, select, n).0, inputs));
}

} // verus!
