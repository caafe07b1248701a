//! Laws of the store actor, proved over the same spec functions that the
//! executable functions' contracts use: [`spec_parse`] for the parser and
//! [`spec_step`] for the actor. [`run`] folds a whole command sequence
//! through the actor, collecting every response in order — the actor
//! consumes its inbound queue first-in first-out, so the order of `run`'s
//! responses is the order in which they are queued for delivery.

use vstd::prelude::*;

use crate::command::{ClientId, SpecCommand};
use crate::parser::{first_token, spec_parse, spec_tokens};
use crate::store::{
    spec_step, unexisting_msg, unknown_msg, updated_msg, updated_old_msg, value_msg, SpecResponse,
};

verus! {

/// The responses one step emits: none, or exactly one.
pub open spec fn step_responses(r: Option<SpecResponse>) -> Seq<SpecResponse> {
    match r {
        Some(x) => seq![x],
        None => Seq::empty(),
    }
}

/// Runs a command sequence through the actor from the given state,
/// collecting the emitted responses in order.
pub open spec fn run(
    kv: Map<Seq<char>, Seq<char>>,
    reg: Set<ClientId>,
    cmds: Seq<SpecCommand>,
) -> (Map<Seq<char>, Seq<char>>, Set<ClientId>, Seq<SpecResponse>)
    decreases cmds.len(),
{
    if cmds.len() == 0 {
        (kv, reg, Seq::empty())
    } else {
        let first = spec_step(kv, reg, cmds[0]);
        let rest = run(first.0, first.1, cmds.skip(1));
        (rest.0, rest.1, step_responses(first.2) + rest.2)
    }
}

/// `get` on a key that was never set yields the "unexisting variable"
/// response naming that key, and changes neither the mapping nor the
/// registry.
pub proof fn lemma_get_unset(
    kv: Map<Seq<char>, Seq<char>>,
    reg: Set<ClientId>,
    k: Seq<char>,
    from: ClientId,
)
    requires
        !kv.contains_key(k),
        reg.contains(from),
    ensures
        spec_step(kv, reg, SpecCommand::Get { variable_name: k, from }) == (
            kv,
            reg,
            Some(SpecResponse { to: from, message: unexisting_msg(k) }),
        ),
{
}

/// `set k v` then `get k` from the same registered client yields `v`
/// back verbatim (newline-terminated).
pub proof fn lemma_set_then_get(
    kv: Map<Seq<char>, Seq<char>>,
    reg: Set<ClientId>,
    k: Seq<char>,
    v: Seq<char>,
    from: ClientId,
)
    requires
        reg.contains(from),
    ensures
        ({
            let s1 = spec_step(
                kv,
                reg,
                SpecCommand::SetValue { variable_name: k, variable_value: v, from },
            );
            let s2 = spec_step(s1.0, s1.1, SpecCommand::Get { variable_name: k, from });
            s2.2 == Some(SpecResponse { to: from, message: value_msg(v) })
        }),
{
}

/// Last write wins: `set k v1` then `set k v2` makes the second response
/// report `v1` as the old value, and a following `get k` yields `v2`.
pub proof fn lemma_set_set_get(
    kv: Map<Seq<char>, Seq<char>>,
    reg: Set<ClientId>,
    k: Seq<char>,
    v1: Seq<char>,
    v2: Seq<char>,
    from: ClientId,
)
    requires
        reg.contains(from),
    ensures
        ({
            let s1 = spec_step(
                kv,
                reg,
                SpecCommand::SetValue { variable_name: k, variable_value: v1, from },
            );
            let s2 = spec_step(
                s1.0,
                s1.1,
                SpecCommand::SetValue { variable_name: k, variable_value: v2, from },
            );
            let s3 = spec_step(s2.0, s2.1, SpecCommand::Get { variable_name: k, from });
            s2.2 == Some(SpecResponse { to: from, message: updated_old_msg(k, v2, v1) })
                && s3.2 == Some(SpecResponse { to: from, message: value_msg(v2) })
        }),
{
}

/// A line whose first token is neither `get` nor `set` — the empty token
/// of a blank line included — parses to an `Unknown` command carrying
/// that token exactly, and the actor answers a registered client with a
/// response naming the token while leaving the mapping and the registry
/// untouched (so the connection stays usable).
pub proof fn lemma_unknown_token(
    kv: Map<Seq<char>, Seq<char>>,
    reg: Set<ClientId>,
    from: ClientId,
    line: Seq<char>,
)
    requires
        first_token(line) != "get"@,
        first_token(line) != "set"@,
        reg.contains(from),
    ensures
        ({
            let t = first_token(line);
            spec_parse(from, line) == Some(SpecCommand::Unknown { command_name: t, from })
                && spec_step(kv, reg, SpecCommand::Unknown { command_name: t, from }) == (
                kv,
                reg,
                Some(SpecResponse { to: from, message: unknown_msg(t) }),
            )
        }),
{
}

/// A recognized command missing a required argument — `get` with no key,
/// `set` with no value — parses to nothing: the line is dropped, no event
/// reaches the actor, and no state changes, so later well-formed commands
/// are unaffected.
pub proof fn lemma_malformed_dropped(from: ClientId, line: Seq<char>)
    requires
        (first_token(line) == "get"@ && spec_tokens(line).len() < 2) || (first_token(line)
            == "set"@ && spec_tokens(line).len() < 3),
    ensures
        spec_parse(from, line) == None::<SpecCommand>,
{
    reveal_strlit("get");
    reveal_strlit("set");
    assert("get"@ != "set"@) by {
        assert("get"@[0] == 'g');
        assert("set"@[0] == 's');
    }
}

/// Responses come out in event order: running `a + b` emits the responses
/// of `a`, then those of `b` run from the state `a` left behind.
pub proof fn lemma_run_append(
    kv: Map<Seq<char>, Seq<char>>,
    reg: Set<ClientId>,
    a: Seq<SpecCommand>,
    b: Seq<SpecCommand>,
)
    ensures
        ({
            let ra = run(kv, reg, a);
            let rb = run(ra.0, ra.1, b);
            let rab = run(kv, reg, a + b);
            rab.0 == rb.0 && rab.1 == rb.1 && rab.2 == ra.2 + rb.2
        }),
    decreases a.len(),
{
    let ra = run(kv, reg, a);
    let rb = run(ra.0, ra.1, b);
    let rab = run(kv, reg, a + b);
    if a.len() == 0 {
        assert(a + b =~= b);
        assert(ra.2 + rb.2 =~= rb.2);
    } else {
        let first = spec_step(kv, reg, a[0]);
        assert((a + b)[0] == a[0]);
        assert((a + b).skip(1) =~= a.skip(1) + b);
        lemma_run_append(first.0, first.1, a.skip(1), b);
        let ra1 = run(first.0, first.1, a.skip(1));
        let rb1 = run(ra1.0, ra1.1, b);
        assert(rab.2 =~= (step_responses(first.2) + ra1.2) + rb1.2);
    }
}

/// Whether `c` is a `set` on key `k` issued by a client registered in `reg`.
pub open spec fn is_set_on(c: SpecCommand, k: Seq<char>, reg: Set<ClientId>) -> bool {
    match c {
        SpecCommand::SetValue { variable_name, variable_value, from } => variable_name == k
            && reg.contains(from),
        _ => false,
    }
}

/// The value a `set` command carries.
pub open spec fn set_value_of(c: SpecCommand) -> Seq<char> {
    match c {
        SpecCommand::SetValue { variable_value, .. } => variable_value,
        _ => Seq::empty(),
    }
}

/// The issuer of a `set` command.
pub open spec fn set_from_of(c: SpecCommand) -> ClientId {
    match c {
        SpecCommand::SetValue { from, .. } => from,
        _ => ClientId(0),
    }
}

/// No lost update: however many `set`s on one key the actor interleaves,
/// the final stored value is the value of the `set` it processed last in
/// its total event order, every `set` is answered, and each earlier
/// `set`'s value reappears as the reported old value of the `set` that
/// overwrote it.
pub proof fn lemma_run_sets(
    kv: Map<Seq<char>, Seq<char>>,
    reg: Set<ClientId>,
    k: Seq<char>,
    cmds: Seq<SpecCommand>,
)
    requires
        cmds.len() > 0,
        forall|i: int| 0 <= i < cmds.len() ==> is_set_on(#[trigger] cmds[i], k, reg),
    ensures
        ({
            let r = run(kv, reg, cmds);
            r.0 == kv.insert(k, set_value_of(cmds.last())) && r.1 == reg && r.2.len()
                == cmds.len() && (forall|i: int|
                1 <= i < cmds.len() ==> #[trigger] r.2[i] == (SpecResponse {
                    to: set_from_of(cmds[i]),
                    message: updated_old_msg(k, set_value_of(cmds[i]), set_value_of(cmds[i - 1])),
                })) && r.2[0] == (SpecResponse {
                to: set_from_of(cmds[0]),
                message: if kv.contains_key(k) {
                    updated_old_msg(k, set_value_of(cmds[0]), kv[k])
                } else {
                    updated_msg(k, set_value_of(cmds[0]))
                },
            })
        }),
    decreases cmds.len(),
{
    let r = run(kv, reg, cmds);
    let first = spec_step(kv, reg, cmds[0]);
    let kv1 = kv.insert(k, set_value_of(cmds[0]));
    assert(first.0 == kv1);
    assert(first.1 == reg);
    if cmds.len() == 1 {
        assert(run(first.0, first.1, cmds.skip(1)) == (
            first.0,
            first.1,
            Seq::<SpecResponse>::empty(),
        ));
        assert(r.2 =~= step_responses(first.2));
        assert(cmds.last() == cmds[0]);
    } else {
        let rest = cmds.skip(1);
        assert(forall|i: int|
            0 <= i < rest.len() ==> is_set_on(#[trigger] rest[i], k, reg) && rest[i] == cmds[i
                + 1]);
        lemma_run_sets(kv1, reg, k, rest);
        let rr = run(kv1, reg, rest);
        assert(rest.last() == cmds.last());
        assert(kv1.insert(k, set_value_of(cmds.last())) =~= kv.insert(
            k,
            set_value_of(cmds.last()),
        ));
        assert(r.2 =~= seq![first.2->Some_0] + rr.2);
        assert(kv1[k] == set_value_of(cmds[0]));
        assert forall|i: int| 1 <= i < cmds.len() implies #[trigger] r.2[i] == (SpecResponse {
            to: set_from_of(cmds[i]),
            message: updated_old_msg(k, set_value_of(cmds[i]), set_value_of(cmds[i - 1])),
        }) by {
            if i == 1 {
                assert(r.2[1] == rr.2[0]);
            } else {
                assert(r.2[i] == rr.2[i - 1]);
                assert(rest[i - 1] == cmds[i]);
                assert(rest[i - 2] == cmds[i - 1]);
            }
        }
    }
}

} // verus!
