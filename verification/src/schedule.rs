//! The meaning of recording: a linear walk over declared accesses that
//! compares each resource's tracked access with the newly declared one,
//! emits a barrier exactly when they differ, and then adopts the declared
//! access as the tracked one.
//!
//! Everything here is specification-level; `graph::RenderGraph::record`
//! is proved to emit exactly these commands. The lemmas at the end state
//! the per-resource law: projected onto one slot, the emitted barriers are
//! exactly the access changes of that slot's declaration sequence, and the
//! tracked access after all declarations is the last declared one.

use vstd::prelude::*;
use crate::access::AccessType;

verus! {

/// One declared use of a resource slot inside a pass.
#[derive(Clone, Copy, PartialEq, Eq, Structural, Debug)]
pub struct PassRef {
    pub slot: usize,
    pub access: AccessType,
}

/// One step of the recorded schedule, as handed to the device boundary.
#[derive(Clone, Copy, PartialEq, Eq, Structural, Debug)]
pub enum RecordedCommand {
    /// Transition `slot` from `prev_access` to `next_access`.
    Barrier { slot: usize, prev_access: AccessType, next_access: AccessType },
    /// Open the attachment bracket of a raster pass.
    BeginRenderPass { pass: usize },
    /// Run the deferred body of the pass with the given index.
    ExecutePass { pass: usize },
    /// Close the attachment bracket of a raster pass.
    EndRenderPass { pass: usize },
}

/// The tracked accesses after a sequence of declarations is applied, one
/// slot updated per declaration.
pub open spec fn state_after_decls(st: Seq<AccessType>, ds: Seq<PassRef>) -> Seq<AccessType>
    decreases ds.len(),
{
    if ds.len() == 0 {
        st
    } else {
        state_after_decls(st.update(ds.first().slot as int, ds.first().access), ds.drop_first())
    }
}

/// The barriers a sequence of declarations emits against a starting state:
/// one barrier per declaration whose access differs from the tracked one.
pub open spec fn barriers_of_decls(st: Seq<AccessType>, ds: Seq<PassRef>) -> Seq<RecordedCommand>
    decreases ds.len(),
{
    if ds.len() == 0 {
        Seq::empty()
    } else {
        let d = ds.first();
        let rest = barriers_of_decls(st.update(d.slot as int, d.access), ds.drop_first());
        if st[d.slot as int] != d.access {
            seq![RecordedCommand::Barrier {
                slot: d.slot,
                prev_access: st[d.slot as int],
                next_access: d.access,
            }] + rest
        } else {
            rest
        }
    }
}

/// The accesses of the declarations that touch one slot, in order.
pub open spec fn decls_on(ds: Seq<PassRef>, slot: usize) -> Seq<AccessType>
    decreases ds.len(),
{
    if ds.len() == 0 {
        Seq::empty()
    } else if ds.first().slot == slot {
        seq![ds.first().access] + decls_on(ds.drop_first(), slot)
    } else {
        decls_on(ds.drop_first(), slot)
    }
}

/// The barrier commands of a schedule that concern one slot, in order.
pub open spec fn barriers_on(cmds: Seq<RecordedCommand>, slot: usize) -> Seq<RecordedCommand>
    decreases cmds.len(),
{
    if cmds.len() == 0 {
        Seq::empty()
    } else {
        let rest = barriers_on(cmds.drop_first(), slot);
        match cmds.first() {
            RecordedCommand::Barrier { slot: s, prev_access: _, next_access: _ } => {
                if s == slot {
                    seq![cmds.first()] + rest
                } else {
                    rest
                }
            },
            _ => rest,
        }
    }
}

/// The barrier sequence a single resource must see for a sequence of its own
/// declared accesses: nothing while the access repeats, one transition per
/// change.
pub open spec fn slot_transitions(slot: usize, cur: AccessType, accs: Seq<AccessType>) -> Seq<
    RecordedCommand,
>
    decreases accs.len(),
{
    if accs.len() == 0 {
        Seq::empty()
    } else if accs.first() == cur {
        slot_transitions(slot, cur, accs.drop_first())
    } else {
        seq![RecordedCommand::Barrier {
            slot,
            prev_access: cur,
            next_access: accs.first(),
        }] + slot_transitions(slot, accs.first(), accs.drop_first())
    }
}

/// The access a resource is left in after a sequence of its declared
/// accesses: the last one, or the starting access if there was none.
pub open spec fn last_access(cur: AccessType, accs: Seq<AccessType>) -> AccessType
    decreases accs.len(),
{
    if accs.len() == 0 {
        cur
    } else {
        last_access(accs.first(), accs.drop_first())
    }
}

/// Every declaration in the sequence names a slot inside the state.
pub open spec fn decls_in_bounds(ds: Seq<PassRef>, n: nat) -> bool {
    forall|i: int| 0 <= i < ds.len() ==> (#[trigger] ds[i]).slot < n
}

/// Applying declarations never changes how many slots are tracked.
pub proof fn lemma_state_len(st: Seq<AccessType>, ds: Seq<PassRef>)
    requires
        decls_in_bounds(ds, st.len()),
    ensures
        state_after_decls(st, ds).len() == st.len(),
    decreases ds.len(),
{
    if ds.len() > 0 {
        let st2 = st.update(ds.first().slot as int, ds.first().access);
        assert(decls_in_bounds(ds.drop_first(), st2.len())) by {
            assert(forall|i: int|
                0 <= i < ds.drop_first().len() ==> ds.drop_first()[i] == ds[i + 1]);
        }
        lemma_state_len(st2, ds.drop_first());
    }
}

/// The per-resource law of the schedule. Projected onto one slot, the
/// emitted barriers are exactly the access changes of that slot's own
/// declaration sequence, and the tracked access afterwards is the last
/// declared one (or the starting access when the slot was never declared).
/// In particular, identical consecutive declarations, such as repeated
/// reads under one access, emit no barrier, and each change emits exactly
/// one.
pub proof fn lemma_decl_schedule_on_slot(st: Seq<AccessType>, ds: Seq<PassRef>, slot: usize)
    requires
        slot < st.len(),
        decls_in_bounds(ds, st.len()),
    ensures
        state_after_decls(st, ds).len() == st.len(),
        state_after_decls(st, ds)[slot as int] == last_access(
            st[slot as int],
            decls_on(ds, slot),
        ),
        barriers_on(barriers_of_decls(st, ds), slot) == slot_transitions(
            slot,
            st[slot as int],
            decls_on(ds, slot),
        ),
    decreases ds.len(),
{
    lemma_state_len(st, ds);
    if ds.len() > 0 {
        let d = ds.first();
        let st2 = st.update(d.slot as int, d.access);
        let rest = ds.drop_first();
        assert(decls_in_bounds(rest, st2.len())) by {
            assert(forall|i: int| 0 <= i < rest.len() ==> rest[i] == ds[i + 1]);
        }
        lemma_decl_schedule_on_slot(st2, rest, slot);
        let rest_barriers = barriers_of_decls(st2, rest);
        if st[d.slot as int] != d.access {
            let b = RecordedCommand::Barrier {
                slot: d.slot,
                prev_access: st[d.slot as int],
                next_access: d.access,
            };
            assert((seq![b] + rest_barriers).drop_first() =~= rest_barriers);
            assert(barriers_on(barriers_of_decls(st, ds), slot) == if d.slot == slot {
                seq![b] + barriers_on(rest_barriers, slot)
            } else {
                barriers_on(rest_barriers, slot)
            });
        }
        if d.slot == slot {
            assert(decls_on(ds, slot) == seq![d.access] + decls_on(rest, slot));
            assert((seq![d.access] + decls_on(rest, slot)).drop_first() =~= decls_on(rest, slot));
            assert(st2[slot as int] == d.access);
        } else {
            assert(st2[slot as int] == st[slot as int]);
            assert(decls_on(ds, slot) == decls_on(rest, slot));
        }
    }
}

/// Splitting a declaration sequence splits its state evolution and its
/// barrier output at the same point.
pub proof fn lemma_decls_concat(st: Seq<AccessType>, a: Seq<PassRef>, b: Seq<PassRef>)
    ensures
        state_after_decls(st, a + b) == state_after_decls(state_after_decls(st, a), b),
        barriers_of_decls(st, a + b) == barriers_of_decls(st, a) + barriers_of_decls(
            state_after_decls(st, a),
            b,
        ),
    decreases a.len(),
{
    if a.len() == 0 {
        assert(a + b =~= b);
        assert(barriers_of_decls(st, a) + barriers_of_decls(st, b) =~= barriers_of_decls(st, b));
    } else {
        let d = a.first();
        let st2 = st.update(d.slot as int, d.access);
        assert((a + b).first() == d);
        assert((a + b).drop_first() =~= a.drop_first() + b);
        lemma_decls_concat(st2, a.drop_first(), b);
        if st[d.slot as int] != d.access {
            let bcmd = RecordedCommand::Barrier {
                slot: d.slot,
                prev_access: st[d.slot as int],
                next_access: d.access,
            };
            assert(seq![bcmd] + (barriers_of_decls(st2, a.drop_first()) + barriers_of_decls(
                state_after_decls(st2, a.drop_first()),
                b,
            )) =~= (seq![bcmd] + barriers_of_decls(st2, a.drop_first())) + barriers_of_decls(
                state_after_decls(st2, a.drop_first()),
                b,
            ));
        }
    }
}

/// Appending one declaration appends at most one barrier, and updates the
/// tracked state at exactly that declaration's slot.
pub proof fn lemma_decls_push(st: Seq<AccessType>, ds: Seq<PassRef>, d: PassRef)
    ensures
        state_after_decls(st, ds.push(d)) == state_after_decls(st, ds).update(
            d.slot as int,
            d.access,
        ),
        barriers_of_decls(st, ds.push(d)) == barriers_of_decls(st, ds) + (if state_after_decls(
            st,
            ds,
        )[d.slot as int] != d.access {
            seq![RecordedCommand::Barrier {
                slot: d.slot,
                prev_access: state_after_decls(st, ds)[d.slot as int],
                next_access: d.access,
            }]
        } else {
            Seq::<RecordedCommand>::empty()
        }),
{
    assert(ds.push(d) =~= ds + seq![d]);
    lemma_decls_concat(st, ds, seq![d]);
    let stm = state_after_decls(st, ds);
    assert(seq![d].len() == 1);
    assert(seq![d].first() == d);
    assert(seq![d].drop_first() =~= Seq::<PassRef>::empty());
    assert(state_after_decls(stm.update(d.slot as int, d.access), seq![d].drop_first())
        == stm.update(d.slot as int, d.access));
    assert(barriers_of_decls(stm.update(d.slot as int, d.access), seq![d].drop_first())
        == Seq::<RecordedCommand>::empty());
    assert(state_after_decls(stm, seq![d]) == stm.update(d.slot as int, d.access));
    if stm[d.slot as int] != d.access {
        assert(barriers_of_decls(stm, seq![d]) =~= seq![RecordedCommand::Barrier {
            slot: d.slot,
            prev_access: stm[d.slot as int],
            next_access: d.access,
        }]);
    } else {
        assert(barriers_of_decls(stm, seq![d]) =~= Seq::<RecordedCommand>::empty());
    }
}

/// Projection distributes over concatenation of command sequences.
pub proof fn lemma_barriers_on_concat(a: Seq<RecordedCommand>, b: Seq<RecordedCommand>, slot: usize)
    ensures
        barriers_on(a + b, slot) == barriers_on(a, slot) + barriers_on(b, slot),
    decreases a.len(),
{
    if a.len() == 0 {
        assert(a + b =~= b);
        assert(barriers_on(a, slot) + barriers_on(b, slot) =~= barriers_on(b, slot));
    } else {
        assert((a + b).first() == a.first());
        assert((a + b).drop_first() =~= a.drop_first() + b);
        lemma_barriers_on_concat(a.drop_first(), b, slot);
        match a.first() {
            RecordedCommand::Barrier { slot: s, prev_access: _, next_access: _ } => {
                if s == slot {
                    assert(seq![a.first()] + (barriers_on(a.drop_first(), slot) + barriers_on(
                        b,
                        slot,
                    )) =~= (seq![a.first()] + barriers_on(a.drop_first(), slot)) + barriers_on(
                        b,
                        slot,
                    ));
                }
            },
            _ => {},
        }
    }
}

/// A command sequence with no barrier in it projects to nothing.
pub proof fn lemma_barriers_on_barrier_free(cmds: Seq<RecordedCommand>, slot: usize)
    requires
        forall|i: int|
            0 <= i < cmds.len() ==> !((#[trigger] cmds[i]) matches RecordedCommand::Barrier {
                ..
            }),
    ensures
        barriers_on(cmds, slot) == Seq::<RecordedCommand>::empty(),
    decreases cmds.len(),
{
    if cmds.len() > 0 {
        assert(forall|i: int|
            0 <= i < cmds.drop_first().len() ==> cmds.drop_first()[i] == cmds[i + 1]);
        lemma_barriers_on_barrier_free(cmds.drop_first(), slot);
        assert(cmds[0] == cmds.first());
    }
}

/// Concatenating declaration sequences concatenates their per-slot access
/// sequences.
pub proof fn lemma_decls_on_concat(a: Seq<PassRef>, b: Seq<PassRef>, slot: usize)
    ensures
        decls_on(a + b, slot) == decls_on(a, slot) + decls_on(b, slot),
    decreases a.len(),
{
    if a.len() == 0 {
        assert(a + b =~= b);
        assert(decls_on(a, slot) + decls_on(b, slot) =~= decls_on(b, slot));
    } else {
        assert((a + b).first() == a.first());
        assert((a + b).drop_first() =~= a.drop_first() + b);
        lemma_decls_on_concat(a.drop_first(), b, slot);
        if a.first().slot == slot {
            assert(seq![a.first().access] + (decls_on(a.drop_first(), slot) + decls_on(b, slot))
                =~= (seq![a.first().access] + decls_on(a.drop_first(), slot)) + decls_on(b, slot));
        }
    }
}

/// Splitting an access sequence splits the transitions it causes, the
/// second part starting from where the first part left the resource.
pub proof fn lemma_slot_transitions_concat(
    slot: usize,
    cur: AccessType,
    a: Seq<AccessType>,
    b: Seq<AccessType>,
)
    ensures
        slot_transitions(slot, cur, a + b) == slot_transitions(slot, cur, a) + slot_transitions(
            slot,
            last_access(cur, a),
            b,
        ),
        last_access(cur, a + b) == last_access(last_access(cur, a), b),
    decreases a.len(),
{
    if a.len() == 0 {
        assert(a + b =~= b);
        assert(slot_transitions(slot, cur, a) + slot_transitions(slot, cur, b) =~= slot_transitions(
            slot,
            cur,
            b,
        ));
    } else {
        assert((a + b).first() == a.first());
        assert((a + b).drop_first() =~= a.drop_first() + b);
        if a.first() == cur {
            lemma_slot_transitions_concat(slot, cur, a.drop_first(), b);
        } else {
            lemma_slot_transitions_concat(slot, a.first(), a.drop_first(), b);
            let t = RecordedCommand::Barrier {
                slot,
                prev_access: cur,
                next_access: a.first(),
            };
            assert(seq![t] + (slot_transitions(slot, a.first(), a.drop_first())
                + slot_transitions(slot, last_access(a.first(), a.drop_first()), b)) =~= (seq![t]
                + slot_transitions(slot, a.first(), a.drop_first())) + slot_transitions(
                slot,
                last_access(a.first(), a.drop_first()),
                b,
            ));
        }
    }
}

/// A declaration sequence whose accesses all equal the starting access
/// emits no transition at all: in particular, any run of repeated reads
/// of an already-adopted access is barrier-free.
pub proof fn lemma_repeated_access_is_barrier_free(slot: usize, cur: AccessType, accs: Seq<AccessType>)
    requires
        forall|i: int| 0 <= i < accs.len() ==> (#[trigger] accs[i]) == cur,
    ensures
        slot_transitions(slot, cur, accs) == Seq::<RecordedCommand>::empty(),
        last_access(cur, accs) == cur,
    decreases accs.len(),
{
    if accs.len() > 0 {
        assert(accs[0] == accs.first());
        assert(forall|i: int|
            0 <= i < accs.drop_first().len() ==> accs.drop_first()[i] == accs[i + 1]);
        lemma_repeated_access_is_barrier_free(slot, cur, accs.drop_first());
    }
}

} // verus!
