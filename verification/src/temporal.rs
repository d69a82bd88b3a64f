//! The temporal resource table: the one piece of state that survives across
//! frames. A resource requested under a stable string key keeps its physical
//! backing and its last exported access from frame to frame; within one
//! frame, repeated requests for one key resolve to one handle.

use vstd::prelude::*;
use vstd::string::StringExecFns;
use crate::access::AccessType;
use crate::resource::{ImageDesc, ResourceDesc, ResourceKind};
use crate::graph::{RenderGraph, Handle, ResourceSlot};
use crate::schedule::RecordedCommand;

verus! {

/// A stable string-derived identity for a resource that must survive
/// across frames.
#[derive(Debug)]
pub struct TemporalResourceKey {
    pub text: String,
}

impl TemporalResourceKey {
    /// The identity this key carries.
    pub open spec fn view(self) -> Seq<char> {
        self.text@
    }

    pub fn from_str(s: &str) -> (k: TemporalResourceKey)
        ensures
            k@ == s@,
    {
        TemporalResourceKey { text: String::from_str(s) }
    }

    /// A second key with the same identity.
    pub fn duplicate(&self) -> (k: TemporalResourceKey)
        ensures
            k@ == self@,
    {
        TemporalResourceKey { text: self.text.clone() }
    }
}

/// One surviving resource: its key, its shape, and the access the last
/// frame left it in.
#[derive(Debug)]
pub struct TemporalEntry {
    pub key: TemporalResourceKey,
    pub desc: ImageDesc,
    pub access: AccessType,
}

/// The index of the first key equal to `k`, or -1 when there is none.
pub open spec fn spec_find_key(keys: Seq<Seq<char>>, k: Seq<char>) -> int
    decreases keys.len(),
{
    if keys.len() == 0 {
        -1
    } else if keys.first() == k {
        0
    } else {
        let r = spec_find_key(keys.drop_first(), k);
        if r == -1 {
            -1
        } else {
            r + 1
        }
    }
}

/// What `spec_find_key` returns: -1 exactly when no key matches, otherwise
/// the first matching index.
pub proof fn lemma_spec_find_key(keys: Seq<Seq<char>>, k: Seq<char>)
    ensures
        spec_find_key(keys, k) == -1 ==> forall|j: int|
            0 <= j < keys.len() ==> (#[trigger] keys[j]) != k,
        spec_find_key(keys, k) != -1 ==> {
            &&& 0 <= spec_find_key(keys, k) < keys.len()
            &&& keys[spec_find_key(keys, k)] == k
            &&& forall|j: int| 0 <= j < spec_find_key(keys, k) ==> (#[trigger] keys[j]) != k
        },
    decreases keys.len(),
{
    if keys.len() > 0 {
        assert(keys[0] == keys.first());
        lemma_spec_find_key(keys.drop_first(), k);
        let rest = keys.drop_first();
        assert(forall|j: int| 0 <= j < rest.len() ==> (#[trigger] rest[j]) == keys[j + 1]);
        if keys.first() != k {
            let r = spec_find_key(rest, k);
            if r == -1 {
                assert forall|j: int| 0 <= j < keys.len() implies (#[trigger] keys[j]) != k by {
                    if j > 0 {
                        assert(rest[j - 1] == keys[j]);
                    }
                }
            } else {
                assert(keys[r + 1] == rest[r]);
                assert forall|j: int| 0 <= j < r + 1 implies (#[trigger] keys[j]) != k by {
                    if j > 0 {
                        assert(rest[j - 1] == keys[j]);
                    }
                }
            }
        }
    }
}

/// The process-lifetime table of surviving resources, keyed uniquely.
#[derive(Debug)]
pub struct TemporalResourceTable {
    pub entries: Vec<TemporalEntry>,
}

impl TemporalResourceTable {
    /// The key of each entry, in order.
    pub open spec fn keys(self) -> Seq<Seq<char>> {
        self.entries@.map_values(|e: TemporalEntry| e.key@)
    }

    /// No two entries share a key.
    pub open spec fn wf(self) -> bool {
        forall|i: int, j: int|
            0 <= i < j < self.entries@.len() ==> (#[trigger] self.entries@[i].key@)
                != (#[trigger] self.entries@[j].key@)
    }

    pub fn new() -> (t: TemporalResourceTable)
        ensures
            t.entries@ == Seq::<TemporalEntry>::empty(),
            t.wf(),
    {
        TemporalResourceTable { entries: Vec::new() }
    }

    /// Find the entry stored under a key.
    pub fn find(&self, key: &TemporalResourceKey) -> (r: Option<usize>)
        ensures
            match r {
                Some(i) => i == spec_find_key(self.keys(), key@) && i < self.entries@.len()
                    && self.entries@[i as int].key@ == key@,
                None => spec_find_key(self.keys(), key@) == -1,
            },
    {
        proof {
            lemma_spec_find_key(self.keys(), key@);
        }
        let n = self.entries.len();
        let mut i: usize = 0;
        while i < n
            invariant
                i <= n,
                n == self.entries@.len(),
                forall|j: int| 0 <= j < i ==> (#[trigger] self.entries@[j].key@) != key@,
                spec_find_key(self.keys(), key@) == -1 || (0 <= spec_find_key(self.keys(), key@)
                    < self.entries@.len() && self.entries@[spec_find_key(self.keys(), key@)].key@
                    == key@ && forall|j: int|
                    0 <= j < spec_find_key(self.keys(), key@) ==> (#[trigger] self.keys()[j]) != key@),
            decreases n - i,
        {
            if self.entries[i].key.text == key.text {
                proof {
                    assert(self.keys()[i as int] == self.entries@[i as int].key@);
                    assert(spec_find_key(self.keys(), key@) != -1) by {
                        lemma_spec_find_key(self.keys(), key@);
                        if spec_find_key(self.keys(), key@) == -1 {
                            assert(self.keys()[i as int] != key@);
                        }
                    }
                    assert(forall|j: int|
                        0 <= j < i ==> (#[trigger] self.keys()[j]) == self.entries@[j].key@);
                }
                return Some(i);
            }
            i += 1;
        }
        proof {
            if spec_find_key(self.keys(), key@) != -1 {
                let s = spec_find_key(self.keys(), key@);
                assert(self.entries@[s].key@ != key@);
            }
        }
        None
    }
}

/// Why a temporal request can be refused.
#[derive(Clone, Copy, PartialEq, Eq, Structural, Debug)]
pub enum TemporalError {
    /// The key is already bound to a resource of a different shape.
    DescMismatch,
}

/// One key resolved this frame: which table entry it came from and the
/// graph handle the frame uses for it.
#[derive(Clone, Copy, PartialEq, Eq, Structural, Debug)]
pub struct ResolvedTemporal {
    pub table_index: usize,
    pub handle: Handle,
}

/// A render graph together with the cross-frame table: the frame-facing
/// entry point for temporal resources.
pub struct TemporalRenderGraph {
    pub rg: RenderGraph,
    pub table: TemporalResourceTable,
    pub resolved: Vec<ResolvedTemporal>,
}

impl TemporalRenderGraph {
    /// The key each frame-resolved entry was requested under, in order.
    pub open spec fn frame_keys(self) -> Seq<Seq<char>> {
        self.resolved@.map_values(
            |r: ResolvedTemporal| self.table.entries@[r.table_index as int].key@,
        )
    }

    /// Resolved entry `i` binds key `k` of shape `desc` to handle `h`.
    pub open spec fn resolved_entry_is(self, i: int, k: Seq<char>, desc: ImageDesc, h: Handle) -> bool {
        &&& self.resolved@[i].table_index < self.table.entries@.len()
        &&& self.table.entries@[self.resolved@[i].table_index as int].key@ == k
        &&& self.table.entries@[self.resolved@[i].table_index as int].desc == desc
        &&& self.resolved@[i].handle == h
    }

    /// This frame already resolved key `k`, with shape `desc`, to `h`.
    pub open spec fn frame_resolves(self, k: Seq<char>, desc: ImageDesc, h: Handle) -> bool {
        exists|i: int|
            0 <= i < self.resolved@.len() && #[trigger] self.resolved_entry_is(i, k, desc, h)
    }

    /// The key `k` is bound, in the table this frame draws from, to a shape
    /// other than `desc`: the configuration error every request must report.
    pub open spec fn key_conflict(self, k: Seq<char>, desc: ImageDesc) -> bool {
        exists|j: int|
            0 <= j < self.table.entries@.len() && (#[trigger] self.table.entries@[j]).key@ == k
                && self.table.entries@[j].desc != desc
    }

    /// The table is consistent, every frame resolution points at a live
    /// table entry and a live image slot of that entry's shape, and no two
    /// resolutions share a table entry, a key, or a physical slot.
    pub open spec fn wf(self) -> bool {
        &&& self.table.wf()
        &&& forall|i: int|
            0 <= i < self.resolved@.len() ==> {
                let r = #[trigger] self.resolved@[i];
                &&& r.table_index < self.table.entries@.len()
                &&& r.handle.slot < self.rg.resources@.len()
                &&& r.handle.kind == ResourceKind::Image
                &&& self.rg.resources@[r.handle.slot as int].desc == ResourceDesc::Image(
                    self.table.entries@[r.table_index as int].desc,
                )
            }
        &&& forall|i: int, j: int|
            0 <= i < j < self.resolved@.len()
                ==> (#[trigger] self.resolved@[i]).table_index
                != (#[trigger] self.resolved@[j]).table_index
        &&& forall|i: int, j: int|
            0 <= i < j < self.resolved@.len()
                ==> (#[trigger] self.resolved@[i]).handle.slot
                != (#[trigger] self.resolved@[j]).handle.slot
    }

    /// A frame with an empty graph over a table carried in from outside.
    pub fn new(table: TemporalResourceTable) -> (tg: TemporalRenderGraph)
        requires
            table.wf(),
        ensures
            tg.table == table,
            tg.rg.resources@ == Seq::<ResourceSlot>::empty(),
            tg.rg.passes@.len() == 0,
            tg.rg.exports@.len() == 0,
            tg.resolved@ == Seq::<ResolvedTemporal>::empty(),
            tg.wf(),
            tg.rg.graph_wf(),
    {
        TemporalRenderGraph { rg: RenderGraph::new(), table, resolved: Vec::new() }
    }

    /// Find which resolution of this frame, if any, used key `key`.
    fn find_resolved(&self, key: &TemporalResourceKey) -> (r: Option<usize>)
        requires
            self.wf(),
        ensures
            match r {
                Some(i) => i < self.resolved@.len() && self.table.entries@[self.resolved@[i as int].table_index as int].key@
                    == key@,
                None => forall|i: int|
                    0 <= i < self.resolved@.len()
                        ==> self.table.entries@[(#[trigger] self.resolved@[i]).table_index as int].key@
                        != key@,
            },
    {
        let n = self.resolved.len();
        let mut i: usize = 0;
        while i < n
            invariant
                i <= n,
                n == self.resolved@.len(),
                self.wf(),
                forall|j: int|
                    0 <= j < i
                        ==> self.table.entries@[(#[trigger] self.resolved@[j]).table_index as int].key@
                        != key@,
            decreases n - i,
        {
            let ti = self.resolved[i].table_index;
            if self.table.entries[ti].key.text == key.text {
                return Some(i);
            }
            i += 1;
        }
        None
    }

    /// Look up or create the resource that survives under `key`.
    ///
    /// The first request of a frame for an unknown key creates a fresh
    /// resource of shape `desc` and records it for future frames; for a key
    /// known from an earlier frame it imports the stored resource at the
    /// access that frame exported. Requesting the same key again in the
    /// same frame with an unchanged `desc` returns the same handle and
    /// changes nothing; a request whose `desc` differs from the stored one
    /// is a configuration error and changes nothing.
    pub fn get_or_create_temporal(&mut self, key: &TemporalResourceKey, desc: ImageDesc) -> (res:
        Result<Handle, TemporalError>)
        requires
            old(self).wf(),
        ensures
            final(self).wf(),
            final(self).table.wf(),
            // a key this frame already resolved: idempotent hit or mismatch
            forall|h: Handle|
                old(self).frame_resolves(key@, desc, h) ==> res == Ok::<Handle, TemporalError>(h)
                    && *final(self) == *old(self),
            // every success leaves the key resolved to the returned handle
            res matches Ok(h) ==> final(self).frame_resolves(key@, desc, h)
                && final(self).rg.spec_valid_handle(h) && h.kind == ResourceKind::Image
                && final(self).rg.resources@[h.slot as int].desc == ResourceDesc::Image(desc),
            // a failure changes nothing and means a shape conflict
            res matches Err(e) ==> e == TemporalError::DescMismatch && *final(self) == *old(self),
            // success is owed exactly when the key carries no conflicting
            // shape: the request fails if and only if the key is already
            // bound to a different desc
            (res is Err) <==> old(self).key_conflict(key@, desc),
            // at most one entry is ever added, and only a fresh one
            final(self).table.entries@.len() <= old(self).table.entries@.len() + 1,
            final(self).table.entries@.len() == old(self).table.entries@.len() + 1 ==> {
                &&& final(self).table.entries@.last().key@ == key@
                &&& final(self).table.entries@.last().desc == desc
                &&& final(self).table.entries@.last().access == AccessType::Nothing
            },
            // a newly resolved handle is a fresh slot
            res matches Ok(h) ==> (old(self).resolved@.len() < final(self).resolved@.len()
                ==> h.slot == old(self).rg.resources@.len()),
            // the graph only ever grows by at most the one imported slot
            final(self).rg.resources@.len() >= old(self).rg.resources@.len(),
            final(self).rg.resources@.subrange(0, old(self).rg.resources@.len() as int)
                == old(self).rg.resources@,
            final(self).rg.passes@ == old(self).rg.passes@,
            final(self).rg.pipelines@ == old(self).rg.pipelines@,
            final(self).rg.exports@ == old(self).rg.exports@,
            // resolutions of earlier requests survive
            final(self).resolved@.len() >= old(self).resolved@.len(),
            final(self).resolved@.subrange(0, old(self).resolved@.len() as int)
                == old(self).resolved@,
            // the table never loses or reshapes an entry
            final(self).table.entries@.len() >= old(self).table.entries@.len(),
            forall|j: int|
                0 <= j < old(self).table.entries@.len()
                    ==> (#[trigger] final(self).table.entries@[j]).key@
                        == old(self).table.entries@[j].key@
                    && final(self).table.entries@[j].desc == old(self).table.entries@[j].desc
                    && final(self).table.entries@[j].access
                        == old(self).table.entries@[j].access,
    {
        match self.find_resolved(key) {
            Some(ri) => {
                let ti = self.resolved[ri].table_index;
                if desc_eq(&self.table.entries[ti].desc, &desc) {
                    let h = self.resolved[ri].handle;
                    proof {
                        assert(self.resolved_entry_is(ri as int, key@, desc, h));
                        assert(self.rg.resources@.subrange(0, self.rg.resources@.len() as int)
                            =~= self.rg.resources@);
                        assert(self.resolved@.subrange(0, self.resolved@.len() as int)
                            =~= self.resolved@);
                        assert(!self.key_conflict(key@, desc)) by {
                            if self.key_conflict(key@, desc) {
                                let j = choose|j: int|
                                    0 <= j < self.table.entries@.len()
                                        && (#[trigger] self.table.entries@[j]).key@ == key@
                                        && self.table.entries@[j].desc != desc;
                                assert(self.table.entries@[ti as int].key@ == key@);
                                assert(self.table.entries@[ti as int].desc == desc);
                                if j != ti as int {
                                    assert(false);
                                }
                            }
                        }
                        assert(forall|hh: Handle|
                            self.frame_resolves(key@, desc, hh) ==> hh == h) by {
                            assert forall|hh: Handle|
                                self.frame_resolves(key@, desc, hh) implies hh == h by {
                                let i = choose|i: int|
                                    0 <= i < self.resolved@.len() && #[trigger] self.resolved_entry_is(
                                        i,
                                        key@,
                                        desc,
                                        hh,
                                    );
                                if i != ri as int {
                                    assert(self.table.entries@[self.resolved@[i].table_index as int].key@
                                        == self.table.entries@[self.resolved@[ri as int].table_index as int].key@);
                                    if self.resolved@[i].table_index != self.resolved@[
                                        ri as int
                                    ].table_index {
                                        assert(false);
                                    }
                                }
                            }
                        }
                    }
                    Ok(h)
                } else {
                    proof {
                        assert(self.rg.resources@.subrange(0, self.rg.resources@.len() as int)
                            =~= self.rg.resources@);
                        assert(self.resolved@.subrange(0, self.resolved@.len() as int)
                            =~= self.resolved@);
                        assert(self.table.entries@[ti as int].key@ == key@);
                        assert(self.table.entries@[ti as int].desc != desc);
                        assert(self.key_conflict(key@, desc));
                        assert(forall|hh: Handle| !self.frame_resolves(key@, desc, hh)) by {
                            assert forall|hh: Handle|
                                !self.frame_resolves(key@, desc, hh) by {
                                if self.frame_resolves(key@, desc, hh) {
                                    let i = choose|i: int|
                                        0 <= i < self.resolved@.len()
                                            && #[trigger] self.resolved_entry_is(i, key@, desc, hh);
                                    if i != ri as int && self.resolved@[i].table_index
                                        != self.resolved@[ri as int].table_index {
                                        assert(false);
                                    }
                                }
                            }
                        }
                    }
                    Err(TemporalError::DescMismatch)
                }
            },
            None => {
                let found = self.table.find(key);
                match found {
                    Some(ti) => {
                        if desc_eq(&self.table.entries[ti].desc, &desc) {
                            let access = self.table.entries[ti].access;
                            let h = self.rg.import(&ResourceDesc::Image(desc), access);
                            self.resolved.push(ResolvedTemporal { table_index: ti, handle: h });
                            proof {
                                let n = self.resolved@.len() - 1;
                                assert(self.resolved@[n] == ResolvedTemporal {
                                    table_index: ti,
                                    handle: h,
                                });
                                assert(self.resolved_entry_is(n, key@, desc, h));
                                assert(self.resolved@.subrange(
                                    0,
                                    old(self).resolved@.len() as int,
                                ) =~= old(self).resolved@);
                                assert(!old(self).key_conflict(key@, desc)) by {
                                    if old(self).key_conflict(key@, desc) {
                                        let j = choose|j: int|
                                            0 <= j < old(self).table.entries@.len()
                                                && (#[trigger] old(self).table.entries@[j]).key@
                                                == key@ && old(self).table.entries@[j].desc
                                                != desc;
                                        assert(old(self).table.entries@[ti as int].key@ == key@);
                                        assert(old(self).table.entries@[ti as int].desc == desc);
                                        if j != ti as int {
                                            assert(false);
                                        }
                                    }
                                }
                                assert(self.rg.resources@.subrange(
                                    0,
                                    old(self).rg.resources@.len() as int,
                                ) =~= old(self).rg.resources@);
                                lemma_frame_keys_not_resolved(*old(self), *self, key@, ti, h);
                            }
                            Ok(h)
                        } else {
                            proof {
                                assert(self.rg.resources@.subrange(
                                    0,
                                    self.rg.resources@.len() as int,
                                ) =~= self.rg.resources@);
                                assert(self.resolved@.subrange(0, self.resolved@.len() as int)
                                    =~= self.resolved@);
                                assert(self.table.entries@[ti as int].key@ == key@);
                                assert(self.table.entries@[ti as int].desc != desc);
                                assert(self.key_conflict(key@, desc));
                                assert(forall|hh: Handle| !self.frame_resolves(key@, desc, hh))
                                    by {
                                    assert forall|hh: Handle|
                                        !self.frame_resolves(key@, desc, hh) by {
                                        if self.frame_resolves(key@, desc, hh) {
                                            let i = choose|i: int|
                                                0 <= i < self.resolved@.len()
                                                    && #[trigger] self.resolved_entry_is(
                                                    i,
                                                    key@,
                                                    desc,
                                                    hh,
                                                );
                                        }
                                    }
                                }
                            }
                            Err(TemporalError::DescMismatch)
                        }
                    },
                    None => {
                        let entry = TemporalEntry { key: key.duplicate(), desc, access: AccessType::Nothing };
                        let ti = self.table.entries.len();
                        self.table.entries.push(entry);
                        let h = self.rg.import(&ResourceDesc::Image(desc), AccessType::Nothing);
                        self.resolved.push(ResolvedTemporal { table_index: ti, handle: h });
                        proof {
                            lemma_spec_find_key(old(self).table.keys(), key@);
                            assert(forall|j: int|
                                0 <= j < old(self).table.entries@.len() ==> old(
                                    self,
                                ).table.keys()[j] == (#[trigger] old(self).table.entries@[j]).key@);
                            assert(!old(self).key_conflict(key@, desc)) by {
                                if old(self).key_conflict(key@, desc) {
                                    let j = choose|j: int|
                                        0 <= j < old(self).table.entries@.len()
                                            && (#[trigger] old(self).table.entries@[j]).key@
                                            == key@ && old(self).table.entries@[j].desc != desc;
                                    assert(old(self).table.keys()[j] == key@);
                                }
                            }
                            let n = self.resolved@.len() - 1;
                            assert(self.resolved@[n] == ResolvedTemporal {
                                table_index: ti,
                                handle: h,
                            });
                            assert(self.table.entries@[ti as int].key@ == key@);
                            assert(self.resolved_entry_is(n, key@, desc, h));
                            assert(self.resolved@.subrange(0, old(self).resolved@.len() as int)
                                =~= old(self).resolved@);
                            assert(self.rg.resources@.subrange(
                                0,
                                old(self).rg.resources@.len() as int,
                            ) =~= old(self).rg.resources@);
                            lemma_frame_keys_fresh(*old(self), *self, key@, ti, h);
                        }
                        Ok(h)
                    },
                }
            },
        }
    }
}

impl TemporalRenderGraph {
    /// Record the frame and retire it: every temporal entry adopts the
    /// access the recorded schedule left its resource in, so the next
    /// frame's first transition is computed from it instead of assuming
    /// uninitialized; then the graph and the frame resolutions empty.
    /// Returns the command schedule and the final access of every slot.
    #[verifier::rlimit(100)]
    pub fn end_frame(&mut self) -> (r: (Vec<RecordedCommand>, Vec<AccessType>))
        requires
            old(self).wf(),
            old(self).rg.graph_wf(),
        ensures
            final(self).wf(),
            r.0@ == old(self).rg.spec_commands(),
            r.1@ == old(self).rg.spec_final_state(),
            r.1@.len() == old(self).rg.resources@.len(),
            final(self).table.entries@.len() == old(self).table.entries@.len(),
            // shapes and keys survive; only the tracked access moves
            forall|j: int|
                0 <= j < old(self).table.entries@.len()
                    ==> (#[trigger] final(self).table.entries@[j]).key@
                        == old(self).table.entries@[j].key@
                    && final(self).table.entries@[j].desc == old(self).table.entries@[j].desc,
            // a resolved entry ends the frame at its resource's final access
            forall|i: int|
                0 <= i < old(self).resolved@.len()
                    ==> final(self).table.entries@[(#[trigger] old(
                    self,
                ).resolved@[i]).table_index as int].access
                        == r.1@[old(self).resolved@[i].handle.slot as int],
            // an entry no request touched keeps its access
            forall|j: int|
                0 <= j < old(self).table.entries@.len() && !entry_resolved_before(
                    old(self).resolved@,
                    j,
                    old(self).resolved@.len() as int,
                ) ==> (#[trigger] final(self).table.entries@[j]).access
                    == old(self).table.entries@[j].access,
            final(self).resolved@.len() == 0,
            final(self).rg.resources@.len() == 0,
            final(self).rg.passes@.len() == 0,
            final(self).rg.exports@.len() == 0,
            final(self).rg.graph_wf(),
    {
        let (cmds, state) = self.rg.record();
        write_back_accesses(&mut self.table.entries, &self.resolved, &state);
        self.rg = RenderGraph::new();
        self.resolved = Vec::new();
        proof {
            assert forall|i: int, j: int|
                0 <= i < j < self.table.entries@.len() implies (#[trigger] self.table.entries@[i].key@)
                != (#[trigger] self.table.entries@[j].key@) by {
                assert(self.table.entries@[i].key@ == old(self).table.entries@[i].key@);
                assert(self.table.entries@[j].key@ == old(self).table.entries@[j].key@);
            }
            assert(self.table.wf());
            assert(self.wf());
        }
        (cmds, state)
    }
}

/// Some resolution among the first `upto` points at table entry `j`.
pub open spec fn entry_resolved_before(res: Seq<ResolvedTemporal>, j: int, upto: int) -> bool {
    exists|idx: int| 0 <= idx < upto && (#[trigger] res[idx]).table_index == j
}

/// Write the final access of every resolved entry back into its table
/// entry; every other entry, and every key and shape, stays as it was.
#[verifier::rlimit(100)]
fn write_back_accesses(
    entries: &mut Vec<TemporalEntry>,
    resolved: &Vec<ResolvedTemporal>,
    state: &Vec<AccessType>,
)
    requires
        forall|i: int|
            0 <= i < resolved@.len() ==> (#[trigger] resolved@[i]).table_index < old(
                entries,
            )@.len() && resolved@[i].handle.slot < state@.len(),
        forall|i: int, j: int|
            0 <= i < j < resolved@.len() ==> (#[trigger] resolved@[i]).table_index
                != (#[trigger] resolved@[j]).table_index,
    ensures
        final(entries)@.len() == old(entries)@.len(),
        forall|j: int|
            0 <= j < old(entries)@.len() ==> (#[trigger] final(entries)@[j]).key@ == old(
                entries,
            )@[j].key@ && final(entries)@[j].desc == old(entries)@[j].desc,
        forall|i: int|
            0 <= i < resolved@.len() ==> final(entries)@[(#[trigger] resolved@[i]).table_index as int].access
                == state@[resolved@[i].handle.slot as int],
        forall|j: int|
            0 <= j < old(entries)@.len() && !entry_resolved_before(
                resolved@,
                j,
                resolved@.len() as int,
            ) ==> (#[trigger] final(entries)@[j]).access == old(entries)@[j].access,
{
    let ghost orig = entries@;
    let ghost res = resolved@;
    let n = resolved.len();
    let mut i: usize = 0;
    while i < n
        invariant
            i <= n,
            n == res.len(),
            res == resolved@,
            forall|k: int|
                0 <= k < res.len() ==> (#[trigger] res[k]).table_index < orig.len()
                    && res[k].handle.slot < state@.len(),
            forall|k: int, j: int|
                0 <= k < j < res.len() ==> (#[trigger] res[k]).table_index
                    != (#[trigger] res[j]).table_index,
            entries@.len() == orig.len(),
            orig == old(entries)@,
            forall|j: int|
                0 <= j < orig.len() ==> (#[trigger] entries@[j]).key@ == orig[j].key@
                    && entries@[j].desc == orig[j].desc,
            forall|idx: int|
                0 <= idx < i ==> entries@[(#[trigger] res[idx]).table_index as int].access
                    == state@[res[idx].handle.slot as int],
            forall|j: int|
                0 <= j < orig.len() && !entry_resolved_before(res, j, i as int)
                    ==> (#[trigger] entries@[j]).access == orig[j].access,
        decreases n - i,
    {
        let ti = resolved[i].table_index;
        let slot = resolved[i].handle.slot;
        let v = state[slot];
        let e = vstd::std_specs::vec::vec_index_mut(entries, ti);
        e.access = v;
        proof {
            assert(entries@[ti as int].access == state@[slot as int]);
            assert forall|idx: int|
                0 <= idx < i + 1 implies entries@[(#[trigger] res[idx]).table_index as int].access
                == state@[res[idx].handle.slot as int] by {
                if idx < i {
                    assert(res[idx].table_index != res[i as int].table_index);
                }
            }
            assert forall|j: int|
                0 <= j < orig.len() && !entry_resolved_before(res, j, i as int + 1) implies (
            #[trigger] entries@[j]).access == orig[j].access by {
                assert(res[i as int].table_index == ti);
                assert(j != ti as int);
                assert(!entry_resolved_before(res, j, i as int));
            }
        }
        i += 1;
    }
}

/// A frame resolution survives a later `get_or_create_temporal`: the
/// resolutions and the table entries of earlier requests are untouched.
pub proof fn lemma_frame_resolves_preserved(
    pre: TemporalRenderGraph,
    post: TemporalRenderGraph,
    k: Seq<char>,
    desc: ImageDesc,
    h: Handle,
)
    requires
        pre.wf(),
        pre.frame_resolves(k, desc, h),
        post.resolved@.len() >= pre.resolved@.len(),
        post.resolved@.subrange(0, pre.resolved@.len() as int) == pre.resolved@,
        post.table.entries@.len() >= pre.table.entries@.len(),
        forall|j: int|
            0 <= j < pre.table.entries@.len() ==> (#[trigger] post.table.entries@[j]).key@
                == pre.table.entries@[j].key@ && post.table.entries@[j].desc
                == pre.table.entries@[j].desc,
    ensures
        post.frame_resolves(k, desc, h),
{
    let i = choose|i: int|
        0 <= i < pre.resolved@.len() && #[trigger] pre.resolved_entry_is(i, k, desc, h);
    assert(post.resolved@[i] == pre.resolved@.subrange(0, pre.resolved@.len() as int)[i]);
    assert(post.resolved@[i] == pre.resolved@[i]);
    assert(post.resolved_entry_is(i, k, desc, h));
}

/// Compare two image shapes.
fn desc_eq(a: &ImageDesc, b: &ImageDesc) -> (r: bool)
    ensures
        r == (*a == *b),
{
    a.extent_x == b.extent_x && a.extent_y == b.extent_y && a.extent_z == b.extent_z && a.format
        == b.format && a.usage == b.usage
}

/// After importing a table entry whose key was not yet resolved, the frame
/// state is well formed again and old facts carry over.
proof fn lemma_frame_keys_not_resolved(
    pre: TemporalRenderGraph,
    post: TemporalRenderGraph,
    k: Seq<char>,
    ti: usize,
    h: Handle,
)
    requires
        pre.wf(),
        post.table.entries@ == pre.table.entries@,
        ti < pre.table.entries@.len(),
        pre.table.entries@[ti as int].key@ == k,
        forall|i: int|
            0 <= i < pre.resolved@.len()
                ==> pre.table.entries@[(#[trigger] pre.resolved@[i]).table_index as int].key@ != k,
        post.resolved@ == pre.resolved@.push(ResolvedTemporal { table_index: ti, handle: h }),
        post.rg.resources@ == pre.rg.resources@.push(
            ResourceSlot {
                desc: ResourceDesc::Image(pre.table.entries@[ti as int].desc),
                initial_access: pre.table.entries@[ti as int].access,
                imported: true,
            },
        ),
        h.slot == pre.rg.resources@.len(),
        h.kind == ResourceKind::Image,
    ensures
        post.wf(),
{
    assert(forall|i: int|
        0 <= i < pre.resolved@.len() ==> post.resolved@[i] == pre.resolved@[i]);
    assert forall|i: int, j: int| 0 <= i < j < post.resolved@.len() implies (#[trigger] post.resolved@[i]).table_index
        != (#[trigger] post.resolved@[j]).table_index by {
        if j == post.resolved@.len() - 1 {
            if post.resolved@[i].table_index == ti {
                assert(pre.table.entries@[pre.resolved@[i].table_index as int].key@ == k);
            }
        }
    }
    assert forall|i: int, j: int| 0 <= i < j < post.resolved@.len() implies (#[trigger] post.resolved@[i]).handle.slot
        != (#[trigger] post.resolved@[j]).handle.slot by {
        if j == post.resolved@.len() - 1 {
            assert(pre.resolved@[i].handle.slot < pre.rg.resources@.len());
        }
    }
}

/// After creating a brand-new table entry and importing it, the frame
/// state is well formed again.
proof fn lemma_frame_keys_fresh(
    pre: TemporalRenderGraph,
    post: TemporalRenderGraph,
    k: Seq<char>,
    ti: usize,
    h: Handle,
)
    requires
        pre.wf(),
        ti == pre.table.entries@.len(),
        post.table.entries@.len() == pre.table.entries@.len() + 1,
        forall|j: int|
            0 <= j < pre.table.entries@.len() ==> post.table.entries@[j] == pre.table.entries@[j],
        post.table.entries@[ti as int].key@ == k,
        forall|j: int| 0 <= j < pre.table.entries@.len() ==> pre.table.entries@[j].key@ != k,
        post.resolved@ == pre.resolved@.push(ResolvedTemporal { table_index: ti, handle: h }),
        post.rg.resources@ == pre.rg.resources@.push(
            ResourceSlot {
                desc: ResourceDesc::Image(post.table.entries@[ti as int].desc),
                initial_access: post.table.entries@[ti as int].access,
                imported: true,
            },
        ),
        h.slot == pre.rg.resources@.len(),
        h.kind == ResourceKind::Image,
    ensures
        post.wf(),
{
    assert(forall|i: int|
        0 <= i < pre.resolved@.len() ==> post.resolved@[i] == pre.resolved@[i]);
    assert forall|i: int, j: int| 0 <= i < j < post.resolved@.len() implies (#[trigger] post.resolved@[i]).table_index
        != (#[trigger] post.resolved@[j]).table_index by {
        if j == post.resolved@.len() - 1 {
            if post.resolved@[i].table_index == ti {
                assert(pre.resolved@[i].table_index < pre.table.entries@.len());
            }
        }
    }
    assert forall|i: int, j: int| 0 <= i < j < post.resolved@.len() implies (#[trigger] post.resolved@[i]).handle.slot
        != (#[trigger] post.resolved@[j]).handle.slot by {
        if j == post.resolved@.len() - 1 {
            assert(pre.resolved@[i].handle.slot < pre.rg.resources@.len());
        }
    }
}

/// Whether a key conflicts with a requested shape does not change while
/// the table keeps its entries' keys and shapes and gains at most entries
/// of that very shape.
pub proof fn lemma_key_conflict_preserved(
    pre: TemporalRenderGraph,
    post: TemporalRenderGraph,
    k: Seq<char>,
    desc: ImageDesc,
)
    requires
        post.table.entries@.len() >= pre.table.entries@.len(),
        forall|j: int|
            0 <= j < pre.table.entries@.len() ==> (#[trigger] post.table.entries@[j]).key@
                == pre.table.entries@[j].key@ && post.table.entries@[j].desc
                == pre.table.entries@[j].desc,
        forall|j: int|
            pre.table.entries@.len() <= j < post.table.entries@.len()
                ==> (#[trigger] post.table.entries@[j]).desc == desc,
    ensures
        post.key_conflict(k, desc) == pre.key_conflict(k, desc),
{
    if pre.key_conflict(k, desc) {
        let j = choose|j: int|
            0 <= j < pre.table.entries@.len() && (#[trigger] pre.table.entries@[j]).key@ == k
                && pre.table.entries@[j].desc != desc;
        assert(post.table.entries@[j].key@ == k && post.table.entries@[j].desc != desc);
        assert(post.key_conflict(k, desc));
    }
    if post.key_conflict(k, desc) {
        let j = choose|j: int|
            0 <= j < post.table.entries@.len() && (#[trigger] post.table.entries@[j]).key@ == k
                && post.table.entries@[j].desc != desc;
        assert(j < pre.table.entries@.len());
        assert(pre.key_conflict(k, desc));
    }
}

/// Two keys resolved in one frame never share a physical resource: the
/// no-self-alias guarantee behind the ping-pong pair.
pub proof fn lemma_distinct_keys_distinct_handles(
    tg: TemporalRenderGraph,
    k1: Seq<char>,
    k2: Seq<char>,
    desc1: ImageDesc,
    desc2: ImageDesc,
    h1: Handle,
    h2: Handle,
)
    requires
        tg.wf(),
        tg.frame_resolves(k1, desc1, h1),
        tg.frame_resolves(k2, desc2, h2),
        k1 != k2,
    ensures
        h1 != h2,
{
    let i = choose|i: int|
        0 <= i < tg.resolved@.len() && #[trigger] tg.resolved_entry_is(i, k1, desc1, h1);
    let j = choose|j: int|
        0 <= j < tg.resolved@.len() && #[trigger] tg.resolved_entry_is(j, k2, desc2, h2);
    if i == j {
        assert(tg.table.entries@[tg.resolved@[i].table_index as int].key@ == k1);
        assert(tg.table.entries@[tg.resolved@[j].table_index as int].key@ == k2);
        assert(false);
    } else {
        assert(tg.resolved@[i].handle.slot != tg.resolved@[j].handle.slot);
    }
}

/// Within one frame, a key binds at most one resource: two resolutions of
/// the same key under the same shape are the same handle. Together with the
/// contract of `get_or_create_temporal` this is the idempotence law: a
/// second request for a key with an unchanged shape returns the resource
/// the first request produced.
pub proof fn lemma_temporal_resolution_is_functional(
    tg: TemporalRenderGraph,
    k: Seq<char>,
    desc1: ImageDesc,
    desc2: ImageDesc,
    h1: Handle,
    h2: Handle,
)
    requires
        tg.wf(),
        tg.frame_resolves(k, desc1, h1),
        tg.frame_resolves(k, desc2, h2),
    ensures
        h1 == h2,
        desc1 == desc2,
{
    let i = choose|i: int|
        0 <= i < tg.resolved@.len() && #[trigger] tg.resolved_entry_is(i, k, desc1, h1);
    let j = choose|j: int|
        0 <= j < tg.resolved@.len() && #[trigger] tg.resolved_entry_is(j, k, desc2, h2);
    if i != j {
        if tg.resolved@[i].table_index == tg.resolved@[j].table_index {
            assert(tg.resolved_entry_is(i, k, desc1, h1));
            assert(tg.resolved_entry_is(j, k, desc2, h2));
            assert(h1 == h2 && desc1 == desc2);
        } else {
            assert(tg.table.wf());
            assert(tg.table.entries@[tg.resolved@[i].table_index as int].key@ == k);
            assert(tg.table.entries@[tg.resolved@[j].table_index as int].key@ == k);
            assert(false);
        }
    }
}

} // verus!
