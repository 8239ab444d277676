//! The command buffer: it stages the component insertions of a load, merges
//! those that aim at one entity into a single operation, and keeps account
//! of every payload that has to be destroyed.
//!
//! The buffer decides; it does not touch the host world or the arenas. A
//! payload is known to it by the address it was given and by the handle of
//! its destructor. What the buffer hands out, the caller performs: the
//! operations against the world, and the destruction of each payload in
//! the drop queue.

use vstd::prelude::*;

verus! {

/// A type-erased component in an arena: where it lies, and the handle of the
/// function that destroys it.
#[derive(Debug, Clone, Copy, PartialEq, Eq, Structural)]
pub struct ArenaBox {
    pub ptr: usize,
    pub drop_fn: usize,
}

/// One staged insertion: the component type, the payload and its destructor.
#[derive(Debug, Clone, Copy, PartialEq, Eq, Structural)]
pub struct ArgMeta {
    pub comp_id: usize,
    pub payload_ptr: usize,
    /// The destructor of the payload; `None` for a payload that needs none.
    pub drop_fn: Option<usize>,
}

/// A recorded operation.
#[derive(Debug, Clone, PartialEq, Eq)]
pub enum OpHead {
    /// Insert all of `args` into `entity` in one move.
    ModifyEntity { entity: u64, args: Vec<ArgMeta> },
    /// Insert one component type into many entities: `payloads[i]` goes to
    /// `entities[i]`.
    BatchInsert {
        entities: Vec<u64>,
        payloads: Vec<usize>,
        comp_id: usize,
        stride: usize,
        drop_fn: Option<usize>,
    },
    /// Remove the component types `ids` from `entity`.
    RemoveComponents { entity: u64, ids: Vec<usize> },
    /// Remove `entity` from the world.
    Despawn(u64),
}

/// The mathematical value of an [`OpHead`].
pub enum OpModel {
    ModifyEntity { entity: u64, args: Seq<ArgMeta> },
    BatchInsert {
        entities: Seq<u64>,
        payloads: Seq<usize>,
        comp_id: usize,
        stride: usize,
        drop_fn: Option<usize>,
    },
    RemoveComponents { entity: u64, ids: Seq<usize> },
    Despawn(u64),
}

impl OpModel {
    /// The payloads that the operation owns until it is performed.
    pub open spec fn payloads(self) -> Seq<ArgMeta> {
        match self {
            OpModel::ModifyEntity { args, .. } => args,
            OpModel::BatchInsert { payloads, comp_id, drop_fn, .. } => Seq::new(
                payloads.len(),
                |i: int| ArgMeta { comp_id, payload_ptr: payloads[i], drop_fn },
            ),
            _ => Seq::empty(),
        }
    }
}

impl DeepView for OpHead {
    type V = OpModel;

    open spec fn deep_view(&self) -> OpModel {
        match self {
            OpHead::ModifyEntity { entity, args } => OpModel::ModifyEntity {
                entity: *entity,
                args: args@,
            },
            OpHead::BatchInsert { entities, payloads, comp_id, stride, drop_fn } => {
                OpModel::BatchInsert {
                    entities: entities@,
                    payloads: payloads@,
                    comp_id: *comp_id,
                    stride: *stride,
                    drop_fn: *drop_fn,
                }
            },
            OpHead::RemoveComponents { entity, ids } => OpModel::RemoveComponents {
                entity: *entity,
                ids: ids@,
            },
            OpHead::Despawn(entity) => OpModel::Despawn(*entity),
        }
    }
}

/// Whether some insertion of `args` is of the component type `comp_id`.
pub open spec fn has_comp(args: Seq<ArgMeta>, comp_id: usize) -> bool {
    exists|j: int| 0 <= j < args.len() && (#[trigger] args[j]).comp_id == comp_id
}

/// The insertions that stay when writes are combined: of each component
/// type the one staged last, in the order in which they were staged.
pub open spec fn survivors(args: Seq<ArgMeta>) -> Seq<ArgMeta>
    decreases args.len(),
{
    if args.len() == 0 {
        Seq::empty()
    } else if has_comp(args.drop_first(), args[0].comp_id) {
        survivors(args.drop_first())
    } else {
        seq![args[0]] + survivors(args.drop_first())
    }
}

/// The insertions that a later one of the same component type overwrites, in
/// the order in which they were staged.
pub open spec fn overwritten(args: Seq<ArgMeta>) -> Seq<ArgMeta>
    decreases args.len(),
{
    if args.len() == 0 {
        Seq::empty()
    } else if has_comp(args.drop_first(), args[0].comp_id) {
        seq![args[0]] + overwritten(args.drop_first())
    } else {
        overwritten(args.drop_first())
    }
}

/// Those of `args` that have a destructor, in their order.
pub open spec fn droppable(args: Seq<ArgMeta>) -> Seq<ArgMeta>
    decreases args.len(),
{
    if args.len() == 0 {
        Seq::empty()
    } else if args.last().drop_fn is Some {
        droppable(args.drop_last()).push(args.last())
    } else {
        droppable(args.drop_last())
    }
}

/// The payloads that the operations own, operation by operation.
pub open spec fn owned_by(ops: Seq<OpModel>) -> Seq<ArgMeta>
    decreases ops.len(),
{
    if ops.len() == 0 {
        Seq::empty()
    } else {
        owned_by(ops.drop_last()) + ops.last().payloads()
    }
}

/// The state of a command buffer.
pub struct BufferModel {
    /// The recorded operations, in order.
    pub ops: Seq<OpModel>,
    /// The entity whose insertions are being gathered.
    pub pending_entity: Option<u64>,
    /// The insertions gathered for it, in order.
    pub pending_args: Seq<ArgMeta>,
    /// The payloads that are to be destroyed, in the order in which the
    /// buffer gave them up.
    pub dropped: Seq<ArgMeta>,
}

impl BufferModel {
    /// Insertions are pending exactly while an entity is.
    pub open spec fn wf(self) -> bool {
        self.pending_entity is None <==> self.pending_args.len() == 0
    }

    /// Every payload that the buffer still owns: those of the recorded
    /// operations, then the pending ones.
    pub open spec fn staged(self) -> Seq<ArgMeta> {
        owned_by(self.ops) + self.pending_args
    }

    /// The state after one more insertion is staged: it joins the pending
    /// ones where it aims at their entity, and else becomes the first pending
    /// one of a flushed buffer.
    pub open spec fn inserted(self, entity: u64, arg: ArgMeta) -> Self {
        if self.pending_entity == Some(entity) {
            BufferModel { pending_args: self.pending_args.push(arg), ..self }
        } else {
            BufferModel {
                pending_entity: Some(entity),
                pending_args: seq![arg],
                ..self.flushed()
            }
        }
    }

    /// The state after the insertions `args` are staged for `entity`, one
    /// after the other.
    pub open spec fn inserted_all(self, entity: u64, args: Seq<ArgMeta>) -> Self
        decreases args.len(),
    {
        if args.len() == 0 {
            self
        } else {
            self.inserted_all(entity, args.drop_last()).inserted(entity, args.last())
        }
    }

    /// The state after the pending insertions have become one operation: of
    /// each component type the last insertion stays, the earlier ones go to
    /// the drop queue.
    pub open spec fn flushed(self) -> Self {
        match self.pending_entity {
            Some(entity) if self.pending_args.len() > 0 => BufferModel {
                ops: self.ops.push(
                    OpModel::ModifyEntity { entity, args: survivors(self.pending_args) },
                ),
                pending_entity: None,
                pending_args: Seq::empty(),
                dropped: self.dropped + droppable(overwritten(self.pending_args)),
            },
            _ => BufferModel { pending_entity: None, pending_args: Seq::empty(), ..self },
        }
    }
}

/// A command buffer.
#[derive(Debug)]
pub struct HarvardCommandBuffer {
    ops: Vec<OpHead>,
    pending_entity: Option<u64>,
    pending_args: Vec<ArgMeta>,
    dropped: Vec<ArgMeta>,
}

impl View for HarvardCommandBuffer {
    type V = BufferModel;

    closed spec fn view(&self) -> BufferModel {
        BufferModel {
            ops: self.ops.deep_view(),
            pending_entity: self.pending_entity,
            pending_args: self.pending_args@,
            dropped: self.dropped@,
        }
    }
}

/// Whether some insertion of `args` behind index `i` is of the component
/// type `comp_id`.
fn later_has(args: &Vec<ArgMeta>, i: usize, comp_id: usize) -> (b: bool)
    requires
        i < args.len(),
    ensures
        b == has_comp(args@.skip(i + 1), comp_id),
{
    let mut j: usize = i + 1;
    while j < args.len()
        invariant
            i < j <= args.len(),
            forall|k: int| i < k < j ==> args@[k].comp_id != comp_id,
        decreases args.len() - j,
    {
        if args[j].comp_id == comp_id {
            assert(args@.skip(i + 1)[j - i - 1] == args@[j as int]);
            return true;
        }
        j += 1;
    }
    assert(!has_comp(args@.skip(i + 1), comp_id)) by {
        assert forall|k: int| 0 <= k < args@.skip(i + 1).len() implies (
        #[trigger] args@.skip(i + 1)[k]).comp_id != comp_id by {
            assert(args@.skip(i + 1)[k] == args@[k + i + 1]);
        }
    }
    false
}

impl HarvardCommandBuffer {
    /// An empty buffer.
    pub fn new() -> (r: Self)
        ensures
            r@.ops.len() == 0,
            r@.pending_entity is None,
            r@.pending_args.len() == 0,
            r@.dropped.len() == 0,
            r@.wf(),
    {
        let r = HarvardCommandBuffer {
            ops: Vec::new(),
            pending_entity: None,
            pending_args: Vec::new(),
            dropped: Vec::new(),
        };
        assert(r@.ops =~= Seq::empty());
        r
    }

    /// Turns the pending insertions into one operation on their entity.
    /// Where several are of one component type, the last one stays and the
    /// earlier ones go to the drop queue.
    pub fn flush(&mut self)
        requires
            old(self)@.wf(),
        ensures
            final(self)@ == old(self)@.flushed(),
            final(self)@.wf(),
    {
        let entity = match self.pending_entity {
            Some(entity) => entity,
            None => {
                assert(self@.pending_args =~= Seq::empty());
                return ;
            },
        };
        let ghost args = self.pending_args@;
        let n = self.pending_args.len();
        let mut kept: Vec<ArgMeta> = Vec::new();
        let ghost dropped0 = self.dropped@;
        let ghost mut gone: Seq<ArgMeta> = Seq::empty();
        let mut i: usize = 0;
        assert(args.skip(0) =~= args);
        while i < n
            invariant
                i <= n,
                n == args.len(),
                args.len() > 0,
                self.pending_args@ == args,
                self.pending_entity == Some(entity),
                self.ops == old(self).ops,
                survivors(args) == kept@ + survivors(args.skip(i as int)),
                overwritten(args) == gone + overwritten(args.skip(i as int)),
                self.dropped@ == dropped0 + droppable(gone),
            decreases n - i,
        {
            let arg = self.pending_args[i];
            proof {
                assert(args.skip(i as int)[0] == arg);
                assert(args.skip(i as int).drop_first() =~= args.skip(i + 1));
            }
            if later_has(&self.pending_args, i, arg.comp_id) {
                proof {
                    assert(gone.push(arg).drop_last() =~= gone);
                    assert(gone + (seq![arg] + overwritten(args.skip(i + 1))) =~= gone.push(arg)
                        + overwritten(args.skip(i + 1)));
                }
                if arg.drop_fn.is_some() {
                    self.dropped.push(arg);
                }
                proof {
                    gone = gone.push(arg);
                    assert(self.dropped@ =~= dropped0 + droppable(gone));
                }
            } else {
                kept.push(arg);
                assert(kept@ + survivors(args.skip(i + 1)) =~= kept@.drop_last() + (seq![arg]
                    + survivors(args.skip(i + 1))));
            }
            i += 1;
        }
        proof {
            assert(args.skip(n as int) =~= Seq::<ArgMeta>::empty());
            assert(kept@ =~= survivors(args));
            assert(gone =~= overwritten(args));
        }
        let ghost ops0 = self.ops.deep_view();
        self.ops.push(OpHead::ModifyEntity { entity, args: kept });
        self.pending_args.clear();
        self.pending_entity = None;
        proof {
            assert(self.ops.deep_view() =~= ops0.push(
                OpModel::ModifyEntity { entity, args: survivors(args) },
            ));
            assert(self@.pending_args =~= Seq::empty());
        }
    }

    /// Stages the insertion of a payload into `entity`. Insertions that follow
    /// each other for one entity are gathered; an insertion for another
    /// entity first turns the gathered ones into an operation.
    pub fn insert_raw(
        &mut self,
        entity: u64,
        comp_id: usize,
        payload_ptr: usize,
        drop_fn: Option<usize>,
    )
        requires
            old(self)@.wf(),
        ensures
            final(self)@.wf(),
            final(self)@ == old(self)@.inserted(entity, ArgMeta { comp_id, payload_ptr, drop_fn }),
    {
        let same = match self.pending_entity {
            Some(e) => e == entity,
            None => false,
        };
        if !same {
            self.flush();
            self.pending_entity = Some(entity);
        }
        self.pending_args.push(ArgMeta { comp_id, payload_ptr, drop_fn });
        proof {
            if !same {
                assert(self@.pending_args =~= seq![ArgMeta { comp_id, payload_ptr, drop_fn }]);
            }
        }
    }

    /// Stages the insertion of an arena-allocated component into `entity`.
    pub fn insert_box(&mut self, entity: u64, comp_id: usize, payload: ArenaBox)
        requires
            old(self)@.wf(),
        ensures
            final(self)@.wf(),
            final(self)@ == old(self)@.inserted(
                entity,
                ArgMeta { comp_id, payload_ptr: payload.ptr, drop_fn: Some(payload.drop_fn) },
            ),
    {
        self.insert_raw(entity, comp_id, payload.ptr, Some(payload.drop_fn));
    }

    /// Records the insertion of one component type into many entities, after
    /// what is pending. Nothing is recorded for an empty batch.
    pub fn insert_batch_raw(
        &mut self,
        entities: Vec<u64>,
        payloads: Vec<usize>,
        comp_id: usize,
        stride: usize,
        drop_fn: Option<usize>,
    )
        requires
            old(self)@.wf(),
            entities@.len() == payloads@.len(),
        ensures
            final(self)@.wf(),
            final(self)@ == (if entities@.len() == 0 {
                old(self)@.flushed()
            } else {
                BufferModel {
                    ops: old(self)@.flushed().ops.push(
                        OpModel::BatchInsert {
                            entities: entities@,
                            payloads: payloads@,
                            comp_id,
                            stride,
                            drop_fn,
                        },
                    ),
                    ..old(self)@.flushed()
                }
            }),
    {
        self.flush();
        if entities.len() == 0 {
            return ;
        }
        let ghost ops0 = self.ops.deep_view();
        self.ops.push(OpHead::BatchInsert { entities, payloads, comp_id, stride, drop_fn });
        assert(self.ops.deep_view() =~= ops0.push(
            OpModel::BatchInsert {
                entities: entities@,
                payloads: payloads@,
                comp_id,
                stride,
                drop_fn,
            },
        ));
    }

    /// Records the removal of component types from `entity`, after what is
    /// pending. Nothing is recorded for an empty list.
    pub fn remove_raw(&mut self, entity: u64, components: Vec<usize>)
        requires
            old(self)@.wf(),
        ensures
            final(self)@.wf(),
            final(self)@ == (if components@.len() == 0 {
                old(self)@.flushed()
            } else {
                BufferModel {
                    ops: old(self)@.flushed().ops.push(
                        OpModel::RemoveComponents { entity, ids: components@ },
                    ),
                    ..old(self)@.flushed()
                }
            }),
    {
        self.flush();
        if components.len() == 0 {
            return ;
        }
        let ghost ops0 = self.ops.deep_view();
        self.ops.push(OpHead::RemoveComponents { entity, ids: components });
        assert(self.ops.deep_view() =~= ops0.push(
            OpModel::RemoveComponents { entity, ids: components@ },
        ));
    }

    /// Records the removal of `entity` from the world, after what is pending.
    pub fn despawn(&mut self, entity: u64)
        requires
            old(self)@.wf(),
        ensures
            final(self)@.wf(),
            final(self)@ == (BufferModel {
                ops: old(self)@.flushed().ops.push(OpModel::Despawn(entity)),
                ..old(self)@.flushed()
            }),
    {
        self.flush();
        let ghost ops0 = self.ops.deep_view();
        self.ops.push(OpHead::Despawn(entity));
        assert(self.ops.deep_view() =~= ops0.push(OpModel::Despawn(entity)));
    }

    /// Hands out the recorded operations, in the order in which they were
    /// recorded and with what was pending as the last of them, for the caller
    /// to perform. The payloads of the operations pass to the caller with
    /// them; the drop queue stays.
    pub fn apply(&mut self) -> (ops: Vec<OpHead>)
        requires
            old(self)@.wf(),
        ensures
            ops.deep_view() == old(self)@.flushed().ops,
            final(self)@ == (BufferModel { ops: Seq::empty(), ..old(self)@.flushed() }),
            final(self)@.wf(),
    {
        self.flush();
        let mut ops: Vec<OpHead> = Vec::new();
        std::mem::swap(&mut self.ops, &mut ops);
        assert(self@.ops =~= Seq::empty());
        ops
    }

    /// The payloads that an operation owns and that have a destructor: what
    /// is to be destroyed where the operation cannot be performed.
    pub fn owned_payloads(op: &OpHead) -> (r: Vec<ArgMeta>)
        ensures
            r@ == droppable(op.deep_view().payloads()),
    {
        let mut out: Vec<ArgMeta> = Vec::new();
        match op {
            OpHead::ModifyEntity { args, .. } => {
                let mut i: usize = 0;
                assert(args@.take(0) =~= Seq::empty());
                while i < args.len()
                    invariant
                        i <= args.len(),
                        out@ == droppable(args@.take(i as int)),
                    decreases args.len() - i,
                {
                    proof {
                        assert(args@.take(i + 1).drop_last() =~= args@.take(i as int));
                    }
                    if args[i].drop_fn.is_some() {
                        out.push(args[i]);
                    }
                    i += 1;
                }
                assert(args@.take(args@.len() as int) =~= args@);
            },
            OpHead::BatchInsert { payloads, comp_id, drop_fn, .. } => {
                let ghost all = op.deep_view().payloads();
                let mut i: usize = 0;
                assert(all.take(0) =~= Seq::empty());
                while i < payloads.len()
                    invariant
                        i <= payloads.len(),
                        all.len() == payloads@.len(),
                        forall|k: int|
                            0 <= k < all.len() ==> all[k] == (ArgMeta {
                                comp_id: *comp_id,
                                payload_ptr: payloads@[k],
                                drop_fn: *drop_fn,
                            }),
                        out@ == droppable(all.take(i as int)),
                    decreases payloads.len() - i,
                {
                    proof {
                        assert(all.take(i + 1).drop_last() =~= all.take(i as int));
                    }
                    if drop_fn.is_some() {
                        out.push(
                            ArgMeta {
                                comp_id: *comp_id,
                                payload_ptr: payloads[i],
                                drop_fn: *drop_fn,
                            },
                        );
                    }
                    i += 1;
                }
                assert(all.take(all.len() as int) =~= all);
            },
            _ => {},
        }
        out
    }

    /// Gives up everything that is staged: the payloads of the recorded
    /// operations and the pending ones go to the drop queue, each once, and
    /// the buffer is empty again.
    pub fn reset(&mut self)
        ensures
            final(self)@ == (BufferModel {
                ops: Seq::empty(),
                pending_entity: None,
                pending_args: Seq::empty(),
                dropped: old(self)@.dropped + droppable(old(self)@.staged()),
            }),
            final(self)@.wf(),
    {
        let ghost ops = self.ops.deep_view();
        let ghost pending = self.pending_args@;
        let ghost dropped0 = self.dropped@;
        let mut k: usize = 0;
        assert(ops.take(0) =~= Seq::empty());
        assert(self.dropped@ =~= dropped0 + droppable(owned_by(ops.take(0))));
        while k < self.ops.len()
            invariant
                k <= self.ops.len(),
                self.ops.deep_view() == ops,
                self.pending_args@ == pending,
                self.dropped@ == dropped0 + droppable(owned_by(ops.take(k as int))),
            decreases self.ops.len() - k,
        {
            let mut owned = Self::owned_payloads(&self.ops[k]);
            proof {
                assert(ops.take(k + 1).drop_last() =~= ops.take(k as int));
                assert(ops.take(k + 1).last() == ops[k as int]);
                lemma_droppable_concat(owned_by(ops.take(k as int)), ops[k as int].payloads());
            }
            let ghost before = self.dropped@;
            self.dropped.append(&mut owned);
            assert(self.dropped@ =~= dropped0 + droppable(owned_by(ops.take(k + 1))));
            k += 1;
        }
        assert(ops.take(ops.len() as int) =~= ops);
        let mut i: usize = 0;
        let ghost dropped1 = self.dropped@;
        assert(pending.take(0) =~= Seq::empty());
        while i < self.pending_args.len()
            invariant
                i <= self.pending_args.len(),
                self.pending_args@ == pending,
                self.dropped@ == dropped1 + droppable(pending.take(i as int)),
            decreases self.pending_args.len() - i,
        {
            proof {
                assert(pending.take(i + 1).drop_last() =~= pending.take(i as int));
            }
            let arg = self.pending_args[i];
            if arg.drop_fn.is_some() {
                self.dropped.push(arg);
            }
            i += 1;
        }
        proof {
            assert(pending.take(pending.len() as int) =~= pending);
            lemma_droppable_concat(owned_by(ops), pending);
            assert(self.dropped@ =~= dropped0 + droppable(owned_by(ops) + pending));
        }
        self.ops.clear();
        self.pending_args.clear();
        self.pending_entity = None;
        assert(self@.ops =~= Seq::empty());
        assert(self@.pending_args =~= Seq::empty());
    }

    /// Empties the drop queue: the payloads whose destructors the caller now
    /// has to run, each once.
    pub fn take_dropped(&mut self) -> (r: Vec<ArgMeta>)
        ensures
            r@ == old(self)@.dropped,
            final(self)@ == (BufferModel { dropped: Seq::empty(), ..old(self)@ }),
    {
        let mut out: Vec<ArgMeta> = Vec::new();
        std::mem::swap(&mut self.dropped, &mut out);
        assert(self@.dropped =~= Seq::empty());
        out
    }

    /// Ends the buffer without applying it: every payload that is staged or
    /// waits in the drop queue is handed out to be destroyed, each once.
    pub fn teardown(self) -> (r: Vec<ArgMeta>)
        ensures
            r@ == self@.dropped + droppable(self@.staged()),
    {
        let mut buffer = self;
        buffer.reset();
        buffer.take_dropped()
    }
}

/// The payloads with a destructor of two lists are those of the first and
/// then those of the second.
pub proof fn lemma_droppable_concat(a: Seq<ArgMeta>, b: Seq<ArgMeta>)
    ensures
        droppable(a + b) == droppable(a) + droppable(b),
    decreases b.len(),
{
    if b.len() == 0 {
        assert(a + b =~= a);
        assert(droppable(a) + droppable(b) =~= droppable(a));
    } else {
        lemma_droppable_concat(a, b.drop_last());
        assert((a + b).drop_last() =~= a + b.drop_last());
        assert((a + b).last() == b.last());
        if b.last().drop_fn is Some {
            assert(droppable(a + b) =~= droppable(a) + droppable(b));
        }
    }
}

/// What stays when writes are combined is staged, and nothing staged behind
/// it is of its component type.
pub proof fn lemma_survivor_is_last(args: Seq<ArgMeta>, s: int)
    requires
        0 <= s < survivors(args).len(),
    ensures
        exists|i: int|
            0 <= i < args.len() && #[trigger] args[i] == survivors(args)[s] && !has_comp(
                args.skip(i + 1),
                args[i].comp_id,
            ),
    decreases args.len(),
{
    let rest = args.drop_first();
    assert(rest =~= args.skip(1));
    if has_comp(rest, args[0].comp_id) {
        lemma_survivor_is_last(rest, s);
        let i = choose|i: int|
            0 <= i < rest.len() && #[trigger] rest[i] == survivors(rest)[s] && !has_comp(
                rest.skip(i + 1),
                rest[i].comp_id,
            );
        assert(rest.skip(i + 1) =~= args.skip(i + 2));
        assert(args[i + 1] == survivors(args)[s]);
    } else if s == 0 {
        assert(args[0] == survivors(args)[0]);
    } else {
        lemma_survivor_is_last(rest, s - 1);
        let i = choose|i: int|
            0 <= i < rest.len() && #[trigger] rest[i] == survivors(rest)[s - 1] && !has_comp(
                rest.skip(i + 1),
                rest[i].comp_id,
            );
        assert(rest.skip(i + 1) =~= args.skip(i + 2));
        assert(args[i + 1] == survivors(args)[s]);
    }
}

/// The last insertion of a component type stays when writes are combined.
pub proof fn lemma_last_survives(args: Seq<ArgMeta>, i: int)
    requires
        0 <= i < args.len(),
        !has_comp(args.skip(i + 1), args[i].comp_id),
    ensures
        survivors(args).contains(args[i]),
    decreases args.len(),
{
    let rest = args.drop_first();
    assert(rest =~= args.skip(1));
    if i == 0 {
        assert(survivors(args)[0] == args[0]);
    } else {
        assert(rest.skip(i) =~= args.skip(i + 1));
        lemma_last_survives(rest, i - 1);
        let s = choose|s: int| 0 <= s < survivors(rest).len() && survivors(rest)[s] == rest[i - 1];
        if has_comp(rest, args[0].comp_id) {
            assert(survivors(args)[s] == args[i]);
        } else {
            assert(survivors(args)[s + 1] == args[i]);
        }
    }
}

/// No two of the insertions that stay are of one component type.
pub proof fn lemma_survivors_distinct(args: Seq<ArgMeta>)
    ensures
        forall|x: int, y: int|
            0 <= x < y < survivors(args).len() ==> (#[trigger] survivors(args)[x]).comp_id != (
            #[trigger] survivors(args)[y]).comp_id,
    decreases args.len(),
{
    if args.len() > 0 {
        let rest = args.drop_first();
        lemma_survivors_distinct(rest);
        if !has_comp(rest, args[0].comp_id) {
            assert forall|x: int, y: int| 0 <= x < y < survivors(args).len() implies (
            #[trigger] survivors(args)[x]).comp_id != (#[trigger] survivors(args)[y]).comp_id by {
                if x == 0 {
                    lemma_survivor_is_last(rest, y - 1);
                } else {
                    assert(survivors(args)[x] == survivors(rest)[x - 1]);
                    assert(survivors(args)[y] == survivors(rest)[y - 1]);
                }
            }
        }
    }
}

/// Every staged insertion either stays or is overwritten: each payload is
/// accounted for once.
pub proof fn lemma_combining_accounts(args: Seq<ArgMeta>)
    ensures
        survivors(args).to_multiset().add(overwritten(args).to_multiset()) == args.to_multiset(),
    decreases args.len(),
{
    broadcast use vstd::seq_lib::group_to_multiset_ensures;

    if args.len() == 0 {
        assert(survivors(args).to_multiset().add(overwritten(args).to_multiset())
            =~= args.to_multiset());
    } else {
        let rest = args.drop_first();
        lemma_combining_accounts(rest);
        assert(args =~= seq![args[0]] + rest);
        vstd::seq_lib::lemma_multiset_commutative(seq![args[0]], rest);
        if has_comp(rest, args[0].comp_id) {
            vstd::seq_lib::lemma_multiset_commutative(seq![args[0]], overwritten(rest));
        } else {
            vstd::seq_lib::lemma_multiset_commutative(seq![args[0]], survivors(rest));
        }
        assert(survivors(args).to_multiset().add(overwritten(args).to_multiset())
            =~= args.to_multiset());
    }
}

/// Of two insertions of one component type into one entity the second stays
/// and the first is given up, once.
pub proof fn lemma_second_write_wins(first: ArgMeta, second: ArgMeta)
    requires
        first.comp_id == second.comp_id,
    ensures
        survivors(seq![first, second]) == seq![second],
        overwritten(seq![first, second]) == seq![first],
{
    let args = seq![first, second];
    let rest = args.drop_first();
    assert(rest =~= seq![second]);
    assert(rest[0].comp_id == first.comp_id);
    assert(rest.drop_first() =~= Seq::<ArgMeta>::empty());
    assert(!has_comp(rest.drop_first(), second.comp_id));
    assert(survivors(rest.drop_first()) =~= Seq::<ArgMeta>::empty());
    assert(overwritten(rest.drop_first()) =~= Seq::<ArgMeta>::empty());
    assert(survivors(rest) =~= seq![second]);
    assert(overwritten(rest) =~= Seq::<ArgMeta>::empty());
    assert(survivors(args) =~= seq![second]);
    assert(overwritten(args) =~= seq![first]);
}

/// However many components are staged for one entity, they become a single
/// operation: the entity moves once.
pub proof fn lemma_one_operation_per_entity(b: BufferModel, entity: u64, args: Seq<ArgMeta>)
    requires
        b.wf(),
        b.pending_entity is None,
        args.len() > 0,
    ensures
        b.inserted_all(entity, args).wf(),
        b.inserted_all(entity, args).pending_entity == Some(entity),
        b.inserted_all(entity, args).pending_args == args,
        b.inserted_all(entity, args).ops == b.ops,
        b.inserted_all(entity, args).flushed().ops == b.ops.push(
            OpModel::ModifyEntity { entity, args: survivors(args) },
        ),
    decreases args.len(),
{
    if args.len() == 1 {
        assert(args.drop_last() =~= Seq::<ArgMeta>::empty());
        assert(b.inserted_all(entity, args.drop_last()) == b);
        assert(b.pending_args =~= Seq::<ArgMeta>::empty());
        assert(b.flushed() == b);
        assert(seq![args.last()] =~= args);
    } else {
        lemma_one_operation_per_entity(b, entity, args.drop_last());
        assert(args.drop_last().push(args.last()) =~= args);
    }
}

} // verus!
