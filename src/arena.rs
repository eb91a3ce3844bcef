use vstd::prelude::*;
use std::collections::HashMap;

use crate::registry::{select_global, selection_of, BindError, GlobalDescriptor, Selection};

verus! {

broadcast use vstd::std_specs::hash::group_hash_axioms;

/// Lifecycle of one protocol object known to the engine.
#[derive(Clone, Copy, Debug, PartialEq, Eq, Structural)]
pub enum ObjectState {
    /// The bound toplevel manager.
    Manager,
    /// A toplevel handle that receives events.
    Active,
    /// A toplevel handle after its closing event; it takes no further events.
    Closed,
}

/// Which kind of object a message was delivered to.
#[derive(Clone, Copy, Debug, PartialEq, Eq, Structural)]
pub enum ObjectKind {
    Manager,
    Handle,
}

/// Events that the manager object receives.
#[derive(Clone, Copy, Debug, PartialEq, Eq, Structural)]
pub enum ManagerEvent {
    /// A new toplevel was announced; `new_id` names the handle object for it.
    Toplevel { new_id: u32 },
    /// The server sends no more events to this manager.
    Finished,
}

/// Events that a toplevel handle receives.
pub enum HandleEvent {
    TitleChanged(String),
    AppIdChanged(String),
    /// The raw state array as sent on the wire.
    StateChanged(Vec<u8>),
    OutputEntered(u32),
    OutputLeft(u32),
    ParentChanged(Option<u32>),
    Done,
    Closed,
}

/// The decoded payload of an inbound message.
pub enum EventBody {
    Manager(ManagerEvent),
    Handle(HandleEvent),
}

/// One decoded inbound message, addressed to the object `target`.
pub struct Message {
    pub target: u32,
    pub body: EventBody,
}

/// Where a message was delivered, and the handle it created, if any.
#[derive(Clone, Copy, Debug, PartialEq, Eq, Structural)]
pub struct Route {
    pub target: u32,
    pub kind: ObjectKind,
    pub created: Option<u32>,
}

/// Why a message could not be dispatched; each of these is a protocol
/// failure of the connection.
#[derive(Clone, Copy, Debug, PartialEq, Eq, Structural)]
pub enum DispatchError {
    /// The target id names no live object.
    UnknownObject(u32),
    /// The event belongs to another interface than the target's.
    WrongInterface(u32),
    /// The target handle was already closed.
    HandleClosed(u32),
    /// A creation event reused an id that names a live object.
    IdInUse(u32),
}

pub open spec fn is_closing(body: EventBody) -> bool {
    match body {
        EventBody::Handle(HandleEvent::Closed) => true,
        _ => false,
    }
}

/// The effect of dispatching `m` against the objects `objs`: the new objects
/// and the route taken, or the failure.
pub open spec fn step(objs: Map<u32, ObjectState>, m: Message) -> Result<
    (Map<u32, ObjectState>, Route),
    DispatchError,
> {
    if !objs.contains_key(m.target) {
        Err(DispatchError::UnknownObject(m.target))
    } else {
        match (objs[m.target], m.body) {
            (ObjectState::Manager, EventBody::Manager(ManagerEvent::Toplevel { new_id })) => {
                if objs.contains_key(new_id) {
                    Err(DispatchError::IdInUse(new_id))
                } else {
                    Ok(
                        (
                            objs.insert(new_id, ObjectState::Active),
                            Route { target: m.target, kind: ObjectKind::Manager, created: Some(new_id) },
                        ),
                    )
                }
            },
            (ObjectState::Manager, EventBody::Manager(ManagerEvent::Finished)) => Ok(
                (objs, Route { target: m.target, kind: ObjectKind::Manager, created: None }),
            ),
            (ObjectState::Active, EventBody::Handle(e)) => Ok(
                (
                    if is_closing(m.body) {
                        objs.insert(m.target, ObjectState::Closed)
                    } else {
                        objs
                    },
                    Route { target: m.target, kind: ObjectKind::Handle, created: None },
                ),
            ),
            (ObjectState::Closed, _) => Err(DispatchError::HandleClosed(m.target)),
            _ => Err(DispatchError::WrongInterface(m.target)),
        }
    }
}

/// Dispatching `msgs` in order from `objs`: the objects after the last message
/// dispatched, the routes taken, and the failure that stopped the batch, if any.
pub open spec fn run(objs: Map<u32, ObjectState>, msgs: Seq<Message>) -> (
    Map<u32, ObjectState>,
    Seq<Route>,
    Option<DispatchError>,
)
    decreases msgs.len(),
{
    if msgs.len() == 0 {
        (objs, Seq::empty(), None)
    } else {
        let (o, rs, e) = run(objs, msgs.drop_last());
        if e is Some {
            (o, rs, e)
        } else {
            match step(o, msgs.last()) {
                Ok((o2, r)) => (o2, rs.push(r), None),
                Err(err) => (o, rs, Some(err)),
            }
        }
    }
}

/// No object but the one at `manager` is a manager, and before a manager is
/// bound no object is known.
pub open spec fn manager_at(objs: Map<u32, ObjectState>, manager: Option<u32>) -> bool {
    &&& manager is None ==> objs.is_empty()
    &&& forall|k: u32| objs.contains_key(k) && objs[k] == ObjectState::Manager ==> manager == Some(k)
    &&& manager matches Some(m) ==> objs.contains_key(m) && objs[m] == ObjectState::Manager
}

/// The object arena of one event queue: every object id that the server may
/// address, with its state.
pub struct Engine {
    objects: HashMap<u32, ObjectState>,
    manager: Option<u32>,
}

impl View for Engine {
    type V = Map<u32, ObjectState>;

    closed spec fn view(&self) -> Map<u32, ObjectState> {
        self.objects@
    }
}

impl Engine {
    pub closed spec fn wf(&self) -> bool {
        manager_at(self@, self.manager)
    }

    pub closed spec fn manager_id(&self) -> Option<u32> {
        self.manager
    }

    /// An engine that knows no object yet.
    pub fn new() -> (r: Engine)
        ensures
            r.wf(),
            r@ == Map::<u32, ObjectState>::empty(),
            r.manager_id() is None,
    {
        Engine { objects: HashMap::new(), manager: None }
    }

    /// The id of the bound manager, if any.
    pub fn manager(&self) -> (r: Option<u32>)
        ensures
            r == self.manager_id(),
    {
        self.manager
    }

    /// The state of the object `id`, if it is known.
    pub fn state_of(&self, id: u32) -> (r: Option<ObjectState>)
        ensures
            r == (if self@.contains_key(id) { Some(self@[id]) } else { None::<ObjectState> }),
    {
        match self.objects.get(&id) {
            Some(s) => Some(*s),
            None => None,
        }
    }

    /// Binds the manager: selects a global as `select_global` does and registers
    /// the new manager object under `id`, so that events for `id` reach it.
    pub fn bind_manager(
        &mut self,
        globals: &Vec<GlobalDescriptor>,
        interface: &String,
        min: u32,
        max: u32,
        id: u32,
    ) -> (r: Result<Selection, BindError>)
        requires
            old(self).wf(),
        ensures
            final(self).wf(),
            old(self).manager_id() is Some ==> r == Err::<Selection, BindError>(
                BindError::AlreadyBound,
            ),
            old(self).manager_id() is None ==> old(self)@.is_empty() && r == selection_of(
                globals@,
                interface@,
                min,
                max,
            ),
            r is Ok ==> final(self)@ == old(self)@.insert(id, ObjectState::Manager)
                && final(self).manager_id() == Some(id),
            r is Ok ==> managers_of(final(self)@) == set![id],
            r is Err ==> final(self)@ == old(self)@ && final(self).manager_id() == old(
                self,
            ).manager_id(),
    {
        if self.manager.is_some() {
            return Err(BindError::AlreadyBound);
        }
        let r = select_global(globals, interface, min, max);
        if r.is_ok() {
            proof {
                assert(managers_of(self@) =~= Set::<u32>::empty());
                lemma_single_manager(self@, id, Seq::<Message>::empty());
            }
            self.objects.insert(id, ObjectState::Manager);
            self.manager = Some(id);
        }
        r
    }

    /// Dispatches one message: a creation event registers the new handle before
    /// anything else can address it; a closing event closes the handle.
    pub fn dispatch(&mut self, msg: &Message) -> (r: Result<Route, DispatchError>)
        requires
            old(self).wf(),
        ensures
            final(self).wf(),
            final(self).manager_id() == old(self).manager_id(),
            match step(old(self)@, *msg) {
                Ok((o, route)) => r == Ok::<Route, DispatchError>(route) && final(self)@ == o,
                Err(e) => r == Err::<Route, DispatchError>(e) && final(self)@ == old(self)@,
            },
    {
        let target = msg.target;
        let st = match self.objects.get(&target) {
            Some(s) => *s,
            None => {
                return Err(DispatchError::UnknownObject(target));
            },
        };
        match st {
            ObjectState::Manager => match &msg.body {
                EventBody::Manager(ManagerEvent::Toplevel { new_id }) => {
                    let new_id = *new_id;
                    if self.objects.contains_key(&new_id) {
                        Err(DispatchError::IdInUse(new_id))
                    } else {
                        self.objects.insert(new_id, ObjectState::Active);
                        Ok(Route { target, kind: ObjectKind::Manager, created: Some(new_id) })
                    }
                },
                EventBody::Manager(ManagerEvent::Finished) => {
                    Ok(Route { target, kind: ObjectKind::Manager, created: None })
                },
                EventBody::Handle(_) => Err(DispatchError::WrongInterface(target)),
            },
            ObjectState::Active => match &msg.body {
                EventBody::Handle(e) => {
                    if let HandleEvent::Closed = e {
                        self.objects.insert(target, ObjectState::Closed);
                    }
                    Ok(Route { target, kind: ObjectKind::Handle, created: None })
                },
                EventBody::Manager(_) => Err(DispatchError::WrongInterface(target)),
            },
            ObjectState::Closed => Err(DispatchError::HandleClosed(target)),
        }
    }

    /// Dispatches the messages of one roundtrip in order. The first failure
    /// stops the batch: no later message is dispatched, and the failure is
    /// returned.
    pub fn dispatch_batch(&mut self, batch: &Vec<Message>) -> (r: Result<Vec<Route>, DispatchError>)
        requires
            old(self).wf(),
        ensures
            final(self).wf(),
            final(self).manager_id() == old(self).manager_id(),
            final(self)@ == run(old(self)@, batch@).0,
            match run(old(self)@, batch@).2 {
                None => r matches Ok(routes) && routes@ == run(old(self)@, batch@).1,
                Some(e) => r == Err::<Vec<Route>, DispatchError>(e),
            },
    {
        let mut routes: Vec<Route> = Vec::new();
        let mut i: usize = 0;
        while i < batch.len()
            invariant
                self.wf(),
                self.manager_id() == old(self).manager_id(),
                0 <= i <= batch@.len(),
                run(old(self)@, batch@.take(i as int)).2 is None,
                self@ == run(old(self)@, batch@.take(i as int)).0,
                routes@ == run(old(self)@, batch@.take(i as int)).1,
            decreases batch@.len() - i,
        {
            assert(batch@.take(i as int + 1).drop_last() == batch@.take(i as int));
            match self.dispatch(&batch[i]) {
                Ok(route) => {
                    routes.push(route);
                },
                Err(e) => {
                    proof {
                        lemma_failure_stops_dispatch(
                            old(self)@,
                            batch@.take(i as int + 1),
                            batch@.skip(i as int + 1),
                        );
                        assert(batch@.take(i as int + 1) + batch@.skip(i as int + 1) == batch@);
                    }
                    return Err(e);
                },
            }
            i = i + 1;
        }
        assert(batch@.take(i as int) == batch@);
        Ok(routes)
    }

}

/// Once a dispatch fails, nothing after it is dispatched: appending any
/// messages to a failed batch changes neither the objects, nor the routes, nor
/// the failure.
pub proof fn lemma_failure_stops_dispatch(
    objs: Map<u32, ObjectState>,
    msgs: Seq<Message>,
    more: Seq<Message>,
)
    requires
        run(objs, msgs).2 is Some,
    ensures
        run(objs, msgs + more) == run(objs, msgs),
    decreases more.len(),
{
    if more.len() > 0 {
        lemma_failure_stops_dispatch(objs, msgs, more.drop_last());
        assert((msgs + more).drop_last() == msgs + more.drop_last());
    } else {
        assert(msgs + more == msgs);
    }
}

/// The ids of the objects in `objs` that are managers.
pub open spec fn managers_of(objs: Map<u32, ObjectState>) -> Set<u32> {
    objs.dom().filter(|k: u32| objs[k] == ObjectState::Manager)
}

/// `m` is the manager `manager` announcing a new handle under `id`.
pub open spec fn announces(m: Message, manager: u32, id: u32) -> bool {
    m.target == manager && m.body == EventBody::Manager(ManagerEvent::Toplevel { new_id: id })
}

/// `m` is a handle event other than the closing one.
pub open spec fn plain_handle_event(m: Message) -> bool {
    m.body is Handle && !is_closing(m.body)
}

/// The route of a creation event of `manager` that registered `id`.
pub open spec fn creation_route(manager: u32, id: u32) -> Route {
    Route { target: manager, kind: ObjectKind::Manager, created: Some(id) }
}

/// The route of an event delivered to the handle `id`.
pub open spec fn handle_route(id: u32) -> Route {
    Route { target: id, kind: ObjectKind::Handle, created: None }
}

/// `objs` with every id of `ids` added as an active handle, in order.
pub open spec fn with_handles(objs: Map<u32, ObjectState>, ids: Seq<u32>) -> Map<u32, ObjectState>
    decreases ids.len(),
{
    if ids.len() == 0 {
        objs
    } else {
        with_handles(objs, ids.drop_last()).insert(ids.last(), ObjectState::Active)
    }
}

proof fn lemma_with_handles(objs: Map<u32, ObjectState>, ids: Seq<u32>, x: u32)
    ensures
        with_handles(objs, ids).contains_key(x) <==> objs.contains_key(x) || ids.contains(x),
        ids.contains(x) ==> with_handles(objs, ids)[x] == ObjectState::Active,
        !ids.contains(x) && objs.contains_key(x) ==> with_handles(objs, ids)[x] == objs[x],
    decreases ids.len(),
{
    if ids.len() > 0 {
        lemma_with_handles(objs, ids.drop_last(), x);
        if ids.contains(x) && x != ids.last() {
            let i = choose|i: int| 0 <= i < ids.len() && ids[i] == x;
            assert(ids.drop_last()[i] == x);
        }
        if ids.drop_last().contains(x) {
            let i = choose|i: int| 0 <= i < ids.drop_last().len() && ids.drop_last()[i] == x;
            assert(ids[i] == x);
        }
        if x == ids.last() {
            assert(ids[ids.len() - 1] == x);
        }
    }
}

proof fn lemma_creations_then_uses_prefix(
    objs: Map<u32, ObjectState>,
    manager: u32,
    ids: Seq<u32>,
    msgs: Seq<Message>,
    k: int,
)
    requires
        objs.contains_key(manager),
        objs[manager] == ObjectState::Manager,
        ids.no_duplicates(),
        forall|i: int| 0 <= i < ids.len() ==> !objs.contains_key(#[trigger] ids[i]),
        ids.len() <= msgs.len(),
        forall|i: int| 0 <= i < ids.len() ==> announces(#[trigger] msgs[i], manager, ids[i]),
        forall|i: int|
            ids.len() <= i < msgs.len() ==> ids.contains((#[trigger] msgs[i]).target)
                && plain_handle_event(msgs[i]),
        0 <= k <= msgs.len(),
    ensures
        run(objs, msgs.take(k)).2 is None,
        run(objs, msgs.take(k)).0 == with_handles(
            objs,
            ids.take(if k < ids.len() { k } else { ids.len() as int }),
        ),
        run(objs, msgs.take(k)).1.len() == k,
        forall|i: int|
            0 <= i < k && i < ids.len() ==> #[trigger] run(objs, msgs.take(k)).1[i] == creation_route(manager, ids[i]),
        forall|i: int|
            ids.len() <= i < k ==> #[trigger] run(objs, msgs.take(k)).1[i] == handle_route(msgs[i].target),
    decreases k,
{
    if k == 0 {
        assert(ids.take(0) == Seq::<u32>::empty());
    } else {
        lemma_creations_then_uses_prefix(objs, manager, ids, msgs, k - 1);
        assert(msgs.take(k).drop_last() == msgs.take(k - 1));
        assert(msgs.take(k).last() == msgs[k - 1]);
        let n = ids.len() as int;
        if k - 1 < n {
            let done = ids.take(k - 1);
            lemma_with_handles(objs, done, manager);
            if done.contains(manager) {
                let j = choose|j: int| 0 <= j < done.len() && done[j] == manager;
                assert(ids[j] == manager);
            }
            lemma_with_handles(objs, done, ids[k - 1]);
            if done.contains(ids[k - 1]) {
                let j = choose|j: int| 0 <= j < done.len() && done[j] == ids[k - 1];
                assert(ids[j] == ids[k - 1]);
            }
            assert(ids.take(k).drop_last() == done);
            assert(ids.take(k).last() == ids[k - 1]);
        } else {
            let t = msgs[k - 1].target;
            assert(ids.take(n) == ids);
            lemma_with_handles(objs, ids, t);
        }
    }
}

/// Creation comes before use: after a manager announces handles under fresh,
/// distinct ids, any events for those handles (short of a closing one) are all
/// delivered, each to its handle, and every handle stays registered.
pub proof fn lemma_creation_before_use(
    objs: Map<u32, ObjectState>,
    manager: u32,
    ids: Seq<u32>,
    msgs: Seq<Message>,
)
    requires
        objs.contains_key(manager),
        objs[manager] == ObjectState::Manager,
        ids.no_duplicates(),
        forall|i: int| 0 <= i < ids.len() ==> !objs.contains_key(#[trigger] ids[i]),
        ids.len() <= msgs.len(),
        forall|i: int| 0 <= i < ids.len() ==> announces(#[trigger] msgs[i], manager, ids[i]),
        forall|i: int|
            ids.len() <= i < msgs.len() ==> ids.contains((#[trigger] msgs[i]).target)
                && plain_handle_event(msgs[i]),
    ensures
        run(objs, msgs).2 is None,
        run(objs, msgs).0 == with_handles(objs, ids),
        run(objs, msgs).1.len() == msgs.len(),
        forall|i: int|
            0 <= i < ids.len() ==> #[trigger] run(objs, msgs).1[i] == creation_route(manager, ids[i]),
        forall|i: int|
            ids.len() <= i < msgs.len() ==> #[trigger] run(objs, msgs).1[i] == handle_route(msgs[i].target),
{
    lemma_creations_then_uses_prefix(objs, manager, ids, msgs, msgs.len() as int);
    assert(msgs.take(msgs.len() as int) == msgs);
    assert(ids.take(ids.len() as int) == ids);
}

/// No use before creation: a message for an id that names no object is
/// refused, and nothing after it in the batch is dispatched.
pub proof fn lemma_use_before_creation_fails(
    objs: Map<u32, ObjectState>,
    m: Message,
    rest: Seq<Message>,
)
    requires
        !objs.contains_key(m.target),
    ensures
        run(objs, seq![m] + rest).0 == objs,
        run(objs, seq![m] + rest).1.len() == 0,
        run(objs, seq![m] + rest).2 == Some(DispatchError::UnknownObject(m.target)),
{
    assert(seq![m].drop_last() == Seq::<Message>::empty());
    assert(seq![m].last() == m);
    let none: Seq<Message> = Seq::empty();
    assert(run(objs, none).2 is None);
    assert(run(objs, seq![m]).2 is Some);
    lemma_failure_stops_dispatch(objs, seq![m], rest);
}

/// Binding into an arena without a manager leaves exactly one manager, the
/// new object; dispatching messages never adds or removes one.
pub proof fn lemma_single_manager(objs: Map<u32, ObjectState>, id: u32, msgs: Seq<Message>)
    requires
        managers_of(objs).is_empty(),
    ensures
        managers_of(objs.insert(id, ObjectState::Manager)) == set![id],
        managers_of(run(objs.insert(id, ObjectState::Manager), msgs).0) == set![id],
    decreases msgs.len(),
{
    let o = objs.insert(id, ObjectState::Manager);
    assert forall|k: u32| managers_of(o).contains(k) <==> k == id by {
        if k != id && o.contains_key(k) && o[k] == ObjectState::Manager {
            assert(managers_of(objs).contains(k));
        }
    }
    assert(managers_of(o) =~= set![id]);
    if msgs.len() > 0 {
        lemma_single_manager(objs, id, msgs.drop_last());
        let prev = run(o, msgs.drop_last());
        if prev.2 is None {
            lemma_step_keeps_managers(prev.0, msgs.last());
        }
    }
}

/// A dispatched message never changes which objects are managers.
pub proof fn lemma_step_keeps_managers(objs: Map<u32, ObjectState>, m: Message)
    ensures
        step(objs, m) is Ok ==> managers_of(step(objs, m)->Ok_0.0) == managers_of(objs),
{
    if let Ok((o, _)) = step(objs, m) {
        assert(managers_of(o) =~= managers_of(objs));
    }
}

} // verus!
