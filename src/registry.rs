//! The registry of live connections: which connection ids have completed their
//! handshake, and the handle through which each of them is reached.
use std::collections::HashMap;

use tokio::sync::mpsc::UnboundedSender;
use vstd::prelude::*;

use crate::message::{ChatMessage, ChatView};

verus! {

broadcast use vstd::std_specs::hash::group_hash_axioms;

#[verifier::external_type_specification]
#[verifier::external_body]
#[verifier::reject_recursive_types(T)]
pub struct ExUnboundedSender<T>(UnboundedSender<T>);

/// The delivery handle of one connection: the sending end of its outbound queue.
pub type Outbound = UnboundedSender<ChatMessage>;

/// Relies on `UnboundedSender::clone`: another handle on the same queue, which
/// is to say the same handle.
#[verifier::external_body]
fn clone_handle(handle: &Outbound) -> (r: Outbound)
    ensures
        r == *handle,
{
    handle.clone()
}

/// `s` without the elements that are in `gone`, order kept.
pub open spec fn remove_all(s: Seq<u64>, gone: Set<u64>) -> Seq<u64>
    decreases s.len(),
{
    if s.len() == 0 {
        s
    } else {
        let rest = remove_all(s.drop_last(), gone);
        if gone.contains(s.last()) {
            rest
        } else {
            rest.push(s.last())
        }
    }
}

/// `s` without `id`, order kept.
pub open spec fn without(s: Seq<u64>, id: u64) -> Seq<u64> {
    remove_all(s, set![id])
}

/// `remove_all` over a prefix grows one element at a time.
pub(crate) proof fn lemma_remove_all_step(s: Seq<u64>, gone: Set<u64>, i: int)
    requires
        0 <= i < s.len(),
    ensures
        remove_all(s.subrange(0, i + 1), gone) == if gone.contains(s[i]) {
            remove_all(s.subrange(0, i), gone)
        } else {
            remove_all(s.subrange(0, i), gone).push(s[i])
        },
{
    assert(s.subrange(0, i + 1).drop_last() =~= s.subrange(0, i));
}

/// What a pushed sequence contains.
pub(crate) proof fn lemma_push_contains(s: Seq<u64>, e: u64, x: u64)
    ensures
        s.push(e).contains(x) <==> s.contains(x) || x == e,
{
    if s.contains(x) {
        let k = choose|k: int| 0 <= k < s.len() && s[k] == x;
        assert(s.push(e)[k] == x);
    }
    if x == e {
        assert(s.push(e)[s.len() as int] == x);
    }
    if s.push(e).contains(x) && x != e {
        let k = choose|k: int| 0 <= k < s.len() + 1 && s.push(e)[k] == x;
        assert(s[k] == x);
    }
}

/// `remove_all` keeps exactly the elements not in `gone`.
pub(crate) proof fn lemma_remove_all_contains(s: Seq<u64>, gone: Set<u64>, x: u64)
    ensures
        remove_all(s, gone).contains(x) <==> s.contains(x) && !gone.contains(x),
    decreases s.len(),
{
    if s.len() > 0 {
        let d = s.drop_last();
        lemma_remove_all_contains(d, gone, x);
        assert(s =~= d.push(s.last()));
        lemma_push_contains(d, s.last(), x);
        lemma_push_contains(remove_all(d, gone), s.last(), x);
    }
}

/// `remove_all` keeps a sequence free of duplicates.
pub(crate) proof fn lemma_remove_all_no_duplicates(s: Seq<u64>, gone: Set<u64>)
    requires
        s.no_duplicates(),
    ensures
        remove_all(s, gone).no_duplicates(),
    decreases s.len(),
{
    if s.len() > 0 {
        let d = s.drop_last();
        assert(d.no_duplicates());
        lemma_remove_all_no_duplicates(d, gone);
        lemma_remove_all_contains(d, gone, s.last());
        if d.contains(s.last()) {
            let k = choose|k: int| 0 <= k < d.len() && d[k] == s.last();
            assert(s[k] == s[s.len() - 1]);
        }
    }
}

/// Removing `a` and then `b` is removing both at once.
pub(crate) proof fn lemma_remove_all_twice(s: Seq<u64>, a: Set<u64>, b: Set<u64>)
    ensures
        remove_all(remove_all(s, a), b) == remove_all(s, a.union(b)),
    decreases s.len(),
{
    if s.len() > 0 {
        lemma_remove_all_twice(s.drop_last(), a, b);
        let r = remove_all(s.drop_last(), a);
        if !a.contains(s.last()) {
            assert(r.push(s.last()).drop_last() =~= r);
        }
    }
}

/// Removing elements that are not there changes nothing.
pub(crate) proof fn lemma_remove_all_absent(s: Seq<u64>, gone: Set<u64>)
    requires
        forall|i: int| 0 <= i < s.len() ==> !gone.contains(#[trigger] s[i]),
    ensures
        remove_all(s, gone) == s,
    decreases s.len(),
{
    if s.len() > 0 {
        lemma_remove_all_absent(s.drop_last(), gone);
        assert(s.drop_last().push(s.last()) =~= s);
    }
}

/// A connection id that is already registered was registered again.
#[derive(Clone, Copy, Debug, PartialEq, Eq, Structural)]
pub enum RegistryError {
    DuplicateRegistration,
}

/// The live connections, in the order in which they registered, each with its
/// delivery handle.
pub struct Registry {
    handles: HashMap<u64, Outbound>,
    order: Vec<u64>,
    sent: Ghost<Seq<(u64, ChatView)>>,
    attempts: Ghost<Seq<(u64, ChatView, bool)>>,
}

impl Registry {
    /// The registered ids, oldest first.
    pub closed spec fn ids(&self) -> Seq<u64> {
        self.order@
    }

    /// The delivery handle of each registered id.
    pub closed spec fn handles(&self) -> Map<u64, Outbound> {
        self.handles@
    }

    /// Every message queued so far for a registered peer, with the peer it was
    /// queued for, in the order in which it was queued. Only a successful send
    /// on the handle registered for that peer adds to it (see `deliver`).
    pub closed spec fn sent(&self) -> Seq<(u64, ChatView)> {
        self.sent@
    }

    /// Every delivery attempted so far: the peer, the message, and whether the
    /// peer's queue took it, in the order of the attempts. Only `deliver` adds
    /// to it.
    pub closed spec fn attempts(&self) -> Seq<(u64, ChatView, bool)> {
        self.attempts@
    }

    /// Each id is registered once, and has a handle exactly when it is registered.
    pub open spec fn wf(&self) -> bool {
        &&& self.ids().no_duplicates()
        &&& forall|k: u64| #[trigger] self.handles().dom().contains(k) <==> self.ids().contains(k)
    }

    proof fn lemma_registered(&self, k: u64)
        requires
            self.wf(),
        ensures
            self.handles@.dom().contains(k) <==> self.order@.contains(k),
    {
        assert(self.handles().dom().contains(k) <==> self.ids().contains(k));
    }

    /// An empty registry.
    pub fn new() -> (r: Self)
        ensures
            r.wf(),
            r.ids() == Seq::<u64>::empty(),
            r.handles() == Map::<u64, Outbound>::empty(),
            r.sent() == Seq::<(u64, ChatView)>::empty(),
            r.attempts() == Seq::<(u64, ChatView, bool)>::empty(),
    {
        Registry {
            handles: HashMap::new(),
            order: Vec::new(),
            sent: Ghost(Seq::empty()),
            attempts: Ghost(Seq::empty()),
        }
    }

    /// The number of registered connections.
    pub fn len(&self) -> (r: usize)
        ensures
            r == self.ids().len(),
    {
        self.order.len()
    }

    /// Whether `id` is registered.
    pub fn contains(&self, id: u64) -> (r: bool)
        requires
            self.wf(),
        ensures
            r == self.ids().contains(id),
    {
        proof {
            self.lemma_registered(id);
        }
        self.handles.contains_key(&id)
    }

    /// The registered ids, oldest first.
    pub fn peer_ids(&self) -> (r: Vec<u64>)
        ensures
            r@ == self.ids(),
    {
        self.order.clone()
    }

    /// Registers `id` with its delivery handle. An id that is already registered
    /// is refused and the registry is left as it was.
    pub fn register(&mut self, id: u64, handle: Outbound) -> (r: Result<(), RegistryError>)
        requires
            old(self).wf(),
        ensures
            final(self).wf(),
            final(self).sent() == old(self).sent(),
            final(self).attempts() == old(self).attempts(),
            old(self).ids().contains(id) ==> {
                &&& r == Err::<(), RegistryError>(RegistryError::DuplicateRegistration)
                &&& final(self).ids() == old(self).ids()
                &&& final(self).handles() == old(self).handles()
            },
            !old(self).ids().contains(id) ==> {
                &&& r is Ok
                &&& final(self).ids() == old(self).ids().push(id)
                &&& final(self).handles() == old(self).handles().insert(id, handle)
            },
    {
        proof {
            self.lemma_registered(id);
        }
        if self.handles.contains_key(&id) {
            return Err(RegistryError::DuplicateRegistration);
        }
        self.handles.insert(id, handle);
        self.order.push(id);
        proof {
            assert forall|k: u64| #[trigger] self.handles().dom().contains(k) <==> self.ids().contains(k) by {
                old(self).lemma_registered(k);
                lemma_push_contains(old(self).ids(), id, k);
            }
            assert forall|i: int, j: int|
                0 <= i < self.ids().len() && 0 <= j < self.ids().len() && i != j
                implies self.ids()[i] != self.ids()[j] by {
                if i == self.ids().len() - 1 {
                    assert(old(self).ids()[j] == self.ids()[j]);
                } else if j == self.ids().len() - 1 {
                    assert(old(self).ids()[i] == self.ids()[i]);
                }
            }
        }
        Ok(())
    }

    /// Removes `id`, and says whether it was registered. Removing an id that is
    /// not registered changes nothing, so two removals of one id are harmless.
    pub fn deregister(&mut self, id: u64) -> (r: bool)
        requires
            old(self).wf(),
        ensures
            final(self).wf(),
            final(self).sent() == old(self).sent(),
            final(self).attempts() == old(self).attempts(),
            r == old(self).ids().contains(id),
            final(self).ids() == without(old(self).ids(), id),
            final(self).handles() == old(self).handles().remove(id),
            !r ==> final(self).ids() == old(self).ids() && final(self).handles() == old(self).handles(),
    {
        proof {
            self.lemma_registered(id);
        }
        let removed = self.handles.remove(&id);
        let ghost before = self.order@;
        let mut kept: Vec<u64> = Vec::new();
        let n = self.order.len();
        for i in 0..n
            invariant
                n == self.order@.len(),
                self.order@ == before,
                kept@ == remove_all(before.subrange(0, i as int), set![id]),
        {
            proof {
                lemma_remove_all_step(before, set![id], i as int);
            }
            let k = self.order[i];
            if k != id {
                kept.push(k);
            }
        }
        proof {
            assert(before.subrange(0, n as int) =~= before);
            lemma_remove_all_no_duplicates(before, set![id]);
            assert forall|k: u64| #[trigger] self.handles@.dom().contains(k) <==> kept@.contains(k) by {
                lemma_remove_all_contains(before, set![id], k);
                old(self).lemma_registered(k);
            }
            if !before.contains(id) {
                lemma_remove_all_absent(before, set![id]);
                assert(self.handles@ =~= old(self).handles());
            }
        }
        self.order = kept;
        removed.is_some()
    }

    /// Every registered id but `excluding`, oldest first, each with a handle on
    /// its outbound queue.
    pub fn snapshot_targets(&self, excluding: u64) -> (r: Vec<(u64, Outbound)>)
        requires
            self.wf(),
        ensures
            r@.map_values(|t: (u64, Outbound)| t.0) == without(self.ids(), excluding),
            forall|i: int| 0 <= i < r@.len() ==> #[trigger] r@[i].1 == self.handles()[r@[i].0],
    {
        let mut r: Vec<(u64, Outbound)> = Vec::new();
        let n = self.order.len();
        for i in 0..n
            invariant
                n == self.ids().len(),
                self.wf(),
                r@.map_values(|t: (u64, Outbound)| t.0) == remove_all(
                    self.ids().subrange(0, i as int),
                    set![excluding],
                ),
                forall|j: int| 0 <= j < r@.len() ==> #[trigger] r@[j].1 == self.handles()[r@[j].0],
        {
            proof {
                lemma_remove_all_step(self.ids(), set![excluding], i as int);
            }
            let k = self.order[i];
            if k != excluding {
                assert(self.ids().contains(k)) by {
                    assert(self.ids()[i as int] == k);
                }
                proof {
                    self.lemma_registered(k);
                }
                match self.handles.get(&k) {
                    Some(h) => {
                        let ghost prev = r@;
                        r.push((k, clone_handle(h)));
                        assert(r@.map_values(|t: (u64, Outbound)| t.0) =~= prev.map_values(
                            |t: (u64, Outbound)| t.0,
                        ).push(k));
                    },
                    None => {
                        assert(false);
                    },
                }
            }
        }
        assert(self.ids().subrange(0, n as int) =~= self.ids());
        r
    }

    /// Sends `message` on `handle`, the handle registered for `peer`; records the
    /// attempt and its outcome, and records the message as queued for `peer` when
    /// the send succeeds.
    ///
    /// Relies on `UnboundedSender::send`: it never blocks; it queues the message
    /// and returns `Ok` while the receiving end is open, and fails once that end
    /// is closed. Whether it is open is not known here, so nothing is promised of
    /// the outcome beyond what it means.
    #[verifier::external_body]
    pub(crate) fn deliver(&mut self, peer: u64, handle: &Outbound, message: ChatMessage) -> (r: bool)
        requires
            old(self).handles().dom().contains(peer),
            *handle == old(self).handles()[peer],
        ensures
            final(self).ids() == old(self).ids(),
            final(self).handles() == old(self).handles(),
            final(self).sent() == if r {
                old(self).sent().push((peer, message@))
            } else {
                old(self).sent()
            },
            final(self).attempts() == old(self).attempts().push((peer, message@, r)),
    {
        handle.send(message).is_ok()
    }
}

} // verus!
