//! The command aggregator: the one owner of the set of subscribed observers.
//!
//! It is a state machine driven by the task that owns the inbound command
//! channel. A registration joins the set; a telemetry batch is handed back to
//! the caller with the observers to deliver it to, and the caller reports for
//! each whether its bounded queue took the batch. An observer whose queue was
//! full or closed leaves the set; no other observer is touched.
use crate::wire::Update;
use vstd::prelude::*;

verus! {

/// An observer's registration: an identifier and the sending half of its
/// bounded outbound queue.
pub struct Watcher<S> {
    pub id: u64,
    pub outbound: S,
}

/// What the aggregator receives on its inbound channel.
pub enum Command<S> {
    /// A new observer to deliver to.
    RegisterWatcher(Watcher<S>),
    /// A batch to deliver to every registered observer.
    TelemetryBatch(Update),
}

/// The observers of `ws` whose delivery in `ok` succeeded, in their order.
pub open spec fn kept<S>(ws: Seq<Watcher<S>>, ok: Seq<bool>) -> Seq<Watcher<S>>
    decreases ws.len(),
{
    if ws.len() == 0 || ok.len() == 0 {
        Seq::empty()
    } else {
        let prev = kept(ws.drop_last(), ok.drop_last());
        if ok.last() {
            prev.push(ws.last())
        } else {
            prev
        }
    }
}

/// The set after `cmd`, and the batch it asks to deliver: a registration
/// joins the end of the set; a batch leaves the set as it is.
pub open spec fn step<S>(ws: Seq<Watcher<S>>, cmd: Command<S>) -> (Seq<Watcher<S>>, Option<Update>) {
    match cmd {
        Command::RegisterWatcher(w) => (ws.push(w), None),
        Command::TelemetryBatch(u) => (ws, Some(u)),
    }
}

/// The identifiers of `ws`, in order.
pub open spec fn ids<S>(ws: Seq<Watcher<S>>) -> Seq<u64> {
    ws.map_values(|w: Watcher<S>| w.id)
}

pub struct Aggregator<S> {
    watchers: Vec<Watcher<S>>,
}

impl<S> View for Aggregator<S> {
    type V = Seq<Watcher<S>>;

    closed spec fn view(&self) -> Seq<Watcher<S>> {
        self.watchers@
    }
}

impl<S> Aggregator<S> {
    /// An aggregator with no observer.
    pub fn new() -> (r: Self)
        ensures
            r@ == Seq::<Watcher<S>>::empty(),
    {
        Aggregator { watchers: Vec::new() }
    }

    /// The registered observers, in the order they registered.
    pub fn watchers(&self) -> (r: &Vec<Watcher<S>>)
        ensures
            r@ == self@,
    {
        &self.watchers
    }

    /// Handles one command. A registration is added after the registered
    /// observers and yields nothing to deliver; a batch leaves the set as it
    /// is and is handed back, to be delivered to each of `watchers()`.
    pub fn handle(&mut self, cmd: Command<S>) -> (r: Option<Update>)
        ensures
            (final(self)@, r) == step(old(self)@, cmd),
    {
        match cmd {
            Command::RegisterWatcher(w) => {
                self.watchers.push(w);
                None
            },
            Command::TelemetryBatch(u) => Some(u),
        }
    }

    /// Keeps the observers whose delivery succeeded: `delivered[i]` tells
    /// whether the `i`-th observer's queue took the last batch.
    pub fn retain_delivered(&mut self, delivered: &Vec<bool>)
        requires
            delivered@.len() == old(self)@.len(),
        ensures
            final(self)@ == kept(old(self)@, delivered@),
    {
        let ghost ws = self.watchers@;
        let mut stay: Vec<Watcher<S>> = Vec::new();
        let n = self.watchers.len();
        let mut i: usize = 0;
        while i < n
            invariant
                ws.len() == n,
                delivered@.len() == n,
                i <= n,
                self.watchers@ == ws.skip(i as int),
                stay@ == kept(ws.take(i as int), delivered@.take(i as int)),
            decreases n - i,
        {
            let w = self.watchers.remove(0);
            proof {
                assert(ws.take(i + 1).drop_last() =~= ws.take(i as int));
                assert(delivered@.take(i + 1).drop_last() =~= delivered@.take(i as int));
                assert(ws.skip(i as int).remove(0) =~= ws.skip(i + 1));
            }
            if delivered[i] {
                stay.push(w);
            }
            i = i + 1;
        }
        proof {
            assert(ws.take(n as int) =~= ws);
            assert(delivered@.take(n as int) =~= delivered@);
        }
        self.watchers = stay;
    }
}

/// No two observers of `ws` share an identifier.
pub open spec fn ids_unique<S>(ws: Seq<Watcher<S>>) -> bool {
    forall|a: int, b: int| 0 <= a < ws.len() && 0 <= b < ws.len() && a != b ==> ws[a].id != ws[b].id
}

proof fn lemma_kept_has_id<S>(ws: Seq<Watcher<S>>, ok: Seq<bool>, id: u64)
    requires
        ok.len() == ws.len(),
    ensures
        ids(kept(ws, ok)).contains(id) <==> exists|j: int|
            0 <= j < ws.len() && ok[j] && #[trigger] ws[j].id == id,
    decreases ws.len(),
{
    if ws.len() > 0 {
        let pw = ws.drop_last();
        let po = ok.drop_last();
        let n = ws.len() - 1;
        lemma_kept_has_id(pw, po, id);
        let prev = kept(pw, po);
        if ok.last() {
            assert(ids(kept(ws, ok)) =~= ids(prev).push(ws[n].id));
        } else {
            assert(ids(kept(ws, ok)) =~= ids(prev));
        }
        if exists|j: int| 0 <= j < ws.len() && ok[j] && #[trigger] ws[j].id == id {
            let j = choose|j: int| 0 <= j < ws.len() && ok[j] && #[trigger] ws[j].id == id;
            if j < n {
                assert(po[j] && pw[j].id == id);
                let k = choose|k: int| 0 <= k < ids(prev).len() && ids(prev)[k] == id;
                assert(ids(kept(ws, ok))[k] == id);
            } else {
                assert(ids(kept(ws, ok))[ids(prev).len() as int] == id);
            }
        }
        if ids(kept(ws, ok)).contains(id) {
            let k = choose|k: int| 0 <= k < ids(kept(ws, ok)).len() && ids(kept(ws, ok))[k] == id;
            if k < ids(prev).len() {
                assert(ids(prev)[k] == id);
                let j = choose|j: int| 0 <= j < pw.len() && po[j] && #[trigger] pw[j].id == id;
                assert(ok[j] && ws[j].id == id);
            } else {
                assert(ok[n] && ws[n].id == id);
            }
        }
    } else {
        assert(ids(kept(ws, ok)) =~= Seq::<u64>::empty());
    }
}

/// An observer that subscribes and then sees one batch handled is among
/// those the batch is handed to, after the observers already registered.
/// When the batch reaches its queue it stays registered; when its queue
/// refuses the batch (full or closed) it leaves the set, while every other
/// observer whose queue took the batch stays.
pub proof fn lemma_subscribe_then_batch<S>(ws: Seq<Watcher<S>>, w: Watcher<S>, u: Update, ok: Seq<bool>)
    requires
        ids_unique(ws.push(w)),
        ok.len() == ws.len() + 1,
    ensures
        ({
            let (ws1, r1) = step(ws, Command::RegisterWatcher(w));
            let (ws2, r2) = step(ws1, Command::TelemetryBatch(u));
            let after = kept(ws2, ok);
            &&& r1 is None
            &&& r2 == Some(u)
            &&& ws2 == ws.push(w)
            &&& (ok.last() <==> ids(after).contains(w.id))
            &&& forall|j: int| 0 <= j < ws.len() && ok[j] ==> ids(after).contains(#[trigger] ws[j].id)
        }),
{
    let ws2 = ws.push(w);
    let n = ws.len() as int;
    lemma_kept_has_id(ws2, ok, w.id);
    assert(ws2[n] == w);
    if !ok.last() && ids(kept(ws2, ok)).contains(w.id) {
        let j = choose|j: int| 0 <= j < ws2.len() && ok[j] && #[trigger] ws2[j].id == w.id;
        assert(ws2[j].id == ws2[n].id);
    }
    assert forall|j: int| 0 <= j < ws.len() && ok[j] implies ids(kept(ws2, ok)).contains(
        #[trigger] ws[j].id,
    ) by {
        lemma_kept_has_id(ws2, ok, ws[j].id);
        assert(ws2[j] == ws[j]);
    }
}

} // verus!
