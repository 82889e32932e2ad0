//! The propagation protocol: connectors (value cells), the network that owns
//! every cell and constraint, and the worklist engine that fans a set or a
//! forget out to the attached constraints.
//!
//! Connectors and constraints form a possibly cyclic graph, so no cell owns
//! another: a `Network` arena owns them all, and they refer to one another by
//! stable index. A constraint's index is also its identity, used only to keep
//! a constraint from being re-notified about a change it itself caused and to
//! gate retraction.

use crate::adder::Adder;
use crate::constant::Constant;
use crate::multiplier::Multiplier;
use vstd::prelude::*;

verus! {

/// Identity of whoever is responsible for a connector's current value: a
/// constraint of the network (by its index) or an external caller (by a
/// caller-chosen number). The two namespaces are distinct by construction, so
/// an external informer can never collide with a constraint's identity.
#[derive(Clone, Copy, PartialEq, Eq, Structural, Debug)]
pub enum Informant {
    Constraint(usize),
    External(usize),
}

/// Reported when a value arrives at a connector that already holds a
/// different one. Names both values; the connector keeps the one it had.
#[derive(Clone, Copy, PartialEq, Eq, Structural, Debug)]
pub struct Contradiction {
    /// The value the connector already holds.
    pub current: i64,
    /// The conflicting value that was offered.
    pub proposed: i64,
}

/// Reported when a constraint identity is attached to a connector that
/// already lists it. The attachment list is left as it was.
#[derive(Clone, Copy, PartialEq, Eq, Structural, Debug)]
pub struct AlreadyConnected;

/// One numeric cell of the network: an optional value, the identity of
/// whoever set it, and the constraints attached to it in attachment order.
pub struct Connector {
    pub value: Option<i64>,
    pub informant: Option<Informant>,
    pub constraints: Vec<usize>,
}

/// A relation over two or three connectors, one of the three variants.
#[derive(Clone, Copy)]
pub enum Constraint {
    Adder(Adder),
    Multiplier(Multiplier),
    Constant(Constant),
}

impl Connector {
    /// A fresh cell: no value, no informant, nothing attached.
    pub fn new() -> (r: Connector)
        ensures
            r.value is None,
            r.informant is None,
            r.constraints@ == Seq::<usize>::empty(),
    {
        Connector { value: None, informant: None, constraints: Vec::new() }
    }

    /// True iff a value is currently recorded.
    pub fn has_value(&self) -> (r: bool)
        ensures
            r == (self.value is Some),
    {
        self.value.is_some()
    }

    /// The current value, if any.
    pub fn get_value(&self) -> (r: Option<i64>)
        ensures
            r == self.value,
    {
        self.value
    }

    /// Attaches a constraint identity. Fails without mutating anything if the
    /// same identity is already attached; otherwise appends it, keeping
    /// attachment order.
    pub fn connect(&mut self, constraint: usize) -> (r: Result<(), AlreadyConnected>)
        ensures
            old(self).constraints@.contains(constraint) ==> {
                &&& r == Err::<(), AlreadyConnected>(AlreadyConnected)
                &&& *final(self) == *old(self)
            },
            !old(self).constraints@.contains(constraint) ==> {
                &&& r == Ok::<(), AlreadyConnected>(())
                &&& final(self).constraints@ == old(self).constraints@.push(constraint)
                &&& final(self).value == old(self).value
                &&& final(self).informant == old(self).informant
            },
    {
        let n = self.constraints.len();
        let mut k: usize = 0;
        while k < n
            invariant
                n == self.constraints@.len(),
                k <= n,
                forall|j: int| 0 <= j < k ==> self.constraints@[j] != constraint,
            decreases n - k,
        {
            if self.constraints[k] == constraint {
                return Err(AlreadyConnected);
            }
            k += 1;
        }
        assert(!self.constraints@.contains(constraint));
        self.constraints.push(constraint);
        Ok(())
    }
}

/// The whole network: the arena owning every connector and every constraint.
/// Constraints refer to connectors, and connectors to constraints, by index
/// into these two sequences; a constraint's index is its identity.
pub struct Network {
    pub connectors: Vec<Connector>,
    pub constraints: Vec<Constraint>,
}

/// `cs` with cell `i` holding `v`, set by `who`; the attachments are kept.
pub open spec fn set_cell(cs: Seq<Connector>, i: usize, v: i64, who: Informant) -> Seq<Connector> {
    cs.update(
        i as int,
        (Connector { value: Some(v), informant: Some(who), constraints: cs[i as int].constraints }),
    )
}

/// `cs` with cell `i` cleared back to unknown; the attachments are kept.
pub open spec fn clear_cell(cs: Seq<Connector>, i: usize) -> Seq<Connector> {
    cs.update(
        i as int,
        (Connector { value: None, informant: None, constraints: cs[i as int].constraints }),
    )
}

/// The constraint identities of `ids` in order, leaving out the informer:
/// the one constraint that caused a change is not notified about it.
pub open spec fn excluded(ids: Seq<usize>, informer: Informant) -> Seq<usize>
    decreases ids.len(),
{
    if ids.len() == 0 {
        Seq::empty()
    } else {
        excluded(ids.drop_last(), informer) + (if Informant::Constraint(ids.last()) != informer {
            seq![ids.last()]
        } else {
            Seq::empty()
        })
    }
}

/// What one retraction request does to one cell: if `who` is the cell's
/// current informant, the cell is cleared and the cell's other constraints
/// are to be notified; anyone else's request is a no-op.
pub open spec fn forget_one(cs: Seq<Connector>, i: usize, who: Informant) -> (Seq<Connector>, Seq<
    usize,
>) {
    if cs[i as int].informant == Some(who) {
        (clear_cell(cs, i), excluded(cs[i as int].constraints@, who))
    } else {
        (cs, Seq::empty())
    }
}

/// Both networks hold the same constraints and the same attachment lists:
/// setting and forgetting values never rewires the network.
pub open spec fn same_shape(a: Network, b: Network) -> bool {
    &&& b.constraints@ == a.constraints@
    &&& b.connectors@.len() == a.connectors@.len()
    &&& forall|i: int|
        0 <= i < a.connectors@.len() ==> b.connectors@[i].constraints == a.connectors@[i].constraints
}

/// Every cell known in `a` is still known in `b`, with the same value and
/// the same informant: propagation of a set only adds knowledge.
pub open spec fn values_monotone(a: Seq<Connector>, b: Seq<Connector>) -> bool {
    &&& b.len() == a.len()
    &&& forall|i: int|
        0 <= i < a.len() && a[i].value is Some ==> b[i].value == a[i].value && b[i].informant
            == a[i].informant
}

/// Every cell of `b` either kept its value and informant from `a` or was
/// cleared: propagation of a forget only removes knowledge.
pub open spec fn values_antitone(a: Seq<Connector>, b: Seq<Connector>) -> bool {
    &&& b.len() == a.len()
    &&& forall|i: int|
        0 <= i < a.len() ==> (b[i].value == a[i].value && b[i].informant == a[i].informant) || (
        b[i].value is None && b[i].informant is None)
}

/// How many cells are still unknown; the measure that bounds a set's fan-out.
pub open spec fn count_unknown(cs: Seq<Connector>) -> nat
    decreases cs.len(),
{
    if cs.len() == 0 {
        0
    } else {
        count_unknown(cs.drop_last()) + (if cs.last().value is None {
            1nat
        } else {
            0nat
        })
    }
}

/// How many cells hold a value; the measure that bounds a forget's fan-out.
pub open spec fn count_known(cs: Seq<Connector>) -> nat
    decreases cs.len(),
{
    if cs.len() == 0 {
        0
    } else {
        count_known(cs.drop_last()) + (if cs.last().value is Some {
            1nat
        } else {
            0nat
        })
    }
}

/// A constraint stored at index `i` of a network with `n` connectors is
/// well-formed: it carries `i` as its identity and touches existing cells.
pub open spec fn constraint_wf(c: Constraint, i: int, n: int) -> bool {
    match c {
        Constraint::Adder(a) => a.id == i && a.a1 < n && a.a2 < n && a.sum < n,
        Constraint::Multiplier(m) => m.id == i && m.m1 < n && m.m2 < n && m.product < n,
        Constraint::Constant(k) => k.id == i && k.conn < n,
    }
}

/// A cell of a network with `m` constraints is well-formed: it is known iff
/// it has an informant, its attachments exist and are free of duplicates,
/// and a constraint named as informant exists.
pub open spec fn connector_wf(c: Connector, m: int) -> bool {
    &&& (c.value is Some) <==> (c.informant is Some)
    &&& forall|k: int| 0 <= k < c.constraints@.len() ==> c.constraints@[k] < m
    &&& forall|k1: int, k2: int|
        0 <= k1 < k2 < c.constraints@.len() ==> c.constraints@[k1] != c.constraints@[k2]
    &&& match c.informant {
        Some(Informant::Constraint(ci)) => ci < m,
        _ => true,
    }
}

/// The informer of a set or forget either is external or names an existing
/// constraint.
pub open spec fn informer_wf(who: Informant, m: int) -> bool {
    match who {
        Informant::Constraint(ci) => ci < m,
        Informant::External(_) => true,
    }
}

/// Some constraint of the network is a multiplier. Only a multiplier's
/// zero rule can write to a cell that already holds a value, so a network
/// without one cannot raise a contradiction below the top level.
pub open spec fn has_multiplier(cs: Seq<Constraint>) -> bool {
    exists|i: int| 0 <= i < cs.len() && cs[i] is Multiplier
}

/// An update step's outcome as the caller sees it.
pub open spec fn err_to_result(e: Option<Contradiction>) -> Result<(), Contradiction> {
    match e {
        None => Ok(()),
        Some(c) => Err(c),
    }
}

/// Leaving an informer out of a notification list keeps every entry inside
/// the bound the source list obeyed.
pub proof fn lemma_excluded_bound(ids: Seq<usize>, who: Informant, m: int)
    requires
        forall|k: int| 0 <= k < ids.len() ==> ids[k] < m,
    ensures
        forall|k: int| 0 <= k < excluded(ids, who).len() ==> excluded(ids, who)[k] < m,
    decreases ids.len(),
{
    if ids.len() > 0 {
        lemma_excluded_bound(ids.drop_last(), who, m);
        let pre = excluded(ids.drop_last(), who);
        assert forall|k: int| 0 <= k < excluded(ids, who).len() implies excluded(ids, who)[k]
            < m by {
            if k < pre.len() {
                assert(excluded(ids, who)[k] == pre[k]);
            } else {
                assert(excluded(ids, who)[k] == ids.last());
            }
        }
    }
}

/// Setting a cell that was unknown lowers the number of unknown cells by one.
pub proof fn lemma_count_unknown_set(cs: Seq<Connector>, i: int, c: Connector)
    requires
        0 <= i < cs.len(),
        cs[i].value is None,
        c.value is Some,
    ensures
        count_unknown(cs.update(i, c)) + 1 == count_unknown(cs),
    decreases cs.len(),
{
    if i == cs.len() - 1 {
        assert(cs.update(i, c).drop_last() =~= cs.drop_last());
    } else {
        assert(cs.update(i, c).drop_last() =~= cs.drop_last().update(i, c));
        lemma_count_unknown_set(cs.drop_last(), i, c);
    }
}

/// Clearing a cell that held a value lowers the number of known cells by one.
pub proof fn lemma_count_known_clear(cs: Seq<Connector>, i: int, c: Connector)
    requires
        0 <= i < cs.len(),
        cs[i].value is Some,
        c.value is None,
    ensures
        count_known(cs.update(i, c)) + 1 == count_known(cs),
    decreases cs.len(),
{
    if i == cs.len() - 1 {
        assert(cs.update(i, c).drop_last() =~= cs.drop_last());
    } else {
        assert(cs.update(i, c).drop_last() =~= cs.drop_last().update(i, c));
        lemma_count_known_clear(cs.drop_last(), i, c);
    }
}

/// Writing a value into an unknown cell only adds knowledge.
pub proof fn lemma_set_cell_monotone(cs: Seq<Connector>, i: usize, v: i64, who: Informant)
    requires
        i < cs.len(),
        cs[i as int].value is None,
    ensures
        values_monotone(cs, set_cell(cs, i, v, who)),
{
}

/// One retraction request only removes knowledge.
pub proof fn lemma_forget_one_antitone(cs: Seq<Connector>, i: usize, who: Informant)
    requires
        i < cs.len(),
    ensures
        values_antitone(cs, forget_one(cs, i, who).0),
{
}

/// Knowledge only grows across two growths in a row.
pub proof fn lemma_monotone_trans(a: Seq<Connector>, b: Seq<Connector>, c: Seq<Connector>)
    requires
        values_monotone(a, b),
        values_monotone(b, c),
    ensures
        values_monotone(a, c),
{
    assert forall|i: int|
        0 <= i < a.len() && a[i].value is Some implies c[i].value == a[i].value && c[i].informant
        == a[i].informant by {
        assert(b[i].value == a[i].value);
    }
}

/// Knowledge only shrinks across two shrinkings in a row.
pub proof fn lemma_antitone_trans(a: Seq<Connector>, b: Seq<Connector>, c: Seq<Connector>)
    requires
        values_antitone(a, b),
        values_antitone(b, c),
    ensures
        values_antitone(a, c),
{
    assert forall|i: int|
        0 <= i < a.len() implies (c[i].value == a[i].value && c[i].informant == a[i].informant) || (
    c[i].value is None && c[i].informant is None) by {
        assert((b[i].value == a[i].value && b[i].informant == a[i].informant) || (b[i].value is None
            && b[i].informant is None));
    }
}

/// The polymorphic capability every constraint variant offers: a stable
/// identity, an update step run when one of its connectors changed, and a
/// forget step run when one of them was retracted. Each variant also gives,
/// as specification functions, the exact effect of its two steps on the
/// cells, the worklist entries it appends, and the contradiction an update
/// may report.
pub trait Propagate: Sized {
    /// The constraint's stable identity: its index in the network.
    spec fn cid(&self) -> usize;

    /// The constraint fits the network: its identity and its connector
    /// indices name existing entries.
    spec fn valid(&self, net: Network) -> bool;

    /// The cells after one update step.
    spec fn updated(&self, cs: Seq<Connector>) -> Seq<Connector>;

    /// The worklist entries one update step appends.
    spec fn update_queue(&self, cs: Seq<Connector>) -> Seq<usize>;

    /// The contradiction one update step reports, if any.
    spec fn update_err(&self, cs: Seq<Connector>) -> Option<Contradiction>;

    /// The cells after one forget step.
    spec fn forgot(&self, cs: Seq<Connector>) -> Seq<Connector>;

    /// The worklist entries one forget step appends.
    spec fn forget_queue(&self, cs: Seq<Connector>) -> Seq<usize>;

    /// The constraint's identity, stable for its lifetime.
    fn id(&self) -> (r: usize)
        ensures
            r == self.cid(),
    ;

    /// Reads the constraint's connectors and, if the relation now determines
    /// a previously unknown one, writes it, appending the fan-out to the
    /// worklist rather than recursing. Reports a contradiction instead of
    /// swallowing it.
    fn update(&self, net: &mut Network, queue: &mut Vec<usize>) -> (r: Result<(), Contradiction>)
        requires
            old(net).wf(),
            self.valid(*old(net)),
        ensures
            final(net).wf(),
            same_shape(*old(net), *final(net)),
            final(net).connectors@ == self.updated(old(net).connectors@),
            final(queue)@ == old(queue)@ + self.update_queue(old(net).connectors@),
            r == err_to_result(self.update_err(old(net).connectors@)),
            values_monotone(old(net).connectors@, final(net).connectors@),
            forall|j: int|
                0 <= j < self.update_queue(old(net).connectors@).len() ==> self.update_queue(
                    old(net).connectors@,
                )[j] < old(net).constraints@.len(),
            (final(net).connectors@ == old(net).connectors@ && self.update_queue(
                old(net).connectors@,
            ) == Seq::<usize>::empty()) || count_unknown(final(net).connectors@) < count_unknown(
                old(net).connectors@,
            ),
    ;

    /// Asks every connector of the constraint to drop the value this
    /// constraint inferred; each cell itself decides, by its informant,
    /// whether the retraction applies. Appends the fan-out to the worklist.
    fn forget(&self, net: &mut Network, queue: &mut Vec<usize>)
        requires
            old(net).wf(),
            self.valid(*old(net)),
        ensures
            final(net).wf(),
            same_shape(*old(net), *final(net)),
            final(net).connectors@ == self.forgot(old(net).connectors@),
            final(queue)@ == old(queue)@ + self.forget_queue(old(net).connectors@),
            values_antitone(old(net).connectors@, final(net).connectors@),
            forall|j: int|
                0 <= j < self.forget_queue(old(net).connectors@).len() ==> self.forget_queue(
                    old(net).connectors@,
                )[j] < old(net).constraints@.len(),
            (final(net).connectors@ == old(net).connectors@ && self.forget_queue(
                old(net).connectors@,
            ) == Seq::<usize>::empty()) || count_known(final(net).connectors@) < count_known(
                old(net).connectors@,
            ),
    ;
}

/// The cells after one update step of `c`, whichever variant it is.
pub open spec fn step_updated(c: Constraint, cs: Seq<Connector>) -> Seq<Connector> {
    match c {
        Constraint::Adder(a) => a.updated(cs),
        Constraint::Multiplier(m) => m.updated(cs),
        Constraint::Constant(k) => k.updated(cs),
    }
}

/// The worklist entries one update step of `c` appends.
pub open spec fn step_update_queue(c: Constraint, cs: Seq<Connector>) -> Seq<usize> {
    match c {
        Constraint::Adder(a) => a.update_queue(cs),
        Constraint::Multiplier(m) => m.update_queue(cs),
        Constraint::Constant(k) => k.update_queue(cs),
    }
}

/// The contradiction one update step of `c` reports, if any.
pub open spec fn step_update_err(c: Constraint, cs: Seq<Connector>) -> Option<Contradiction> {
    match c {
        Constraint::Adder(a) => a.update_err(cs),
        Constraint::Multiplier(m) => m.update_err(cs),
        Constraint::Constant(k) => k.update_err(cs),
    }
}

/// The cells after one forget step of `c`, whichever variant it is.
pub open spec fn step_forgot(c: Constraint, cs: Seq<Connector>) -> Seq<Connector> {
    match c {
        Constraint::Adder(a) => a.forgot(cs),
        Constraint::Multiplier(m) => m.forgot(cs),
        Constraint::Constant(k) => k.forgot(cs),
    }
}

/// The worklist entries one forget step of `c` appends.
pub open spec fn step_forget_queue(c: Constraint, cs: Seq<Connector>) -> Seq<usize> {
    match c {
        Constraint::Adder(a) => a.forget_queue(cs),
        Constraint::Multiplier(m) => m.forget_queue(cs),
        Constraint::Constant(k) => k.forget_queue(cs),
    }
}

/// Drains an update worklist in first in, first out order: the cells at
/// quiescence, and the first contradiction any step reported. Each step
/// either sets a cell that was unknown (and may append notifications) or
/// changes nothing and appends nothing — on a well-formed network the
/// branch condition below distinguishes exactly those two cases, and the
/// unknown-cell count together with the remaining worklist bounds the
/// recursion whatever the input.
pub open spec fn run_updates(
    cs: Seq<Connector>,
    constraints: Seq<Constraint>,
    queue: Seq<usize>,
) -> (Seq<Connector>, Option<Contradiction>)
    decreases count_unknown(cs), queue.len(),
    via run_updates_decreases
{
    if queue.len() == 0 {
        (cs, None)
    } else {
        let c = constraints[queue.first() as int];
        let e = step_update_err(c, cs);
        let cs2 = step_updated(c, cs);
        let rest = queue.subrange(1, queue.len() as int);
        let tail = if count_unknown(cs2) < count_unknown(cs) {
            run_updates(cs2, constraints, rest + step_update_queue(c, cs))
        } else {
            run_updates(cs, constraints, rest)
        };
        (
            tail.0,
            if e is Some {
                e
            } else {
                tail.1
            },
        )
    }
}

#[via_fn]
proof fn run_updates_decreases(cs: Seq<Connector>, constraints: Seq<Constraint>, queue: Seq<usize>) {
}

/// Drains a forget worklist in first in, first out order: the cells at
/// quiescence. Each step either clears at least one cell or changes nothing
/// and appends nothing, so the known-cell count together with the remaining
/// worklist bounds the recursion whatever the input.
pub open spec fn run_forgets(
    cs: Seq<Connector>,
    constraints: Seq<Constraint>,
    queue: Seq<usize>,
) -> Seq<Connector>
    decreases count_known(cs), queue.len(),
    via run_forgets_decreases
{
    if queue.len() == 0 {
        cs
    } else {
        let c = constraints[queue.first() as int];
        let cs2 = step_forgot(c, cs);
        let rest = queue.subrange(1, queue.len() as int);
        if count_known(cs2) < count_known(cs) {
            run_forgets(cs2, constraints, rest + step_forget_queue(c, cs))
        } else {
            run_forgets(cs, constraints, rest)
        }
    }
}

#[via_fn]
proof fn run_forgets_decreases(cs: Seq<Connector>, constraints: Seq<Constraint>, queue: Seq<usize>) {
}

/// What setting `value` into cell `conn` on behalf of `who` leaves behind:
/// the cells at quiescence and the result surfaced to the caller. On a cell
/// already holding an equal value nothing happens; on one holding a
/// different value the contradiction is reported and nothing changes; on an
/// unknown cell the value is recorded and the fan-out to every other
/// attached constraint is drained to quiescence.
pub open spec fn set_outcome(
    cs: Seq<Connector>,
    constraints: Seq<Constraint>,
    conn: usize,
    value: i64,
    who: Informant,
) -> (Seq<Connector>, Option<Contradiction>) {
    match cs[conn as int].value {
        Some(v) => (
            cs,
            if v == value {
                None
            } else {
                Some(Contradiction { current: v, proposed: value })
            },
        ),
        None => run_updates(
            set_cell(cs, conn, value, who),
            constraints,
            excluded(cs[conn as int].constraints@, who),
        ),
    }
}

/// What asking `who` to forget cell `conn` leaves behind: nothing, unless
/// `who` is the cell's current informant, in which case the cell is cleared
/// and the retraction fan-out to every other attached constraint is drained
/// to quiescence.
pub open spec fn forget_outcome(
    cs: Seq<Connector>,
    constraints: Seq<Constraint>,
    conn: usize,
    who: Informant,
) -> Seq<Connector> {
    if cs[conn as int].informant == Some(who) {
        run_forgets(clear_cell(cs, conn), constraints, excluded(cs[conn as int].constraints@, who))
    } else {
        cs
    }
}

impl Network {
    /// Every constraint and every cell of the network is well-formed.
    pub open spec fn wf(self) -> bool {
        &&& forall|i: int|
            0 <= i < self.constraints@.len() ==> constraint_wf(
                self.constraints@[i],
                i,
                self.connectors@.len() as int,
            )
        &&& forall|j: int|
            0 <= j < self.connectors@.len() ==> connector_wf(
                self.connectors@[j],
                self.constraints@.len() as int,
            )
    }

    /// An empty network: no connectors, no constraints.
    pub fn new() -> (r: Network)
        ensures
            r.wf(),
            r.connectors@ == Seq::<Connector>::empty(),
            r.constraints@ == Seq::<Constraint>::empty(),
    {
        Network { connectors: Vec::new(), constraints: Vec::new() }
    }

    /// Adds a fresh connector to the network and returns its index.
    pub fn add_connector(&mut self, c: Connector) -> (r: usize)
        requires
            old(self).wf(),
            c.value is None,
            c.informant is None,
            c.constraints@.len() == 0,
        ensures
            final(self).wf(),
            r == old(self).connectors@.len(),
            final(self).connectors@ == old(self).connectors@.push(c),
            final(self).constraints@ == old(self).constraints@,
    {
        let r = self.connectors.len();
        self.connectors.push(c);
        r
    }

    /// Reads the cell at index `i`.
    pub fn connector(&self, i: usize) -> (r: &Connector)
        requires
            i < self.connectors@.len(),
        ensures
            *r == self.connectors@[i as int],
    {
        &self.connectors[i]
    }

    /// Attaches constraint `cid` to the cell at `conn`, tolerating a repeat:
    /// a constraint relating the same cell twice is attached to it once.
    pub(crate) fn attach(&mut self, conn: usize, cid: usize)
        requires
            old(self).wf(),
            conn < old(self).connectors@.len(),
            cid < old(self).constraints@.len(),
        ensures
            final(self).wf(),
            final(self).constraints@ == old(self).constraints@,
            final(self).connectors@.len() == old(self).connectors@.len(),
            forall|i: int|
                0 <= i < old(self).connectors@.len()
                    ==> final(self).connectors@[i].value == old(self).connectors@[i].value
                    && final(self).connectors@[i].informant == old(self).connectors@[i].informant,
            old(self).connectors@[conn as int].constraints@.contains(cid)
                ==> final(self).connectors@ == old(self).connectors@,
            !old(self).connectors@[conn as int].constraints@.contains(cid) ==> {
                &&& final(self).connectors@[conn as int].constraints@ == old(self).connectors@[conn as int].constraints@.push(cid)
                &&& forall|i: int|
                    0 <= i < old(self).connectors@.len() && i != conn
                        ==> final(self).connectors@[i] == old(self).connectors@[i]
            },
    {
        let c = &mut self.connectors[conn];
        let _ = c.connect(cid);
        proof {
            let olds = old(self).connectors@[conn as int].constraints@;
            if !olds.contains(cid) {
                assert forall|k1: int, k2: int|
                    0 <= k1 < k2 < olds.push(cid).len() implies olds.push(cid)[k1] != olds.push(
                    cid,
                )[k2] by {
                    if k2 == olds.len() {
                        assert(olds[k1] == olds.push(cid)[k1]);
                    }
                }
            } else {
                assert(final(self).connectors@ =~= old(self).connectors@);
            }
        }
    }

    /// Writes one value into one cell without draining the fan-out: if the
    /// cell was unknown it records the value and informer and appends the
    /// cell's other constraints to the worklist; an equal value is a no-op;
    /// a different value is a contradiction and mutates nothing.
    #[verifier::loop_isolation(false)]
    pub(crate) fn do_set(
        &mut self,
        conn: usize,
        value: i64,
        informer: Informant,
        queue: &mut Vec<usize>,
    ) -> (r: Option<Contradiction>)
        requires
            old(self).wf(),
            conn < old(self).connectors@.len(),
            informer_wf(informer, old(self).constraints@.len() as int),
        ensures
            final(self).wf(),
            same_shape(*old(self), *final(self)),
            match old(self).connectors@[conn as int].value {
                Some(v) => {
                    &&& *final(self) == *old(self)
                    &&& final(queue)@ == old(queue)@
                    &&& r == (if v == value {
                        None::<Contradiction>
                    } else {
                        Some(Contradiction { current: v, proposed: value })
                    })
                },
                None => {
                    &&& final(self).connectors@ == set_cell(
                        old(self).connectors@,
                        conn,
                        value,
                        informer,
                    )
                    &&& final(queue)@ == old(queue)@ + excluded(
                        old(self).connectors@[conn as int].constraints@,
                        informer,
                    )
                    &&& r is None
                },
            },
    {
        match self.connectors[conn].value {
            Some(v) => {
                if v == value {
                    None
                } else {
                    Some(Contradiction { current: v, proposed: value })
                }
            },
            None => {
                let c = &mut self.connectors[conn];
                c.value = Some(value);
                c.informant = Some(informer);
                let ghost ids = old(self).connectors@[conn as int].constraints@;
                let n = self.connectors[conn].constraints.len();
                let mut k: usize = 0;
                while k < n
                    invariant
                        k <= n,
                        queue@ == old(queue)@ + excluded(ids.take(k as int), informer),
                    decreases n - k,
                {
                    let cid = self.connectors[conn].constraints[k];
                    proof {
                        assert(ids.take(k + 1).drop_last() =~= ids.take(k as int));
                        assert(ids.take(k + 1).last() == ids[k as int]);
                        if Informant::Constraint(cid) != informer {
                            assert(old(queue)@ + excluded(ids.take(k as int), informer) + seq![cid]
                                =~= old(queue)@ + excluded(ids.take(k + 1), informer));
                        } else {
                            assert(old(queue)@ + excluded(ids.take(k as int), informer) =~= old(
                                queue,
                            )@ + excluded(ids.take(k + 1), informer));
                        }
                    }
                    let push_it = match informer {
                        Informant::Constraint(x) => cid != x,
                        Informant::External(_) => true,
                    };
                    if push_it {
                        queue.push(cid);
                    }
                    k += 1;
                }
                proof {
                    assert(ids.take(n as int) =~= ids);
                    assert(final(self).connectors@ =~= set_cell(
                        old(self).connectors@,
                        conn,
                        value,
                        informer,
                    ));
                }
                None
            },
        }
    }

    /// Applies one retraction request to one cell without draining the
    /// fan-out: if `who` is the cell's current informant the cell is cleared
    /// and its other constraints are appended to the worklist; otherwise
    /// nothing happens.
    #[verifier::loop_isolation(false)]
    pub(crate) fn do_forget(&mut self, conn: usize, who: Informant, queue: &mut Vec<usize>)
        requires
            old(self).wf(),
            conn < old(self).connectors@.len(),
        ensures
            final(self).wf(),
            same_shape(*old(self), *final(self)),
            final(self).connectors@ == forget_one(old(self).connectors@, conn, who).0,
            final(queue)@ == old(queue)@ + forget_one(old(self).connectors@, conn, who).1,
    {
        let applies = match self.connectors[conn].informant {
            Some(inf) => inf == who,
            None => false,
        };
        if !applies {
            proof {
                assert(final(queue)@ =~= old(queue)@ + forget_one(
                    old(self).connectors@,
                    conn,
                    who,
                ).1);
            }
            return ;
        }
        let c = &mut self.connectors[conn];
        c.value = None;
        c.informant = None;
        let ghost ids = old(self).connectors@[conn as int].constraints@;
        let n = self.connectors[conn].constraints.len();
        let mut k: usize = 0;
        while k < n
            invariant
                k <= n,
                queue@ == old(queue)@ + excluded(ids.take(k as int), who),
            decreases n - k,
        {
            let cid = self.connectors[conn].constraints[k];
            proof {
                assert(ids.take(k + 1).drop_last() =~= ids.take(k as int));
                assert(ids.take(k + 1).last() == ids[k as int]);
                if Informant::Constraint(cid) != who {
                    assert(old(queue)@ + excluded(ids.take(k as int), who) + seq![cid] =~= old(
                        queue,
                    )@ + excluded(ids.take(k + 1), who));
                } else {
                    assert(old(queue)@ + excluded(ids.take(k as int), who) =~= old(queue)@
                        + excluded(ids.take(k + 1), who));
                }
            }
            let push_it = match who {
                Informant::Constraint(x) => cid != x,
                Informant::External(_) => true,
            };
            if push_it {
                queue.push(cid);
            }
            k += 1;
        }
        proof {
            assert(ids.take(n as int) =~= ids);
            assert(final(self).connectors@ =~= forget_one(old(self).connectors@, conn, who).0);
        }
    }

    /// Writes a value into a cell and drains the resulting fan-out in first
    /// in, first out order until the network is quiescent. The first
    /// contradiction met anywhere in the fan-out is reported to the caller.
    /// The cells left behind, and the result, are exactly `set_outcome` of
    /// the state the call found.
    #[verifier::loop_isolation(false)]
    pub(crate) fn run_set(&mut self, conn: usize, value: i64, informer: Informant) -> (r: Result<
        (),
        Contradiction,
    >)
        requires
            old(self).wf(),
            conn < old(self).connectors@.len(),
            informer_wf(informer, old(self).constraints@.len() as int),
        ensures
            final(self).wf(),
            same_shape(*old(self), *final(self)),
            final(self).connectors@ == set_outcome(
                old(self).connectors@,
                old(self).constraints@,
                conn,
                value,
                informer,
            ).0,
            r == err_to_result(
                set_outcome(old(self).connectors@, old(self).constraints@, conn, value, informer).1,
            ),
            match old(self).connectors@[conn as int].value {
                Some(v) => {
                    &&& final(self).connectors@ == old(self).connectors@
                    &&& r == (if v == value {
                        Ok::<(), Contradiction>(())
                    } else {
                        Err::<(), Contradiction>(Contradiction { current: v, proposed: value })
                    })
                },
                None => {
                    &&& final(self).connectors@[conn as int].value == Some(value)
                    &&& final(self).connectors@[conn as int].informant == Some(informer)
                    &&& values_monotone(old(self).connectors@, final(self).connectors@)
                    &&& (old(self).connectors@[conn as int].constraints@.len() == 0 ==> r
                        == Ok::<(), Contradiction>(()) && final(self).connectors@ == set_cell(
                        old(self).connectors@,
                        conn,
                        value,
                        informer,
                    ))
                    &&& (!has_multiplier(old(self).constraints@) ==> r == Ok::<(), Contradiction>(
                        (),
                    ))
                },
            },
    {
        let mut queue: Vec<usize> = Vec::new();
        let first = self.do_set(conn, value, informer, &mut queue);
        match first {
            Some(c) => {
                return Err(c);
            },
            None => {},
        }
        let ghost mid = *self;
        let ghost cini = mid.connectors@;
        let ghost qini = queue@;
        let ghost cc = old(self).constraints@;
        proof {
            if old(self).connectors@[conn as int].value is None {
                assert(values_monotone(old(self).connectors@, mid.connectors@));
                lemma_excluded_bound(
                    old(self).connectors@[conn as int].constraints@,
                    informer,
                    self.constraints@.len() as int,
                );
                assert(qini =~= excluded(
                    old(self).connectors@[conn as int].constraints@,
                    informer,
                ));
                if old(self).connectors@[conn as int].constraints@.len() == 0 {
                    assert(qini =~= Seq::<usize>::empty());
                }
            } else {
                assert(qini =~= Seq::<usize>::empty());
            }
            assert(qini.subrange(0, qini.len() as int) =~= qini);
        }
        let mut err: Option<Contradiction> = None;
        let mut k: usize = 0;
        while k < queue.len()
            invariant
                self.wf(),
                same_shape(*old(self), *self),
                values_monotone(mid.connectors@, self.connectors@),
                k <= queue@.len(),
                forall|j: int| 0 <= j < queue@.len() ==> queue@[j] < self.constraints@.len(),
                err is Some ==> has_multiplier(self.constraints@),
                qini.len() == 0 ==> k == 0 && queue@ == qini && self.connectors@ == mid.connectors@
                    && err is None,
                run_updates(cini, cc, qini).0 == run_updates(
                    self.connectors@,
                    cc,
                    queue@.subrange(k as int, queue@.len() as int),
                ).0,
                run_updates(cini, cc, qini).1 == (if err is Some {
                    err
                } else {
                    run_updates(
                        self.connectors@,
                        cc,
                        queue@.subrange(k as int, queue@.len() as int),
                    ).1
                }),
            decreases count_unknown(self.connectors@), queue@.len() - k,
        {
            let ghost k0 = k as int;
            let cid = queue[k];
            k = k + 1;
            let c = self.constraints[cid];
            let ghost pre = *self;
            let ghost prq = queue@;
            let ghost err0 = err;
            let r = match c {
                Constraint::Adder(a) => a.update(self, &mut queue),
                Constraint::Multiplier(m) => m.update(self, &mut queue),
                Constraint::Constant(ct) => ct.update(self, &mut queue),
            };
            match r {
                Result::Err(e) => {
                    if err.is_none() {
                        err = Some(e);
                    }
                },
                Result::Ok(_) => {},
            }
            proof {
                lemma_monotone_trans(mid.connectors@, pre.connectors@, self.connectors@);
                if r is Err {
                    match c {
                        Constraint::Adder(a) => {
                            assert(a.update_err(pre.connectors@) is None);
                        },
                        Constraint::Constant(ct) => {
                            assert(ct.update_err(pre.connectors@) is None);
                        },
                        Constraint::Multiplier(_) => {
                            assert(pre.constraints@[cid as int] is Multiplier);
                            assert(has_multiplier(self.constraints@));
                        },
                    }
                }
                let rem = prq.subrange(k0, prq.len() as int);
                assert(rem.first() == cid);
                let rest = rem.subrange(1, rem.len() as int);
                assert(rest =~= prq.subrange(k0 + 1, prq.len() as int));
                let e = step_update_err(pre.constraints@[cid as int], pre.connectors@);
                let cs2 = step_updated(pre.constraints@[cid as int], pre.connectors@);
                let qa = step_update_queue(pre.constraints@[cid as int], pre.connectors@);
                match c {
                    Constraint::Adder(a) => {
                        assert(cs2 == a.updated(pre.connectors@));
                        assert(qa == a.update_queue(pre.connectors@));
                        assert(e == a.update_err(pre.connectors@));
                    },
                    Constraint::Multiplier(m) => {
                        assert(cs2 == m.updated(pre.connectors@));
                        assert(qa == m.update_queue(pre.connectors@));
                        assert(e == m.update_err(pre.connectors@));
                    },
                    Constraint::Constant(ct) => {
                        assert(cs2 == ct.updated(pre.connectors@));
                        assert(qa == ct.update_queue(pre.connectors@));
                        assert(e == ct.update_err(pre.connectors@));
                    },
                }
                assert(self.connectors@ == cs2);
                assert(queue@ == prq + qa);
                assert(r == err_to_result(e));
                if count_unknown(cs2) < count_unknown(pre.connectors@) {
                    assert(queue@.subrange(k as int, queue@.len() as int) =~= rest + qa);
                    assert(run_updates(pre.connectors@, cc, rem) == {
                        let tail = run_updates(cs2, cc, rest + qa);
                        (
                            tail.0,
                            if e is Some {
                                e
                            } else {
                                tail.1
                            },
                        )
                    });
                } else {
                    assert(cs2 == pre.connectors@);
                    assert(qa =~= Seq::<usize>::empty());
                    assert(queue@ =~= prq);
                    assert(queue@.subrange(k as int, queue@.len() as int) =~= rest);
                    assert(run_updates(pre.connectors@, cc, rem) == {
                        let tail = run_updates(pre.connectors@, cc, rest);
                        (
                            tail.0,
                            if e is Some {
                                e
                            } else {
                                tail.1
                            },
                        )
                    });
                }
            }
        }
        proof {
            assert(queue@.subrange(k as int, queue@.len() as int) =~= Seq::<usize>::empty());
            assert(run_updates(cini, cc, qini).0 == self.connectors@);
            assert(run_updates(cini, cc, qini).1 == (if err is Some {
                err
            } else {
                None::<Contradiction>
            }));
            if old(self).connectors@[conn as int].value is None {
                lemma_monotone_trans(old(self).connectors@, mid.connectors@, self.connectors@);
            }
        }
        match err {
            Some(e) => Err(e),
            None => Ok(()),
        }
    }

    /// Clears a cell, if the informer is its current informant, and drains
    /// the resulting retraction fan-out in first in, first out order.
    #[verifier::loop_isolation(false)]
    pub(crate) fn run_forget(&mut self, conn: usize, informer: Informant)
        requires
            old(self).wf(),
            conn < old(self).connectors@.len(),
        ensures
            final(self).wf(),
            same_shape(*old(self), *final(self)),
            values_antitone(old(self).connectors@, final(self).connectors@),
            final(self).connectors@ == forget_outcome(
                old(self).connectors@,
                old(self).constraints@,
                conn,
                informer,
            ),
            old(self).connectors@[conn as int].informant != Some(informer)
                ==> final(self).connectors@ == old(self).connectors@,
            old(self).connectors@[conn as int].informant == Some(informer)
                ==> final(self).connectors@[conn as int].value is None
                && final(self).connectors@[conn as int].informant is None,
    {
        let mut queue: Vec<usize> = Vec::new();
        self.do_forget(conn, informer, &mut queue);
        let ghost mid = *self;
        let ghost cini = mid.connectors@;
        let ghost qini = queue@;
        let ghost cc = old(self).constraints@;
        proof {
            assert(values_antitone(old(self).connectors@, mid.connectors@));
            if old(self).connectors@[conn as int].informant == Some(informer) {
                lemma_excluded_bound(
                    old(self).connectors@[conn as int].constraints@,
                    informer,
                    self.constraints@.len() as int,
                );
                assert(qini =~= excluded(
                    old(self).connectors@[conn as int].constraints@,
                    informer,
                ));
            } else {
                assert(qini =~= Seq::<usize>::empty());
            }
            assert(qini.subrange(0, qini.len() as int) =~= qini);
        }
        let mut k: usize = 0;
        while k < queue.len()
            invariant
                self.wf(),
                same_shape(*old(self), *self),
                values_antitone(mid.connectors@, self.connectors@),
                k <= queue@.len(),
                forall|j: int| 0 <= j < queue@.len() ==> queue@[j] < self.constraints@.len(),
                qini.len() == 0 ==> k == 0 && queue@ == qini && self.connectors@
                    == mid.connectors@,
                run_forgets(cini, cc, qini) == run_forgets(
                    self.connectors@,
                    cc,
                    queue@.subrange(k as int, queue@.len() as int),
                ),
            decreases count_known(self.connectors@), queue@.len() - k,
        {
            let ghost k0 = k as int;
            let cid = queue[k];
            k = k + 1;
            let c = self.constraints[cid];
            let ghost pre = *self;
            let ghost prq = queue@;
            match c {
                Constraint::Adder(a) => a.forget(self, &mut queue),
                Constraint::Multiplier(m) => m.forget(self, &mut queue),
                Constraint::Constant(ct) => ct.forget(self, &mut queue),
            }
            proof {
                lemma_antitone_trans(mid.connectors@, pre.connectors@, self.connectors@);
                let rem = prq.subrange(k0, prq.len() as int);
                assert(rem.first() == cid);
                let rest = rem.subrange(1, rem.len() as int);
                assert(rest =~= prq.subrange(k0 + 1, prq.len() as int));
                let cs2 = step_forgot(pre.constraints@[cid as int], pre.connectors@);
                let qa = step_forget_queue(pre.constraints@[cid as int], pre.connectors@);
                match c {
                    Constraint::Adder(a) => {
                        assert(cs2 == a.forgot(pre.connectors@));
                        assert(qa == a.forget_queue(pre.connectors@));
                    },
                    Constraint::Multiplier(m) => {
                        assert(cs2 == m.forgot(pre.connectors@));
                        assert(qa == m.forget_queue(pre.connectors@));
                    },
                    Constraint::Constant(ct) => {
                        assert(cs2 == ct.forgot(pre.connectors@));
                        assert(qa == ct.forget_queue(pre.connectors@));
                    },
                }
                assert(self.connectors@ == cs2);
                assert(queue@ == prq + qa);
                if count_known(cs2) < count_known(pre.connectors@) {
                    assert(queue@.subrange(k as int, queue@.len() as int) =~= rest + qa);
                    assert(run_forgets(pre.connectors@, cc, rem) == run_forgets(
                        cs2,
                        cc,
                        rest + qa,
                    ));
                } else {
                    assert(cs2 == pre.connectors@);
                    assert(qa =~= Seq::<usize>::empty());
                    assert(queue@ =~= prq);
                    assert(queue@.subrange(k as int, queue@.len() as int) =~= rest);
                    assert(run_forgets(pre.connectors@, cc, rem) == run_forgets(
                        pre.connectors@,
                        cc,
                        rest,
                    ));
                }
            }
        }
        proof {
            assert(queue@.subrange(k as int, queue@.len() as int) =~= Seq::<usize>::empty());
            assert(run_forgets(cini, cc, qini) == self.connectors@);
            lemma_antitone_trans(old(self).connectors@, mid.connectors@, self.connectors@);
        }
    }

    /// Sets a connector's value on behalf of an external caller and fans the
    /// change out through the network. An equal value on a cell that is
    /// already known succeeds without further propagation; a different one
    /// is a contradiction, named with both values, and mutates nothing; on a
    /// cell that was unknown the value is recorded with the caller as
    /// informant, every previously known cell keeps its value, and the first
    /// contradiction met anywhere in the fan-out is reported. The cells left
    /// behind and the result are exactly `set_outcome` of the state the call
    /// found: the whole propagation is a function of that state, so two
    /// identical networks given the same call end identical.
    pub fn set_value(&mut self, conn: usize, value: i64, informer: usize) -> (r: Result<
        (),
        Contradiction,
    >)
        requires
            old(self).wf(),
            conn < old(self).connectors@.len(),
        ensures
            final(self).wf(),
            same_shape(*old(self), *final(self)),
            final(self).connectors@ == set_outcome(
                old(self).connectors@,
                old(self).constraints@,
                conn,
                value,
                Informant::External(informer),
            ).0,
            r == err_to_result(
                set_outcome(
                    old(self).connectors@,
                    old(self).constraints@,
                    conn,
                    value,
                    Informant::External(informer),
                ).1,
            ),
            match old(self).connectors@[conn as int].value {
                Some(v) => {
                    &&& final(self).connectors@ == old(self).connectors@
                    &&& r == (if v == value {
                        Ok::<(), Contradiction>(())
                    } else {
                        Err::<(), Contradiction>(Contradiction { current: v, proposed: value })
                    })
                },
                None => {
                    &&& final(self).connectors@[conn as int].value == Some(value)
                    &&& final(self).connectors@[conn as int].informant == Some(
                        Informant::External(informer),
                    )
                    &&& values_monotone(old(self).connectors@, final(self).connectors@)
                    &&& (old(self).connectors@[conn as int].constraints@.len() == 0 ==> r
                        == Ok::<(), Contradiction>(()) && final(self).connectors@ == set_cell(
                        old(self).connectors@,
                        conn,
                        value,
                        Informant::External(informer),
                    ))
                    &&& (!has_multiplier(old(self).constraints@) ==> r == Ok::<(), Contradiction>(
                        (),
                    ))
                },
            },
    {
        self.run_set(conn, value, Informant::External(informer))
    }

    /// Retracts a connector's value on behalf of an external caller: a no-op
    /// unless the caller is the cell's current informant, in which case the
    /// cell is cleared and the retraction fans out to the attached
    /// constraints, each further cell again deciding by its informant. No
    /// cell ever gains or changes a value during a retraction, and the cells
    /// left behind are exactly `forget_outcome` of the state the call found.
    pub fn forget_value(&mut self, conn: usize, informer: usize)
        requires
            old(self).wf(),
            conn < old(self).connectors@.len(),
        ensures
            final(self).wf(),
            same_shape(*old(self), *final(self)),
            values_antitone(old(self).connectors@, final(self).connectors@),
            final(self).connectors@ == forget_outcome(
                old(self).connectors@,
                old(self).constraints@,
                conn,
                Informant::External(informer),
            ),
            old(self).connectors@[conn as int].informant != Some(Informant::External(informer))
                ==> final(self).connectors@ == old(self).connectors@,
            old(self).connectors@[conn as int].informant == Some(Informant::External(informer))
                ==> final(self).connectors@[conn as int].value is None
                && final(self).connectors@[conn as int].informant is None,
    {
        self.run_forget(conn, Informant::External(informer))
    }
}

} // verus!
