//! The adder constraint: three connectors related by `a1 + a2 = sum`.

use crate::propagate::connector_wf;
use crate::propagate::excluded;
use crate::propagate::forget_one;
use crate::propagate::lemma_antitone_trans;
use crate::propagate::lemma_count_known_clear;
use crate::propagate::lemma_count_unknown_set;
use crate::propagate::lemma_excluded_bound;
use crate::propagate::lemma_forget_one_antitone;
use crate::propagate::lemma_set_cell_monotone;
use crate::propagate::run_updates;
use crate::propagate::set_cell;
use crate::propagate::set_outcome;
use crate::propagate::Connector;
use crate::propagate::Constraint;
use crate::propagate::Contradiction;
use crate::propagate::Informant;
use crate::propagate::Network;
use crate::propagate::Propagate;
use vstd::prelude::*;

verus! {

/// Relates three connectors of a network by `a1 + a2 = sum`. Once any two of
/// the three hold values, one update step infers the third.
#[derive(Clone, Copy)]
pub struct Adder {
    /// The constraint's stable identity: its index in the network.
    pub id: usize,
    /// Index of the first addend's connector.
    pub a1: usize,
    /// Index of the second addend's connector.
    pub a2: usize,
    /// Index of the sum's connector.
    pub sum: usize,
}

/// Once any two of an adder's three cells are known, one update step leaves
/// the third equal to their algebraic relation — sum as the addends' sum, a
/// missing addend as the difference — while the two known cells keep their
/// values, whenever that result is representable.
pub proof fn lemma_adder_determines_third(a: Adder, cs: Seq<Connector>)
    requires
        a.a1 < cs.len(),
        a.a2 < cs.len(),
        a.sum < cs.len(),
    ensures
        cs[a.a1 as int].value is Some && cs[a.a2 as int].value is Some
            && cs[a.sum as int].value is None && i64::MIN <= cs[a.a1 as int].value->Some_0
            + cs[a.a2 as int].value->Some_0 <= i64::MAX ==> {
            &&& a.updated(cs)[a.a1 as int].value == cs[a.a1 as int].value
            &&& a.updated(cs)[a.a2 as int].value == cs[a.a2 as int].value
            &&& a.updated(cs)[a.sum as int].value == Some(
                (cs[a.a1 as int].value->Some_0 + cs[a.a2 as int].value->Some_0) as i64,
            )
        },
        cs[a.a1 as int].value is Some && cs[a.a2 as int].value is None
            && cs[a.sum as int].value is Some && i64::MIN <= cs[a.sum as int].value->Some_0
            - cs[a.a1 as int].value->Some_0 <= i64::MAX ==> {
            &&& a.updated(cs)[a.a1 as int].value == cs[a.a1 as int].value
            &&& a.updated(cs)[a.sum as int].value == cs[a.sum as int].value
            &&& a.updated(cs)[a.a2 as int].value == Some(
                (cs[a.sum as int].value->Some_0 - cs[a.a1 as int].value->Some_0) as i64,
            )
        },
        cs[a.a1 as int].value is None && cs[a.a2 as int].value is Some
            && cs[a.sum as int].value is Some && i64::MIN <= cs[a.sum as int].value->Some_0
            - cs[a.a2 as int].value->Some_0 <= i64::MAX ==> {
            &&& a.updated(cs)[a.a2 as int].value == cs[a.a2 as int].value
            &&& a.updated(cs)[a.sum as int].value == cs[a.sum as int].value
            &&& a.updated(cs)[a.a1 as int].value == Some(
                (cs[a.sum as int].value->Some_0 - cs[a.a2 as int].value->Some_0) as i64,
            )
        },
{
}

/// One update step settles an adder: stepping it again infers nothing more.
pub proof fn lemma_adder_update_idempotent(a: Adder, cs: Seq<Connector>)
    requires
        a.a1 < cs.len(),
        a.a2 < cs.len(),
        a.sum < cs.len(),
    ensures
        a.updated(a.updated(cs)) == a.updated(cs),
{
}

/// Leaving an informer out of a one-entry notification list: everything
/// stays unless the entry is the informer itself.
proof fn lemma_excluded_singleton(id: usize, who: Informant)
    ensures
        excluded(seq![id], who) == (if Informant::Constraint(id) == who {
            Seq::<usize>::empty()
        } else {
            seq![id]
        }),
{
    assert(excluded(Seq::<usize>::empty(), who) == Seq::<usize>::empty());
    assert(seq![id].drop_last() =~= Seq::<usize>::empty());
    assert(seq![id].last() == id);
    if Informant::Constraint(id) == who {
        assert(excluded(seq![id], who) =~= Seq::<usize>::empty());
    } else {
        assert(excluded(seq![id], who) =~= seq![id]);
    }
}

/// Feeding an adder its two addends by external set calls leaves the same
/// network whichever came first, with the sum inferred as their algebraic
/// sum: the end-to-end form, over `set_outcome`, of order independence. The
/// adder relates three distinct cells that hold nothing yet and have only
/// this adder attached.
pub proof fn lemma_adder_external_sets_commute(
    a: Adder,
    cs: Seq<Connector>,
    constraints: Seq<Constraint>,
    x: i64,
    y: i64,
    e1: usize,
    e2: usize,
)
    requires
        a.a1 < cs.len(),
        a.a2 < cs.len(),
        a.sum < cs.len(),
        a.a1 != a.a2,
        a.a1 != a.sum,
        a.a2 != a.sum,
        a.id < constraints.len(),
        constraints[a.id as int] == Constraint::Adder(a),
        cs[a.a1 as int].value is None,
        cs[a.a2 as int].value is None,
        cs[a.sum as int].value is None,
        cs[a.a1 as int].constraints@ == seq![a.id],
        cs[a.a2 as int].constraints@ == seq![a.id],
        cs[a.sum as int].constraints@ == seq![a.id],
        i64::MIN <= x + y <= i64::MAX,
    ensures
        ({
            let both = set_outcome(
                set_outcome(cs, constraints, a.a1, x, Informant::External(e1)).0,
                constraints,
                a.a2,
                y,
                Informant::External(e2),
            ).0;
            let swapped = set_outcome(
                set_outcome(cs, constraints, a.a2, y, Informant::External(e2)).0,
                constraints,
                a.a1,
                x,
                Informant::External(e1),
            ).0;
            &&& both == swapped
            &&& both[a.sum as int].value == Some((x + y) as i64)
            &&& both[a.a1 as int].value == Some(x)
            &&& both[a.a2 as int].value == Some(y)
        }),
{
    let ext1 = Informant::External(e1);
    let ext2 = Informant::External(e2);
    let wid = Informant::Constraint(a.id);
    let s = (x + y) as i64;
    lemma_excluded_singleton(a.id, ext1);
    lemma_excluded_singleton(a.id, ext2);
    lemma_excluded_singleton(a.id, wid);
    assert(seq![a.id].subrange(1, 1) =~= Seq::<usize>::empty());
    assert(Seq::<usize>::empty() + Seq::<usize>::empty() =~= Seq::<usize>::empty());

    // first order: a1 gets x, the adder cannot fire yet
    let g1 = set_cell(cs, a.a1, x, ext1);
    assert(a.updated(g1) == g1);
    assert(run_updates(g1, constraints, Seq::<usize>::empty()) == (g1, None::<Contradiction>));
    assert(run_updates(g1, constraints, seq![a.id]).0 == g1);
    assert(set_outcome(cs, constraints, a.a1, x, ext1).0 == g1);
    // then a2 gets y and the adder infers the sum
    let g2 = set_cell(g1, a.a2, y, ext2);
    assert(g2[a.a1 as int].value == Some(x));
    assert(x.checked_add(y) == Some(s));
    let g3 = set_cell(g2, a.sum, s, wid);
    assert(a.updated(g2) == g3);
    assert(a.update_queue(g2) == Seq::<usize>::empty());
    lemma_count_unknown_set(
        g2,
        a.sum as int,
        (Connector {
            value: Some(s),
            informant: Some(wid),
            constraints: g2[a.sum as int].constraints,
        }),
    );
    assert(run_updates(g3, constraints, Seq::<usize>::empty()) == (g3, None::<Contradiction>));
    assert(run_updates(g2, constraints, seq![a.id]).0 == g3);
    assert(set_outcome(g1, constraints, a.a2, y, ext2).0 == g3);

    // swapped order: a2 gets y first, then a1 gets x
    let h1 = set_cell(cs, a.a2, y, ext2);
    assert(a.updated(h1) == h1);
    assert(run_updates(h1, constraints, Seq::<usize>::empty()) == (h1, None::<Contradiction>));
    assert(run_updates(h1, constraints, seq![a.id]).0 == h1);
    assert(set_outcome(cs, constraints, a.a2, y, ext2).0 == h1);
    let h2 = set_cell(h1, a.a1, x, ext1);
    assert(h2[a.a2 as int].value == Some(y));
    let h3 = set_cell(h2, a.sum, s, wid);
    assert(a.updated(h2) == h3);
    assert(a.update_queue(h2) == Seq::<usize>::empty());
    lemma_count_unknown_set(
        h2,
        a.sum as int,
        (Connector {
            value: Some(s),
            informant: Some(wid),
            constraints: h2[a.sum as int].constraints,
        }),
    );
    assert(run_updates(h3, constraints, Seq::<usize>::empty()) == (h3, None::<Contradiction>));
    assert(run_updates(h2, constraints, seq![a.id]).0 == h3);
    assert(set_outcome(h1, constraints, a.a1, x, ext1).0 == h3);

    // the two final states are the same cells in the same states
    assert(g3 =~= h3);
}

/// An adder's update step reads nothing but the current values of its three
/// cells: two networks whose cells agree are stepped to agreeing cells. In
/// particular, the order in which the two known values arrived cannot
/// influence what the step infers.
pub proof fn lemma_adder_update_depends_only_on_values(
    a: Adder,
    cs1: Seq<Connector>,
    cs2: Seq<Connector>,
)
    requires
        a.a1 < cs1.len(),
        a.a2 < cs1.len(),
        a.sum < cs1.len(),
        a.a1 < cs2.len(),
        a.a2 < cs2.len(),
        a.sum < cs2.len(),
        cs1[a.a1 as int].value == cs2[a.a1 as int].value,
        cs1[a.a2 as int].value == cs2[a.a2 as int].value,
        cs1[a.sum as int].value == cs2[a.sum as int].value,
    ensures
        a.updated(cs1)[a.a1 as int].value == a.updated(cs2)[a.a1 as int].value,
        a.updated(cs1)[a.a2 as int].value == a.updated(cs2)[a.a2 as int].value,
        a.updated(cs1)[a.sum as int].value == a.updated(cs2)[a.sum as int].value,
{
}

impl Adder {
    /// Creates an adder relating `a1 + a2 = sum` over three connectors of
    /// `net`, attaches it to them in that order, and returns its identity.
    /// Construction only wires the constraint up: nothing is inferred until
    /// one of the connectors changes.
    pub fn new(net: &mut Network, a1: usize, a2: usize, sum: usize) -> (r: usize)
        requires
            old(net).wf(),
            a1 < old(net).connectors@.len(),
            a2 < old(net).connectors@.len(),
            sum < old(net).connectors@.len(),
        ensures
            final(net).wf(),
            r == old(net).constraints@.len(),
            final(net).constraints@ == old(net).constraints@.push(
                Constraint::Adder(Adder { id: r, a1, a2, sum }),
            ),
            final(net).connectors@.len() == old(net).connectors@.len(),
            forall|i: int|
                0 <= i < old(net).connectors@.len() ==> {
                    &&& final(net).connectors@[i].value == old(net).connectors@[i].value
                    &&& final(net).connectors@[i].informant == old(net).connectors@[i].informant
                    &&& final(net).connectors@[i].constraints@ == (if i == a1 || i == a2 || i
                        == sum {
                        old(net).connectors@[i].constraints@.push(r)
                    } else {
                        old(net).connectors@[i].constraints@
                    })
                },
    {
        let id = net.constraints.len();
        net.constraints.push(Constraint::Adder(Adder { id, a1, a2, sum }));
        proof {
            assert forall|j: int| 0 <= j < net.connectors@.len() implies connector_wf(
                net.connectors@[j],
                net.constraints@.len() as int,
            ) by {
                assert(connector_wf(net.connectors@[j], old(net).constraints@.len() as int));
            }
            assert(connector_wf(old(net).connectors@[a1 as int], id as int));
            assert(connector_wf(old(net).connectors@[a2 as int], id as int));
            assert(connector_wf(old(net).connectors@[sum as int], id as int));
        }
        net.attach(a1, id);
        let ghost g1 = *net;
        proof {
            if a2 == a1 {
                let olds = old(net).connectors@[a1 as int].constraints@;
                assert(g1.connectors@[a2 as int].constraints@[olds.len() as int] == id);
                assert(g1.connectors@[a2 as int].constraints@.contains(id));
            }
        }
        net.attach(a2, id);
        let ghost g2 = *net;
        proof {
            if sum == a1 || sum == a2 {
                let gs = g2.connectors@[sum as int].constraints@;
                assert(gs.contains(id)) by {
                    if sum == a2 && a2 != a1 {
                        assert(gs[g1.connectors@[a2 as int].constraints@.len() as int] == id);
                    } else {
                        assert(g2.connectors@[a1 as int].constraints@[old(net).connectors@[a1 as int].constraints@.len() as int]
                            == id);
                    }
                }
            }
        }
        net.attach(sum, id);
        id
    }
}

impl Propagate for Adder {
    open spec fn cid(&self) -> usize {
        self.id
    }

    open spec fn valid(&self, net: Network) -> bool {
        &&& self.a1 < net.connectors@.len()
        &&& self.a2 < net.connectors@.len()
        &&& self.sum < net.connectors@.len()
        &&& self.id < net.constraints@.len()
    }

    open spec fn updated(&self, cs: Seq<Connector>) -> Seq<Connector> {
        let w = Informant::Constraint(self.id);
        match (cs[self.a1 as int].value, cs[self.a2 as int].value, cs[self.sum as int].value) {
            (Some(x), Some(y), None) => match x.checked_add(y) {
                Some(s) => set_cell(cs, self.sum, s, w),
                None => cs,
            },
            (Some(x), None, Some(t)) => match t.checked_sub(x) {
                Some(d) => set_cell(cs, self.a2, d, w),
                None => cs,
            },
            (None, Some(y), Some(t)) => match t.checked_sub(y) {
                Some(d) => set_cell(cs, self.a1, d, w),
                None => cs,
            },
            _ => cs,
        }
    }

    open spec fn update_queue(&self, cs: Seq<Connector>) -> Seq<usize> {
        let w = Informant::Constraint(self.id);
        match (cs[self.a1 as int].value, cs[self.a2 as int].value, cs[self.sum as int].value) {
            (Some(x), Some(y), None) => match x.checked_add(y) {
                Some(s) => excluded(cs[self.sum as int].constraints@, w),
                None => Seq::empty(),
            },
            (Some(x), None, Some(t)) => match t.checked_sub(x) {
                Some(d) => excluded(cs[self.a2 as int].constraints@, w),
                None => Seq::empty(),
            },
            (None, Some(y), Some(t)) => match t.checked_sub(y) {
                Some(d) => excluded(cs[self.a1 as int].constraints@, w),
                None => Seq::empty(),
            },
            _ => Seq::empty(),
        }
    }

    open spec fn update_err(&self, cs: Seq<Connector>) -> Option<Contradiction> {
        None
    }

    open spec fn forgot(&self, cs: Seq<Connector>) -> Seq<Connector> {
        let w = Informant::Constraint(self.id);
        let s1 = forget_one(cs, self.a1, w);
        let s2 = forget_one(s1.0, self.a2, w);
        let s3 = forget_one(s2.0, self.sum, w);
        s3.0
    }

    open spec fn forget_queue(&self, cs: Seq<Connector>) -> Seq<usize> {
        let w = Informant::Constraint(self.id);
        let s1 = forget_one(cs, self.a1, w);
        let s2 = forget_one(s1.0, self.a2, w);
        let s3 = forget_one(s2.0, self.sum, w);
        s1.1 + s2.1 + s3.1
    }

    fn id(&self) -> (r: usize) {
        self.id
    }

    fn update(&self, net: &mut Network, queue: &mut Vec<usize>) -> (r: Result<(), Contradiction>) {
        let w = Informant::Constraint(self.id);
        let v1 = net.connectors[self.a1].value;
        let v2 = net.connectors[self.a2].value;
        let vs = net.connectors[self.sum].value;
        let res: Option<Contradiction> = match (v1, v2, vs) {
            (Some(x), Some(y), None) => match x.checked_add(y) {
                Some(s) => net.do_set(self.sum, s, w, queue),
                None => None,
            },
            (Some(x), None, Some(t)) => match t.checked_sub(x) {
                Some(d) => net.do_set(self.a2, d, w, queue),
                None => None,
            },
            (None, Some(y), Some(t)) => match t.checked_sub(y) {
                Some(d) => net.do_set(self.a1, d, w, queue),
                None => None,
            },
            _ => None,
        };
        proof {
            let cs = old(net).connectors@;
            let m = old(net).constraints@.len() as int;
            assert(old(queue)@ + Seq::<usize>::empty() =~= old(queue)@);
            match (cs[self.a1 as int].value, cs[self.a2 as int].value, cs[self.sum as int].value) {
                (Some(x), Some(y), None) => {
                    if x.checked_add(y) is Some {
                        let s = x.checked_add(y)->Some_0;
                        assert(connector_wf(cs[self.sum as int], m));
                        lemma_excluded_bound(cs[self.sum as int].constraints@, w, m);
                        lemma_set_cell_monotone(cs, self.sum, s, w);
                        lemma_count_unknown_set(
                            cs,
                            self.sum as int,
                            (Connector {
                                value: Some(s),
                                informant: Some(w),
                                constraints: cs[self.sum as int].constraints,
                            }),
                        );
                    }
                },
                (Some(x), None, Some(t)) => {
                    if t.checked_sub(x) is Some {
                        let d = t.checked_sub(x)->Some_0;
                        assert(connector_wf(cs[self.a2 as int], m));
                        lemma_excluded_bound(cs[self.a2 as int].constraints@, w, m);
                        lemma_set_cell_monotone(cs, self.a2, d, w);
                        lemma_count_unknown_set(
                            cs,
                            self.a2 as int,
                            (Connector {
                                value: Some(d),
                                informant: Some(w),
                                constraints: cs[self.a2 as int].constraints,
                            }),
                        );
                    }
                },
                (None, Some(y), Some(t)) => {
                    if t.checked_sub(y) is Some {
                        let d = t.checked_sub(y)->Some_0;
                        assert(connector_wf(cs[self.a1 as int], m));
                        lemma_excluded_bound(cs[self.a1 as int].constraints@, w, m);
                        lemma_set_cell_monotone(cs, self.a1, d, w);
                        lemma_count_unknown_set(
                            cs,
                            self.a1 as int,
                            (Connector {
                                value: Some(d),
                                informant: Some(w),
                                constraints: cs[self.a1 as int].constraints,
                            }),
                        );
                    }
                },
                _ => {},
            }
        }
        match res {
            Some(c) => Err(c),
            None => Ok(()),
        }
    }

    fn forget(&self, net: &mut Network, queue: &mut Vec<usize>) {
        let w = Informant::Constraint(self.id);
        let ghost cs0 = old(net).connectors@;
        let ghost m = old(net).constraints@.len() as int;
        net.do_forget(self.a1, w, queue);
        let ghost n1 = *net;
        net.do_forget(self.a2, w, queue);
        let ghost n2 = *net;
        net.do_forget(self.sum, w, queue);
        proof {
            let cs1 = n1.connectors@;
            let cs2 = n2.connectors@;
            let cs3 = final(net).connectors@;
            lemma_forget_one_antitone(cs0, self.a1, w);
            lemma_forget_one_antitone(cs1, self.a2, w);
            lemma_forget_one_antitone(cs2, self.sum, w);
            lemma_antitone_trans(cs0, cs1, cs2);
            lemma_antitone_trans(cs0, cs2, cs3);
            let q1 = forget_one(cs0, self.a1, w).1;
            let q2 = forget_one(cs1, self.a2, w).1;
            let q3 = forget_one(cs2, self.sum, w).1;
            assert(old(queue)@ + q1 + q2 + q3 =~= old(queue)@ + (q1 + q2 + q3));
            assert(connector_wf(cs0[self.a1 as int], m));
            assert(connector_wf(cs1[self.a2 as int], m));
            assert(connector_wf(cs2[self.sum as int], m));
            lemma_excluded_bound(cs0[self.a1 as int].constraints@, w, m);
            lemma_excluded_bound(cs1[self.a2 as int].constraints@, w, m);
            lemma_excluded_bound(cs2[self.sum as int].constraints@, w, m);
            if cs0[self.a1 as int].informant == Some(w) {
                lemma_count_known_clear(
                    cs0,
                    self.a1 as int,
                    (Connector {
                        value: None,
                        informant: None,
                        constraints: cs0[self.a1 as int].constraints,
                    }),
                );
            }
            if cs1[self.a2 as int].informant == Some(w) {
                lemma_count_known_clear(
                    cs1,
                    self.a2 as int,
                    (Connector {
                        value: None,
                        informant: None,
                        constraints: cs1[self.a2 as int].constraints,
                    }),
                );
            }
            if cs2[self.sum as int].informant == Some(w) {
                lemma_count_known_clear(
                    cs2,
                    self.sum as int,
                    (Connector {
                        value: None,
                        informant: None,
                        constraints: cs2[self.sum as int].constraints,
                    }),
                );
            }
            if cs0[self.a1 as int].informant != Some(w) && cs1[self.a2 as int].informant != Some(w)
                && cs2[self.sum as int].informant != Some(w) {
                assert(q1 + q2 + q3 =~= Seq::<usize>::empty());
            }
        }
    }
}

} // verus!
