//! The constant constraint: one connector asserted to one fixed value, once,
//! at construction.

use crate::propagate::connector_wf;
use crate::propagate::has_multiplier;
use crate::propagate::lemma_monotone_trans;
use crate::propagate::set_outcome;
use crate::propagate::values_monotone;
use crate::propagate::Connector;
use crate::propagate::Constraint;
use crate::propagate::Contradiction;
use crate::propagate::Informant;
use crate::propagate::Network;
use crate::propagate::Propagate;
use vstd::prelude::*;

verus! {

/// Asserts a fixed value on one connector at construction and never reacts
/// to, or relinquishes, that assertion afterwards.
#[derive(Clone, Copy)]
pub struct Constant {
    /// The constraint's stable identity: its index in the network.
    pub id: usize,
    /// The asserted value.
    pub value: i64,
    /// Index of the connector the value is asserted on.
    pub conn: usize,
}

impl Constant {
    /// Creates a constant, attaches it to `conn`, and immediately asserts
    /// `value` there under its own identity, fanning the assertion out: the
    /// cells left behind and the result are exactly `set_outcome` of the
    /// attached network. On a cell that already holds a different value the
    /// assertion is a contradiction, named with both values; the constant
    /// stays attached and the cell keeps its value either way.
    pub fn new(net: &mut Network, value: i64, conn: usize) -> (r: Result<usize, Contradiction>)
        requires
            old(net).wf(),
            conn < old(net).connectors@.len(),
        ensures
            final(net).wf(),
            final(net).constraints@ == old(net).constraints@.push(
                Constraint::Constant(
                    Constant { id: old(net).constraints@.len() as usize, value, conn },
                ),
            ),
            final(net).connectors@.len() == old(net).connectors@.len(),
            forall|i: int|
                0 <= i < old(net).connectors@.len() ==> final(net).connectors@[i].constraints@ == (
                if i == conn {
                    old(net).connectors@[i].constraints@.push(
                        old(net).constraints@.len() as usize,
                    )
                } else {
                    old(net).connectors@[i].constraints@
                }),
            ({
                let cid = old(net).constraints@.len() as usize;
                let attached = Seq::new(
                    old(net).connectors@.len(),
                    |i: int|
                        (Connector {
                            value: old(net).connectors@[i].value,
                            informant: old(net).connectors@[i].informant,
                            constraints: final(net).connectors@[i].constraints,
                        }),
                );
                let out = set_outcome(
                    attached,
                    old(net).constraints@.push(
                        Constraint::Constant(Constant { id: cid, value, conn }),
                    ),
                    conn,
                    value,
                    Informant::Constraint(cid),
                );
                &&& final(net).connectors@ == out.0
                &&& r == (match out.1 {
                    None => Ok::<usize, Contradiction>(cid),
                    Some(c) => Err::<usize, Contradiction>(c),
                })
            }),
            match old(net).connectors@[conn as int].value {
                None => {
                    &&& final(net).connectors@[conn as int].value == Some(value)
                    &&& final(net).connectors@[conn as int].informant == Some(
                        Informant::Constraint(old(net).constraints@.len() as usize),
                    )
                    &&& values_monotone(old(net).connectors@, final(net).connectors@)
                    &&& (r matches Ok(i) ==> i == old(net).constraints@.len())
                    &&& (!has_multiplier(old(net).constraints@) ==> r == Ok::<usize, Contradiction>(
                        old(net).constraints@.len() as usize,
                    ))
                },
                Some(v) => {
                    &&& (forall|i: int|
                        0 <= i < old(net).connectors@.len()
                            ==> final(net).connectors@[i].value == old(net).connectors@[i].value
                            && final(net).connectors@[i].informant == old(
                            net,
                        ).connectors@[i].informant)
                    &&& r == (if v == value {
                        Ok::<usize, Contradiction>(old(net).constraints@.len() as usize)
                    } else {
                        Err::<usize, Contradiction>(Contradiction { current: v, proposed: value })
                    })
                },
            },
    {
        let id = net.constraints.len();
        net.constraints.push(Constraint::Constant(Constant { id, value, conn }));
        proof {
            assert forall|j: int| 0 <= j < net.connectors@.len() implies connector_wf(
                net.connectors@[j],
                net.constraints@.len() as int,
            ) by {
                assert(connector_wf(net.connectors@[j], old(net).constraints@.len() as int));
            }
            assert(connector_wf(old(net).connectors@[conn as int], id as int));
        }
        net.attach(conn, id);
        let ghost g = *net;
        proof {
            assert(values_monotone(old(net).connectors@, g.connectors@));
            if !has_multiplier(old(net).constraints@) {
                assert(!has_multiplier(g.constraints@)) by {
                    assert forall|i: int|
                        0 <= i < g.constraints@.len() implies !(g.constraints@[i]
                        is Multiplier) by {
                        if i < old(net).constraints@.len() {
                            assert(g.constraints@[i] == old(net).constraints@[i]);
                        }
                    }
                }
            }
        }
        let res = net.run_set(conn, value, Informant::Constraint(id));
        proof {
            if old(net).connectors@[conn as int].value is None {
                lemma_monotone_trans(
                    old(net).connectors@,
                    g.connectors@,
                    final(net).connectors@,
                );
            }
            let attached = Seq::new(
                old(net).connectors@.len(),
                |i: int|
                    (Connector {
                        value: old(net).connectors@[i].value,
                        informant: old(net).connectors@[i].informant,
                        constraints: final(net).connectors@[i].constraints,
                    }),
            );
            assert forall|i: int| 0 <= i < attached.len() implies attached[i]
                == g.connectors@[i] by {
                assert(g.connectors@[i].value == old(net).connectors@[i].value);
                assert(g.connectors@[i].informant == old(net).connectors@[i].informant);
                assert(final(net).connectors@[i].constraints == g.connectors@[i].constraints);
            }
            assert(attached =~= g.connectors@);
            assert(g.constraints@ == old(net).constraints@.push(
                Constraint::Constant(Constant { id, value, conn }),
            ));
        }
        match res {
            Ok(_) => Ok(id),
            Err(c) => Err(c),
        }
    }
}

impl Propagate for Constant {
    open spec fn cid(&self) -> usize {
        self.id
    }

    open spec fn valid(&self, net: Network) -> bool {
        &&& self.conn < net.connectors@.len()
        &&& self.id < net.constraints@.len()
    }

    open spec fn updated(&self, cs: Seq<Connector>) -> Seq<Connector> {
        cs
    }

    open spec fn update_queue(&self, cs: Seq<Connector>) -> Seq<usize> {
        Seq::empty()
    }

    open spec fn update_err(&self, cs: Seq<Connector>) -> Option<Contradiction> {
        None
    }

    open spec fn forgot(&self, cs: Seq<Connector>) -> Seq<Connector> {
        cs
    }

    open spec fn forget_queue(&self, cs: Seq<Connector>) -> Seq<usize> {
        Seq::empty()
    }

    fn id(&self) -> (r: usize) {
        self.id
    }

    /// A constant never reacts to a change: its assertion was made once, at
    /// construction, and stands.
    fn update(&self, net: &mut Network, queue: &mut Vec<usize>) -> (r: Result<(), Contradiction>) {
        proof {
            assert(old(queue)@ + Seq::<usize>::empty() =~= old(queue)@);
        }
        Ok(())
    }

    /// A constant never relinquishes its assertion.
    fn forget(&self, net: &mut Network, queue: &mut Vec<usize>) {
        proof {
            assert(old(queue)@ + Seq::<usize>::empty() =~= old(queue)@);
        }
    }
}

} // verus!
