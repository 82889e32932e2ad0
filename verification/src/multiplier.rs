//! The multiplier constraint: three connectors related by `m1 * m2 = product`,
//! with the rule that a known zero factor forces the product to zero.

use crate::propagate::connector_wf;
use crate::propagate::excluded;
use crate::propagate::forget_one;
use crate::propagate::lemma_antitone_trans;
use crate::propagate::lemma_count_known_clear;
use crate::propagate::lemma_count_unknown_set;
use crate::propagate::lemma_excluded_bound;
use crate::propagate::lemma_forget_one_antitone;
use crate::propagate::lemma_set_cell_monotone;
use crate::propagate::set_cell;
use crate::propagate::Connector;
use crate::propagate::Constraint;
use crate::propagate::Contradiction;
use crate::propagate::Informant;
use crate::propagate::Network;
use crate::propagate::Propagate;
use vstd::prelude::*;

verus! {

/// Relates three connectors of a network by `m1 * m2 = product`. A known
/// zero factor forces the product to zero even while the other factor is
/// unknown; otherwise, once any two of the three hold values, one update
/// step infers the third.
#[derive(Clone, Copy)]
pub struct Multiplier {
    /// The constraint's stable identity: its index in the network.
    pub id: usize,
    /// Index of the first factor's connector.
    pub m1: usize,
    /// Index of the second factor's connector.
    pub m2: usize,
    /// Index of the product's connector.
    pub product: usize,
}

/// If either factor of a multiplier is known to be zero, one update step
/// leaves the product zero, even while the other factor is unknown — and it
/// reports no contradiction, since the product was unknown or already zero.
pub proof fn lemma_multiplier_zero_forces_product(m: Multiplier, cs: Seq<Connector>)
    requires
        m.m1 < cs.len(),
        m.m2 < cs.len(),
        m.product < cs.len(),
        cs[m.m1 as int].value == Some(0i64) || cs[m.m2 as int].value == Some(0i64),
        cs[m.product as int].value is None || cs[m.product as int].value == Some(0i64),
    ensures
        m.updated(cs)[m.product as int].value == Some(0i64),
        m.update_err(cs) is None,
{
}

/// One update step settles a multiplier: stepping it again infers nothing
/// more.
pub proof fn lemma_multiplier_update_idempotent(m: Multiplier, cs: Seq<Connector>)
    requires
        m.m1 < cs.len(),
        m.m2 < cs.len(),
        m.product < cs.len(),
    ensures
        m.updated(m.updated(cs)) == m.updated(cs),
{
}

impl Multiplier {
    /// Creates a multiplier relating `m1 * m2 = product` over three
    /// connectors of `net`, attaches it to them in that order, and returns
    /// its identity. Construction only wires the constraint up: nothing is
    /// inferred until one of the connectors changes.
    pub fn new(net: &mut Network, m1: usize, m2: usize, product: usize) -> (r: usize)
        requires
            old(net).wf(),
            m1 < old(net).connectors@.len(),
            m2 < old(net).connectors@.len(),
            product < old(net).connectors@.len(),
        ensures
            final(net).wf(),
            r == old(net).constraints@.len(),
            final(net).constraints@ == old(net).constraints@.push(
                Constraint::Multiplier(Multiplier { id: r, m1, m2, product }),
            ),
            final(net).connectors@.len() == old(net).connectors@.len(),
            forall|i: int|
                0 <= i < old(net).connectors@.len() ==> {
                    &&& final(net).connectors@[i].value == old(net).connectors@[i].value
                    &&& final(net).connectors@[i].informant == old(net).connectors@[i].informant
                    &&& final(net).connectors@[i].constraints@ == (if i == m1 || i == m2 || i
                        == product {
                        old(net).connectors@[i].constraints@.push(r)
                    } else {
                        old(net).connectors@[i].constraints@
                    })
                },
    {
        let id = net.constraints.len();
        net.constraints.push(Constraint::Multiplier(Multiplier { id, m1, m2, product }));
        proof {
            assert forall|j: int| 0 <= j < net.connectors@.len() implies connector_wf(
                net.connectors@[j],
                net.constraints@.len() as int,
            ) by {
                assert(connector_wf(net.connectors@[j], old(net).constraints@.len() as int));
            }
            assert(connector_wf(old(net).connectors@[m1 as int], id as int));
            assert(connector_wf(old(net).connectors@[m2 as int], id as int));
            assert(connector_wf(old(net).connectors@[product as int], id as int));
        }
        net.attach(m1, id);
        let ghost g1 = *net;
        proof {
            if m2 == m1 {
                let olds = old(net).connectors@[m1 as int].constraints@;
                assert(g1.connectors@[m2 as int].constraints@[olds.len() as int] == id);
                assert(g1.connectors@[m2 as int].constraints@.contains(id));
            }
        }
        net.attach(m2, id);
        let ghost g2 = *net;
        proof {
            if product == m1 || product == m2 {
                let gs = g2.connectors@[product as int].constraints@;
                assert(gs.contains(id)) by {
                    if product == m2 && m2 != m1 {
                        assert(gs[g1.connectors@[m2 as int].constraints@.len() as int] == id);
                    } else {
                        assert(g2.connectors@[m1 as int].constraints@[old(net).connectors@[m1 as int].constraints@.len() as int]
                            == id);
                    }
                }
            }
        }
        net.attach(product, id);
        id
    }
}

impl Propagate for Multiplier {
    open spec fn cid(&self) -> usize {
        self.id
    }

    open spec fn valid(&self, net: Network) -> bool {
        &&& self.m1 < net.connectors@.len()
        &&& self.m2 < net.connectors@.len()
        &&& self.product < net.connectors@.len()
        &&& self.id < net.constraints@.len()
    }

    open spec fn updated(&self, cs: Seq<Connector>) -> Seq<Connector> {
        let w = Informant::Constraint(self.id);
        let v1 = cs[self.m1 as int].value;
        let v2 = cs[self.m2 as int].value;
        let vp = cs[self.product as int].value;
        if v1 == Some(0i64) || v2 == Some(0i64) {
            if vp is None {
                set_cell(cs, self.product, 0i64, w)
            } else {
                cs
            }
        } else {
            match (v1, v2, vp) {
                (Some(x), Some(y), None) => match x.checked_mul(y) {
                    Some(p) => set_cell(cs, self.product, p, w),
                    None => cs,
                },
                (Some(x), None, Some(p)) => match p.checked_div(x) {
                    Some(q) => set_cell(cs, self.m2, q, w),
                    None => cs,
                },
                (None, Some(y), Some(p)) => match p.checked_div(y) {
                    Some(q) => set_cell(cs, self.m1, q, w),
                    None => cs,
                },
                _ => cs,
            }
        }
    }

    open spec fn update_queue(&self, cs: Seq<Connector>) -> Seq<usize> {
        let w = Informant::Constraint(self.id);
        let v1 = cs[self.m1 as int].value;
        let v2 = cs[self.m2 as int].value;
        let vp = cs[self.product as int].value;
        if v1 == Some(0i64) || v2 == Some(0i64) {
            if vp is None {
                excluded(cs[self.product as int].constraints@, w)
            } else {
                Seq::empty()
            }
        } else {
            match (v1, v2, vp) {
                (Some(x), Some(y), None) => match x.checked_mul(y) {
                    Some(p) => excluded(cs[self.product as int].constraints@, w),
                    None => Seq::empty(),
                },
                (Some(x), None, Some(p)) => match p.checked_div(x) {
                    Some(q) => excluded(cs[self.m2 as int].constraints@, w),
                    None => Seq::empty(),
                },
                (None, Some(y), Some(p)) => match p.checked_div(y) {
                    Some(q) => excluded(cs[self.m1 as int].constraints@, w),
                    None => Seq::empty(),
                },
                _ => Seq::empty(),
            }
        }
    }

    open spec fn update_err(&self, cs: Seq<Connector>) -> Option<Contradiction> {
        let v1 = cs[self.m1 as int].value;
        let v2 = cs[self.m2 as int].value;
        let vp = cs[self.product as int].value;
        if v1 == Some(0i64) || v2 == Some(0i64) {
            match vp {
                Some(p) => if p == 0 {
                    None
                } else {
                    Some(Contradiction { current: p, proposed: 0 })
                },
                None => None,
            }
        } else {
            None
        }
    }

    open spec fn forgot(&self, cs: Seq<Connector>) -> Seq<Connector> {
        let w = Informant::Constraint(self.id);
        let s1 = forget_one(cs, self.m1, w);
        let s2 = forget_one(s1.0, self.m2, w);
        let s3 = forget_one(s2.0, self.product, w);
        s3.0
    }

    open spec fn forget_queue(&self, cs: Seq<Connector>) -> Seq<usize> {
        let w = Informant::Constraint(self.id);
        let s1 = forget_one(cs, self.m1, w);
        let s2 = forget_one(s1.0, self.m2, w);
        let s3 = forget_one(s2.0, self.product, w);
        s1.1 + s2.1 + s3.1
    }

    fn id(&self) -> (r: usize) {
        self.id
    }

    fn update(&self, net: &mut Network, queue: &mut Vec<usize>) -> (r: Result<(), Contradiction>) {
        let w = Informant::Constraint(self.id);
        let v1 = net.connectors[self.m1].value;
        let v2 = net.connectors[self.m2].value;
        let vp = net.connectors[self.product].value;
        let zero1 = match v1 {
            Some(x) => x == 0,
            None => false,
        };
        let zero2 = match v2 {
            Some(y) => y == 0,
            None => false,
        };
        let res: Option<Contradiction> = if zero1 || zero2 {
            net.do_set(self.product, 0, w, queue)
        } else {
            match (v1, v2, vp) {
                (Some(x), Some(y), None) => match x.checked_mul(y) {
                    Some(p) => net.do_set(self.product, p, w, queue),
                    None => None,
                },
                (Some(x), None, Some(p)) => match p.checked_div(x) {
                    Some(q) => net.do_set(self.m2, q, w, queue),
                    None => None,
                },
                (None, Some(y), Some(p)) => match p.checked_div(y) {
                    Some(q) => net.do_set(self.m1, q, w, queue),
                    None => None,
                },
                _ => None,
            }
        };
        proof {
            let cs = old(net).connectors@;
            let m = old(net).constraints@.len() as int;
            assert(old(queue)@ + Seq::<usize>::empty() =~= old(queue)@);
            if cs[self.m1 as int].value == Some(0i64) || cs[self.m2 as int].value == Some(0i64) {
                if cs[self.product as int].value is None {
                    assert(connector_wf(cs[self.product as int], m));
                    lemma_excluded_bound(cs[self.product as int].constraints@, w, m);
                    lemma_set_cell_monotone(cs, self.product, 0i64, w);
                    lemma_count_unknown_set(
                        cs,
                        self.product as int,
                        (Connector {
                            value: Some(0i64),
                            informant: Some(w),
                            constraints: cs[self.product as int].constraints,
                        }),
                    );
                }
            } else {
                match (
                    cs[self.m1 as int].value,
                    cs[self.m2 as int].value,
                    cs[self.product as int].value,
                ) {
                    (Some(x), Some(y), None) => {
                        if x.checked_mul(y) is Some {
                            let p = x.checked_mul(y)->Some_0;
                            assert(connector_wf(cs[self.product as int], m));
                            lemma_excluded_bound(cs[self.product as int].constraints@, w, m);
                            lemma_set_cell_monotone(cs, self.product, p, w);
                            lemma_count_unknown_set(
                                cs,
                                self.product as int,
                                (Connector {
                                    value: Some(p),
                                    informant: Some(w),
                                    constraints: cs[self.product as int].constraints,
                                }),
                            );
                        }
                    },
                    (Some(x), None, Some(p)) => {
                        if p.checked_div(x) is Some {
                            let q = p.checked_div(x)->Some_0;
                            assert(connector_wf(cs[self.m2 as int], m));
                            lemma_excluded_bound(cs[self.m2 as int].constraints@, w, m);
                            lemma_set_cell_monotone(cs, self.m2, q, w);
                            lemma_count_unknown_set(
                                cs,
                                self.m2 as int,
                                (Connector {
                                    value: Some(q),
                                    informant: Some(w),
                                    constraints: cs[self.m2 as int].constraints,
                                }),
                            );
                        }
                    },
                    (None, Some(y), Some(p)) => {
                        if p.checked_div(y) is Some {
                            let q = p.checked_div(y)->Some_0;
                            assert(connector_wf(cs[self.m1 as int], m));
                            lemma_excluded_bound(cs[self.m1 as int].constraints@, w, m);
                            lemma_set_cell_monotone(cs, self.m1, q, w);
                            lemma_count_unknown_set(
                                cs,
                                self.m1 as int,
                                (Connector {
                                    value: Some(q),
                                    informant: Some(w),
                                    constraints: cs[self.m1 as int].constraints,
                                }),
                            );
                        }
                    },
                    _ => {},
                }
            }
        }
        match res {
            Some(c) => Err(c),
            None => Ok(()),
        }
    }

    fn forget(&self, net: &mut Network, queue: &mut Vec<usize>) {
        let w = Informant::Constraint(self.id);
        let ghost cs0 = old(net).connectors@;
        let ghost m = old(net).constraints@.len() as int;
        net.do_forget(self.m1, w, queue);
        let ghost n1 = *net;
        net.do_forget(self.m2, w, queue);
        let ghost n2 = *net;
        net.do_forget(self.product, w, queue);
        proof {
            let cs1 = n1.connectors@;
            let cs2 = n2.connectors@;
            let cs3 = final(net).connectors@;
            lemma_forget_one_antitone(cs0, self.m1, w);
            lemma_forget_one_antitone(cs1, self.m2, w);
            lemma_forget_one_antitone(cs2, self.product, w);
            lemma_antitone_trans(cs0, cs1, cs2);
            lemma_antitone_trans(cs0, cs2, cs3);
            let q1 = forget_one(cs0, self.m1, w).1;
            let q2 = forget_one(cs1, self.m2, w).1;
            let q3 = forget_one(cs2, self.product, w).1;
            assert(old(queue)@ + q1 + q2 + q3 =~= old(queue)@ + (q1 + q2 + q3));
            assert(connector_wf(cs0[self.m1 as int], m));
            assert(connector_wf(cs1[self.m2 as int], m));
            assert(connector_wf(cs2[self.product as int], m));
            lemma_excluded_bound(cs0[self.m1 as int].constraints@, w, m);
            lemma_excluded_bound(cs1[self.m2 as int].constraints@, w, m);
            lemma_excluded_bound(cs2[self.product as int].constraints@, w, m);
            if cs0[self.m1 as int].informant == Some(w) {
                lemma_count_known_clear(
                    cs0,
                    self.m1 as int,
                    (Connector {
                        value: None,
                        informant: None,
                        constraints: cs0[self.m1 as int].constraints,
                    }),
                );
            }
            if cs1[self.m2 as int].informant == Some(w) {
                lemma_count_known_clear(
                    cs1,
                    self.m2 as int,
                    (Connector {
                        value: None,
                        informant: None,
                        constraints: cs1[self.m2 as int].constraints,
                    }),
                );
            }
            if cs2[self.product as int].informant == Some(w) {
                lemma_count_known_clear(
                    cs2,
                    self.product as int,
                    (Connector {
                        value: None,
                        informant: None,
                        constraints: cs2[self.product as int].constraints,
                    }),
                );
            }
            if cs0[self.m1 as int].informant != Some(w) && cs1[self.m2 as int].informant != Some(w)
                && cs2[self.product as int].informant != Some(w) {
                assert(q1 + q2 + q3 =~= Seq::<usize>::empty());
            }
        }
    }
}

} // verus!
